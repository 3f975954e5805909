//! The page's session: which picture is loaded, what is under way, and what the
//! page shows.

use vstd::prelude::*;

use crate::browser::ImageBuf;
use crate::browser::ModelStatus;
use crate::browser::UpscaleOptions;
use crate::text::decimal;
use crate::text::joined;
use crate::text::parse_i64;
use crate::text::parse_u32;

verus! {

/// The two parts that a model is made of.
#[derive(Clone, Copy, Debug, PartialEq, Eq, Structural)]
pub enum ModelPart {
    Unet,
    Vae,
}

/// What the page is doing.
#[derive(Debug)]
pub enum Status {
    Idle,
    CheckingGpu,
    LoadingModel(ModelPart, ModelStatus),
    BuildingPipeline,
    Running,
    Done,
    Error(String),
}

/// An upscale that was asked for.
pub struct Job {
    pub unet_url: String,
    pub vae_url: String,
    /// Whether the weights are the half-precision ones.
    pub half: bool,
    pub options: UpscaleOptions,
}

/// What a running job needs next.
#[derive(Clone, Copy, Debug, PartialEq, Eq, Structural)]
pub enum Need {
    /// The bytes of a part.
    Fetch(ModelPart),
    /// The pipeline, built of the parts.
    Build,
    /// The upscale itself.
    Run,
}

/// A page session. The bytes of the parts and the built pipeline are kept by
/// whoever owns the session; here stands which of them there are.
pub struct Session {
    /// Base URL of the model files.
    pub base_url: String,
    /// Denoising steps asked for.
    pub steps: u32,
    /// Noise level asked for.
    pub noise_level: i64,
    /// Whether half-precision weights are asked for.
    pub fp16: bool,
    /// The picture to upscale.
    pub original: Option<ImageBuf>,
    /// The upscaled picture.
    pub result: Option<ImageBuf>,
    pub status: Status,
    /// Whether a job is under way.
    pub busy: bool,
    /// Whether a file is being dragged over the drop zone.
    pub dragover: bool,
    /// Whether the denoiser's bytes are here.
    pub has_unet: bool,
    /// Whether the autoencoder's bytes are here.
    pub has_vae: bool,
    /// Whether the pipeline is built.
    pub has_pipeline: bool,
    /// The precision that those were fetched and built for.
    pub loaded_half: Option<bool>,
}

/// The URL of a part's weights.
pub open spec fn part_url(base: Seq<char>, part: ModelPart, half: bool) -> Seq<char> {
    base + match part {
        ModelPart::Unet => "/unet."@,
        ModelPart::Vae => "/vae."@,
    } + if half {
        "fp16.safetensors"@
    } else {
        "safetensors"@
    }
}

/// Words the URL of a part's weights.
fn url_of(base: &str, part: ModelPart, half: bool) -> (url: String)
    ensures
        url@ == part_url(base@, part, half),
{
    let mut url: String = joined(
        base,
        match part {
            ModelPart::Unet => "/unet.",
            ModelPart::Vae => "/vae.",
        },
    );
    url.append(if half { "fp16.safetensors" } else { "safetensors" });
    url
}

impl Session {
    /// What stays as it is when nothing but the status and the busy mark change.
    pub open spec fn same_store(&self, other: &Session) -> bool {
        &&& self.base_url == other.base_url
        &&& self.steps == other.steps
        &&& self.noise_level == other.noise_level
        &&& self.fp16 == other.fp16
        &&& self.original == other.original
        &&& self.result == other.result
        &&& self.dragover == other.dragover
        &&& self.has_unet == other.has_unet
        &&& self.has_vae == other.has_vae
        &&& self.has_pipeline == other.has_pipeline
        &&& self.loaded_half == other.loaded_half
    }

    /// A fresh page.
    pub fn new() -> (session: Session)
        ensures
            session.base_url@ == "/models"@,
            session.steps == 20,
            session.noise_level == 20,
            !session.fp16,
            session.original is None,
            session.result is None,
            session.status is Idle,
            !session.busy,
            !session.dragover,
            !session.has_unet && !session.has_vae && !session.has_pipeline,
            session.loaded_half is None,
    {
        Session {
            base_url: "/models".to_owned(),
            steps: 20,
            noise_level: 20,
            fp16: false,
            original: None,
            result: None,
            status: Status::Idle,
            busy: false,
            dragover: false,
            has_unet: false,
            has_vae: false,
            has_pipeline: false,
            loaded_half: None,
        }
    }

    /// A picture was chosen; it is about to be decoded.
    pub fn file_chosen(&mut self)
        ensures
            final(self).status is Idle,
            final(self).busy == old(self).busy,
            final(self).same_store(old(self)),
    {
        self.status = Status::Idle;
    }

    /// The chosen picture was decoded, or not.
    pub fn decoded(&mut self, picture: Result<ImageBuf, String>)
        ensures
            final(self).busy == old(self).busy,
            final(self).base_url == old(self).base_url,
            final(self).steps == old(self).steps,
            final(self).noise_level == old(self).noise_level,
            final(self).fp16 == old(self).fp16,
            final(self).dragover == old(self).dragover,
            final(self).has_unet == old(self).has_unet,
            final(self).has_vae == old(self).has_vae,
            final(self).has_pipeline == old(self).has_pipeline,
            final(self).loaded_half == old(self).loaded_half,
            picture matches Ok(p) ==> final(self).original == Some(p) && final(self).result is None
                && final(self).status == old(self).status,
            picture matches Err(e) ==> final(self).original == old(self).original
                && final(self).result == old(self).result && error_is(
                final(self).status,
                "failed to decode image: "@,
                e@,
            ),
    {
        match picture {
            Ok(picture) => {
                self.original = Some(picture);
                self.result = None;
            },
            Err(e) => {
                self.status = Status::Error(joined("failed to decode image: ", e.as_str()));
            },
        }
    }

    /// The steps slider was moved; what is not a number is ignored.
    pub fn steps_entered(&mut self, text: &str)
        ensures
            final(self).steps == steps_after(text@, old(self).steps as int),
            *final(self) == (Session { steps: final(self).steps, ..*old(self) }),
    {
        match parse_u32(text) {
            Some(n) => {
                self.steps = n;
            },
            None => {},
        }
    }

    /// The noise slider was moved; what is not a number is ignored.
    pub fn noise_entered(&mut self, text: &str)
        ensures
            final(self).noise_level == noise_after(text@, old(self).noise_level as int),
            *final(self) == (Session { noise_level: final(self).noise_level, ..*old(self) }),
    {
        match parse_i64(text) {
            Some(n) => {
                self.noise_level = n;
            },
            None => {},
        }
    }

    /// Whether the upscale button does something.
    pub open spec fn ready(&self) -> bool {
        self.original is Some && !self.busy
    }

    /// Whether the upscale button can be pressed.
    pub fn can_upscale(&self) -> (can: bool)
        ensures
            can == self.ready(),
    {
        self.original.is_some() && !self.busy
    }

    /// The job is the one that the session's settings ask for.
    pub open spec fn asks_for(&self, job: Job) -> bool {
        &&& job.half == self.fp16
        &&& job.unet_url@ == part_url(self.base_url@, ModelPart::Unet, job.half)
        &&& job.vae_url@ == part_url(self.base_url@, ModelPart::Vae, job.half)
        &&& job.options.steps == self.steps
        &&& job.options.noise_level == self.noise_level
        &&& job.options.tile == 128
        &&& job.options.overlap == 16
    }

    /// The session after the upscale button was pressed.
    pub open spec fn pressed(self) -> Session {
        let kept = self.loaded_half == Some(self.fp16);
        if self.ready() {
            Session {
                busy: true,
                result: None,
                status: Status::CheckingGpu,
                loaded_half: Some(self.fp16),
                has_unet: kept && self.has_unet,
                has_vae: kept && self.has_vae,
                has_pipeline: kept && self.has_pipeline,
                ..self
            }
        } else {
            self
        }
    }

    /// The session after what it needs was brought.
    pub open spec fn brought(self, need: Need) -> Session {
        match need {
            Need::Fetch(ModelPart::Unet) => Session { has_unet: true, ..self },
            Need::Fetch(ModelPart::Vae) => Session { has_vae: true, ..self },
            Need::Build => Session { has_pipeline: true, ..self },
            Need::Run => self,
        }
    }

    /// The upscale button was pressed. Without a picture, or while a job is under
    /// way, nothing happens. A change of precision drops what was fetched and built
    /// for the other one.
    pub fn upscale_pressed(&mut self) -> (job: Option<Job>)
        ensures
            job is Some <==> old(self).ready(),
            *final(self) == old(self).pressed(),
            job matches Some(j) ==> old(self).asks_for(j),
    {
        if !self.can_upscale() {
            return None;
        }
        let half: bool = self.fp16;
        let unet_url: String = url_of(self.base_url.as_str(), ModelPart::Unet, half);
        let vae_url: String = url_of(self.base_url.as_str(), ModelPart::Vae, half);
        let mut options = UpscaleOptions::default();
        options.steps = self.steps as usize;
        options.noise_level = self.noise_level;
        let kept: bool = match self.loaded_half {
            Some(loaded) => loaded == half,
            None => false,
        };
        if !kept {
            self.has_unet = false;
            self.has_vae = false;
            self.has_pipeline = false;
            self.loaded_half = Some(half);
        }
        self.busy = true;
        self.result = None;
        self.status = Status::CheckingGpu;
        Some(Job { unet_url, vae_url, half, options })
    }

    /// What the job needs next, once the device is ready: the missing parts, then
    /// the pipeline, then the upscale.
    pub open spec fn needed(&self) -> Need {
        if !self.has_unet {
            Need::Fetch(ModelPart::Unet)
        } else if !self.has_vae {
            Need::Fetch(ModelPart::Vae)
        } else if !self.has_pipeline {
            Need::Build
        } else {
            Need::Run
        }
    }

    /// What the job needs next, with the status that goes with it.
    pub fn next_need(&mut self) -> (need: Need)
        ensures
            need == old(self).needed(),
            final(self).busy == old(self).busy,
            final(self).same_store(old(self)),
            match need {
                Need::Fetch(_) => final(self).status == old(self).status,
                Need::Build => final(self).status is BuildingPipeline,
                Need::Run => final(self).status is Running,
            },
    {
        if !self.has_unet {
            Need::Fetch(ModelPart::Unet)
        } else if !self.has_vae {
            Need::Fetch(ModelPart::Vae)
        } else if !self.has_pipeline {
            self.status = Status::BuildingPipeline;
            Need::Build
        } else {
            self.status = Status::Running;
            Need::Run
        }
    }

    /// Fetching a part has come further.
    pub fn fetching(&mut self, part: ModelPart, status: ModelStatus)
        ensures
            final(self).status == Status::LoadingModel(part, status),
            final(self).busy == old(self).busy,
            final(self).same_store(old(self)),
    {
        self.status = Status::LoadingModel(part, status);
    }

    /// A part was fetched.
    pub fn fetched(&mut self, part: ModelPart)
        ensures
            *final(self) == old(self).brought(Need::Fetch(part)),
    {
        match part {
            ModelPart::Unet => {
                self.has_unet = true;
            },
            ModelPart::Vae => {
                self.has_vae = true;
            },
        }
    }

    /// The pipeline was built.
    pub fn built(&mut self)
        ensures
            *final(self) == old(self).brought(Need::Build),
    {
        self.has_pipeline = true;
    }

    /// The upscaled picture is here; the job is over.
    pub fn finished(&mut self, picture: ImageBuf)
        ensures
            final(self).result == Some(picture),
            final(self).status is Done,
            !final(self).busy,
            *final(self) == (Session {
                result: final(self).result,
                status: final(self).status,
                busy: false,
                ..*old(self)
            }),
    {
        self.result = Some(picture);
        self.status = Status::Done;
        self.busy = false;
    }

    /// Something failed; the job is over. What was fetched and built stays.
    pub fn failed(&mut self, failure: Failure, error: &str)
        ensures
            error_is(final(self).status, failure.label(), error@),
            !final(self).busy,
            final(self).same_store(old(self)),
    {
        self.status = Status::Error(joined(failure.text(), error));
        self.busy = false;
    }
}

/// What of a job failed.
#[derive(Clone, Copy, Debug, PartialEq, Eq, Structural)]
pub enum Failure {
    Gpu,
    Fetch(ModelPart),
    Build,
    Run,
    Encode,
}

impl Failure {
    /// What the error message begins with.
    pub open spec fn label(self) -> Seq<char> {
        match self {
            Failure::Gpu => "WebGPU init failed: "@,
            Failure::Fetch(ModelPart::Unet) => "UNet download failed: "@,
            Failure::Fetch(ModelPart::Vae) => "VAE download failed: "@,
            Failure::Build => "failed to build pipeline: "@,
            Failure::Run => "upscale failed: "@,
            Failure::Encode => "failed to encode result: "@,
        }
    }

    /// What the error message begins with.
    fn text(self) -> (text: &'static str)
        ensures
            text@ == self.label(),
    {
        match self {
            Failure::Gpu => "WebGPU init failed: ",
            Failure::Fetch(ModelPart::Unet) => "UNet download failed: ",
            Failure::Fetch(ModelPart::Vae) => "VAE download failed: ",
            Failure::Build => "failed to build pipeline: ",
            Failure::Run => "upscale failed: ",
            Failure::Encode => "failed to encode result: ",
        }
    }
}

/// The steps after `text` was entered where they were `before`.
pub open spec fn steps_after(text: Seq<char>, before: int) -> int {
    if crate::text::is_number(text, u32::MAX as int) {
        crate::text::digits_value(crate::text::unsigned_part(text)) as int
    } else {
        before
    }
}

/// The noise level after `text` was entered where it was `before`.
pub open spec fn noise_after(text: Seq<char>, before: int) -> int {
    if crate::text::is_signed_number(text) {
        crate::text::signed_value(text)
    } else {
        before
    }
}

/// The status is an error of the given beginning and rest.
pub open spec fn error_is(status: Status, label: Seq<char>, rest: Seq<char>) -> bool {
    status matches Status::Error(text) && text@ == label + rest
}

/// A second upscale at the same precision fetches and builds nothing anew: once
/// everything is there, pressing the button leads straight to the upscale.
pub proof fn law_parts_are_kept(session: Session)
    requires
        session.ready(),
        session.needed() is Run,
        session.loaded_half == Some(session.fp16),
    ensures
        session.pressed().needed() is Run,
{
}

/// Changing the precision drops what was there for the other one: the next job
/// fetches both parts and builds anew.
pub proof fn law_precision_switch_reloads(session: Session)
    requires
        session.ready(),
        session.loaded_half != Some(session.fp16),
    ensures
        ({
            let p = session.pressed();
            let q = p.brought(p.needed());
            let r = q.brought(q.needed());
            let t = r.brought(r.needed());
            &&& p.needed() == Need::Fetch(ModelPart::Unet)
            &&& q.needed() == Need::Fetch(ModelPart::Vae)
            &&& r.needed() is Build
            &&& t.needed() is Run
        }),
{
}

/// From whatever is there, bringing what is needed three times leads to the upscale.
pub proof fn law_needs_run_out(session: Session)
    ensures
        ({
            let p = session.brought(session.needed());
            let q = p.brought(p.needed());
            let r = q.brought(q.needed());
            r.needed() is Run
        }),
{
}

/// Pressing the button while a job is under way changes nothing.
pub proof fn law_busy_ignores_press(session: Session)
    requires
        session.busy,
    ensures
        session.pressed() == session,
{
}

/// The figures of a download, in the words that the page uses for them.
pub struct Figures {
    /// Megabytes received.
    pub received: String,
    /// Megabytes in all.
    pub total: String,
    /// Percentage.
    pub percent: String,
}

/// What a part is called.
pub open spec fn part_label(part: ModelPart) -> Seq<char> {
    match part {
        ModelPart::Unet => "UNet"@,
        ModelPart::Vae => "VAE"@,
    }
}

/// The line that tells what the page is doing. The numbers of a download are given
/// as [`Figures`], that of a run as `progress`, in percent.
pub open spec fn status_words(status: Status, figures: Figures, progress: Seq<char>) -> Seq<char> {
    match status {
        Status::Idle => Seq::empty(),
        Status::CheckingGpu => "Initializing WebGPU device..."@,
        Status::LoadingModel(part, model) => match model {
            ModelStatus::CheckingCache => "Checking local cache for "@ + part_label(part) + "..."@,
            ModelStatus::Downloading { received: _, total } => if total matches Some(t) && t > 0 {
                "Downloading "@ + part_label(part) + "... "@ + figures.received@ + " / "@
                    + figures.total@ + " MB ("@ + figures.percent@ + "%)"@
            } else {
                "Downloading "@ + part_label(part) + "... "@ + figures.received@ + " MB"@
            },
            ModelStatus::Saving => "Saving "@ + part_label(part) + " to browser cache..."@,
            ModelStatus::Ready => part_label(part) + " loaded from cache."@,
        },
        Status::BuildingPipeline => "Building pipeline from downloaded weights..."@,
        Status::Running => "Upscaling... "@ + progress + "%"@,
        Status::Done => "Done."@,
        Status::Error(e) => "Error: "@ + e@,
    }
}

impl Session {
    /// The line that tells what the page is doing.
    pub fn status_line(&self, figures: &Figures, progress: &str) -> (line: String)
        ensures
            line@ == status_words(self.status, *figures, progress@),
    {
        match &self.status {
            Status::Idle => String::new(),
            Status::CheckingGpu => "Initializing WebGPU device...".to_owned(),
            Status::LoadingModel(part, model) => {
                let label: &str = match part {
                    ModelPart::Unet => "UNet",
                    ModelPart::Vae => "VAE",
                };
                match model {
                    ModelStatus::CheckingCache => {
                        let mut line: String = joined("Checking local cache for ", label);
                        line.append("...");
                        line
                    },
                    ModelStatus::Downloading { received: _, total } => {
                        let mut line: String = joined("Downloading ", label);
                        line.append("... ");
                        line.append(figures.received.as_str());
                        let known: bool = match total {
                            Some(total) => *total > 0,
                            None => false,
                        };
                        if known {
                            line.append(" / ");
                            line.append(figures.total.as_str());
                            line.append(" MB (");
                            line.append(figures.percent.as_str());
                            line.append("%)");
                        } else {
                            line.append(" MB");
                        }
                        line
                    },
                    ModelStatus::Saving => {
                        let mut line: String = joined("Saving ", label);
                        line.append(" to browser cache...");
                        line
                    },
                    ModelStatus::Ready => joined(label, " loaded from cache."),
                }
            },
            Status::BuildingPipeline => "Building pipeline from downloaded weights...".to_owned(),
            Status::Running => {
                let mut line: String = joined("Upscaling... ", progress);
                line.append("%");
                line
            },
            Status::Done => "Done.".to_owned(),
            Status::Error(e) => joined("Error: ", e.as_str()),
        }
    }

    /// Whether the status line is an error.
    pub fn is_error(&self) -> (error: bool)
        ensures
            error == (self.status is Error),
    {
        match &self.status {
            Status::Error(_) => true,
            _ => false,
        }
    }

    /// A file is dragged over the drop zone, or no longer.
    pub fn dragged(&mut self, over: bool)
        ensures
            *final(self) == (Session { dragover: over, ..*old(self) }),
    {
        self.dragover = over;
    }

    /// The style of the drop zone.
    pub fn drop_class(&self) -> (class: &'static str)
        ensures
            class@ == if self.dragover { "dropzone dragover"@ } else { "dropzone"@ },
    {
        if self.dragover {
            "dropzone dragover"
        } else {
            "dropzone"
        }
    }

    /// The style of the status line.
    pub fn status_class(&self) -> (class: &'static str)
        ensures
            class@ == if self.status is Error { "status-line notice error"@ } else { "status-line"@ },
    {
        if self.is_error() {
            "status-line notice error"
        } else {
            "status-line"
        }
    }

    /// What the drop zone says.
    pub fn drop_hint(&self) -> (text: &'static str)
        ensures
            text@ == if self.original is Some {
                "Drop a new image here or click to replace it."@
            } else {
                "Drop an image here, or click to choose a file."@
            },
    {
        if self.original.is_some() {
            "Drop a new image here or click to replace it."
        } else {
            "Drop an image here, or click to choose a file."
        }
    }

    /// What the button says.
    pub fn button_text(&self) -> (text: &'static str)
        ensures
            text@ == if self.busy { "Upscaling..."@ } else { "Upscale 4x"@ },
    {
        if self.busy {
            "Upscaling..."
        } else {
            "Upscale 4x"
        }
    }
}

impl ImageBuf {
    /// The picture's size in words.
    pub fn size_text(&self) -> (text: String)
        ensures
            text@ == crate::text::decimal_digits(self.width as nat) + " x "@
                + crate::text::decimal_digits(self.height as nat),
    {
        let mut text: String = decimal(self.width as u64);
        text.append(" x ");
        let height: String = decimal(self.height as u64);
        text.append(height.as_str());
        text
    }
}

/// The parts' weights have URLs of their own below the base: they begin with it, and
/// differ for different parts and precisions.
pub proof fn law_part_urls_are_told_apart(
    base: Seq<char>,
    part: ModelPart,
    half: bool,
    other: ModelPart,
    other_half: bool,
)
    ensures
        part_url(base, part, half).take(base.len() as int) == base,
        part != other || half != other_half ==> part_url(base, part, half) != part_url(
            base,
            other,
            other_half,
        ),
{
    reveal_strlit("/unet.");
    reveal_strlit("/vae.");
    reveal_strlit("fp16.safetensors");
    reveal_strlit("safetensors");
    let (a, b) = (part_url(base, part, half), part_url(base, other, other_half));
    assert(a.take(base.len() as int) =~= base);
    let n = base.len() as int;
    let (u, v) = ("/unet."@, "/vae."@);
    assert(u.len() == 6 && v.len() == 5 && u[1] == 'u' && v[1] == 'v');
    assert("fp16.safetensors"@[0] == 'f' && "safetensors"@[0] == 's');
    if part != other {
        assert(a[n + 1] != b[n + 1]);
    } else if half != other_half {
        let k = if part is Unet { n + 6 } else { n + 5 };
        assert(a[k] != b[k]);
    }
}

/// Pressing the button with a picture at hand starts a job on that very picture, with
/// the settings as they are, and clears the last result; what was fetched and built is
/// kept exactly where it was for the precision that is asked for now.
pub proof fn law_press_starts_a_job(session: Session)
    requires
        session.ready(),
    ensures
        ({
            let p = session.pressed();
            &&& p.busy
            &&& p.result is None
            &&& p.status is CheckingGpu
            &&& p.original == session.original
            &&& p.base_url == session.base_url
            &&& p.steps == session.steps
            &&& p.noise_level == session.noise_level
            &&& p.fp16 == session.fp16
            &&& p.dragover == session.dragover
            &&& p.loaded_half == Some(session.fp16)
            &&& session.loaded_half == Some(session.fp16) ==> p.has_unet == session.has_unet
                && p.has_vae == session.has_vae && p.has_pipeline == session.has_pipeline
            &&& session.loaded_half != Some(session.fp16) ==> !p.has_unet && !p.has_vae
                && !p.has_pipeline
        }),
{
}

/// Without a picture nothing happens.
pub proof fn law_press_needs_a_picture(session: Session)
    requires
        session.original is None,
    ensures
        session.pressed() == session,
{
}

/// The upscale runs only once both parts and the pipeline are there, and the pipeline is
/// built only once both parts are.
pub proof fn law_upscale_needs_everything(session: Session)
    ensures
        session.needed() is Run <==> session.has_unet && session.has_vae && session.has_pipeline,
        session.needed() is Build <==> session.has_unet && session.has_vae && !session.has_pipeline,
        session.needed() == Need::Fetch(ModelPart::Unet) <==> !session.has_unet,
        session.needed() == Need::Fetch(ModelPart::Vae) <==> session.has_unet && !session.has_vae,
{
}

/// A failed download is told by the name of the part that it was of.
pub proof fn law_failures_name_their_part(part: ModelPart)
    ensures
        Failure::Fetch(part).label() == part_label(part) + " download failed: "@,
{
    reveal_strlit("UNet");
    reveal_strlit("VAE");
    reveal_strlit(" download failed: ");
    reveal_strlit("UNet download failed: ");
    reveal_strlit("VAE download failed: ");
    assert(Failure::Fetch(part).label() =~= part_label(part) + " download failed: "@);
}

/// An error is told by what failed, and then by why.
pub proof fn law_errors_tell_what_and_why(status: Status, label: Seq<char>, rest: Seq<char>)
    requires
        error_is(status, label, rest),
    ensures
        status is Error,
        ({
            let text = (status->Error_0)@;
            &&& text.len() == label.len() + rest.len()
            &&& text.take(label.len() as int) == label
            &&& text.skip(label.len() as int) == rest
        }),
{
    let text = (status->Error_0)@;
    assert(text.take(label.len() as int) =~= label);
    assert(text.skip(label.len() as int) =~= rest);
}

/// Text in lower case.
pub open spec fn lowered(text: Seq<char>) -> Seq<char> {
    Seq::new(text.len(), |i: int| crate::images::lower(text[i]))
}

/// A part's weights are found below the base under the part's own name, in lower case,
/// and the half-precision ones beside them with a mark of their own.
pub proof fn law_part_urls_name_their_part(base: Seq<char>, part: ModelPart)
    ensures
        part_url(base, part, false) == base + "/"@ + lowered(part_label(part)) + ".safetensors"@,
        part_url(base, part, true) == base + "/"@ + lowered(part_label(part))
            + ".fp16.safetensors"@,
{
    reveal_strlit("/unet.");
    reveal_strlit("/vae.");
    reveal_strlit("fp16.safetensors");
    reveal_strlit("safetensors");
    reveal_strlit("/");
    reveal_strlit("UNet");
    reveal_strlit("VAE");
    reveal_strlit(".safetensors");
    reveal_strlit(".fp16.safetensors");
    let name = lowered(part_label(part));
    match part {
        ModelPart::Unet => {
            assert(name =~= seq!['u', 'n', 'e', 't']);
        },
        ModelPart::Vae => {
            assert(name =~= seq!['v', 'a', 'e']);
        },
    }
    assert(part_url(base, part, false) =~= base + "/"@ + name + ".safetensors"@);
    assert(part_url(base, part, true) =~= base + "/"@ + name + ".fp16.safetensors"@);
}

/// What the page says of a part names that part, whatever it is doing with it.
pub proof fn law_status_names_the_part(
    part: ModelPart,
    received: u64,
    total: Option<u64>,
    figures: Figures,
    progress: Seq<char>,
)
    ensures
        ({
            let words = |model: ModelStatus|
                status_words(Status::LoadingModel(part, model), figures, progress);
            let name = part_label(part);
            &&& words(ModelStatus::CheckingCache) == "Checking local cache for "@ + name + "..."@
            &&& words(ModelStatus::Saving) == "Saving "@ + name + " to browser cache..."@
            &&& words(ModelStatus::Ready) == name + " loaded from cache."@
            &&& (total matches Some(t) && t > 0) ==> words(
                ModelStatus::Downloading { received, total },
            ) == "Downloading "@ + name + "... "@ + figures.received@ + " / "@ + figures.total@
                + " MB ("@ + figures.percent@ + "%)"@
            &&& !(total matches Some(t) && t > 0) ==> words(
                ModelStatus::Downloading { received, total },
            ) == "Downloading "@ + name + "... "@ + figures.received@ + " MB"@
        }),
{
}

/// Bringing what is needed brings that and nothing else.
pub proof fn law_one_thing_is_brought_at_a_time(session: Session, need: Need)
    ensures
        ({
            let b = session.brought(need);
            &&& b.has_unet == (session.has_unet || need == Need::Fetch(ModelPart::Unet))
            &&& b.has_vae == (session.has_vae || need == Need::Fetch(ModelPart::Vae))
            &&& b.has_pipeline == (session.has_pipeline || need is Build)
            &&& b.loaded_half == session.loaded_half
            &&& b.busy == session.busy
            &&& b.status == session.status
            &&& b.original == session.original
            &&& b.result == session.result
            &&& b.fp16 == session.fp16
            &&& b.steps == session.steps
            &&& b.noise_level == session.noise_level
            &&& b.base_url == session.base_url
            &&& b.dragover == session.dragover
        }),
{
}

/// Where nothing but the status and the busy mark may change, nothing else does.
pub proof fn law_kept_stores_are_the_same(a: Session, b: Session)
    requires
        a.same_store(&b),
        a.busy == b.busy,
        a.status == b.status,
    ensures
        a == b,
{
}

/// A number that is entered is taken as it is written, where it can be held; anything
/// else leaves the setting as it was.
pub proof fn law_entered_numbers_are_taken(steps: nat, noise: int, before: int, text: Seq<char>)
    ensures
        steps <= u32::MAX ==> steps_after(crate::text::decimal_digits(steps), before) == steps,
        steps > u32::MAX ==> steps_after(crate::text::decimal_digits(steps), before) == before,
        i64::MIN <= noise <= i64::MAX ==> noise_after(crate::text::signed_digits(noise), before)
            == noise,
        !(i64::MIN <= noise <= i64::MAX) ==> noise_after(crate::text::signed_digits(noise), before)
            == before,
        steps_after(text, before) != before ==> text.len() > 0 && forall|i: int|
            1 <= i < text.len() ==> '0' <= #[trigger] text[i] <= '9',
        noise_after(text, before) != before ==> text.len() > 0 && forall|i: int|
            1 <= i < text.len() ==> '0' <= #[trigger] text[i] <= '9',
{
    crate::text::law_written_numbers_are_numbers(steps, u32::MAX as int);
    crate::text::law_signed_reads_back(noise);
    if steps_after(text, before) != before {
        assert forall|i: int| 1 <= i < text.len() implies '0' <= #[trigger] text[i] <= '9' by {
            crate::text::law_numbers_are_digits(text, u32::MAX as int, i);
        }
    }
    if noise_after(text, before) != before {
        assert forall|i: int| 1 <= i < text.len() implies '0' <= #[trigger] text[i] <= '9' by {
            if text[0] == '-' {
                assert(text.drop_first()[i - 1] == text[i]);
                assert(crate::text::is_digit(text.drop_first()[i - 1]));
            } else {
                crate::text::law_numbers_are_digits(text, i64::MAX as int, i);
            }
        }
    }
}

/// A job runs with the settings of the page: as many steps as the slider says, at its
/// noise level, with the weights of its precision, those of one part from one place and
/// those of the other from another.
pub proof fn law_jobs_carry_the_settings(session: Session, job: Job)
    requires
        session.asks_for(job),
    ensures
        job.options.steps == session.steps,
        job.options.noise_level == session.noise_level,
        job.half == session.fp16,
        job.unet_url@ == part_url(session.base_url@, ModelPart::Unet, session.fp16),
        job.vae_url@ == part_url(session.base_url@, ModelPart::Vae, session.fp16),
        job.unet_url@ != job.vae_url@,
{
    law_part_urls_are_told_apart(
        session.base_url@,
        ModelPart::Unet,
        session.fp16,
        ModelPart::Vae,
        session.fp16,
    );
}

} // verus!
