//! The command line's decisions: which model, with which settings, from which
//! weights, and what is said about it.

use vstd::prelude::*;

use crate::download::cache_dir;
use crate::download::model_cache_dir;
use crate::manifest::WeightFile;
use crate::model::ModelId;
use crate::model::Preset;
use crate::model::UpscaleOptions;
use crate::text::decimal;
use crate::text::joined;
use crate::text::signed_decimal;

verus! {

/// Compute precision asked for.
#[derive(Clone, Copy, Debug, PartialEq, Eq, Structural)]
pub enum DtypeChoice {
    F32,
    Bf16,
}

impl DtypeChoice {
    /// A short label.
    pub fn as_str(self) -> (label: &'static str)
        ensures
            label@ == match self {
                DtypeChoice::F32 => "f32"@,
                DtypeChoice::Bf16 => "bf16"@,
            },
    {
        match self {
            DtypeChoice::F32 => "f32",
            DtypeChoice::Bf16 => "bf16",
        }
    }
}

/// Model asked for.
#[derive(Clone, Copy, Debug, PartialEq, Eq, Structural)]
pub enum ModelChoice {
    Sdx4,
    Vosr,
    Tvt,
}

impl ModelChoice {
    /// The model that this choice selects.
    pub open spec fn chosen(self) -> ModelId {
        match self {
            ModelChoice::Sdx4 => ModelId::Sdx4,
            ModelChoice::Vosr => ModelId::Vosr,
            ModelChoice::Tvt => ModelId::Tvt,
        }
    }

    /// The model that this choice selects.
    pub fn model_id(self) -> (id: ModelId)
        ensures
            id == self.chosen(),
    {
        match self {
            ModelChoice::Sdx4 => ModelId::Sdx4,
            ModelChoice::Vosr => ModelId::Vosr,
            ModelChoice::Tvt => ModelId::Tvt,
        }
    }
}

/// Preset asked for.
#[derive(Clone, Copy, Debug, PartialEq, Eq, Structural)]
pub enum PresetChoice {
    Document,
    Image,
}

impl PresetChoice {
    /// The preset that this choice selects.
    pub fn preset(self) -> (preset: Preset)
        ensures
            preset == match self {
                PresetChoice::Document => Preset::Document,
                PresetChoice::Image => Preset::Image,
            },
    {
        match self {
            PresetChoice::Document => Preset::Document,
            PresetChoice::Image => Preset::Image,
        }
    }
}

/// Why a command line is refused.
#[derive(Debug)]
pub enum UsageError {
    /// No input was given.
    Input,
    /// Both a model and a preset were given.
    Exclusive,
    /// The number of steps is out of range.
    Steps(usize),
    /// The batch is empty.
    Batch,
    /// The noise level is out of range.
    NoiseLevel(i64),
    /// The scale is out of range; as it was given.
    Scale(String),
    /// The model's weights are not published, and no directory was given.
    Unpublished,
}

impl UsageError {
    /// The message.
    pub open spec fn wording(&self) -> Seq<char> {
        match self {
            UsageError::Input => "--input <INPUT> is required"@,
            UsageError::Exclusive => {
                "--model and --preset are mutually exclusive; pass at most one"@
            },
            UsageError::Steps(n) => "--steps must be in 1..=999 (got "@
                + crate::text::decimal_digits(*n as nat) + ")"@,
            UsageError::Batch => "--batch must be at least 1"@,
            UsageError::NoiseLevel(n) => "--noise-level must be in 0..=350 (got "@
                + crate::text::signed_digits(*n as int) + ")"@,
            UsageError::Scale(text) => "--scale must be in 1 < scale ≤ 4 (got "@ + text@ + ")"@,
            UsageError::Unpublished => {
                "--model tvt needs locally-prepared weights; pass --models-dir <dir> containing fused_unet.safetensors and vae.safetensors (auto-download not yet supported for tvt)"@
            },
        }
    }

    /// The message.
    pub fn message(&self) -> (text: String)
        ensures
            text@ == self.wording(),
    {
        match self {
            UsageError::Input => "--input <INPUT> is required".to_owned(),
            UsageError::Exclusive => {
                "--model and --preset are mutually exclusive; pass at most one".to_owned()
            },
            UsageError::Steps(n) => {
                let digits: String = decimal(*n as u64);
                let mut text: String = joined("--steps must be in 1..=999 (got ", digits.as_str());
                text.append(")");
                text
            },
            UsageError::Batch => "--batch must be at least 1".to_owned(),
            UsageError::NoiseLevel(n) => {
                let digits: String = signed_decimal(*n);
                let mut text: String = joined(
                    "--noise-level must be in 0..=350 (got ",
                    digits.as_str(),
                );
                text.append(")");
                text
            },
            UsageError::Scale(scale) => {
                let mut text: String = joined(
                    "--scale must be in 1 < scale ≤ 4 (got ",
                    scale.as_str(),
                );
                text.append(")");
                text
            },
            UsageError::Unpublished => {
                "--model tvt needs locally-prepared weights; pass --models-dir <dir> containing fused_unet.safetensors and vae.safetensors (auto-download not yet supported for tvt)".to_owned()
            },
        }
    }
}

/// The model that the two flags select: either one, or the document preset's model
/// with neither. They exclude each other.
pub fn resolve_model(model: Option<ModelChoice>, preset: Option<PresetChoice>) -> (id: Result<
    ModelId,
    UsageError,
>)
    ensures
        model is Some && preset is Some <==> (id matches Err(UsageError::Exclusive)),
        !(model is Some && preset is Some) ==> id is Ok,
        model is Some && preset is None ==> id == Ok::<ModelId, UsageError>((model->0).chosen()),
        model is None ==> id == Ok::<ModelId, UsageError>(ModelId::Sdx4),
{
    match (model, preset) {
        (Some(_), Some(_)) => Err(UsageError::Exclusive),
        (Some(model), None) => Ok(model.model_id()),
        (None, Some(preset)) => Ok(preset.preset().model()),
        (None, None) => Ok(Preset::Document.model()),
    }
}

/// The name of a model's weights directory.
pub open spec fn dir_name(id: ModelId) -> Seq<char> {
    match id {
        ModelId::Sdx4 => "sdx4"@,
        ModelId::Vosr => "vosr"@,
        ModelId::Tvt => "tvt"@,
    }
}

/// The name of a model's weights directory.
pub fn model_dir_name(id: ModelId) -> (name: &'static str)
    ensures
        name@ == dir_name(id),
{
    match id {
        ModelId::Sdx4 => "sdx4",
        ModelId::Vosr => "vosr",
        ModelId::Tvt => "tvt",
    }
}

/// Two models never share a weights directory.
pub proof fn law_directories_distinct(a: ModelId, b: ModelId)
    requires
        a != b,
    ensures
        dir_name(a) != dir_name(b),
{
    reveal_strlit("sdx4");
    reveal_strlit("vosr");
    reveal_strlit("tvt");
    assert("sdx4"@[0] == 's' && "vosr"@[0] == 'v' && "tvt"@[0] == 't');
}

/// Where a model's weights come from.
pub enum WeightsSource {
    /// A directory that was given, as it is.
    Given(Vec<u8>),
    /// The model's cache directory of this name, once these files are in it.
    Cache(&'static str, &'static [WeightFile]),
}

/// Decides where a model's weights come from: the directory given, if any, else the
/// cache. The files of every model there is are published; the refusal serves a model
/// whose files are not.
pub fn resolve_weights_root(id: ModelId, models_dir: Option<Vec<u8>>) -> (source: Result<
    WeightsSource,
    UsageError,
>)
    ensures
        source is Ok,
        models_dir matches Some(dir) ==> source == Ok::<WeightsSource, UsageError>(
            WeightsSource::Given(dir),
        ),
        models_dir is None ==> {
            &&& source matches Ok(WeightsSource::Cache(name, files))
            &&& name@ == dir_name(id)
            &&& files@.len() == crate::manifest::manifest_of(id).len()
            &&& forall|i: int|
                0 <= i < files@.len() ==> (#[trigger] files@[i]).url@
                    == crate::manifest::manifest_of(id)[i].0 && files@[i].dest@
                    == crate::manifest::manifest_of(id)[i].1
        },
{
    match models_dir {
        Some(dir) => Ok(WeightsSource::Given(dir)),
        None => match id.manifest() {
            Some(files) => Ok(WeightsSource::Cache(model_dir_name(id), files)),
            None => Err(UsageError::Unpublished),
        },
    }
}

/// An upscale that is asked for on the command line.
pub struct Request {
    /// Whether an input was given.
    pub has_input: bool,
    pub model: Option<ModelChoice>,
    pub preset: Option<PresetChoice>,
    pub dtype: Option<DtypeChoice>,
    pub steps: Option<usize>,
    pub batch: Option<usize>,
    pub noise_level: i64,
    pub tile: usize,
    pub overlap: usize,
    /// Whether the scale is above one and at most four.
    pub scale_in_range: bool,
    /// The scale as it was given.
    pub scale: String,
}

/// What a valid request comes down to.
pub struct RunPlan {
    pub id: ModelId,
    pub options: UpscaleOptions,
    pub dtype: DtypeChoice,
}

impl Request {
    /// The model asked for, where the flags do not clash.
    pub open spec fn id(&self) -> ModelId {
        match self.model {
            Some(m) => m.chosen(),
            None => ModelId::Sdx4,
        }
    }

    /// The steps asked for, or the model's own.
    pub open spec fn step_count(&self) -> int {
        match self.steps {
            Some(n) => n as int,
            None => match self.id() {
                ModelId::Sdx4 => 20,
                ModelId::Vosr => 4,
                ModelId::Tvt => 1,
            },
        }
    }

    /// The batch asked for, or the model's own.
    pub open spec fn batch_size(&self) -> int {
        match self.batch {
            Some(n) => n as int,
            None => if self.id() is Vosr { 8 } else { 1 },
        }
    }

    /// The first thing that is wrong with the request.
    pub open spec fn fault(&self) -> Option<Fault> {
        if !self.has_input {
            Some(Fault::Input)
        } else if self.model is Some && self.preset is Some {
            Some(Fault::Exclusive)
        } else if !(1 <= self.step_count() <= 999) {
            Some(Fault::Steps)
        } else if self.batch_size() == 0 {
            Some(Fault::Batch)
        } else if !(0 <= self.noise_level <= 350) {
            Some(Fault::NoiseLevel)
        } else if !self.scale_in_range {
            Some(Fault::Scale)
        } else {
            None
        }
    }

    /// The plan is what the request comes down to.
    pub open spec fn comes_down_to(&self, p: RunPlan) -> bool {
        &&& p.id == self.id()
        &&& p.options.steps == self.step_count()
        &&& p.options.batch == self.batch_size()
        &&& p.options.noise_level == self.noise_level
        &&& p.options.tile == self.tile
        &&& p.options.overlap == self.overlap
        &&& p.dtype == match self.dtype {
            Some(d) => d,
            None => DtypeChoice::Bf16,
        }
    }

    /// Checks the request and fills in what it leaves to the model. The input comes
    /// first, so that a missing one is reported before anything else is done.
    pub fn plan(&self) -> (plan: Result<RunPlan, UsageError>)
        ensures
            plan is Ok <==> self.fault() is None,
            plan matches Ok(p) ==> self.comes_down_to(p),
            plan matches Err(e) ==> match self.fault()->0 {
                Fault::Input => e is Input,
                Fault::Exclusive => e is Exclusive,
                Fault::Steps => e matches UsageError::Steps(n) && n == self.step_count(),
                Fault::Batch => e is Batch,
                Fault::NoiseLevel => e matches UsageError::NoiseLevel(n) && n == self.noise_level,
                Fault::Scale => e matches UsageError::Scale(text) && text@ == self.scale@,
            },
    {
        if !self.has_input {
            return Err(UsageError::Input);
        }
        let id: ModelId = match resolve_model(self.model, self.preset) {
            Ok(id) => id,
            Err(_) => {
                return Err(UsageError::Exclusive);
            },
        };
        let steps: usize = match self.steps {
            Some(n) => n,
            None => id.default_steps(),
        };
        let batch: usize = match self.batch {
            Some(n) => n,
            None => id.default_batch(),
        };
        if steps < 1 || steps > 999 {
            return Err(UsageError::Steps(steps));
        }
        if batch == 0 {
            return Err(UsageError::Batch);
        }
        if self.noise_level < 0 || self.noise_level > 350 {
            return Err(UsageError::NoiseLevel(self.noise_level));
        }
        if !self.scale_in_range {
            return Err(UsageError::Scale(self.scale.clone()));
        }
        let dtype: DtypeChoice = match self.dtype {
            Some(dtype) => dtype,
            None => DtypeChoice::Bf16,
        };
        Ok(
            RunPlan {
                id,
                options: UpscaleOptions {
                    steps,
                    noise_level: self.noise_level,
                    tile: self.tile,
                    overlap: self.overlap,
                    batch,
                },
                dtype,
            },
        )
    }
}

/// What can be wrong with a request, in the order in which it is looked for.
pub enum Fault {
    Input,
    Exclusive,
    Steps,
    Batch,
    NoiseLevel,
    Scale,
}

/// A plan's steps and noise level always index the denoising schedule's table.
pub proof fn law_plans_fit_the_schedule(request: Request, k: int)
    requires
        request.fault() is None,
        0 <= k < request.step_count(),
    ensures
        1 <= crate::scheduler::schedule(request.step_count() as nat)[k]
            < crate::scheduler::NUM_TRAIN_TIMESTEPS,
        0 <= request.noise_level < crate::scheduler::NUM_TRAIN_TIMESTEPS,
{
    crate::scheduler::law_timesteps_in_table(request.step_count() as nat, k);
}

/// On which side of the model's fixed pass a picture is shrunk to reach a smaller
/// scale.
#[derive(Clone, Copy, Debug, PartialEq, Eq, Structural)]
pub enum ShrinkAt {
    /// Nowhere: the scale is the model's own.
    Nowhere,
    /// Before it: fewer pixels go through the model.
    Input,
    /// After it: full detail goes through the model.
    Output,
}

/// Decides where to shrink; `shrinks` says whether the scale is below the model's.
pub fn shrink_at(fast: bool, shrinks: bool) -> (at: ShrinkAt)
    ensures
        at is Nowhere <==> !shrinks,
        at is Input <==> shrinks && fast,
        at is Output <==> shrinks && !fast,
{
    if !shrinks {
        ShrinkAt::Nowhere
    } else if fast {
        ShrinkAt::Input
    } else {
        ShrinkAt::Output
    }
}

/// A size in words.
pub open spec fn size_words(w: int, h: int) -> Seq<char> {
    crate::text::decimal_digits(w as nat) + "x"@ + crate::text::decimal_digits(h as nat)
}

/// Words a size.
fn size_text(w: usize, h: usize) -> (text: String)
    ensures
        text@ == size_words(w as int, h as int),
{
    let mut text: String = decimal(w as u64);
    text.append("x");
    let height: String = decimal(h as u64);
    text.append(height.as_str());
    text
}

/// What becomes of a `w` by `h` picture, in words.
pub open spec fn scale_words(w: int, h: int, shrunk: Option<(usize, usize)>) -> Seq<char> {
    size_words(w, h) + " → "@ + size_words(4 * w, 4 * h) + match shrunk {
        Some((fw, fh)) => " (×4), supersampled → "@ + size_words(fw as int, fh as int),
        None => Seq::empty(),
    }
}

/// What becomes of a `w` by `h` picture: its size, the size after the fixed pass,
/// and the final size where the output is shrunk.
pub fn scale_desc(w: usize, h: usize, shrunk: Option<(usize, usize)>) -> (text: String)
    requires
        4 * w <= usize::MAX,
        4 * h <= usize::MAX,
    ensures
        text@ == scale_words(w as int, h as int, shrunk),
{
    let mut text: String = size_text(w, h);
    text.append(" → ");
    let native: String = size_text(4 * w, 4 * h);
    text.append(native.as_str());
    match shrunk {
        Some((fw, fh)) => {
            text.append(" (×4), supersampled → ");
            let last: String = size_text(fw, fh);
            text.append(last.as_str());
        },
        None => {
            assert(text@ =~= text@ + Seq::empty());
        },
    }
    text
}

/// The model's name in messages.
pub open spec fn model_label(id: ModelId) -> Seq<char> {
    match id {
        ModelId::Sdx4 => "Sdx4"@,
        ModelId::Vosr => "Vosr"@,
        ModelId::Tvt => "Tvt"@,
    }
}

/// The precision's name in messages.
pub open spec fn dtype_label(dtype: DtypeChoice) -> Seq<char> {
    match dtype {
        DtypeChoice::F32 => "f32"@,
        DtypeChoice::Bf16 => "bf16"@,
    }
}

impl RunPlan {
    /// What is said before the model is loaded.
    pub fn loading_line(&self) -> (line: String)
        ensures
            line@ == "loading "@ + model_label(self.id) + " model ("@ + dtype_label(self.dtype)
                + ")…"@,
    {
        let mut line: String = joined(
            "loading ",
            match self.id {
                ModelId::Sdx4 => "Sdx4",
                ModelId::Vosr => "Vosr",
                ModelId::Tvt => "Tvt",
            },
        );
        line.append(" model (");
        line.append(self.dtype.as_str());
        line.append(")…");
        line
    }

    /// What is said before the picture is upscaled; `what` describes its sizes.
    pub fn upscaling_line(&self, what: &str) -> (line: String)
        ensures
            line@ == "upscaling "@ + what@ + " ("@ + crate::text::decimal_digits(
                self.options.steps as nat,
            ) + " steps, noise "@ + crate::text::signed_digits(self.options.noise_level as int)
                + ", "@ + dtype_label(self.dtype) + ")…"@,
    {
        let mut line: String = joined("upscaling ", what);
        line.append(" (");
        let steps: String = decimal(self.options.steps as u64);
        line.append(steps.as_str());
        line.append(" steps, noise ");
        let noise: String = signed_decimal(self.options.noise_level);
        line.append(noise.as_str());
        line.append(", ");
        line.append(self.dtype.as_str());
        line.append(")…");
        line
    }
}

/// An entry of a directory.
#[derive(Clone, Copy, Debug, PartialEq, Eq, Structural)]
pub enum Entry {
    /// A directory of this total size.
    Dir(u64),
    /// A file of this size.
    File(u64),
    /// One of which nothing is known.
    Unreadable,
}

/// What an entry adds to a directory's size.
pub open spec fn entry_size(entry: Entry) -> int {
    match entry {
        Entry::Dir(n) => n as int,
        Entry::File(n) => n as int,
        Entry::Unreadable => 0,
    }
}

/// The size of the first `n` entries together.
pub open spec fn total_size(entries: Seq<Entry>, n: nat) -> int
    decreases n,
{
    if n == 0 {
        0
    } else {
        total_size(entries, (n - 1) as nat) + entry_size(entries[n - 1])
    }
}

/// More entries are no smaller.
proof fn lemma_total_size(entries: Seq<Entry>, m: nat, n: nat)
    requires
        m <= n <= entries.len(),
    ensures
        0 <= total_size(entries, m) <= total_size(entries, n),
    decreases n,
{
    if m < n {
        lemma_total_size(entries, m, (n - 1) as nat);
    } else if n > 0 {
        lemma_total_size(entries, (n - 1) as nat, (n - 1) as nat);
    }
}

/// The size of a directory that holds these entries.
pub fn dir_size(entries: &[Entry]) -> (size: u64)
    requires
        total_size(entries@, entries@.len()) <= u64::MAX,
    ensures
        size == total_size(entries@, entries@.len()),
{
    let mut size: u64 = 0;
    let mut i: usize = 0;
    while i < entries.len()
        invariant
            i <= entries@.len(),
            total_size(entries@, entries@.len()) <= u64::MAX,
            size == total_size(entries@, i as nat),
        decreases entries@.len() - i,
    {
        proof {
            lemma_total_size(entries@, (i + 1) as nat, entries@.len());
        }
        let n: u64 = match entries[i] {
            Entry::Dir(n) => n,
            Entry::File(n) => n,
            Entry::Unreadable => 0,
        };
        size = size + n;
        i = i + 1;
    }
    size
}

/// What cleaning the cache removes: one model's weights, or the whole cache.
pub fn clean_target(model: Option<ModelChoice>) -> (dir: Vec<u8>)
    ensures
        exists|cache: Option<Seq<u8>>, home: Option<Seq<u8>>|
            dir@ == clean_root(#[trigger] crate::download::cache_base(cache, home), model),
{
    match model {
        Some(model) => model_cache_dir(model_dir_name(model.model_id())),
        None => cache_dir(),
    }
}

/// What cleaning the cache removes, below a cache base.
pub open spec fn clean_root(base: Seq<u8>, model: Option<ModelChoice>) -> Seq<u8> {
    match model {
        Some(m) => crate::download::model_root(base, crate::text::utf8(dir_name(m.chosen()))),
        None => crate::download::cache_root(base),
    }
}

/// A request is refused for the first thing that is wrong with it, in this order: no
/// input, both a model and a preset, steps outside of 1 to 999, an empty batch, a noise
/// level outside of 0 to 350, a scale that is not above one and at most four. Any other
/// request is taken.
pub proof fn law_faults_are_found_in_order(request: Request)
    ensures
        ({
            let input = request.has_input;
            let single = request.model is None || request.preset is None;
            let steps = 1 <= request.step_count() && request.step_count() < 1000;
            let batch = request.batch_size() >= 1;
            let noise = request.noise_level >= 0 && request.noise_level <= 350;
            let scale = request.scale_in_range;
            &&& request.fault() == Some(Fault::Input) <==> !input
            &&& request.fault() == Some(Fault::Exclusive) <==> input && !single
            &&& request.fault() == Some(Fault::Steps) <==> input && single && !steps
            &&& request.fault() == Some(Fault::Batch) <==> input && single && steps && !batch
            &&& request.fault() == Some(Fault::NoiseLevel) <==> input && single && steps && batch
                && !noise
            &&& request.fault() == Some(Fault::Scale) <==> input && single && steps && batch && noise
                && !scale
            &&& request.fault() is None <==> input && single && steps && batch && noise && scale
        }),
{
}

/// What is asked for is used; what is left open is the model's own, and the model is the
/// x4 upscaler where none is named. So a request that names nothing but its input and a
/// scale is always taken.
pub proof fn law_requests_are_filled_in(request: Request)
    ensures
        request.model is None ==> request.id() is Sdx4,
        request.model == Some(ModelChoice::Vosr) ==> request.id() is Vosr,
        request.model == Some(ModelChoice::Tvt) ==> request.id() is Tvt,
        request.model == Some(ModelChoice::Sdx4) ==> request.id() is Sdx4,
        request.steps matches Some(n) ==> request.step_count() == n,
        request.batch matches Some(n) ==> request.batch_size() == n,
        request.steps is None && request.id() is Sdx4 ==> request.step_count() == 20,
        request.steps is None && request.id() is Vosr ==> request.step_count() == 4,
        request.steps is None && request.id() is Tvt ==> request.step_count() == 1,
        request.batch is None && request.id() is Vosr ==> request.batch_size() == 8,
        request.batch is None && !(request.id() is Vosr) ==> request.batch_size() == 1,
        request.has_input && request.preset is None && request.steps is None && request.batch is None
            && request.noise_level == 20 && request.scale_in_range ==> request.fault() is None,
{
}

/// A directory is as large as its entries together, files and directories alike;
/// entries of which nothing is known do not count, and neither does their order.
pub proof fn law_sizes_add_up(a: Seq<Entry>, b: Seq<Entry>, size: u64)
    ensures
        total_size(a + b, (a + b).len()) == total_size(a, a.len()) + total_size(b, b.len()),
        total_size(seq![Entry::File(size)], 1) == size,
        total_size(seq![Entry::Dir(size)], 1) == size,
        total_size(seq![Entry::Unreadable], 1) == 0,
        total_size(Seq::empty(), 0) == 0,
{
    reveal_with_fuel(total_size, 2);
    lemma_sizes_concat(a, b, b.len());
    lemma_sizes_prefix(a, a + b, a.len());
}

/// The first entries of a list are as large as those of one that begins with it.
proof fn lemma_sizes_prefix(a: Seq<Entry>, whole: Seq<Entry>, n: nat)
    requires
        n <= a.len() <= whole.len(),
        forall|i: int| 0 <= i < a.len() ==> #[trigger] whole[i] == a[i],
    ensures
        total_size(whole, n) == total_size(a, n),
    decreases n,
{
    if n > 0 {
        lemma_sizes_prefix(a, whole, (n - 1) as nat);
        assert(whole[n - 1] == a[n - 1]);
    }
}

/// Entries behind others add their own size.
proof fn lemma_sizes_concat(a: Seq<Entry>, b: Seq<Entry>, n: nat)
    requires
        n <= b.len(),
    ensures
        total_size(a + b, a.len() + n) == total_size(a + b, a.len()) + total_size(b, n),
    decreases n,
{
    if n > 0 {
        lemma_sizes_concat(a, b, (n - 1) as nat);
        assert((a + b)[a.len() + n - 1] == b[n - 1]);
    }
}

/// Cleaning one model's weights touches no other model's: their directories differ, and
/// cleaning everything takes the root that they all lie below.
pub proof fn law_cleaning_is_contained(base: Seq<u8>, a: ModelChoice, b: ModelChoice)
    requires
        base.len() > 0,
    ensures
        a != b ==> clean_root(base, Some(a)) != clean_root(base, Some(b)),
        clean_root(base, Some(a)).take(clean_root(base, None).len() as int) == clean_root(
            base,
            None,
        ),
        clean_root(base, Some(a)).len() > clean_root(base, None).len(),
{
    reveal_strlit("sdx4");
    reveal_strlit("vosr");
    reveal_strlit("tvt");
    let (x, y) = (dir_name(a.chosen()), dir_name(b.chosen()));
    vstd::utf8::is_ascii_chars_encode_utf8(x);
    vstd::utf8::is_ascii_chars_encode_utf8(y);
    let (p, q) = (crate::text::utf8(x), crate::text::utf8(y));
    assert(x[0] as u8 == p[0] && y[0] as u8 == q[0]);
    crate::download::law_cache_lies_where_the_system_says(base, None, p);
    if a != b {
        assert(x[0] != y[0]);
        crate::download::law_joined_paths_are_told_apart(base, p, q);
    }
}

/// A model's weights directory has the name under which the model is built.
pub proof fn law_directories_are_named_after_models(id: ModelId)
    ensures
        dir_name(id) == id.feature(),
{
}

/// A model is called by the same name everywhere, but for the case of its letters.
pub proof fn law_models_have_one_name(id: ModelId)
    ensures
        crate::session::lowered(model_label(id)) == dir_name(id),
{
    reveal_strlit("Sdx4");
    reveal_strlit("Vosr");
    reveal_strlit("Tvt");
    reveal_strlit("sdx4");
    reveal_strlit("vosr");
    reveal_strlit("tvt");
    assert(crate::session::lowered(model_label(id)) =~= dir_name(id));
}

/// A size in words gives the width before the height, both in decimal.
pub proof fn law_sizes_give_the_width_first(w: nat, h: nat)
    ensures
        ({
            let (words, a, b) = (
                size_words(w as int, h as int),
                crate::text::decimal_digits(w),
                crate::text::decimal_digits(h),
            );
            &&& words.len() == a.len() + 1 + b.len()
            &&& words.take(a.len() as int) == a
            &&& words[a.len() as int] == 'x'
            &&& words.skip(a.len() as int + 1) == b
        }),
{
    reveal_strlit("x");
    let (words, a, b) = (
        size_words(w as int, h as int),
        crate::text::decimal_digits(w),
        crate::text::decimal_digits(h),
    );
    assert(words.take(a.len() as int) =~= a);
    assert(words.skip(a.len() as int + 1) =~= b);
}

/// A refusal ends with the number that was refused.
pub proof fn law_refusals_give_the_number(steps: usize, noise: i64)
    ensures
        ({
            let (text, digits) = (
                UsageError::Steps(steps).wording(),
                crate::text::decimal_digits(steps as nat),
            );
            text.len() > digits.len() && text.skip(text.len() - digits.len() - 1) == digits.push(
                ')',
            )
        }),
        ({
            let (text, digits) = (
                UsageError::NoiseLevel(noise).wording(),
                crate::text::signed_digits(noise as int),
            );
            text.len() > digits.len() && text.skip(text.len() - digits.len() - 1) == digits.push(
                ')',
            )
        }),
{
    reveal_strlit(")");
    let (a, d) = (
        UsageError::Steps(steps).wording(),
        crate::text::decimal_digits(steps as nat),
    );
    assert(a.skip(a.len() - d.len() - 1) =~= d.push(')'));
    let (b, e) = (
        UsageError::NoiseLevel(noise).wording(),
        crate::text::signed_digits(noise as int),
    );
    assert(b.skip(b.len() - e.len() - 1) =~= e.push(')'));
}

/// What is asked for is what is run: each setting that a request names is found unchanged
/// in its plan. The precision is half where none is named.
pub proof fn law_plans_carry_what_is_asked_for(request: Request, plan: RunPlan)
    requires
        request.comes_down_to(plan),
    ensures
        request.steps matches Some(n) ==> plan.options.steps == n,
        request.batch matches Some(n) ==> plan.options.batch == n,
        request.dtype matches Some(d) ==> plan.dtype == d,
        request.dtype is None ==> plan.dtype is Bf16,
        request.model == Some(ModelChoice::Sdx4) || request.model is None <==> plan.id is Sdx4,
        request.model == Some(ModelChoice::Vosr) <==> plan.id is Vosr,
        request.model == Some(ModelChoice::Tvt) <==> plan.id is Tvt,
        plan.options.tile == request.tile,
        plan.options.overlap == request.overlap,
        plan.options.noise_level == request.noise_level,
{
}

/// What is said of a picture begins with its size and gives four times its sides next;
/// where the output is shrunk, the same is said first, and the final size comes last.
pub proof fn law_outcome_is_four_times_the_size(w: int, h: int, fw: usize, fh: usize)
    requires
        w >= 0,
        h >= 0,
    ensures
        ({
            let (from, to) = (size_words(w, h), size_words(4 * w, 4 * h));
            let plain = scale_words(w, h, None);
            let shrunk = scale_words(w, h, Some((fw, fh)));
            let last = size_words(fw as int, fh as int);
            &&& from.is_prefix_of(plain)
            &&& to.is_suffix_of(plain)
            &&& plain.len() > from.len() + to.len()
            &&& plain.is_prefix_of(shrunk)
            &&& last.is_suffix_of(shrunk)
            &&& shrunk.len() > plain.len() + last.len()
        }),
{
    reveal_strlit(" → ");
    reveal_strlit(" (×4), supersampled → ");
    let (from, to) = (size_words(w, h), size_words(4 * w, 4 * h));
    let plain = scale_words(w, h, None);
    let shrunk = scale_words(w, h, Some((fw, fh)));
    let last = size_words(fw as int, fh as int);
    assert(plain.take(from.len() as int) =~= from);
    assert(plain.skip(plain.len() - to.len()) =~= to);
    assert(shrunk.take(plain.len() as int) =~= plain);
    assert(shrunk.skip(shrunk.len() - last.len()) =~= last);
}

} // verus!
