//! The browser's side: getting the model's bytes through the page cache, and what
//! pictures are there.

use vstd::prelude::*;

use crate::pixels::nearest_x4;
use crate::pixels::rgba_to_planes;
use crate::stitch::is_rgba_len;
use crate::stitch::length_message;
use crate::stitch::Stitcher;
use crate::text::decimal;
use crate::text::parse_u64;
use crate::weights::describe_head;
use crate::weights::looks_like_safetensors;

verus! {

/// Tunables of the page.
#[derive(Clone, Debug)]
pub struct UpscaleOptions {
    /// Denoising steps.
    pub steps: usize,
    /// Noise level of the low-resolution conditioning, `0..=350`.
    pub noise_level: i64,
    /// Tile side in low-resolution pixels.
    pub tile: usize,
    /// Overlap of neighbouring tiles in pixels.
    pub overlap: usize,
}

impl Default for UpscaleOptions {
    fn default() -> (options: Self)
        ensures
            options.steps == 20,
            options.noise_level == 20,
            options.tile == 128,
            options.overlap == 16,
    {
        UpscaleOptions { steps: 20, noise_level: 20, tile: 128, overlap: 16 }
    }
}

/// An upscale that was begun.
pub enum Upscale<T> {
    /// Without a model the picture is enlarged by repeating pixels, at once.
    Repeated((Vec<u8>, usize, usize)),
    /// With a model it is run tile by tile: the accumulation buffers, and the
    /// picture's planes that the tiles are cut from.
    Tiled(Stitcher<T>, Vec<T>),
}

/// `image` is `rgba` with every pixel repeated four times along both axes.
pub open spec fn repeated(
    rgba: Seq<u8>,
    width: int,
    height: int,
    image: (Vec<u8>, usize, usize),
) -> bool {
    &&& image.1 == 4 * width
    &&& image.2 == 4 * height
    &&& image.0@.len() == 64 * (width * height)
    &&& forall|i: int|
        #![trigger image.0@[i]]
        0 <= i < image.0@.len() ==> {
            let (x, y) = ((i / 4) % (4 * width), (i / 4) / (4 * width));
            image.0@[i] == rgba[((y / 4) * width + x / 4) * 4 + i % 4]
        }
}

/// Begins to upscale an RGBA picture four times; `full` says whether a model is
/// there. A buffer of the wrong length is refused. The progress state `bar` goes
/// through the calls of `on_progress`, which are made where pixels are repeated.
pub fn begin_upscale<T: Copy, H, S: Fn(u8) -> T, P: Fn(H, usize, usize) -> H>(
    rgba: &[u8],
    width: usize,
    height: usize,
    options: &UpscaleOptions,
    full: bool,
    zero: T,
    bar: H,
    sample: &S,
    on_progress: &P,
) -> (outcome: (Result<Upscale<T>, String>, H))
    requires
        rgba@.len() == 4 * (width * height) ==> 64 * (width * height) <= usize::MAX && 4 * width
            <= usize::MAX && 4 * height <= usize::MAX,
        forall|b: u8| call_requires(*sample, (b,)),
        forall|h: H, done: usize, total: usize|
            1 <= done <= total ==> #[trigger] call_requires(*on_progress, (h, done, total)),
    ensures
        outcome.0 is Err <==> rgba@.len() != 4 * (width * height),
        outcome.0 matches Err(text) ==> text@ == crate::stitch::length_text(
            rgba@.len() as int,
            width as int,
            height as int,
        ),
        outcome.0 is Ok ==> (full <==> outcome.0->Ok_0 is Tiled),
        outcome.0 matches Ok(Upscale::Repeated(image)) ==> repeated(
            rgba@,
            width as int,
            height as int,
            image,
        ) && crate::pixels::told_through(
            *on_progress,
            bar,
            1,
            image.2 as int,
            image.2,
            outcome.1,
        ),
        !(outcome.0 matches Ok(Upscale::Repeated(_))) ==> outcome.1 == bar,
        outcome.0 matches Ok(Upscale::Tiled(run, planes)) ==> {
            &&& run.wf()
            &&& run.begun(zero)
            &&& run.geo() == crate::tiling::geometry(
                width as int,
                height as int,
                options.tile as int,
                options.overlap as int,
            )
            &&& crate::stitch::planes_of(run.geo(), rgba@, planes@, *sample)
        },
{
    if !is_rgba_len(rgba.len(), width, height) {
        return (Err(length_message(rgba.len(), width, height)), bar);
    }
    if !full {
        let (image, end): ((Vec<u8>, usize, usize), H) = nearest_x4(
            rgba,
            width,
            height,
            bar,
            on_progress,
        );
        proof {
            assert(4 * ((4 * width) * (4 * height)) == 64 * (width * height)) by (nonlinear_arith);
        }
        return (Ok(Upscale::Repeated(image)), end);
    }
    let planes: Vec<T> = rgba_to_planes(rgba, width, height, sample);
    let run: Stitcher<T> = Stitcher::new(width, height, options.tile, options.overlap, zero);
    (Ok(Upscale::Tiled(run, planes)), bar)
}

/// The text of a JavaScript error: the error itself if it is a string, else its
/// message, else a stopgap.
pub fn js_error_text(string: Option<String>, message: Option<String>) -> (text: String)
    ensures
        text@ == match (string, message) {
            (Some(s), _) => s@,
            (None, Some(m)) => m@,
            (None, None) => "unknown JS error"@,
        },
{
    match string {
        Some(text) => text,
        None => match message {
            Some(text) => text,
            None => "unknown JS error".to_owned(),
        },
    }
}

/// A picture together with a data URL that shows it.
#[derive(Clone)]
pub struct ImageBuf {
    pub rgba: Vec<u8>,
    pub width: u32,
    pub height: u32,
    pub data_url: String,
}

/// How far fetching a model has come.
#[derive(Clone, Copy, Debug, PartialEq, Eq, Structural)]
pub enum ModelStatus {
    CheckingCache,
    Downloading { received: u64, total: Option<u64> },
    Saving,
    Ready,
}

/// What is to be done next.
#[derive(Clone, Copy, Debug, PartialEq, Eq, Structural)]
pub enum FetchStage {
    /// Open the page cache.
    OpenCache,
    /// Look the URL up in it.
    Match,
    /// Read the entry that was found.
    ReadCached,
    /// Delete the entry.
    Evict,
    /// Request the URL.
    Request,
    /// Read the next piece of the response.
    Read,
    /// Put the response into the cache.
    Put,
    /// Nothing: the bytes are here.
    Finished,
    /// Nothing: fetching failed.
    Failed,
}

/// How it went.
pub enum FetchEvent {
    /// It was done.
    Done,
    /// It could not be done, and why.
    Failed(String),
    /// The cache has no entry.
    Missing,
    /// The cache has an entry.
    Found,
    /// The entry's bytes.
    Cached(Vec<u8>),
    /// The server answered: whether with success, with which status and, if it sent
    /// one, with which content length.
    Response { ok: bool, status: u16, length: Option<String> },
    /// A piece of the response.
    Chunk(Vec<u8>),
    /// The end of the response.
    End,
}

/// What to tell after a step: the new status and a warning, if there are any.
pub struct Notice {
    pub status: Option<ModelStatus>,
    pub warning: Option<String>,
}

/// A model being fetched.
pub struct ModelFetch {
    pub url: String,
    pub stage: FetchStage,
    /// The bytes that are here.
    pub bytes: Vec<u8>,
    /// How many the server announced.
    pub total: Option<u64>,
    /// Why fetching failed.
    pub error: String,
}

/// The message of a poisoned cache entry.
pub open spec fn stale_text(url: Seq<char>, bytes: Seq<u8>) -> Seq<char> {
    "evicting stale cache entry for "@ + url + ": not a safetensors file ("@
        + crate::weights::head_text(bytes) + ")"@
}

/// The message of an unsuccessful response.
pub open spec fn status_text(url: Seq<char>, status: u16) -> Seq<char> {
    "failed to download model: HTTP "@ + crate::text::decimal_digits(status as nat) + " ("@ + url
        + ")"@
}

/// The message of a response that is not a tensor file.
pub open spec fn wrong_file_text(url: Seq<char>, bytes: Seq<u8>) -> Seq<char> {
    url + " did not return a safetensors file ("@ + crate::weights::head_text(bytes)
        + ") — check the model server is serving the real weights at this URL"@
}

/// The message of a failed put.
pub open spec fn put_text(url: Seq<char>, error: Seq<char>) -> Seq<char> {
    "cache.put failed for "@ + url + " (continuing without caching): "@ + error
}

/// The stage after an event.
pub open spec fn fetch_next(stage: FetchStage, bytes: Seq<u8>, event: FetchEvent) -> FetchStage {
    match (stage, event) {
        (FetchStage::OpenCache, FetchEvent::Done) => FetchStage::Match,
        (FetchStage::Match, FetchEvent::Missing) => FetchStage::Request,
        (FetchStage::Match, FetchEvent::Found) => FetchStage::ReadCached,
        (FetchStage::ReadCached, FetchEvent::Cached(b)) => if crate::weights::file_like(b@) {
            FetchStage::Finished
        } else {
            FetchStage::Evict
        },
        (FetchStage::Evict, FetchEvent::Done) => FetchStage::Request,
        (FetchStage::Evict, FetchEvent::Failed(_)) => FetchStage::Request,
        (FetchStage::Request, FetchEvent::Response { ok, .. }) => if ok {
            FetchStage::Read
        } else {
            FetchStage::Failed
        },
        (FetchStage::Read, FetchEvent::Chunk(_)) => FetchStage::Read,
        (FetchStage::Read, FetchEvent::End) => if crate::weights::file_like(bytes) {
            FetchStage::Put
        } else {
            FetchStage::Failed
        },
        (FetchStage::Put, FetchEvent::Done) => FetchStage::Finished,
        (FetchStage::Put, FetchEvent::Failed(_)) => FetchStage::Finished,
        (FetchStage::Finished, _) => FetchStage::Finished,
        _ => FetchStage::Failed,
    }
}

/// The bytes after an event.
pub open spec fn fetch_bytes(stage: FetchStage, bytes: Seq<u8>, event: FetchEvent) -> Seq<u8> {
    match (stage, event) {
        (FetchStage::ReadCached, FetchEvent::Cached(b)) => if crate::weights::file_like(b@) {
            b@
        } else {
            bytes
        },
        (FetchStage::Read, FetchEvent::Chunk(c)) => bytes + c@,
        _ => bytes,
    }
}

/// The announced length after an event.
pub open spec fn fetch_total(stage: FetchStage, total: Option<u64>, event: FetchEvent) -> Option<
    u64,
> {
    match (stage, event) {
        (FetchStage::Request, FetchEvent::Response { ok, length, .. }) => if ok {
            crate::transfer::announced(length)
        } else {
            total
        },
        _ => total,
    }
}

/// The status to tell after an event.
pub open spec fn fetch_status(
    stage: FetchStage,
    bytes: Seq<u8>,
    total: Option<u64>,
    event: FetchEvent,
) -> Option<ModelStatus> {
    match (stage, event) {
        (FetchStage::ReadCached, FetchEvent::Cached(b)) => if crate::weights::file_like(b@) {
            Some(ModelStatus::Ready)
        } else {
            None
        },
        (FetchStage::Request, FetchEvent::Response { ok, length, .. }) => if ok {
            Some(
                ModelStatus::Downloading {
                    received: bytes.len() as u64,
                    total: crate::transfer::announced(length),
                },
            )
        } else {
            None
        },
        (FetchStage::Read, FetchEvent::Chunk(c)) => Some(
            ModelStatus::Downloading { received: (bytes + c@).len() as u64, total },
        ),
        (FetchStage::Read, FetchEvent::End) => if crate::weights::file_like(bytes) {
            Some(ModelStatus::Saving)
        } else {
            None
        },
        (FetchStage::Put, FetchEvent::Done) => Some(ModelStatus::Ready),
        (FetchStage::Put, FetchEvent::Failed(_)) => Some(ModelStatus::Ready),
        _ => None,
    }
}

/// The warning to give after an event.
pub open spec fn fetch_warning(url: Seq<char>, stage: FetchStage, event: FetchEvent) -> Option<
    Seq<char>,
> {
    match (stage, event) {
        (FetchStage::ReadCached, FetchEvent::Cached(b)) => if crate::weights::file_like(b@) {
            None
        } else {
            Some(stale_text(url, b@))
        },
        (FetchStage::Put, FetchEvent::Failed(e)) => Some(put_text(url, e@)),
        _ => None,
    }
}

/// The error after an event.
pub open spec fn fetch_error(
    url: Seq<char>,
    stage: FetchStage,
    bytes: Seq<u8>,
    error: Seq<char>,
    event: FetchEvent,
) -> Seq<char> {
    match (stage, event) {
        (FetchStage::Request, FetchEvent::Response { ok, status, .. }) => if ok {
            error
        } else {
            status_text(url, status)
        },
        (FetchStage::Read, FetchEvent::End) => if crate::weights::file_like(bytes) {
            error
        } else {
            wrong_file_text(url, bytes)
        },
        (FetchStage::OpenCache, FetchEvent::Failed(e)) => e@,
        (FetchStage::Match, FetchEvent::Failed(e)) => e@,
        (FetchStage::ReadCached, FetchEvent::Failed(e)) => e@,
        (FetchStage::Request, FetchEvent::Failed(e)) => e@,
        (FetchStage::Read, FetchEvent::Failed(e)) => e@,
        _ => error,
    }
}

impl ModelFetch {
    /// The bytes that are handed out, or put into the cache, look like a tensor
    /// file; and until something is read there are none.
    pub open spec fn wf(&self) -> bool {
        match self.stage {
            FetchStage::Put | FetchStage::Finished => crate::weights::file_like(self.bytes@),
            FetchStage::Read | FetchStage::Failed => true,
            _ => self.bytes@.len() == 0,
        }
    }

    /// Begins to fetch a URL; the status to tell at once is that the cache is being
    /// checked.
    pub fn start(url: &str) -> (begun: (ModelFetch, ModelStatus))
        ensures
            begun.0.wf(),
            begun.0.url@ == url@,
            begun.0.stage is OpenCache,
            begun.0.bytes@.len() == 0,
            begun.0.total is None,
            begun.0.error@ == Seq::<char>::empty(),
            begun.1 is CheckingCache,
    {
        let fetch = ModelFetch {
            url: url.to_owned(),
            stage: FetchStage::OpenCache,
            bytes: Vec::new(),
            total: None,
            error: String::new(),
        };
        (fetch, ModelStatus::CheckingCache)
    }

    /// Takes in how the current stage went.
    pub fn advance(&mut self, event: FetchEvent) -> (notice: Notice)
        requires
            old(self).wf(),
        ensures
            final(self).wf(),
            final(self).url == old(self).url,
            final(self).stage == fetch_next(old(self).stage, old(self).bytes@, event),
            final(self).bytes@ == fetch_bytes(old(self).stage, old(self).bytes@, event),
            final(self).total == fetch_total(old(self).stage, old(self).total, event),
            final(self).error@ == fetch_error(
                old(self).url@,
                old(self).stage,
                old(self).bytes@,
                old(self).error@,
                event,
            ),
            notice.status == fetch_status(
                old(self).stage,
                old(self).bytes@,
                old(self).total,
                event,
            ),
            notice.warning is Some <==> fetch_warning(
                old(self).url@,
                old(self).stage,
                event,
            ) is Some,
            notice.warning matches Some(w) ==> Some(w@) == fetch_warning(
                old(self).url@,
                old(self).stage,
                event,
            ),
    {
        match (self.stage, event) {
            (FetchStage::OpenCache, FetchEvent::Done) => {
                self.stage = FetchStage::Match;
            },
            (FetchStage::Match, FetchEvent::Missing) => {
                self.stage = FetchStage::Request;
            },
            (FetchStage::Match, FetchEvent::Found) => {
                self.stage = FetchStage::ReadCached;
            },
            (FetchStage::ReadCached, FetchEvent::Cached(bytes)) => {
                if looks_like_safetensors(bytes.as_slice()) {
                    self.bytes = bytes;
                    self.stage = FetchStage::Finished;
                    return Notice { status: Some(ModelStatus::Ready), warning: None };
                }
                self.stage = FetchStage::Evict;
                let mut warning: String = "evicting stale cache entry for ".to_owned();
                warning.append(self.url.as_str());
                warning.append(": not a safetensors file (");
                let head: String = describe_head(bytes.as_slice());
                warning.append(head.as_str());
                warning.append(")");
                return Notice { status: None, warning: Some(warning) };
            },
            (FetchStage::Evict, FetchEvent::Done) => {
                self.stage = FetchStage::Request;
            },
            (FetchStage::Evict, FetchEvent::Failed(_)) => {
                self.stage = FetchStage::Request;
            },
            (FetchStage::Request, FetchEvent::Response { ok, status, length }) => {
                if ok {
                    self.total = match length {
                        Some(text) => parse_u64(text.as_str()),
                        None => None,
                    };
                    self.stage = FetchStage::Read;
                    let told = ModelStatus::Downloading {
                        received: self.bytes.len() as u64,
                        total: self.total,
                    };
                    return Notice { status: Some(told), warning: None };
                }
                let mut error: String = "failed to download model: HTTP ".to_owned();
                let digits: String = decimal(status as u64);
                error.append(digits.as_str());
                error.append(" (");
                error.append(self.url.as_str());
                error.append(")");
                self.error = error;
                self.stage = FetchStage::Failed;
            },
            (FetchStage::Read, FetchEvent::Chunk(chunk)) => {
                self.bytes.extend_from_slice(chunk.as_slice());
                assert(self.bytes@ =~= old(self).bytes@ + chunk@);
                let told = ModelStatus::Downloading {
                    received: self.bytes.len() as u64,
                    total: self.total,
                };
                return Notice { status: Some(told), warning: None };
            },
            (FetchStage::Read, FetchEvent::End) => {
                if looks_like_safetensors(self.bytes.as_slice()) {
                    self.stage = FetchStage::Put;
                    return Notice { status: Some(ModelStatus::Saving), warning: None };
                }
                let mut error: String = self.url.clone();
                error.append(" did not return a safetensors file (");
                let head: String = describe_head(self.bytes.as_slice());
                error.append(head.as_str());
                error.append(
                    ") — check the model server is serving the real weights at this URL",
                );
                self.error = error;
                self.stage = FetchStage::Failed;
            },
            (FetchStage::Put, FetchEvent::Done) => {
                self.stage = FetchStage::Finished;
                return Notice { status: Some(ModelStatus::Ready), warning: None };
            },
            (FetchStage::Put, FetchEvent::Failed(e)) => {
                self.stage = FetchStage::Finished;
                let mut warning: String = "cache.put failed for ".to_owned();
                warning.append(self.url.as_str());
                warning.append(" (continuing without caching): ");
                warning.append(e.as_str());
                return Notice { status: Some(ModelStatus::Ready), warning: Some(warning) };
            },
            (FetchStage::Finished, _) => {},
            (FetchStage::OpenCache, FetchEvent::Failed(e))
            | (FetchStage::Match, FetchEvent::Failed(e))
            | (FetchStage::ReadCached, FetchEvent::Failed(e))
            | (FetchStage::Request, FetchEvent::Failed(e))
            | (FetchStage::Read, FetchEvent::Failed(e)) => {
                self.error = e;
                self.stage = FetchStage::Failed;
            },
            _ => {
                self.stage = FetchStage::Failed;
            },
        }
        Notice { status: None, warning: None }
    }
}

/// The stage and bytes after a number of events from the start.
pub open spec fn fetched(events: Seq<FetchEvent>) -> (FetchStage, Seq<u8>)
    decreases events.len(),
{
    if events.len() == 0 {
        (FetchStage::OpenCache, Seq::empty())
    } else {
        let (stage, bytes) = fetched(events.drop_last());
        (fetch_next(stage, bytes, events.last()), fetch_bytes(stage, bytes, events.last()))
    }
}

/// Bytes that are handed out, and a response that is put into the cache, always look
/// like a tensor file, whatever the cache and the server came up with.
pub proof fn law_only_models_are_kept(events: Seq<FetchEvent>)
    ensures
        fetched(events).0 is Finished || fetched(events).0 is Put ==> crate::weights::file_like(
            fetched(events).1,
        ),
    decreases events.len(),
{
    if events.len() > 0 {
        law_only_models_are_kept(events.drop_last());
    }
}

/// A good cache entry is served without a request, byte for byte.
pub proof fn law_cache_hit_needs_no_network(opened: FetchEvent, found: FetchEvent, entry: FetchEvent)
    requires
        opened is Done,
        found is Found,
        entry matches FetchEvent::Cached(b) && crate::weights::file_like(b@),
    ensures
        fetched(seq![opened, found, entry]).0 is Finished,
        fetched(seq![opened, found, entry]).1 == (entry->Cached_0)@,
        !(fetched(seq![opened]).0 is Request) && !(fetched(seq![opened, found]).0 is Request),
{
    let (a, b, c) = (seq![opened], seq![opened, found], seq![opened, found, entry]);
    reveal_with_fuel(fetched, 2);
    assert(a.drop_last() =~= Seq::empty());
    assert(b.drop_last() =~= a);
    assert(c.drop_last() =~= b);
}

/// The cache heals itself: an entry that is not a model leads to its eviction and,
/// whether or not that works, to a fresh request.
pub proof fn law_poisoned_entry_is_replaced(
    opened: FetchEvent,
    found: FetchEvent,
    entry: FetchEvent,
    evicted: FetchEvent,
)
    requires
        opened is Done,
        found is Found,
        entry matches FetchEvent::Cached(b) && !crate::weights::file_like(b@),
        evicted is Done || evicted is Failed,
    ensures
        fetched(seq![opened, found, entry]).0 is Evict,
        fetched(seq![opened, found, entry, evicted]).0 is Request,
{
    let (a, b) = (seq![opened], seq![opened, found]);
    let (c, d) = (seq![opened, found, entry], seq![opened, found, entry, evicted]);
    reveal_with_fuel(fetched, 2);
    assert(a.drop_last() =~= Seq::empty());
    assert(b.drop_last() =~= a);
    assert(c.drop_last() =~= b);
    assert(d.drop_last() =~= c);
    assert(fetched(a).0 is Match);
    assert(fetched(b).0 is ReadCached);
    assert(fetched(c).0 is Evict);
}

/// Caching is optional: failing to put a good response into the cache still ends
/// with its bytes.
pub proof fn law_put_failure_is_harmless(events: Seq<FetchEvent>, put: FetchEvent)
    requires
        fetched(events).0 is Put,
        put is Done || put is Failed,
    ensures
        fetched(events.push(put)).0 is Finished,
        fetched(events.push(put)).1 == fetched(events).1,
{
    assert(events.push(put).drop_last() =~= events);
}

/// Every pixel becomes a block of four by four pixels like it: what stands at column
/// `x`, row `y` of the picture stands at columns `4 * x` to `4 * x + 3`, rows `4 * y` to
/// `4 * y + 3` of the enlarged one.
pub proof fn law_pixels_become_blocks(
    rgba: Seq<u8>,
    width: int,
    height: int,
    image: (Vec<u8>, usize, usize),
    x: int,
    y: int,
    dx: int,
    dy: int,
    c: int,
)
    requires
        repeated(rgba, width, height, image),
        0 <= x < width,
        0 <= y < height,
        0 <= dx < 4,
        0 <= dy < 4,
        0 <= c < 4,
    ensures
        image.1 == 4 * width,
        image.2 == 4 * height,
        ({
            let at = ((4 * y + dy) * (4 * width) + (4 * x + dx)) * 4 + c;
            &&& 0 <= at < image.0@.len()
            &&& image.0@[at] == rgba[(y * width + x) * 4 + c]
        }),
{
    let (w, px, py) = (4 * width, 4 * x + dx, 4 * y + dy);
    let i = (py * w + px) * 4 + c;
    crate::pixels::lemma_pixel(px, py, w);
    crate::pixels::lemma_grid_index(px, py, w, 4 * height);
    assert((4 * height) * w == 16 * (width * height)) by (nonlinear_arith)
        requires
            w == 4 * width,
    ;
    assert(i / 4 == py * w + px && i % 4 == c);
    assert(px / 4 == x && py / 4 == y);
    let value = image.0@[i];
}

/// The bytes of pieces, one behind the other.
pub open spec fn all_bytes(chunks: Seq<Vec<u8>>) -> Seq<u8>
    decreases chunks.len(),
{
    if chunks.len() == 0 {
        Seq::empty()
    } else {
        all_bytes(chunks.drop_last()) + chunks.last()@
    }
}

/// Downloading keeps every byte: where the cache has no entry and the server answers
/// with success, the bytes that are here are those of all pieces in the order in which
/// they came. At the end of the response they are put into the cache if they look like a
/// tensor file, and the fetch fails if they do not.
pub proof fn law_download_keeps_every_byte(
    status: u16,
    length: Option<String>,
    chunks: Seq<Vec<u8>>,
    opened: FetchEvent,
    absent: FetchEvent,
)
    requires
        opened is Done,
        absent is Missing,
    ensures
        ({
            let answer = FetchEvent::Response { ok: true, status, length };
            let head = seq![opened, absent, answer];
            let events = head + Seq::new(chunks.len(), |i: int| FetchEvent::Chunk(chunks[i]));
            &&& fetched(events).0 is Read
            &&& fetched(events).1 == all_bytes(chunks)
            &&& fetched(events.push(FetchEvent::End)).1 == all_bytes(chunks)
            &&& crate::weights::file_like(all_bytes(chunks)) ==> fetched(
                events.push(FetchEvent::End),
            ).0 is Put
            &&& !crate::weights::file_like(all_bytes(chunks)) ==> fetched(
                events.push(FetchEvent::End),
            ).0 is Failed
        }),
    decreases chunks.len(),
{
    let answer = FetchEvent::Response { ok: true, status, length };
    let head = seq![opened, absent, answer];
    let events = head + Seq::new(chunks.len(), |i: int| FetchEvent::Chunk(chunks[i]));
    if chunks.len() == 0 {
        let (a, b) = (seq![opened], seq![opened, absent]);
        reveal_with_fuel(fetched, 2);
        assert(events =~= head);
        assert(a.drop_last() =~= Seq::empty());
        assert(b.drop_last() =~= a);
        assert(head.drop_last() =~= b);
        assert(fetched(a).0 is Match);
        assert(fetched(b).0 is Request);
    } else {
        let few = chunks.drop_last();
        law_download_keeps_every_byte(status, length, few, opened, absent);
        let before = head + Seq::new(few.len(), |i: int| FetchEvent::Chunk(few[i]));
        assert(events.drop_last() =~= before);
        assert(events.last() == FetchEvent::Chunk(chunks.last()));
    }
    assert(events.push(FetchEvent::End).drop_last() =~= events);
}

/// The page is told how much is here: after each piece, the number of bytes that are
/// here by then, against the length that the server announced.
pub proof fn law_page_is_told_what_is_here(
    bytes: Seq<u8>,
    total: Option<u64>,
    chunk: Vec<u8>,
)
    requires
        bytes.len() + chunk@.len() <= u64::MAX,
    ensures
        ({
            let event = FetchEvent::Chunk(chunk);
            let told = fetch_status(FetchStage::Read, bytes, total, event);
            let here = fetch_bytes(FetchStage::Read, bytes, event);
            told matches Some(ModelStatus::Downloading { received, total: t }) && received
                == here.len() && here.len() == bytes.len() + chunk@.len() && t == total
        }),
{
}

/// The page is told that a model is ready exactly when its bytes are handed out.
pub proof fn law_ready_means_finished(
    stage: FetchStage,
    bytes: Seq<u8>,
    total: Option<u64>,
    event: FetchEvent,
)
    ensures
        fetch_status(stage, bytes, total, event) == Some(ModelStatus::Ready) <==> fetch_next(
            stage,
            bytes,
            event,
        ) is Finished && !(stage is Finished),
        fetch_status(stage, bytes, total, event) == Some(ModelStatus::Saving) <==> fetch_next(
            stage,
            bytes,
            event,
        ) is Put && !(stage is Put),
{
}

/// What fails on the way to the bytes ends the fetch, with the error that came; only
/// tidying up may fail.
pub proof fn law_failures_end_the_fetch(
    url: Seq<char>,
    stage: FetchStage,
    bytes: Seq<u8>,
    error: Seq<char>,
    why: String,
)
    ensures
        ({
            let event = FetchEvent::Failed(why);
            let tidying = stage is Evict || stage is Put;
            let over = stage is Finished || stage is Failed;
            &&& !tidying && !over ==> fetch_next(stage, bytes, event) is Failed && fetch_error(
                url,
                stage,
                bytes,
                error,
                event,
            ) == why@
            &&& tidying ==> !(fetch_next(stage, bytes, event) is Failed) && fetch_error(
                url,
                stage,
                bytes,
                error,
                event,
            ) == error
        }),
{
}

/// A fetch goes on in one way only: from each stage to one that may follow it, and only
/// by the events that the stage is there for. Anything else fails it.
pub proof fn law_fetch_goes_one_way(stage: FetchStage, bytes: Seq<u8>, event: FetchEvent)
    ensures
        match fetch_next(stage, bytes, event) {
            FetchStage::OpenCache => false,
            FetchStage::Match => stage is OpenCache && event is Done,
            FetchStage::ReadCached => stage is Match && event is Found,
            FetchStage::Evict => stage is ReadCached && event is Cached,
            FetchStage::Request => (stage is Match && event is Missing) || (stage is Evict && (
            event is Done || event is Failed)),
            FetchStage::Read => (stage is Request && event is Response) || (stage is Read
                && event is Chunk),
            FetchStage::Put => stage is Read && event is End,
            FetchStage::Finished => {
                ||| stage is Finished
                ||| stage is ReadCached && event is Cached
                ||| stage is Put && (event is Done || event is Failed)
            },
            FetchStage::Failed => !(stage is Finished),
        },
        stage is Request && (event matches FetchEvent::Response { ok, .. } && ok) ==> fetch_next(
            stage,
            bytes,
            event,
        ) is Read,
        stage is Request && (event matches FetchEvent::Response { ok, .. } && !ok) ==> fetch_next(
            stage,
            bytes,
            event,
        ) is Failed,
{
}

/// The page is warned exactly where something goes wrong that does not end the fetch: a
/// cache entry that is no model, which is evicted, and a response that could not be put
/// into the cache, whose error ends the warning.
pub proof fn law_page_is_warned_of_what_goes_wrong(
    url: Seq<char>,
    stage: FetchStage,
    bytes: Seq<u8>,
    event: FetchEvent,
)
    ensures
        fetch_warning(url, stage, event) is Some <==> fetch_next(stage, bytes, event) is Evict || (
        stage is Put && event is Failed),
        stage is Put ==> (event matches FetchEvent::Failed(e) ==> ({
            let text = fetch_warning(url, stage, event)->0;
            text.len() >= e@.len() && text.skip(text.len() - e@.len()) == e@
        })),
{
    if stage is Put && event is Failed {
        let (e, text) = ((event->Failed_0)@, fetch_warning(url, stage, event)->0);
        assert(text.skip(text.len() - e.len()) =~= e);
    }
}

/// The announced length comes with the answer and stays: the page is told of it with the
/// answer, with nothing received, and it changes no more.
pub proof fn law_announced_length_stays(
    stage: FetchStage,
    bytes: Seq<u8>,
    total: Option<u64>,
    event: FetchEvent,
)
    ensures
        !(stage is Request) ==> fetch_total(stage, total, event) == total,
        stage is Request && fetch_next(stage, bytes, event) is Read && bytes.len() == 0
            ==> fetch_status(stage, bytes, total, event) == Some(
            ModelStatus::Downloading { received: 0, total: fetch_total(stage, total, event) },
        ),
        stage is Request && (event matches FetchEvent::Response { ok, .. } && ok) ==> fetch_total(
            stage,
            total,
            event,
        ) == crate::transfer::announced(event->length),
{
}

} // verus!
