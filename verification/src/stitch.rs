//! A tiled run: tiles go out in batches, their upscaled samples come back and are
//! blended into one picture.

use vstd::prelude::*;

use crate::layout::crop_chw;
use crate::model::UpscaleOptions;
use crate::noise::tile_seed;
use crate::noise::LOW_RES_TWIST;
use crate::pixels::accumulate;
use crate::pixels::normalize_to_rgba;
use crate::pixels::rgba_to_planes;
use crate::text::decimal;
use crate::text::joined;
use crate::tiling::tile_origins;
use crate::tiling::TileGeometry;

verus! {

/// Samples in the upscaled picture: three for each of sixteen pixels per source
/// pixel.
pub open spec fn out_samples(g: TileGeometry) -> int {
    48 * (g.width * g.height)
}

/// Samples in one tile of the source: three planes.
pub open spec fn tile_in(th: int, tw: int) -> int {
    3 * (th * tw)
}

/// Samples in one upscaled tile.
pub open spec fn tile_out(th: int, tw: int) -> int {
    48 * (th * tw)
}

/// `after` is `before` with the upscaled samples of the `k`-th tile added.
pub open spec fn tile_placed<T, A: Fn(T, T) -> T>(
    g: TileGeometry,
    k: int,
    before: Seq<T>,
    after: Seq<T>,
    vals: Seq<T>,
    sum: A,
) -> bool {
    crate::pixels::tile_added(
        before,
        after,
        vals,
        4 * g.th(),
        4 * g.tw(),
        4 * g.width,
        4 * g.x0(k),
        4 * g.y0(k),
        sum,
    )
}

/// `rgba` is the opaque picture made of the blended `samples`, each divided by
/// the number of tiles that hold its pixel.
pub open spec fn picture<T, Q: Fn(T, usize) -> u8>(
    g: TileGeometry,
    samples: Seq<T>,
    rgba: Seq<u8>,
    quantize: Q,
) -> bool {
    &&& rgba.len() == 64 * (g.width * g.height)
    &&& forall|i: int|
        #![trigger rgba[i]]
        0 <= i < rgba.len() ==> if i % 4 == 3 {
            rgba[i] == 255
        } else {
            call_ensures(
                quantize,
                (
                    samples[(i / 4) * 3 + i % 4],
                    crate::tiling::cover_count(
                        g,
                        g.count() as nat,
                        ((i / 4) % (4 * g.width)) / 4,
                        ((i / 4) / (4 * g.width)) / 4,
                    ) as usize,
                ),
                rgba[i],
            )
        }
}

/// The accumulation buffers of a tiled run, and how far it has come.
pub struct Stitcher<T> {
    out: Vec<T>,
    weight: Vec<usize>,
    origins: Vec<(usize, usize)>,
    th: usize,
    tw: usize,
    width: usize,
    height: usize,
    total: usize,
    done: usize,
    plan: Ghost<TileGeometry>,
}

impl<T: Copy> Stitcher<T> {
    /// The geometry of the run.
    pub closed spec fn geo(&self) -> TileGeometry {
        self.plan@
    }

    /// How many tiles have been placed.
    pub closed spec fn placed(&self) -> nat {
        self.done as nat
    }

    /// The samples summed so far.
    pub closed spec fn samples(&self) -> Seq<T> {
        self.out@
    }

    /// The buffers fit the geometry, and the weights count the tiles placed.
    pub closed spec fn wf(&self) -> bool {
        let g = self.plan@;
        &&& g.valid()
        &&& g.width == self.width
        &&& g.height == self.height
        &&& g.th() == self.th
        &&& g.tw() == self.tw
        &&& 64 * (self.width * self.height) <= usize::MAX
        &&& 4 * self.width <= usize::MAX
        &&& 4 * self.height <= usize::MAX
        &&& self.origins@.len() == g.count()
        &&& forall|k: int|
            0 <= k < self.origins@.len() ==> (#[trigger] self.origins@[k]).0 == g.y0(k)
                && self.origins@[k].1 == g.x0(k)
        &&& self.total == crate::tiling::max2(g.count(), 1)
        &&& self.done <= g.count()
        &&& self.out@.len() == out_samples(g)
        &&& self.weight@.len() == 16 * (g.width * g.height)
        &&& forall|px: int|
            0 <= px < self.weight@.len() ==> #[trigger] self.weight@[px]
                == crate::tiling::cover_count(
                g,
                self.done as nat,
                (px % (4 * g.width)) / 4,
                (px / (4 * g.width)) / 4,
            )
    }

    /// No tile has been placed, and every sample is `zero`.
    pub open spec fn begun(&self, zero: T) -> bool {
        &&& self.placed() == 0
        &&& self.samples() == Seq::new(out_samples(self.geo()) as nat, |i: int| zero)
    }

    /// `after` is this run with the upscaled samples of its next tile added.
    pub open spec fn places<A: Fn(T, T) -> T>(&self, after: Self, vals: Seq<T>, sum: A) -> bool {
        &&& after.geo() == self.geo()
        &&& after.placed() == self.placed() + 1
        &&& tile_placed(
            self.geo(),
            self.placed() as int,
            self.samples(),
            after.samples(),
            vals,
            sum,
        )
    }

    /// Plans the tiles of an image and clears the buffers.
    pub fn new(width: usize, height: usize, tile: usize, overlap: usize, zero: T) -> (run: Self)
        requires
            64 * (width * height) <= usize::MAX,
            4 * width <= usize::MAX,
            4 * height <= usize::MAX,
        ensures
            run.wf(),
            run.geo() == crate::tiling::geometry(
                width as int,
                height as int,
                tile as int,
                overlap as int,
            ),
            run.begun(zero),
    {
        let (origins, th, tw, total) = tile_origins(width, height, tile, overlap);
        let ghost g = crate::tiling::geometry(
            width as int,
            height as int,
            tile as int,
            overlap as int,
        );
        let pixels: usize = 16 * (width * height);
        let mut out: Vec<T> = Vec::new();
        let mut weight: Vec<usize> = Vec::new();
        let mut i: usize = 0;
        while i < pixels
            invariant
                i <= pixels,
                out@.len() == 3 * i,
                weight@.len() == i,
                forall|k: int| 0 <= k < 3 * i ==> #[trigger] out@[k] == zero,
                forall|k: int| 0 <= k < i ==> #[trigger] weight@[k] == 0,
            decreases pixels - i,
        {
            out.push(zero);
            out.push(zero);
            out.push(zero);
            weight.push(0);
            i = i + 1;
        }
        proof {
            assert(width * height >= 0) by (nonlinear_arith);
            assert(out@ =~= Seq::new(out_samples(g) as nat, |i: int| zero));
            crate::tiling::lemma_geometry_valid(
                width as int,
                height as int,
                tile as int,
                overlap as int,
            );
        }
        Stitcher { out, weight, origins, th, tw, width, height, total, done: 0, plan: Ghost(g) }
    }

    /// Height and width of every tile.
    pub fn tile_size(&self) -> (size: (usize, usize))
        requires
            self.wf(),
        ensures
            size.0 == self.geo().th(),
            size.1 == self.geo().tw(),
    {
        (self.th, self.tw)
    }

    /// Width and height of the source image.
    pub fn image_size(&self) -> (size: (usize, usize))
        requires
            self.wf(),
        ensures
            size.0 == self.geo().width,
            size.1 == self.geo().height,
    {
        (self.width, self.height)
    }

    /// A run's geometry is valid and its picture fits in memory.
    pub proof fn lemma_limits(&self)
        requires
            self.wf(),
        ensures
            self.geo().valid(),
            64 * (self.geo().width * self.geo().height) <= usize::MAX,
            4 * self.geo().width <= usize::MAX,
            4 * self.geo().height <= usize::MAX,
            self.samples().len() == out_samples(self.geo()),
            self.placed() <= self.geo().count(),
    {
    }

    /// How many tiles the run has.
    pub fn tile_count(&self) -> (n: usize)
        requires
            self.wf(),
        ensures
            n == self.geo().count(),
    {
        self.origins.len()
    }

    /// The corner of the `k`-th tile as `(row, column)`.
    pub fn corner(&self, k: usize) -> (corner: (usize, usize))
        requires
            self.wf(),
            k < self.geo().count(),
        ensures
            corner.0 == self.geo().y0(k as int),
            corner.1 == self.geo().x0(k as int),
    {
        self.origins[k]
    }

    /// How many tiles are done, and out of how many.
    pub fn progress(&self) -> (progress: (usize, usize))
        requires
            self.wf(),
        ensures
            progress.0 == self.placed(),
            progress.1 == crate::tiling::max2(self.geo().count(), 1),
            progress.0 <= progress.1,
    {
        (self.done, self.total)
    }

    /// Adds the upscaled samples of the next tile.
    pub fn place<A: Fn(T, T) -> T>(&mut self, vals: &[T], sum: &A)
        requires
            old(self).wf(),
            old(self).placed() < old(self).geo().count(),
            vals@.len() == tile_out(old(self).geo().th(), old(self).geo().tw()),
            forall|a: T, b: T| call_requires(*sum, (a, b)),
        ensures
            final(self).wf(),
            old(self).places(*final(self), vals@, *sum),
    {
        let ghost g = self.plan@;
        let ghost k = self.done as int;
        let ghost before = self.weight@;
        proof {
            assert(self.weight@.len() == self.weight.len());
            crate::tiling::lemma_tile_in_bounds(g, k);
            lemma_scaled_region(g, k);
            let (th, tw) = (g.th(), g.tw());
            assert(3 * ((4 * th) * (4 * tw)) == 48 * (th * tw)) by (nonlinear_arith);
            assert forall|px: int| 0 <= px < before.len() implies #[trigger] before[px]
                < usize::MAX by {
                crate::tiling::lemma_cover_count(
                    g,
                    self.done as nat,
                    (px % (4 * g.width)) / 4,
                    (px / (4 * g.width)) / 4,
                    0,
                );
            }
        }
        let (y0, x0) = self.origins[self.done];
        accumulate(
            &mut self.out,
            &mut self.weight,
            vals,
            4 * self.th,
            4 * self.tw,
            4 * self.width,
            4 * x0,
            4 * y0,
            sum,
        );
        self.done = self.done + 1;
        proof {
            assert forall|px: int| 0 <= px < self.weight@.len() implies #[trigger] self.weight@[px]
                == crate::tiling::cover_count(
                g,
                self.done as nat,
                (px % (4 * g.width)) / 4,
                (px / (4 * g.width)) / 4,
            ) by {
                let w0 = before[px];
            }
        }
    }

    /// The blended picture with its width and height.
    pub fn finish<Q: Fn(T, usize) -> u8>(self, quantize: &Q) -> (image: (Vec<u8>, usize, usize))
        requires
            self.wf(),
            self.placed() == self.geo().count(),
            forall|v: T, n: usize| n >= 1 ==> call_requires(*quantize, (v, n)),
        ensures
            image.1 == 4 * self.geo().width,
            image.2 == 4 * self.geo().height,
            picture(self.geo(), self.samples(), image.0@, *quantize),
    {
        let ow: usize = 4 * self.width;
        let oh: usize = 4 * self.height;
        let ghost g = self.plan@;
        proof {
            let (w, h) = (g.width, g.height);
            assert((4 * w) * (4 * h) == 16 * (w * h)) by (nonlinear_arith);
        }
        let rgba: Vec<u8> = normalize_to_rgba(
            self.out.as_slice(),
            self.weight.as_slice(),
            ow,
            oh,
            quantize,
        );
        proof {
            assert forall|i: int| #![trigger rgba@[i]] 0 <= i < rgba@.len() implies if i % 4 == 3 {
                rgba@[i] == 255
            } else {
                call_ensures(
                    *quantize,
                    (
                        self.out@[(i / 4) * 3 + i % 4],
                        crate::tiling::cover_count(
                            g,
                            g.count() as nat,
                            ((i / 4) % (4 * g.width)) / 4,
                            ((i / 4) / (4 * g.width)) / 4,
                        ) as usize,
                    ),
                    rgba@[i],
                )
            } by {
                let px = i / 4;
                let (x, y) = (px % (4 * g.width), px / (4 * g.width));
                lemma_pixel_inside(px, g.width, g.height);
                crate::tiling::lemma_pixel_counted(g, x / 4, y / 4);
                assert(self.weight@[px] == crate::tiling::cover_count(
                    g,
                    g.count() as nat,
                    x / 4,
                    y / 4,
                ));
            }
        }
        (rgba, ow, oh)
    }
}

/// An output pixel belongs to a source pixel of the image.
proof fn lemma_pixel_inside(px: int, width: int, height: int)
    requires
        width >= 0,
        height >= 0,
        0 <= px < 16 * (width * height),
    ensures
        0 <= (px % (4 * width)) / 4 < width,
        0 <= (px / (4 * width)) / 4 < height,
{
    assert(width > 0) by (nonlinear_arith)
        requires
            width >= 0,
            0 <= px < 16 * (width * height),
    ;
    let w4 = 4 * width;
    let q = px / w4;
    vstd::arithmetic::div_mod::lemma_mod_bound(px, w4);
    vstd::arithmetic::div_mod::lemma_fundamental_div_mod(px, w4);
    assert(0 <= q < 4 * height) by (nonlinear_arith)
        requires
            px == w4 * q + px % w4,
            0 <= px % w4 < w4,
            w4 == 4 * width,
            0 <= px < 16 * (width * height),
            width > 0,
    ;
}

/// A tile that lies in the image lies, scaled, in the output.
proof fn lemma_scaled_region(g: TileGeometry, k: int)
    requires
        g.valid(),
        0 <= g.x0(k),
        g.x0(k) + g.tw() <= g.width,
        0 <= g.y0(k),
        g.y0(k) + g.th() <= g.height,
    ensures
        4 * g.x0(k) + 4 * g.tw() <= 4 * g.width,
        (4 * g.y0(k) + 4 * g.th()) * (4 * g.width) <= 16 * (g.width * g.height),
{
    let (a, w, h) = (g.y0(k) + g.th(), g.width, g.height);
    assert((4 * a) * (4 * w) <= 16 * (w * h)) by (nonlinear_arith)
        requires
            0 <= a <= h,
            w >= 0,
    ;
    assert(4 * g.y0(k) + 4 * g.th() == 4 * a);
}

impl<T: Copy> Stitcher<T> {
    /// The pixels of the `k`-th tile, cut out of the picture's planes.
    pub fn cut(&self, planes: &Vec<T>, k: usize) -> (pixels: Vec<T>)
        requires
            self.wf(),
            planes@.len() == 3 * (self.geo().width * self.geo().height),
            k < self.geo().count(),
        ensures
            pixels@ == tile_pixels(self.geo(), planes@, k as int),
            pixels@.len() == tile_in(self.geo().th(), self.geo().tw()),
    {
        let (y0, x0) = self.corner(k);
        let (th, tw) = self.tile_size();
        let (width, height) = self.image_size();
        proof {
            let g = self.geo();
            self.lemma_limits();
            crate::tiling::lemma_tile_in_bounds(g, k as int);
            let (w, h) = (g.width, g.height);
            assert(3 * (w * h) == 3 * (h * w)) by (nonlinear_arith);
        }
        crop_chw(planes.as_slice(), 3, height, width, y0, y0 + th, x0, x0 + tw)
    }

    /// The pixels of the next tile to be placed, or nothing once all are.
    pub fn next_tile(&self, planes: &Vec<T>) -> (tile: Option<Vec<T>>)
        requires
            self.wf(),
            planes@.len() == 3 * (self.geo().width * self.geo().height),
        ensures
            tile is None <==> self.placed() == self.geo().count(),
            tile matches Some(pixels) ==> pixels@ == tile_pixels(
                self.geo(),
                planes@,
                self.placed() as int,
            ) && pixels@.len() == tile_in(self.geo().th(), self.geo().tw()),
    {
        let (done, _total) = self.progress();
        proof {
            self.lemma_limits();
        }
        if done < self.tile_count() {
            Some(self.cut(planes, done))
        } else {
            None
        }
    }
}

/// Some of the tiles, stacked for one model forward.
pub struct TileBatch<T> {
    /// Number of the first tile.
    pub first: usize,
    /// How many tiles there are.
    pub count: usize,
    /// Tile height in pixels.
    pub th: usize,
    /// Tile width in pixels.
    pub tw: usize,
    /// The tiles' samples, `[count, 3, th, tw]`.
    pub pixels: Vec<T>,
    /// Per tile, the seed of its initial latents.
    pub init_seeds: Vec<u64>,
    /// Per tile, the seed of its low-resolution noise.
    pub noise_seeds: Vec<u64>,
    /// Noise level of the low-resolution conditioning.
    pub noise_level: i64,
    /// Sampler steps.
    pub steps: usize,
}

impl<T> TileBatch<T> {
    /// The buffers have the sizes that the counts say.
    pub open spec fn shaped(self) -> bool {
        &&& self.pixels@.len() == self.count * tile_in(self.th as int, self.tw as int)
        &&& self.init_seeds@.len() == self.count
        &&& self.noise_seeds@.len() == self.count
    }

    /// The samples that come back for the batch.
    pub open spec fn out_len(self) -> int {
        self.count * tile_out(self.th as int, self.tw as int)
    }
}

/// `planes` are the three colour planes of `rgba`, sample by sample.
pub open spec fn planes_of<T, S: Fn(u8) -> T>(
    g: TileGeometry,
    rgba: Seq<u8>,
    planes: Seq<T>,
    sample: S,
) -> bool {
    crate::pixels::planes_from(rgba, g.width * g.height, planes, sample)
}

/// The samples of the `k`-th tile, cut out of the picture's planes.
pub open spec fn tile_pixels<T>(g: TileGeometry, planes: Seq<T>, k: int) -> Seq<T> {
    crate::layout::cropped(
        planes,
        3,
        g.height,
        g.width,
        g.y0(k),
        g.y0(k) + g.th(),
        g.x0(k),
        g.x0(k) + g.tw(),
    )
}

/// Slot `s` of a batch holds tile `first + s`: its pixels, and the two seeds that
/// its number gives.
pub open spec fn batch_entry<T>(
    pixels: Seq<T>,
    init_seeds: Seq<u64>,
    noise_seeds: Seq<u64>,
    g: TileGeometry,
    planes: Seq<T>,
    seed: u64,
    first: int,
    s: int,
) -> bool {
    let per = tile_in(g.th(), g.tw());
    let index = (first + s) as u64;
    &&& pixels.subrange(s * per, (s + 1) * per) == tile_pixels(g, planes, first + s)
    &&& init_seeds[s] == crate::noise::tile_seed_value(seed, index, 0)
    &&& noise_seeds[s] == crate::noise::tile_seed_value(seed, index, LOW_RES_TWIST)
}

/// `b` holds tiles `first..first + n` of the run: their pixels, and the seeds that
/// their numbers give.
pub open spec fn is_batch<T>(
    b: TileBatch<T>,
    g: TileGeometry,
    planes: Seq<T>,
    options: UpscaleOptions,
    seed: u64,
    first: int,
    n: int,
) -> bool {
    &&& b.shaped()
    &&& b.first == first
    &&& b.count == n
    &&& b.th == g.th()
    &&& b.tw == g.tw()
    &&& b.noise_level == options.noise_level
    &&& b.steps == options.steps
    &&& forall|s: int|
        0 <= s < n ==> #[trigger] batch_entry(
            b.pixels@,
            b.init_seeds@,
            b.noise_seeds@,
            g,
            planes,
            seed,
            first,
            s,
        )
}

/// Stacks tiles `first..first + n`.
fn make_batch<T: Copy>(
    run: &Stitcher<T>,
    planes: &Vec<T>,
    options: &UpscaleOptions,
    seed: u64,
    first: usize,
    n: usize,
) -> (batch: TileBatch<T>)
    requires
        run.wf(),
        planes@.len() == 3 * (run.geo().width * run.geo().height),
        first + n <= run.geo().count(),
    ensures
        is_batch(batch, run.geo(), planes@, *options, seed, first as int, n as int),
{
    let ghost g = run.geo();
    let (th, tw) = run.tile_size();
    let ghost per = tile_in(th as int, tw as int);
    let mut pixels: Vec<T> = Vec::new();
    let mut init_seeds: Vec<u64> = Vec::new();
    let mut noise_seeds: Vec<u64> = Vec::new();
    let mut s: usize = 0;
    assert(0 * per == 0);
    let tiles: usize = run.tile_count();
    while s < n
        invariant
            s <= n,
            run.wf(),
            g == run.geo(),
            th == g.th(),
            tw == g.tw(),
            per == tile_in(th as int, tw as int),
            planes@.len() == 3 * (g.width * g.height),
            first + n <= g.count() == tiles,
            pixels@.len() == s * per,
            init_seeds@.len() == s,
            noise_seeds@.len() == s,
            forall|k: int|
                0 <= k < s ==> #[trigger] batch_entry(
                    pixels@,
                    init_seeds@,
                    noise_seeds@,
                    g,
                    planes@,
                    seed,
                    first as int,
                    k,
                ),
        decreases n - s,
    {
        let mut crop: Vec<T> = run.cut(planes, first + s);
        let ghost before = pixels@;
        let ghost (inits, noises) = (init_seeds@, noise_seeds@);
        let ghost cut = crop@;
        pixels.append(&mut crop);
        let index: u64 = (first + s) as u64;
        init_seeds.push(tile_seed(seed, index, 0));
        noise_seeds.push(tile_seed(seed, index, LOW_RES_TWIST));
        proof {
            assert((s + 1) * per == s * per + per) by (nonlinear_arith);
            assert forall|k: int| 0 <= k <= s implies #[trigger] batch_entry(
                pixels@,
                init_seeds@,
                noise_seeds@,
                g,
                planes@,
                seed,
                first as int,
                k,
            ) by {
                if k < s {
                    assert(0 <= k * per <= (k + 1) * per <= s * per) by (nonlinear_arith)
                        requires
                            0 <= k < s,
                            per >= 0,
                    ;
                    assert(batch_entry(before, inits, noises, g, planes@, seed, first as int, k));
                    assert(pixels@.subrange(k * per, (k + 1) * per) =~= before.subrange(
                        k * per,
                        (k + 1) * per,
                    ));
                } else {
                    assert(pixels@.subrange(k * per, (k + 1) * per) =~= cut);
                }
            }
        }
        s = s + 1;
    }
    TileBatch {
        first,
        count: n,
        th,
        tw,
        pixels,
        init_seeds,
        noise_seeds,
        noise_level: options.noise_level,
        steps: options.steps,
    }
}

/// Why a tiled run failed.
#[derive(Debug)]
pub enum TileError<E> {
    /// The buffer's length is not four bytes per pixel.
    Length,
    /// The model failed on a batch.
    Model(E),
}

/// Whether a buffer holds four bytes for each of `width` times `height` pixels.
pub fn is_rgba_len(len: usize, width: usize, height: usize) -> (fits: bool)
    ensures
        fits == (len == 4 * (width * height)),
{
    match width.checked_mul(height) {
        Some(pixels) => len % 4 == 0 && len / 4 == pixels,
        None => false,
    }
}

/// The message for a buffer of the wrong length.
pub open spec fn length_text(len: int, width: int, height: int) -> Seq<char> {
    "rgba len "@ + crate::text::decimal_digits(len as nat) + " != "@ + crate::text::decimal_digits(
        width as nat,
    ) + "x"@ + crate::text::decimal_digits(height as nat) + "x4"@
}

/// Words the message for a buffer of the wrong length.
pub fn length_message(len: usize, width: usize, height: usize) -> (text: String)
    ensures
        text@ == length_text(len as int, width as int, height as int),
{
    let (n, w, h) = (decimal(len as u64), decimal(width as u64), decimal(height as u64));
    let mut text: String = joined("rgba len ", n.as_str());
    text.append(" != ");
    text.append(w.as_str());
    text.append("x");
    text.append(h.as_str());
    text.append("x4");
    text
}

/// What one tiled run did: the picture's planes, the batches that were made of
/// them, what the model gave back for each, the upscaled tiles cut out of that, and
/// the sums before the first and after each tile. The progress state `H` is noted
/// before the first tile and after each (`bars`), and as each batch left it
/// (`woken`).
pub struct Trace<T, H> {
    pub planes: Seq<T>,
    pub batches: Seq<TileBatch<T>>,
    pub outs: Seq<Seq<T>>,
    pub tiles: Seq<Seq<T>>,
    pub sums: Seq<Seq<T>>,
    pub bars: Seq<H>,
    pub woken: Seq<H>,
}

/// The number that progress is told against: the tiles, or one where there are
/// none.
pub open spec fn total_of(g: TileGeometry) -> usize {
    crate::tiling::max2(g.count(), 1) as usize
}

/// The model was handed batch `b` of the run, with the progress state `bar`, and
/// gave `out` for it.
pub open spec fn batch_run<T, E, H, D: Fn(TileBatch<T>, H) -> (Result<Vec<T>, E>, H)>(
    batch: TileBatch<T>,
    out: Seq<T>,
    bar: H,
    woken: H,
    g: TileGeometry,
    planes: Seq<T>,
    options: UpscaleOptions,
    seed: u64,
    denoise: D,
    b: int,
) -> bool {
    let size = batch_size(options);
    &&& is_batch(
        batch,
        g,
        planes,
        options,
        seed,
        b * size,
        crate::tiling::min2(size, g.count() - b * size),
    )
    &&& exists|v: Vec<T>|
        v@ == out && #[trigger] call_ensures(
            denoise,
            (batch, bar),
            (Ok::<Vec<T>, E>(v), woken),
        )
}

/// Tiles per model forward; at least one.
pub open spec fn batch_size(options: UpscaleOptions) -> int {
    if options.batch >= 1 { options.batch as int } else { 1 }
}

/// The `k`-th tile was cut from its batch's output, added to the sum, and then told:
/// the first of a batch to the progress state that the model left, each other to
/// that which the tile before it left.
pub open spec fn tile_run<T, H, A: Fn(T, T) -> T, P: Fn(H, usize, usize) -> H>(
    trace: Trace<T, H>,
    g: TileGeometry,
    size: int,
    sum: A,
    on_progress: P,
    k: int,
) -> bool {
    let per = tile_out(g.th(), g.tw());
    &&& trace.tiles[k] == trace.outs[k / size].subrange(
        (k % size) * per,
        (k % size + 1) * per,
    )
    &&& tile_placed(g, k, trace.sums[k], trace.sums[k + 1], trace.tiles[k], sum)
    &&& call_ensures(
        on_progress,
        (bar_before(trace, size, k), (k + 1) as usize, total_of(g)),
        trace.bars[k + 1],
    )
}

/// The progress state that the `k`-th tile is told to.
pub open spec fn bar_before<T, H>(trace: Trace<T, H>, size: int, k: int) -> H {
    if k % size == 0 { trace.woken[k / size] } else { trace.bars[k] }
}

/// The first `n` tiles of a run went through the model and into the sums as
/// `trace` says, in batches of [`batch_size`], and were told.
pub open spec fn ran<
    T,
    E,
    H,
    S: Fn(u8) -> T,
    D: Fn(TileBatch<T>, H) -> (Result<Vec<T>, E>, H),
    A: Fn(T, T) -> T,
    P: Fn(H, usize, usize) -> H,
>(
    trace: Trace<T, H>,
    g: TileGeometry,
    n: int,
    rgba: Seq<u8>,
    options: UpscaleOptions,
    seed: u64,
    zero: T,
    bar: H,
    sample: S,
    denoise: D,
    sum: A,
    on_progress: P,
) -> bool {
    let size = batch_size(options);
    &&& planes_of(g, rgba, trace.planes, sample)
    &&& trace.batches.len() == crate::tiling::step_count(n, size)
    &&& trace.outs.len() == trace.batches.len()
    &&& trace.woken.len() == trace.batches.len()
    &&& forall|b: int|
        0 <= b < trace.batches.len() ==> #[trigger] batch_run::<T, E, H, D>(
            trace.batches[b],
            trace.outs[b],
            trace.bars[b * size],
            trace.woken[b],
            g,
            trace.planes,
            options,
            seed,
            denoise,
            b,
        )
    &&& trace.tiles.len() == n
    &&& trace.sums.len() == n + 1
    &&& trace.bars.len() == n + 1
    &&& trace.sums[0] == Seq::new(out_samples(g) as nat, |i: int| zero)
    &&& trace.bars[0] == bar
    &&& forall|k: int| 0 <= k < n ==> #[trigger] tile_run(trace, g, size, sum, on_progress, k)
}

/// The model failed with `e` on the batch after those of `trace`, all of which went
/// through, and left the progress state `end`.
pub open spec fn failed_on<
    T,
    E,
    H,
    S: Fn(u8) -> T,
    D: Fn(TileBatch<T>, H) -> (Result<Vec<T>, E>, H),
    A: Fn(T, T) -> T,
    P: Fn(H, usize, usize) -> H,
>(
    e: E,
    end: H,
    g: TileGeometry,
    rgba: Seq<u8>,
    options: UpscaleOptions,
    seed: u64,
    zero: T,
    bar: H,
    sample: S,
    denoise: D,
    sum: A,
    on_progress: P,
    trace: Trace<T, H>,
    batch: TileBatch<T>,
) -> bool {
    let size = batch_size(options);
    let b = trace.batches.len() as int;
    &&& b * size < g.count()
    &&& ran::<T, E, H, S, D, A, P>(
        trace,
        g,
        b * size,
        rgba,
        options,
        seed,
        zero,
        bar,
        sample,
        denoise,
        sum,
        on_progress,
    )
    &&& is_batch(
        batch,
        g,
        trace.planes,
        options,
        seed,
        b * size,
        crate::tiling::min2(size, g.count() - b * size),
    )
    &&& call_ensures(denoise, (batch, trace.bars.last()), (Err::<Vec<T>, E>(e), end))
}

/// The model failed with `e` on some batch of the run, after those before it went
/// through.
pub open spec fn model_failed<
    T,
    E,
    H,
    S: Fn(u8) -> T,
    D: Fn(TileBatch<T>, H) -> (Result<Vec<T>, E>, H),
    A: Fn(T, T) -> T,
    P: Fn(H, usize, usize) -> H,
>(
    e: E,
    end: H,
    g: TileGeometry,
    rgba: Seq<u8>,
    options: UpscaleOptions,
    seed: u64,
    zero: T,
    bar: H,
    sample: S,
    denoise: D,
    sum: A,
    on_progress: P,
) -> bool {
    exists|trace: Trace<T, H>, batch: TileBatch<T>| #[trigger]
        failed_on::<T, E, H, S, D, A, P>(
            e,
            end,
            g,
            rgba,
            options,
            seed,
            zero,
            bar,
            sample,
            denoise,
            sum,
            on_progress,
            trace,
            batch,
        )
}

/// A tile that went through stays as it was when the trace grows at its ends.
proof fn lemma_tile_run_grows<T, H, A: Fn(T, T) -> T, P: Fn(H, usize, usize) -> H>(
    t0: Trace<T, H>,
    t1: Trace<T, H>,
    g: TileGeometry,
    size: int,
    sum: A,
    on_progress: P,
    k: int,
)
    requires
        tile_run(t0, g, size, sum, on_progress, k),
        0 <= k < t0.tiles.len(),
        t0.sums.len() == t0.tiles.len() + 1,
        t0.bars.len() == t0.tiles.len() + 1,
        0 <= k / size < t0.outs.len(),
        t0.woken.len() == t0.outs.len(),
        forall|i: int| 0 <= i < t0.outs.len() ==> #[trigger] t1.outs[i] == t0.outs[i],
        forall|i: int| 0 <= i < t0.woken.len() ==> #[trigger] t1.woken[i] == t0.woken[i],
        forall|i: int| 0 <= i < t0.tiles.len() ==> #[trigger] t1.tiles[i] == t0.tiles[i],
        forall|i: int| 0 <= i < t0.sums.len() ==> #[trigger] t1.sums[i] == t0.sums[i],
        forall|i: int| 0 <= i < t0.bars.len() ==> #[trigger] t1.bars[i] == t0.bars[i],
    ensures
        tile_run(t1, g, size, sum, on_progress, k),
{
}

/// Tile `b * size + s` is in batch `b`, at slot `s`.
proof fn lemma_slot(b: int, s: int, size: int)
    requires
        0 <= s < size,
    ensures
        (b * size + s) / size == b,
        (b * size + s) % size == s,
{
    crate::pixels::lemma_pixel(s, b, size);
}

/// A tile before batch `b` is in an earlier batch.
proof fn lemma_earlier_batch(k: int, b: int, size: int)
    requires
        0 <= k < b * size,
        size >= 1,
    ensures
        0 <= k / size < b,
{
    vstd::arithmetic::div_mod::lemma_fundamental_div_mod(k, size);
    vstd::arithmetic::div_mod::lemma_mod_bound(k, size);
    let q = k / size;
    assert(0 <= q < b) by (nonlinear_arith)
        requires
            k == size * q + k % size,
            0 <= k % size < size,
            0 <= k < b * size,
    ;
}

/// A batch begins no later than the tiles placed so far end.
proof fn lemma_batch_start(i: int, b: int, size: int)
    requires
        0 <= i <= b,
        size >= 1,
    ensures
        0 <= i * size <= b * size,
{
    assert(0 <= i * size <= b * size) by (nonlinear_arith)
        requires
            0 <= i <= b,
            size >= 1,
    ;
}

/// The tiles that the options give on an image.
pub open spec fn plan_of(width: usize, height: usize, options: UpscaleOptions) -> TileGeometry {
    crate::tiling::geometry(
        width as int,
        height as int,
        options.tile as int,
        options.overlap as int,
    )
}

/// `image` is what a tiled run made of the picture, and `end` the progress state that
/// it left.
pub open spec fn tiled_result<
    T,
    E,
    H,
    S: Fn(u8) -> T,
    D: Fn(TileBatch<T>, H) -> (Result<Vec<T>, E>, H),
    A: Fn(T, T) -> T,
    Q: Fn(T, usize) -> u8,
    P: Fn(H, usize, usize) -> H,
>(
    image: Seq<u8>,
    end: H,
    g: TileGeometry,
    rgba: Seq<u8>,
    options: UpscaleOptions,
    seed: u64,
    zero: T,
    bar: H,
    sample: S,
    denoise: D,
    sum: A,
    quantize: Q,
    on_progress: P,
) -> bool {
    exists|trace: Trace<T, H>| #[trigger]
        ran::<T, E, H, S, D, A, P>(
            trace,
            g,
            g.count(),
            rgba,
            options,
            seed,
            zero,
            bar,
            sample,
            denoise,
            sum,
            on_progress,
        ) && picture(g, trace.sums.last(), image, quantize) && end == trace.bars.last()
}

/// Upscales an RGBA picture four times, tile by tile.
///
/// Each batch of tiles is handed to `denoise`, which gives back their upscaled
/// samples; these are summed into the output with `sum`, and `quantize` turns a sum
/// and the number of tiles behind it into a byte. `sample` turns a byte of the
/// picture into a sample. `on_progress` is told after each tile how many of them
/// are done. The progress state `bar` goes through every call of the two, in the
/// order in which they are made, and is given back at the end.
pub fn upscale_tiled<
    T: Copy,
    E,
    H,
    S: Fn(u8) -> T,
    D: Fn(TileBatch<T>, H) -> (Result<Vec<T>, E>, H),
    A: Fn(T, T) -> T,
    Q: Fn(T, usize) -> u8,
    P: Fn(H, usize, usize) -> H,
>(
    rgba: &[u8],
    width: usize,
    height: usize,
    options: &UpscaleOptions,
    seed: u64,
    zero: T,
    bar: H,
    sample: &S,
    denoise: &D,
    sum: &A,
    quantize: &Q,
    on_progress: &P,
) -> (outcome: (Result<(Vec<u8>, usize, usize), TileError<E>>, H))
    requires
        rgba@.len() == 4 * (width * height) ==> 64 * (width * height) <= usize::MAX && 4 * width
            <= usize::MAX && 4 * height <= usize::MAX,
        forall|b: u8| call_requires(*sample, (b,)),
        forall|a: T, b: T| call_requires(*sum, (a, b)),
        forall|v: T, n: usize| n >= 1 ==> call_requires(*quantize, (v, n)),
        forall|tb: TileBatch<T>, h: H| tb.shaped() ==> #[trigger] call_requires(*denoise, (tb, h)),
        forall|tb: TileBatch<T>, h0: H, v: Vec<T>, h1: H|
            tb.shaped() && #[trigger] call_ensures(
                *denoise,
                (tb, h0),
                (Ok::<Vec<T>, E>(v), h1),
            ) ==> v@.len() == tb.out_len(),
        forall|h: H, done: usize, total: usize|
            1 <= done <= total ==> #[trigger] call_requires(*on_progress, (h, done, total)),
    ensures
        (outcome.0 matches Err(TileError::Length)) <==> rgba@.len() != 4 * (width * height),
        (outcome.0 matches Err(TileError::Length)) ==> outcome.1 == bar,
        outcome.0 matches Ok(image) ==> image.1 == 4 * width && image.2 == 4 * height
            && tiled_result::<T, E, H, S, D, A, Q, P>(
            image.0@,
            outcome.1,
            plan_of(width, height, *options),
            rgba@,
            *options,
            seed,
            zero,
            bar,
            *sample,
            *denoise,
            *sum,
            *quantize,
            *on_progress,
        ),
        outcome.0 matches Err(TileError::Model(e)) ==> model_failed::<T, E, H, S, D, A, P>(
            e,
            outcome.1,
            plan_of(width, height, *options),
            rgba@,
            *options,
            seed,
            zero,
            bar,
            *sample,
            *denoise,
            *sum,
            *on_progress,
        ),
{
    if !is_rgba_len(rgba.len(), width, height) {
        return (Err(TileError::Length), bar);
    }
    let planes: Vec<T> = rgba_to_planes(rgba, width, height, sample);
    let mut run: Stitcher<T> = Stitcher::new(width, height, options.tile, options.overlap, zero);
    let ghost g = run.geo();
    let size: usize = if options.batch >= 1 { options.batch } else { 1 };
    let count: usize = run.tile_count();
    let total: usize = if count > 1 { count } else { 1 };
    let (th, tw) = run.tile_size();
    let ghost per_g = tile_out(th as int, tw as int);
    let ghost bar_0 = bar;
    let mut now: H = bar;
    let ghost mut trace = Trace::<T, H> {
        planes: planes@,
        batches: Seq::empty(),
        outs: Seq::empty(),
        tiles: Seq::empty(),
        sums: seq![run.samples()],
        bars: seq![bar_0],
        woken: Seq::empty(),
    };
    let ghost mut b: int = 0;
    let mut first: usize = 0;
    proof {
        assert(0 * size == 0);
        run.lemma_limits();
    }
    while first < count
        invariant
            first <= count == g.count(),
            total == total_of(g),
            total >= count,
            size == batch_size(*options),
            g == plan_of(width, height, *options),
            th == g.th(),
            tw == g.tw(),
            per_g == tile_out(th as int, tw as int),
            run.wf(),
            run.geo() == g,
            run.placed() == first,
            rgba@.len() == 4 * (width * height),
            planes@.len() == 3 * (g.width * g.height),
            planes_of(g, rgba@, planes@, *sample),
            forall|x: T, y: T| call_requires(*sum, (x, y)),
            forall|tb: TileBatch<T>, h: H|
                tb.shaped() ==> #[trigger] call_requires(*denoise, (tb, h)),
            forall|tb: TileBatch<T>, h0: H, v: Vec<T>, h1: H|
                tb.shaped() && #[trigger] call_ensures(
                    *denoise,
                    (tb, h0),
                    (Ok::<Vec<T>, E>(v), h1),
                ) ==> v@.len() == tb.out_len(),
            forall|h: H, done: usize, total: usize|
                1 <= done <= total ==> #[trigger] call_requires(*on_progress, (h, done, total)),
            b >= 0,
            first == crate::tiling::min2(b * size, count as int),
            b > 0 ==> (b - 1) * size < count,
            trace.planes == planes@,
            trace.batches.len() == b,
            trace.outs.len() == b,
            trace.woken.len() == b,
            trace.tiles.len() == first,
            trace.sums.len() == first + 1,
            trace.bars.len() == first + 1,
            trace.sums[0] == Seq::new(out_samples(g) as nat, |i: int| zero),
            trace.sums.last() == run.samples(),
            trace.bars[0] == bar_0,
            trace.bars.last() == now,
            bar_0 == bar,
            forall|i: int|
                0 <= i < b ==> #[trigger] batch_run::<T, E, H, D>(
                    trace.batches[i],
                    trace.outs[i],
                    trace.bars[i * size],
                    trace.woken[i],
                    g,
                    planes@,
                    *options,
                    seed,
                    *denoise,
                    i,
                ),
            forall|k: int|
                0 <= k < first ==> #[trigger] tile_run(
                    trace,
                    g,
                    size as int,
                    *sum,
                    *on_progress,
                    k,
                ),
        decreases count - first,
    {
        let n: usize = if size < count - first { size } else { count - first };
        proof {
            assert(first == b * size);
        }
        let batch: TileBatch<T> = make_batch(&run, &planes, options, seed, first, n);
        let ghost sent = batch;
        let ghost asked = now;
        let (reply, woken): (Result<Vec<T>, E>, H) = denoise(batch, now);
        let vals: Vec<T> = match reply {
            Ok(vals) => vals,
            Err(e) => {
                proof {
                    crate::tiling::lemma_step_count(first as int, size as int, b);
                    if b > 0 {
                        assert((b - 1) * size < b * size) by (nonlinear_arith)
                            requires
                                size >= 1,
                        ;
                        crate::tiling::lemma_step_count(first as int, size as int, b - 1);
                    }
                    assert(ran::<T, E, H, S, D, A, P>(
                        trace,
                        g,
                        b * size,
                        rgba@,
                        *options,
                        seed,
                        zero,
                        bar_0,
                        *sample,
                        *denoise,
                        *sum,
                        *on_progress,
                    ));
                    assert(failed_on::<T, E, H, S, D, A, P>(
                        e,
                        woken,
                        g,
                        rgba@,
                        *options,
                        seed,
                        zero,
                        bar_0,
                        *sample,
                        *denoise,
                        *sum,
                        *on_progress,
                        trace,
                        sent,
                    ));
                    assert(model_failed::<T, E, H, S, D, A, P>(
                        e,
                        woken,
                        g,
                        rgba@,
                        *options,
                        seed,
                        zero,
                        bar_0,
                        *sample,
                        *denoise,
                        *sum,
                        *on_progress,
                    ));
                }
                return (Err(TileError::Model(e)), woken);
            },
        };
        let ghost left = woken;
        now = woken;
        let per: usize = vals.len() / n;
        let ghost before = trace;
        proof {
            assert(vals@.len() == n * per_g);
            assert(per == per_g) by {
                assert(n * per_g == per_g * n) by (nonlinear_arith);
                vstd::arithmetic::div_mod::lemma_div_multiples_vanish(per_g, n as int);
            }
            trace = Trace::<T, H> {
                batches: trace.batches.push(sent),
                outs: trace.outs.push(vals@),
                woken: trace.woken.push(left),
                ..trace
            };
            assert(batch_run::<T, E, H, D>(
                sent,
                vals@,
                asked,
                left,
                g,
                planes@,
                *options,
                seed,
                *denoise,
                b,
            ));
            assert forall|i: int| 0 <= i < b + 1 implies #[trigger] batch_run::<T, E, H, D>(
                trace.batches[i],
                trace.outs[i],
                trace.bars[i * size],
                trace.woken[i],
                g,
                planes@,
                *options,
                seed,
                *denoise,
                i,
            ) by {
                if i < b {
                    assert(batch_run::<T, E, H, D>(
                        before.batches[i],
                        before.outs[i],
                        before.bars[i * size],
                        before.woken[i],
                        g,
                        planes@,
                        *options,
                        seed,
                        *denoise,
                        i,
                    ));
                }
            }
            assert forall|k: int| 0 <= k < first implies #[trigger] tile_run(
                trace,
                g,
                size as int,
                *sum,
                *on_progress,
                k,
            ) by {
                lemma_earlier_batch(k, b, size as int);
                assert(tile_run(before, g, size as int, *sum, *on_progress, k));
                lemma_tile_run_grows(before, trace, g, size as int, *sum, *on_progress, k);
            }
            assert(0 * per == 0);
        }
        let mut s: usize = 0;
        while s < n
            invariant
                s <= n <= size,
                first + n <= count == g.count(),
                first == b * size,
                b >= 0,
                th == g.th(),
                tw == g.tw(),
                per == tile_out(g.th(), g.tw()),
                run.wf(),
                run.geo() == g,
                run.placed() == first + s,
                vals@.len() == n * per,
                forall|x: T, y: T| call_requires(*sum, (x, y)),
                forall|h: H, done: usize, total: usize|
                    1 <= done <= total ==> #[trigger] call_requires(
                        *on_progress,
                        (h, done, total),
                    ),
                total == total_of(g),
                total >= count,
                trace.planes == planes@,
                trace.batches.len() == b + 1,
                trace.outs.len() == b + 1,
                trace.woken.len() == b + 1,
                trace.outs[b] == vals@,
                trace.tiles.len() == first + s,
                trace.sums.len() == first + s + 1,
                trace.bars.len() == first + s + 1,
                trace.sums[0] == Seq::new(out_samples(g) as nat, |i: int| zero),
                trace.sums.last() == run.samples(),
                trace.bars[0] == bar_0,
                bar_0 == bar,
                now == if s == 0 {
                    trace.woken[b]
                } else {
                    trace.bars.last()
                },
                forall|i: int|
                    0 <= i < b + 1 ==> #[trigger] batch_run::<T, E, H, D>(
                        trace.batches[i],
                        trace.outs[i],
                        trace.bars[i * size],
                        trace.woken[i],
                        g,
                        planes@,
                        *options,
                        seed,
                        *denoise,
                        i,
                    ),
                forall|k: int|
                    0 <= k < first + s ==> #[trigger] tile_run(
                        trace,
                        g,
                        size as int,
                        *sum,
                        *on_progress,
                        k,
                    ),
            decreases n - s,
        {
            proof {
                assert(vals@.len() == vals.len());
                assert(0 <= s * per <= (s + 1) * per <= n * per) by (nonlinear_arith)
                    requires
                        0 <= s < n,
                        per >= 0,
                ;
                assert((s + 1) * per == s * per + per) by (nonlinear_arith);
            }
            let tile: &[T] = vstd::slice::slice_subrange(
                vals.as_slice(),
                s * per,
                (s + 1) * per,
            );
            run.place(tile, sum);
            now = on_progress(now, first + s + 1, total);
            let ghost earlier = trace;
            proof {
                let k = first + s;
                trace = Trace::<T, H> {
                    tiles: trace.tiles.push(tile@),
                    sums: trace.sums.push(run.samples()),
                    bars: trace.bars.push(now),
                    ..trace
                };
                lemma_slot(b, s as int, size as int);
                assert(tile_run(trace, g, size as int, *sum, *on_progress, k));
                assert forall|j: int| 0 <= j < first + s + 1 implies #[trigger] tile_run(
                    trace,
                    g,
                    size as int,
                    *sum,
                    *on_progress,
                    j,
                ) by {
                    if j < k {
                        assert(j < (b + 1) * size) by (nonlinear_arith)
                            requires
                                j < b * size + s,
                                s < size,
                        ;
                        lemma_earlier_batch(j, b + 1, size as int);
                        assert(tile_run(earlier, g, size as int, *sum, *on_progress, j));
                        lemma_tile_run_grows(
                            earlier,
                            trace,
                            g,
                            size as int,
                            *sum,
                            *on_progress,
                            j,
                        );
                    }
                }
                assert forall|i: int| 0 <= i < b + 1 implies #[trigger] batch_run::<T, E, H, D>(
                    trace.batches[i],
                    trace.outs[i],
                    trace.bars[i * size],
                    trace.woken[i],
                    g,
                    planes@,
                    *options,
                    seed,
                    *denoise,
                    i,
                ) by {
                    lemma_batch_start(i, b, size as int);
                    assert(batch_run::<T, E, H, D>(
                        earlier.batches[i],
                        earlier.outs[i],
                        earlier.bars[i * size],
                        earlier.woken[i],
                        g,
                        planes@,
                        *options,
                        seed,
                        *denoise,
                        i,
                    ));
                }
            }
            s = s + 1;
        }
        first = first + n;
        proof {
            assert((b + 1) * size == b * size + size) by (nonlinear_arith);
            b = b + 1;
        }
    }
    proof {
        crate::tiling::lemma_step_count(count as int, size as int, b);
        if b > 0 {
            crate::tiling::lemma_step_count(count as int, size as int, b - 1);
        }
        assert(ran::<T, E, H, S, D, A, P>(
            trace,
            g,
            g.count(),
            rgba@,
            *options,
            seed,
            zero,
            bar_0,
            *sample,
            *denoise,
            *sum,
            *on_progress,
        ));
    }
    let image: (Vec<u8>, usize, usize) = run.finish(quantize);
    proof {
        assert(tiled_result::<T, E, H, S, D, A, Q, P>(
            image.0@,
            now,
            g,
            rgba@,
            *options,
            seed,
            zero,
            bar_0,
            *sample,
            *denoise,
            *sum,
            *quantize,
            *on_progress,
        ));
    }
    (Ok(image), now)
}

/// Output sample `i` after the first `n` tiles, when samples are added with `plus`:
/// the samples of the tiles that hold its pixel, added in tile order.
pub open spec fn blended_sample<T>(
    g: TileGeometry,
    tiles: Seq<Seq<T>>,
    i: int,
    n: nat,
    zero: T,
    plus: spec_fn(T, T) -> T,
) -> T
    decreases n,
{
    if n == 0 {
        zero
    } else {
        let before = blended_sample(g, tiles, i, (n - 1) as nat, zero, plus);
        let (x, y) = ((i / 3) % (4 * g.width), (i / 3) / (4 * g.width));
        if g.holds(n - 1, x / 4, y / 4) {
            plus(
                before,
                tiles[n - 1][crate::pixels::planar_index(
                    i % 3,
                    x - 4 * g.x0(n - 1),
                    y - 4 * g.y0(n - 1),
                    4 * g.tw(),
                    4 * g.th(),
                )],
            )
        } else {
            before
        }
    }
}

/// Sums that come of placing tile after tile are the blends on the way.
proof fn lemma_sums_blend<T, A: Fn(T, T) -> T>(
    g: TileGeometry,
    sums: Seq<Seq<T>>,
    tiles: Seq<Seq<T>>,
    sum: A,
    zero: T,
    plus: spec_fn(T, T) -> T,
    i: int,
    n: nat,
)
    requires
        forall|a: T, b: T, r: T| #[trigger] call_ensures(sum, (a, b), r) ==> r == plus(a, b),
        sums[0] == Seq::new(out_samples(g) as nat, |i: int| zero),
        forall|k: int|
            0 <= k < n ==> #[trigger] tile_placed(g, k, sums[k], sums[k + 1], tiles[k], sum),
        0 <= i < out_samples(g),
    ensures
        sums[n as int].len() == out_samples(g),
        sums[n as int][i] == blended_sample(g, tiles, i, n, zero, plus),
    decreases n,
{
    if n > 0 {
        let k = n - 1;
        lemma_sums_blend(g, sums, tiles, sum, zero, plus, i, k as nat);
        assert(tile_placed(g, k, sums[k], sums[k + 1], tiles[k], sum));
        let after = sums[n as int][i];
    }
}

/// The runs on the way, from one that was begun, when the upscaled `tiles` are placed
/// one after the other.
pub open spec fn walked<T: Copy, A: Fn(T, T) -> T>(
    runs: Seq<Stitcher<T>>,
    tiles: Seq<Seq<T>>,
    zero: T,
    sum: A,
) -> bool {
    &&& runs.len() == tiles.len() + 1
    &&& runs[0].begun(zero)
    &&& forall|k: int| 0 <= k < tiles.len() ==> #[trigger] walks(runs, tiles, sum, k)
}

/// The `k`-th of the tiles was placed.
pub open spec fn walks<T: Copy, A: Fn(T, T) -> T>(
    runs: Seq<Stitcher<T>>,
    tiles: Seq<Seq<T>>,
    sum: A,
    k: int,
) -> bool {
    runs[k].places(runs[k + 1], tiles[k], sum)
}

/// Placing the tiles of a run one after the other keeps its geometry and counts them.
proof fn lemma_walk_counts<T: Copy, A: Fn(T, T) -> T>(
    runs: Seq<Stitcher<T>>,
    tiles: Seq<Seq<T>>,
    zero: T,
    sum: A,
    k: nat,
)
    requires
        walked(runs, tiles, zero, sum),
        k <= tiles.len(),
    ensures
        runs[k as int].geo() == runs[0].geo(),
        runs[k as int].placed() == k,
    decreases k,
{
    if k > 0 {
        lemma_walk_counts(runs, tiles, zero, sum, (k - 1) as nat);
        assert(walks(runs, tiles, sum, k - 1));
    }
}

/// A run that is given all its tiles in order holds, at each sample, the sum of the
/// tiles that hold its pixel, in tile order, and of no others, where adding is a
/// function of its arguments. It is then complete.
pub proof fn law_walk_is_the_sum_of_its_tiles<T: Copy, A: Fn(T, T) -> T>(
    runs: Seq<Stitcher<T>>,
    tiles: Seq<Seq<T>>,
    zero: T,
    sum: A,
    plus: spec_fn(T, T) -> T,
    i: int,
)
    requires
        runs.len() > 0,
        tiles.len() == runs[0].geo().count(),
        walked(runs, tiles, zero, sum),
        forall|a: T, b: T, r: T| #[trigger] call_ensures(sum, (a, b), r) ==> r == plus(a, b),
        0 <= i < out_samples(runs[0].geo()),
    ensures
        runs.last().geo() == runs[0].geo(),
        runs.last().placed() == runs[0].geo().count(),
        runs.last().samples()[i] == blended_sample(
            runs[0].geo(),
            tiles,
            i,
            tiles.len(),
            zero,
            plus,
        ),
{
    let g = runs[0].geo();
    let sums = Seq::new(runs.len(), |k: int| runs[k].samples());
    lemma_walk_counts(runs, tiles, zero, sum, tiles.len());
    assert forall|k: int| 0 <= k < tiles.len() implies #[trigger] tile_placed(
        g,
        k,
        sums[k],
        sums[k + 1],
        tiles[k],
        sum,
    ) by {
        assert(walks(runs, tiles, sum, k));
        lemma_walk_counts(runs, tiles, zero, sum, k as nat);
    }
    lemma_sums_blend(g, sums, tiles, sum, zero, plus, i, tiles.len());
}

/// The blend has no hidden order: where adding is a function of its arguments, every
/// sum is that of the tiles holding its pixel, in tile order, and of no others.
pub proof fn law_blend_is_the_sum_of_its_tiles<
    T,
    E,
    H,
    S: Fn(u8) -> T,
    D: Fn(TileBatch<T>, H) -> (Result<Vec<T>, E>, H),
    A: Fn(T, T) -> T,
    P: Fn(H, usize, usize) -> H,
>(
    trace: Trace<T, H>,
    g: TileGeometry,
    rgba: Seq<u8>,
    options: UpscaleOptions,
    seed: u64,
    zero: T,
    bar: H,
    sample: S,
    denoise: D,
    sum: A,
    on_progress: P,
    plus: spec_fn(T, T) -> T,
    i: int,
)
    requires
        ran::<T, E, H, S, D, A, P>(
            trace,
            g,
            g.count(),
            rgba,
            options,
            seed,
            zero,
            bar,
            sample,
            denoise,
            sum,
            on_progress,
        ),
        forall|a: T, b: T, r: T| #[trigger] call_ensures(sum, (a, b), r) ==> r == plus(a, b),
        0 <= i < out_samples(g),
    ensures
        trace.sums.last()[i] == blended_sample(
            g,
            trace.tiles,
            i,
            g.count() as nat,
            zero,
            plus,
        ),
{
    assert forall|k: int| 0 <= k < g.count() implies #[trigger] tile_placed(
        g,
        k,
        trace.sums[k],
        trace.sums[k + 1],
        trace.tiles[k],
        sum,
    ) by {
        assert(tile_run(trace, g, batch_size(options), sum, on_progress, k));
    }
    lemma_sums_blend(g, trace.sums, trace.tiles, sum, zero, plus, i, g.count() as nat);
}

/// A tile is fed the same pixels and the same noise however the run is batched:
/// its slot in one batching agrees with its slot in any other.
pub proof fn law_batching_is_invisible<T>(
    x: TileBatch<T>,
    y: TileBatch<T>,
    g: TileGeometry,
    planes: Seq<T>,
    x_options: UpscaleOptions,
    y_options: UpscaleOptions,
    seed: u64,
    x_first: int,
    x_n: int,
    y_first: int,
    y_n: int,
    k: int,
)
    requires
        is_batch(x, g, planes, x_options, seed, x_first, x_n),
        is_batch(y, g, planes, y_options, seed, y_first, y_n),
        x_first <= k < x_first + x_n,
        y_first <= k < y_first + y_n,
    ensures
        ({
            let per = tile_in(g.th(), g.tw());
            let (i, j) = (k - x_first, k - y_first);
            &&& x.init_seeds@[i] == y.init_seeds@[j]
            &&& x.noise_seeds@[i] == y.noise_seeds@[j]
            &&& x.pixels@.subrange(i * per, (i + 1) * per) == y.pixels@.subrange(
                j * per,
                (j + 1) * per,
            )
        }),
{
    let (i, j) = (k - x_first, k - y_first);
    assert(batch_entry(
        x.pixels@,
        x.init_seeds@,
        x.noise_seeds@,
        g,
        planes,
        seed,
        x_first,
        i,
    ));
    assert(batch_entry(
        y.pixels@,
        y.init_seeds@,
        y.noise_seeds@,
        g,
        planes,
        seed,
        y_first,
        j,
    ));
}

/// What a model that works slot by slot makes of one tile: a function of the tile's
/// pixels, its two seeds, its height and width, the noise level and the steps.
pub open spec fn slot_is<T>(
    tb: TileBatch<T>,
    out: Seq<T>,
    slot: spec_fn(Seq<T>, u64, u64, usize, usize, i64, usize) -> Seq<T>,
    s: int,
) -> bool {
    let (i, o) = (tile_in(tb.th as int, tb.tw as int), tile_out(tb.th as int, tb.tw as int));
    out.subrange(s * o, (s + 1) * o) == slot(
        tb.pixels@.subrange(s * i, (s + 1) * i),
        tb.init_seeds@[s],
        tb.noise_seeds@[s],
        tb.th,
        tb.tw,
        tb.noise_level,
        tb.steps,
    )
}

/// The model works slot by slot: what it makes of a tile depends on that tile alone.
pub open spec fn slotwise<T, E, H, D: Fn(TileBatch<T>, H) -> (Result<Vec<T>, E>, H)>(
    denoise: D,
    slot: spec_fn(Seq<T>, u64, u64, usize, usize, i64, usize) -> Seq<T>,
) -> bool {
    forall|tb: TileBatch<T>, h0: H, v: Vec<T>, h1: H, s: int|
        tb.shaped() && 0 <= s < tb.count && #[trigger] call_ensures(
            denoise,
            (tb, h0),
            (Ok::<Vec<T>, E>(v), h1),
        ) ==> #[trigger] slot_is(tb, v@, slot, s)
}

/// The model leaves the progress state as it is.
pub open spec fn keeps_bar<T, E, H, D: Fn(TileBatch<T>, H) -> (Result<Vec<T>, E>, H)>(
    denoise: D,
) -> bool {
    forall|tb: TileBatch<T>, h0: H, v: Vec<T>, h1: H| #[trigger]
        call_ensures(denoise, (tb, h0), (Ok::<Vec<T>, E>(v), h1)) ==> h1 == h0
}

/// A tile of a run with a model that works slot by slot is what the model makes of
/// it, whatever the batch.
proof fn lemma_tile_by_slot<
    T,
    E,
    H,
    S: Fn(u8) -> T,
    D: Fn(TileBatch<T>, H) -> (Result<Vec<T>, E>, H),
    A: Fn(T, T) -> T,
    P: Fn(H, usize, usize) -> H,
>(
    trace: Trace<T, H>,
    g: TileGeometry,
    rgba: Seq<u8>,
    options: UpscaleOptions,
    seed: u64,
    zero: T,
    bar: H,
    sample: S,
    denoise: D,
    sum: A,
    on_progress: P,
    slot: spec_fn(Seq<T>, u64, u64, usize, usize, i64, usize) -> Seq<T>,
    k: int,
)
    requires
        g.valid(),
        0 <= k < g.count(),
        slotwise::<T, E, H, D>(denoise, slot),
        ran::<T, E, H, S, D, A, P>(
            trace,
            g,
            g.count(),
            rgba,
            options,
            seed,
            zero,
            bar,
            sample,
            denoise,
            sum,
            on_progress,
        ),
    ensures
        trace.tiles[k] == slot(
            tile_pixels(g, trace.planes, k),
            crate::noise::tile_seed_value(seed, k as u64, 0),
            crate::noise::tile_seed_value(seed, k as u64, LOW_RES_TWIST),
            g.th() as usize,
            g.tw() as usize,
            options.noise_level,
            options.steps,
        ),
{
    let size = batch_size(options);
    let (b, s) = (k / size, k % size);
    vstd::arithmetic::div_mod::lemma_fundamental_div_mod(k, size);
    vstd::arithmetic::div_mod::lemma_mod_bound(k, size);
    assert(k == b * size + s) by (nonlinear_arith)
        requires
            k == size * b + s,
    ;
    assert(b >= 0) by (nonlinear_arith)
        requires
            k == b * size + s,
            k >= 0,
            0 <= s < size,
    ;
    crate::tiling::lemma_step_count(g.count(), size, b);
    let batch = trace.batches[b];
    assert(tile_run(trace, g, size, sum, on_progress, k));
    assert(batch_run::<T, E, H, D>(
        batch,
        trace.outs[b],
        trace.bars[b * size],
        trace.woken[b],
        g,
        trace.planes,
        options,
        seed,
        denoise,
        b,
    ));
    let v = choose|v: Vec<T>|
        v@ == trace.outs[b] && #[trigger] call_ensures(
            denoise,
            (batch, trace.bars[b * size]),
            (Ok::<Vec<T>, E>(v), trace.woken[b]),
        );
    assert(slot_is(batch, v@, slot, s));
    assert(batch_entry(
        batch.pixels@,
        batch.init_seeds@,
        batch.noise_seeds@,
        g,
        trace.planes,
        seed,
        b * size,
        s,
    ));
}

/// Two runs that place the same tiles have the same sums.
proof fn lemma_same_sums<T, A: Fn(T, T) -> T>(
    g: TileGeometry,
    x: Seq<Seq<T>>,
    y: Seq<Seq<T>>,
    tiles: Seq<Seq<T>>,
    sum: A,
    n: nat,
)
    requires
        crate::pixels::decided2::<T, T, T, A>(sum),
        x[0] == y[0],
        forall|k: int| 0 <= k < n ==> #[trigger] tile_placed(g, k, x[k], x[k + 1], tiles[k], sum),
        forall|k: int| 0 <= k < n ==> #[trigger] tile_placed(g, k, y[k], y[k + 1], tiles[k], sum),
    ensures
        x[n as int] == y[n as int],
    decreases n,
{
    if n > 0 {
        let k = n - 1;
        lemma_same_sums(g, x, y, tiles, sum, k as nat);
        assert(tile_placed(g, k, x[k], x[k + 1], tiles[k], sum));
        assert(tile_placed(g, k, y[k], y[k + 1], tiles[k], sum));
        let (after_x, after_y) = (x[n as int], y[n as int]);
        assert forall|i: int| 0 <= i < after_x.len() implies after_x[i] == after_y[i] by {
            let (p, q) = (after_x[i], after_y[i]);
        }
        assert(after_x =~= after_y);
    }
}

/// Where the model leaves the progress state alone, a tile is told to the state that
/// the tile before it left, be it of the same batch or not.
proof fn lemma_bar_before<
    T,
    E,
    H,
    S: Fn(u8) -> T,
    D: Fn(TileBatch<T>, H) -> (Result<Vec<T>, E>, H),
    A: Fn(T, T) -> T,
    P: Fn(H, usize, usize) -> H,
>(
    trace: Trace<T, H>,
    g: TileGeometry,
    rgba: Seq<u8>,
    options: UpscaleOptions,
    seed: u64,
    zero: T,
    bar: H,
    sample: S,
    denoise: D,
    sum: A,
    on_progress: P,
    k: int,
)
    requires
        g.valid(),
        0 <= k < g.count(),
        keeps_bar::<T, E, H, D>(denoise),
        ran::<T, E, H, S, D, A, P>(
            trace,
            g,
            g.count(),
            rgba,
            options,
            seed,
            zero,
            bar,
            sample,
            denoise,
            sum,
            on_progress,
        ),
    ensures
        bar_before(trace, batch_size(options), k) == trace.bars[k],
{
    let size = batch_size(options);
    let b = k / size;
    if k % size == 0 {
        vstd::arithmetic::div_mod::lemma_fundamental_div_mod(k, size);
        assert(k == b * size) by (nonlinear_arith)
            requires
                k == size * b,
        ;
        assert(b >= 0) by (nonlinear_arith)
            requires
                k == b * size,
                k >= 0,
                size >= 1,
        ;
        crate::tiling::lemma_step_count(g.count(), size, b);
        assert(batch_run::<T, E, H, D>(
            trace.batches[b],
            trace.outs[b],
            trace.bars[b * size],
            trace.woken[b],
            g,
            trace.planes,
            options,
            seed,
            denoise,
            b,
        ));
    }
}

/// Where the model leaves the progress state alone, two runs on one geometry tell the
/// same.
proof fn lemma_same_bars<
    T,
    E,
    H,
    S: Fn(u8) -> T,
    D: Fn(TileBatch<T>, H) -> (Result<Vec<T>, E>, H),
    A: Fn(T, T) -> T,
    P: Fn(H, usize, usize) -> H,
>(
    x: Trace<T, H>,
    y: Trace<T, H>,
    g: TileGeometry,
    rgba: Seq<u8>,
    x_options: UpscaleOptions,
    y_options: UpscaleOptions,
    seed: u64,
    zero: T,
    bar: H,
    sample: S,
    denoise: D,
    sum: A,
    on_progress: P,
    n: nat,
)
    requires
        g.valid(),
        n <= g.count(),
        keeps_bar::<T, E, H, D>(denoise),
        crate::pixels::decided3::<H, usize, usize, H, P>(on_progress),
        ran::<T, E, H, S, D, A, P>(
            x,
            g,
            g.count(),
            rgba,
            x_options,
            seed,
            zero,
            bar,
            sample,
            denoise,
            sum,
            on_progress,
        ),
        ran::<T, E, H, S, D, A, P>(
            y,
            g,
            g.count(),
            rgba,
            y_options,
            seed,
            zero,
            bar,
            sample,
            denoise,
            sum,
            on_progress,
        ),
    ensures
        x.bars[n as int] == y.bars[n as int],
    decreases n,
{
    if n > 0 {
        let k = n - 1;
        lemma_same_bars(
            x,
            y,
            g,
            rgba,
            x_options,
            y_options,
            seed,
            zero,
            bar,
            sample,
            denoise,
            sum,
            on_progress,
            k as nat,
        );
        lemma_bar_before(
            x,
            g,
            rgba,
            x_options,
            seed,
            zero,
            bar,
            sample,
            denoise,
            sum,
            on_progress,
            k,
        );
        lemma_bar_before(
            y,
            g,
            rgba,
            y_options,
            seed,
            zero,
            bar,
            sample,
            denoise,
            sum,
            on_progress,
            k,
        );
        assert(tile_run(x, g, batch_size(x_options), sum, on_progress, k));
        assert(tile_run(y, g, batch_size(y_options), sum, on_progress, k));
    }
}

/// The batch size is invisible in the result: with a model that works slot by slot,
/// and functions that give one result for each argument, two runs that differ in
/// their batch size alone place the same tiles and give the same picture.
pub proof fn law_batch_size_is_invisible<
    T,
    E,
    H,
    S: Fn(u8) -> T,
    D: Fn(TileBatch<T>, H) -> (Result<Vec<T>, E>, H),
    A: Fn(T, T) -> T,
    Q: Fn(T, usize) -> u8,
    P: Fn(H, usize, usize) -> H,
>(
    x_image: Seq<u8>,
    y_image: Seq<u8>,
    x_end: H,
    y_end: H,
    rgba: Seq<u8>,
    width: usize,
    height: usize,
    x_options: UpscaleOptions,
    y_options: UpscaleOptions,
    seed: u64,
    zero: T,
    bar: H,
    sample: S,
    denoise: D,
    sum: A,
    quantize: Q,
    on_progress: P,
    slot: spec_fn(Seq<T>, u64, u64, usize, usize, i64, usize) -> Seq<T>,
)
    requires
        y_options == (UpscaleOptions { batch: y_options.batch, ..x_options }),
        slotwise::<T, E, H, D>(denoise, slot),
        crate::pixels::decided1::<u8, T, S>(sample),
        crate::pixels::decided2::<T, T, T, A>(sum),
        crate::pixels::decided2::<T, usize, u8, Q>(quantize),
        tiled_result::<T, E, H, S, D, A, Q, P>(
            x_image,
            x_end,
            plan_of(width, height, x_options),
            rgba,
            x_options,
            seed,
            zero,
            bar,
            sample,
            denoise,
            sum,
            quantize,
            on_progress,
        ),
        tiled_result::<T, E, H, S, D, A, Q, P>(
            y_image,
            y_end,
            plan_of(width, height, y_options),
            rgba,
            y_options,
            seed,
            zero,
            bar,
            sample,
            denoise,
            sum,
            quantize,
            on_progress,
        ),
    ensures
        x_image == y_image,
{
    let g = plan_of(width, height, x_options);
    assert(g == plan_of(width, height, y_options));
    crate::tiling::lemma_geometry_valid(
        width as int,
        height as int,
        x_options.tile as int,
        x_options.overlap as int,
    );
    let x = choose|trace: Trace<T, H>| #[trigger]
        ran::<T, E, H, S, D, A, P>(
            trace,
            g,
            g.count(),
            rgba,
            x_options,
            seed,
            zero,
            bar,
            sample,
            denoise,
            sum,
            on_progress,
        ) && picture(g, trace.sums.last(), x_image, quantize) && x_end == trace.bars.last();
    let y = choose|trace: Trace<T, H>| #[trigger]
        ran::<T, E, H, S, D, A, P>(
            trace,
            g,
            g.count(),
            rgba,
            y_options,
            seed,
            zero,
            bar,
            sample,
            denoise,
            sum,
            on_progress,
        ) && picture(g, trace.sums.last(), y_image, quantize) && y_end == trace.bars.last();
    assert forall|j: int| 0 <= j < x.planes.len() implies x.planes[j] == y.planes[j] by {
        let (p, q) = (x.planes[j], y.planes[j]);
    }
    assert(x.planes =~= y.planes);
    assert forall|k: int| 0 <= k < g.count() implies #[trigger] x.tiles[k] == y.tiles[k] by {
        lemma_tile_by_slot(
            x,
            g,
            rgba,
            x_options,
            seed,
            zero,
            bar,
            sample,
            denoise,
            sum,
            on_progress,
            slot,
            k,
        );
        lemma_tile_by_slot(
            y,
            g,
            rgba,
            y_options,
            seed,
            zero,
            bar,
            sample,
            denoise,
            sum,
            on_progress,
            slot,
            k,
        );
    }
    assert forall|k: int| 0 <= k < g.count() implies #[trigger] tile_placed(
        g,
        k,
        x.sums[k],
        x.sums[k + 1],
        x.tiles[k],
        sum,
    ) by {
        assert(tile_run(x, g, batch_size(x_options), sum, on_progress, k));
    }
    assert forall|k: int| 0 <= k < g.count() implies #[trigger] tile_placed(
        g,
        k,
        y.sums[k],
        y.sums[k + 1],
        x.tiles[k],
        sum,
    ) by {
        assert(tile_run(y, g, batch_size(y_options), sum, on_progress, k));
        assert(x.tiles[k] == y.tiles[k]);
    }
    lemma_same_sums(g, x.sums, y.sums, x.tiles, sum, g.count() as nat);
    assert forall|i: int| 0 <= i < x_image.len() implies x_image[i] == y_image[i] by {
        let (p, q) = (x_image[i], y_image[i]);
    }
    assert(x_image =~= y_image);
}

/// The batch size is invisible in the progress, whatever the model makes of the tiles:
/// where it leaves the progress state alone, and telling gives one result, two runs
/// that differ in their batch size alone give pictures of the same size and tell the
/// same numbers in the same order.
pub proof fn law_batch_size_keeps_progress<
    T,
    E,
    H,
    S: Fn(u8) -> T,
    D: Fn(TileBatch<T>, H) -> (Result<Vec<T>, E>, H),
    A: Fn(T, T) -> T,
    Q: Fn(T, usize) -> u8,
    P: Fn(H, usize, usize) -> H,
>(
    x_image: Seq<u8>,
    y_image: Seq<u8>,
    x_end: H,
    y_end: H,
    rgba: Seq<u8>,
    width: usize,
    height: usize,
    x_options: UpscaleOptions,
    y_options: UpscaleOptions,
    seed: u64,
    zero: T,
    bar: H,
    sample: S,
    denoise: D,
    sum: A,
    quantize: Q,
    on_progress: P,
)
    requires
        y_options == (UpscaleOptions { batch: y_options.batch, ..x_options }),
        keeps_bar::<T, E, H, D>(denoise),
        crate::pixels::decided3::<H, usize, usize, H, P>(on_progress),
        tiled_result::<T, E, H, S, D, A, Q, P>(
            x_image,
            x_end,
            plan_of(width, height, x_options),
            rgba,
            x_options,
            seed,
            zero,
            bar,
            sample,
            denoise,
            sum,
            quantize,
            on_progress,
        ),
        tiled_result::<T, E, H, S, D, A, Q, P>(
            y_image,
            y_end,
            plan_of(width, height, y_options),
            rgba,
            y_options,
            seed,
            zero,
            bar,
            sample,
            denoise,
            sum,
            quantize,
            on_progress,
        ),
    ensures
        x_image.len() == y_image.len(),
        x_end == y_end,
{
    let g = plan_of(width, height, x_options);
    assert(g == plan_of(width, height, y_options));
    crate::tiling::lemma_geometry_valid(
        width as int,
        height as int,
        x_options.tile as int,
        x_options.overlap as int,
    );
    let x = choose|trace: Trace<T, H>| #[trigger]
        ran::<T, E, H, S, D, A, P>(
            trace,
            g,
            g.count(),
            rgba,
            x_options,
            seed,
            zero,
            bar,
            sample,
            denoise,
            sum,
            on_progress,
        ) && picture(g, trace.sums.last(), x_image, quantize) && x_end == trace.bars.last();
    let y = choose|trace: Trace<T, H>| #[trigger]
        ran::<T, E, H, S, D, A, P>(
            trace,
            g,
            g.count(),
            rgba,
            y_options,
            seed,
            zero,
            bar,
            sample,
            denoise,
            sum,
            on_progress,
        ) && picture(g, trace.sums.last(), y_image, quantize) && y_end == trace.bars.last();
    lemma_same_bars(
        x,
        y,
        g,
        rgba,
        x_options,
        y_options,
        seed,
        zero,
        bar,
        sample,
        denoise,
        sum,
        on_progress,
        g.count() as nat,
    );
}

/// A tile is cut out of its own place: its sample at row `y`, column `x` of channel `c`
/// is that of the picture's plane `c` at that row and column counted from the tile's
/// corner.
pub proof fn law_tiles_are_cut_in_place<T>(
    g: TileGeometry,
    planes: Seq<T>,
    k: int,
    c: int,
    y: int,
    x: int,
)
    requires
        0 <= c < 3,
        0 <= y < g.th(),
        0 <= x < g.tw(),
    ensures
        tile_pixels(g, planes, k).len() == 3 * (g.th() * g.tw()),
        tile_pixels(g, planes, k)[c * (g.th() * g.tw()) + (y * g.tw() + x)] == planes[c * (g.height
            * g.width) + ((g.y0(k) + y) * g.width + (g.x0(k) + x))],
{
    let (y0, x0) = (g.y0(k), g.x0(k));
    crate::layout::law_crop_shifts(
        planes,
        3,
        g.height,
        g.width,
        y0,
        y0 + g.th(),
        x0,
        x0 + g.tw(),
        c,
        y,
        x,
    );
}

/// An upscaled tile lands where the tile was cut, four times as far from the corner
/// along both axes and four times as large: its sample at row `y`, column `x` of channel
/// `c` is added to the output's at that row and column counted from there. What lies
/// outside stays as it was.
pub proof fn law_upscaled_tiles_land_in_place<T, A: Fn(T, T) -> T>(
    g: TileGeometry,
    k: int,
    before: Seq<T>,
    after: Seq<T>,
    vals: Seq<T>,
    sum: A,
    c: int,
    y: int,
    x: int,
)
    requires
        g.valid(),
        0 <= k < g.count(),
        before.len() == out_samples(g),
        tile_placed(g, k, before, after, vals, sum),
        0 <= c < 3,
        0 <= y < 4 * g.height,
        0 <= x < 4 * g.width,
    ensures
        out_samples(g) == 3 * ((4 * g.height) * (4 * g.width)),
        after.len() == before.len(),
        ({
            let (top, left) = (4 * g.y0(k), 4 * g.x0(k));
            let at = 3 * (y * (4 * g.width) + x) + c;
            let inside = top <= y && y < top + 4 * g.th() && left <= x && x < left + 4 * g.tw();
            &&& 0 <= at < after.len()
            &&& inside ==> call_ensures(
                sum,
                (
                    before[at],
                    vals[c * ((4 * g.th()) * (4 * g.tw())) + ((y - top) * (4 * g.tw()) + (x
                        - left))],
                ),
                after[at],
            )
            &&& !inside ==> after[at] == before[at]
        }),
{
    let (w, h) = (g.width, g.height);
    assert(3 * ((4 * h) * (4 * w)) == 48 * (w * h)) by (nonlinear_arith);
    let px = y * (4 * w) + x;
    crate::pixels::lemma_grid_index(x, y, 4 * w, 4 * h);
    crate::pixels::lemma_pixel(x, y, 4 * w);
    let at = 3 * px + c;
    assert(at / 3 == px && at % 3 == c);
    let value = after[at];
}

/// A byte of the finished picture is made of the sum at its own pixel and channel and of
/// the number of tiles that hold the source pixel under it; the picture is opaque.
pub proof fn law_picture_is_divided_by_the_cover<T, Q: Fn(T, usize) -> u8>(
    g: TileGeometry,
    samples: Seq<T>,
    rgba: Seq<u8>,
    quantize: Q,
    y: int,
    x: int,
    c: int,
)
    requires
        picture(g, samples, rgba, quantize),
        0 <= y < 4 * g.height,
        0 <= x < 4 * g.width,
        0 <= c < 3,
    ensures
        ({
            let px = y * (4 * g.width) + x;
            let cover = crate::tiling::cover_count(g, g.count() as nat, x / 4, y / 4);
            &&& rgba.len() == 4 * ((4 * g.width) * (4 * g.height))
            &&& 0 <= px && 4 * px + 3 < rgba.len()
            &&& call_ensures(quantize, (samples[3 * px + c], cover as usize), rgba[4 * px + c])
            &&& rgba[4 * px + 3] == 255
        }),
{
    let (w, h) = (g.width, g.height);
    let px = y * (4 * w) + x;
    crate::pixels::lemma_grid_index(x, y, 4 * w, 4 * h);
    crate::pixels::lemma_pixel(x, y, 4 * w);
    assert((4 * h) * (4 * w) == 16 * (w * h) && (4 * w) * (4 * h) == 16 * (w * h))
        by (nonlinear_arith);
    let (i, a) = (4 * px + c, 4 * px + 3);
    assert(i / 4 == px && i % 4 == c && a / 4 == px && a % 4 == 3);
    let (p, q) = (rgba[i], rgba[a]);
}

/// A batch holds the tiles that it says, one behind the other: slot `s` holds the
/// samples of tile `first + s`, cut out of its place in the picture, and the two seeds of
/// that very number, the second twisted.
pub proof fn law_batches_hold_their_tiles<T>(
    batch: TileBatch<T>,
    g: TileGeometry,
    planes: Seq<T>,
    options: UpscaleOptions,
    seed: u64,
    first: int,
    n: int,
    s: int,
    c: int,
    y: int,
    x: int,
)
    requires
        is_batch(batch, g, planes, options, seed, first, n),
        0 <= s < n,
        0 <= first,
        first + n <= u64::MAX,
        0 <= c < 3,
        0 <= y < g.th(),
        0 <= x < g.tw(),
    ensures
        batch.first == first,
        batch.count == n,
        batch.th == g.th(),
        batch.tw == g.tw(),
        batch.steps == options.steps,
        batch.noise_level == options.noise_level,
        batch.pixels@.len() == n * (3 * (g.th() * g.tw())),
        ({
            let k = first + s;
            let plane = g.th() * g.tw();
            let at = s * (3 * plane) + (c * plane + (y * g.tw() + x));
            &&& 0 <= at < batch.pixels@.len()
            &&& batch.pixels@[at] == planes[c * (g.height * g.width) + ((g.y0(k) + y) * g.width + (
            g.x0(k) + x))]
            &&& batch.init_seeds@[s] == crate::noise::tile_seed_value(seed, k as u64, 0)
            &&& batch.noise_seeds@[s] == crate::noise::tile_seed_value(seed, k as u64, 0)
                ^ 0xA5A5_A5A5
        }),
{
    let k = first + s;
    let plane = g.th() * g.tw();
    let per = tile_in(g.th(), g.tw());
    let at = c * plane + (y * g.tw() + x);
    assert(batch_entry(
        batch.pixels@,
        batch.init_seeds@,
        batch.noise_seeds@,
        g,
        planes,
        seed,
        first,
        s,
    ));
    crate::pixels::lemma_grid_index(x, y, g.tw(), g.th());
    crate::pixels::lemma_grid_index(y * g.tw() + x, c, plane, 3);
    crate::pixels::lemma_grid_index(at, s, per, n);
    assert((s + 1) * per == s * per + per) by (nonlinear_arith);
    assert((s + 1) * per <= n * per) by (nonlinear_arith)
        requires
            s + 1 <= n,
            per >= 0,
    ;
    law_tiles_are_cut_in_place(g, planes, k, c, y, x);
    assert(batch.pixels@.subrange(s * per, (s + 1) * per)[at] == batch.pixels@[s * per + at]);
    crate::noise::law_tile_seeds_are_layered(seed, k as u64, LOW_RES_TWIST);
}

/// A run takes its tiles in order, `size` at a time and the rest in the last batch, every
/// tile in one batch: batch `b` begins with tile `b * size`, where the one before it
/// ended, and the last ends with the last tile.
pub proof fn law_batches_take_all_tiles_in_order<
    T,
    E,
    H,
    S: Fn(u8) -> T,
    D: Fn(TileBatch<T>, H) -> (Result<Vec<T>, E>, H),
    A: Fn(T, T) -> T,
    P: Fn(H, usize, usize) -> H,
>(
    trace: Trace<T, H>,
    g: TileGeometry,
    rgba: Seq<u8>,
    options: UpscaleOptions,
    seed: u64,
    zero: T,
    bar: H,
    sample: S,
    denoise: D,
    sum: A,
    on_progress: P,
    b: int,
)
    requires
        ran::<T, E, H, S, D, A, P>(
            trace,
            g,
            g.count(),
            rgba,
            options,
            seed,
            zero,
            bar,
            sample,
            denoise,
            sum,
            on_progress,
        ),
        g.count() >= 0,
        0 <= b < trace.batches.len(),
    ensures
        ({
            let batch = trace.batches[b];
            let next = batch.first + batch.count;
            &&& 1 <= batch.count
            &&& options.batch >= 1 ==> batch.first == b * options.batch && batch.count
                <= options.batch
            &&& options.batch == 0 ==> batch.first == b && batch.count == 1
            &&& b == 0 ==> batch.first == 0
            &&& b + 1 < trace.batches.len() ==> next == trace.batches[b + 1].first && (
            options.batch >= 1 ==> batch.count == options.batch)
            &&& b + 1 == trace.batches.len() ==> next == g.count()
        }),
{
    let size = batch_size(options);
    let count = g.count();
    let n = trace.batches.len() as int;
    crate::tiling::lemma_step_count(count, size, b);
    crate::tiling::lemma_step_count(count, size, b + 1);
    assert((b + 1) * size == b * size + size) by (nonlinear_arith);
    assert(0 * size == 0);
    assert(batch_run::<T, E, H, D>(
        trace.batches[b],
        trace.outs[b],
        trace.bars[b * size],
        trace.woken[b],
        g,
        trace.planes,
        options,
        seed,
        denoise,
        b,
    ));
    if b + 1 < n {
        assert(batch_run::<T, E, H, D>(
            trace.batches[b + 1],
            trace.outs[b + 1],
            trace.bars[(b + 1) * size],
            trace.woken[b + 1],
            g,
            trace.planes,
            options,
            seed,
            denoise,
            b + 1,
        ));
    }
}

/// Each tile of a run is what the model gave for its own slot of its own batch, and is
/// told as the number of tiles done by then, against the number of tiles of the run.
pub proof fn law_tiles_come_from_their_slots<
    T,
    E,
    H,
    S: Fn(u8) -> T,
    D: Fn(TileBatch<T>, H) -> (Result<Vec<T>, E>, H),
    A: Fn(T, T) -> T,
    P: Fn(H, usize, usize) -> H,
>(
    trace: Trace<T, H>,
    g: TileGeometry,
    rgba: Seq<u8>,
    options: UpscaleOptions,
    seed: u64,
    zero: T,
    bar: H,
    sample: S,
    denoise: D,
    sum: A,
    on_progress: P,
    b: int,
    s: int,
    i: int,
)
    requires
        ran::<T, E, H, S, D, A, P>(
            trace,
            g,
            g.count(),
            rgba,
            options,
            seed,
            zero,
            bar,
            sample,
            denoise,
            sum,
            on_progress,
        ),
        g.valid(),
        1 <= g.count() <= usize::MAX,
        options.batch >= 1,
        0 <= b,
        0 <= s < options.batch,
        b * options.batch + s < g.count(),
        trace.outs[b].len() == trace.batches[b].count * (48 * (g.th() * g.tw())),
        0 <= i < 48 * (g.th() * g.tw()),
    ensures
        ({
            let k = b * options.batch + s;
            let per = 48 * (g.th() * g.tw());
            &&& b < trace.batches.len()
            &&& trace.tiles[k].len() == per
            &&& trace.tiles[k][i] == trace.outs[b][s * per + i]
            &&& call_ensures(
                on_progress,
                (
                    if s == 0 {
                        trace.woken[b]
                    } else {
                        trace.bars[k]
                    },
                    (k + 1) as usize,
                    g.count() as usize,
                ),
                trace.bars[k + 1],
            )
            &&& exists|v: Vec<T>|
                v@ == trace.outs[b] && #[trigger] call_ensures(
                    denoise,
                    (trace.batches[b], trace.bars[b * options.batch]),
                    (Ok::<Vec<T>, E>(v), trace.woken[b]),
                )
        }),
{
    let size = batch_size(options);
    let k = b * size + s;
    let per = tile_out(g.th(), g.tw());
    lemma_slot(b, s, size);
    assert(tile_run(trace, g, size, sum, on_progress, k));
    assert(b * size <= k) by (nonlinear_arith)
        requires
            k == b * size + s,
            s >= 0,
    ;
    crate::tiling::lemma_step_count(g.count(), size, b);
    assert(b < trace.batches.len());
    assert(batch_run::<T, E, H, D>(
        trace.batches[b],
        trace.outs[b],
        trace.bars[b * size],
        trace.woken[b],
        g,
        trace.planes,
        options,
        seed,
        denoise,
        b,
    ));
    let n = trace.batches[b].count as int;
    assert(s + 1 <= n);
    assert(0 <= s * per && (s + 1) * per == s * per + per && (s + 1) * per <= n * per)
        by (nonlinear_arith)
        requires
            0 <= s,
            s + 1 <= n,
            per >= 0,
    ;
}

/// A run uses the tile side and the overlap asked for, on the picture at hand.
pub proof fn law_runs_follow_their_options(width: usize, height: usize, options: UpscaleOptions)
    requires
        options.tile >= 8,
        options.tile <= width,
        options.tile <= height,
    ensures
        ({
            let g = plan_of(width, height, options);
            &&& g.width == width
            &&& g.height == height
            &&& g.tw() == options.tile
            &&& g.th() == options.tile
            &&& 2 * options.overlap <= options.tile ==> g.stride == options.tile - options.overlap
            &&& 2 * options.overlap > options.tile ==> g.stride == options.tile - options.tile / 2
        }),
{
}

/// A run that was begun holds nothing yet: no tile is placed, and every sample, three
/// for each of sixteen pixels per pixel of the picture, is zero.
pub proof fn law_runs_begin_empty<T: Copy>(run: Stitcher<T>, zero: T, i: int)
    requires
        run.begun(zero),
        0 <= i < 48 * (run.geo().width * run.geo().height),
    ensures
        run.placed() == 0,
        run.samples().len() == 48 * (run.geo().width * run.geo().height),
        run.samples()[i] == zero,
{
}

/// Tiles go to the model one at a time unless more are asked for.
pub proof fn law_batches_have_the_size_asked_for(options: UpscaleOptions)
    ensures
        options.batch >= 1 ==> batch_size(options) == options.batch,
        options.batch == 0 ==> batch_size(options) == 1,
{
}

/// A run makes no error up: what it fails with is what the model failed with, on the
/// first batch that it failed on; the tiles before that batch were all placed.
pub proof fn law_model_errors_are_passed_on<
    T,
    E,
    H,
    S: Fn(u8) -> T,
    D: Fn(TileBatch<T>, H) -> (Result<Vec<T>, E>, H),
    A: Fn(T, T) -> T,
    P: Fn(H, usize, usize) -> H,
>(
    e: E,
    end: H,
    g: TileGeometry,
    rgba: Seq<u8>,
    options: UpscaleOptions,
    seed: u64,
    zero: T,
    bar: H,
    sample: S,
    denoise: D,
    sum: A,
    on_progress: P,
)
    requires
        options.batch >= 1,
        model_failed::<T, E, H, S, D, A, P>(
            e,
            end,
            g,
            rgba,
            options,
            seed,
            zero,
            bar,
            sample,
            denoise,
            sum,
            on_progress,
        ),
    ensures
        exists|trace: Trace<T, H>, batch: TileBatch<T>, told: H|
            {
                let b = trace.batches.len() as int;
                &&& trace.tiles.len() == b * options.batch
                &&& batch.first == b * options.batch
                &&& batch.first < g.count()
                &&& batch.first + batch.count <= g.count()
                &&& trace.bars.last() == told
                &&& #[trigger] trace.bars[0] == bar
                &&& #[trigger] call_ensures(
                    denoise,
                    (batch, told),
                    (Err::<Vec<T>, E>(e), end),
                )
            },
{
    let (trace, batch) = choose|trace: Trace<T, H>, batch: TileBatch<T>| #[trigger]
        failed_on::<T, E, H, S, D, A, P>(
            e,
            end,
            g,
            rgba,
            options,
            seed,
            zero,
            bar,
            sample,
            denoise,
            sum,
            on_progress,
            trace,
            batch,
        );
    assert(trace.bars[0] == bar);
    assert(call_ensures(denoise, (batch, trace.bars.last()), (Err::<Vec<T>, E>(e), end)));
}

/// A batch holds three samples for each pixel of its tiles, and as many seeds of either
/// kind as tiles; sixteen times as many samples come back for it.
pub proof fn law_batches_come_back_enlarged<T>(batch: TileBatch<T>)
    requires
        batch.shaped(),
    ensures
        batch.pixels@.len() == batch.count * (3 * (batch.th * batch.tw)),
        batch.init_seeds@.len() == batch.count,
        batch.noise_seeds@.len() == batch.count,
        batch.out_len() == 16 * batch.pixels@.len(),
{
    let (n, a) = (batch.count as int, batch.th * batch.tw);
    assert(n * (48 * a) == 16 * (n * (3 * a))) by (nonlinear_arith);
}

/// The planes of a run are those of its picture: sample `p` of plane `c` is made of the
/// byte of channel `c` of pixel `p`.
pub proof fn law_runs_split_their_picture<T, S: Fn(u8) -> T>(
    g: TileGeometry,
    rgba: Seq<u8>,
    planes: Seq<T>,
    sample: S,
    c: int,
    y: int,
    x: int,
)
    requires
        planes_of(g, rgba, planes, sample),
        0 <= c < 3,
        0 <= y < g.height,
        0 <= x < g.width,
    ensures
        planes.len() == 3 * (g.width * g.height),
        call_ensures(
            sample,
            (rgba[4 * (y * g.width + x) + c],),
            planes[c * (g.width * g.height) + (y * g.width + x)],
        ),
{
    let size = g.width * g.height;
    crate::pixels::lemma_grid_index(x, y, g.width, g.height);
    assert(g.height * g.width == size) by (nonlinear_arith)
        requires
            size == g.width * g.height,
    ;
    crate::pixels::law_planes_hold_their_channels(
        rgba,
        size as nat,
        planes,
        sample,
        c,
        y * g.width + x,
    );
}

} // verus!
