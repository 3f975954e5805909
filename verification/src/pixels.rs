//! Pixel buffers: interleaved RGBA bytes, planar sample buffers, and the moves
//! between them.
//!
//! A sample is any copyable value (the models use floating point); what is done
//! to a sample is handed in as a function, so that the layout of every buffer can
//! be stated exactly without saying anything of sample arithmetic.

use vstd::prelude::*;

verus! {

/// The function gives one result for each argument.
pub open spec fn decided1<X, Y, F: Fn(X) -> Y>(f: F) -> bool {
    forall|x: X, y: Y, z: Y| #[trigger]
        call_ensures(f, (x,), y) && #[trigger] call_ensures(f, (x,), z) ==> y == z
}

/// The function gives one result for each pair of arguments.
pub open spec fn decided2<W, X, Y, F: Fn(W, X) -> Y>(f: F) -> bool {
    forall|w: W, x: X, y: Y, z: Y| #[trigger]
        call_ensures(f, (w, x), y) && #[trigger] call_ensures(f, (w, x), z) ==> y == z
}

/// The function gives one result for each three arguments.
pub open spec fn decided3<V, W, X, Y, F: Fn(V, W, X) -> Y>(f: F) -> bool {
    forall|v: V, w: W, x: X, y: Y, z: Y| #[trigger]
        call_ensures(f, (v, w, x), y) && #[trigger] call_ensures(f, (v, w, x), z) ==> y == z
}

/// Whether a `tw` by `th` rectangle at column `ox`, row `oy` holds the pixel.
pub open spec fn rect_holds(ox: int, oy: int, tw: int, th: int, x: int, y: int) -> bool {
    ox <= x < ox + tw && oy <= y < oy + th
}

/// Where the sample of channel `c` at `(x, y)` stands in a planar tile.
pub open spec fn planar_index(c: int, x: int, y: int, tw: int, th: int) -> int {
    c * (th * tw) + y * tw + x
}

/// `after` is `before` with a planar three-channel tile added at `(ox, oy)`:
/// three interleaved samples per pixel, rows of `width` pixels.
pub open spec fn tile_added<T, A: Fn(T, T) -> T>(
    before: Seq<T>,
    after: Seq<T>,
    vals: Seq<T>,
    th: int,
    tw: int,
    width: int,
    ox: int,
    oy: int,
    sum: A,
) -> bool {
    &&& after.len() == before.len()
    &&& forall|i: int|
        #![trigger after[i]]
        0 <= i < after.len() ==> {
            let (x, y) = ((i / 3) % width, (i / 3) / width);
            if rect_holds(ox, oy, tw, th, x, y) {
                call_ensures(
                    sum,
                    (before[i], vals[planar_index(i % 3, x - ox, y - oy, tw, th)]),
                    after[i],
                )
            } else {
                after[i] == before[i]
            }
        }
}

/// `after` is `before` with one unit added at every pixel that the tile holds.
pub open spec fn tile_counted(
    before: Seq<usize>,
    after: Seq<usize>,
    th: int,
    tw: int,
    width: int,
    ox: int,
    oy: int,
) -> bool {
    &&& after.len() == before.len()
    &&& forall|px: int|
        #![trigger after[px]]
        0 <= px < after.len() ==> after[px] == before[px] + if rect_holds(
            ox,
            oy,
            tw,
            th,
            px % width,
            px / width,
        ) {
            1int
        } else {
            0int
        }
}

/// A pixel number splits into its column and row, and is made of them.
pub proof fn lemma_pixel(x: int, y: int, width: int)
    requires
        0 <= x < width,
    ensures
        (y * width + x) % width == x,
        (y * width + x) / width == y,
{
    assert(y * width == width * y) by (nonlinear_arith);
    vstd::arithmetic::div_mod::lemma_fundamental_div_mod_converse(y * width + x, width, y, x);
}

/// Two pixels of the same column and row are the same pixel.
proof fn lemma_pixel_unique(p: int, q: int, width: int)
    requires
        width > 0,
        p % width == q % width,
        p / width == q / width,
    ensures
        p == q,
{
    vstd::arithmetic::div_mod::lemma_fundamental_div_mod(p, width);
    vstd::arithmetic::div_mod::lemma_fundamental_div_mod(q, width);
}

/// An element of a `w` by `h` grid has a number below `w * h`.
pub proof fn lemma_grid_index(x: int, y: int, w: int, h: int)
    requires
        0 <= x < w,
        0 <= y < h,
    ensures
        0 <= y * w,
        0 <= y * w + x < h * w,
{
    assert(0 <= y * w && 0 <= y * w + x < h * w) by (nonlinear_arith)
        requires
            0 <= x < w,
            0 <= y < h,
    ;
}

/// Whether the pixel at `(x, y)` comes before the `n`-th column of row `r`.
spec fn before_in_rows(x: int, y: int, r: int, n: int) -> bool {
    y < r || (y == r && x < n)
}

/// Adds a decoded tile's planar samples into the accumulation buffers at pixel
/// offset `(ox, oy)`, one unit of weight per covered pixel.
pub fn accumulate<T: Copy, A: Fn(T, T) -> T>(
    out: &mut Vec<T>,
    weight: &mut Vec<usize>,
    vals: &[T],
    th: usize,
    tw: usize,
    out_width: usize,
    ox: usize,
    oy: usize,
    sum: &A,
)
    requires
        forall|a: T, b: T| call_requires(*sum, (a, b)),
        vals@.len() == 3 * (th * tw),
        old(out)@.len() == 3 * old(weight)@.len(),
        ox + tw <= out_width,
        (oy + th) * out_width <= old(weight)@.len(),
        forall|px: int| 0 <= px < old(weight)@.len() ==> #[trigger] old(weight)@[px] < usize::MAX,
    ensures
        tile_added(
            old(out)@,
            final(out)@,
            vals@,
            th as int,
            tw as int,
            out_width as int,
            ox as int,
            oy as int,
            *sum,
        ),
        tile_counted(
            old(weight)@,
            final(weight)@,
            th as int,
            tw as int,
            out_width as int,
            ox as int,
            oy as int,
        ),
{
    let ghost out0 = out@;
    let ghost weight0 = weight@;
    let ghost w = out_width as int;
    let ghost plane = th * tw;
    assert(out0.len() == out.len());
    assert(weight0.len() == weight.len());
    assert(vals@.len() == vals.len());
    let mut ty: usize = 0;
    while ty < th
        invariant
            ty <= th,
            w == out_width,
            plane == th * tw,
            forall|a: T, b: T| call_requires(*sum, (a, b)),
            vals@.len() == 3 * plane <= usize::MAX,
            out@.len() == out0.len() == 3 * weight0.len() <= usize::MAX,
            weight@.len() == weight0.len() <= usize::MAX,
            ox + tw <= out_width,
            (oy + th) * out_width <= weight0.len(),
            forall|px: int| 0 <= px < weight0.len() ==> #[trigger] weight0[px] < usize::MAX,
            forall|i: int|
                #![trigger out@[i]]
                0 <= i < out0.len() ==> {
                    let (x, y) = ((i / 3) % w, (i / 3) / w);
                    if rect_holds(ox as int, oy as int, tw as int, th as int, x, y)
                        && before_in_rows(x, y, oy + ty, ox as int) {
                        call_ensures(
                            *sum,
                            (
                                out0[i],
                                vals@[planar_index(i % 3, x - ox, y - oy, tw as int, th as int)],
                            ),
                            out@[i],
                        )
                    } else {
                        out@[i] == out0[i]
                    }
                },
            forall|px: int|
                #![trigger weight@[px]]
                0 <= px < weight0.len() ==> weight@[px] == weight0[px] + if rect_holds(
                    ox as int,
                    oy as int,
                    tw as int,
                    th as int,
                    px % w,
                    px / w,
                ) && before_in_rows(px % w, px / w, oy + ty, ox as int) {
                    1int
                } else {
                    0int
                },
        decreases th - ty,
    {
        let mut tx: usize = 0;
        while tx < tw
            invariant
                ty < th,
                tx <= tw,
                w == out_width,
                plane == th * tw,
                forall|a: T, b: T| call_requires(*sum, (a, b)),
                vals@.len() == 3 * plane <= usize::MAX,
                out@.len() == out0.len() == 3 * weight0.len() <= usize::MAX,
                weight@.len() == weight0.len() <= usize::MAX,
                ox + tw <= out_width,
                (oy + th) * out_width <= weight0.len(),
                forall|px: int| 0 <= px < weight0.len() ==> #[trigger] weight0[px] < usize::MAX,
                forall|i: int|
                    #![trigger out@[i]]
                    0 <= i < out0.len() ==> {
                        let (x, y) = ((i / 3) % w, (i / 3) / w);
                        if rect_holds(ox as int, oy as int, tw as int, th as int, x, y)
                            && before_in_rows(x, y, oy + ty, ox + tx) {
                            call_ensures(
                                *sum,
                                (
                                    out0[i],
                                    vals@[planar_index(
                                        i % 3,
                                        x - ox,
                                        y - oy,
                                        tw as int,
                                        th as int,
                                    )],
                                ),
                                out@[i],
                            )
                        } else {
                            out@[i] == out0[i]
                        }
                    },
                forall|px: int|
                    #![trigger weight@[px]]
                    0 <= px < weight0.len() ==> weight@[px] == weight0[px] + if rect_holds(
                        ox as int,
                        oy as int,
                        tw as int,
                        th as int,
                        px % w,
                        px / w,
                    ) && before_in_rows(px % w, px / w, oy + ty, ox + tx) {
                        1int
                    } else {
                        0int
                    },
            decreases tw - tx,
        {
            let ghost dst = (oy + ty) * w + (ox + tx);
            proof {
                lemma_grid_index(ox + tx, oy + ty, w, oy + th);
                lemma_grid_index(tx as int, ty as int, tw as int, th as int);
                lemma_pixel(ox + tx, oy + ty, w);
                assert(oy + ty <= (oy + ty) * w) by (nonlinear_arith)
                    requires
                        w >= 1,
                ;
                assert(plane == tw * th) by (nonlinear_arith)
                    requires
                        plane == th * tw,
                ;
            }
            let dst_px: usize = (oy + ty) * out_width + (ox + tx);
            let at: usize = ty * tw + tx;
            let size: usize = th * tw;
            let ghost out1 = out@;
            let a0: T = sum(out[dst_px * 3], vals[at]);
            let a1: T = sum(out[dst_px * 3 + 1], vals[size + at]);
            let a2: T = sum(out[dst_px * 3 + 2], vals[2 * size + at]);
            out.set(dst_px * 3, a0);
            out.set(dst_px * 3 + 1, a1);
            out.set(dst_px * 3 + 2, a2);
            let ghost weight1 = weight@;
            let n: usize = weight[dst_px];
            weight.set(dst_px, n + 1);
            proof {
                assert(planar_index(0, tx as int, ty as int, tw as int, th as int) == at);
                assert(planar_index(1, tx as int, ty as int, tw as int, th as int) == size + at);
                assert(planar_index(2, tx as int, ty as int, tw as int, th as int) == 2 * size
                    + at);
                assert forall|i: int| #![trigger out@[i]] 0 <= i < out0.len() implies ({
                    let (x, y) = ((i / 3) % w, (i / 3) / w);
                    if rect_holds(ox as int, oy as int, tw as int, th as int, x, y)
                        && before_in_rows(x, y, oy + ty, ox + (tx + 1)) {
                        call_ensures(
                            *sum,
                            (
                                out0[i],
                                vals@[planar_index(i % 3, x - ox, y - oy, tw as int, th as int)],
                            ),
                            out@[i],
                        )
                    } else {
                        out@[i] == out0[i]
                    }
                }) by {
                    let old_entry = out1[i];
                    if i / 3 == dst {
                        assert(i == dst * 3 || i == dst * 3 + 1 || i == dst * 3 + 2);
                        assert(out1[i] == out0[i]);
                    } else {
                        if (i / 3) % w == dst % w && (i / 3) / w == dst / w {
                            lemma_pixel_unique(i / 3, dst, w);
                        }
                        assert(out@[i] == out1[i]);
                    }
                }
                assert forall|px: int| #![trigger weight@[px]] 0 <= px < weight0.len() implies weight@[px]
                    == weight0[px] + if rect_holds(
                    ox as int,
                    oy as int,
                    tw as int,
                    th as int,
                    px % w,
                    px / w,
                ) && before_in_rows(px % w, px / w, oy + ty, ox + (tx + 1)) {
                    1int
                } else {
                    0int
                } by {
                    let old_entry = weight1[px];
                    if px != dst && px % w == dst % w && px / w == dst / w {
                        lemma_pixel_unique(px, dst, w);
                    }
                }
            }
            tx = tx + 1;
        }
        ty = ty + 1;
    }
}

/// `rgba` is the opaque picture of interleaved samples, each quantized with the weight
/// of its pixel (at least one).
pub open spec fn normalized<T, Q: Fn(T, usize) -> u8>(
    out: Seq<T>,
    weight: Seq<usize>,
    pixels: int,
    rgba: Seq<u8>,
    quantize: Q,
) -> bool {
    &&& rgba.len() == 4 * pixels
    &&& forall|i: int|
        #![trigger rgba[i]]
        0 <= i < rgba.len() ==> if i % 4 == 3 {
            rgba[i] == 255
        } else {
            call_ensures(
                quantize,
                (
                    out[(i / 4) * 3 + i % 4],
                    if weight[i / 4] >= 1 {
                        weight[i / 4]
                    } else {
                        1usize
                    },
                ),
                rgba[i],
            )
        }
}

/// Divides the accumulated samples by the per-pixel weight (at least one) and
/// packs them into an opaque RGBA buffer; `quantize` turns a sample and its weight
/// into a byte.
pub fn normalize_to_rgba<T: Copy, Q: Fn(T, usize) -> u8>(
    out: &[T],
    weight: &[usize],
    width: usize,
    height: usize,
    quantize: &Q,
) -> (rgba: Vec<u8>)
    requires
        forall|v: T, n: usize| n >= 1 ==> call_requires(*quantize, (v, n)),
        weight@.len() == width * height,
        out@.len() == 3 * weight@.len(),
        4 * (width * height) <= usize::MAX,
    ensures
        normalized(out@, weight@, width * height, rgba@, *quantize),
{
    let mut rgba: Vec<u8> = Vec::new();
    let mut px: usize = 0;
    while px < weight.len()
        invariant
            px <= weight@.len(),
            weight@.len() == width * height,
            out@.len() == 3 * weight@.len(),
            4 * (width * height) <= usize::MAX,
            forall|v: T, n: usize| n >= 1 ==> call_requires(*quantize, (v, n)),
            rgba@.len() == 4 * px,
            forall|i: int|
                #![trigger rgba@[i]]
                0 <= i < rgba@.len() ==> if i % 4 == 3 {
                    rgba@[i] == 255
                } else {
                    call_ensures(
                        *quantize,
                        (
                            out@[(i / 4) * 3 + i % 4],
                            if weight@[i / 4] >= 1 { weight@[i / 4] } else { 1usize },
                        ),
                        rgba@[i],
                    )
                },
        decreases weight@.len() - px,
    {
        let w: usize = if weight[px] >= 1 { weight[px] } else { 1 };
        rgba.push(quantize(out[px * 3], w));
        rgba.push(quantize(out[px * 3 + 1], w));
        rgba.push(quantize(out[px * 3 + 2], w));
        rgba.push(255);
        px = px + 1;
    }
    rgba
}

/// `planes` are the three colour planes of `rgba`, sample by sample.
pub open spec fn planes_from<T, S: Fn(u8) -> T>(
    rgba: Seq<u8>,
    pixels: int,
    planes: Seq<T>,
    sample: S,
) -> bool {
    &&& planes.len() == 3 * pixels
    &&& forall|j: int|
        #![trigger planes[j]]
        0 <= j < planes.len() ==> call_ensures(
            sample,
            (rgba[(j % pixels) * 4 + j / pixels],),
            planes[j],
        )
}

/// Splits RGBA bytes into three planes of samples, dropping alpha; `sample` turns
/// a byte into a sample.
pub fn rgba_to_planes<T, S: Fn(u8) -> T>(
    rgba: &[u8],
    width: usize,
    height: usize,
    sample: &S,
) -> (planes: Vec<T>)
    requires
        forall|b: u8| call_requires(*sample, (b,)),
        rgba@.len() == 4 * (width * height),
    ensures
        planes_from(rgba@, width * height, planes@, *sample),
{
    assert(rgba@.len() == rgba.len());
    let hw: usize = rgba.len() / 4;
    let mut planes: Vec<T> = Vec::new();
    let mut c: usize = 0;
    while c < 3
        invariant
            c <= 3,
            hw == width * height,
            rgba@.len() == 4 * hw <= usize::MAX,
            forall|b: u8| call_requires(*sample, (b,)),
            planes@.len() == c * hw,
            forall|j: int|
                #![trigger planes@[j]]
                0 <= j < planes@.len() ==> call_ensures(
                    *sample,
                    (rgba@[(j % (hw as int)) * 4 + j / (hw as int)],),
                    planes@[j],
                ),
        decreases 3 - c,
    {
        let mut i: usize = 0;
        while i < hw
            invariant
                c < 3,
                i <= hw,
                rgba@.len() == 4 * hw <= usize::MAX,
                forall|b: u8| call_requires(*sample, (b,)),
                planes@.len() == c * hw + i,
                forall|j: int|
                    #![trigger planes@[j]]
                    0 <= j < planes@.len() ==> call_ensures(
                        *sample,
                        (rgba@[(j % (hw as int)) * 4 + j / (hw as int)],),
                        planes@[j],
                    ),
            decreases hw - i,
        {
            proof {
                lemma_pixel(i as int, c as int, hw as int);
            }
            planes.push(sample(rgba[i * 4 + c]));
            i = i + 1;
        }
        proof {
            assert((c + 1) * hw == c * hw + hw) by (nonlinear_arith);
        }
        c = c + 1;
    }
    planes
}

/// `out` holds the samples of three planes pixel by pixel.
pub open spec fn interleaved<T>(planes: Seq<T>, pixels: int, out: Seq<T>) -> bool {
    &&& out.len() == 3 * pixels
    &&& forall|k: int|
        0 <= k < out.len() ==> #[trigger] out[k] == planes[(k % 3) * pixels + k / 3]
}

/// Colours make the round trip: where quantizing a byte's sample at weight one gives
/// the byte back, a picture that is split into planes and packed again, each pixel
/// counted once, has its colours unchanged and is opaque.
pub proof fn law_colours_come_back<T, S: Fn(u8) -> T, Q: Fn(T, usize) -> u8>(
    rgba: Seq<u8>,
    pixels: nat,
    planes: Seq<T>,
    out: Seq<T>,
    weight: Seq<usize>,
    packed: Seq<u8>,
    sample: S,
    quantize: Q,
)
    requires
        rgba.len() == 4 * pixels,
        planes_from(rgba, pixels as int, planes, sample),
        interleaved(planes, pixels as int, out),
        weight.len() == pixels,
        forall|p: int| 0 <= p < pixels ==> #[trigger] weight[p] == 1,
        normalized(out, weight, pixels as int, packed, quantize),
        forall|b: u8, v: T, r: u8| #[trigger]
            call_ensures(sample, (b,), v) && #[trigger] call_ensures(quantize, (v, 1usize), r)
                ==> r == b,
    ensures
        packed.len() == rgba.len(),
        forall|i: int|
            0 <= i < packed.len() ==> #[trigger] packed[i] == if i % 4 == 3 {
                255
            } else {
                rgba[i]
            },
{
    assert forall|i: int| 0 <= i < packed.len() implies #[trigger] packed[i] == if i % 4 == 3 {
        255
    } else {
        rgba[i]
    } by {
        let (p, c) = (i / 4, i % 4);
        if c != 3 {
            let k = p * 3 + c;
            assert(k % 3 == c && k / 3 == p);
            let j = c * pixels + p;
            lemma_pixel(p, c, pixels as int);
            assert(0 <= j < 3 * pixels) by (nonlinear_arith)
                requires
                    0 <= c < 3,
                    0 <= p < pixels,
                    j == c * pixels + p,
            ;
            assert(out[k] == planes[j]);
            assert(call_ensures(sample, (rgba[p * 4 + c],), planes[j]));
            assert(weight[p] == 1);
            assert(call_ensures(quantize, (out[k], 1usize), packed[i]));
        }
    }
}

/// Packs three planes of `plane` samples each into an opaque RGBA buffer.
pub fn pack_rgba<T: Copy, Q: Fn(T) -> u8>(vals: &[T], plane: usize, quantize: &Q) -> (rgba: Vec<u8>)
    requires
        forall|v: T| call_requires(*quantize, (v,)),
        vals@.len() == 3 * plane,
        4 * plane <= usize::MAX,
    ensures
        rgba@.len() == 4 * plane,
        forall|i: int|
            #![trigger rgba@[i]]
            0 <= i < rgba@.len() ==> if i % 4 == 3 {
                rgba@[i] == 255
            } else {
                call_ensures(*quantize, (vals@[(i % 4) * plane + i / 4],), rgba@[i])
            },
{
    let mut rgba: Vec<u8> = Vec::new();
    let mut px: usize = 0;
    while px < plane
        invariant
            px <= plane,
            vals@.len() == 3 * plane,
            4 * plane <= usize::MAX,
            forall|v: T| call_requires(*quantize, (v,)),
            rgba@.len() == 4 * px,
            forall|i: int|
                #![trigger rgba@[i]]
                0 <= i < rgba@.len() ==> if i % 4 == 3 {
                    rgba@[i] == 255
                } else {
                    call_ensures(*quantize, (vals@[(i % 4) * plane + i / 4],), rgba@[i])
                },
        decreases plane - px,
    {
        let ghost done = rgba@;
        rgba.push(quantize(vals[px]));
        rgba.push(quantize(vals[plane + px]));
        rgba.push(quantize(vals[2 * plane + px]));
        rgba.push(255);
        proof {
            assert(0 * plane == 0 && 1 * plane == plane);
            assert forall|i: int| #![trigger rgba@[i]] 0 <= i < rgba@.len() implies if i % 4 == 3 {
                rgba@[i] == 255
            } else {
                call_ensures(*quantize, (vals@[(i % 4) * plane + i / 4],), rgba@[i])
            } by {
                if i < done.len() {
                    assert(rgba@[i] == done[i]);
                } else {
                    assert(i / 4 == px);
                }
            }
        }
        px = px + 1;
    }
    rgba
}

/// The numbers from `from` on were told against `total`, one after the other: the
/// `k`-th took the progress state from `bars[k]` to `bars[k + 1]`.
pub open spec fn told<H, P: Fn(H, usize, usize) -> H>(
    bars: Seq<H>,
    on_progress: P,
    from: int,
    total: usize,
) -> bool {
    forall|k: int|
        0 <= k < bars.len() - 1 ==> #[trigger] told_one(bars, on_progress, from, total, k)
}

/// The `k`-th number was told.
pub open spec fn told_one<H, P: Fn(H, usize, usize) -> H>(
    bars: Seq<H>,
    on_progress: P,
    from: int,
    total: usize,
    k: int,
) -> bool {
    call_ensures(on_progress, (bars[k], (from + k) as usize, total), bars[k + 1])
}

/// Telling the numbers from `from` up to `to` against `total`, in order and each
/// once, took the progress state from `bar` to `end`.
pub open spec fn told_through<H, P: Fn(H, usize, usize) -> H>(
    on_progress: P,
    bar: H,
    from: int,
    to: int,
    total: usize,
    end: H,
) -> bool {
    exists|bars: Seq<H>| #[trigger]
        told(bars, on_progress, from, total) && bars.len() == to - from + 2 && bars[0] == bar
            && bars.last() == end
}

/// Enlarges an RGBA image four times by repeating each pixel, reporting after
/// each output row how many of the rows are done. The progress state `bar` goes
/// through these calls, in order, and is given back at the end.
pub fn nearest_x4<H, P: Fn(H, usize, usize) -> H>(
    rgba: &[u8],
    width: usize,
    height: usize,
    bar: H,
    on_progress: &P,
) -> (outcome: ((Vec<u8>, usize, usize), H))
    requires
        forall|h: H, done: usize, total: usize|
            1 <= done <= total ==> #[trigger] call_requires(*on_progress, (h, done, total)),
        rgba@.len() == 4 * (width * height),
        64 * (width * height) <= usize::MAX,
        4 * width <= usize::MAX,
        4 * height <= usize::MAX,
    ensures
        outcome.0.1 == 4 * width,
        outcome.0.2 == 4 * height,
        outcome.0.0@.len() == 4 * (outcome.0.1 * outcome.0.2),
        forall|i: int|
            #![trigger outcome.0.0@[i]]
            0 <= i < outcome.0.0@.len() ==> {
                let (x, y) = ((i / 4) % (outcome.0.1 as int), (i / 4) / (outcome.0.1 as int));
                outcome.0.0@[i] == rgba@[((y / 4) * width + x / 4) * 4 + i % 4]
            },
        told_through(*on_progress, bar, 1, outcome.0.2 as int, outcome.0.2, outcome.1),
{
    let ow: usize = 4 * width;
    let oh: usize = 4 * height;
    let mut out: Vec<u8> = Vec::new();
    proof {
        assert(ow * oh == 16 * (width * height)) by (nonlinear_arith)
            requires
                ow == 4 * width,
                oh == 4 * height,
        ;
        assert(0 * ow == 0);
    }
    let ghost bar_0 = bar;
    let mut now: H = bar;
    let ghost mut bars: Seq<H> = seq![bar_0];
    let mut y: usize = 0;
    while y < oh
        invariant
            y <= oh,
            ow == 4 * width,
            oh == 4 * height,
            rgba@.len() == 4 * (width * height) <= usize::MAX,
            ow * oh == 16 * (width * height),
            64 * (width * height) <= usize::MAX,
            forall|h: H, done: usize, total: usize|
                1 <= done <= total ==> #[trigger] call_requires(*on_progress, (h, done, total)),
            bar_0 == bar,
            bars.len() == y + 1,
            bars[0] == bar_0,
            bars.last() == now,
            told(bars, *on_progress, 1, oh),
            out@.len() == 4 * (y * ow),
            forall|i: int|
                #![trigger out@[i]]
                0 <= i < out@.len() ==> {
                    let (px, py) = ((i / 4) % (ow as int), (i / 4) / (ow as int));
                    out@[i] == rgba@[((py / 4) * width + px / 4) * 4 + i % 4]
                },
        decreases oh - y,
    {
        let sy: usize = y / 4;
        let mut x: usize = 0;
        while x < ow
            invariant
                y < oh,
                x <= ow,
                sy == y / 4,
                ow == 4 * width,
                oh == 4 * height,
                rgba@.len() == 4 * (width * height) <= usize::MAX,
                out@.len() == 4 * (y * ow + x),
                forall|i: int|
                    #![trigger out@[i]]
                    0 <= i < out@.len() ==> {
                        let (px, py) = ((i / 4) % (ow as int), (i / 4) / (ow as int));
                        out@[i] == rgba@[((py / 4) * width + px / 4) * 4 + i % 4]
                    },
            decreases ow - x,
        {
            let sx: usize = x / 4;
            let ghost done = out@;
            proof {
                lemma_grid_index(sx as int, sy as int, width as int, height as int);
                assert(height * width == width * height) by (nonlinear_arith);
                lemma_pixel(x as int, y as int, ow as int);
            }
            let si: usize = (sy * width + sx) * 4;
            out.push(rgba[si]);
            out.push(rgba[si + 1]);
            out.push(rgba[si + 2]);
            out.push(rgba[si + 3]);
            proof {
                assert forall|i: int| #![trigger out@[i]] 0 <= i < out@.len() implies ({
                    let (px, py) = ((i / 4) % (ow as int), (i / 4) / (ow as int));
                    out@[i] == rgba@[((py / 4) * width + px / 4) * 4 + i % 4]
                }) by {
                    if i < done.len() {
                        assert(out@[i] == done[i]);
                    } else {
                        assert(i / 4 == y * ow + x);
                    }
                }
            }
            x = x + 1;
        }
        proof {
            assert((y + 1) * ow == y * ow + ow) by (nonlinear_arith);
        }
        let ghost earlier = bars;
        now = on_progress(now, y + 1, oh);
        proof {
            bars = bars.push(now);
            assert forall|k: int| 0 <= k < bars.len() - 1 implies #[trigger] told_one(
                bars,
                *on_progress,
                1,
                oh,
                k,
            ) by {
                if k < y {
                    assert(told_one(earlier, *on_progress, 1, oh, k));
                }
            }
        }
        y = y + 1;
    }
    proof {
        assert(oh * ow == ow * oh) by (nonlinear_arith);
    }
    ((out, ow, oh), now)
}

/// Each plane holds its own channel: sample `p` of plane `c` is made of the byte of
/// channel `c` of pixel `p`, red, green and blue in that order, and alpha is dropped.
pub proof fn law_planes_hold_their_channels<T, S: Fn(u8) -> T>(
    rgba: Seq<u8>,
    pixels: nat,
    planes: Seq<T>,
    sample: S,
    c: int,
    p: int,
)
    requires
        planes_from(rgba, pixels as int, planes, sample),
        0 <= c < 3,
        0 <= p < pixels,
    ensures
        planes.len() == 3 * pixels,
        call_ensures(sample, (rgba[4 * p + c],), planes[c * pixels + p]),
{
    lemma_pixel(p, c, pixels as int);
    lemma_grid_index(p, c, pixels as int, 3);
    let value = planes[c * pixels + p];
}

/// Each pixel is packed from its own three sums, each divided by the number of tiles
/// behind the pixel (at least one), and is opaque.
pub proof fn law_pixels_are_packed_in_place<T, Q: Fn(T, usize) -> u8>(
    out: Seq<T>,
    weight: Seq<usize>,
    pixels: nat,
    rgba: Seq<u8>,
    quantize: Q,
    p: int,
    c: int,
)
    requires
        normalized(out, weight, pixels as int, rgba, quantize),
        0 <= p < pixels,
        0 <= c < 3,
    ensures
        rgba.len() == 4 * pixels,
        rgba[4 * p + 3] == 255,
        weight[p] >= 1 ==> call_ensures(quantize, (out[3 * p + c], weight[p]), rgba[4 * p + c]),
        weight[p] == 0 ==> call_ensures(quantize, (out[3 * p + c], 1usize), rgba[4 * p + c]),
{
    let (i, a) = (4 * p + c, 4 * p + 3);
    assert(i / 4 == p && i % 4 == c && a / 4 == p && a % 4 == 3);
    let (x, y) = (rgba[i], rgba[a]);
}

/// A tile lands where it belongs: its sample at column `x`, row `y` of channel `c` is
/// added to the sum of that channel at column `ox + x`, row `oy + y`.
pub proof fn law_tile_lands_in_place<T, A: Fn(T, T) -> T>(
    before: Seq<T>,
    after: Seq<T>,
    vals: Seq<T>,
    th: int,
    tw: int,
    width: int,
    ox: int,
    oy: int,
    sum: A,
    c: int,
    x: int,
    y: int,
)
    requires
        tile_added(before, after, vals, th, tw, width, ox, oy, sum),
        0 <= c < 3,
        0 <= x < tw,
        0 <= y < th,
        ox >= 0,
        oy >= 0,
        ox + tw <= width,
        3 * ((oy + th) * width) <= before.len(),
    ensures
        ({
            let at = 3 * ((oy + y) * width + (ox + x)) + c;
            &&& 0 <= at < after.len()
            &&& call_ensures(sum, (before[at], vals[c * (th * tw) + (y * tw + x)]), after[at])
        }),
{
    let px = (oy + y) * width + (ox + x);
    let at = 3 * px + c;
    lemma_grid_index(ox + x, oy + y, width, oy + th);
    lemma_pixel(ox + x, oy + y, width);
    assert(at / 3 == px && at % 3 == c);
    let value = after[at];
}

/// A tile touches nothing outside of it, and counts each pixel in it once.
pub proof fn law_tile_touches_nothing_else<T, A: Fn(T, T) -> T>(
    before: Seq<T>,
    after: Seq<T>,
    vals: Seq<T>,
    counts: Seq<usize>,
    counted: Seq<usize>,
    th: int,
    tw: int,
    width: int,
    ox: int,
    oy: int,
    sum: A,
    c: int,
    x: int,
    y: int,
)
    requires
        tile_added(before, after, vals, th, tw, width, ox, oy, sum),
        tile_counted(counts, counted, th, tw, width, ox, oy),
        before.len() == 3 * counts.len(),
        0 <= c < 3,
        0 <= x < width,
        0 <= y,
        (y + 1) * width <= counts.len(),
    ensures
        ({
            let px = y * width + x;
            let inside = ox <= x && x < ox + tw && oy <= y && y < oy + th;
            &&& 0 <= px < counted.len() == counts.len()
            &&& after.len() == before.len()
            &&& !inside ==> after[3 * px + c] == before[3 * px + c] && counted[px] == counts[px]
            &&& inside ==> counted[px] == counts[px] + 1
        }),
{
    let px = y * width + x;
    lemma_grid_index(x, y, width, y + 1);
    lemma_pixel(x, y, width);
    let i = 3 * px + c;
    assert(i / 3 == px && i % 3 == c);
    let (a, b) = (after[i], counted[px]);
}

/// The numbers told go up by one from the first to the last, all against the same
/// total, each to the state that the one before it left.
pub proof fn law_progress_counts_up<H, P: Fn(H, usize, usize) -> H>(
    on_progress: P,
    bar: H,
    from: int,
    to: int,
    total: usize,
    end: H,
)
    requires
        told_through(on_progress, bar, from, to, total, end),
        from <= to + 1,
    ensures
        from == to + 1 ==> end == bar,
        from <= to ==> exists|next: H| #[trigger]
            call_ensures(on_progress, (bar, from as usize, total), next) && told_through(
                on_progress,
                next,
                from + 1,
                to,
                total,
                end,
            ),
{
    let bars = choose|bars: Seq<H>| #[trigger]
        told(bars, on_progress, from, total) && bars.len() == to - from + 2 && bars[0] == bar
            && bars.last() == end;
    if from <= to {
        let rest = bars.drop_first();
        assert(told_one(bars, on_progress, from, total, 0));
        assert forall|k: int| 0 <= k < rest.len() - 1 implies #[trigger] told_one(
            rest,
            on_progress,
            from + 1,
            total,
            k,
        ) by {
            assert(told_one(bars, on_progress, from, total, k + 1));
        }
        assert(told(rest, on_progress, from + 1, total));
        assert(rest.last() == end);
        assert(told_through(on_progress, bars[1], from + 1, to, total, end));
    }
}

} // verus!
