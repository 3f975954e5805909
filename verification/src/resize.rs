//! Separable four-tap resampling of planar buffers.
//!
//! Where the taps of an output sample lie and what they weigh is handed in; this
//! module fixes which source samples are combined, in which order, with
//! out-of-range taps clamped to the nearest edge.

use vstd::prelude::*;

use crate::pixels::lemma_grid_index;
use crate::pixels::lemma_pixel;

verus! {

/// Clamps a tap position to the samples there are.
pub open spec fn clamped(i: int, len: int) -> int {
    if i < 0 { 0 } else if i >= len { len - 1 } else { i }
}

/// Clamps a tap index to `0..len`.
pub fn clamp_idx(i: isize, len: usize) -> (at: usize)
    requires
        1 <= len <= isize::MAX,
    ensures
        at == clamped(i as int, len as int),
        at < len,
{
    if i < 0 {
        0
    } else if i as usize >= len {
        len - 1
    } else {
        i as usize
    }
}

/// Per output sample along one axis: the leftmost tap and the four tap weights.
pub struct AxisPlan<W> {
    pub base: Vec<isize>,
    pub weights: Vec<[W; 4]>,
}

impl<W: Copy> AxisPlan<W> {
    /// One entry of each kind per output sample, and the four taps of each can be
    /// numbered.
    pub open spec fn wf(&self) -> bool {
        &&& self.base@.len() == self.weights@.len()
        &&& forall|o: int| 0 <= o < self.base@.len() ==> #[trigger] self.base@[o] <= isize::MAX - 3
    }

    /// Builds the plan for `out_len` samples; `tap` gives the leftmost tap and the
    /// weights of each.
    pub fn new<F: Fn(usize) -> (isize, [W; 4])>(out_len: usize, tap: &F) -> (plan: Self)
        requires
            forall|o: usize| o < out_len ==> call_requires(*tap, (o,)),
            forall|o: usize, r: (isize, [W; 4])|
                o < out_len && #[trigger] call_ensures(*tap, (o,), r) ==> r.0 <= isize::MAX - 3,
        ensures
            plan.wf(),
            plan.base@.len() == out_len,
            forall|o: int|
                #![trigger plan.base@[o]]
                0 <= o < out_len ==> call_ensures(
                    *tap,
                    (o as usize,),
                    (plan.base@[o], plan.weights@[o]),
                ),
    {
        let mut base: Vec<isize> = Vec::new();
        let mut weights: Vec<[W; 4]> = Vec::new();
        let mut o: usize = 0;
        while o < out_len
            invariant
                o <= out_len,
                base@.len() == o,
                weights@.len() == o,
                forall|o: usize| o < out_len ==> call_requires(*tap, (o,)),
                forall|o: usize, r: (isize, [W; 4])|
                    o < out_len && #[trigger] call_ensures(*tap, (o,), r) ==> r.0 <= isize::MAX
                        - 3,
                forall|k: int|
                    #![trigger base@[k]]
                    0 <= k < o ==> call_ensures(*tap, (k as usize,), (base@[k], weights@[k]))
                        && base@[k] <= isize::MAX - 3,
            decreases out_len - o,
        {
            let entry: (isize, [W; 4]) = tap(o);
            base.push(entry.0);
            weights.push(entry.1);
            assert(call_ensures(*tap, (o,), (base@[o as int], weights@[o as int])));
            o = o + 1;
        }
        AxisPlan { base, weights }
    }
}

/// `r` is what comes of running the four taps through `step` from `start`, in
/// order, and finishing with `done`.
pub open spec fn tapped<T, W, A, F: Fn(A, W, T) -> A, G: Fn(A) -> T>(
    start: A,
    weights: [W; 4],
    s0: T,
    s1: T,
    s2: T,
    s3: T,
    step: F,
    done: G,
    r: T,
) -> bool {
    exists|a1: A, a2: A, a3: A, a4: A|
        {
            &&& #[trigger] call_ensures(step, (start, weights@[0], s0), a1)
            &&& #[trigger] call_ensures(step, (a1, weights@[1], s1), a2)
            &&& #[trigger] call_ensures(step, (a2, weights@[2], s2), a3)
            &&& #[trigger] call_ensures(step, (a3, weights@[3], s3), a4)
            &&& call_ensures(done, (a4,), r)
        }
}

/// Runs four taps.
fn run_taps<T: Copy, W: Copy, A: Copy, F: Fn(A, W, T) -> A, G: Fn(A) -> T>(
    start: A,
    weights: &[W; 4],
    s0: T,
    s1: T,
    s2: T,
    s3: T,
    step: &F,
    done: &G,
) -> (r: T)
    requires
        forall|a: A, w: W, t: T| call_requires(*step, (a, w, t)),
        forall|a: A| call_requires(*done, (a,)),
    ensures
        tapped(start, *weights, s0, s1, s2, s3, *step, *done, r),
{
    let a1: A = step(start, weights[0], s0);
    let a2: A = step(a1, weights[1], s1);
    let a3: A = step(a2, weights[2], s2);
    let a4: A = step(a3, weights[3], s3);
    done(a4)
}

/// `out` is every row of `src` (rows of `iw` samples) resampled to one sample per
/// entry of the plan.
pub open spec fn rows_resampled<T, W: Copy, A, F: Fn(A, W, T) -> A, G: Fn(A) -> T>(
    src: Seq<T>,
    rows: int,
    iw: int,
    plan: AxisPlan<W>,
    out: Seq<T>,
    start: A,
    step: F,
    done: G,
) -> bool {
    let ow = plan.base@.len() as int;
    &&& out.len() == rows * ow
    &&& forall|j: int|
        0 <= j < out.len() ==> #[trigger] row_sample(src, iw, plan, out[j], start, step, done, j)
}

/// Sample `j` of a row-wise resampling: output column `j % ow` of row `j / ow`.
pub open spec fn row_sample<T, W: Copy, A, F: Fn(A, W, T) -> A, G: Fn(A) -> T>(
    src: Seq<T>,
    iw: int,
    plan: AxisPlan<W>,
    value: T,
    start: A,
    step: F,
    done: G,
    j: int,
) -> bool {
    let ow = plan.base@.len() as int;
    let (row, ox) = (j / ow, j % ow);
    let b = plan.base@[ox] as int;
    tapped(
        start,
        plan.weights@[ox],
        src[row * iw + clamped(b, iw)],
        src[row * iw + clamped(b + 1, iw)],
        src[row * iw + clamped(b + 2, iw)],
        src[row * iw + clamped(b + 3, iw)],
        step,
        done,
        value,
    )
}

/// `out` is every column of the `c` planes of `src` (`ih` rows of `ow` samples
/// each) resampled to one sample per entry of the plan.
pub open spec fn columns_resampled<T, W: Copy, A, F: Fn(A, W, T) -> A, G: Fn(A) -> T>(
    src: Seq<T>,
    c: int,
    ih: int,
    ow: int,
    plan: AxisPlan<W>,
    out: Seq<T>,
    start: A,
    step: F,
    done: G,
) -> bool {
    let oh = plan.base@.len() as int;
    &&& out.len() == c * (oh * ow)
    &&& forall|j: int|
        0 <= j < out.len() ==> #[trigger] column_sample(
            src,
            ih,
            ow,
            plan,
            out[j],
            start,
            step,
            done,
            j,
        )
}

/// Sample `j` of a column-wise resampling.
pub open spec fn column_sample<T, W: Copy, A, F: Fn(A, W, T) -> A, G: Fn(A) -> T>(
    src: Seq<T>,
    ih: int,
    ow: int,
    plan: AxisPlan<W>,
    value: T,
    start: A,
    step: F,
    done: G,
    j: int,
) -> bool {
    let oh = plan.base@.len() as int;
    let (ch, at) = (j / (oh * ow), j % (oh * ow));
    let (oy, ox) = (at / ow, at % ow);
    let b = plan.base@[oy] as int;
    tapped(
        start,
        plan.weights@[oy],
        src[ch * (ih * ow) + clamped(b, ih) * ow + ox],
        src[ch * (ih * ow) + clamped(b + 1, ih) * ow + ox],
        src[ch * (ih * ow) + clamped(b + 2, ih) * ow + ox],
        src[ch * (ih * ow) + clamped(b + 3, ih) * ow + ox],
        step,
        done,
        value,
    )
}

/// Resamples every row.
fn resample_rows<T: Copy, W: Copy, A: Copy, F: Fn(A, W, T) -> A, G: Fn(A) -> T>(
    src: &[T],
    rows: usize,
    iw: usize,
    plan: &AxisPlan<W>,
    start: A,
    step: &F,
    done: &G,
) -> (out: Vec<T>)
    requires
        forall|a: A, w: W, t: T| call_requires(*step, (a, w, t)),
        forall|a: A| call_requires(*done, (a,)),
        plan.wf(),
        src@.len() == rows * iw,
        iw <= isize::MAX,
        rows > 0 && plan.base@.len() > 0 ==> iw >= 1,
    ensures
        rows_resampled(src@, rows as int, iw as int, *plan, out@, start, *step, *done),
{
    let mut out: Vec<T> = Vec::new();
    let ghost ow = plan.base@.len() as int;
    assert(0 * ow == 0);
    assert(src@.len() == src.len());
    let mut row: usize = 0;
    while row < rows
        invariant
            row <= rows,
            ow == plan.base@.len(),
            forall|a: A, w: W, t: T| call_requires(*step, (a, w, t)),
            forall|a: A| call_requires(*done, (a,)),
            plan.wf(),
            src@.len() == rows * iw <= usize::MAX,
            iw <= isize::MAX,
            rows > 0 && ow > 0 ==> iw >= 1,
            out@.len() == row * ow,
            forall|j: int|
                0 <= j < out@.len() ==> #[trigger] row_sample(
                    src@,
                    iw as int,
                    *plan,
                    out@[j],
                    start,
                    *step,
                    *done,
                    j,
                ),
        decreases rows - row,
    {
        let mut ox: usize = 0;
        while ox < plan.base.len()
            invariant
                row < rows,
                ox <= ow == plan.base@.len(),
                forall|a: A, w: W, t: T| call_requires(*step, (a, w, t)),
                forall|a: A| call_requires(*done, (a,)),
                plan.wf(),
                src@.len() == rows * iw <= usize::MAX,
                iw <= isize::MAX,
                rows > 0 && ow > 0 ==> iw >= 1,
                out@.len() == row * ow + ox,
                forall|j: int|
                    0 <= j < out@.len() ==> #[trigger] row_sample(
                        src@,
                        iw as int,
                        *plan,
                        out@[j],
                        start,
                        *step,
                        *done,
                        j,
                    ),
            decreases ow - ox,
        {
            let b: isize = plan.base[ox];
            let i0: usize = clamp_idx(b, iw);
            let i1: usize = clamp_idx(b + 1, iw);
            let i2: usize = clamp_idx(b + 2, iw);
            let i3: usize = clamp_idx(b + 3, iw);
            proof {
                lemma_grid_index(i0 as int, row as int, iw as int, rows as int);
                lemma_grid_index(i1 as int, row as int, iw as int, rows as int);
                lemma_grid_index(i2 as int, row as int, iw as int, rows as int);
                lemma_grid_index(i3 as int, row as int, iw as int, rows as int);
                lemma_pixel(ox as int, row as int, ow);
            }
            let at: usize = row * iw;
            let ghost before = out@;
            let value: T = run_taps(
                start,
                &plan.weights[ox],
                src[at + i0],
                src[at + i1],
                src[at + i2],
                src[at + i3],
                step,
                done,
            );
            out.push(value);
            proof {
                assert forall|j: int| 0 <= j < out@.len() implies #[trigger] row_sample(
                    src@,
                    iw as int,
                    *plan,
                    out@[j],
                    start,
                    *step,
                    *done,
                    j,
                ) by {
                    if j < before.len() {
                        assert(out@[j] == before[j]);
                        assert(row_sample(
                            src@,
                            iw as int,
                            *plan,
                            before[j],
                            start,
                            *step,
                            *done,
                            j,
                        ));
                    }
                }
            }
            ox = ox + 1;
        }
        proof {
            assert((row + 1) * ow == row * ow + ow) by (nonlinear_arith);
        }
        row = row + 1;
    }
    out
}

/// Resamples every column of every plane.
fn resample_columns<T: Copy, W: Copy, A: Copy, F: Fn(A, W, T) -> A, G: Fn(A) -> T>(
    src: &[T],
    c: usize,
    ih: usize,
    ow: usize,
    plan: &AxisPlan<W>,
    start: A,
    step: &F,
    done: &G,
) -> (out: Vec<T>)
    requires
        forall|a: A, w: W, t: T| call_requires(*step, (a, w, t)),
        forall|a: A| call_requires(*done, (a,)),
        plan.wf(),
        src@.len() == c * (ih * ow),
        ih <= isize::MAX,
        c > 0 && ow > 0 && plan.base@.len() > 0 ==> ih >= 1,
    ensures
        columns_resampled(src@, c as int, ih as int, ow as int, *plan, out@, start, *step, *done),
{
    let mut out: Vec<T> = Vec::new();
    let ghost oh = plan.base@.len() as int;
    let ghost size = oh * ow;
    let ghost full = ih * ow;
    assert(0 * size == 0);
    assert(src@.len() == src.len());
    let mut ch: usize = 0;
    while ch < c
        invariant
            ch <= c,
            oh == plan.base@.len(),
            size == oh * ow,
            full == ih * ow,
            forall|a: A, w: W, t: T| call_requires(*step, (a, w, t)),
            forall|a: A| call_requires(*done, (a,)),
            plan.wf(),
            src@.len() == c * full <= usize::MAX,
            ih <= isize::MAX,
            c > 0 && ow > 0 && oh > 0 ==> ih >= 1,
            out@.len() == ch * size,
            forall|j: int|
                0 <= j < out@.len() ==> #[trigger] column_sample(
                    src@,
                    ih as int,
                    ow as int,
                    *plan,
                    out@[j],
                    start,
                    *step,
                    *done,
                    j,
                ),
        decreases c - ch,
    {
        let mut oy: usize = 0;
        assert(0 * ow == 0);
        while oy < plan.base.len()
            invariant
                ch < c,
                oy <= oh == plan.base@.len(),
                size == oh * ow,
                full == ih * ow,
                forall|a: A, w: W, t: T| call_requires(*step, (a, w, t)),
                forall|a: A| call_requires(*done, (a,)),
                plan.wf(),
                src@.len() == c * full <= usize::MAX,
                ih <= isize::MAX,
                c > 0 && ow > 0 && oh > 0 ==> ih >= 1,
                out@.len() == ch * size + oy * ow,
                forall|j: int|
                    0 <= j < out@.len() ==> #[trigger] column_sample(
                        src@,
                        ih as int,
                        ow as int,
                        *plan,
                        out@[j],
                        start,
                        *step,
                        *done,
                        j,
                    ),
            decreases oh - oy,
        {
            let b: isize = plan.base[oy];
            let mut ox: usize = 0;
            while ox < ow
                invariant
                    ch < c,
                    oy < oh == plan.base@.len(),
                    ox <= ow,
                    b == plan.base@[oy as int],
                    size == oh * ow,
                    full == ih * ow,
                    forall|a: A, w: W, t: T| call_requires(*step, (a, w, t)),
                    forall|a: A| call_requires(*done, (a,)),
                    plan.wf(),
                    src@.len() == c * full <= usize::MAX,
                    ih <= isize::MAX,
                    c > 0 && ow > 0 && oh > 0 ==> ih >= 1,
                    out@.len() == ch * size + (oy * ow + ox),
                    forall|j: int|
                        0 <= j < out@.len() ==> #[trigger] column_sample(
                            src@,
                            ih as int,
                            ow as int,
                            *plan,
                            out@[j],
                            start,
                            *step,
                            *done,
                            j,
                        ),
                decreases ow - ox,
            {
                let i0: usize = clamp_idx(b, ih);
                let i1: usize = clamp_idx(b + 1, ih);
                let i2: usize = clamp_idx(b + 2, ih);
                let i3: usize = clamp_idx(b + 3, ih);
                proof {
                    lemma_column_index(ch as int, c as int, i0 as int, ih as int, ox as int, ow as int);
                    lemma_column_index(ch as int, c as int, i1 as int, ih as int, ox as int, ow as int);
                    lemma_column_index(ch as int, c as int, i2 as int, ih as int, ox as int, ow as int);
                    lemma_column_index(ch as int, c as int, i3 as int, ih as int, ox as int, ow as int);
                    lemma_grid_index(ox as int, oy as int, ow as int, oh);
                    lemma_pixel(oy * ow + ox, ch as int, size);
                    lemma_pixel(ox as int, oy as int, ow as int);
                }
                let plane: usize = ih * ow;
                let at: usize = ch * plane;
                let ghost before = out@;
                let value: T = run_taps(
                    start,
                    &plan.weights[oy],
                    src[at + i0 * ow + ox],
                    src[at + i1 * ow + ox],
                    src[at + i2 * ow + ox],
                    src[at + i3 * ow + ox],
                    step,
                    done,
                );
                out.push(value);
                proof {
                    assert forall|j: int| 0 <= j < out@.len() implies #[trigger] column_sample(
                        src@,
                        ih as int,
                        ow as int,
                        *plan,
                        out@[j],
                        start,
                        *step,
                        *done,
                        j,
                    ) by {
                        if j < before.len() {
                            assert(out@[j] == before[j]);
                            assert(column_sample(
                                src@,
                                ih as int,
                                ow as int,
                                *plan,
                                before[j],
                                start,
                                *step,
                                *done,
                                j,
                            ));
                        }
                    }
                }
                ox = ox + 1;
            }
            proof {
                assert((oy + 1) * ow == oy * ow + ow) by (nonlinear_arith);
            }
            oy = oy + 1;
        }
        proof {
            assert((ch + 1) * size == ch * size + size) by (nonlinear_arith);
        }
        ch = ch + 1;
    }
    out
}

/// A row, a column and a plane of a buffer name a sample of it.
proof fn lemma_column_index(ch: int, c: int, i: int, ih: int, ox: int, ow: int)
    requires
        0 <= ch < c,
        0 <= i < ih,
        0 <= ox < ow,
    ensures
        0 <= ch * (ih * ow),
        0 <= i * ow,
        ih * ow <= c * (ih * ow),
        ch * (ih * ow) + i * ow + ox < c * (ih * ow),
{
    lemma_grid_index(ox, i, ow, ih);
    lemma_grid_index(i * ow + ox, ch, ih * ow, c);
    assert(ih * ow <= c * (ih * ow)) by (nonlinear_arith)
        requires
            c >= 1,
            ih >= 0,
            ow >= 0,
    ;
}

/// `out` is the planar buffer `src` resampled along its rows by `hplan`, then
/// along its columns by `vplan`.
pub open spec fn resampled<T, W: Copy, A, F: Fn(A, W, T) -> A, G: Fn(A) -> T>(
    src: Seq<T>,
    c: int,
    ih: int,
    iw: int,
    hplan: AxisPlan<W>,
    vplan: AxisPlan<W>,
    out: Seq<T>,
    start: A,
    step: F,
    done: G,
) -> bool {
    exists|wide: Seq<T>|
        #![auto]
        rows_resampled(src, c * ih, iw, hplan, wide, start, step, done) && columns_resampled(
            wide,
            c,
            ih,
            hplan.base@.len() as int,
            vplan,
            out,
            start,
            step,
            done,
        )
}

/// Resamples a planar `[c, ih, iw]` buffer to one column per entry of `hplan` and
/// one row per entry of `vplan`: rows first, then columns.
pub fn bicubic_chw<T: Copy, W: Copy, A: Copy, F: Fn(A, W, T) -> A, G: Fn(A) -> T>(
    src: &[T],
    c: usize,
    ih: usize,
    iw: usize,
    hplan: &AxisPlan<W>,
    vplan: &AxisPlan<W>,
    start: A,
    step: &F,
    done: &G,
) -> (out: Vec<T>)
    requires
        forall|a: A, w: W, t: T| call_requires(*step, (a, w, t)),
        forall|a: A| call_requires(*done, (a,)),
        hplan.wf(),
        vplan.wf(),
        src@.len() == c * (ih * iw),
        c * ih <= usize::MAX,
        ih <= isize::MAX,
        iw <= isize::MAX,
        c * ih > 0 && hplan.base@.len() > 0 ==> iw >= 1,
        c > 0 && hplan.base@.len() > 0 && vplan.base@.len() > 0 ==> ih >= 1,
    ensures
        resampled(
            src@,
            c as int,
            ih as int,
            iw as int,
            *hplan,
            *vplan,
            out@,
            start,
            *step,
            *done,
        ),
        out@.len() == c * (vplan.base@.len() * hplan.base@.len()),
{
    proof {
        assert(c * (ih * iw) == (c * ih) * iw) by (nonlinear_arith);
    }
    let wide: Vec<T> = resample_rows(src, c * ih, iw, hplan, start, step, done);
    proof {
        let ow = hplan.base@.len() as int;
        assert(c * (ih * ow) == (c * ih) * ow) by (nonlinear_arith);
    }
    resample_columns(
        wide.as_slice(),
        c,
        ih,
        hplan.base.len(),
        vplan,
        start,
        step,
        done,
    )
}

/// Taps run through functions that give one result give one result.
proof fn lemma_tapped_decided<T, W, A, F: Fn(A, W, T) -> A, G: Fn(A) -> T>(
    start: A,
    weights: [W; 4],
    s0: T,
    s1: T,
    s2: T,
    s3: T,
    step: F,
    done: G,
    x: T,
    y: T,
)
    requires
        crate::pixels::decided3::<A, W, T, A, F>(step),
        crate::pixels::decided1::<A, T, G>(done),
        tapped(start, weights, s0, s1, s2, s3, step, done, x),
        tapped(start, weights, s0, s1, s2, s3, step, done, y),
    ensures
        x == y,
{
}

/// With functions that give one result, and plans of the same taps, there is one way
/// to resample a buffer.
pub proof fn lemma_resampled_decided<T, W: Copy, A, F: Fn(A, W, T) -> A, G: Fn(A) -> T>(
    src: Seq<T>,
    c: int,
    ih: int,
    iw: int,
    x_hplan: AxisPlan<W>,
    x_vplan: AxisPlan<W>,
    y_hplan: AxisPlan<W>,
    y_vplan: AxisPlan<W>,
    x: Seq<T>,
    y: Seq<T>,
    start: A,
    step: F,
    done: G,
)
    requires
        crate::pixels::decided3::<A, W, T, A, F>(step),
        crate::pixels::decided1::<A, T, G>(done),
        x_hplan.base@ == y_hplan.base@,
        x_hplan.weights@ == y_hplan.weights@,
        x_vplan.base@ == y_vplan.base@,
        x_vplan.weights@ == y_vplan.weights@,
        resampled(src, c, ih, iw, x_hplan, x_vplan, x, start, step, done),
        resampled(src, c, ih, iw, y_hplan, y_vplan, y, start, step, done),
    ensures
        x == y,
{
    let ow = x_hplan.base@.len() as int;
    let oh = x_vplan.base@.len() as int;
    let x_wide = choose|wide: Seq<T>|
        #![auto]
        rows_resampled(src, c * ih, iw, x_hplan, wide, start, step, done) && columns_resampled(
            wide,
            c,
            ih,
            ow,
            x_vplan,
            x,
            start,
            step,
            done,
        );
    let y_wide = choose|wide: Seq<T>|
        #![auto]
        rows_resampled(src, c * ih, iw, y_hplan, wide, start, step, done) && columns_resampled(
            wide,
            c,
            ih,
            ow,
            y_vplan,
            y,
            start,
            step,
            done,
        );
    assert forall|j: int| 0 <= j < x_wide.len() implies x_wide[j] == y_wide[j] by {
        assert(row_sample(src, iw, x_hplan, x_wide[j], start, step, done, j));
        assert(row_sample(src, iw, y_hplan, y_wide[j], start, step, done, j));
        let (row, ox) = (j / ow, j % ow);
        let b = x_hplan.base@[ox] as int;
        lemma_tapped_decided(
            start,
            x_hplan.weights@[ox],
            src[row * iw + clamped(b, iw)],
            src[row * iw + clamped(b + 1, iw)],
            src[row * iw + clamped(b + 2, iw)],
            src[row * iw + clamped(b + 3, iw)],
            step,
            done,
            x_wide[j],
            y_wide[j],
        );
    }
    assert(x_wide =~= y_wide);
    assert forall|j: int| 0 <= j < x.len() implies x[j] == y[j] by {
        assert(column_sample(x_wide, ih, ow, x_vplan, x[j], start, step, done, j));
        assert(column_sample(y_wide, ih, ow, y_vplan, y[j], start, step, done, j));
        let (ch, at) = (j / (oh * ow), j % (oh * ow));
        let (oy, ox) = (at / ow, at % ow);
        let b = x_vplan.base@[oy] as int;
        lemma_tapped_decided(
            start,
            x_vplan.weights@[oy],
            x_wide[ch * (ih * ow) + clamped(b, ih) * ow + ox],
            x_wide[ch * (ih * ow) + clamped(b + 1, ih) * ow + ox],
            x_wide[ch * (ih * ow) + clamped(b + 2, ih) * ow + ox],
            x_wide[ch * (ih * ow) + clamped(b + 3, ih) * ow + ox],
            step,
            done,
            x[j],
            y[j],
        );
    }
    assert(x =~= y);
}

/// A position is the sample nearest to a tap.
pub open spec fn nearest(at: int, tap: int, len: int) -> bool {
    &&& 0 <= at < len
    &&& 0 <= tap < len ==> at == tap
    &&& tap < 0 ==> at == 0
    &&& tap >= len ==> at == len - 1
}

/// Where a tap lies among the samples, the sample there is read, else the nearest one.
pub proof fn law_taps_are_clamped(tap: int, len: int, other: int)
    requires
        len >= 1,
        0 <= other < len,
    ensures
        0 <= clamped(tap, len) < len,
        0 <= tap < len ==> clamped(tap, len) == tap,
        tap < 0 ==> clamped(tap, len) - tap <= other - tap,
        tap >= len ==> tap - clamped(tap, len) <= tap - other,
{
}

/// An output sample of a row is made of four samples of that very row: those at the
/// plan's leftmost tap for it and at the three next, the nearest one where a tap lies
/// outside, each weighed with its own weight of the plan's entry for that sample, from
/// left to right.
pub proof fn law_row_samples<T, W: Copy, A, F: Fn(A, W, T) -> A, G: Fn(A) -> T>(
    src: Seq<T>,
    rows: int,
    iw: int,
    plan: AxisPlan<W>,
    out: Seq<T>,
    start: A,
    step: F,
    done: G,
    row: int,
    o: int,
    at: Seq<int>,
)
    requires
        rows_resampled(src, rows, iw, plan, out, start, step, done),
        0 <= row < rows,
        0 <= o < plan.base@.len(),
        at.len() == 4,
        forall|i: int| 0 <= i < 4 ==> nearest(#[trigger] at[i], plan.base@[o] + i, iw),
    ensures
        0 <= row * plan.base@.len() + o < out.len(),
        exists|a: Seq<A>|
            {
                let w = plan.weights@[o]@;
                &&& #[trigger] a.len() == 5
                &&& a[0] == start
                &&& call_ensures(step, (a[0], w[0], src[row * iw + at[0]]), a[1])
                &&& call_ensures(step, (a[1], w[1], src[row * iw + at[1]]), a[2])
                &&& call_ensures(step, (a[2], w[2], src[row * iw + at[2]]), a[3])
                &&& call_ensures(step, (a[3], w[3], src[row * iw + at[3]]), a[4])
                &&& call_ensures(done, (a[4],), out[row * plan.base@.len() + o])
            },
{
    let ow = plan.base@.len() as int;
    let j = row * ow + o;
    let w = plan.weights@[o]@;
    lemma_pixel(o, row, ow);
    lemma_grid_index(o, row, ow, rows);
    assert(row_sample(src, iw, plan, out[j], start, step, done, j));
    let (p0, p1, p2, p3) = (row * iw + at[0], row * iw + at[1], row * iw + at[2], row * iw + at[3]);
    assert(tapped(
        start,
        plan.weights@[o],
        src[p0],
        src[p1],
        src[p2],
        src[p3],
        step,
        done,
        out[j],
    ));
    let (a1, a2, a3, a4) = choose|a1: A, a2: A, a3: A, a4: A|
        {
            &&& #[trigger] call_ensures(step, (start, w[0], src[p0]), a1)
            &&& #[trigger] call_ensures(step, (a1, w[1], src[p1]), a2)
            &&& #[trigger] call_ensures(step, (a2, w[2], src[p2]), a3)
            &&& #[trigger] call_ensures(step, (a3, w[3], src[p3]), a4)
            &&& call_ensures(done, (a4,), out[j])
        };
    let a = seq![start, a1, a2, a3, a4];
    assert(a.len() == 5);
}

/// A plane of `h` rows of `w` samples turned on its side: `w` rows of `h` samples.
pub open spec fn turned<T>(plane: Seq<T>, h: int, w: int) -> Seq<T> {
    Seq::new((h * w) as nat, |j: int| plane[(j % h) * w + j / h])
}

/// Resampling treats both axes alike: resampling the columns of a plane is turning it
/// on its side, resampling its rows by the same plan, and turning the result back.
pub proof fn law_columns_are_turned_rows<T, W: Copy, A, F: Fn(A, W, T) -> A, G: Fn(A) -> T>(
    src: Seq<T>,
    h: int,
    w: int,
    plan: AxisPlan<W>,
    out: Seq<T>,
    start: A,
    step: F,
    done: G,
)
    requires
        h >= 1,
        w >= 1,
        src.len() == h * w,
        out.len() == plan.base@.len() * w,
    ensures
        columns_resampled(src, 1, h, w, plan, out, start, step, done) <==> rows_resampled(
            turned(src, h, w),
            w,
            h,
            plan,
            turned(out, plan.base@.len() as int, w),
            start,
            step,
            done,
        ),
{
    let oh = plan.base@.len() as int;
    let (side, flat) = (turned(src, h, w), turned(out, oh, w));
    assert(1 * (oh * w) == oh * w);
    assert(oh * w == w * oh) by (nonlinear_arith);
    assert forall|x: int, y: int|
        #![trigger flat[x * oh + y]]
        0 <= x < w && 0 <= y < oh implies (column_sample(
        src,
        h,
        w,
        plan,
        out[y * w + x],
        start,
        step,
        done,
        y * w + x,
    ) <==> row_sample(side, h, plan, flat[x * oh + y], start, step, done, x * oh + y)) by {
        lemma_turned_sample(src, h, w, plan, out, start, step, done, x, y);
    }
    if columns_resampled(src, 1, h, w, plan, out, start, step, done) {
        assert forall|j: int| 0 <= j < flat.len() implies #[trigger] row_sample(
            side,
            h,
            plan,
            flat[j],
            start,
            step,
            done,
            j,
        ) by {
            let (x, y) = (j / oh, j % oh);
            lemma_split(j, w, oh);
            lemma_grid_index(x, y, w, oh);
            assert(j == x * oh + y);
            assert(column_sample(src, h, w, plan, out[y * w + x], start, step, done, y * w + x));
            let value = flat[x * oh + y];
        }
    }
    if rows_resampled(side, w, h, plan, flat, start, step, done) {
        assert forall|j: int| 0 <= j < out.len() implies #[trigger] column_sample(
            src,
            h,
            w,
            plan,
            out[j],
            start,
            step,
            done,
            j,
        ) by {
            let (y, x) = (j / w, j % w);
            lemma_split(j, oh, w);
            lemma_grid_index(y, x, oh, w);
            assert(j == y * w + x);
            assert(row_sample(side, h, plan, flat[x * oh + y], start, step, done, x * oh + y));
        }
    }
}

/// A number below `rows * len` is made of a row and a position in it.
proof fn lemma_split(j: int, rows: int, len: int)
    requires
        0 <= j < rows * len,
        len >= 0,
    ensures
        len >= 1,
        0 <= j / len < rows,
        0 <= j % len < len,
        j == (j / len) * len + j % len,
{
    assert(len >= 1) by (nonlinear_arith)
        requires
            0 <= j < rows * len,
            len >= 0,
    ;
    vstd::arithmetic::div_mod::lemma_fundamental_div_mod(j, len);
    vstd::arithmetic::div_mod::lemma_mod_bound(j, len);
    let (q, r) = (j / len, j % len);
    assert(len * q == q * len) by (nonlinear_arith);
    assert(0 <= q < rows) by (nonlinear_arith)
        requires
            j == q * len + r,
            0 <= r < len,
            0 <= j < rows * len,
    ;
}

/// Row `y` of column `x`, and position `y` of row `x` of the turned plane, are made of
/// the same samples with the same weights.
proof fn lemma_turned_sample<T, W: Copy, A, F: Fn(A, W, T) -> A, G: Fn(A) -> T>(
    src: Seq<T>,
    h: int,
    w: int,
    plan: AxisPlan<W>,
    out: Seq<T>,
    start: A,
    step: F,
    done: G,
    x: int,
    y: int,
)
    requires
        h >= 1,
        w >= 1,
        src.len() == h * w,
        out.len() == plan.base@.len() * w,
        0 <= x < w,
        0 <= y < plan.base@.len(),
    ensures
        ({
            let oh = plan.base@.len() as int;
            let (side, flat) = (turned(src, h, w), turned(out, oh, w));
            column_sample(src, h, w, plan, out[y * w + x], start, step, done, y * w + x)
                <==> row_sample(side, h, plan, flat[x * oh + y], start, step, done, x * oh + y)
        }),
{
    let oh = plan.base@.len() as int;
    let (side, flat) = (turned(src, h, w), turned(out, oh, w));
    let b = plan.base@[y] as int;
    lemma_pixel(y, x, oh);
    lemma_grid_index(y, x, oh, w);
    lemma_pixel(x, y, w);
    lemma_grid_index(x, y, w, oh);
    assert(oh * w == w * oh && h * w == w * h) by (nonlinear_arith);
    assert(flat[x * oh + y] == out[y * w + x]);
    lemma_pixel(y * w + x, 0, oh * w);
    assert(0 * (oh * w) == 0 && 0 * (h * w) == 0);
    assert forall|i: int| 0 <= i < h implies #[trigger] side[x * h + i] == src[i * w + x] by {
        lemma_pixel(i, x, h);
        lemma_grid_index(i, x, h, w);
    }
    let (i0, i1, i2, i3) = (clamped(b, h), clamped(b + 1, h), clamped(b + 2, h), clamped(b + 3, h));
    assert(side[x * h + i0] == src[i0 * w + x]);
    assert(side[x * h + i1] == src[i1 * w + x]);
    assert(side[x * h + i2] == src[i2 * w + x]);
    assert(side[x * h + i3] == src[i3 * w + x]);
}

/// A plane of one column resampled along its columns gives the samples that the plane
/// of one row that holds the same samples gives, resampled along its rows by the same
/// plan. So each output row is combined with the weights that the plan holds for it.
pub proof fn law_column_is_a_row<T, W: Copy, A, F: Fn(A, W, T) -> A, G: Fn(A) -> T>(
    src: Seq<T>,
    plan: AxisPlan<W>,
    out: Seq<T>,
    start: A,
    step: F,
    done: G,
)
    requires
        src.len() >= 1,
    ensures
        columns_resampled(src, 1, src.len() as int, 1, plan, out, start, step, done)
            <==> rows_resampled(src, 1, src.len() as int, plan, out, start, step, done),
{
    let (h, oh) = (src.len() as int, plan.base@.len() as int);
    assert(1 * (oh * 1) == oh && 1 * oh == oh && h * 1 == h);
    if out.len() == oh {
        assert(turned(src, h, 1) =~= src) by {
            assert forall|j: int| 0 <= j < h implies turned(src, h, 1)[j] == src[j] by {
                vstd::arithmetic::div_mod::lemma_small_mod(j as nat, h as nat);
                vstd::arithmetic::div_mod::lemma_basic_div(j, h);
            }
        }
        assert(turned(out, oh, 1) =~= out) by {
            assert forall|j: int| 0 <= j < oh implies turned(out, oh, 1)[j] == out[j] by {
                vstd::arithmetic::div_mod::lemma_small_mod(j as nat, oh as nat);
                vstd::arithmetic::div_mod::lemma_basic_div(j, oh);
            }
        }
        law_columns_are_turned_rows(src, h, 1, plan, out, start, step, done);
    }
}

/// Plane `ch` of a planar buffer of planes of `size` samples.
pub open spec fn plane_of<T>(buffer: Seq<T>, ch: int, size: int) -> Seq<T> {
    buffer.subrange(ch * size, (ch + 1) * size)
}

/// Planes do not mix: each plane of a resampled buffer is that plane of the buffer
/// resampled on its own, first along its rows, then along its columns.
pub proof fn law_planes_are_resampled_apart<T, W: Copy, A, F: Fn(A, W, T) -> A, G: Fn(A) -> T>(
    src: Seq<T>,
    c: int,
    ih: int,
    iw: int,
    hplan: AxisPlan<W>,
    vplan: AxisPlan<W>,
    out: Seq<T>,
    start: A,
    step: F,
    done: G,
    ch: int,
)
    requires
        0 <= ch < c,
        ih >= 1,
        iw >= 1,
        src.len() == c * (ih * iw),
        resampled(src, c, ih, iw, hplan, vplan, out, start, step, done),
    ensures
        out.len() == c * (vplan.base@.len() * hplan.base@.len()),
        resampled(
            plane_of(src, ch, ih * iw),
            1,
            ih,
            iw,
            hplan,
            vplan,
            plane_of(out, ch, (vplan.base@.len() * hplan.base@.len()) as int),
            start,
            step,
            done,
        ),
{
    let (oh, ow) = (vplan.base@.len() as int, hplan.base@.len() as int);
    let (full, mid, size) = (ih * iw, ih * ow, oh * ow);
    let wide = choose|wide: Seq<T>|
        #![auto]
        rows_resampled(src, c * ih, iw, hplan, wide, start, step, done) && columns_resampled(
            wide,
            c,
            ih,
            ow,
            vplan,
            out,
            start,
            step,
            done,
        );
    assert((c * ih) * ow == c * mid) by (nonlinear_arith)
        requires
            mid == ih * ow,
    ;
    assert(full >= 0 && mid >= 0 && size >= 0) by (nonlinear_arith)
        requires
            full == ih * iw,
            mid == ih * ow,
            size == oh * ow,
            ih >= 1,
            iw >= 1,
            ow >= 0,
            oh >= 0,
    ;
    lemma_plane_bounds(ch, c, full);
    lemma_plane_bounds(ch, c, mid);
    lemma_plane_bounds(ch, c, size);
    let (s1, w1, o1) = (
        plane_of(src, ch, full),
        plane_of(wide, ch, mid),
        plane_of(out, ch, size),
    );
    assert(1 * ih == ih && 1 * size == size);
    assert forall|j: int| 0 <= j < w1.len() implies #[trigger] row_sample(
        s1,
        iw,
        hplan,
        w1[j],
        start,
        step,
        done,
        j,
    ) by {
        let (row, ox) = (j / ow, j % ow);
        lemma_split(j, ih, ow);
        let k = ch * mid + j;
        assert(k == (ch * ih + row) * ow + ox) by (nonlinear_arith)
            requires
                k == ch * mid + j,
                mid == ih * ow,
                j == row * ow + ox,
        ;
        lemma_pixel(ox, ch * ih + row, ow);
        assert(row_sample(src, iw, hplan, wide[k], start, step, done, k));
        assert(w1[j] == wide[k]);
        let b = hplan.base@[ox] as int;
        assert forall|i: int| 0 <= i < iw implies #[trigger] s1[row * iw + i] == src[(ch * ih + row)
            * iw + i] by {
            lemma_grid_index(i, row, iw, ih);
            assert((ch * ih + row) * iw + i == ch * full + (row * iw + i)) by (nonlinear_arith)
                requires
                    full == ih * iw,
            ;
        }
        let (i0, i1) = (clamped(b, iw), clamped(b + 1, iw));
        let (i2, i3) = (clamped(b + 2, iw), clamped(b + 3, iw));
        assert(s1[row * iw + i0] == src[(ch * ih + row) * iw + i0]);
        assert(s1[row * iw + i1] == src[(ch * ih + row) * iw + i1]);
        assert(s1[row * iw + i2] == src[(ch * ih + row) * iw + i2]);
        assert(s1[row * iw + i3] == src[(ch * ih + row) * iw + i3]);
    }
    assert(rows_resampled(s1, 1 * ih, iw, hplan, w1, start, step, done));
    assert forall|j: int| 0 <= j < o1.len() implies #[trigger] column_sample(
        w1,
        ih,
        ow,
        vplan,
        o1[j],
        start,
        step,
        done,
        j,
    ) by {
        let (oy, ox) = (j / ow, j % ow);
        lemma_split(j, oh, ow);
        let k = ch * size + j;
        lemma_pixel(j, ch, size);
        lemma_pixel(j, 0, size);
        assert(0 * size == 0 && 0 * mid == 0);
        assert(column_sample(wide, ih, ow, vplan, out[k], start, step, done, k));
        assert(o1[j] == out[k]);
        let b = vplan.base@[oy] as int;
        assert forall|i: int| 0 <= i < ih implies #[trigger] w1[i * ow + ox] == wide[ch * mid + i
            * ow + ox] by {
            lemma_grid_index(ox, i, ow, ih);
        }
        let (i0, i1) = (clamped(b, ih), clamped(b + 1, ih));
        let (i2, i3) = (clamped(b + 2, ih), clamped(b + 3, ih));
        assert(w1[i0 * ow + ox] == wide[ch * mid + i0 * ow + ox]);
        assert(w1[i1 * ow + ox] == wide[ch * mid + i1 * ow + ox]);
        assert(w1[i2 * ow + ox] == wide[ch * mid + i2 * ow + ox]);
        assert(w1[i3 * ow + ox] == wide[ch * mid + i3 * ow + ox]);
    }
    assert(columns_resampled(w1, 1, ih, ow, vplan, o1, start, step, done));
}

/// A plane lies inside its buffer.
proof fn lemma_plane_bounds(ch: int, c: int, size: int)
    requires
        0 <= ch < c,
        size >= 0,
    ensures
        0 <= ch * size,
        (ch + 1) * size == ch * size + size,
        (ch + 1) * size <= c * size,
{
    assert(0 <= ch * size && (ch + 1) * size == ch * size + size && (ch + 1) * size <= c * size)
        by (nonlinear_arith)
        requires
            0 <= ch < c,
            size >= 0,
    ;
}

} // verus!
