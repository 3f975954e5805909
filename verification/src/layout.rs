//! Exact layouts of derived sample buffers: crops, masks and position tables.

use vstd::prelude::*;

use crate::pixels::lemma_grid_index;
use crate::pixels::lemma_pixel;

verus! {

/// A planar `[c, h, w]` buffer cut down to rows `y0..y1` and columns `x0..x1`.
pub open spec fn cropped<T>(
    src: Seq<T>,
    c: int,
    h: int,
    w: int,
    y0: int,
    y1: int,
    x0: int,
    x1: int,
) -> Seq<T> {
    let (ch, cw) = (y1 - y0, x1 - x0);
    Seq::new(
        (c * (ch * cw)) as nat,
        |j: int|
            src[(j / (ch * cw)) * (h * w) + (y0 + (j % (ch * cw)) / cw) * w + (x0 + (j % (ch * cw))
                % cw)],
    )
}

/// Crops a planar `[c, h, w]` buffer to `[c, y1 - y0, x1 - x0]`.
pub fn crop_chw<T: Copy>(
    src: &[T],
    c: usize,
    h: usize,
    w: usize,
    y0: usize,
    y1: usize,
    x0: usize,
    x1: usize,
) -> (out: Vec<T>)
    requires
        y0 <= y1 <= h,
        x0 <= x1 <= w,
        src@.len() == c * (h * w),
    ensures
        out@ == cropped(
            src@,
            c as int,
            h as int,
            w as int,
            y0 as int,
            y1 as int,
            x0 as int,
            x1 as int,
        ),
{
    assert(src@.len() == src.len());
    let ch: usize = y1 - y0;
    let cw: usize = x1 - x0;
    let ghost want = cropped(
        src@,
        c as int,
        h as int,
        w as int,
        y0 as int,
        y1 as int,
        x0 as int,
        x1 as int,
    );
    let mut out: Vec<T> = Vec::new();
    let ghost plane = ch * cw;
    let ghost full = h * w;
    assert(0 * plane == 0);
    let mut ci: usize = 0;
    while ci < c
        invariant
            ci <= c,
            y0 + ch == y1 <= h,
            x0 + cw == x1 <= w,
            plane == ch * cw,
            full == h * w,
            src@.len() == c * full <= usize::MAX,
            want == cropped(
                src@,
                c as int,
                h as int,
                w as int,
                y0 as int,
                y1 as int,
                x0 as int,
                x1 as int,
            ),
            want.len() == c * plane,
            out@.len() == ci * plane,
            forall|j: int| 0 <= j < out@.len() ==> #[trigger] out@[j] == want[j],
        decreases c - ci,
    {
        let mut y: usize = 0;
        assert(0 * cw == 0);
        while y < ch
            invariant
                ci < c,
                y <= ch,
                y0 + ch == y1 <= h,
                x0 + cw == x1 <= w,
                plane == ch * cw,
                full == h * w,
                src@.len() == c * full <= usize::MAX,
                want == cropped(
                    src@,
                    c as int,
                    h as int,
                    w as int,
                    y0 as int,
                    y1 as int,
                    x0 as int,
                    x1 as int,
                ),
                want.len() == c * plane,
                out@.len() == ci * plane + y * cw,
                forall|j: int| 0 <= j < out@.len() ==> #[trigger] out@[j] == want[j],
            decreases ch - y,
        {
            let mut x: usize = 0;
            while x < cw
                invariant
                    ci < c,
                    y < ch,
                    x <= cw,
                    y0 + ch == y1 <= h,
                    x0 + cw == x1 <= w,
                    plane == ch * cw,
                    full == h * w,
                    src@.len() == c * full <= usize::MAX,
                    want == cropped(
                        src@,
                        c as int,
                        h as int,
                        w as int,
                        y0 as int,
                        y1 as int,
                        x0 as int,
                        x1 as int,
                    ),
                    want.len() == c * plane,
                    out@.len() == ci * plane + (y * cw + x),
                    forall|j: int| 0 <= j < out@.len() ==> #[trigger] out@[j] == want[j],
                decreases cw - x,
            {
                let ghost j = out@.len() as int;
                proof {
                    lemma_grid_index(x as int, y as int, cw as int, ch as int);
                    lemma_pixel(y * cw + x, ci as int, plane);
                    lemma_pixel(x as int, y as int, cw as int);
                    lemma_grid_index(x0 + x, y0 + y, w as int, h as int);
                    lemma_grid_index((y0 + y) * w + (x0 + x), ci as int, full, c as int);
                    lemma_grid_index(y * cw + x, ci as int, plane, c as int);
                    assert(h * w <= c * full) by (nonlinear_arith)
                        requires
                            full == h * w,
                            c >= 1,
                            full >= 0,
                    ;
                }
                let row: usize = (y0 + y) * w + (x0 + x);
                let size: usize = h * w;
                out.push(src[ci * size + row]);
                x = x + 1;
            }
            proof {
                assert((y + 1) * cw == y * cw + cw) by (nonlinear_arith);
            }
            y = y + 1;
        }
        proof {
            assert((ci + 1) * plane == ci * plane + plane) by (nonlinear_arith);
        }
        ci = ci + 1;
    }
    assert(out@ =~= want);
    out
}

/// A planar `[c, h, w]` buffer extended to `[c, th, tw]` by repeating its last column
/// and its last row.
pub open spec fn extended<T>(src: Seq<T>, c: int, h: int, w: int, th: int, tw: int) -> Seq<T> {
    Seq::new(
        (c * (th * tw)) as nat,
        |j: int|
            src[(j / (th * tw)) * (h * w) + crate::tiling::min2((j % (th * tw)) / tw, h - 1) * w
                + crate::tiling::min2((j % (th * tw)) % tw, w - 1)],
    )
}

/// Extends a planar `[c, h, w]` buffer to `[c, th, tw]` by repeating its last column
/// and its last row.
pub fn extend_chw<T: Copy>(
    src: &[T],
    c: usize,
    h: usize,
    w: usize,
    th: usize,
    tw: usize,
) -> (out: Vec<T>)
    requires
        1 <= h <= th,
        1 <= w <= tw,
        src@.len() == c * (h * w),
    ensures
        out@ == extended(src@, c as int, h as int, w as int, th as int, tw as int),
{
    assert(src@.len() == src.len());
    let ghost want = extended(src@, c as int, h as int, w as int, th as int, tw as int);
    let ghost plane = th * tw;
    let ghost full = h * w;
    let mut out: Vec<T> = Vec::new();
    assert(0 * plane == 0);
    assert(c * plane >= 0) by (nonlinear_arith)
        requires
            plane == th * tw,
    ;
    let mut ci: usize = 0;
    while ci < c
        invariant
            ci <= c,
            1 <= h <= th,
            1 <= w <= tw,
            plane == th * tw,
            full == h * w,
            src@.len() == c * full <= usize::MAX,
            want == extended(src@, c as int, h as int, w as int, th as int, tw as int),
            want.len() == c * plane,
            out@.len() == ci * plane,
            forall|j: int| 0 <= j < out@.len() ==> #[trigger] out@[j] == want[j],
        decreases c - ci,
    {
        let mut y: usize = 0;
        assert(0 * tw == 0);
        while y < th
            invariant
                ci < c,
                y <= th,
                1 <= h <= th,
                1 <= w <= tw,
                plane == th * tw,
                full == h * w,
                src@.len() == c * full <= usize::MAX,
                want == extended(src@, c as int, h as int, w as int, th as int, tw as int),
                want.len() == c * plane,
                out@.len() == ci * plane + y * tw,
                forall|j: int| 0 <= j < out@.len() ==> #[trigger] out@[j] == want[j],
            decreases th - y,
        {
            let sy: usize = if y < h { y } else { h - 1 };
            let mut x: usize = 0;
            while x < tw
                invariant
                    ci < c,
                    y < th,
                    x <= tw,
                    1 <= h <= th,
                    1 <= w <= tw,
                    sy == crate::tiling::min2(y as int, h - 1),
                    plane == th * tw,
                    full == h * w,
                    src@.len() == c * full <= usize::MAX,
                    want == extended(src@, c as int, h as int, w as int, th as int, tw as int),
                    want.len() == c * plane,
                    out@.len() == ci * plane + (y * tw + x),
                    forall|j: int| 0 <= j < out@.len() ==> #[trigger] out@[j] == want[j],
                decreases tw - x,
            {
                let sx: usize = if x < w { x } else { w - 1 };
                proof {
                    lemma_grid_index(x as int, y as int, tw as int, th as int);
                    lemma_pixel(y * tw + x, ci as int, plane);
                    lemma_pixel(x as int, y as int, tw as int);
                    lemma_grid_index(sx as int, sy as int, w as int, h as int);
                    lemma_grid_index(sy * w + sx, ci as int, full, c as int);
                    lemma_grid_index(y * tw + x, ci as int, plane, c as int);
                    assert(h * w <= c * full) by (nonlinear_arith)
                        requires
                            full == h * w,
                            c >= 1,
                            full >= 0,
                    ;
                }
                let size: usize = h * w;
                out.push(src[ci * size + (sy * w + sx)]);
                x = x + 1;
            }
            proof {
                assert((y + 1) * tw == y * tw + tw) by (nonlinear_arith);
            }
            y = y + 1;
        }
        proof {
            assert((ci + 1) * plane == ci * plane + plane) by (nonlinear_arith);
        }
        ci = ci + 1;
    }
    assert(out@ =~= want);
    out
}

/// Cutting an extended buffer back to its size gives the buffer that it was made of.
pub proof fn law_extension_is_cut_off<T>(src: Seq<T>, c: nat, h: int, w: int, th: int, tw: int)
    requires
        1 <= h <= th,
        1 <= w <= tw,
        src.len() == c * (h * w),
    ensures
        cropped(extended(src, c as int, h, w, th, tw), c as int, th, tw, 0, h, 0, w) == src,
{
    let big = extended(src, c as int, h, w, th, tw);
    let back = cropped(big, c as int, th, tw, 0, h, 0, w);
    let (size, plane) = (h * w, th * tw);
    assert(size >= 1 && c * size >= 0) by (nonlinear_arith)
        requires
            size == h * w,
            h >= 1,
            w >= 1,
    ;
    assert forall|j: int| 0 <= j < src.len() implies back[j] == src[j] by {
        let (ch, at) = (j / size, j % size);
        vstd::arithmetic::div_mod::lemma_fundamental_div_mod(j, size);
        vstd::arithmetic::div_mod::lemma_mod_bound(j, size);
        assert(0 <= ch < c) by (nonlinear_arith)
            requires
                j == size * ch + at,
                0 <= at < size,
                0 <= j < c * size,
        ;
        assert(size * ch == ch * size) by (nonlinear_arith);
        let (y, x) = (at / w, at % w);
        vstd::arithmetic::div_mod::lemma_fundamental_div_mod(at, w);
        vstd::arithmetic::div_mod::lemma_mod_bound(at, w);
        assert(0 <= y < h) by (nonlinear_arith)
            requires
                at == w * y + x,
                0 <= x < w,
                0 <= at < h * w,
        ;
        assert(w * y == y * w) by (nonlinear_arith);
        lemma_grid_index(x, y, tw, th);
        lemma_pixel(y * tw + x, ch, plane);
        lemma_pixel(x, y, tw);
        lemma_grid_index(y * tw + x, ch, plane, c as int);
        let k = ch * plane + (y * tw + x);
        assert(back[j] == big[k]);
        assert(big[k] == src[ch * size + y * w + x]);
    }
    assert(back =~= src);
}

/// `mask` holds, row by row, what `weigh` makes of each row's entry and each column's.
pub open spec fn is_outer_product<A, T, F: Fn(A, A) -> T>(
    mask: Seq<T>,
    rows: Seq<A>,
    cols: Seq<A>,
    weigh: F,
) -> bool {
    &&& mask.len() == rows.len() * cols.len()
    &&& forall|j: int|
        #![trigger mask[j]]
        0 <= j < mask.len() ==> call_ensures(
            weigh,
            (rows[j / (cols.len() as int)], cols[j % (cols.len() as int)]),
            mask[j],
        )
}

/// The outer product of two axes, row by row: `weigh` combines the row's entry
/// with the column's.
pub fn outer_product<A: Copy, T, F: Fn(A, A) -> T>(
    rows: &[A],
    cols: &[A],
    weigh: &F,
) -> (mask: Vec<T>)
    requires
        forall|a: A, b: A| call_requires(*weigh, (a, b)),
        rows@.len() * cols@.len() <= usize::MAX,
    ensures
        is_outer_product(mask@, rows@, cols@, *weigh),
{
    let mut mask: Vec<T> = Vec::new();
    let ghost w = cols@.len() as int;
    assert(0 * w == 0);
    let mut y: usize = 0;
    while y < rows.len()
        invariant
            y <= rows@.len(),
            w == cols@.len(),
            forall|a: A, b: A| call_requires(*weigh, (a, b)),
            mask@.len() == y * w,
            forall|j: int|
                #![trigger mask@[j]]
                0 <= j < mask@.len() ==> call_ensures(
                    *weigh,
                    (rows@[j / w], cols@[j % w]),
                    mask@[j],
                ),
        decreases rows@.len() - y,
    {
        let mut x: usize = 0;
        while x < cols.len()
            invariant
                y < rows@.len(),
                x <= cols@.len(),
                w == cols@.len(),
                forall|a: A, b: A| call_requires(*weigh, (a, b)),
                mask@.len() == y * w + x,
                forall|j: int|
                    #![trigger mask@[j]]
                    0 <= j < mask@.len() ==> call_ensures(
                        *weigh,
                        (rows@[j / w], cols@[j % w]),
                        mask@[j],
                    ),
            decreases cols@.len() - x,
        {
            proof {
                lemma_pixel(x as int, y as int, w);
            }
            mask.push(weigh(rows[y], cols[x]));
            x = x + 1;
        }
        proof {
            assert((y + 1) * w == y * w + w) by (nonlinear_arith);
        }
        y = y + 1;
    }
    mask
}

/// Width of one attention head; half of it encodes the row, half the column.
pub const HEAD_DIM: usize = 64;

/// Position encodings for a square grid of patches, one row of [`HEAD_DIM`]
/// entries per patch. The first half of a row is a function of the patch's row,
/// the second half of its column; each frequency fills two neighbouring entries.
/// `angle` gives the entry for a position and a frequency number.
pub fn rope_table<T: Copy, F: Fn(usize, usize) -> T>(grid: usize, angle: &F) -> (table: Vec<T>)
    requires
        forall|pos: usize, freq: usize|
            pos < grid && freq < 16 ==> call_requires(*angle, (pos, freq)),
        grid * grid * 64 <= usize::MAX,
    ensures
        table@.len() == grid * grid * 64,
        rope_rows(table@, grid as int, *angle),
{
    let mut table: Vec<T> = Vec::new();
    let ghost g = grid as int;
    let mut ph: usize = 0;
    assert(0 * g == 0);
    while ph < grid
        invariant
            ph <= grid,
            g == grid,
            forall|pos: usize, freq: usize|
                pos < grid && freq < 16 ==> call_requires(*angle, (pos, freq)),
            table@.len() == 64 * (ph * g),
            rope_rows(table@, g, *angle),
        decreases grid - ph,
    {
        let mut pw: usize = 0;
        while pw < grid
            invariant
                ph < grid,
                pw <= grid,
                g == grid,
                forall|pos: usize, freq: usize|
                    pos < grid && freq < 16 ==> call_requires(*angle, (pos, freq)),
                table@.len() == 64 * (ph * g + pw),
                rope_rows(table@, g, *angle),
            decreases grid - pw,
        {
            proof {
                lemma_pixel(pw as int, ph as int, g);
            }
            let mut half: usize = 0;
            while half < 2
                invariant
                    half <= 2,
                    ph < grid,
                    pw < grid,
                    g == grid,
                    (ph * g + pw) % g == pw,
                    (ph * g + pw) / g == ph,
                    forall|pos: usize, freq: usize|
                        pos < grid && freq < 16 ==> call_requires(*angle, (pos, freq)),
                    table@.len() == 64 * (ph * g + pw) + 32 * half,
                    rope_rows(table@, g, *angle),
                decreases 2 - half,
            {
                let pos: usize = if half == 0 { ph } else { pw };
                let mut freq: usize = 0;
                while freq < 16
                    invariant
                        freq <= 16,
                        half < 2,
                        pos == (if half == 0 { ph } else { pw }),
                        ph < grid,
                        pw < grid,
                        g == grid,
                        (ph * g + pw) % g == pw,
                        (ph * g + pw) / g == ph,
                        forall|pos: usize, freq: usize|
                            pos < grid && freq < 16 ==> call_requires(*angle, (pos, freq)),
                        table@.len() == 64 * (ph * g + pw) + 32 * half + 2 * freq,
                        rope_rows(table@, g, *angle),
                    decreases 16 - freq,
                {
                    let entry: T = angle(pos, freq);
                    let ghost done = table@;
                    table.push(entry);
                    table.push(entry);
                    proof {
                        assert forall|j: int| #![trigger table@[j]] 0 <= j < table@.len() implies ({
                            let (patch, d) = (j / 64, j % 64);
                            let p = if d < 32 { patch / g } else { patch % g };
                            call_ensures(*angle, (p as usize, ((d % 32) / 2) as usize), table@[j])
                        }) by {
                            if j < done.len() {
                                assert(table@[j] == done[j]);
                            } else {
                                assert(j / 64 == ph * g + pw);
                            }
                        }
                        assert forall|j: int|
                            #![trigger table@[j]]
                            0 <= j < table@.len() && j % 2 == 1 implies table@[j] == table@[j
                            - 1] by {
                            if j < done.len() {
                                assert(table@[j] == done[j]);
                                assert(table@[j - 1] == done[j - 1]);
                            }
                        }
                    }
                    freq = freq + 1;
                }
                half = half + 1;
            }
            pw = pw + 1;
        }
        proof {
            assert((ph + 1) * g == ph * g + g) by (nonlinear_arith);
        }
        ph = ph + 1;
    }
    proof {
        assert(64 * (g * g) == g * g * 64);
    }
    table
}

/// The entries of a position table, as far as it goes: in the first half of a row they
/// are those of the patch's row, in the second of its column, two by two of the same
/// frequency.
pub open spec fn rope_rows<T, F: Fn(usize, usize) -> T>(table: Seq<T>, g: int, angle: F) -> bool {
    &&& forall|j: int|
        #![trigger table[j]]
        0 <= j < table.len() ==> {
            let (patch, d) = (j / 64, j % 64);
            let pos = if d < 32 { patch / g } else { patch % g };
            call_ensures(angle, (pos as usize, ((d % 32) / 2) as usize), table[j])
        }
    &&& forall|j: int|
        #![trigger table[j]]
        0 <= j < table.len() && j % 2 == 1 ==> table[j] == table[j - 1]
}

/// `v` holds cosines in its first half, sines in its second, and `zero` in the odd entry
/// that is left.
pub open spec fn is_sinusoid<T, C: Fn(usize) -> T, S: Fn(usize) -> T>(
    v: Seq<T>,
    dim: int,
    zero: T,
    cosine: C,
    sine: S,
) -> bool {
    &&& v.len() == dim
    &&& forall|i: int|
        #![trigger v[i]]
        0 <= i < dim / 2 ==> call_ensures(cosine, (i as usize,), v[i])
    &&& forall|i: int|
        #![trigger v[i]]
        dim / 2 <= i < 2 * (dim / 2) ==> call_ensures(sine, ((i - dim / 2) as usize,), v[i])
    &&& dim % 2 == 1 ==> v[dim - 1] == zero
}

/// A sinusoidal embedding of `dim` entries: cosines in the first half, sines in
/// the second, and `zero` in the odd entry that is left where `dim` is odd.
pub fn sinusoid<T: Copy, C: Fn(usize) -> T, S: Fn(usize) -> T>(
    dim: usize,
    zero: T,
    cosine: &C,
    sine: &S,
) -> (v: Vec<T>)
    requires
        forall|i: usize|
            i < dim / 2 ==> call_requires(*cosine, (i,)) && call_requires(*sine, (i,)),
    ensures
        is_sinusoid(v@, dim as int, zero, *cosine, *sine),
{
    let half: usize = dim / 2;
    let mut v: Vec<T> = Vec::new();
    let mut i: usize = 0;
    while i < half
        invariant
            i <= half == dim / 2,
            forall|i: usize|
                i < dim / 2 ==> call_requires(*cosine, (i,)) && call_requires(*sine, (i,)),
            v@.len() == i,
            forall|k: int|
                #![trigger v@[k]]
                0 <= k < i ==> call_ensures(*cosine, (k as usize,), v@[k]),
        decreases half - i,
    {
        v.push(cosine(i));
        i = i + 1;
    }
    let mut i: usize = 0;
    while i < half
        invariant
            i <= half == dim / 2,
            forall|i: usize|
                i < dim / 2 ==> call_requires(*cosine, (i,)) && call_requires(*sine, (i,)),
            v@.len() == half + i,
            forall|k: int|
                #![trigger v@[k]]
                0 <= k < half ==> call_ensures(*cosine, (k as usize,), v@[k]),
            forall|k: int|
                #![trigger v@[k]]
                half <= k < half + i ==> call_ensures(*sine, ((k - half) as usize,), v@[k]),
        decreases half - i,
    {
        v.push(sine(i));
        i = i + 1;
    }
    if dim % 2 == 1 {
        v.push(zero);
    }
    v
}

/// `out` holds what `change` makes of every sample and the number of its plane.
pub open spec fn planes_mapped<T, U, F: Fn(usize, T) -> U>(
    vals: Seq<T>,
    plane: int,
    out: Seq<U>,
    change: F,
) -> bool {
    &&& out.len() == vals.len()
    &&& forall|j: int|
        #![trigger out[j]]
        0 <= j < out.len() ==> call_ensures(change, ((j / plane) as usize, vals[j]), out[j])
}

/// Maps every sample of three planes by a function of its channel.
pub fn map_planes<T: Copy, U, F: Fn(usize, T) -> U>(
    vals: &[T],
    plane: usize,
    change: &F,
) -> (out: Vec<U>)
    requires
        forall|c: usize, v: T| c < 3 ==> call_requires(*change, (c, v)),
        vals@.len() == 3 * plane,
    ensures
        planes_mapped(vals@, plane as int, out@, *change),
{
    let mut out: Vec<U> = Vec::new();
    let mut c: usize = 0;
    assert(vals@.len() == vals.len());
    while c < 3
        invariant
            c <= 3,
            vals@.len() == 3 * plane <= usize::MAX,
            forall|c: usize, v: T| c < 3 ==> call_requires(*change, (c, v)),
            out@.len() == c * plane,
            forall|j: int|
                #![trigger out@[j]]
                0 <= j < out@.len() ==> call_ensures(
                    *change,
                    ((j / (plane as int)) as usize, vals@[j]),
                    out@[j],
                ),
        decreases 3 - c,
    {
        let mut i: usize = 0;
        while i < plane
            invariant
                c < 3,
                i <= plane,
                vals@.len() == 3 * plane <= usize::MAX,
                forall|c: usize, v: T| c < 3 ==> call_requires(*change, (c, v)),
                out@.len() == c * plane + i,
                forall|j: int|
                    #![trigger out@[j]]
                    0 <= j < out@.len() ==> call_ensures(
                        *change,
                        ((j / (plane as int)) as usize, vals@[j]),
                        out@[j],
                    ),
            decreases plane - i,
        {
            proof {
                lemma_pixel(i as int, c as int, plane as int);
                lemma_grid_index(i as int, c as int, plane as int, 3);
            }
            out.push(change(c, vals[c * plane + i]));
            i = i + 1;
        }
        proof {
            assert((c + 1) * plane == c * plane + plane) by (nonlinear_arith);
        }
        c = c + 1;
    }
    out
}

/// A crop shifts and cuts: its sample at row `y`, column `x` of channel `c` is that of
/// the whole at row `y0 + y`, column `x0 + x` of the same channel.
pub proof fn law_crop_shifts<T>(
    src: Seq<T>,
    c: int,
    h: int,
    w: int,
    y0: int,
    y1: int,
    x0: int,
    x1: int,
    ci: int,
    y: int,
    x: int,
)
    requires
        0 <= ci < c,
        0 <= y < y1 - y0,
        0 <= x < x1 - x0,
    ensures
        ({
            let part = cropped(src, c, h, w, y0, y1, x0, x1);
            let (ph, pw) = (y1 - y0, x1 - x0);
            &&& part.len() == c * (ph * pw)
            &&& part[ci * (ph * pw) + (y * pw + x)] == src[ci * (h * w) + ((y0 + y) * w + (x0
                + x))]
        }),
{
    let (ph, pw) = (y1 - y0, x1 - x0);
    let plane = ph * pw;
    lemma_grid_index(x, y, pw, ph);
    lemma_pixel(x, y, pw);
    lemma_grid_index(y * pw + x, ci, plane, c);
    lemma_pixel(y * pw + x, ci, plane);
}

/// An extension keeps the buffer where it was and goes on with its last row and column:
/// its sample at row `y`, column `x` is that of the buffer at the same place, or at the
/// nearest row and column that the buffer has.
pub proof fn law_extension_repeats_the_edges<T>(
    src: Seq<T>,
    c: int,
    h: int,
    w: int,
    th: int,
    tw: int,
    ci: int,
    y: int,
    x: int,
    sy: int,
    sx: int,
)
    requires
        1 <= h,
        1 <= w,
        0 <= ci < c,
        0 <= y < th,
        0 <= x < tw,
        y < h ==> sy == y,
        y >= h ==> sy == h - 1,
        x < w ==> sx == x,
        x >= w ==> sx == w - 1,
    ensures
        extended(src, c, h, w, th, tw).len() == c * (th * tw),
        extended(src, c, h, w, th, tw)[ci * (th * tw) + (y * tw + x)] == src[ci * (h * w) + (sy * w
            + sx)],
{
    let plane = th * tw;
    lemma_grid_index(x, y, tw, th);
    lemma_pixel(x, y, tw);
    lemma_grid_index(y * tw + x, ci, plane, c);
    lemma_pixel(y * tw + x, ci, plane);
}

/// The mask's entry at row `y`, column `x` is made of the row's entry and the column's,
/// in that order.
pub proof fn law_outer_product_crosses<A, T, F: Fn(A, A) -> T>(
    mask: Seq<T>,
    rows: Seq<A>,
    cols: Seq<A>,
    weigh: F,
    y: int,
    x: int,
)
    requires
        is_outer_product(mask, rows, cols, weigh),
        0 <= y < rows.len(),
        0 <= x < cols.len(),
    ensures
        mask.len() == rows.len() * cols.len(),
        call_ensures(weigh, (rows[y], cols[x]), mask[y * cols.len() + x]),
{
    lemma_pixel(x, y, cols.len() as int);
    lemma_grid_index(x, y, cols.len() as int, rows.len() as int);
    let entry = mask[y * cols.len() + x];
}

/// The patch at row `r`, column `c` of the grid has 64 entries: for each of sixteen
/// frequencies two equal ones for its row, then for each two equal ones for its column.
pub proof fn law_patches_encode_row_and_column<T, F: Fn(usize, usize) -> T>(
    table: Seq<T>,
    grid: int,
    angle: F,
    r: int,
    c: int,
    freq: int,
)
    requires
        rope_rows(table, grid, angle),
        table.len() == grid * grid * 64,
        0 <= r < grid,
        0 <= c < grid,
        0 <= freq < 16,
    ensures
        ({
            let at = 64 * (r * grid + c) + 2 * freq;
            &&& 0 <= at && at + 33 < table.len()
            &&& call_ensures(angle, (r as usize, freq as usize), table[at])
            &&& table[at + 1] == table[at]
            &&& call_ensures(angle, (c as usize, freq as usize), table[at + 32])
            &&& table[at + 33] == table[at + 32]
        }),
{
    let patch = r * grid + c;
    let at = 64 * patch + 2 * freq;
    lemma_pixel(c, r, grid);
    lemma_grid_index(c, r, grid, grid);
    assert(at / 64 == patch && at % 64 == 2 * freq);
    assert((at + 32) / 64 == patch && (at + 32) % 64 == 32 + 2 * freq);
    let (a, b) = (table[at], table[at + 32]);
    assert((at + 1) % 2 == 1 && (at + 33) % 2 == 1);
    let (p, q) = (table[at + 1], table[at + 33]);
}

/// The cosine of a frequency and its sine stand half the even part apart; the odd entry
/// comes last.
pub proof fn law_cosines_come_before_sines<T, C: Fn(usize) -> T, S: Fn(usize) -> T>(
    v: Seq<T>,
    half: int,
    odd: bool,
    zero: T,
    cosine: C,
    sine: S,
    i: int,
)
    requires
        is_sinusoid(v, 2 * half + if odd { 1int } else { 0int }, zero, cosine, sine),
        0 <= i < half,
    ensures
        v.len() == 2 * half + if odd { 1int } else { 0int },
        call_ensures(cosine, (i as usize,), v[i]),
        call_ensures(sine, (i as usize,), v[half + i]),
        odd ==> v.last() == zero,
{
    let (a, b) = (v[i], v[half + i]);
}

/// A sample is mapped with the number of the plane that it stands in, and stays in its
/// place.
pub proof fn law_planes_are_mapped_in_place<T, U, F: Fn(usize, T) -> U>(
    vals: Seq<T>,
    plane: int,
    out: Seq<U>,
    change: F,
    c: int,
    i: int,
)
    requires
        planes_mapped(vals, plane, out, change),
        vals.len() == 3 * plane,
        0 <= c < 3,
        0 <= i < plane,
    ensures
        out.len() == 3 * plane,
        call_ensures(change, (c as usize, vals[c * plane + i]), out[c * plane + i]),
{
    lemma_pixel(i, c, plane);
    lemma_grid_index(i, c, plane, 3);
    let value = out[c * plane + i];
}

} // verus!
