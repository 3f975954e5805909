//! Latent-space tiling: where windows start, what surrounds them, and the plans of
//! the models that blend their windows with a mask.

use vstd::prelude::*;

use crate::tiling::tile_origins;

verus! {

/// Latent-to-pixel ratio of the 8x autoencoder.
pub const AE_FACTOR: usize = 8;

/// Patch size that the latent tile is a multiple of.
pub const PATCH: usize = 2;

/// Latent tile side for encoding and decoding.
pub const VAE_LAT_TILE: usize = 64;

/// Overlap of neighbouring latent tiles in encoding and decoding.
pub const VAE_LAT_OVERLAP: usize = 8;

/// The distance between neighbouring windows.
pub open spec fn grid_stride(tile: int, overlap: int) -> int {
    crate::tiling::max2(tile - overlap, 1)
}

/// How many windows start at a multiple of the stride and end inside `length`.
pub open spec fn grid_steps(length: int, tile: int, overlap: int) -> int {
    (length - tile) / grid_stride(tile, overlap) + 1
}

/// Window starts along an axis: the multiples of the stride that leave room for a
/// whole window, and one more at the far end if they do not reach it.
pub open spec fn grid_positions(length: int, tile: int, overlap: int) -> Seq<int> {
    if length <= tile {
        seq![0int]
    } else {
        let stride = grid_stride(tile, overlap);
        let n = grid_steps(length, tile, overlap);
        let regular = Seq::new(n as nat, |k: int| k * stride);
        if (n - 1) * stride + tile < length {
            regular.push(length - tile)
        } else {
            regular
        }
    }
}

/// The multiples of the stride counted by [`grid_steps`] are those up to
/// `length - tile`.
proof fn lemma_grid_steps(length: int, tile: int, overlap: int, k: int)
    requires
        0 <= tile < length,
        k >= 0,
    ensures
        k < grid_steps(length, tile, overlap) <==> k * grid_stride(tile, overlap) <= length - tile,
        grid_steps(length, tile, overlap) >= 1,
{
    let s = grid_stride(tile, overlap);
    let q = (length - tile) / s;
    vstd::arithmetic::div_mod::lemma_fundamental_div_mod(length - tile, s);
    vstd::arithmetic::div_mod::lemma_mod_bound(length - tile, s);
    let r = (length - tile) % s;
    assert(q >= 0) by (nonlinear_arith)
        requires
            length - tile == s * q + r,
            0 <= r < s,
            length > tile,
    ;
    assert(k <= q <==> k * s <= length - tile) by (nonlinear_arith)
        requires
            length - tile == s * q + r,
            0 <= r < s,
            k >= 0,
    ;
}

/// Sorted, distinct window starts that cover `length`.
pub fn tile_grid(length: usize, tile: usize, overlap: usize) -> (positions: Vec<usize>)
    ensures
        positions@.len() == grid_positions(length as int, tile as int, overlap as int).len(),
        forall|k: int|
            0 <= k < positions@.len() ==> #[trigger] positions@[k] == grid_positions(
                length as int,
                tile as int,
                overlap as int,
            )[k],
{
    let mut positions: Vec<usize> = Vec::new();
    if length <= tile {
        positions.push(0);
        return positions;
    }
    let gap: usize = if tile > overlap { tile - overlap } else { 0 };
    let stride: usize = if gap > 1 { gap } else { 1 };
    let room: usize = length - tile;
    let ghost n = grid_steps(length as int, tile as int, overlap as int);
    let mut at: usize = 0;
    positions.push(0);
    proof {
        lemma_grid_steps(length as int, tile as int, overlap as int, 0);
        assert(0 * stride == 0);
    }
    while stride <= room - at
        invariant
            tile < length,
            room == length - tile,
            stride == grid_stride(tile as int, overlap as int),
            n == grid_steps(length as int, tile as int, overlap as int),
            at <= room,
            1 <= positions@.len() <= n,
            at == (positions@.len() - 1) * stride,
            forall|k: int| 0 <= k < positions@.len() ==> #[trigger] positions@[k] == k * stride,
        decreases room - at,
    {
        let ghost k = positions@.len() as int;
        proof {
            assert(k * stride == (k - 1) * stride + stride) by (nonlinear_arith);
            lemma_grid_steps(length as int, tile as int, overlap as int, k);
        }
        at = at + stride;
        positions.push(at);
    }
    proof {
        let k = positions@.len() as int;
        assert(k * stride == (k - 1) * stride + stride) by (nonlinear_arith);
        lemma_grid_steps(length as int, tile as int, overlap as int, k);
        assert(k == n);
    }
    if at < room {
        positions.push(room);
    }
    positions
}

/// Window starts are in strictly increasing order, so none occurs twice.
pub proof fn law_grid_increasing(length: nat, tile: nat, overlap: nat, i: int, j: int)
    requires
        0 <= i < j < grid_positions(length as int, tile as int, overlap as int).len(),
    ensures
        grid_positions(length as int, tile as int, overlap as int)[i] < grid_positions(
            length as int,
            tile as int,
            overlap as int,
        )[j],
{
    let s = grid_stride(tile as int, overlap as int);
    if length > tile {
        lemma_grid_steps(length as int, tile as int, overlap as int, i);
        assert(i * s < j * s) by (nonlinear_arith)
            requires
                i < j,
                s >= 1,
        ;
        let n = grid_steps(length as int, tile as int, overlap as int);
        if j == n {
            assert(i * s <= (n - 1) * s) by (nonlinear_arith)
                requires
                    i <= n - 1,
                    s >= 1,
            ;
        }
    }
}

/// The first window starts at the near edge.
pub proof fn law_grid_starts_at_zero(length: nat, tile: nat, overlap: nat)
    ensures
        grid_positions(length as int, tile as int, overlap as int).len() >= 1,
        grid_positions(length as int, tile as int, overlap as int)[0] == 0,
{
    if length > tile {
        lemma_grid_steps(length as int, tile as int, overlap as int, 0);
        assert(0 * grid_stride(tile as int, overlap as int) == 0);
    }
}

/// No window leaves the axis, as long as one fits on it.
pub proof fn law_grid_in_bounds(length: nat, tile: nat, overlap: nat, k: int)
    requires
        tile <= length,
        0 <= k < grid_positions(length as int, tile as int, overlap as int).len(),
    ensures
        0 <= grid_positions(length as int, tile as int, overlap as int)[k] <= length - tile,
{
    if length > tile {
        let s = grid_stride(tile as int, overlap as int);
        lemma_grid_steps(length as int, tile as int, overlap as int, k);
        assert(0 <= k * s) by (nonlinear_arith)
            requires
                k >= 0,
                s >= 1,
        ;
    }
}

/// Every position of the axis lies in a window, whatever the overlap, as long as
/// windows are not empty.
pub proof fn law_grid_covers(length: nat, tile: nat, overlap: nat, at: int)
    requires
        tile >= 1,
        0 <= at < length,
    ensures
        exists|k: int|
            0 <= k < grid_positions(length as int, tile as int, overlap as int).len()
                && #[trigger] grid_positions(length as int, tile as int, overlap as int)[k] <= at
                < grid_positions(length as int, tile as int, overlap as int)[k] + tile,
{
    let p = grid_positions(length as int, tile as int, overlap as int);
    if length <= tile {
        assert(p[0] <= at < p[0] + tile);
    } else {
        let s = grid_stride(tile as int, overlap as int);
        let n = grid_steps(length as int, tile as int, overlap as int);
        let k = at / s;
        vstd::arithmetic::div_mod::lemma_fundamental_div_mod(at, s);
        vstd::arithmetic::div_mod::lemma_mod_bound(at, s);
        assert(s * k == k * s) by (nonlinear_arith);
        assert(k >= 0) by (nonlinear_arith)
            requires
                at == s * k + at % s,
                0 <= at % s < s,
                at >= 0,
        ;
        lemma_grid_steps(length as int, tile as int, overlap as int, k);
        if k < n {
            assert(p[k] <= at < p[k] + tile);
        } else {
            lemma_grid_steps(length as int, tile as int, overlap as int, n);
            assert((n - 1) * s + s == n * s) by (nonlinear_arith);
            assert(n * s <= k * s) by (nonlinear_arith)
                requires
                    n <= k,
                    s >= 1,
            ;
            let last = p.len() - 1;
            assert(p[last] <= at < p[last] + tile);
        }
    }
}

/// Neighbouring windows overlap by at least the overlap asked for, as long as it is
/// smaller than a window.
pub proof fn law_grid_overlaps(length: nat, tile: nat, overlap: nat, i: int)
    requires
        overlap < tile,
        0 <= i && i + 1 < grid_positions(length as int, tile as int, overlap as int).len(),
    ensures
        ({
            let p = grid_positions(length as int, tile as int, overlap as int);
            p[i + 1] + overlap <= p[i] + tile
        }),
{
    let s = grid_stride(tile as int, overlap as int);
    let n = grid_steps(length as int, tile as int, overlap as int);
    lemma_grid_steps(length as int, tile as int, overlap as int, n);
    assert((i + 1) * s == i * s + s) by (nonlinear_arith);
}

/// Windows are laid out regularly: each begins a window less the overlap after the one
/// before it, unless it would cross the far edge and ends at it instead. An overlap of
/// a whole window or more is read as one short of a window.
pub proof fn law_grid_is_regular(length: nat, tile: nat, overlap: nat, step: int, i: int)
    requires
        overlap < tile ==> step == tile - overlap,
        overlap >= tile ==> step == 1,
        0 <= i && i + 1 < grid_positions(length as int, tile as int, overlap as int).len(),
    ensures
        ({
            let p = grid_positions(length as int, tile as int, overlap as int);
            &&& p[i] + step + tile <= length ==> p[i + 1] == p[i] + step
            &&& p[i] + step + tile > length ==> p[i + 1] + tile == length
        }),
{
    let s = grid_stride(tile as int, overlap as int);
    let n = grid_steps(length as int, tile as int, overlap as int);
    assert(s == step);
    lemma_grid_steps(length as int, tile as int, overlap as int, n);
    lemma_grid_steps(length as int, tile as int, overlap as int, i + 1);
    assert((i + 1) * s == i * s + s) by (nonlinear_arith);
}

/// The last window ends at the far edge, and there is a single one where one is as long
/// as the axis.
pub proof fn law_grid_ends_at_the_edge(length: nat, tile: nat, overlap: nat)
    ensures
        ({
            let p = grid_positions(length as int, tile as int, overlap as int);
            &&& tile <= length ==> p.last() + tile == length
            &&& tile >= length ==> p.len() == 1
            &&& tile < length ==> p.len() >= 2
        }),
{
    if tile < length {
        let s = grid_stride(tile as int, overlap as int);
        let n = grid_steps(length as int, tile as int, overlap as int);
        lemma_grid_steps(length as int, tile as int, overlap as int, n - 1);
        lemma_grid_steps(length as int, tile as int, overlap as int, n);
        assert(n == 1 ==> (n - 1) * s == 0) by (nonlinear_arith);
    }
}

/// A window of a plane: its corner, and what is left of the plane below it and to
/// its right.
#[derive(Clone, Copy, Debug, PartialEq, Eq, Structural)]
pub struct Window {
    pub row: usize,
    pub col: usize,
    pub below: usize,
    pub right: usize,
}

/// Windows of one size over a plane, in the order in which they are run.
pub struct WindowPlan {
    /// Height of the windows.
    pub th: usize,
    /// Width of the windows.
    pub tw: usize,
    pub windows: Vec<Window>,
}

impl WindowPlan {
    /// Every window, with the margins around it, makes up the plane.
    pub open spec fn fits(&self, h: int, w: int) -> bool {
        forall|k: int|
            #![trigger self.windows@[k]]
            0 <= k < self.windows@.len() ==> self.windows@[k].row + self.th + self.windows@[k].below
                == h && self.windows@[k].col + self.tw + self.windows@[k].right == w
    }

    /// The `k`-th window holds the point.
    pub open spec fn holds(&self, k: int, x: int, y: int) -> bool {
        &&& self.windows@[k].col <= x < self.windows@[k].col + self.tw
        &&& self.windows@[k].row <= y < self.windows@[k].row + self.th
    }

    /// Every point of the plane lies in a window.
    pub open spec fn covers(&self, h: int, w: int) -> bool {
        forall|x: int, y: int|
            0 <= x < w && 0 <= y < h ==> #[trigger] self.covers_point(x, y)
    }

    /// The point lies in a window.
    pub open spec fn covers_point(&self, x: int, y: int) -> bool {
        exists|k: int| 0 <= k < self.windows@.len() && #[trigger] self.holds(k, x, y)
    }

    /// The windows are the square ones at the crossings of the two axes' window
    /// starts, row by row.
    pub open spec fn crosses(&self, h: int, w: int, tile: int, overlap: int) -> bool {
        let rows = grid_positions(h, tile, overlap);
        let cols = grid_positions(w, tile, overlap);
        &&& self.th == tile
        &&& self.tw == tile
        &&& self.windows@.len() == rows.len() * cols.len()
        &&& forall|k: int|
            #![trigger self.windows@[k]]
            0 <= k < self.windows@.len() ==> self.windows@[k].row == rows[k / (cols.len() as int)]
                && self.windows@[k].col == cols[k % (cols.len() as int)]
    }
}

/// Square windows of side `tile` over an `h` by `w` plane that they fit on.
fn square_windows(h: usize, w: usize, tile: usize, overlap: usize) -> (plan: WindowPlan)
    requires
        tile <= h,
        tile <= w,
    ensures
        plan.crosses(h as int, w as int, tile as int, overlap as int),
        plan.fits(h as int, w as int),
        tile >= 1 ==> plan.covers(h as int, w as int),
{
    let rows: Vec<usize> = tile_grid(h, tile, overlap);
    let cols: Vec<usize> = tile_grid(w, tile, overlap);
    let ghost ps = grid_positions(h as int, tile as int, overlap as int);
    let ghost qs = grid_positions(w as int, tile as int, overlap as int);
    let mut windows: Vec<Window> = Vec::new();
    let ghost n = cols@.len() as int;
    assert(0 * n == 0);
    let mut r: usize = 0;
    while r < rows.len()
        invariant
            r <= rows@.len(),
            tile <= h,
            tile <= w,
            n == cols@.len(),
            ps == grid_positions(h as int, tile as int, overlap as int),
            qs == grid_positions(w as int, tile as int, overlap as int),
            rows@.len() == ps.len(),
            cols@.len() == qs.len(),
            forall|k: int| 0 <= k < rows@.len() ==> #[trigger] rows@[k] == ps[k],
            forall|k: int| 0 <= k < cols@.len() ==> #[trigger] cols@[k] == qs[k],
            windows@.len() == r * n,
            forall|k: int|
                #![trigger windows@[k]]
                0 <= k < windows@.len() ==> window_at(
                    windows@[k],
                    h as int,
                    w as int,
                    tile as int,
                    ps[k / n],
                    qs[k % n],
                ),
        decreases rows@.len() - r,
    {
        let mut c: usize = 0;
        while c < cols.len()
            invariant
                r < rows@.len(),
                c <= cols@.len(),
                tile <= h,
                tile <= w,
                n == cols@.len(),
                ps == grid_positions(h as int, tile as int, overlap as int),
                qs == grid_positions(w as int, tile as int, overlap as int),
                rows@.len() == ps.len(),
                cols@.len() == qs.len(),
                forall|k: int| 0 <= k < rows@.len() ==> #[trigger] rows@[k] == ps[k],
                forall|k: int| 0 <= k < cols@.len() ==> #[trigger] cols@[k] == qs[k],
                windows@.len() == r * n + c,
                forall|k: int|
                    #![trigger windows@[k]]
                    0 <= k < windows@.len() ==> window_at(
                        windows@[k],
                        h as int,
                        w as int,
                        tile as int,
                        ps[k / n],
                        qs[k % n],
                    ),
            decreases cols@.len() - c,
        {
            proof {
                crate::pixels::lemma_pixel(c as int, r as int, n);
                law_grid_in_bounds(h as nat, tile as nat, overlap as nat, r as int);
                law_grid_in_bounds(w as nat, tile as nat, overlap as nat, c as int);
            }
            let row: usize = rows[r];
            let col: usize = cols[c];
            windows.push(Window { row, col, below: h - row - tile, right: w - col - tile });
            c = c + 1;
        }
        proof {
            assert((r + 1) * n == r * n + n) by (nonlinear_arith);
        }
        r = r + 1;
    }
    let plan = WindowPlan { th: tile, tw: tile, windows };
    proof {
        if tile >= 1 {
            assert forall|x: int, y: int| 0 <= x < w && 0 <= y < h implies #[trigger]
                plan.covers_point(x, y) by {
                law_grid_covers(h as nat, tile as nat, overlap as nat, y);
                law_grid_covers(w as nat, tile as nat, overlap as nat, x);
                let i = choose|i: int| 0 <= i < ps.len() && #[trigger] ps[i] <= y < ps[i] + tile;
                let j = choose|j: int| 0 <= j < qs.len() && #[trigger] qs[j] <= x < qs[j] + tile;
                crate::pixels::lemma_pixel(j, i, n);
                crate::pixels::lemma_grid_index(j, i, n, ps.len() as int);
                assert(plan.holds(i * n + j, x, y));
            }
        }
    }
    plan
}

/// A square window with the given corner and the margins that go with it.
spec fn window_at(win: Window, h: int, w: int, tile: int, row: int, col: int) -> bool {
    &&& win.row == row
    &&& win.col == col
    &&& win.row + tile + win.below == h
    &&& win.col + tile + win.right == w
}

/// The latent tile side of the flow-matching model for a requested tile of `tile`
/// low-resolution pixels: a multiple of the patch, at least one patch, and no
/// larger than the latent.
pub open spec fn flow_tile(lh: int, lw: int, tile: int) -> int {
    let pixels = crate::tiling::max2(4 * tile, 16);
    crate::tiling::min2(
        crate::tiling::min2(crate::tiling::max2((pixels / 8 / 2) * 2, 2), lh),
        lw,
    )
}

/// The latent overlap that goes with it: the requested one, at least an eighth of
/// the tile, and less than the tile.
pub open spec fn flow_overlap(side: int, overlap: int) -> int {
    crate::tiling::min2(
        crate::tiling::max2((4 * overlap) / 8, side / 8),
        crate::tiling::max2(side - 1, 0),
    )
}

/// The latent tile side of the flow-matching model.
fn flow_side(lh: usize, lw: usize, tile: usize) -> (side: usize)
    requires
        4 * tile <= usize::MAX,
    ensures
        side == flow_tile(lh as int, lw as int, tile as int),
{
    let asked: usize = 4 * tile;
    let pixels: usize = if asked > PATCH * AE_FACTOR { asked } else { PATCH * AE_FACTOR };
    let patched: usize = (pixels / AE_FACTOR / PATCH) * PATCH;
    let wanted: usize = if patched > PATCH { patched } else { PATCH };
    let below: usize = if wanted < lh { wanted } else { lh };
    if below < lw { below } else { lw }
}

/// The plan's windows are those of the flow-matching model: of its tile side, and with
/// the overlap that goes with it.
pub open spec fn is_flow_plan(plan: WindowPlan, lh: int, lw: int, tile: int, overlap: int) -> bool {
    let side = flow_tile(lh, lw, tile);
    plan.crosses(lh, lw, side, flow_overlap(side, overlap))
}

/// Plans the latent windows of the flow-matching model.
pub fn flow_windows(lh: usize, lw: usize, tile: usize, overlap: usize) -> (plan: WindowPlan)
    requires
        4 * tile <= usize::MAX,
        4 * overlap <= usize::MAX,
    ensures
        is_flow_plan(plan, lh as int, lw as int, tile as int, overlap as int),
        plan.fits(lh as int, lw as int),
        lh >= 1 && lw >= 1 ==> plan.covers(lh as int, lw as int),
{
    let side: usize = flow_side(lh, lw, tile);
    let lap: usize = (4 * overlap) / AE_FACTOR;
    let least: usize = if lap > side / 8 { lap } else { side / 8 };
    let most: usize = if side > 0 { side - 1 } else { 0 };
    square_windows(lh, lw, side, if least < most { least } else { most })
}

/// The window side is the one asked for: four pixels per low-resolution pixel of the
/// tile, a cell per eight of them, as many whole patches of two cells as that makes. Less
/// than a patch is one patch, and a side that is longer than the latent is cut to it.
pub proof fn law_flow_windows_have_the_side_asked_for(lh: nat, lw: nat, tile: nat, side: int)
    requires
        side % 2 == 0,
        side >= 2,
        tile >= 4 ==> 8 * side <= 4 * tile < 8 * (side + 2),
        tile < 4 ==> side == 2,
    ensures
        side <= lh && side <= lw ==> flow_tile(lh as int, lw as int, tile as int) == side,
        lh <= lw && lh <= side ==> flow_tile(lh as int, lw as int, tile as int) == lh,
        lw <= lh && lw <= side ==> flow_tile(lh as int, lw as int, tile as int) == lw,
{
}

/// Neighbouring windows of the flow-matching model share at least as many cells as the
/// overlap asked for comes to in the latent, and at least an eighth of a window, as far
/// as a window is longer than that. Where the far edge does not push the later of the
/// two back, they share no more than the larger of these.
pub proof fn law_flow_windows_share_the_overlap(
    lh: nat,
    lw: nat,
    tile: nat,
    overlap: nat,
    length: nat,
    i: int,
)
    requires
        lh >= 1,
        lw >= 1,
        length == lh || length == lw,
        0 <= i,
        ({
            let side = flow_tile(lh as int, lw as int, tile as int);
            i + 1 < grid_positions(length as int, side, flow_overlap(side, overlap as int)).len()
        }),
    ensures
        ({
            let side = flow_tile(lh as int, lw as int, tile as int);
            let p = grid_positions(length as int, side, flow_overlap(side, overlap as int));
            let (shared, asked) = (p[i] + side - p[i + 1], (4 * overlap) / 8);
            &&& p[i] < p[i + 1]
            &&& asked < side ==> shared >= asked
            &&& asked >= side ==> shared == side - 1
            &&& shared >= side / 8
            &&& p[i + 1] + side < length ==> shared == asked || shared == side / 8 || shared == side
                - 1
            &&& p[i + 1] + side < length && asked < side ==> shared <= asked || shared <= side / 8
        }),
{
    let side = flow_tile(lh as int, lw as int, tile as int);
    let lap = flow_overlap(side, overlap as int);
    law_grid_increasing(length, side as nat, lap as nat, i, i + 1);
    law_grid_is_regular(length, side as nat, lap as nat, side - lap, i);
    law_grid_overlaps(length, side as nat, lap as nat, i);
}

/// The windows of a plan that follow each other in a row are neighbours along it, and
/// those that follow each other down a column are neighbours along that.
pub proof fn law_crossing_windows_are_neighbours(
    plan: WindowPlan,
    h: nat,
    w: nat,
    tile: nat,
    overlap: nat,
    k: int,
)
    requires
        plan.crosses(h as int, w as int, tile as int, overlap as int),
        0 <= k < plan.windows@.len(),
    ensures
        ({
            let rows = grid_positions(h as int, tile as int, overlap as int);
            let cols = grid_positions(w as int, tile as int, overlap as int);
            let (r, c, n) = (k / (cols.len() as int), k % (cols.len() as int), cols.len() as int);
            &&& 0 <= r < rows.len() && 0 <= c < n
            &&& plan.windows@[k].row == rows[r] && plan.windows@[k].col == cols[c]
            &&& c + 1 < n ==> k + 1 < plan.windows@.len() && plan.windows@[k + 1].row == rows[r]
                && plan.windows@[k + 1].col == cols[c + 1]
            &&& r + 1 < rows.len() ==> k + n < plan.windows@.len() && plan.windows@[k + n].row
                == rows[r + 1] && plan.windows@[k + n].col == cols[c]
        }),
{
    let rows = grid_positions(h as int, tile as int, overlap as int);
    let cols = grid_positions(w as int, tile as int, overlap as int);
    law_grid_starts_at_zero(w, tile, overlap);
    let (n, m) = (cols.len() as int, rows.len() as int);
    let (r, c) = (k / n, k % n);
    vstd::arithmetic::div_mod::lemma_fundamental_div_mod(k, n);
    vstd::arithmetic::div_mod::lemma_mod_bound(k, n);
    assert(n * r == r * n) by (nonlinear_arith);
    assert(0 <= r < m) by (nonlinear_arith)
        requires
            k == r * n + c,
            0 <= c < n,
            0 <= k < m * n,
    ;
    if c + 1 < n {
        crate::pixels::lemma_pixel(c + 1, r, n);
        crate::pixels::lemma_grid_index(c + 1, r, n, m);
        assert(plan.windows@[k + 1].row == rows[(k + 1) / n]);
    }
    if r + 1 < m {
        crate::pixels::lemma_pixel(c, r + 1, n);
        crate::pixels::lemma_grid_index(c, r + 1, n, m);
        assert((r + 1) * n == r * n + n) by (nonlinear_arith);
        assert(plan.windows@[k + n].row == rows[(k + n) / n]);
    }
}

/// So it is with the windows of a plan: two that follow each other in a row share as many
/// columns, and two that follow each other down a column, `n` windows apart where the
/// first row has `n`, share as many rows.
pub proof fn law_flow_plans_share_the_overlap(
    plan: WindowPlan,
    lh: nat,
    lw: nat,
    tile: nat,
    overlap: nat,
    k: int,
    n: int,
)
    requires
        lh >= 1,
        lw >= 1,
        is_flow_plan(plan, lh as int, lw as int, tile as int, overlap as int),
        n >= 1,
        n < plan.windows@.len() ==> plan.windows@[n].row > plan.windows@[0].row,
        forall|i: int|
            0 <= i < n && i < plan.windows@.len() ==> (#[trigger] plan.windows@[i]).row
                == plan.windows@[0].row,
        0 <= k < plan.windows@.len(),
    ensures
        ({
            let side = plan.th as int;
            let asked = (4 * overlap) / 8;
            let here = plan.windows@[k];
            &&& plan.tw == plan.th
            &&& k + 1 < plan.windows@.len() && plan.windows@[k + 1].row == here.row ==> {
                let shared = here.col + side - plan.windows@[k + 1].col;
                &&& asked < side ==> shared >= asked
                &&& asked >= side ==> shared == side - 1
                &&& shared >= side / 8
            }
            &&& k + n < plan.windows@.len() ==> {
                let shared = here.row + side - plan.windows@[k + n].row;
                &&& plan.windows@[k + n].col == here.col
                &&& asked < side ==> shared >= asked
                &&& asked >= side ==> shared == side - 1
                &&& shared >= side / 8
            }
        }),
{
    let side = flow_tile(lh as int, lw as int, tile as int);
    let lap = flow_overlap(side, overlap as int);
    let rows = grid_positions(lh as int, side, lap);
    let m = rows.len() as int;
    let w = grid_positions(lw as int, side, lap).len() as int;
    law_crossing_windows_are_neighbours(plan, lh, lw, side as nat, lap as nat, k);
    law_grid_starts_at_zero(lw, side as nat, lap as nat);
    let (r, c) = (k / w, k % w);
    vstd::arithmetic::div_mod::lemma_fundamental_div_mod(k, w);
    assert(w * r == r * w && (r + 1) * w == r * w + w) by (nonlinear_arith);
    if k + 1 < plan.windows@.len() && plan.windows@[k + 1].row == plan.windows@[k].row {
        if c + 1 == w {
            crate::pixels::lemma_pixel(0, r + 1, w);
            assert(r + 1 < m) by (nonlinear_arith)
                requires
                    (r + 1) * w == k + 1,
                    k + 1 < m * w,
                    w >= 1,
            ;
            law_grid_increasing(lh, side as nat, lap as nat, r, r + 1);
            assert(plan.windows@[k + 1].row == rows[(k + 1) / w]);
        }
        law_flow_windows_share_the_overlap(lh, lw, tile, overlap, lw, c);
    }
    if k + n < plan.windows@.len() {
        lemma_row_length(plan, lh, lw, side as nat, lap as nat, n);
        assert(r + 1 < m) by (nonlinear_arith)
            requires
                (r + 1) * w + c == k + w,
                k + w < m * w,
                w >= 1,
                c >= 0,
        ;
        law_flow_windows_share_the_overlap(lh, lw, tile, overlap, lh, r);
    }
}

/// The first row of a plan is as long as the windows along the axis are many.
proof fn lemma_row_length(plan: WindowPlan, h: nat, w: nat, tile: nat, overlap: nat, n: int)
    requires
        plan.crosses(h as int, w as int, tile as int, overlap as int),
        1 <= n < plan.windows@.len(),
        plan.windows@[n].row > plan.windows@[0].row,
        forall|i: int|
            0 <= i < n && i < plan.windows@.len() ==> (#[trigger] plan.windows@[i]).row
                == plan.windows@[0].row,
    ensures
        n == grid_positions(w as int, tile as int, overlap as int).len(),
{
    let rows = grid_positions(h as int, tile as int, overlap as int);
    let cols = grid_positions(w as int, tile as int, overlap as int).len() as int;
    law_grid_starts_at_zero(w, tile, overlap);
    law_crossing_windows_are_neighbours(plan, h, w, tile, overlap, 0);
    crate::pixels::lemma_pixel(0, 0, cols);
    assert(0 * cols == 0 && 1 * cols == cols);
    if n < cols {
        crate::pixels::lemma_pixel(n, 0, cols);
        law_crossing_windows_are_neighbours(plan, h, w, tile, overlap, n);
    } else if n > cols {
        crate::pixels::lemma_pixel(0, 1, cols);
        law_crossing_windows_are_neighbours(plan, h, w, tile, overlap, cols);
        law_grid_increasing(h, tile, overlap, 0, 1);
        assert(plan.windows@[cols].row == plan.windows@[0].row);
    }
}

/// The latent cells that a side of a picture takes up, the last of them perhaps in
/// part.
pub open spec fn cells(side: int) -> int {
    (side + 7) / 8
}

/// The height and width of the latent that a picture is run on: whole cells, and one
/// more along each side that the tile is cut short by where that would leave the tile
/// with half a patch.
pub open spec fn flow_latent(hh: int, ww: int, tile: int) -> (int, int) {
    let (h, w) = (cells(hh), cells(ww));
    let t = flow_tile(h, w, tile);
    if t % 2 == 0 {
        (h, w)
    } else {
        (if h == t { h + 1 } else { h }, if w == t { w + 1 } else { w })
    }
}

/// The height and width that a picture is extended to, so that the flow-matching model
/// can be run on it in tiles of whole patches. A picture on which it can be is left
/// as it is.
pub fn flow_sides(hh: usize, ww: usize, tile: usize) -> (sides: (usize, usize))
    requires
        hh + 16 <= usize::MAX,
        ww + 16 <= usize::MAX,
        4 * tile <= usize::MAX,
    ensures
        sides.0 == 8 * flow_latent(hh as int, ww as int, tile as int).0,
        sides.1 == 8 * flow_latent(hh as int, ww as int, tile as int).1,
        hh <= sides.0 < hh + 16,
        ww <= sides.1 < ww + 16,
        flow_tile(sides.0 as int / 8, sides.1 as int / 8, tile as int) % 2 == 0,
        hh % 8 == 0 && ww % 8 == 0 && flow_tile(hh as int / 8, ww as int / 8, tile as int) % 2 == 0
            ==> sides == (hh, ww),
{
    let h: usize = (hh + (AE_FACTOR - 1)) / AE_FACTOR;
    let w: usize = (ww + (AE_FACTOR - 1)) / AE_FACTOR;
    let side: usize = flow_side(h, w, tile);
    if side % PATCH == 0 {
        return (h * AE_FACTOR, w * AE_FACTOR);
    }
    let h: usize = if h == side { h + 1 } else { h };
    let w: usize = if w == side { w + 1 } else { w };
    (h * AE_FACTOR, w * AE_FACTOR)
}

/// The latent that a picture is run on is the least: it holds the whole picture, its
/// tile is made of whole patches, and no latent of which both can be said is lower or
/// narrower.
pub proof fn law_flow_latent_is_least(hh: nat, ww: nat, tile: nat, h: nat, w: nat)
    ensures
        ({
            let (a, b) = flow_latent(hh as int, ww as int, tile as int);
            &&& hh <= 8 * a
            &&& ww <= 8 * b
            &&& flow_tile(a, b, tile as int) % 2 == 0
            &&& hh <= 8 * h && ww <= 8 * w && flow_tile(h as int, w as int, tile as int) % 2 == 0
                ==> a <= h && b <= w
        }),
{
}

/// The latent tile side for encoding and decoding.
pub open spec fn vae_tile(lh: int, lw: int) -> int {
    crate::tiling::max2(crate::tiling::min2(crate::tiling::min2(64, lh), lw), 1)
}

/// The overlap of neighbouring latent tiles that goes with it, less than a tile.
pub open spec fn vae_overlap(side: int) -> int {
    crate::tiling::min2(8, side - 1)
}

/// Plans the latent windows in which a picture is encoded and decoded.
pub fn vae_windows(lh: usize, lw: usize) -> (plan: WindowPlan)
    requires
        lh >= 1,
        lw >= 1,
    ensures
        plan.crosses(
            lh as int,
            lw as int,
            vae_tile(lh as int, lw as int),
            vae_overlap(vae_tile(lh as int, lw as int)),
        ),
        plan.fits(lh as int, lw as int),
        plan.covers(lh as int, lw as int),
{
    let low: usize = if VAE_LAT_TILE < lh { VAE_LAT_TILE } else { lh };
    let side: usize = if low < lw { low } else { lw };
    let lap: usize = if VAE_LAT_OVERLAP < side - 1 { VAE_LAT_OVERLAP } else { side - 1 };
    square_windows(lh, lw, side, lap)
}

/// Encoding and decoding windows are 64 cells a side; a latent that is shorter along an
/// axis cuts them to that.
pub proof fn law_vae_windows_are_large(lh: nat, lw: nat)
    requires
        lh >= 1,
        lw >= 1,
    ensures
        64 <= lh && 64 <= lw ==> vae_tile(lh as int, lw as int) == 64,
        lh <= lw && lh <= 64 ==> vae_tile(lh as int, lw as int) == lh,
        lw <= lh && lw <= 64 ==> vae_tile(lh as int, lw as int) == lw,
{
}

/// Neighbouring windows share eight cells, the later of two perhaps pushed back by the
/// far edge to share more; windows of eight cells or less share all cells but one.
pub proof fn law_vae_windows_share_eight_cells(lh: nat, lw: nat, length: nat, i: int)
    requires
        lh >= 1,
        lw >= 1,
        length == lh || length == lw,
        0 <= i,
        ({
            let side = vae_tile(lh as int, lw as int);
            i + 1 < grid_positions(length as int, side, vae_overlap(side)).len()
        }),
    ensures
        ({
            let side = vae_tile(lh as int, lw as int);
            let p = grid_positions(length as int, side, vae_overlap(side));
            let shared = p[i] + side - p[i + 1];
            &&& side > 8 ==> shared >= 8 && (p[i + 1] + side < length ==> shared == 8)
            &&& side <= 8 ==> shared == side - 1
        }),
{
    let side = vae_tile(lh as int, lw as int);
    let lap = vae_overlap(side);
    law_grid_is_regular(length, side as nat, lap as nat, side - lap, i);
    law_grid_overlaps(length, side as nat, lap as nat, i);
    law_grid_increasing(length, side as nat, lap as nat, i, i + 1);
}

/// The latent tile side of the one-step model.
pub open spec fn one_step_tile(lh: int, lw: int, tile: int) -> int {
    let longer = crate::tiling::max2(lh, lw);
    let bounded = if tile < 8 { 8 } else if tile > longer { longer } else { tile };
    crate::tiling::min2(crate::tiling::min2(bounded, lh), lw)
}

/// The plan's windows are the tiles of the one-step model.
pub open spec fn is_one_step_plan(
    p: WindowPlan,
    lh: int,
    lw: int,
    tile: int,
    overlap: int,
) -> bool {
    let g = crate::tiling::geometry(lw, lh, one_step_tile(lh, lw, tile), overlap);
    &&& p.th == g.th()
    &&& p.tw == g.tw()
    &&& p.windows@.len() == g.count()
    &&& forall|k: int|
        #![trigger p.windows@[k]]
        0 <= k < p.windows@.len() ==> p.windows@[k].row == g.y0(k) && p.windows@[k].col == g.x0(k)
}

/// The windows in which the one-step model runs over its latent, or nothing where
/// the latent is one tile, or smaller than the smallest one, and is run as a whole.
pub fn one_step_windows(lh: usize, lw: usize, tile: usize, overlap: usize) -> (plan: Option<
    WindowPlan,
>)
    requires
        lh * lw <= usize::MAX,
    ensures
        plan is None <==> (lh < 8 && lw < 8) || (lh <= one_step_tile(
            lh as int,
            lw as int,
            tile as int,
        ) && lw <= one_step_tile(lh as int, lw as int, tile as int)),
        plan matches Some(p) ==> {
            &&& is_one_step_plan(p, lh as int, lw as int, tile as int, overlap as int)
            &&& p.fits(lh as int, lw as int)
            &&& p.covers(lh as int, lw as int)
        },
{
    let longer: usize = if lh > lw { lh } else { lw };
    if longer < 8 {
        return None;
    }
    let bounded: usize = if tile < 8 { 8 } else if tile > longer { longer } else { tile };
    let low: usize = if bounded < lh { bounded } else { lh };
    let side: usize = if low < lw { low } else { lw };
    if lh <= side && lw <= side {
        return None;
    }
    proof {
        assert(lw * lh == lh * lw) by (nonlinear_arith);
    }
    let (origins, th, tw, _total) = tile_origins(lw, lh, side, overlap);
    let ghost g = crate::tiling::geometry(lw as int, lh as int, side as int, overlap as int);
    let mut windows: Vec<Window> = Vec::new();
    let mut k: usize = 0;
    while k < origins.len()
        invariant
            k <= origins@.len(),
            g == crate::tiling::geometry(lw as int, lh as int, side as int, overlap as int),
            origins@.len() == g.count(),
            th == g.th(),
            tw == g.tw(),
            forall|i: int|
                0 <= i < origins@.len() ==> (#[trigger] origins@[i]).0 == g.y0(i) && origins@[i].1
                    == g.x0(i),
            windows@.len() == k,
            forall|i: int|
                #![trigger windows@[i]]
                0 <= i < k ==> windows@[i].row == g.y0(i) && windows@[i].col == g.x0(i)
                    && windows@[i].row + th + windows@[i].below == lh && windows@[i].col + tw
                    + windows@[i].right == lw,
        decreases origins@.len() - k,
    {
        let (row, col) = origins[k];
        proof {
            crate::tiling::lemma_geometry_valid(lw as int, lh as int, side as int, overlap as int);
            crate::tiling::lemma_tile_in_bounds(g, k as int);
        }
        windows.push(Window { row, col, below: lh - row - th, right: lw - col - tw });
        k = k + 1;
    }
    let plan = WindowPlan { th, tw, windows };
    proof {
        crate::tiling::lemma_geometry_valid(lw as int, lh as int, side as int, overlap as int);
        assert forall|x: int, y: int| 0 <= x < lw && 0 <= y < lh implies #[trigger]
            plan.covers_point(x, y) by {
            crate::tiling::lemma_holder(g, x, y);
            assert(plan.holds(crate::tiling::holder(g, x, y), x, y));
        }
    }
    Some(plan)
}

/// The one-step model's tile is the one asked for, at least 8 cells, and cut to the
/// latent along an axis that is shorter. Its windows then have that side, or the whole
/// axis along one that is shorter.
pub proof fn law_one_step_windows_have_the_side_asked_for(
    lh: nat,
    lw: nat,
    tile: nat,
    overlap: nat,
    asked: int,
)
    requires
        tile >= 8 ==> asked == tile,
        tile < 8 ==> asked == 8,
        lh >= 8 || lw >= 8,
    ensures
        ({
            let side = one_step_tile(lh as int, lw as int, tile as int);
            let g = crate::tiling::geometry(lw as int, lh as int, side, overlap as int);
            &&& asked <= lh && asked <= lw ==> side == asked && g.th() == asked && g.tw() == asked
            &&& lh <= lw && lh <= asked ==> side == lh && g.th() == lh
            &&& lw <= lh && lw <= asked ==> side == lw && g.tw() == lw
            &&& lh >= 8 && lw >= 8 ==> g.th() == side && g.tw() == side
            &&& lh < 8 ==> g.th() == lh && g.tw() == 8
            &&& lw < 8 ==> g.tw() == lw && g.th() == 8
        }),
{
}

/// The one-step model runs a latent in windows exactly where it has a side of eight
/// cells or more and one that is longer than the window.
pub proof fn law_one_step_runs_whole_what_fits(lh: nat, lw: nat, tile: nat)
    requires
        lh >= 8 || lw >= 8,
    ensures
        ({
            let side = one_step_tile(lh as int, lw as int, tile as int);
            let whole = lh <= side && lw <= side;
            &&& whole ==> lh == lw && side == lh
            &&& whole <==> lh == lw && (lh <= tile || lh <= 8)
        }),
{
}

/// A window and its margins make up the plane along both axes, and a point that a plan
/// covers lies between the edges of one of its windows.
pub proof fn law_windows_make_up_the_plane(plan: WindowPlan, h: int, w: int, k: int, x: int, y: int)
    requires
        plan.fits(h, w),
        plan.covers(h, w),
        0 <= k < plan.windows@.len(),
        0 <= x < w,
        0 <= y < h,
    ensures
        plan.windows@[k].row + plan.th + plan.windows@[k].below == h,
        plan.windows@[k].col + plan.tw + plan.windows@[k].right == w,
        exists|i: int|
            {
                &&& 0 <= i < plan.windows@.len()
                &&& #[trigger] plan.windows@[i].row <= y
                &&& y < plan.windows@[i].row + plan.th
                &&& plan.windows@[i].col <= x
                &&& x < plan.windows@[i].col + plan.tw
            },
{
    assert(plan.covers_point(x, y));
    let i = choose|i: int| 0 <= i < plan.windows@.len() && #[trigger] plan.holds(i, x, y);
    let win = plan.windows@[i];
}

/// The windows of the one-step model have the side asked for and overlap as asked for, as
/// far as half a window allows it: the next one in a row of `n` begins a side less the
/// overlap further, unless it would cross the far edge and ends at it instead, and so does
/// the next one down a column.
pub proof fn law_one_step_windows_overlap_as_asked_for(
    p: WindowPlan,
    lh: nat,
    lw: nat,
    tile: nat,
    overlap: nat,
    lap: int,
    n: int,
    k: int,
)
    requires
        is_one_step_plan(p, lh as int, lw as int, tile as int, overlap as int),
        8 <= tile,
        tile <= lh,
        tile <= lw,
        2 * overlap <= tile ==> lap == overlap,
        2 * overlap > tile ==> lap == tile / 2,
        n >= 1,
        (n - 1) * (tile - lap) < lw <= n * (tile - lap),
        0 <= k < p.windows@.len(),
    ensures
        ({
            let step = tile - lap;
            let here = p.windows@[k];
            &&& p.th == tile
            &&& p.tw == tile
            &&& p.windows@[0].row == 0 && p.windows@[0].col == 0
            &&& k % n + 1 < n ==> {
                let next = p.windows@[k + 1];
                &&& k + 1 < p.windows@.len()
                &&& next.row == here.row
                &&& here.col + step + tile <= lw ==> next.col == here.col + step
                &&& here.col + step + tile > lw ==> next.col + tile == lw
            }
            &&& k + n < p.windows@.len() ==> {
                let next = p.windows@[k + n];
                &&& next.col == here.col
                &&& here.row + step + tile <= lh ==> next.row == here.row + step
                &&& here.row + step + tile > lh ==> next.row + tile == lh
            }
        }),
{
    let side = one_step_tile(lh as int, lw as int, tile as int);
    let g = crate::tiling::geometry(lw as int, lh as int, side, overlap as int);
    assert(side == tile);
    crate::tiling::law_tiles_are_regular(lw, lh, tile, overlap, lap, k);
    crate::tiling::law_tiles_end_at_the_edges(lw, lh, tile, overlap, lap);
    let (cols, rows, step) = (g.cols(), g.rows(), tile - lap);
    assert(cols == n) by (nonlinear_arith)
        requires
            step >= 1,
            (cols - 1) * step < lw <= cols * step,
            (n - 1) * step < lw <= n * step,
    ;
    let first = p.windows@[0];
    let here = p.windows@[k];
    if k % n + 1 < n {
        vstd::arithmetic::div_mod::lemma_fundamental_div_mod(k, n);
        let q = k / n;
        assert(k + 1 < rows * n) by (nonlinear_arith)
            requires
                k == n * q + k % n,
                k % n + 1 < n,
                0 <= k < rows * n,
        ;
        let next = p.windows@[k + 1];
    }
    if k + n < p.windows@.len() {
        let next = p.windows@[k + n];
    }
}

} // verus!
