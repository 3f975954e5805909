//! Tile geometry.
//!
//! An image is cut into overlapping tiles, each tile is upscaled on its own, and
//! the results are summed into one buffer together with a per-pixel count of the
//! tiles that covered it. Dividing by the count blends the overlaps.

use vstd::prelude::*;

verus! {

/// The fixed factor by which every model enlarges its input.
pub const SCALE: usize = 4;

/// The larger of two integers.
pub open spec fn max2(a: int, b: int) -> int {
    if a >= b { a } else { b }
}

/// The smaller of two integers.
pub open spec fn min2(a: int, b: int) -> int {
    if a <= b { a } else { b }
}

/// How many multiples of `step`, starting at zero, are below `len`.
pub open spec fn step_count(len: int, step: int) -> int {
    (len + step - 1) / step
}

/// The tile side actually used: the requested one, at least 8, and no larger
/// than the longer image side (or 8, where the image is smaller than that).
pub open spec fn effective_tile(width: int, height: int, tile: int) -> int {
    let longest = max2(max2(width, height), 8);
    if tile < 8 { 8 } else if tile > longest { longest } else { tile }
}

/// The distance between neighbouring tiles; the overlap is at most half a tile.
pub open spec fn tile_stride(tile: int, overlap: int) -> int {
    max2(tile - min2(overlap, tile / 2), 1)
}

/// Where a tile that was laid at `start` begins once it has been slid back so
/// that it ends inside `len`.
pub open spec fn slid(start: int, tile: int, len: int) -> int {
    max2(min2(start + tile, len) - tile, 0)
}

/// The geometry of a tiled run over one image.
pub struct TileGeometry {
    pub width: int,
    pub height: int,
    pub tile: int,
    pub stride: int,
}

impl TileGeometry {
    /// Number of tile columns.
    pub open spec fn cols(self) -> int {
        step_count(self.width, self.stride)
    }

    /// Number of tile rows.
    pub open spec fn rows(self) -> int {
        step_count(self.height, self.stride)
    }

    /// Number of tiles.
    pub open spec fn count(self) -> int {
        self.rows() * self.cols()
    }

    /// Height of each tile.
    pub open spec fn th(self) -> int {
        min2(self.tile, self.height)
    }

    /// Width of each tile.
    pub open spec fn tw(self) -> int {
        min2(self.tile, self.width)
    }

    /// Top row of the `k`-th tile, in row-major order.
    pub open spec fn y0(self, k: int) -> int {
        slid((k / self.cols()) * self.stride, self.tile, self.height)
    }

    /// Left column of the `k`-th tile, in row-major order.
    pub open spec fn x0(self, k: int) -> int {
        slid((k % self.cols()) * self.stride, self.tile, self.width)
    }

    /// Whether the `k`-th tile holds the pixel at column `x`, row `y`.
    pub open spec fn holds(self, k: int, x: int, y: int) -> bool {
        &&& self.x0(k) <= x < self.x0(k) + self.tw()
        &&& self.y0(k) <= y < self.y0(k) + self.th()
    }
}

/// The geometry that the options `tile` and `overlap` give on an image.
pub open spec fn geometry(width: int, height: int, tile: int, overlap: int) -> TileGeometry {
    let t = effective_tile(width, height, tile);
    TileGeometry { width, height, tile: t, stride: tile_stride(t, overlap) }
}

/// `k` is among the steps below `len` exactly when `k * step` is below `len`.
pub proof fn lemma_step_count(len: int, step: int, k: int)
    requires
        step > 0,
        len >= 0,
        k >= 0,
    ensures
        k < step_count(len, step) <==> k * step < len,
        step_count(len, step) >= 0,
{
    let n = step_count(len, step);
    vstd::arithmetic::div_mod::lemma_fundamental_div_mod(len + step - 1, step);
    vstd::arithmetic::div_mod::lemma_mod_bound(len + step - 1, step);
    let r = (len + step - 1) % step;
    assert(len + step - 1 == step * n + r);
    assert(n >= 0) by (nonlinear_arith)
        requires
            step > 0,
            len >= 0,
            0 <= r < step,
            len + step - 1 == step * n + r,
    ;
    assert(k < n <==> k * step < len) by (nonlinear_arith)
        requires
            step > 0,
            len >= 0,
            k >= 0,
            0 <= r < step,
            len + step - 1 == step * n + r,
    ;
}

/// The starts of the tiles along one axis, each slid back from the far edge.
fn axis_origins(len: usize, tile: usize, stride: usize) -> (starts: Vec<usize>)
    requires
        stride >= 1,
    ensures
        starts@.len() == step_count(len as int, stride as int),
        forall|k: int|
            0 <= k < starts@.len() ==> #[trigger] starts@[k] == slid(
                k * stride,
                tile as int,
                len as int,
            ),
{
    let mut starts: Vec<usize> = Vec::new();
    let mut at: usize = 0;
    let mut inside: bool = len > 0;
    proof {
        lemma_step_count(len as int, stride as int, 0);
        assert(0 * stride == 0);
    }
    while inside
        invariant
            stride >= 1,
            inside ==> at < len && at == starts@.len() * stride,
            inside ==> starts@.len() < step_count(len as int, stride as int),
            !inside ==> starts@.len() == step_count(len as int, stride as int),
            forall|k: int|
                0 <= k < starts@.len() ==> #[trigger] starts@[k] == slid(
                    k * stride,
                    tile as int,
                    len as int,
                ),
        decreases (if inside { len - at } else { 0 }),
    {
        let end: usize = if tile < len - at { at + tile } else { len };
        let start: usize = if end > tile { end - tile } else { 0 };
        let ghost k = starts@.len() as int;
        starts.push(start);
        proof {
            lemma_step_count(len as int, stride as int, k + 1);
            assert((k + 1) * stride == k * stride + stride) by (nonlinear_arith);
        }
        if stride < len - at {
            at = at + stride;
        } else {
            inside = false;
        }
    }
    starts
}

/// Plans the tiles of a `width` by `height` image.
///
/// Tiles step by `tile - overlap`; one that would cross the far edge is slid back
/// to end at it. Returns the top-left corners as `(row, column)` in row-major
/// order, the tile height, the tile width, and the number of tiles to report
/// progress against (one for an empty image).
pub fn tile_origins(width: usize, height: usize, tile: usize, overlap: usize) -> (plan: (
    Vec<(usize, usize)>,
    usize,
    usize,
    usize,
))
    requires
        width * height <= usize::MAX,
    ensures
        ({
            let g = geometry(width as int, height as int, tile as int, overlap as int);
            &&& plan.0@.len() == g.count()
            &&& forall|k: int|
                0 <= k < plan.0@.len() ==> (#[trigger] plan.0@[k]).0 == g.y0(k) && plan.0@[k].1
                    == g.x0(k)
            &&& plan.1 == g.th()
            &&& plan.2 == g.tw()
            &&& plan.3 == max2(g.count(), 1)
        }),
{
    let longer: usize = if width > height { width } else { height };
    let longest: usize = if longer > 8 { longer } else { 8 };
    let side: usize = if tile < 8 { 8 } else if tile > longest { longest } else { tile };
    let lap: usize = if overlap < side / 2 { overlap } else { side / 2 };
    let stride: usize = side - lap;
    let ghost g = geometry(width as int, height as int, tile as int, overlap as int);
    let ys: Vec<usize> = axis_origins(height, side, stride);
    let xs: Vec<usize> = axis_origins(width, side, stride);
    let mut origins: Vec<(usize, usize)> = Vec::new();
    let ghost cols = xs@.len() as int;
    let ghost rows = ys@.len() as int;
    proof {
        lemma_counts_bounded(g);
        lemma_mul_le(rows, height as int, cols, width as int);
        assert(height * width == width * height) by (nonlinear_arith);
        assert(0 * cols == 0);
    }
    let mut r: usize = 0;
    while r < ys.len()
        invariant
            r <= ys@.len(),
            g == geometry(width as int, height as int, tile as int, overlap as int),
            g.cols() == cols == xs@.len(),
            g.rows() == rows == ys@.len(),
            rows * cols <= usize::MAX,
            origins@.len() == r * cols,
            forall|k: int| 0 <= k < ys@.len() ==> #[trigger] ys@[k] == slid(
                k * g.stride,
                g.tile,
                g.height,
            ),
            forall|k: int| 0 <= k < xs@.len() ==> #[trigger] xs@[k] == slid(
                k * g.stride,
                g.tile,
                g.width,
            ),
            forall|k: int|
                0 <= k < origins@.len() ==> (#[trigger] origins@[k]).0 == g.y0(k) && origins@[k].1
                    == g.x0(k),
        decreases ys@.len() - r,
    {
        let mut c: usize = 0;
        while c < xs.len()
            invariant
                r < ys@.len(),
                c <= xs@.len(),
                g == geometry(width as int, height as int, tile as int, overlap as int),
                g.cols() == cols == xs@.len(),
                g.rows() == rows == ys@.len(),
                origins@.len() == r * cols + c,
                ys@[r as int] == slid(r * g.stride, g.tile, g.height),
                forall|k: int| 0 <= k < xs@.len() ==> #[trigger] xs@[k] == slid(
                    k * g.stride,
                    g.tile,
                    g.width,
                ),
                forall|k: int|
                    0 <= k < origins@.len() ==> (#[trigger] origins@[k]).0 == g.y0(k)
                        && origins@[k].1 == g.x0(k),
            decreases xs@.len() - c,
        {
            proof {
                assert(origins@.len() == cols * r + c) by (nonlinear_arith)
                    requires
                        origins@.len() == r * cols + c,
                ;
                vstd::arithmetic::div_mod::lemma_fundamental_div_mod_converse(
                    origins@.len() as int,
                    cols,
                    r as int,
                    c as int,
                );
            }
            origins.push((ys[r], xs[c]));
            c = c + 1;
        }
        proof {
            assert((r + 1) * cols == r * cols + cols) by (nonlinear_arith);
        }
        r = r + 1;
    }
    let total: usize = if origins.len() > 1 { origins.len() } else { 1 };
    let th: usize = if side < height { side } else { height };
    let tw: usize = if side < width { side } else { width };
    (origins, th, tw, total)
}

/// Products of bounded factors are bounded.
proof fn lemma_mul_le(a: int, b: int, c: int, d: int)
    requires
        0 <= a <= b,
        0 <= c <= d,
    ensures
        0 <= a * c <= b * d,
{
    assert(0 <= a * c <= b * d) by (nonlinear_arith)
        requires
            0 <= a <= b,
            0 <= c <= d,
    ;
}

/// There are at most as many tile rows and columns as pixels along the axis.
proof fn lemma_counts_bounded(g: TileGeometry)
    requires
        g.width >= 0,
        g.height >= 0,
        g.stride >= 1,
    ensures
        0 <= g.cols() <= g.width,
        0 <= g.rows() <= g.height,
{
    lemma_step_count(g.width, g.stride, g.width);
    lemma_step_count(g.height, g.stride, g.height);
    let (w, h, s) = (g.width, g.height, g.stride);
    assert(w * s >= w && h * s >= h) by (nonlinear_arith)
        requires
            w >= 0,
            h >= 0,
            s >= 1,
    ;
}

impl TileGeometry {
    /// What [`geometry`] guarantees of its result.
    pub open spec fn valid(self) -> bool {
        &&& self.width >= 0
        &&& self.height >= 0
        &&& self.tile >= 8
        &&& 1 <= self.stride <= self.tile
    }
}

/// A tile laid at a multiple of the stride holds every position from there up to
/// the next multiple, and lies inside the axis.
proof fn lemma_axis(len: int, tile: int, stride: int, at: int)
    requires
        1 <= stride <= tile,
        0 <= at < len,
    ensures
        0 <= at / stride < step_count(len, stride),
        ({
            let start = slid((at / stride) * stride, tile, len);
            &&& 0 <= start <= at < start + min2(tile, len)
            &&& start + min2(tile, len) <= len
        }),
{
    let c = at / stride;
    vstd::arithmetic::div_mod::lemma_fundamental_div_mod(at, stride);
    vstd::arithmetic::div_mod::lemma_mod_bound(at, stride);
    assert(stride * c == c * stride) by (nonlinear_arith);
    assert(c >= 0) by (nonlinear_arith)
        requires
            at >= 0,
            stride >= 1,
            c * stride + at % stride == at,
            at % stride < stride,
    ;
    lemma_step_count(len, stride, c);
}

/// [`geometry`] keeps its promise.
pub proof fn lemma_geometry_valid(width: int, height: int, tile: int, overlap: int)
    requires
        width >= 0,
        height >= 0,
        overlap >= 0,
    ensures
        geometry(width, height, tile, overlap).valid(),
{
}

/// Every tile of a valid geometry lies inside the image.
pub proof fn lemma_tile_in_bounds(g: TileGeometry, k: int)
    requires
        g.valid(),
        0 <= k < g.count(),
    ensures
        0 <= g.x0(k) && g.x0(k) + g.tw() <= g.width,
        0 <= g.y0(k) && g.y0(k) + g.th() <= g.height,
{
    lemma_grid_position(g, k);
    lemma_axis(g.width, g.tile, g.stride, (k % g.cols()) * g.stride);
    lemma_axis(g.height, g.tile, g.stride, (k / g.cols()) * g.stride);
    vstd::arithmetic::div_mod::lemma_div_multiples_vanish(k % g.cols(), g.stride);
    vstd::arithmetic::div_mod::lemma_div_multiples_vanish(k / g.cols(), g.stride);
    let (a, b, s) = (k % g.cols(), k / g.cols(), g.stride);
    assert(a * s == s * a && b * s == s * b) by (nonlinear_arith);
}

/// Every tile lies inside the image.
pub proof fn law_tiles_in_bounds(width: nat, height: nat, tile: nat, overlap: nat, k: int)
    requires
        0 <= k < geometry(width as int, height as int, tile as int, overlap as int).count(),
    ensures
        ({
            let g = geometry(width as int, height as int, tile as int, overlap as int);
            &&& 0 <= g.x0(k) && g.x0(k) + g.tw() <= width
            &&& 0 <= g.y0(k) && g.y0(k) + g.th() <= height
        }),
{
    let g = geometry(width as int, height as int, tile as int, overlap as int);
    lemma_tile_in_bounds(g, k);
}

/// A tile number names a row and a column of the grid, and both start inside
/// the image.
proof fn lemma_grid_position(g: TileGeometry, k: int)
    requires
        g.valid(),
        0 <= k < g.count(),
    ensures
        0 <= k % g.cols() < g.cols(),
        0 <= k / g.cols() < g.rows(),
        0 <= (k % g.cols()) * g.stride < g.width,
        0 <= (k / g.cols()) * g.stride < g.height,
{
    lemma_counts_bounded(g);
    let cols = g.cols();
    let rows = g.rows();
    assert(cols > 0) by (nonlinear_arith)
        requires
            0 <= k < rows * cols,
            cols >= 0,
            rows >= 0,
    ;
    vstd::arithmetic::div_mod::lemma_mod_bound(k, cols);
    vstd::arithmetic::div_mod::lemma_fundamental_div_mod(k, cols);
    let q = k / cols;
    assert(0 <= q < rows) by (nonlinear_arith)
        requires
            k == cols * q + k % cols,
            0 <= k < rows * cols,
            0 <= k % cols < cols,
    ;
    lemma_step_count(g.width, g.stride, k % cols);
    lemma_step_count(g.height, g.stride, q);
    let (a, s) = (k % cols, g.stride);
    assert(a * s >= 0 && q * s >= 0) by (nonlinear_arith)
        requires
            a >= 0,
            q >= 0,
            s >= 1,
    ;
}

/// The number of a tile that holds the given pixel.
pub open spec fn holder(g: TileGeometry, x: int, y: int) -> int {
    (y / g.stride) * g.cols() + x / g.stride
}

/// In a valid geometry every pixel is held by the tile that [`holder`] names.
pub proof fn lemma_holder(g: TileGeometry, x: int, y: int)
    requires
        g.valid(),
        0 <= x < g.width,
        0 <= y < g.height,
    ensures
        0 <= holder(g, x, y) < g.count(),
        g.holds(holder(g, x, y), x, y),
{
    lemma_axis(g.width, g.tile, g.stride, x);
    lemma_axis(g.height, g.tile, g.stride, y);
    let (c, r, cols, rows) = (x / g.stride, y / g.stride, g.cols(), g.rows());
    let k = r * cols + c;
    assert(k == cols * r + c) by (nonlinear_arith)
        requires
            k == r * cols + c,
    ;
    vstd::arithmetic::div_mod::lemma_fundamental_div_mod_converse(k, cols, r, c);
    assert(0 <= k < rows * cols) by (nonlinear_arith)
        requires
            k == r * cols + c,
            0 <= c < cols,
            0 <= r < rows,
    ;
}

/// Every pixel of the image is held by at least one tile.
pub proof fn law_tiles_cover(width: nat, height: nat, tile: nat, overlap: nat, x: int, y: int)
    requires
        0 <= x < width,
        0 <= y < height,
    ensures
        exists|k: int|
            0 <= k < geometry(
                width as int,
                height as int,
                tile as int,
                overlap as int,
            ).count() && #[trigger] geometry(
                width as int,
                height as int,
                tile as int,
                overlap as int,
            ).holds(k, x, y),
{
    let g = geometry(width as int, height as int, tile as int, overlap as int);
    lemma_holder(g, x, y);
}

/// Neighbouring tiles of a row or of a column overlap by at least the overlap asked
/// for, as far as half a tile allows it.
pub proof fn law_neighbours_overlap(width: nat, height: nat, tile: nat, overlap: nat, k: int)
    requires
        0 <= k < geometry(width as int, height as int, tile as int, overlap as int).count(),
    ensures
        ({
            let g = geometry(width as int, height as int, tile as int, overlap as int);
            let reach = g.tile - min2(overlap as int, g.tile / 2);
            &&& k % g.cols() + 1 < g.cols() ==> g.y0(k + 1) == g.y0(k) && g.x0(k) <= g.x0(k + 1)
                <= g.x0(k) + reach
            &&& k + g.cols() < g.count() ==> g.x0(k + g.cols()) == g.x0(k) && g.y0(k) <= g.y0(
                k + g.cols(),
            ) <= g.y0(k) + reach
        }),
{
    let g = geometry(width as int, height as int, tile as int, overlap as int);
    let (cols, s) = (g.cols(), g.stride);
    lemma_grid_position(g, k);
    vstd::arithmetic::div_mod::lemma_fundamental_div_mod(k, cols);
    let (q, c) = (k / cols, k % cols);
    if c + 1 < cols {
        vstd::arithmetic::div_mod::lemma_fundamental_div_mod_converse(k + 1, cols, q, c + 1);
        assert((c + 1) * s == c * s + s) by (nonlinear_arith);
    }
    if k + cols < g.count() {
        assert(cols * (q + 1) == cols * q + cols) by (nonlinear_arith);
        vstd::arithmetic::div_mod::lemma_fundamental_div_mod_converse(k + cols, cols, q + 1, c);
        assert((q + 1) * s == q * s + s) by (nonlinear_arith);
    }
}

/// A tile side that can be had is used as it is: where the side asked for is at least
/// 8 and no longer than the longer side of the picture, every tile has that side along
/// each axis that is as long, and the whole axis along one that is shorter.
pub proof fn law_tiles_have_the_side_asked_for(width: nat, height: nat, tile: nat, overlap: nat)
    requires
        8 <= tile,
        tile <= width || tile <= height,
    ensures
        ({
            let g = geometry(width as int, height as int, tile as int, overlap as int);
            &&& tile <= width ==> g.tw() == tile
            &&& tile > width ==> g.tw() == width
            &&& tile <= height ==> g.th() == tile
            &&& tile > height ==> g.th() == height
        }),
{
}

/// A side below 8 is read as 8, and one longer than both sides of the picture as the
/// longer of them, so that each tile is the whole picture. On a picture of less than 8
/// by 8 every side is read as 8.
pub proof fn law_tile_sides_are_kept_in_range(width: nat, height: nat, tile: nat, overlap: nat)
    ensures
        tile < 8 ==> geometry(width as int, height as int, tile as int, overlap as int) == geometry(
            width as int,
            height as int,
            8,
            overlap as int,
        ),
        tile >= width >= height && width >= 8 ==> geometry(
            width as int,
            height as int,
            tile as int,
            overlap as int,
        ) == geometry(width as int, height as int, width as int, overlap as int),
        tile >= height >= width && height >= 8 ==> geometry(
            width as int,
            height as int,
            tile as int,
            overlap as int,
        ) == geometry(width as int, height as int, height as int, overlap as int),
        width < 8 && height < 8 ==> geometry(
            width as int,
            height as int,
            tile as int,
            overlap as int,
        ) == geometry(width as int, height as int, 8, overlap as int),
        tile >= 8 && tile >= width && tile >= height ==> {
            let g = geometry(width as int, height as int, tile as int, overlap as int);
            g.tw() == width && g.th() == height
        },
{
}

/// Tiles are laid out regularly: the first begins in the corner; each next one of a
/// row begins a side less the overlap further, unless it would cross the far edge and
/// ends at it instead. The overlap is the one asked for, or half a side where more
/// was asked for. The same holds down the columns.
pub proof fn law_tiles_are_regular(
    width: nat,
    height: nat,
    tile: nat,
    overlap: nat,
    lap: int,
    k: int,
)
    requires
        8 <= tile,
        tile <= width || tile <= height || tile == 8,
        2 * overlap <= tile ==> lap == overlap,
        2 * overlap > tile ==> lap == tile / 2,
        0 <= k < geometry(width as int, height as int, tile as int, overlap as int).count(),
    ensures
        ({
            let g = geometry(width as int, height as int, tile as int, overlap as int);
            let step = tile - lap;
            &&& g.x0(0) == 0 && g.y0(0) == 0
            &&& k % g.cols() == 0 ==> g.x0(k) == 0
            &&& k < g.cols() ==> g.y0(k) == 0
            &&& k % g.cols() + 1 < g.cols() ==> {
                &&& g.y0(k + 1) == g.y0(k)
                &&& g.x0(k) + step + tile <= width ==> g.x0(k + 1) == g.x0(k) + step
                &&& g.x0(k) + step + tile > width ==> g.x0(k + 1) + g.tw() == width
            }
            &&& k + g.cols() < g.count() ==> {
                &&& g.x0(k + g.cols()) == g.x0(k)
                &&& g.y0(k) + step + tile <= height ==> g.y0(k + g.cols()) == g.y0(k) + step
                &&& g.y0(k) + step + tile > height ==> g.y0(k + g.cols()) + g.th() == height
            }
        }),
{
    let g = geometry(width as int, height as int, tile as int, overlap as int);
    let (cols, s) = (g.cols(), g.stride);
    assert(s == tile - lap);
    lemma_grid_position(g, k);
    vstd::arithmetic::div_mod::lemma_fundamental_div_mod(k, cols);
    let (q, c) = (k / cols, k % cols);
    assert(0 * s == 0);
    vstd::arithmetic::div_mod::lemma_fundamental_div_mod_converse(0, cols, 0, 0);
    if k < cols {
        vstd::arithmetic::div_mod::lemma_fundamental_div_mod_converse(k, cols, 0, k);
    }
    if c + 1 < cols {
        vstd::arithmetic::div_mod::lemma_fundamental_div_mod_converse(k + 1, cols, q, c + 1);
        assert((c + 1) * s == c * s + s) by (nonlinear_arith);
    }
    if k + cols < g.count() {
        assert(cols * (q + 1) == cols * q + cols) by (nonlinear_arith);
        vstd::arithmetic::div_mod::lemma_fundamental_div_mod_converse(k + cols, cols, q + 1, c);
        assert((q + 1) * s == q * s + s) by (nonlinear_arith);
    }
}

/// There are as many tiles as it takes: along each axis, one for every step that
/// begins inside it and none that begins beyond it. So the tiles of the last row and
/// of the last column end at the far edges.
pub proof fn law_tiles_end_at_the_edges(
    width: nat,
    height: nat,
    tile: nat,
    overlap: nat,
    lap: int,
)
    requires
        8 <= tile,
        tile <= width || tile <= height || tile == 8,
        width > 0,
        height > 0,
        2 * overlap <= tile ==> lap == overlap,
        2 * overlap > tile ==> lap == tile / 2,
    ensures
        ({
            let g = geometry(width as int, height as int, tile as int, overlap as int);
            let (step, last) = (tile - lap, g.count() - 1);
            &&& (g.cols() - 1) * step < width <= g.cols() * step
            &&& (g.rows() - 1) * step < height <= g.rows() * step
            &&& g.count() == g.rows() * g.cols()
            &&& g.count() >= 1
            &&& g.x0(last) + g.tw() == width
            &&& g.y0(last) + g.th() == height
        }),
{
    let g = geometry(width as int, height as int, tile as int, overlap as int);
    let (cols, rows, s) = (g.cols(), g.rows(), g.stride);
    assert(s == tile - lap);
    lemma_step_count(width as int, s, 0);
    lemma_step_count(height as int, s, 0);
    assert(0 * s == 0);
    lemma_step_count(width as int, s, cols - 1);
    lemma_step_count(width as int, s, cols);
    lemma_step_count(height as int, s, rows - 1);
    lemma_step_count(height as int, s, rows);
    let k = rows * cols - 1;
    assert(rows * cols - 1 == cols * (rows - 1) + (cols - 1) && rows * cols >= 1) by (nonlinear_arith)
        requires
            rows >= 1,
            cols >= 1,
    ;
    vstd::arithmetic::div_mod::lemma_fundamental_div_mod_converse(k, cols, rows - 1, cols - 1);
    assert((cols - 1) * s + s == cols * s && (rows - 1) * s + s == rows * s) by (nonlinear_arith);
}

/// The two axes are treated alike: turning the picture on its side turns the tiles.
pub proof fn law_tiles_turn_with_the_picture(
    width: nat,
    height: nat,
    tile: nat,
    overlap: nat,
    r: int,
    c: int,
)
    requires
        0 <= r < geometry(width as int, height as int, tile as int, overlap as int).rows(),
        0 <= c < geometry(width as int, height as int, tile as int, overlap as int).cols(),
    ensures
        ({
            let g = geometry(width as int, height as int, tile as int, overlap as int);
            let t = geometry(height as int, width as int, tile as int, overlap as int);
            &&& t.rows() == g.cols()
            &&& t.cols() == g.rows()
            &&& t.count() == g.count()
            &&& t.th() == g.tw()
            &&& t.tw() == g.th()
            &&& t.y0(c * t.cols() + r) == g.x0(r * g.cols() + c)
            &&& t.x0(c * t.cols() + r) == g.y0(r * g.cols() + c)
        }),
{
    let g = geometry(width as int, height as int, tile as int, overlap as int);
    let t = geometry(height as int, width as int, tile as int, overlap as int);
    let (rows, cols) = (g.rows(), g.cols());
    assert(rows * cols == cols * rows) by (nonlinear_arith);
    assert(r * cols + c == cols * r + c && c * rows + r == rows * c + r) by (nonlinear_arith);
    vstd::arithmetic::div_mod::lemma_fundamental_div_mod_converse(r * cols + c, cols, r, c);
    vstd::arithmetic::div_mod::lemma_fundamental_div_mod_converse(c * rows + r, rows, c, r);
}

/// How many of the first `n` tiles hold the pixel.
pub open spec fn cover_count(g: TileGeometry, n: nat, x: int, y: int) -> nat
    decreases n,
{
    if n == 0 {
        0
    } else {
        cover_count(g, (n - 1) as nat, x, y) + if g.holds(n - 1, x, y) {
            1nat
        } else {
            0nat
        }
    }
}

/// A pixel is held by no more tiles than there are, and by at least one if one of
/// them holds it.
pub proof fn lemma_cover_count(g: TileGeometry, n: nat, x: int, y: int, k: int)
    ensures
        cover_count(g, n, x, y) <= n,
        0 <= k < n && g.holds(k, x, y) ==> cover_count(g, n, x, y) >= 1,
    decreases n,
{
    if n > 0 {
        lemma_cover_count(g, (n - 1) as nat, x, y, k);
    }
}

/// The divisor of the blend is never zero: once all tiles are in, every pixel has
/// been counted at least once.
pub proof fn law_every_pixel_counted(
    width: nat,
    height: nat,
    tile: nat,
    overlap: nat,
    x: int,
    y: int,
)
    requires
        0 <= x < width,
        0 <= y < height,
    ensures
        ({
            let g = geometry(width as int, height as int, tile as int, overlap as int);
            1 <= cover_count(g, g.count() as nat, x, y) <= g.count()
        }),
{
    let g = geometry(width as int, height as int, tile as int, overlap as int);
    lemma_pixel_counted(g, x, y);
}

/// In a valid geometry every pixel is counted, and no more often than there are
/// tiles.
pub proof fn lemma_pixel_counted(g: TileGeometry, x: int, y: int)
    requires
        g.valid(),
        0 <= x < g.width,
        0 <= y < g.height,
    ensures
        1 <= cover_count(g, g.count() as nat, x, y) <= g.count(),
{
    lemma_holder(g, x, y);
    lemma_cover_count(g, g.count() as nat, x, y, holder(g, x, y));
}

/// What a pixel is counted is the number of different tiles, among the first `n`, whose
/// rectangle it lies in.
pub proof fn law_cover_is_counted(g: TileGeometry, n: nat, x: int, y: int)
    ensures
        ({
            let held = Set::new(
                |k: int|
                    0 <= k < n && g.x0(k) <= x < g.x0(k) + g.tw() && g.y0(k) <= y < g.y0(k)
                        + g.th(),
            );
            held.finite() && cover_count(g, n, x, y) == held.len()
        }),
    decreases n,
{
    let held = Set::new(
        |k: int|
            0 <= k < n && g.x0(k) <= x < g.x0(k) + g.tw() && g.y0(k) <= y < g.y0(k) + g.th(),
    );
    if n == 0 {
        assert(held =~= Set::empty());
    } else {
        let m = (n - 1) as nat;
        law_cover_is_counted(g, m, x, y);
        let before = Set::new(
            |k: int|
                0 <= k < m && g.x0(k) <= x < g.x0(k) + g.tw() && g.y0(k) <= y < g.y0(k) + g.th(),
        );
        if g.holds(n - 1, x, y) {
            assert(held =~= before.insert(n - 1));
            assert(!before.contains(n - 1));
        } else {
            assert(held =~= before);
        }
    }
}

} // verus!
