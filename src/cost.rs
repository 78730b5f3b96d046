//! The mathematical model of block matching: per-pixel differences, block
//! sums and the first-minimum rule, with the arithmetic facts behind them.
use vstd::arithmetic::div_mod::lemma_fundamental_div_mod;
use vstd::arithmetic::div_mod::lemma_fundamental_div_mod_converse;
use vstd::prelude::*;

verus! {

/// Difference charged for a candidate whose left sample would lie past the
/// right edge of the row.
pub const SATURATED_DIFF: u8 = 255;

/// Absolute difference of two samples.
pub open spec fn abs_diff(a: u8, b: u8) -> int {
    if a >= b {
        a - b
    } else {
        b - a
    }
}

/// `|left(x + k, y) - right(x, y)|` over row-major samples of the given width,
/// saturated to 255 when `x + k` falls outside the row.
pub open spec fn pixel_diff(left: Seq<u8>, right: Seq<u8>, width: int, x: int, y: int, k: int) -> int {
    if x + k < width {
        abs_diff(left[y * width + x + k], right[y * width + x])
    } else {
        SATURATED_DIFF as int
    }
}

/// Position of `(x, y, k)` in a difference volume laid out pixel by pixel,
/// candidates innermost.
pub open spec fn volume_index(width: int, max_disparity: int, x: int, y: int, k: int) -> int {
    (y * width + x) * max_disparity + k
}

/// Sum of `f(x, y)` for `x` in `[x0, x0 + cols)`.
pub open spec fn row_sum(f: spec_fn(int, int) -> int, x0: int, y: int, cols: int) -> int
    decreases cols,
{
    if cols <= 0 {
        0
    } else {
        row_sum(f, x0, y, cols - 1) + f(x0 + cols - 1, y)
    }
}

/// Sum of `f(x, y)` over the rectangle `[x0, x0 + cols) x [y0, y0 + rows)`.
pub open spec fn rect_sum(f: spec_fn(int, int) -> int, x0: int, y0: int, cols: int, rows: int) -> int
    decreases rows,
{
    if rows <= 0 {
        0
    } else {
        rect_sum(f, x0, y0, cols, rows - 1) + row_sum(f, x0, y0 + rows - 1, cols)
    }
}

/// The cost of candidate `k` at every pixel, computed from the two images.
pub open spec fn pixel_diffs(left: Seq<u8>, right: Seq<u8>, width: int, k: int) -> spec_fn(int, int) -> int {
    |x: int, y: int| pixel_diff(left, right, width, x, y, k)
}

/// The cost of candidate `k` at every pixel, read from a difference volume.
pub open spec fn volume_diffs(diffs: Seq<u8>, width: int, max_disparity: int, k: int) -> spec_fn(int, int) -> int {
    |x: int, y: int| diffs[volume_index(width, max_disparity, x, y, k)] as int
}

/// Summed difference of block `(bx, by)` for candidate `k`, from the images.
pub open spec fn pixel_costs(left: Seq<u8>, right: Seq<u8>, width: int, block_width: int, block_height: int) -> spec_fn(int, int, int) -> int {
    |bx: int, by: int, k: int|
        rect_sum(
            pixel_diffs(left, right, width, k),
            bx * block_width,
            by * block_height,
            block_width,
            block_height,
        )
}

/// Summed difference of block `(bx, by)` for candidate `k`, from a volume.
pub open spec fn volume_costs(diffs: Seq<u8>, width: int, max_disparity: int, block_width: int, block_height: int) -> spec_fn(int, int, int) -> int {
    |bx: int, by: int, k: int|
        rect_sum(
            volume_diffs(diffs, width, max_disparity, k),
            bx * block_width,
            by * block_height,
            block_width,
            block_height,
        )
}

/// `k` is the smallest candidate in `[0, max_disparity)` of least cost for
/// block `(bx, by)`: scanning upwards, it is the first minimum.
pub open spec fn is_first_min(costs: spec_fn(int, int, int) -> int, bx: int, by: int, max_disparity: int, k: int) -> bool {
    &&& 0 <= k < max_disparity
    &&& forall|j: int| 0 <= j < max_disparity ==> costs(bx, by, k) <= #[trigger] costs(bx, by, j)
    &&& forall|j: int| 0 <= j < k ==> costs(bx, by, k) < #[trigger] costs(bx, by, j)
}

/// Entry of a row-major grid of the given width.
pub open spec fn grid_cell(cells: Seq<usize>, grid_width: int, bx: int, by: int) -> int {
    cells[by * grid_width + bx] as int
}

/// A row-major `grid_width x grid_height` grid holding, for every block, its
/// first-minimum candidate under `costs`.
pub open spec fn is_argmin_grid(cells: Seq<usize>, grid_width: int, grid_height: int, max_disparity: int, costs: spec_fn(int, int, int) -> int) -> bool {
    &&& cells.len() == grid_width * grid_height
    &&& forall|bx: int, by: int|
        0 <= bx < grid_width && 0 <= by < grid_height ==> is_first_min(
            costs,
            bx,
            by,
            max_disparity,
            #[trigger] grid_cell(cells, grid_width, bx, by),
        )
}

/// Row-major position: `i == y * w + x` with `x < w` decodes to `(x, y)`.
pub proof fn lemma_row_major(i: int, w: int, x: int, y: int)
    requires
        0 <= x < w,
        i == y * w + x,
    ensures
        i % w == x,
        i / w == y,
{
    lemma_fundamental_div_mod_converse(i, w, y, x);
}

/// A pixel inside a `width x height` image has a row-major index inside it.
pub proof fn lemma_pixel_index(width: int, height: int, x: int, y: int)
    requires
        0 <= x < width,
        0 <= y < height,
    ensures
        0 <= y * width + x < width * height,
{
    assert(0 <= y * width + x < width * height) by (nonlinear_arith)
        requires
            0 <= x < width,
            0 <= y < height,
    ;
}

/// Volume positions of in-range triples lie inside the volume and decode back.
pub proof fn lemma_volume_index(width: int, height: int, max_disparity: int, x: int, y: int, k: int)
    requires
        0 <= x < width,
        0 <= y < height,
        0 <= k < max_disparity,
    ensures
        0 <= volume_index(width, max_disparity, x, y, k) < width * height * max_disparity,
        volume_index(width, max_disparity, x, y, k) % max_disparity == k,
        volume_index(width, max_disparity, x, y, k) / max_disparity == y * width + x,
{
    let p = y * width + x;
    lemma_pixel_index(width, height, x, y);
    assert(0 <= p * max_disparity + k < width * height * max_disparity) by (nonlinear_arith)
        requires
            0 <= p < width * height,
            0 <= k < max_disparity,
    ;
    lemma_fundamental_div_mod_converse(p * max_disparity + k, max_disparity, p, k);
}

/// A block of a grid of `total / size` whole blocks ends inside the image.
pub proof fn lemma_block_in_bounds(b: int, size: int, total: int)
    requires
        0 < size,
        0 <= total,
        0 <= b < total / size,
    ensures
        0 <= b * size,
        b * size + size <= total,
        size <= total,
{
    lemma_fundamental_div_mod(total, size);
    let q = total / size;
    assert(b * size + size <= q * size) by (nonlinear_arith)
        requires
            b + 1 <= q,
            0 < size,
    ;
    assert(0 <= b * size) by (nonlinear_arith)
        requires
            0 <= b,
            0 < size,
    ;
    assert(size * q == q * size) by (nonlinear_arith);
}

/// Sums of two functions that agree on a row are equal.
pub proof fn lemma_row_sum_ext(f: spec_fn(int, int) -> int, g: spec_fn(int, int) -> int, x0: int, y: int, cols: int)
    requires
        forall|x: int| x0 <= x < x0 + cols ==> #[trigger] f(x, y) == g(x, y),
    ensures
        row_sum(f, x0, y, cols) == row_sum(g, x0, y, cols),
    decreases cols,
{
    if cols > 0 {
        lemma_row_sum_ext(f, g, x0, y, cols - 1);
        assert(f(x0 + cols - 1, y) == g(x0 + cols - 1, y));
    }
}

/// Sums of two functions that agree on a rectangle are equal.
pub proof fn lemma_rect_sum_ext(f: spec_fn(int, int) -> int, g: spec_fn(int, int) -> int, x0: int, y0: int, cols: int, rows: int)
    requires
        forall|x: int, y: int| x0 <= x < x0 + cols && y0 <= y < y0 + rows ==> #[trigger] f(x, y) == g(x, y),
    ensures
        rect_sum(f, x0, y0, cols, rows) == rect_sum(g, x0, y0, cols, rows),
    decreases rows,
{
    if rows > 0 {
        lemma_rect_sum_ext(f, g, x0, y0, cols, rows - 1);
        lemma_row_sum_ext(f, g, x0, y0 + rows - 1, cols);
    }
}

/// A row sum of non-negative terms is non-negative, and zero when every term is.
pub proof fn lemma_row_sum_nonneg(f: spec_fn(int, int) -> int, x0: int, y: int, cols: int)
    requires
        forall|x: int| x0 <= x < x0 + cols ==> 0 <= #[trigger] f(x, y),
    ensures
        0 <= row_sum(f, x0, y, cols),
        (forall|x: int| x0 <= x < x0 + cols ==> #[trigger] f(x, y) == 0) ==> row_sum(f, x0, y, cols) == 0,
    decreases cols,
{
    if cols > 0 {
        lemma_row_sum_nonneg(f, x0, y, cols - 1);
        assert(0 <= f(x0 + cols - 1, y));
    }
}

/// A rectangle sum of non-negative terms is non-negative, and zero when every
/// term is.
pub proof fn lemma_rect_sum_nonneg(f: spec_fn(int, int) -> int, x0: int, y0: int, cols: int, rows: int)
    requires
        forall|x: int, y: int| x0 <= x < x0 + cols && y0 <= y < y0 + rows ==> 0 <= #[trigger] f(x, y),
    ensures
        0 <= rect_sum(f, x0, y0, cols, rows),
        (forall|x: int, y: int| x0 <= x < x0 + cols && y0 <= y < y0 + rows ==> #[trigger] f(x, y) == 0)
            ==> rect_sum(f, x0, y0, cols, rows) == 0,
    decreases rows,
{
    if rows > 0 {
        lemma_rect_sum_nonneg(f, x0, y0, cols, rows - 1);
        lemma_row_sum_nonneg(f, x0, y0 + rows - 1, cols);
    }
}

/// The first minimum of a block is unique.
pub proof fn lemma_first_min_unique(costs: spec_fn(int, int, int) -> int, bx: int, by: int, max_disparity: int, k1: int, k2: int)
    requires
        is_first_min(costs, bx, by, max_disparity, k1),
        is_first_min(costs, bx, by, max_disparity, k2),
    ensures
        k1 == k2,
{
    if k1 < k2 {
        assert(costs(bx, by, k2) < costs(bx, by, k1));
        assert(costs(bx, by, k1) <= costs(bx, by, k2));
    } else if k2 < k1 {
        assert(costs(bx, by, k1) < costs(bx, by, k2));
        assert(costs(bx, by, k2) <= costs(bx, by, k1));
    }
}

/// Every position of a row-major `grid_width x grid_height` grid is the
/// cell `(i % grid_width, i / grid_width)`.
pub proof fn lemma_cell_of_index(i: int, grid_width: int, grid_height: int)
    requires
        0 <= grid_width,
        0 <= grid_height,
        0 <= i < grid_width * grid_height,
    ensures
        0 < grid_width,
        0 <= i % grid_width < grid_width,
        0 <= i / grid_width < grid_height,
        i == (i / grid_width) * grid_width + i % grid_width,
{
    assert(grid_width > 0) by (nonlinear_arith)
        requires
            0 <= i < grid_width * grid_height,
            grid_width >= 0,
            grid_height >= 0,
    ;
    lemma_fundamental_div_mod(i, grid_width);
    let bx = i % grid_width;
    let by = i / grid_width;
    assert(i == by * grid_width + bx) by (nonlinear_arith)
        requires
            i == grid_width * (i / grid_width) + i % grid_width,
            by == i / grid_width,
            bx == i % grid_width,
    ;
    assert(0 <= by < grid_height) by (nonlinear_arith)
        requires
            i == by * grid_width + bx,
            0 <= bx < grid_width,
            0 <= i < grid_width * grid_height,
    ;
}

/// Two argmin grids over the same costs hold the same cells.
pub proof fn lemma_argmin_grid_unique(a: Seq<usize>, b: Seq<usize>, grid_width: int, grid_height: int, max_disparity: int, costs: spec_fn(int, int, int) -> int)
    requires
        0 <= grid_width,
        0 <= grid_height,
        is_argmin_grid(a, grid_width, grid_height, max_disparity, costs),
        is_argmin_grid(b, grid_width, grid_height, max_disparity, costs),
    ensures
        a == b,
{
    assert forall|i: int| 0 <= i < a.len() implies a[i] == b[i] by {
        lemma_cell_of_index(i, grid_width, grid_height);
        let bx = i % grid_width;
        let by = i / grid_width;
        assert(grid_cell(a, grid_width, bx, by) == a[i] as int);
        assert(grid_cell(b, grid_width, bx, by) == b[i] as int);
        lemma_first_min_unique(costs, bx, by, max_disparity, a[i] as int, b[i] as int);
    }
    assert(a =~= b);
}

/// An argmin grid stays one when the costs are replaced by costs that agree
/// on every block and candidate of the grid.
pub proof fn lemma_argmin_grid_transfer(cells: Seq<usize>, grid_width: int, grid_height: int, max_disparity: int, c1: spec_fn(int, int, int) -> int, c2: spec_fn(int, int, int) -> int)
    requires
        is_argmin_grid(cells, grid_width, grid_height, max_disparity, c1),
        forall|bx: int, by: int, k: int|
            0 <= bx < grid_width && 0 <= by < grid_height && 0 <= k < max_disparity ==> #[trigger] c1(bx, by, k) == c2(bx, by, k),
    ensures
        is_argmin_grid(cells, grid_width, grid_height, max_disparity, c2),
{
    assert forall|bx: int, by: int| 0 <= bx < grid_width && 0 <= by < grid_height implies is_first_min(
        c2,
        bx,
        by,
        max_disparity,
        #[trigger] grid_cell(cells, grid_width, bx, by),
    ) by {
        let k = grid_cell(cells, grid_width, bx, by);
        assert(is_first_min(c1, bx, by, max_disparity, k));
        assert(c1(bx, by, k) == c2(bx, by, k));
        assert forall|j: int| 0 <= j < max_disparity implies c2(bx, by, k) <= #[trigger] c2(bx, by, j) by {
            assert(c1(bx, by, j) == c2(bx, by, j));
            assert(c1(bx, by, k) <= c1(bx, by, j));
        }
        assert forall|j: int| 0 <= j < k implies c2(bx, by, k) < #[trigger] c2(bx, by, j) by {
            assert(c1(bx, by, j) == c2(bx, by, j));
            assert(c1(bx, by, k) < c1(bx, by, j));
        }
    }
}

} // verus!
