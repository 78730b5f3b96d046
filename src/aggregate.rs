//! The block aggregator: sums each whole block's differences per candidate and
//! keeps the first candidate of least sum; and the full pipeline from two
//! images to a disparity grid.
use crate::cost::{
    is_argmin_grid, is_first_min, lemma_argmin_grid_transfer, lemma_block_in_bounds, lemma_pixel_index,
    lemma_rect_sum_ext, lemma_row_major, lemma_volume_index, pixel_costs, pixel_diffs, rect_sum, row_sum,
    volume_costs, volume_diffs, grid_cell,
};
use crate::kernel::{compute_differences, volume_holds_diffs};
use crate::model::{same_shape, DifferenceVolume, DisparityError, DisparityGrid, GrayscaleImage, PartitionStrategy};
use vstd::prelude::*;

verus! {

/// `g` is the disparity grid of the two images: one cell per whole block,
/// each the first candidate in `[0, max_disparity)` of least summed difference.
pub open spec fn is_disparity_grid(left: &GrayscaleImage, right: &GrayscaleImage, max_disparity: int, block_width: int, block_height: int, g: &DisparityGrid) -> bool {
    &&& g.width == left.width as int / block_width
    &&& g.height == left.height as int / block_height
    &&& is_argmin_grid(
        g.cells@,
        g.width as int,
        g.height as int,
        max_disparity,
        pixel_costs(left.samples@, right.samples@, left.width as int, block_width, block_height),
    )
}

/// Summed difference of block `(bx, by)` for candidate `k`, read from the volume.
fn block_sum(volume: &DifferenceVolume, block_width: usize, block_height: usize, bx: usize, by: usize, k: usize) -> (r: u128)
    requires
        volume.wf(),
        0 < block_width,
        0 < block_height,
        bx < volume.width / block_width,
        by < volume.height / block_height,
        k < volume.max_disparity,
    ensures
        r as int == volume_costs(
            volume.diffs@,
            volume.width as int,
            volume.max_disparity as int,
            block_width as int,
            block_height as int,
        )(bx as int, by as int, k as int),
{
    let w = volume.width;
    let h = volume.height;
    let d = volume.max_disparity;
    let len = volume.diffs.len();
    proof {
        lemma_block_in_bounds(bx as int, block_width as int, w as int);
        lemma_block_in_bounds(by as int, block_height as int, h as int);
        assert(w * h <= len) by (nonlinear_arith)
            requires
                len == w * h * d,
                d > 0,
        ;
    }
    let x0 = bx * block_width;
    let y0 = by * block_height;
    let ghost f = volume_diffs(volume.diffs@, w as int, d as int, k as int);
    let mut acc: u128 = 0;
    for row in 0..block_height
        invariant
            volume.wf(),
            w == volume.width,
            h == volume.height,
            d == volume.max_disparity,
            len == volume.diffs@.len(),
            w * h <= len,
            k < d,
            block_width <= w,
            block_height <= h,
            x0 + block_width <= w,
            y0 + block_height <= h,
            f == volume_diffs(volume.diffs@, w as int, d as int, k as int),
            acc == rect_sum(f, x0 as int, y0 as int, block_width as int, row as int),
            acc <= 255 * (row * block_width),
    {
        let y = y0 + row;
        for col in 0..block_width
            invariant
                volume.wf(),
                w == volume.width,
                h == volume.height,
                d == volume.max_disparity,
                len == volume.diffs@.len(),
                w * h <= len,
                k < d,
                block_width <= w,
                block_height <= h,
                x0 + block_width <= w,
                y0 + block_height <= h,
                row < block_height,
                y == y0 + row,
                f == volume_diffs(volume.diffs@, w as int, d as int, k as int),
                acc == rect_sum(f, x0 as int, y0 as int, block_width as int, row as int) + row_sum(
                    f,
                    x0 as int,
                    y as int,
                    col as int,
                ),
                acc <= 255 * (row * block_width + col),
        {
            let x = x0 + col;
            proof {
                lemma_volume_index(w as int, h as int, d as int, x as int, y as int, k as int);
                lemma_pixel_index(w as int, h as int, x as int, y as int);
                assert(row * block_width + col + 1 <= w * h) by (nonlinear_arith)
                    requires
                        row < block_height,
                        col < block_width,
                        block_width <= w,
                        block_height <= h,
                ;
            }
            let i = (y * w + x) * d + k;
            acc = acc + volume.diffs[i] as u128;
        }
        assert(255 * (row * block_width + block_width) == 255 * ((row + 1) * block_width)) by (nonlinear_arith);
    }
    acc
}

/// The first candidate of least summed difference for block `(bx, by)`.
fn block_argmin(volume: &DifferenceVolume, block_width: usize, block_height: usize, bx: usize, by: usize) -> (best: usize)
    requires
        volume.wf(),
        0 < volume.max_disparity,
        0 < block_width,
        0 < block_height,
        bx < volume.width / block_width,
        by < volume.height / block_height,
    ensures
        is_first_min(
            volume_costs(
                volume.diffs@,
                volume.width as int,
                volume.max_disparity as int,
                block_width as int,
                block_height as int,
            ),
            bx as int,
            by as int,
            volume.max_disparity as int,
            best as int,
        ),
{
    let ghost costs = volume_costs(
        volume.diffs@,
        volume.width as int,
        volume.max_disparity as int,
        block_width as int,
        block_height as int,
    );
    let mut best: usize = 0;
    let mut best_cost = block_sum(volume, block_width, block_height, bx, by, 0);
    for k in 1..volume.max_disparity
        invariant
            volume.wf(),
            0 < block_width,
            0 < block_height,
            bx < volume.width / block_width,
            by < volume.height / block_height,
            costs == volume_costs(
                volume.diffs@,
                volume.width as int,
                volume.max_disparity as int,
                block_width as int,
                block_height as int,
            ),
            best < k,
            best_cost == costs(bx as int, by as int, best as int),
            forall|j: int| 0 <= j < k ==> costs(bx as int, by as int, best as int) <= #[trigger] costs(bx as int, by as int, j),
            forall|j: int| 0 <= j < best ==> costs(bx as int, by as int, best as int) < #[trigger] costs(bx as int, by as int, j),
    {
        let cost = block_sum(volume, block_width, block_height, bx, by, k);
        if cost < best_cost {
            best = k;
            best_cost = cost;
        }
    }
    best
}

/// The aggregation pass: for every whole block of the volume, the first
/// candidate of least summed difference. Refused when the volume has no
/// candidate or a block side is zero.
pub fn aggregate_blocks(volume: &DifferenceVolume, block_width: usize, block_height: usize) -> (r: Result<DisparityGrid, DisparityError>)
    requires
        volume.wf(),
    ensures
        r is Err <==> volume.max_disparity == 0 || block_width == 0 || block_height == 0,
        r matches Ok(g) ==> {
            &&& g.width == volume.width / block_width
            &&& g.height == volume.height / block_height
            &&& is_argmin_grid(
                g.cells@,
                g.width as int,
                g.height as int,
                volume.max_disparity as int,
                volume_costs(
                    volume.diffs@,
                    volume.width as int,
                    volume.max_disparity as int,
                    block_width as int,
                    block_height as int,
                ),
            )
        },
{
    if volume.max_disparity == 0 || block_width == 0 || block_height == 0 {
        return Err(DisparityError::InvalidInput);
    }
    let ghost costs = volume_costs(
        volume.diffs@,
        volume.width as int,
        volume.max_disparity as int,
        block_width as int,
        block_height as int,
    );
    let ghost d = volume.max_disparity as int;
    let grid_width = volume.width / block_width;
    let grid_height = volume.height / block_height;
    let mut cells: Vec<usize> = Vec::new();
    assert(0 * grid_width == 0);
    for by in 0..grid_height
        invariant
            volume.wf(),
            0 < volume.max_disparity,
            0 < block_width,
            0 < block_height,
            d == volume.max_disparity,
            grid_width == volume.width / block_width,
            grid_height == volume.height / block_height,
            costs == volume_costs(
                volume.diffs@,
                volume.width as int,
                volume.max_disparity as int,
                block_width as int,
                block_height as int,
            ),
            cells@.len() == by * grid_width,
            forall|i: int|
                0 <= i < cells@.len() ==> is_first_min(costs, i % grid_width as int, i / grid_width as int, d, #[trigger] cells@[i] as int),
    {
        for bx in 0..grid_width
            invariant
                volume.wf(),
                0 < volume.max_disparity,
                0 < block_width,
                0 < block_height,
                d == volume.max_disparity,
                grid_width == volume.width / block_width,
                grid_height == volume.height / block_height,
                by < grid_height,
                costs == volume_costs(
                    volume.diffs@,
                    volume.width as int,
                    volume.max_disparity as int,
                    block_width as int,
                    block_height as int,
                ),
                cells@.len() == by * grid_width + bx,
                forall|i: int|
                    0 <= i < cells@.len() ==> is_first_min(costs, i % grid_width as int, i / grid_width as int, d, #[trigger] cells@[i] as int),
        {
            let best = block_argmin(volume, block_width, block_height, bx, by);
            proof {
                lemma_row_major(cells@.len() as int, grid_width as int, bx as int, by as int);
            }
            cells.push(best);
        }
        assert(by * grid_width + grid_width == (by + 1) * grid_width) by (nonlinear_arith);
    }
    assert forall|bx: int, by: int| 0 <= bx < grid_width && 0 <= by < grid_height implies is_first_min(
        costs,
        bx,
        by,
        d,
        #[trigger] grid_cell(cells@, grid_width as int, bx, by),
    ) by {
        lemma_pixel_index(grid_width as int, grid_height as int, bx, by);
        lemma_row_major(by * grid_width + bx, grid_width as int, bx, by);
        assert(grid_width * grid_height == grid_height * grid_width) by (nonlinear_arith);
    }
    assert(grid_width * grid_height == grid_height * grid_width) by (nonlinear_arith);
    Ok(DisparityGrid { width: grid_width, height: grid_height, cells })
}

/// Block costs read from a volume equal those computed from the images it
/// was made from, on every whole block.
proof fn lemma_volume_costs_match(volume: &DifferenceVolume, left: &GrayscaleImage, right: &GrayscaleImage, block_width: int, block_height: int)
    requires
        0 < block_width,
        0 < block_height,
        volume_holds_diffs(
            volume.diffs@,
            left.samples@,
            right.samples@,
            volume.width as int,
            volume.height as int,
            volume.max_disparity as int,
        ),
        volume.width == left.width,
    ensures
        forall|bx: int, by: int, k: int|
            0 <= bx < volume.width as int / block_width && 0 <= by < volume.height as int / block_height && 0 <= k < volume.max_disparity
                ==> #[trigger] volume_costs(
                volume.diffs@,
                volume.width as int,
                volume.max_disparity as int,
                block_width,
                block_height,
            )(bx, by, k) == pixel_costs(left.samples@, right.samples@, left.width as int, block_width, block_height)(bx, by, k),
{
    let w = volume.width as int;
    let h = volume.height as int;
    let d = volume.max_disparity as int;
    assert forall|bx: int, by: int, k: int|
        0 <= bx < w / block_width && 0 <= by < h / block_height && 0 <= k < d implies #[trigger] volume_costs(
        volume.diffs@,
        w,
        d,
        block_width,
        block_height,
    )(bx, by, k) == pixel_costs(left.samples@, right.samples@, w, block_width, block_height)(bx, by, k) by {
        lemma_block_in_bounds(bx, block_width, w);
        lemma_block_in_bounds(by, block_height, h);
        let f = volume_diffs(volume.diffs@, w, d, k);
        let g = pixel_diffs(left.samples@, right.samples@, w, k);
        let x0 = bx * block_width;
        let y0 = by * block_height;
        assert forall|x: int, y: int| x0 <= x < x0 + block_width && y0 <= y < y0 + block_height implies #[trigger] f(x, y) == g(
            x,
            y,
        ) by {
            assert(g(x, y) == crate::cost::pixel_diff(left.samples@, right.samples@, w, x, y, k));
        }
        lemma_rect_sum_ext(f, g, x0, y0, block_width, block_height);
    }
}

/// The disparity grid of a rectified pair: both images are checked for equal
/// shape, the difference volume is computed under `strategy`, and every whole
/// `block_width x block_height` block gets the first candidate offset in
/// `[0, max_disparity)` of least summed difference. Refused when the shapes
/// differ or `max_disparity`, `block_width` or `block_height` is zero.
pub fn compute_disparity(left: &GrayscaleImage, right: &GrayscaleImage, max_disparity: usize, block_width: usize, block_height: usize, strategy: PartitionStrategy) -> (r: Result<DisparityGrid, DisparityError>)
    requires
        left.wf(),
        right.wf(),
    ensures
        r is Err <==> !same_shape(left, right) || max_disparity == 0 || block_width == 0 || block_height == 0,
        r matches Ok(g) ==> is_disparity_grid(left, right, max_disparity as int, block_width as int, block_height as int, &g),
{
    if block_width == 0 || block_height == 0 {
        return Err(DisparityError::InvalidInput);
    }
    let volume = match compute_differences(left, right, max_disparity, strategy) {
        Ok(v) => v,
        Err(e) => {
            return Err(e);
        },
    };
    let grid = match aggregate_blocks(&volume, block_width, block_height) {
        Ok(g) => g,
        Err(e) => {
            return Err(e);
        },
    };
    proof {
        lemma_volume_costs_match(&volume, left, right, block_width as int, block_height as int);
        lemma_argmin_grid_transfer(
            grid.cells@,
            grid.width as int,
            grid.height as int,
            max_disparity as int,
            volume_costs(volume.diffs@, volume.width as int, max_disparity as int, block_width as int, block_height as int),
            pixel_costs(left.samples@, right.samples@, left.width as int, block_width as int, block_height as int),
        );
    }
    Ok(grid)
}

} // verus!
