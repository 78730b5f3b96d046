//! What holds of the pipeline across calls and for whole classes of inputs.
use crate::aggregate::is_disparity_grid;
use crate::cost::{
    abs_diff, grid_cell, is_first_min, lemma_argmin_grid_unique, lemma_block_in_bounds, lemma_cell_of_index,
    lemma_rect_sum_nonneg, pixel_costs, pixel_diff, pixel_diffs,
};
use crate::model::{DisparityGrid, GrayscaleImage};
use crate::visual::{disparity_rgb, hsv_rgb, hue_spec};
use vstd::prelude::*;

verus! {

/// The disparity grid is a function of its inputs. Two grids that both meet
/// the contract of `compute_disparity` for the same images, range and block
/// size are equal, whichever partition strategy produced each: repeated runs
/// of one strategy agree bit for bit, and the two strategies agree with each
/// other.
pub proof fn lemma_disparity_grid_determined(
    left: &GrayscaleImage,
    right: &GrayscaleImage,
    max_disparity: int,
    block_width: int,
    block_height: int,
    a: &DisparityGrid,
    b: &DisparityGrid,
)
    requires
        is_disparity_grid(left, right, max_disparity, block_width, block_height, a),
        is_disparity_grid(left, right, max_disparity, block_width, block_height, b),
    ensures
        a.width == b.width,
        a.height == b.height,
        a.cells@ == b.cells@,
{
    lemma_argmin_grid_unique(
        a.cells@,
        b.cells@,
        a.width as int,
        a.height as int,
        max_disparity,
        pixel_costs(left.samples@, right.samples@, left.width as int, block_width, block_height),
    );
}

/// Matching an image against itself gives offset 0 in every block, for any
/// range of at least one candidate.
pub proof fn lemma_self_match(img: &GrayscaleImage, max_disparity: int, block_width: int, block_height: int, g: &DisparityGrid)
    requires
        img.wf(),
        1 <= max_disparity,
        0 < block_width,
        0 < block_height,
        is_disparity_grid(img, img, max_disparity, block_width, block_height, g),
    ensures
        forall|i: int| 0 <= i < g.cells@.len() ==> g.cells@[i] == 0,
{
    let s = img.samples@;
    let w = img.width as int;
    let costs = pixel_costs(s, s, w, block_width, block_height);
    assert forall|i: int| 0 <= i < g.cells@.len() implies g.cells@[i] == 0 by {
        lemma_cell_of_index(i, g.width as int, g.height as int);
        let bx = i % (g.width as int);
        let by = i / (g.width as int);
        let k = grid_cell(g.cells@, g.width as int, bx, by);
        assert(k == g.cells@[i] as int);
        assert(is_first_min(costs, bx, by, max_disparity, k));
        lemma_block_in_bounds(bx, block_width, w);
        let x0 = bx * block_width;
        let y0 = by * block_height;
        assert forall|j: int| 0 <= j < max_disparity implies 0 <= #[trigger] costs(bx, by, j) by {
            let f = pixel_diffs(s, s, w, j);
            assert forall|x: int, y: int| x0 <= x < x0 + block_width && y0 <= y < y0 + block_height implies 0 <= #[trigger] f(x, y) by {
                assert(f(x, y) == pixel_diff(s, s, w, x, y, j));
            }
            lemma_rect_sum_nonneg(f, x0, y0, block_width, block_height);
        }
        let f0 = pixel_diffs(s, s, w, 0);
        assert forall|x: int, y: int| x0 <= x < x0 + block_width && y0 <= y < y0 + block_height implies #[trigger] f0(x, y) == 0 by {
            assert(f0(x, y) == pixel_diff(s, s, w, x, y, 0));
            assert(x + 0 < w);
            assert(abs_diff(s[y * w + x + 0], s[y * w + x]) == 0);
        }
        assert forall|x: int, y: int| x0 <= x < x0 + block_width && y0 <= y < y0 + block_height implies 0 <= #[trigger] f0(x, y) by {
            assert(f0(x, y) == pixel_diff(s, s, w, x, y, 0));
        }
        lemma_rect_sum_nonneg(f0, x0, y0, block_width, block_height);
        assert(costs(bx, by, 0) == 0);
        assert(0 <= costs(bx, by, k));
        if k > 0 {
            assert(costs(bx, by, k) < costs(bx, by, 0));
        }
    }
}

/// Offset 0 gets hue 200 and renders as the triple (180, 0, 255); the last
/// offset of the range gets hue `200 / max_disparity`, at most 100 once the
/// range holds two or more candidates.
pub proof fn lemma_hue_extremes(max_disparity: int)
    requires
        0 < max_disparity,
    ensures
        hue_spec(0, max_disparity) == 200,
        disparity_rgb(0, max_disparity) == seq![180u8, 0u8, 255u8],
        hue_spec(max_disparity - 1, max_disparity) == 200int / max_disparity,
        max_disparity >= 2 ==> hue_spec(max_disparity - 1, max_disparity) <= 100,
{
    assert(200 * (max_disparity - 0) / max_disparity == 200) by (nonlinear_arith)
        requires
            0 < max_disparity,
    ;
    assert(hsv_rgb(200, 255, 255) =~= seq![180u8, 0u8, 255u8]);
    if max_disparity >= 2 {
        assert(200int / max_disparity <= 100) by (nonlinear_arith)
            requires
                max_disparity >= 2,
        ;
    }
}

} // verus!
