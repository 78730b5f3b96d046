//! The difference kernel: `|left(x + k, y) - right(x, y)|` for every pixel and
//! candidate, under either partition of the work.
use crate::cost::{
    lemma_pixel_index, lemma_row_major, lemma_volume_index, pixel_diff, volume_index, SATURATED_DIFF,
};
use crate::model::{same_shape, DifferenceVolume, DisparityError, GrayscaleImage, PartitionStrategy};
use vstd::prelude::*;

verus! {

/// Entry `i` of a volume laid out pixel by pixel, candidates innermost.
pub open spec fn flat_entry(left: Seq<u8>, right: Seq<u8>, width: int, max_disparity: int, i: int) -> int {
    pixel_diff(left, right, width, (i / max_disparity) % width, (i / max_disparity) / width, i % max_disparity)
}

/// Every entry so far holds its pixel difference.
pub open spec fn entries_hold(diffs: Seq<u8>, left: Seq<u8>, right: Seq<u8>, width: int, max_disparity: int) -> bool {
    forall|i: int| 0 <= i < diffs.len() ==> diffs[i] as int == #[trigger] flat_entry(left, right, width, max_disparity, i)
}

/// The volume holds the difference of every pixel and candidate.
pub open spec fn volume_holds_diffs(diffs: Seq<u8>, left: Seq<u8>, right: Seq<u8>, width: int, height: int, max_disparity: int) -> bool {
    forall|x: int, y: int, k: int|
        0 <= x < width && 0 <= y < height && 0 <= k < max_disparity
            ==> diffs[volume_index(width, max_disparity, x, y, k)] as int == #[trigger] pixel_diff(left, right, width, x, y, k)
}

/// The entry that belongs at position `volume_index(x, y, k)` is the difference there.
proof fn lemma_flat_entry(left: Seq<u8>, right: Seq<u8>, width: int, height: int, max_disparity: int, x: int, y: int, k: int)
    requires
        0 <= x < width,
        0 <= y < height,
        0 <= k < max_disparity,
    ensures
        0 <= volume_index(width, max_disparity, x, y, k) < width * height * max_disparity,
        flat_entry(left, right, width, max_disparity, volume_index(width, max_disparity, x, y, k))
            == pixel_diff(left, right, width, x, y, k),
{
    lemma_volume_index(width, height, max_disparity, x, y, k);
    lemma_row_major(y * width + x, width, x, y);
}

/// A full volume whose entries hold their differences, read by coordinates.
proof fn lemma_entries_to_volume(diffs: Seq<u8>, left: Seq<u8>, right: Seq<u8>, width: int, height: int, max_disparity: int)
    requires
        diffs.len() == width * height * max_disparity,
        entries_hold(diffs, left, right, width, max_disparity),
    ensures
        volume_holds_diffs(diffs, left, right, width, height, max_disparity),
{
    assert forall|x: int, y: int, k: int|
        0 <= x < width && 0 <= y < height && 0 <= k < max_disparity implies diffs[volume_index(
            width,
            max_disparity,
            x,
            y,
            k,
        )] as int == #[trigger] pixel_diff(left, right, width, x, y, k) by {
        lemma_flat_entry(left, right, width, height, max_disparity, x, y, k);
    }
}

/// One work-item of the candidate-as-dimension grid: the difference of pixel
/// `(x, y)` for candidate `k`, saturated when `x + k` is past the row.
pub fn candidate_difference(left: &GrayscaleImage, right: &GrayscaleImage, x: usize, y: usize, k: usize) -> (r: u8)
    requires
        left.wf(),
        right.wf(),
        same_shape(left, right),
        x < left.width,
        y < left.height,
    ensures
        r as int == pixel_diff(left.samples@, right.samples@, left.width as int, x as int, y as int, k as int),
{
    let w = left.width;
    let len = left.samples.len();
    if k < w - x {
        proof {
            lemma_pixel_index(w as int, left.height as int, (x + k) as int, y as int);
            lemma_pixel_index(w as int, left.height as int, x as int, y as int);
        }
        let row = y * w;
        let l = left.samples[row + x + k];
        let r = right.samples[row + x];
        if l >= r {
            l - r
        } else {
            r - l
        }
    } else {
        SATURATED_DIFF
    }
}

/// One work-item of the loop-in-unit grid: appends the differences of pixel
/// `(x, y)` for every candidate, in candidate order.
fn pixel_unit(left: &GrayscaleImage, right: &GrayscaleImage, x: usize, y: usize, max_disparity: usize, diffs: &mut Vec<u8>)
    requires
        left.wf(),
        right.wf(),
        same_shape(left, right),
        x < left.width,
        y < left.height,
        old(diffs)@.len() == (y * left.width + x) * max_disparity,
        entries_hold(old(diffs)@, left.samples@, right.samples@, left.width as int, max_disparity as int),
    ensures
        final(diffs)@.len() == (y * left.width + x) * max_disparity + max_disparity,
        entries_hold(final(diffs)@, left.samples@, right.samples@, left.width as int, max_disparity as int),
{
    let w = left.width;
    let ghost h = left.height as int;
    proof {
        lemma_pixel_index(w as int, h, x as int, y as int);
    }
    let len = left.samples.len();
    let row = y * w;
    let r = right.samples[row + x];
    for k in 0..max_disparity
        invariant
            len == left.samples@.len(),
            left.wf(),
            right.wf(),
            same_shape(left, right),
            w == left.width,
            h == left.height,
            x < w,
            y < h,
            row == y * w,
            r == right.samples@[y * w + x],
            diffs@.len() == (y * w + x) * max_disparity + k,
            entries_hold(diffs@, left.samples@, right.samples@, w as int, max_disparity as int),
    {
        let value: u8 = if k < w - x {
            proof {
                lemma_pixel_index(w as int, h, (x + k) as int, y as int);
            }
            let l = left.samples[row + x + k];
            if l >= r {
                l - r
            } else {
                r - l
            }
        } else {
            SATURATED_DIFF
        };
        proof {
            lemma_flat_entry(left.samples@, right.samples@, w as int, h, max_disparity as int, x as int, y as int, k as int);
        }
        diffs.push(value);
    }
}

/// First stage with one unit per pixel, each looping over the candidates.
fn differences_per_pixel(left: &GrayscaleImage, right: &GrayscaleImage, max_disparity: usize) -> (diffs: Vec<u8>)
    requires
        left.wf(),
        right.wf(),
        same_shape(left, right),
    ensures
        diffs@.len() == left.width * left.height * max_disparity,
        entries_hold(diffs@, left.samples@, right.samples@, left.width as int, max_disparity as int),
{
    let w = left.width;
    let h = left.height;
    let mut diffs: Vec<u8> = Vec::new();
    assert((0 * w) * max_disparity == 0) by (nonlinear_arith);
    for y in 0..h
        invariant
            left.wf(),
            right.wf(),
            same_shape(left, right),
            w == left.width,
            h == left.height,
            diffs@.len() == (y * w) * max_disparity,
            entries_hold(diffs@, left.samples@, right.samples@, w as int, max_disparity as int),
    {
        for x in 0..w
            invariant
                left.wf(),
                right.wf(),
                same_shape(left, right),
                w == left.width,
                h == left.height,
                y < h,
                diffs@.len() == (y * w + x) * max_disparity,
                entries_hold(diffs@, left.samples@, right.samples@, w as int, max_disparity as int),
        {
            pixel_unit(left, right, x, y, max_disparity, &mut diffs);
            assert((y * w + x) * max_disparity + max_disparity == (y * w + x + 1) * max_disparity) by (nonlinear_arith);
        }
        assert((y * w + w) * max_disparity == ((y + 1) * w) * max_disparity) by (nonlinear_arith);
    }
    assert((h * w) * max_disparity == w * h * max_disparity) by (nonlinear_arith);
    diffs
}

/// First stage with one unit per pixel and candidate.
fn differences_per_candidate(left: &GrayscaleImage, right: &GrayscaleImage, max_disparity: usize) -> (diffs: Vec<u8>)
    requires
        left.wf(),
        right.wf(),
        same_shape(left, right),
    ensures
        diffs@.len() == left.width * left.height * max_disparity,
        entries_hold(diffs@, left.samples@, right.samples@, left.width as int, max_disparity as int),
{
    let w = left.width;
    let h = left.height;
    let mut diffs: Vec<u8> = Vec::new();
    assert((0 * w) * max_disparity == 0) by (nonlinear_arith);
    for y in 0..h
        invariant
            left.wf(),
            right.wf(),
            same_shape(left, right),
            w == left.width,
            h == left.height,
            diffs@.len() == (y * w) * max_disparity,
            entries_hold(diffs@, left.samples@, right.samples@, w as int, max_disparity as int),
    {
        for x in 0..w
            invariant
                left.wf(),
                right.wf(),
                same_shape(left, right),
                w == left.width,
                h == left.height,
                y < h,
                diffs@.len() == (y * w + x) * max_disparity,
                entries_hold(diffs@, left.samples@, right.samples@, w as int, max_disparity as int),
        {
            for k in 0..max_disparity
                invariant
                    left.wf(),
                    right.wf(),
                    same_shape(left, right),
                    w == left.width,
                    h == left.height,
                    x < w,
                    y < h,
                    diffs@.len() == (y * w + x) * max_disparity + k,
                    entries_hold(diffs@, left.samples@, right.samples@, w as int, max_disparity as int),
            {
                let value = candidate_difference(left, right, x, y, k);
                proof {
                    lemma_flat_entry(left.samples@, right.samples@, w as int, h as int, max_disparity as int, x as int, y as int, k as int);
                }
                diffs.push(value);
            }
            assert((y * w + x) * max_disparity + max_disparity == (y * w + x + 1) * max_disparity) by (nonlinear_arith);
        }
        assert((y * w + w) * max_disparity == ((y + 1) * w) * max_disparity) by (nonlinear_arith);
    }
    assert((h * w) * max_disparity == w * h * max_disparity) by (nonlinear_arith);
    diffs
}

/// The difference volume of two images of equal shape, computed under the
/// given partition. Refused when the shapes differ or no candidate is asked for.
pub fn compute_differences(left: &GrayscaleImage, right: &GrayscaleImage, max_disparity: usize, strategy: PartitionStrategy) -> (r: Result<DifferenceVolume, DisparityError>)
    requires
        left.wf(),
        right.wf(),
    ensures
        r is Err <==> !same_shape(left, right) || max_disparity == 0,
        r matches Ok(v) ==> {
            &&& v.width == left.width
            &&& v.height == left.height
            &&& v.max_disparity == max_disparity
            &&& v.wf()
            &&& volume_holds_diffs(
                v.diffs@,
                left.samples@,
                right.samples@,
                left.width as int,
                left.height as int,
                max_disparity as int,
            )
        },
{
    if !(left.width == right.width && left.height == right.height) || max_disparity == 0 {
        return Err(DisparityError::InvalidInput);
    }
    let diffs = match strategy {
        PartitionStrategy::LoopInUnit => differences_per_pixel(left, right, max_disparity),
        PartitionStrategy::CandidateAsDimension => differences_per_candidate(left, right, max_disparity),
    };
    proof {
        lemma_entries_to_volume(
            diffs@,
            left.samples@,
            right.samples@,
            left.width as int,
            left.height as int,
            max_disparity as int,
        );
    }
    Ok(DifferenceVolume { width: left.width, height: left.height, max_disparity, diffs })
}

/// The samples of the `cols x rows` block whose top-left pixel is
/// `(block_left, block_top)`, row after row.
pub open spec fn block_samples(pixels: Seq<u8>, width: int, block_left: int, block_top: int, cols: int, rows: int) -> Seq<u8>
    decreases rows,
{
    if rows <= 0 {
        Seq::empty()
    } else {
        let start = (block_top + rows - 1) * width + block_left;
        block_samples(pixels, width, block_left, block_top, cols, rows - 1) + pixels.subrange(start, start + cols)
    }
}

/// Copies out the `block_w x block_h` block whose top-left pixel is
/// `(block_left, block_top)` of a `w x h` image, row after row.
pub fn get_slice_pixels(pixels: &Vec<u8>, w: usize, h: usize, block_left: usize, block_top: usize, block_w: usize, block_h: usize) -> (r: Vec<u8>)
    requires
        pixels@.len() == w * h,
        block_left + block_w <= w,
        block_top + block_h <= h,
    ensures
        r@ == block_samples(pixels@, w as int, block_left as int, block_top as int, block_w as int, block_h as int),
        r@.len() == block_w * block_h,
{
    let len = pixels.len();
    let mut out: Vec<u8> = Vec::new();
    assert(0 * block_w == 0);
    for i in 0..block_h
        invariant
            len == pixels@.len(),
            pixels@.len() == w * h,
            block_left + block_w <= w,
            block_top + block_h <= h,
            out@ == block_samples(pixels@, w as int, block_left as int, block_top as int, block_w as int, i as int),
            out@.len() == i * block_w,
    {
        let row = block_top + i;
        assert(row * w + w <= h * w) by (nonlinear_arith)
            requires
                row < h,
        ;
        assert(h * w == w * h) by (nonlinear_arith);
        let start = row * w + block_left;
        let ghost done = out@;
        for j in 0..block_w
            invariant
                len == pixels@.len(),
                start + block_w <= len,
                out@ == done + pixels@.subrange(start as int, start + j),
        {
            out.push(pixels[start + j]);
            assert(pixels@.subrange(start as int, start + j + 1) =~= pixels@.subrange(start as int, start + j).push(
                pixels@[start + j],
            ));
            assert(out@ =~= done + pixels@.subrange(start as int, start + j + 1));
        }
        assert(i * block_w + block_w == (i + 1) * block_w) by (nonlinear_arith);
    }
    assert(block_h * block_w == block_w * block_h) by (nonlinear_arith);
    out
}

} // verus!
