use stereo_disparity::aggregate::{aggregate_blocks, compute_disparity};
use stereo_disparity::kernel::{candidate_difference, compute_differences, get_slice_pixels};
use stereo_disparity::model::{DisparityError, DisparityGrid, GrayscaleImage, PartitionStrategy};

const STRATEGIES: [PartitionStrategy; 2] = [PartitionStrategy::LoopInUnit, PartitionStrategy::CandidateAsDimension];

fn image(width: usize, height: usize, samples: Vec<u8>) -> GrayscaleImage {
    GrayscaleImage::new(width, height, samples).unwrap()
}

/// A deterministic textured image.
fn textured(width: usize, height: usize, seed: u32) -> GrayscaleImage {
    let mut state = seed.wrapping_mul(2654435761).wrapping_add(12345);
    let mut samples = Vec::new();
    for _ in 0..width * height {
        state = state.wrapping_mul(1103515245).wrapping_add(12345);
        samples.push((state >> 16) as u8);
    }
    image(width, height, samples)
}

/// `right(x, y) = left(x + shift, y)`, the last columns filled from the seed.
fn shifted(left: &GrayscaleImage, shift: usize) -> GrayscaleImage {
    let w = left.width;
    let mut samples = Vec::new();
    for y in 0..left.height {
        for x in 0..w {
            let sx = if x + shift < w { x + shift } else { x };
            samples.push(left.samples[y * w + sx]);
        }
    }
    image(w, left.height, samples)
}

/// Block matching written out directly, for comparison.
fn brute_force(left: &GrayscaleImage, right: &GrayscaleImage, d: usize, bw: usize, bh: usize) -> Vec<usize> {
    let w = left.width;
    let mut out = Vec::new();
    for by in 0..left.height / bh {
        for bx in 0..w / bw {
            let mut best = 0;
            let mut best_cost = u64::MAX;
            for k in 0..d {
                let mut cost: u64 = 0;
                for y in by * bh..(by + 1) * bh {
                    for x in bx * bw..(bx + 1) * bw {
                        cost += if x + k < w {
                            (left.samples[y * w + x + k] as i32 - right.samples[y * w + x] as i32).unsigned_abs() as u64
                        } else {
                            255
                        };
                    }
                }
                if cost < best_cost {
                    best = k;
                    best_cost = cost;
                }
            }
            out.push(best);
        }
    }
    out
}

#[test]
fn new_image_checks_sample_count() {
    assert!(GrayscaleImage::new(3, 2, vec![0; 6]).is_ok());
    assert_eq!(GrayscaleImage::new(3, 2, vec![0; 5]), Err(DisparityError::InvalidInput));
    assert_eq!(GrayscaleImage::new(usize::MAX, 2, vec![]), Err(DisparityError::InvalidInput));
    assert!(GrayscaleImage::new(0, 0, vec![]).is_ok());
}

#[test]
fn mismatched_shapes_are_refused() {
    let a = textured(8, 4, 1);
    let b = textured(4, 8, 2);
    for s in STRATEGIES {
        assert_eq!(compute_disparity(&a, &b, 2, 2, 2, s), Err(DisparityError::InvalidInput));
        assert_eq!(compute_differences(&a, &b, 2, s), Err(DisparityError::InvalidInput));
    }
}

#[test]
fn zero_parameters_are_refused() {
    let a = textured(8, 8, 3);
    let b = textured(8, 8, 4);
    for s in STRATEGIES {
        assert_eq!(compute_disparity(&a, &b, 0, 2, 2, s), Err(DisparityError::InvalidInput));
        assert_eq!(compute_disparity(&a, &b, 2, 0, 2, s), Err(DisparityError::InvalidInput));
        assert_eq!(compute_disparity(&a, &b, 2, 2, 0, s), Err(DisparityError::InvalidInput));
        assert_eq!(compute_differences(&a, &b, 0, s), Err(DisparityError::InvalidInput));
    }
    let volume = compute_differences(&a, &b, 3, PartitionStrategy::LoopInUnit).unwrap();
    assert_eq!(aggregate_blocks(&volume, 0, 2), Err(DisparityError::InvalidInput));
    assert_eq!(aggregate_blocks(&volume, 2, 0), Err(DisparityError::InvalidInput));
}

#[test]
fn difference_volume_entries() {
    let left = image(3, 1, vec![10, 50, 30]);
    let right = image(3, 1, vec![20, 20, 40]);
    for s in STRATEGIES {
        let v = compute_differences(&left, &right, 2, s).unwrap();
        assert_eq!((v.width, v.height, v.max_disparity), (3, 1, 2));
        // pixel 0: |10-20|, |50-20|; pixel 1: |50-20|, |30-20|; pixel 2: |30-40|, past the edge
        assert_eq!(v.diffs, vec![10, 30, 30, 10, 10, 255]);
    }
    assert_eq!(candidate_difference(&left, &right, 1, 0, 1), 10);
    assert_eq!(candidate_difference(&left, &right, 2, 0, 1), 255);
    assert_eq!(candidate_difference(&left, &right, 2, 0, usize::MAX), 255);
}

#[test]
fn strategies_agree_on_many_inputs() {
    let cases = [(8, 8, 2, 2, 3), (16, 16, 4, 4, 8), (13, 7, 3, 2, 5), (44, 22, 11, 11, 11), (9, 9, 9, 9, 1), (5, 3, 1, 1, 7)];
    for (i, &(w, h, bw, bh, d)) in cases.iter().enumerate() {
        let left = textured(w, h, i as u32 * 7 + 1);
        let right = shifted(&left, 1 + i % 3);
        let a = compute_disparity(&left, &right, d, bw, bh, PartitionStrategy::LoopInUnit).unwrap();
        let b = compute_disparity(&left, &right, d, bw, bh, PartitionStrategy::CandidateAsDimension).unwrap();
        assert_eq!(a, b);
        assert_eq!(a.cells, brute_force(&left, &right, d, bw, bh));
    }
}

#[test]
fn repeated_runs_are_identical() {
    let left = textured(20, 12, 11);
    let right = shifted(&left, 2);
    for s in STRATEGIES {
        let first = compute_disparity(&left, &right, 6, 4, 3, s).unwrap();
        for _ in 0..3 {
            assert_eq!(compute_disparity(&left, &right, 6, 4, 3, s).unwrap(), first);
        }
    }
}

#[test]
fn self_match_gives_zero_everywhere() {
    for (w, h, d) in [(8, 8, 1), (12, 6, 4), (10, 10, 10), (7, 5, 30)] {
        let img = textured(w, h, (w * h + d) as u32);
        for s in STRATEGIES {
            let g = compute_disparity(&img, &img, d, 2, 2, s).unwrap();
            assert_eq!(g.cells.len(), (w / 2) * (h / 2));
            assert!(g.cells.iter().all(|&c| c == 0));
        }
    }
}

#[test]
fn boundary_blocks_take_the_saturation_penalty() {
    let left = textured(16, 16, 5);
    let right = shifted(&left, 2);
    for s in STRATEGIES {
        let v = compute_differences(&left, &right, 8, s).unwrap();
        assert_eq!(v.diffs.len(), 16 * 16 * 8);
        for y in 0..16 {
            for x in 0..16 {
                for k in 0..8 {
                    let e = v.diffs[(y * 16 + x) * 8 + k];
                    if x + k >= 16 {
                        assert_eq!(e, 255);
                    } else {
                        let l = left.samples[y * 16 + x + k] as i32;
                        let r = right.samples[y * 16 + x] as i32;
                        assert_eq!(e as i32, (l - r).abs());
                    }
                }
            }
        }
        let g = compute_disparity(&left, &right, 8, 4, 4, s).unwrap();
        assert_eq!((g.width, g.height), (4, 4));
        assert!(g.cells.iter().all(|&c| c < 8));
        // inner blocks find the true shift
        for by in 0..4 {
            for bx in 0..3 {
                assert_eq!(g.cells[by * 4 + bx], 2);
            }
        }
        assert_eq!(g.cells, brute_force(&left, &right, 8, 4, 4));
    }
}

#[test]
fn ties_go_to_the_smaller_offset() {
    // block 0: offset 0 costs 5, offsets 1 and 2 both cost 0
    let left = image(8, 1, vec![0, 5, 5, 5, 5, 5, 5, 5]);
    let right = image(8, 1, vec![5; 8]);
    for s in STRATEGIES {
        let g = compute_disparity(&left, &right, 3, 2, 1, s).unwrap();
        assert_eq!(g, DisparityGrid { width: 4, height: 1, cells: vec![1, 0, 0, 0] });
    }
}

#[test]
fn grid_shape_drops_partial_blocks() {
    let left = textured(44, 22, 9);
    let right = textured(44, 22, 10);
    for s in STRATEGIES {
        let g = compute_disparity(&left, &right, 11, 11, 11, s).unwrap();
        assert_eq!((g.width, g.height, g.cells.len()), (4, 2, 8));
        let g = compute_disparity(&left, &right, 3, 10, 7, s).unwrap();
        assert_eq!((g.width, g.height, g.cells.len()), (4, 3, 12));
        let g = compute_disparity(&left, &right, 3, 45, 5, s).unwrap();
        assert_eq!((g.width, g.height, g.cells.len()), (0, 4, 0));
    }
}

#[test]
fn aggregation_of_a_hand_made_volume() {
    let left = image(4, 2, vec![1, 2, 3, 4, 5, 6, 7, 8]);
    let right = image(4, 2, vec![2, 3, 4, 4, 6, 7, 8, 8]);
    let volume = compute_differences(&left, &right, 2, PartitionStrategy::CandidateAsDimension).unwrap();
    let g = aggregate_blocks(&volume, 2, 2).unwrap();
    assert_eq!(g, DisparityGrid { width: 2, height: 1, cells: vec![1, 0] });
}

#[test]
fn slice_of_a_block() {
    let pixels: Vec<u8> = (0..12).collect();
    assert_eq!(get_slice_pixels(&pixels, 4, 3, 1, 1, 2, 2), vec![5, 6, 9, 10]);
    assert_eq!(get_slice_pixels(&pixels, 4, 3, 0, 0, 4, 1), vec![0, 1, 2, 3]);
    assert_eq!(get_slice_pixels(&pixels, 4, 3, 3, 0, 1, 3), vec![3, 7, 11]);
    assert_eq!(get_slice_pixels(&pixels, 4, 3, 2, 2, 0, 0), Vec::<u8>::new());
}
