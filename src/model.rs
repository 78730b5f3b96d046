//! The values handed between the stages: images, the difference volume, the
//! disparity grid and its rendering.
use vstd::prelude::*;

verus! {

/// Why a stage refused its inputs.
#[derive(Debug, Clone, Copy, PartialEq, Eq, Structural)]
pub enum DisparityError {
    /// Mismatched image dimensions, or a zero disparity range or block side.
    InvalidInput,
}

/// How the difference work is spread over execution units.
#[derive(Debug, Clone, Copy, PartialEq, Eq, Structural)]
pub enum PartitionStrategy {
    /// One unit per pixel, looping over every candidate offset.
    LoopInUnit,
    /// One unit per pixel and candidate offset.
    CandidateAsDimension,
}

/// An 8-bit single-channel image, row-major.
#[derive(Debug, Clone, PartialEq, Eq)]
pub struct GrayscaleImage {
    pub width: usize,
    pub height: usize,
    pub samples: Vec<u8>,
}

impl GrayscaleImage {
    /// One sample per pixel.
    pub open spec fn wf(&self) -> bool {
        self.samples@.len() == self.width * self.height
    }

    /// An image from its samples, refused unless there is one per pixel.
    pub fn new(width: usize, height: usize, samples: Vec<u8>) -> (r: Result<GrayscaleImage, DisparityError>)
        ensures
            r is Ok <==> samples@.len() == width * height,
            r matches Ok(img) ==> img.width == width && img.height == height && img.samples@ == samples@ && img.wf(),
    {
        let len = samples.len();
        match width.checked_mul(height) {
            Some(n) => {
                if n == len {
                    Ok(GrayscaleImage { width, height, samples })
                } else {
                    Err(DisparityError::InvalidInput)
                }
            },
            None => Err(DisparityError::InvalidInput),
        }
    }
}

/// Both images have the same dimensions.
pub open spec fn same_shape(left: &GrayscaleImage, right: &GrayscaleImage) -> bool {
    left.width == right.width && left.height == right.height
}

/// The difference of every pixel and candidate offset, indexed
/// `(y * width + x) * max_disparity + k`.
#[derive(Debug, Clone, PartialEq, Eq)]
pub struct DifferenceVolume {
    pub width: usize,
    pub height: usize,
    pub max_disparity: usize,
    pub diffs: Vec<u8>,
}

impl DifferenceVolume {
    /// One entry per pixel and candidate.
    pub open spec fn wf(&self) -> bool {
        self.diffs@.len() == self.width * self.height * self.max_disparity
    }
}

/// The winning offset of every whole block, row-major:
/// block `(bx, by)` is `cells[by * width + bx]`.
#[derive(Debug, Clone, PartialEq, Eq)]
pub struct DisparityGrid {
    pub width: usize,
    pub height: usize,
    pub cells: Vec<usize>,
}

/// One RGB triple per grid cell, row-major, three bytes each.
#[derive(Debug, Clone, PartialEq, Eq)]
pub struct VisualizationImage {
    pub width: usize,
    pub height: usize,
    pub pixels: Vec<u8>,
}

} // verus!
