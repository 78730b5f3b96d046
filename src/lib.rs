//! Block-matching stereo disparity: per-pixel differences between a rectified
//! left and right image, block sums with a first-minimum argmin, two
//! interchangeable ways of partitioning that work, and a false-colour rendering
//! of the resulting grid.
pub mod aggregate;
pub mod cost;
pub mod kernel;
pub mod model;
pub mod visual;
pub mod laws;
