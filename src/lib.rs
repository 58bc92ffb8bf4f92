//! Pixel-level filters over in-memory RGB rasters: Gaussian blur, edge
//! detection by local colour distance, box downsampling, and chains of them.

pub mod chain;
pub mod filters;
pub mod laws;
pub mod metric;
pub mod pixel;

pub use chain::FilterChain;
pub use filters::{color_dist_lines, down_sample, gaussian_blur, Filter, GaussKernel};
pub use metric::{color_dist, super_safe_sub};
pub use pixel::{FilterError, Pixel, PixelBuffer};
