pub mod application;
pub mod error;
pub mod format;
pub mod paths;
pub mod picture;
pub mod raster;
pub mod resize;
pub mod rotate;
pub mod sort;
pub mod text;

pub use error::TransformationError;
