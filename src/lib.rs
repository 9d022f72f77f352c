pub mod clustering;
pub mod color;
pub mod error;
pub mod grid;
pub mod mosaic;
pub mod raster;
