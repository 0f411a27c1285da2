//! A photo-mosaic matching engine: a target image is cut into a grid of
//! rectangular masks, and each mask is replaced by the library image whose
//! colour signature lies nearest to that of the masked region.

pub mod bounds;
pub mod color;
pub mod custom;
pub mod engine;
pub mod kmeans;
pub mod labels;
pub mod mask;
pub mod options;
pub mod raster;
pub mod score;
pub mod select;
