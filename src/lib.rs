//! Locating musical staves in a binarized raster.

pub mod staff;
pub mod staffmatcher;
pub mod linedetect;
