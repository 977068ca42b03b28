//! Image-processing core of an interactive image editor: 8-bit planes and RGB
//! images, point operations, histograms, morphology, median filtering, and the
//! store of loaded images with its selection.

pub mod plane;
pub mod rgb;
pub mod point_ops;
pub mod histogram;
pub mod grid;
pub mod morphology;
pub mod median;
pub mod store;
pub mod actions;
pub mod laws;
pub mod operation_laws;
