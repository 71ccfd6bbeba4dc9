//! Parse and scale nine-patch bitmaps.
//!
//! A nine-patch bitmap carries a one-pixel border whose marker pixels say
//! which columns and rows of the content keep their size and which stretch.
//! This library reads those borders into sections and scales the resulting
//! grid of patches to any target size at least as large as the original.
//! Coordinates are exact: pixel counts are integers and scaled edges are
//! fractions with one denominator per axis.
pub mod drawable;
pub mod scale;
pub mod scan;
pub mod types;

pub use drawable::NinePatchDrawable;
pub use types::{NinePatchError, Patch, PatchKind, Ratio, RectF, Section};
