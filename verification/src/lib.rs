//! Core engine of a split-view stroke-tweening editor.
//!
//! A user draws freehand point strokes on a "source" and a "target" canvas.
//! Strokes are paired by slot number, their vertex buffers are reconciled to
//! equal length by nearest-neighbour padding, and the paired geometry plus its
//! blend settings can be saved to and loaded from a binary project blob.
//!
//! Scalar visual quantities (coordinates, colour channels, radii, blend
//! factors, depth layers) are carried as opaque 32-bit words: the engine only
//! copies and compares them, it never does arithmetic on them, so padding,
//! merging and the project codec are exact on every value.

pub mod draw;
pub mod material;
pub mod points;
pub mod project;
