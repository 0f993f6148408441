//! Extraction of renderable line-segment geometry from a scene and assembly
//! of a bounded, cropped vector-graphics document with a background frame.
//!
//! Coordinates are modelled in whole document units (`i64`); the host glue
//! converts the engine's native vertex data into these units and serializes
//! the finished [`document::Document`] to its destination.

pub mod decode;
pub mod document;
pub mod geometry;
pub mod pipeline;
pub mod trigger;
