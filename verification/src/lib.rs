//! Freehand ink strokes: sampling, simplification, outline synthesis and the
//! ordered store of layers that a compositor draws.

pub mod geometry;
pub mod pen;
pub mod stroke;
pub mod outline;
pub mod simplify;
pub mod layers;
pub mod canvas;
pub mod segments;
pub mod input;
