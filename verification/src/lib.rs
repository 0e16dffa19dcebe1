//! Verified core of an escape-time fractal studio.
//!
//! The library cuts a frame into tiles, renders each tile pixel by pixel
//! through a shading function that the caller supplies, and composites the
//! tiles into one RGBA8 buffer, with the proof that the tiling leaves no
//! trace in the result. Around that it holds the escape-time iteration, the
//! location of a position among keyframes or palette stops, the playback
//! clock, the export pipeline's frame schedule, file names and encoder
//! command line, the fallback rules between the render backends, and the
//! byte layouts shared with an accelerated backend.
//!
//! The library is generic in its numbers. Wherever a formula, a comparison
//! or a colour is needed, the caller supplies it as a function, and the
//! contracts say what is asked of that function and what is made of its
//! answers.

pub mod backend;
pub mod compose;
pub mod escape;
pub mod export;
pub mod layout;
pub mod project;
pub mod render;
pub mod segment;
pub mod text;
pub mod tiling;
pub mod timeline;
