//! Parts that every phase of the engine shares.
pub mod ruler;
pub mod sourcemap;
pub mod text;
