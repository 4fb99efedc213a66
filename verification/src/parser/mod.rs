//! The document tree and the phases that build and render it.
pub mod block;
pub mod engine;
pub mod extset;
pub mod inline;
pub mod node;
pub mod pipeline;
pub mod renderer;
