//! The rules that the engine is extended with.
pub mod cmark;
pub mod extra;
pub mod sourcepos;
