//! Rules of the block phase.
pub mod code;
pub mod fence;
pub mod heading;
pub mod hr;
pub mod paragraph;
