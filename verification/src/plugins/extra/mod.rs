//! Rules beyond the basic markup.
pub mod syntect;
