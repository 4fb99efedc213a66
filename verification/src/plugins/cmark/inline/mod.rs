//! Rules of the inline phase.
pub mod autolink;
