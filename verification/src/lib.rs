//! An extensible compiler from lightweight markup to a document tree.
//!
//! An engine holds the rules of three phases in registries that keep them
//! in order. A parse runs the rules on the whole tree, among them the block
//! phase, which reads the source line by line, and the inline phase, which
//! reads each run of text. The tree is rendered as HTML.
pub mod common;
pub mod parser;
pub mod plugins;

pub use crate::parser::engine::MarkdownIt;
pub use crate::parser::node::{Node, NodeValue};
pub use crate::parser::renderer::HtmlRenderer;
