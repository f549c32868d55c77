//! Conversion of parsed org-mode outline documents into the "subtext"
//! plain-text markup dialect.
//!
//! The crate owns three pieces: the document tree ([`node::Node`]), the
//! link-title index used to resolve internal cross-document links
//! ([`resolver::LinkIndex`]), and the render engine ([`render::render`])
//! that walks the tree depth-first and emits subtext.

pub mod node;
pub mod render;
pub mod resolver;
pub mod wikify;
