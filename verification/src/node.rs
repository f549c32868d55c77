use vstd::prelude::*;

verus! {

/// One node of a parsed outline document.
///
/// The tree is produced outside this crate by an org-mode parser and handed
/// in as plain values; the render engine only ever reads it. Each variant
/// carries the payload the emission rules need: a heading its level and
/// title, a text run its characters, a link its target and optional display
/// text. Kinds the target dialect has no rule for arrive as `Container` and
/// render as their children alone.
#[derive(Debug)]
pub enum Node {
    /// A headline of the given level with its title text and body.
    Heading { level: usize, title: String, children: Vec<Node> },
    /// The body of a headline (or of the document before the first headline).
    Section { children: Vec<Node> },
    /// A paragraph of inline content.
    Paragraph { children: Vec<Node> },
    /// A plain text run.
    Text { content: String },
    /// Inline code.
    Code { content: String },
    /// A `#+key: value` line.
    Keyword { key: String, value: String },
    /// A link with its raw target and, if present, its display text.
    Link { target: String, display: Option<String> },
    /// A plain list.
    List { children: Vec<Node> },
    /// One item of a list.
    ListItem { children: Vec<Node> },
    /// A quote block.
    QuoteBlock { children: Vec<Node> },
    /// A source-code block; its content is never rendered.
    SourceBlock { children: Vec<Node> },
    /// Any other kind: an inert container whose children render normally.
    Container { children: Vec<Node> },
}

} // verus!
