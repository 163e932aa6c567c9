//! The library's own markdown tree: the node kinds the renderer reads, as
//! plain values.

use vstd::prelude::*;

verus! {

/// Column alignment from a table's delimiter row.
#[derive(Debug, Clone, Copy, PartialEq, Eq, Structural)]
pub enum TableAlign {
    Unspecified,
    Left,
    Center,
    Right,
}

/// What a node is, with the data the renderer uses.
#[derive(Debug, Clone, PartialEq, Eq)]
pub enum NodeKind {
    Document,
    FrontMatter,
    BlockQuote,
    List { ordered: bool, start: usize, tight: bool },
    Item,
    /// A GFM task item; `true` when checked.
    TaskItem(bool),
    Paragraph,
    Heading(u8),
    CodeBlock { info: String, literal: String },
    HtmlBlock(String),
    ThematicBreak,
    Table(Vec<TableAlign>),
    /// A table row; `true` for the header row.
    TableRow(bool),
    TableCell,
    Text(String),
    SoftBreak,
    LineBreak,
    Code(String),
    HtmlInline(String),
    /// An emoji shortcode, with the emoji it resolved to.
    ShortCode(String),
    Emph,
    Strong,
    Strikethrough,
    Link(String),
    Image(String),
    /// Any other node: its children are rendered as if it were not there.
    Other,
}

/// A markdown node and its children in document order.
#[derive(Debug)]
pub struct MdNode {
    pub kind: NodeKind,
    pub children: Vec<MdNode>,
}

impl MdNode {
    pub fn new(kind: NodeKind, children: Vec<MdNode>) -> (n: MdNode)
        ensures
            n.kind == kind,
            n.children@ == children@,
    {
        MdNode { kind, children }
    }

    pub fn leaf(kind: NodeKind) -> (n: MdNode)
        ensures
            n.kind == kind,
            n.children@.len() == 0,
    {
        MdNode { kind, children: Vec::new() }
    }
}

} // verus!
