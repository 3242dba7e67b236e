//! The document tree the formatter walks.
//!
//! A node has a kind (with its kind-specific payload, held as plain values)
//! and ordered children; the tree is single-rooted and acyclic by
//! construction. Kinds outside the fixed set the formatter knows are carried
//! as [`NodeKind::Other`], keeping only whether they are block-level.
//!
//! Literal payloads are held as text already decoded. A caller that builds
//! this tree from a parser whose literals are raw bytes substitutes an empty
//! string for a fragment that does not decode, and formatting carries on
//! for the rest of the document.

use vstd::prelude::*;

verus! {

/// The tagged kind of a document tree node, with its payload.
#[derive(Debug, Clone)]
pub enum NodeKind {
    /// The root of a full document.
    Document,
    /// A paragraph of inline text.
    Paragraph,
    /// A heading with its level (1 to 6 in well-formed documents).
    Heading { level: u8 },
    /// A fenced code block: the info string after the opening fence, and the
    /// literal body.
    CodeBlock { info: String, literal: String },
    /// A link with its destination; the label is held in the children.
    Link { url: String },
    /// A block of raw HTML, emitted unmodified.
    HtmlBlock { literal: String },
    /// A thematic break.
    ThematicBreak,
    /// A list; its items follow as children.
    List,
    /// One list item.
    Item,
    /// A run of literal inline text.
    Text { literal: String },
    /// A span of inline code.
    Code { literal: String },
    /// A soft line break, collected as a single space.
    SoftBreak,
    /// A hard line break, collected as a newline.
    LineBreak,
    /// Any kind outside the fixed set: passed through with no formatting
    /// text of its own, keeping only whether it is block-level.
    Other { block: bool },
}

impl NodeKind {
    /// Whether this kind is a block-level element.
    pub open spec fn spec_is_block(&self) -> bool {
        match self {
            NodeKind::Document => true,
            NodeKind::Paragraph => true,
            NodeKind::Heading { .. } => true,
            NodeKind::CodeBlock { .. } => true,
            NodeKind::Link { .. } => false,
            NodeKind::HtmlBlock { .. } => true,
            NodeKind::ThematicBreak => true,
            NodeKind::List => true,
            NodeKind::Item => true,
            NodeKind::Text { .. } => false,
            NodeKind::Code { .. } => false,
            NodeKind::SoftBreak => false,
            NodeKind::LineBreak => false,
            NodeKind::Other { block } => *block,
        }
    }

    /// Whether this kind is a block-level element.
    #[verifier::when_used_as_spec(spec_is_block)]
    pub fn is_block(&self) -> (b: bool)
        ensures
            b == self.spec_is_block(),
    {
        match self {
            NodeKind::Document => true,
            NodeKind::Paragraph => true,
            NodeKind::Heading { .. } => true,
            NodeKind::CodeBlock { .. } => true,
            NodeKind::Link { .. } => false,
            NodeKind::HtmlBlock { .. } => true,
            NodeKind::ThematicBreak => true,
            NodeKind::List => true,
            NodeKind::Item => true,
            NodeKind::Text { .. } => false,
            NodeKind::Code { .. } => false,
            NodeKind::SoftBreak => false,
            NodeKind::LineBreak => false,
            NodeKind::Other { block } => *block,
        }
    }
}

/// A document tree node: a kind and its ordered children.
#[derive(Debug)]
pub struct Node {
    /// The kind of this node, with its payload.
    pub kind: NodeKind,
    /// The children, in document order.
    pub children: Vec<Node>,
}

/// The height of a node: 1 for a leaf, 1 more than the tallest child
/// otherwise.
pub open spec fn height(node: Node) -> nat
    decreases node, 1int,
{
    1 + height_seq(node.children@)
}

/// The largest height among `nodes`, 0 when there are none.
pub open spec fn height_seq(nodes: Seq<Node>) -> nat
    decreases nodes, 0int,
{
    if nodes.len() == 0 {
        0
    } else {
        let h = height(nodes[0]);
        let r = height_seq(nodes.drop_first());
        if h > r {
            h
        } else {
            r
        }
    }
}

/// Every node is at most as tall as the tallest of its sequence.
pub proof fn lemma_height_seq_ge(nodes: Seq<Node>, i: int)
    requires
        0 <= i < nodes.len(),
    ensures
        height(nodes[i]) <= height_seq(nodes),
    decreases nodes.len(),
{
    if i > 0 {
        lemma_height_seq_ge(nodes.drop_first(), i - 1);
    }
}

} // verus!
