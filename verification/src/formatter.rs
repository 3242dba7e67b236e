//! The formatting engine.
//!
//! A depth-first walk over the document tree emits text on entering a node
//! (dispatched by kind) and a separating suffix on leaving it. List items
//! introduce a prefix, kept on a stack while their subtree is formatted; the
//! active prefix is handed to the word wrapper so a paragraph's first line
//! carries the marker and its continuation lines the matching indent.

use crate::config::Config;
use crate::tree::height;
use crate::tree::height_seq;
use crate::tree::lemma_height_seq_ge;
use crate::tree::Node;
use crate::tree::NodeKind;
use crate::wrap::prefix_view;
use crate::wrap::spaces;
use crate::wrap::spaces_string;
use crate::wrap::wrap_spec;
use crate::wrap::wrap_text;
use vstd::prelude::*;
use vstd::string::StrSliceExecFns;
use vstd::string::StringExecFns;

verus! {

// ------------------------------------------------------------------
// Collecting inline text
// ------------------------------------------------------------------
/// The inline text a node contributes: literal text and code verbatim, a
/// space for a soft break, a newline for a hard break, nothing for a link
/// (a link's label is collected separately when the link itself is
/// formatted), and the children's text for every other kind.
pub open spec fn collect_node(node: Node) -> Seq<char>
    decreases node, 1int,
{
    match node.kind {
        NodeKind::Link { .. } => Seq::empty(),
        NodeKind::Text { literal } => literal@,
        NodeKind::Code { literal } => literal@,
        NodeKind::SoftBreak => seq![' '],
        NodeKind::LineBreak => seq!['\n'],
        _ => collect_seq(node.children@),
    }
}

/// The concatenated inline text of a sequence of nodes.
pub open spec fn collect_seq(nodes: Seq<Node>) -> Seq<char>
    decreases nodes, 0int,
{
    if nodes.len() == 0 {
        Seq::empty()
    } else {
        collect_node(nodes[0]) + collect_seq(nodes.drop_first())
    }
}

proof fn lemma_collect_seq_push(nodes: Seq<Node>, node: Node)
    ensures
        collect_seq(nodes.push(node)) == collect_seq(nodes) + collect_node(node),
    decreases nodes.len(),
{
    if nodes.len() == 0 {
        reveal_with_fuel(collect_seq, 2);
        assert(nodes.push(node) =~= seq![node]);
        assert(seq![node].drop_first() =~= Seq::<Node>::empty());
        assert(collect_seq(nodes.push(node)) =~= collect_node(node));
        assert(collect_seq(nodes) + collect_node(node) =~= collect_node(node));
    } else {
        lemma_collect_seq_push(nodes.drop_first(), node);
        assert(nodes.push(node).drop_first() =~= nodes.drop_first().push(node));
        assert(collect_seq(nodes.push(node)) =~= collect_seq(nodes) + collect_node(node));
    }
}

/// Append the inline text of `node` to `out`.
fn collect_into(node: &Node, out: &mut String)
    ensures
        final(out)@ == old(out)@ + collect_node(*node),
    decreases *node,
{
    match &node.kind {
        NodeKind::Link { .. } => {
            proof {
                assert(final(out)@ =~= old(out)@ + collect_node(*node));
            }
        },
        NodeKind::Text { literal } => {
            out.append(literal.as_str());
        },
        NodeKind::Code { literal } => {
            out.append(literal.as_str());
        },
        NodeKind::SoftBreak => {
            out.append(" ");
            proof {
                reveal_strlit(" ");
                assert(out@ =~= old(out)@ + seq![' ']);
            }
        },
        NodeKind::LineBreak => {
            out.append("\n");
            proof {
                reveal_strlit("\n");
                assert(out@ =~= old(out)@ + seq!['\n']);
            }
        },
        _ => {
            collect_children(node, out);
        },
    }
}

/// Append the inline text of the children of `node` to `out`.
fn collect_children(node: &Node, out: &mut String)
    ensures
        final(out)@ == old(out)@ + collect_seq(node.children@),
    decreases *node, 0int,
{
    let ghost entry = out@;
    let mut i: usize = 0;
    proof {
        assert(node.children@.take(0) =~= Seq::<Node>::empty());
        assert(entry + collect_seq(node.children@.take(0)) =~= entry);
    }
    while i < node.children.len()
        invariant
            i <= node.children.len(),
            out@ == entry + collect_seq(node.children@.take(i as int)),
        decreases node.children.len() - i,
    {
        proof {
            assert(decreases_to!(*node => node.children));
            assert(decreases_to!(node.children => node.children@));
            assert(decreases_to!(node.children@ => node.children@[i as int]));
        }
        collect_into(&node.children[i], out);
        proof {
            lemma_collect_seq_push(node.children@.take(i as int), node.children@[i as int]);
            assert(node.children@.take(i as int + 1) =~= node.children@.take(i as int).push(
                node.children@[i as int],
            ));
        }
        i += 1;
    }
    proof {
        assert(node.children@.take(node.children@.len() as int) =~= node.children@);
    }
}

/// Recursively get all of the inline text from a node.
pub fn collect_text(node: &Node) -> (r: String)
    ensures
        r@ == collect_node(*node),
{
    let mut out = String::new();
    collect_into(node, &mut out);
    out
}

/// Collect the label text for a link: the text of the link's children.
///
/// Kept separate from [`collect_text`] so that surrounding text runs do not
/// pick a link's label up a second time.
pub fn collect_link_title_text(node: &Node) -> (r: String)
    ensures
        r@ == collect_seq(node.children@),
{
    let mut out = String::new();
    collect_children(node, &mut out);
    out
}

// ------------------------------------------------------------------
// Trimming
// ------------------------------------------------------------------
/// The whitespace characters trimmed from the edges of the finished text.
pub open spec fn is_fmt_ws(c: char) -> bool {
    c == ' ' || c == '\n' || c == '\t' || c == '\r'
}

/// `s` with leading whitespace removed.
pub open spec fn trim_front(s: Seq<char>) -> Seq<char>
    decreases s.len(),
{
    if s.len() > 0 && is_fmt_ws(s[0]) {
        trim_front(s.drop_first())
    } else {
        s
    }
}

/// `s` with trailing whitespace removed.
pub open spec fn trim_back(s: Seq<char>) -> Seq<char>
    decreases s.len(),
{
    if s.len() > 0 && is_fmt_ws(s.last()) {
        trim_back(s.drop_last())
    } else {
        s
    }
}

/// `s` with whitespace removed from both edges.
pub open spec fn trim_spec(s: Seq<char>) -> Seq<char> {
    trim_back(trim_front(s))
}

proof fn lemma_trim_front_at(s: Seq<char>, lo: int)
    requires
        0 <= lo <= s.len(),
        forall|k: int| 0 <= k < lo ==> is_fmt_ws(#[trigger] s[k]),
        lo < s.len() ==> !is_fmt_ws(s[lo]),
    ensures
        trim_front(s) == s.subrange(lo, s.len() as int),
    decreases lo,
{
    if lo == 0 {
        assert(s.subrange(0, s.len() as int) =~= s);
    } else {
        lemma_trim_front_at(s.drop_first(), lo - 1);
        assert(s.drop_first().subrange(lo - 1, s.drop_first().len() as int) =~= s.subrange(
            lo,
            s.len() as int,
        ));
    }
}

proof fn lemma_trim_back_at(s: Seq<char>, hi: int)
    requires
        0 <= hi <= s.len(),
        forall|k: int| hi <= k < s.len() ==> is_fmt_ws(#[trigger] s[k]),
        hi > 0 ==> !is_fmt_ws(s[hi - 1]),
    ensures
        trim_back(s) == s.subrange(0, hi),
    decreases s.len(),
{
    if hi == s.len() {
        if s.len() > 0 {
            assert(s.subrange(0, s.len() as int) =~= s);
        } else {
            assert(s.subrange(0, 0) =~= s);
        }
    } else {
        lemma_trim_back_at(s.drop_last(), hi);
        assert(s.drop_last().subrange(0, hi) =~= s.subrange(0, hi));
    }
}

/// Whether `c` is trimmed from the edges of the finished text.
fn is_ws_char(c: char) -> (b: bool)
    ensures
        b == is_fmt_ws(c),
{
    c == ' ' || c == '\n' || c == '\t' || c == '\r'
}

/// `s` with whitespace removed from both edges.
fn trim_string(s: &str) -> (r: String)
    ensures
        r@ == trim_spec(s@),
{
    let n = s.unicode_len();
    let mut lo: usize = 0;
    while lo < n && is_ws_char(s.get_char(lo))
        invariant
            lo <= n,
            n == s@.len(),
            forall|k: int| 0 <= k < lo ==> is_fmt_ws(#[trigger] s@[k]),
        decreases n - lo,
    {
        lo += 1;
    }
    let mut hi: usize = n;
    while hi > lo && is_ws_char(s.get_char(hi - 1))
        invariant
            lo <= hi <= n,
            n == s@.len(),
            forall|k: int| hi <= k < n ==> is_fmt_ws(#[trigger] s@[k]),
        decreases hi,
    {
        hi -= 1;
    }
    proof {
        lemma_trim_front_at(s@, lo as int);
        let t = s@.subrange(lo as int, n as int);
        assert forall|k: int| hi - lo <= k < t.len() implies is_fmt_ws(#[trigger] t[k]) by {
            assert(t[k] == s@[lo + k]);
        }
        if hi > lo {
            assert(t[hi - lo - 1] == s@[hi - 1]);
        }
        lemma_trim_back_at(t, hi as int - lo as int);
        assert(t.subrange(0, hi - lo) =~= s@.subrange(lo as int, hi as int));
    }
    let r = s.substring_char(lo, hi).to_owned();
    r
}

// ------------------------------------------------------------------
// Suffixes
// ------------------------------------------------------------------
/// The trailing text emitted when leaving a node, decided from its kind and
/// its parent's kind: under the document root, block-level elements get a
/// blank-line separator (a single newline for lists, which already end in
/// one from their paragraph children); elsewhere a paragraph ends its line;
/// the root itself, with no parent, emits nothing.
pub open spec fn node_suffix_spec(kind: NodeKind, parent: Option<NodeKind>) -> Option<Seq<char>> {
    match parent {
        None => None,
        Some(p) => {
            if p is Document && kind.spec_is_block() {
                if kind is List {
                    Some(seq!['\n'])
                } else {
                    Some(seq!['\n', '\n'])
                }
            } else if kind is Paragraph {
                Some(seq!['\n'])
            } else {
                None
            }
        },
    }
}

/// The view of an optional borrowed kind.
pub open spec fn parent_kind_view(parent: Option<&NodeKind>) -> Option<NodeKind> {
    match parent {
        Some(k) => Some(*k),
        None => None,
    }
}

/// Determine the suffix of a node on leaving it.
pub fn node_suffix(kind: &NodeKind, parent: Option<&NodeKind>) -> (r: Option<&'static str>)
    ensures
        r is Some <==> node_suffix_spec(*kind, parent_kind_view(parent)) is Some,
        r matches Some(s) ==> s@ == node_suffix_spec(*kind, parent_kind_view(parent))->Some_0,
{
    proof {
        reveal_strlit("\n");
        reveal_strlit("\n\n");
        assert("\n"@ =~= seq!['\n']);
        assert("\n\n"@ =~= seq!['\n', '\n']);
    }
    match parent {
        None => None,
        Some(p) => {
            if matches!(p, NodeKind::Document) && kind.is_block() {
                if matches!(kind, NodeKind::List) {
                    Some("\n")
                } else {
                    Some("\n\n")
                }
            } else if matches!(kind, NodeKind::Paragraph) {
                Some("\n")
            } else {
                None
            }
        },
    }
}

// ------------------------------------------------------------------
// Prefixes
// ------------------------------------------------------------------
/// The number of spaces of indentation a list item at `depth` gets:
/// `indent_width * ((depth / 2) - 1)`, clamped at zero. The halving corrects
/// for the non-content list wrapper level (a list and its item each add one
/// depth level); depth 0 is the document's.
pub open spec fn item_indent(config: Config, depth: int) -> int {
    if depth / 2 >= 1 {
        config.indent_width * (depth / 2 - 1)
    } else {
        0
    }
}

/// The prefix a node introduces, if any: only list items do. The prefix is
/// the item's indentation, the configured list marker, and one space.
pub open spec fn node_prefix_spec(config: Config, kind: NodeKind, depth: int) -> Option<
    Seq<char>,
> {
    if kind is Item {
        Some(spaces(item_indent(config, depth) as nat) + seq![config.list_delim.spec_char()]
            + seq![' '])
    } else {
        None
    }
}

/// A string of `width * levels` spaces.
fn indent_string(width: usize, levels: usize) -> (s: String)
    ensures
        s@ == spaces((width * levels) as nat),
{
    let mut s = String::new();
    let mut i: usize = 0;
    proof {
        assert(s@ =~= spaces((width * 0) as nat));
    }
    while i < levels
        invariant
            i <= levels,
            s@ == spaces((width * i) as nat),
        decreases levels - i,
    {
        let sp = spaces_string(width);
        s.append(sp.as_str());
        proof {
            assert(width * (i as int + 1) == width * i + width) by (nonlinear_arith);
            assert(spaces((width * i) as nat) + spaces(width as nat) =~= spaces(
                (width * (i + 1)) as nat,
            ));
        }
        i += 1;
    }
    s
}

/// The count of leading spaces of a text.
pub open spec fn leading_spaces(s: Seq<char>) -> int
    decreases s.len(),
{
    if s.len() > 0 && s[0] == ' ' {
        1 + leading_spaces(s.drop_first())
    } else {
        0
    }
}

proof fn lemma_leading_spaces_exact(s: Seq<char>, n: int)
    requires
        0 <= n < s.len(),
        forall|k: int| 0 <= k < n ==> #[trigger] s[k] == ' ',
        s[n] != ' ',
    ensures
        leading_spaces(s) == n,
    decreases n,
{
    if n > 0 {
        lemma_leading_spaces_exact(s.drop_first(), n - 1);
    }
}

// ------------------------------------------------------------------
// Per-node formatting
// ------------------------------------------------------------------
/// `n` copies of `c`.
pub open spec fn repeat_char(c: char, n: nat) -> Seq<char> {
    Seq::new(n, |i: int| c)
}

/// The text emitted on entering a node, dispatched by kind; `prefix` is the
/// active prefix (empty when none is active) and reaches only the paragraph
/// wrap. Kinds outside the fixed table emit nothing of their own; their
/// children are still formatted independently.
pub open spec fn format_node_spec(config: Config, node: Node, prefix: Seq<char>) -> Option<
    Seq<char>,
> {
    match node.kind {
        NodeKind::CodeBlock { info, literal } => Some(
            seq!['`', '`', '`'] + info@ + seq!['\n'] + literal@ + seq!['\n', '`', '`', '`'],
        ),
        NodeKind::Link { url } => Some(
            seq!['['] + collect_seq(node.children@) + seq![']', '('] + url@ + seq![')'],
        ),
        NodeKind::Paragraph => Some(
            wrap_spec(config.line_width as int, prefix, collect_node(node)),
        ),
        NodeKind::Heading { level } => Some(
            repeat_char('#', level as nat) + seq![' '] + collect_node(node),
        ),
        NodeKind::HtmlBlock { literal } => Some(literal@),
        NodeKind::ThematicBreak => Some(seq!['-', '-', '-']),
        // every other kind emits nothing of its own
        _ => None,
    }
}

/// A member of the prefix stack: the prefix itself, and the node kind and
/// depth that introduced it.
#[derive(Debug)]
pub struct PrefixStackElement {
    /// The kind of the node that introduced this prefix.
    pub node_kind: NodeKind,

    /// The contents of the prefix.
    pub prefix: String,

    /// The depth this prefix was introduced at.
    pub depth: usize,
}

/// The active prefix: the top of the prefix stack, if any.
pub open spec fn top_prefix(stack: Seq<PrefixStackElement>) -> Option<Seq<char>> {
    if stack.len() > 0 {
        Some(stack.last().prefix@)
    } else {
        None
    }
}

/// An optional text, or the empty text.
pub open spec fn opt_seq(o: Option<Seq<char>>) -> Seq<char> {
    match o {
        Some(s) => s,
        None => Seq::empty(),
    }
}

// ------------------------------------------------------------------
// The engine
// ------------------------------------------------------------------
/// The text a node and its subtree emit: the node's own text on entry (with
/// the prefix it may itself introduce already active), the children's text
/// at one greater depth, and the node's suffix on exit.
pub open spec fn render_node(
    config: Config,
    node: Node,
    depth: int,
    stack: Option<Seq<char>>,
    parent: Option<NodeKind>,
) -> Seq<char>
    decreases node, 1int,
{
    let cand = node_prefix_spec(config, node.kind, depth);
    let active = if cand is Some {
        cand
    } else {
        stack
    };
    opt_seq(format_node_spec(config, node, opt_seq(active))) + render_children(
        config,
        node.children@,
        depth + 1,
        active,
        Some(node.kind),
    ) + opt_seq(node_suffix_spec(node.kind, parent))
}

/// The concatenated text of a sequence of sibling nodes.
pub open spec fn render_children(
    config: Config,
    nodes: Seq<Node>,
    depth: int,
    stack: Option<Seq<char>>,
    parent: Option<NodeKind>,
) -> Seq<char>
    decreases nodes, 0int,
{
    if nodes.len() == 0 {
        Seq::empty()
    } else {
        render_node(config, nodes[0], depth, stack, parent) + render_children(
            config,
            nodes.drop_first(),
            depth,
            stack,
            parent,
        )
    }
}

proof fn lemma_render_children_push(
    config: Config,
    nodes: Seq<Node>,
    node: Node,
    depth: int,
    stack: Option<Seq<char>>,
    parent: Option<NodeKind>,
)
    ensures
        render_children(config, nodes.push(node), depth, stack, parent) == render_children(
            config,
            nodes,
            depth,
            stack,
            parent,
        ) + render_node(config, node, depth, stack, parent),
    decreases nodes.len(),
{
    if nodes.len() == 0 {
        reveal_with_fuel(render_children, 2);
        assert(nodes.push(node) =~= seq![node]);
        assert(seq![node].drop_first() =~= Seq::<Node>::empty());
        assert(render_children(config, nodes.push(node), depth, stack, parent) =~= render_node(
            config,
            node,
            depth,
            stack,
            parent,
        ));
        assert(render_children(config, nodes, depth, stack, parent) + render_node(
            config,
            node,
            depth,
            stack,
            parent,
        ) =~= render_node(config, node, depth, stack, parent));
    } else {
        lemma_render_children_push(config, nodes.drop_first(), node, depth, stack, parent);
        assert(nodes.push(node).drop_first() =~= nodes.drop_first().push(node));
        assert(render_children(config, nodes.push(node), depth, stack, parent) =~= render_children(
            config,
            nodes,
            depth,
            stack,
            parent,
        ) + render_node(config, node, depth, stack, parent));
    }
}

/// The full output of a format run: the root rendered at depth 1 with no
/// active prefix and no parent, trimmed of surrounding whitespace.
pub open spec fn format_spec(config: Config, root: Node) -> Seq<char> {
    trim_spec(render_node(config, root, 1, None, None))
}

/// Routines to format a markdown document tree.
///
/// Holds the formatting configuration and the prefix stack the traversal
/// maintains; the stack is empty between runs.
#[derive(Debug)]
pub struct Formatter {
    /// The formatting configuration.
    pub config: Config,

    /// The stack of active nesting prefixes, kept only while a format run
    /// is in progress.
    pub prefix_stack: Vec<PrefixStackElement>,
}

impl Formatter {
    /// Between format runs the prefix stack is empty.
    pub open spec fn wf(&self) -> bool {
        self.prefix_stack@.len() == 0
    }

    /// Create a new `Formatter`, given a formatting config.
    pub fn new(config: Config) -> (f: Formatter)
        ensures
            f.config == config,
            f.wf(),
    {
        Formatter { config, prefix_stack: Vec::new() }
    }

    /// Determine the optional prefix of a node at the given traversal depth.
    ///
    /// Only list items have one: their indentation, the configured list
    /// marker, and a trailing space.
    pub fn node_prefix(&self, node: &Node, depth: usize) -> (r: Option<String>)
        ensures
            r is Some <==> node_prefix_spec(self.config, node.kind, depth as int) is Some,
            r matches Some(p) ==> p@ == node_prefix_spec(
                self.config,
                node.kind,
                depth as int,
            )->Some_0,
    {
        match &node.kind {
            NodeKind::Item => {
                let levels: usize = if depth / 2 >= 1 {
                    depth / 2 - 1
                } else {
                    0
                };
                let mut s = indent_string(self.config.indent_width, levels);
                s.append(self.config.list_delim.as_str());
                s.append(" ");
                proof {
                    reveal_strlit(" ");
                    assert(s@ =~= spaces(item_indent(self.config, depth as int) as nat) + seq![
                        self.config.list_delim.spec_char()
                    ] + seq![' ']);
                }
                Some(s)
            },
            _ => None,
        }
    }

    /// Format the contents of a node to text on entry, if its kind asks for
    /// any; `prefix` is the active prefix and reaches the paragraph wrap.
    pub fn format_node(&self, node: &Node, prefix: Option<&str>) -> (r: Option<String>)
        ensures
            r is Some <==> format_node_spec(self.config, *node, prefix_view(prefix)) is Some,
            r matches Some(s) ==> s@ == format_node_spec(
                self.config,
                *node,
                prefix_view(prefix),
            )->Some_0,
    {
        match &node.kind {
            NodeKind::CodeBlock { info, literal } => {
                let mut s = "```".to_owned();
                s.append(info.as_str());
                s.append("\n");
                s.append(literal.as_str());
                s.append("\n```");
                proof {
                    reveal_strlit("```");
                    reveal_strlit("\n");
                    reveal_strlit("\n```");
                    assert(s@ =~= seq!['`', '`', '`'] + info@ + seq!['\n'] + literal@ + seq![
                        '\n', '`', '`', '`'
                    ]);
                }
                Some(s)
            },
            NodeKind::Link { url } => {
                let title = collect_link_title_text(node);
                let mut s = "[".to_owned();
                s.append(title.as_str());
                s.append("](");
                s.append(url.as_str());
                s.append(")");
                proof {
                    reveal_strlit("[");
                    reveal_strlit("](");
                    reveal_strlit(")");
                    assert(s@ =~= seq!['['] + collect_seq(node.children@) + seq![']', '(']
                        + url@ + seq![')']);
                }
                Some(s)
            },
            NodeKind::Paragraph => {
                let raw = collect_text(node);
                Some(wrap_text(self.config.line_width, prefix, raw.as_str()))
            },
            NodeKind::Heading { level } => {
                let mut s = String::new();
                let mut i: u8 = 0;
                proof {
                    assert(s@ =~= repeat_char('#', 0));
                }
                while i < *level
                    invariant
                        i <= *level,
                        s@ == repeat_char('#', i as nat),
                    decreases *level - i,
                {
                    s.append("#");
                    proof {
                        reveal_strlit("#");
                        assert(s@ =~= repeat_char('#', (i + 1) as nat));
                    }
                    i += 1;
                }
                s.append(" ");
                let t = collect_text(node);
                s.append(t.as_str());
                proof {
                    reveal_strlit(" ");
                    assert(s@ =~= repeat_char('#', *level as nat) + seq![' '] + collect_node(
                        *node,
                    ));
                }
                Some(s)
            },
            NodeKind::HtmlBlock { literal } => Some(literal.clone()),
            NodeKind::ThematicBreak => {
                let s = "---".to_owned();
                proof {
                    reveal_strlit("---");
                    assert(s@ =~= seq!['-', '-', '-']);
                }
                Some(s)
            },
            // every other kind emits nothing of its own
            _ => None,
        }
    }

    /// Walk one node: emit its entry text, its children, and its suffix,
    /// keeping the prefix stack balanced.
    fn walk(&mut self, node: &Node, depth: usize, parent: Option<&NodeKind>, out: &mut String)
        requires
            depth + height(*node) <= usize::MAX,
        ensures
            final(self).config == old(self).config,
            final(self).prefix_stack@ == old(self).prefix_stack@,
            final(out)@ == old(out)@ + render_node(
                old(self).config,
                *node,
                depth as int,
                top_prefix(old(self).prefix_stack@),
                parent_kind_view(parent),
            ),
        decreases *node,
    {
        let ghost cfg = self.config;
        let ghost stack0 = self.prefix_stack@;
        let ghost cand_spec = node_prefix_spec(cfg, node.kind, depth as int);
        let ghost active = if cand_spec is Some {
            cand_spec
        } else {
            top_prefix(stack0)
        };

        let cand = self.node_prefix(node, depth);
        let pushed: bool = match cand {
            Some(p) => {
                let elem = PrefixStackElement { node_kind: node.kind.clone(), prefix: p, depth };
                self.prefix_stack.push(elem);
                true
            },
            None => false,
        };
        proof {
            assert(top_prefix(self.prefix_stack@) == active);
        }

        let fmt: Option<String> = if self.prefix_stack.len() > 0 {
            let idx = self.prefix_stack.len() - 1;
            self.format_node(node, Some(self.prefix_stack[idx].prefix.as_str()))
        } else {
            self.format_node(node, None)
        };
        match fmt {
            Some(s) => {
                out.append(s.as_str());
            },
            None => {},
        }
        proof {
            assert(out@ =~= old(out)@ + opt_seq(format_node_spec(cfg, *node, opt_seq(active))));
        }

        let ghost base = out@;
        let ghost stack_mid = self.prefix_stack@;
        let mut i: usize = 0;
        proof {
            assert(node.children@.take(0) =~= Seq::<Node>::empty());
            assert(base + render_children(cfg, node.children@.take(0), depth as int + 1, active,
                Some(node.kind)) =~= base);
        }
        while i < node.children.len()
            invariant
                i <= node.children.len(),
                depth + height(*node) <= usize::MAX,
                self.config == cfg,
                self.prefix_stack@ == stack_mid,
                top_prefix(stack_mid) == active,
                out@ == base + render_children(
                    cfg,
                    node.children@.take(i as int),
                    depth as int + 1,
                    active,
                    Some(node.kind),
                ),
            decreases node.children.len() - i,
        {
            proof {
                assert(height(*node) == 1 + height_seq(node.children@));
                lemma_height_seq_ge(node.children@, i as int);
                assert(decreases_to!(*node => node.children));
                assert(decreases_to!(node.children => node.children@));
                assert(decreases_to!(node.children@ => node.children@[i as int]));
            }
            self.walk(&node.children[i], depth + 1, Some(&node.kind), out);
            proof {
                lemma_render_children_push(
                    cfg,
                    node.children@.take(i as int),
                    node.children@[i as int],
                    depth as int + 1,
                    active,
                    Some(node.kind),
                );
                assert(node.children@.take(i as int + 1) =~= node.children@.take(i as int).push(
                    node.children@[i as int],
                ));
            }
            i += 1;
        }
        proof {
            assert(node.children@.take(node.children@.len() as int) =~= node.children@);
        }

        let suf = node_suffix(&node.kind, parent);
        match suf {
            Some(s) => {
                out.append(s);
            },
            None => {},
        }
        proof {
            assert(out@ =~= base + render_children(
                cfg,
                node.children@,
                depth as int + 1,
                active,
                Some(node.kind),
            ) + opt_seq(node_suffix_spec(node.kind, parent_kind_view(parent))));
        }

        if pushed {
            self.prefix_stack.pop();
            proof {
                assert(self.prefix_stack@ =~= stack0);
            }
        }
        proof {
            assert(out@ =~= old(out)@ + render_node(
                cfg,
                *node,
                depth as int,
                top_prefix(stack0),
                parent_kind_view(parent),
            ));
        }
    }

    /// Format a markdown document from its tree.
    ///
    /// `root` need not be the true document root: any subtree formats. The
    /// result is the rendered text of the whole subtree, trimmed of leading
    /// and trailing whitespace. The height bound is a machine limit: the
    /// traversal counts depth in a `usize`.
    pub fn format_md(&mut self, root: &Node) -> (r: String)
        requires
            old(self).wf(),
            1 + height(*root) <= usize::MAX,
        ensures
            final(self).wf(),
            final(self).config == old(self).config,
            r@ == format_spec(old(self).config, *root),
    {
        let mut out = String::new();
        self.walk(root, 1, None, &mut out);
        trim_string(out.as_str())
    }
}

// ------------------------------------------------------------------
// Laws
// ------------------------------------------------------------------
/// For a list item at any traversal depth, the rendered prefix's
/// leading-space count equals `indent_width * ((depth / 2) - 1)`, clamped
/// at zero.
pub proof fn lemma_item_prefix_indent(config: Config, depth: int)
    requires
        0 <= depth,
    ensures
        node_prefix_spec(config, NodeKind::Item, depth) is Some,
        leading_spaces(node_prefix_spec(config, NodeKind::Item, depth)->Some_0) == item_indent(
            config,
            depth,
        ),
        depth / 2 >= 1 ==> item_indent(config, depth) == config.indent_width * (depth / 2 - 1),
        depth / 2 < 1 ==> item_indent(config, depth) == 0,
{
    let n = item_indent(config, depth);
    let p = node_prefix_spec(config, NodeKind::Item, depth)->Some_0;
    assert(config.list_delim.spec_char() != ' ');
    assert(p[n] == config.list_delim.spec_char());
    assert forall|k: int| 0 <= k < n implies #[trigger] p[k] == ' ' by {
        assert(p[k] == spaces(n as nat)[k]);
    }
    lemma_leading_spaces_exact(p, n);
}

/// A heading of level `n` formats to text that starts with exactly `n` `#`
/// characters followed by one space (and then the heading's collected
/// text).
pub proof fn lemma_heading_format(config: Config, node: Node, prefix: Seq<char>, level: u8)
    requires
        node.kind == (NodeKind::Heading { level }),
    ensures
        format_node_spec(config, node, prefix) is Some,
        ({
            let r = format_node_spec(config, node, prefix)->Some_0;
            &&& r.len() >= level + 1
            &&& forall|k: int| 0 <= k < level ==> #[trigger] r[k] == '#'
            &&& r[level as int] == ' '
        }),
{
    let r = format_node_spec(config, node, prefix)->Some_0;
    assert(r =~= repeat_char('#', level as nat) + seq![' '] + collect_node(node));
    assert forall|k: int| 0 <= k < level implies #[trigger] r[k] == '#' by {
        assert(r[k] == repeat_char('#', level as nat)[k]);
    }
    assert(r[level as int] == ' ');
}

} // verus!

