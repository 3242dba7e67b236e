//! End-to-end tests of the formatting engine on hand-built document trees.

use mdfmt::Config;
use mdfmt::Formatter;
use mdfmt::ListDelimiter;
use mdfmt::Node;
use mdfmt::NodeKind;

fn node(kind: NodeKind, children: Vec<Node>) -> Node {
    Node { kind, children }
}

fn text(s: &str) -> Node {
    node(
        NodeKind::Text {
            literal: s.to_string(),
        },
        vec![],
    )
}

fn heading_and_wrapped_paragraph_config() -> Config {
    Config::new(40, 4, ListDelimiter::Asterisk).unwrap()
}

#[test]
fn heading_and_wrapped_paragraph() {
    let root = node(
        NodeKind::Document,
        vec![
            node(NodeKind::Heading { level: 1 }, vec![text("Title")]),
            node(
                NodeKind::Paragraph,
                vec![text(
                    "This is a paragraph that is somewhat long and should wrap once it exceeds the configured width.",
                )],
            ),
        ],
    );
    let mut fmt = Formatter::new(heading_and_wrapped_paragraph_config());
    let out = fmt.format_md(&root);
    let expected = "# Title\n\nThis is a paragraph that is somewhat\nlong and should wrap once it exceeds the\nconfigured width.";
    assert_eq!(out, expected);
    let mut lines = out.lines();
    assert_eq!(lines.next(), Some("# Title"));
    assert_eq!(lines.next(), Some(""));
    for line in lines {
        assert!(line.chars().count() <= 40);
        assert!(!line.ends_with(' '));
        assert!(!line.ends_with('\t'));
    }
}

#[test]
fn two_item_bullet_list_with_nesting() {
    let cfg = Config::new(80, 4, ListDelimiter::Dash).unwrap();
    let root = node(
        NodeKind::Document,
        vec![node(
            NodeKind::List,
            vec![
                node(
                    NodeKind::Item,
                    vec![
                        node(NodeKind::Paragraph, vec![text("one")]),
                        node(
                            NodeKind::List,
                            vec![node(
                                NodeKind::Item,
                                vec![node(NodeKind::Paragraph, vec![text("nested")])],
                            )],
                        ),
                    ],
                ),
                node(
                    NodeKind::Item,
                    vec![node(NodeKind::Paragraph, vec![text("two")])],
                ),
            ],
        )],
    );
    let mut fmt = Formatter::new(cfg);
    let out = fmt.format_md(&root);
    assert_eq!(out, "- one\n    - nested\n- two");
}

#[test]
fn link_formats_to_label_and_url() {
    let root = node(
        NodeKind::Link {
            url: "example.com".to_string(),
        },
        vec![text("here")],
    );
    let mut fmt = Formatter::new(Config::default());
    let out = fmt.format_md(&root);
    assert_eq!(out, "[here](example.com)");
}

#[test]
fn fenced_code_block_three_lines() {
    let root = node(
        NodeKind::CodeBlock {
            info: "rust".to_string(),
            literal: "fn main() {}".to_string(),
        },
        vec![],
    );
    let mut fmt = Formatter::new(Config::default());
    let out = fmt.format_md(&root);
    assert_eq!(out, "```rust\nfn main() {}\n```");
    let lines: Vec<&str> = out.lines().collect();
    assert_eq!(lines, vec!["```rust", "fn main() {}", "```"]);
}

#[test]
fn heading_levels_start_with_hashes() {
    for level in 1u8..=6 {
        let root = node(NodeKind::Heading { level }, vec![text("T")]);
        let mut fmt = Formatter::new(Config::default());
        let out = fmt.format_md(&root);
        let hashes = "#".repeat(level as usize);
        assert_eq!(out, format!("{} T", hashes));
        assert!(out.starts_with(&format!("{} ", hashes)));
        assert!(!out.starts_with(&format!("{}#", hashes)));
    }
}

#[test]
fn thematic_break_renders_dashes() {
    let root = node(NodeKind::Document, vec![node(NodeKind::ThematicBreak, vec![])]);
    let mut fmt = Formatter::new(Config::default());
    assert_eq!(fmt.format_md(&root), "---");
}

#[test]
fn html_block_passes_through() {
    let root = node(
        NodeKind::Document,
        vec![node(
            NodeKind::HtmlBlock {
                literal: "<div>x</div>".to_string(),
            },
            vec![],
        )],
    );
    let mut fmt = Formatter::new(Config::default());
    assert_eq!(fmt.format_md(&root), "<div>x</div>");
}

#[test]
fn soft_break_collects_as_space() {
    let root = node(
        NodeKind::Document,
        vec![node(
            NodeKind::Paragraph,
            vec![text("a"), node(NodeKind::SoftBreak, vec![]), text("b")],
        )],
    );
    let mut fmt = Formatter::new(Config::default());
    assert_eq!(fmt.format_md(&root), "a b");
}

#[test]
fn line_break_collects_as_newline() {
    let root = node(
        NodeKind::Document,
        vec![node(
            NodeKind::Paragraph,
            vec![text("a"), node(NodeKind::LineBreak, vec![]), text("b")],
        )],
    );
    let mut fmt = Formatter::new(Config::default());
    assert_eq!(fmt.format_md(&root), "a\nb");
}

#[test]
fn paragraph_excludes_link_text_link_emits_itself() {
    let root = node(
        NodeKind::Document,
        vec![node(
            NodeKind::Paragraph,
            vec![
                text("see"),
                node(
                    NodeKind::Link {
                        url: "example.com".to_string(),
                    },
                    vec![text("here")],
                ),
            ],
        )],
    );
    let mut fmt = Formatter::new(Config::default());
    // The paragraph's own text run leaves the link out; the link then emits
    // its bracketed form when the traversal reaches it.
    assert_eq!(fmt.format_md(&root), "see[here](example.com)");
}

#[test]
fn unknown_kinds_pass_through_children() {
    let root = node(
        NodeKind::Document,
        vec![node(
            NodeKind::Other { block: true },
            vec![node(NodeKind::Paragraph, vec![text("inside")])],
        )],
    );
    let mut fmt = Formatter::new(Config::default());
    assert_eq!(fmt.format_md(&root), "inside");
}

#[test]
fn empty_document_formats_to_empty_string() {
    let root = node(NodeKind::Document, vec![]);
    let mut fmt = Formatter::new(Config::default());
    assert_eq!(fmt.format_md(&root), "");
}

#[test]
fn inline_code_collects_verbatim() {
    let root = node(
        NodeKind::Document,
        vec![node(
            NodeKind::Paragraph,
            vec![
                text("call"),
                node(NodeKind::SoftBreak, vec![]),
                node(
                    NodeKind::Code {
                        literal: "main()".to_string(),
                    },
                    vec![],
                ),
            ],
        )],
    );
    let mut fmt = Formatter::new(Config::default());
    assert_eq!(fmt.format_md(&root), "call main()");
}

#[test]
fn two_paragraphs_blank_line_between() {
    let root = node(
        NodeKind::Document,
        vec![
            node(NodeKind::Paragraph, vec![text("first")]),
            node(NodeKind::Paragraph, vec![text("second")]),
        ],
    );
    let mut fmt = Formatter::new(Config::default());
    assert_eq!(fmt.format_md(&root), "first\n\nsecond");
}

#[test]
fn list_item_paragraph_wraps_with_marker_and_indent() {
    let cfg = Config::new(12, 4, ListDelimiter::Asterisk).unwrap();
    let root = node(
        NodeKind::Document,
        vec![node(
            NodeKind::List,
            vec![node(
                NodeKind::Item,
                vec![node(
                    NodeKind::Paragraph,
                    vec![text("alpha beta gamma")],
                )],
            )],
        )],
    );
    let mut fmt = Formatter::new(cfg);
    // "* alpha" is 7 wide; adding " beta" would reach 12 exactly, so it
    // fits; "gamma" then starts a continuation line indented two spaces.
    assert_eq!(fmt.format_md(&root), "* alpha beta\n  gamma");
}
