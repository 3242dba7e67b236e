//! Tests of configuration, validation and the prefix and suffix rules.

use mdfmt::formatter::node_suffix;
use mdfmt::Config;
use mdfmt::Formatter;
use mdfmt::ListDelimiter;
use mdfmt::Node;
use mdfmt::NodeKind;
use mdfmt::Opt;
use mdfmt::OptError;

#[test]
fn default_config_values() {
    let c = Config::default();
    assert_eq!(c.line_width(), 80);
    assert_eq!(c.indent_width(), 4);
    assert_eq!(c.list_delim(), ListDelimiter::Asterisk);
}

#[test]
fn config_new_accepts_valid_widths() {
    let c = Config::new(40, 4, ListDelimiter::Dash).unwrap();
    assert_eq!(c.line_width(), 40);
    assert_eq!(c.indent_width(), 4);
    assert_eq!(c.list_delim(), ListDelimiter::Dash);
}

#[test]
fn config_new_rejects_indent_not_below_line_width() {
    assert!(Config::new(10, 10, ListDelimiter::Asterisk).is_none());
    assert!(Config::new(10, 11, ListDelimiter::Asterisk).is_none());
}

#[test]
fn config_new_rejects_zero_indent() {
    assert!(Config::new(10, 0, ListDelimiter::Asterisk).is_none());
}

#[test]
fn config_from_opt_yields_defaults() {
    let opt = Opt {
        in_place: false,
        input_file: "input.md".to_string(),
        config_file: None,
    };
    assert_eq!(Config::from(opt), Config::default());
}

#[test]
fn list_delim_symbols() {
    assert_eq!(ListDelimiter::Asterisk.as_str(), "*");
    assert_eq!(ListDelimiter::Dash.as_str(), "-");
}

#[test]
fn opt_valid_accepts_existing_input() {
    let opt = Opt {
        in_place: false,
        input_file: "input.md".to_string(),
        config_file: None,
    };
    assert!(opt.valid(true, false).is_ok());
}

#[test]
fn opt_valid_rejects_missing_input() {
    let opt = Opt {
        in_place: false,
        input_file: "input.md".to_string(),
        config_file: None,
    };
    match opt.valid(false, false) {
        Err(OptError::InvalidFile { filename, parameter }) => {
            assert_eq!(filename, "input.md");
            assert_eq!(parameter, "input_file");
        }
        Ok(()) => panic!("expected an error"),
    }
}

#[test]
fn opt_valid_rejects_missing_config_file() {
    let opt = Opt {
        in_place: true,
        input_file: "input.md".to_string(),
        config_file: Some("conf.toml".to_string()),
    };
    match opt.valid(true, false) {
        Err(OptError::InvalidFile { filename, parameter }) => {
            assert_eq!(filename, "conf.toml");
            assert_eq!(parameter, "config_file");
        }
        Ok(()) => panic!("expected an error"),
    }
}

#[test]
fn opt_valid_accepts_existing_config_file() {
    let opt = Opt {
        in_place: false,
        input_file: "input.md".to_string(),
        config_file: Some("conf.toml".to_string()),
    };
    assert!(opt.valid(true, true).is_ok());
}

#[test]
fn opt_error_message_names_path_and_parameter() {
    let opt = Opt {
        in_place: false,
        input_file: "missing.md".to_string(),
        config_file: None,
    };
    let err = opt.valid(false, false).unwrap_err();
    assert_eq!(err.message(), "Invalid file: missing.md for input_file");
}

fn item() -> Node {
    Node {
        kind: NodeKind::Item,
        children: vec![],
    }
}

#[test]
fn item_prefix_indent_by_depth() {
    let fmt = Formatter::new(Config::new(80, 4, ListDelimiter::Dash).unwrap());
    // A top-level item sits at depth 3 (document, list, item): no indent.
    assert_eq!(fmt.node_prefix(&item(), 3).unwrap(), "- ");
    // One nesting level deeper the depth grows by two (list and item): one
    // indent width of leading spaces.
    assert_eq!(fmt.node_prefix(&item(), 5).unwrap(), "    - ");
    assert_eq!(fmt.node_prefix(&item(), 7).unwrap(), "        - ");
    // Depths whose halving would go below zero clamp to no indent.
    assert_eq!(fmt.node_prefix(&item(), 1).unwrap(), "- ");
}

#[test]
fn only_items_introduce_prefixes() {
    let fmt = Formatter::new(Config::default());
    let para = Node {
        kind: NodeKind::Paragraph,
        children: vec![],
    };
    assert!(fmt.node_prefix(&para, 3).is_none());
    assert_eq!(fmt.node_prefix(&item(), 3).unwrap(), "* ");
}

#[test]
fn suffixes_under_document_root() {
    assert_eq!(
        node_suffix(&NodeKind::Paragraph, Some(&NodeKind::Document)),
        Some("\n\n")
    );
    assert_eq!(node_suffix(&NodeKind::List, Some(&NodeKind::Document)), Some("\n"));
    assert_eq!(
        node_suffix(&NodeKind::ThematicBreak, Some(&NodeKind::Document)),
        Some("\n\n")
    );
}

#[test]
fn suffixes_below_other_parents() {
    assert_eq!(node_suffix(&NodeKind::Paragraph, Some(&NodeKind::Item)), Some("\n"));
    assert_eq!(node_suffix(&NodeKind::List, Some(&NodeKind::Item)), None);
    assert_eq!(
        node_suffix(&NodeKind::Text { literal: "x".to_string() }, Some(&NodeKind::Paragraph)),
        None
    );
}

#[test]
fn root_node_has_no_suffix() {
    assert_eq!(node_suffix(&NodeKind::Document, None), None);
}

#[test]
fn inline_kinds_are_not_blocks() {
    assert!(NodeKind::Paragraph.is_block());
    assert!(NodeKind::List.is_block());
    assert!(!NodeKind::SoftBreak.is_block());
    assert!(!NodeKind::Link { url: String::new() }.is_block());
    assert!(NodeKind::Other { block: true }.is_block());
    assert!(!NodeKind::Other { block: false }.is_block());
}
