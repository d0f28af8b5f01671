use html_parser::engine::{Node, MAX_DEPTH};
use html_parser::error::{line_col, HtmlParserError, SyntaxError};
use html_parser::grammar::Rule;
use html_parser::{parse_html, parse_input_by_rule, ParseTree};

/// The text that the root of `tree` spans.
fn root_text<'a>(tree: &ParseTree, input: &'a str) -> &'a str {
    let root = tree.nodes[0];
    &input[root.start..root.end]
}

/// Checks that `nodes[i..i + count]` is a sequence of whole subtrees inside
/// `lo..hi`, children inside parents and siblings in order.
fn nested(nodes: &[Node], lo: usize, hi: usize) -> bool {
    let mut at = 0;
    let mut from = lo;
    while at < nodes.len() {
        let n = nodes[at];
        if n.start < from || n.start > n.end || n.end > hi {
            return false;
        }
        let sub = &nodes[at + 1..at + 1 + n.descendants];
        if !nested(sub, n.start, n.end) {
            return false;
        }
        from = n.end;
        at += 1 + n.descendants;
    }
    true
}

#[test]
fn matching_names_span_the_whole_element() {
    for input in ["<div></div>", "<p></p>", "<my-tag2></my-tag2>", "<a>x<b></b>y</a>"] {
        let tree = parse_input_by_rule(Rule::common_element, input).unwrap();
        assert_eq!(root_text(&tree, input), input);
    }
}

#[test]
fn differing_names_fail() {
    for input in ["<div></di>", "<a></b>", "<div></divx>", "<span></div>"] {
        assert!(parse_input_by_rule(Rule::common_element, input).is_err());
    }
}

#[test]
fn mismatch_reports_the_closing_tag() {
    let err = parse_input_by_rule(Rule::common_element, "<div></di>").unwrap_err();
    assert_eq!(
        err,
        HtmlParserError::ParseError(SyntaxError { rule: Rule::closing_tag, pos: 7 })
    );
}

#[test]
fn self_closing_needs_no_closing_tag() {
    for input in ["<input />", "<br/>", "<img src=\"a.png\" />"] {
        let tree = parse_input_by_rule(Rule::html_node, input).unwrap();
        assert_eq!(root_text(&tree, input), input);
        assert_eq!(tree.nodes[1].rule, Rule::self_closing_element);
    }
    assert!(parse_html("<div><input /></div>").is_ok());
}

#[test]
fn names_do_not_start_with_a_digit() {
    assert!(parse_input_by_rule(Rule::tag_name, "9a").is_err());
    assert!(parse_input_by_rule(Rule::attribute_name, "1x").is_err());
    let tree = parse_input_by_rule(Rule::tag_name, "h1").unwrap();
    assert_eq!(root_text(&tree, "h1"), "h1");
}

#[test]
fn quotes_must_match() {
    let tree = parse_input_by_rule(Rule::attribute, "class='test'").unwrap();
    assert_eq!(root_text(&tree, "class='test'"), "class='test'");
    assert!(parse_input_by_rule(Rule::attribute, "class=\"test'").is_err());
    let tree = parse_input_by_rule(Rule::attribute, "title=\"it's\"").unwrap();
    assert_eq!(root_text(&tree, "title=\"it's\""), "title=\"it's\"");
}

#[test]
fn comment_ends_at_first_closer() {
    let input = "<!-- a <!-- b --> c -->";
    let tree = parse_input_by_rule(Rule::html_comment, input).unwrap();
    assert_eq!(root_text(&tree, input), "<!-- a <!-- b -->");
    assert!(parse_input_by_rule(Rule::html_comment, "<!-- open").is_err());
    assert!(parse_html("<div><!-- <div> --></div>").is_ok());
}

#[test]
fn stray_closing_tag_fails_document() {
    assert!(parse_html("<div><p></p></span></div>").is_err());
    assert!(parse_html("<div></div></div>").is_err());
    assert!(parse_html("<div><p></div></p>").is_err());
    assert!(parse_html("<div><p></p></div>").is_ok());
}

#[test]
fn doctype_variants() {
    let ok = [
        "<!DOCTYPE html>",
        "<!DOCTYPE html SYSTEM \"-//X//Y\">",
        "<!DOCTYPE html system \"-//X//Y\" \"http://a.b/c?d=e&f\">",
    ];
    for input in ok {
        let tree = parse_input_by_rule(Rule::doctype_declaration, input).unwrap();
        assert_eq!(root_text(&tree, input), input);
    }
    assert!(parse_input_by_rule(Rule::doctype_declaration, "<!DOCTYPE html PRIVATE \"-//X//Y\">").is_err());
    assert!(parse_input_by_rule(Rule::doctype_params, "\"-//A+B//EN\"").is_err());
    assert!(parse_input_by_rule(Rule::doctype_params, "\"-//A`B//EN\"").is_err());
}

#[test]
fn tree_nodes_nest() {
    let input = "<html> <body class=\"x\"><p>one</p><!-- c --><br /></body> </html>";
    let tree = parse_html(input).unwrap();
    let root = tree.nodes[0];
    assert_eq!(root.rule, Rule::html);
    assert_eq!((root.start, root.end), (0, input.len()));
    assert_eq!(root.descendants, tree.nodes.len() - 1);
    assert!(nested(&tree.nodes, 0, input.len()));
    let texts: Vec<&str> = tree
        .nodes
        .iter()
        .filter(|n| n.rule == Rule::html_text)
        .map(|n| &input[n.start..n.end])
        .collect();
    assert_eq!(texts, vec![" ", "one", " "]);
}

#[test]
fn failure_is_deterministic() {
    let input = "<div><span>text</div></span>";
    let a = parse_html(input).unwrap_err();
    let b = parse_html(input).unwrap_err();
    assert_eq!(a, b);
}

#[test]
fn empty_and_blank_documents_fail() {
    assert!(parse_html("").is_err());
    assert!(parse_html("  \n ").is_err());
    assert!(parse_input_by_rule(Rule::html_text, "").is_err());
    let tree = parse_input_by_rule(Rule::html_comment_content, "").unwrap();
    assert_eq!((tree.nodes[0].start, tree.nodes[0].end), (0, 0));
}

#[test]
fn prefix_match_need_not_reach_end() {
    let tree = parse_input_by_rule(Rule::tag_name, "abc def").unwrap();
    assert_eq!(root_text(&tree, "abc def"), "abc");
    assert!(parse_html("<a></a> x").is_err());
}

#[test]
fn deep_nesting_is_reported() {
    let levels = MAX_DEPTH;
    let input = format!("{}{}", "<a>".repeat(levels), "</a>".repeat(levels));
    assert_eq!(parse_html(&input).unwrap_err(), HtmlParserError::RecursionLimitExceeded);
    let shallow = format!("{}{}", "<a>".repeat(40), "</a>".repeat(40));
    assert!(parse_html(&shallow).is_ok());
}

#[test]
fn case_sensitive_keyword() {
    assert!(parse_input_by_rule(Rule::doctype_keyword, "doctype").is_err());
    let tree = parse_input_by_rule(Rule::doctype_keyword, "DOCTYPE").unwrap();
    assert_eq!(root_text(&tree, "DOCTYPE"), "DOCTYPE");
}

#[test]
fn line_and_column_of_offsets() {
    let input = "ab\ncd\n\nx";
    assert_eq!(line_col(input, 0), (1, 1));
    assert_eq!(line_col(input, 2), (1, 3));
    assert_eq!(line_col(input, 3), (2, 1));
    assert_eq!(line_col(input, 4), (2, 2));
    assert_eq!(line_col(input, 7), (4, 1));
    assert_eq!(line_col(input, 8), (4, 2));
}

#[test]
fn syntax_error_location() {
    let input = "<div>\n  </dvi>";
    match parse_input_by_rule(Rule::common_element, input).unwrap_err() {
        HtmlParserError::ParseError(e) => {
            assert_eq!(e.rule, Rule::closing_tag);
            assert_eq!(e.pos, 10);
            assert_eq!(e.line_col(input), (2, 5));
        }
        other => panic!("unexpected error {:?}", other),
    }
}

#[test]
fn privacy_levels_are_a_closed_set() {
    for ok in ["PUBLIC", "SYSTEM", "public", "system"] {
        let tree = parse_input_by_rule(Rule::doctype_privacy_level, ok).unwrap();
        assert_eq!(root_text(&tree, ok), ok);
    }
    for bad in ["Public", "PRIVATE", "sys", ""] {
        assert!(parse_input_by_rule(Rule::doctype_privacy_level, bad).is_err());
    }
}

#[test]
fn names_start_with_letters() {
    for bad in ["0", "9div", "-a"] {
        assert!(parse_input_by_rule(Rule::tag_name, bad).is_err());
        assert!(parse_input_by_rule(Rule::attribute_name, bad).is_err());
    }
    let tree = parse_input_by_rule(Rule::attribute_name, "_data-x:y").unwrap();
    assert_eq!(root_text(&tree, "_data-x:y"), "_data-x:y");
}

#[test]
fn every_element_closes_with_its_own_name() {
    let input = "<html>\n<body><div id='a'><p>x</p><span>y</span></div><br/></body>\n</html>";
    let tree = parse_html(input).unwrap();
    let mut elements = 0;
    for n in tree.nodes.iter().filter(|n| n.rule == Rule::common_element) {
        let text = &input[n.start..n.end];
        let name: String = text[1..]
            .chars()
            .take_while(|c| c.is_ascii_alphanumeric() || *c == '-')
            .collect();
        assert!(text.ends_with(&format!("</{}>", name)));
        elements += 1;
    }
    assert_eq!(elements, 5);
    assert!(parse_html("<html><body></div></body></html>").is_err());
}
