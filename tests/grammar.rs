use html_parser::grammar::Rule;
use html_parser::{parse_html, parse_input_by_rule, ParseTree};

/// The text that the root of `tree` spans.
fn text<'a>(tree: &ParseTree, input: &'a str) -> &'a str {
    let root = tree.nodes[0];
    &input[root.start..root.end]
}

#[test]
fn is_valid_html() {
    let html = "
        <!DOCTYPE html PUBLIC \"-//W3C//DTD XHTML 1.1//EN\" \"http://www.w3.org/TR/xhtml11/DTD/xhtml11.dtd\">
        <html>
        
            <body>
            
                <h1 class=\"heading\">My First Heading</h1>

                <p>My first paragraph.</p>
            
            </body>

        </html>

        ";
    let result = parse_html(&html);

    assert!(result.is_ok());
}

#[test]
fn is_invalid_html() {
    let html = "
        <!DOCTYPE html>
        <html>
            </body>
            <body>
            
                <h1 class=\"heading\">My First Heading</h1>

                <p>My first paragraph.</p>

            </body>

        </html>

        ";
    let result = parse_html(&html);

    assert!(result.is_err());
}

#[test]
fn is_valid_tag_name() {
    let result = parse_input_by_rule(Rule::tag_name, "img");

    assert!(result.is_ok());
    let tag = result.unwrap();

    assert_eq!("img", text(&tag, "img"));
}

#[test]
fn is_invalid_tag_name() {
    let result = parse_input_by_rule(Rule::tag_name, "158TAG");

    assert!(result.is_err());
}

#[test]
fn is_opening_tag() {
    let result = parse_input_by_rule(Rule::opening_tag, "<html>");

    assert!(result.is_ok());
    let tag = result.unwrap();
    assert_eq!(text(&tag, "<html>"), "<html>");
}

#[test]
fn is_valid_closing_tag() {
    let result =
        parse_input_by_rule(Rule::common_element, "<div></div>");

    assert!(result.is_ok());
    let tag = result.unwrap();
    assert_eq!(text(&tag, "<div></div>"), "<div></div>");
}

#[test]
fn is_invalid_closing_tag() {
    let result =
        parse_input_by_rule(Rule::common_element, "<div></di>");

    assert!(result.is_err());
}

#[test]
fn is_self_closing_tag() {
    let result = parse_input_by_rule(Rule::self_closing_tag, "<input />");

    assert!(result.is_ok());
    let tag = result.unwrap();
    assert_eq!(text(&tag, "<input />"), "<input />");
}

#[test]
fn is_not_closing_tag() {
    let result = parse_input_by_rule(Rule::closing_tag, "<div>");

    assert!(result.is_err());
}

#[test]
fn is_hyphen() {
    let result = parse_input_by_rule(Rule::hyphen, "-");

    assert!(result.is_ok());
}

#[test]
fn is_not_exclamation_mark() {
    let result = parse_input_by_rule(Rule::exclamation_mark, "?");

    assert!(result.is_err());
}

#[test]
fn is_question_mark() {
    let result = parse_input_by_rule(Rule::question_mark, "?");

    assert!(result.is_ok());
}

#[test]
fn is_underscore() {
    let result = parse_input_by_rule(Rule::underscore, "_");

    assert!(result.is_ok());
}

#[test]
fn is_valid_attribute_name() {
    let result = parse_input_by_rule(Rule::attribute_name, "class");

    assert!(result.is_ok());
    let tag = result.unwrap();

    assert_eq!("class", text(&tag, "class"));
}

#[test]
fn is_invalid_attribute_name() {
    let result = parse_input_by_rule(Rule::attribute_name, "041class");

    assert!(result.is_err());
}

#[test]
fn is_not_equation_mark() {
    let result = parse_input_by_rule(Rule::equation_mark, "!=");

    assert!(result.is_err());
}

#[test]
fn is_single_quote() {
    let result = parse_input_by_rule(Rule::single_quote, "'");

    assert!(result.is_ok());
}

#[test]
fn is_valid_common_element() {
    let result = parse_input_by_rule(Rule::common_element, "<div><span>text</span></div>");

    assert!(result.is_ok());
    let tag = result.unwrap();
    assert_eq!("<div><span>text</span></div>", text(&tag, "<div><span>text</span></div>"));
}

#[test]
fn is_invalid_common_element() {
    let result = parse_input_by_rule(Rule::common_element, "<3div><span>text</div></span>");

    assert!(result.is_err());
}

#[test]
fn is_invalid_self_closing_element() {
    let result = parse_input_by_rule(Rule::self_closing_element, "</ tete>");

    assert!(result.is_err());
}

#[test]
fn is_double_quote() {
    let result = parse_input_by_rule(Rule::double_quote, "\"");

    assert!(result.is_ok());
}

#[test]
fn is_left_chevron() {
    let result = parse_input_by_rule(Rule::left_chevron, "<");

    assert!(result.is_ok());
}

#[test]
fn is_right_chevron() {
    let result = parse_input_by_rule(Rule::right_chevron, ">");

    assert!(result.is_ok());
}

#[test]
fn is_not_slash() {
    let result = parse_input_by_rule(Rule::slash, "|");

    assert!(result.is_err());
}

#[test]
fn is_valid_html_text() {
    let result = parse_input_by_rule(Rule::html_text, "Some text");

    assert!(result.is_ok());
    let tag = result.unwrap();
    assert_eq!("Some text", text(&tag, "Some text"));
}

#[test]
fn is_invalid_html_text() {
    let result = parse_input_by_rule(Rule::html_text, "<Some text");

    assert!(result.is_err());
}

#[test]
fn is_invalid_html_element() {
    let result = parse_input_by_rule(Rule::html_element, "<<Some text");

    assert!(result.is_err());
}

#[test]
fn is_invalid_html_node() {
    let result = parse_input_by_rule(Rule::html_node, "<div>SOme content</div>");

    assert!(result.is_ok());
    let tag = result.unwrap();
    assert_eq!("<div>SOme content</div>", text(&tag, "<div>SOme content</div>"));
}

#[test]
fn is_whitespace() {
    let result = parse_input_by_rule(Rule::whitespace, "\n \t\t\r");

    assert!(result.is_ok());
}

#[test]
fn is_digit() {
    let result = parse_input_by_rule(Rule::digit, "8");

    assert!(result.is_ok());
}

#[test]
fn is_not_alpha() {
    let result = parse_input_by_rule(Rule::alpha, "#");

    assert!(result.is_err());
}

#[test]
fn is_left_square_bracket() {
    let result = parse_input_by_rule(Rule::left_square_bracket, "[");

    assert!(result.is_ok());
}

#[test]
fn is_right_square_bracket() {
    let result = parse_input_by_rule(Rule::right_square_bracket, "]");

    assert!(result.is_ok());
}

#[test]
fn is_doctype_keyword() {
    let result = parse_input_by_rule(Rule::doctype_keyword, "DOCTYPE");

    assert!(result.is_ok());
}

#[test]
fn is_not_doctype_keyword() {
    let result = parse_input_by_rule(Rule::doctype_keyword, "D0CtYPE");

    assert!(result.is_err());
}

#[test]
fn is_doctype_top_level_element() {
    let result = parse_input_by_rule(Rule::doctype_top_level_element, "html");

    assert!(result.is_ok());
}

#[test]
fn is_not_doctype_top_level_element() {
    let result = parse_input_by_rule(Rule::doctype_keyword, "js");

    assert!(result.is_err());
}

#[test]
fn is_doctype_privacy_level() {
    let result = parse_input_by_rule(Rule::doctype_privacy_level, "system");

    assert!(result.is_ok());
}

#[test]
fn is_not_doctype_privacy_level() {
    let result = parse_input_by_rule(Rule::doctype_privacy_level, "PRIVATE");

    assert!(result.is_err());
}

#[test]
fn is_doctype_params_allowed_symbol() {
    let result = parse_input_by_rule(Rule::doctype_params_allowed_symbol, "-");

    assert!(result.is_ok());
}

#[test]
fn is_doctype_params_disallowed_symbol() {
    let result = parse_input_by_rule(Rule::doctype_params_allowed_symbol, "`");

    assert!(result.is_err());
}

#[test]
fn is_doctype_url_allowed_symbol() {
    let result = parse_input_by_rule(Rule::doctype_url_allowed_symbol, "&");

    assert!(result.is_ok());
}

#[test]
fn is_doctype_url_disallowed_symbol() {
    let result = parse_input_by_rule(Rule::doctype_url_allowed_symbol, "+");

    assert!(result.is_err());
}

#[test]
fn is_dot() {
    let result = parse_input_by_rule(Rule::dot, ".");

    assert!(result.is_ok());
}

#[test]
fn is_comma() {
    let result = parse_input_by_rule(Rule::comma, ",");

    assert!(result.is_ok());
}

#[test]
fn is_valid_doctype_params() {
    let result = parse_input_by_rule(
        Rule::doctype_params,
        "\"-//W3C//DTD HTML 4.01 Frameset//EN\"",
    );

    assert!(result.is_ok());
}

#[test]
fn is_invalid_doctype_params() {
    let result =
        parse_input_by_rule(Rule::doctype_params, "\"-W3C//DTD HTML 4.01 Frameset//EN\"");

    assert!(result.is_err());
}

#[test]
fn is_valid_doctype_url() {
    let result = parse_input_by_rule(
        Rule::doctype_url,
        "\"http://www.w3.org/TR/xhtml1/DTD/xhtml1-frameset.dtd\"",
    );

    assert!(result.is_ok());
}

#[test]
fn is_invalid_doctype_url() {
    let result = parse_input_by_rule(
        Rule::doctype_url,
        "\"http://www.w3.org/TR/xht```ml1/DTD/xhtml1-frameset.dtd\"",
    );

    assert!(result.is_err());
}

#[test]
fn is_valid_doctype_declaration() {
    let result =
        parse_input_by_rule(Rule::doctype_declaration, "<!DOCTYPE html PUBLIC \"-//W3C//DTD XHTML 1.1//EN\" \"http://www.w3.org/TR/xhtml11/DTD/xhtml11.dtd\">");

    assert!(result.is_ok());
}

#[test]
fn is_invalid_doctype_declaration() {
    let result =
        parse_input_by_rule(Rule::doctype_declaration, "<!DOCTYPE html Private -//W3C//DTD XHTML 1.1//EN\" \"http://www.w3.org/TR/xhtml11/DTD/xhtml11.dtd\">");

    assert!(result.is_err());
}

#[test]
fn is_not_colon() {
    let result = parse_input_by_rule(Rule::colon, ";");

    assert!(result.is_err());
}

#[test]
fn is_not_semicolon() {
    let result = parse_input_by_rule(Rule::semicolon, ":");

    assert!(result.is_err());
}

#[test]
fn is_valid_attribute_value_opening_quote() {
    let result = parse_input_by_rule(Rule::attribute, "class=\"test\"");

    assert!(result.is_ok());
}

#[test]
fn is_invalid_attribute_value_opening_quote() {
    let result = parse_input_by_rule(Rule::attribute, "class=\'test\"");

    assert!(result.is_err());
}

#[test]
fn is_valid_attribute_value() {
    let result = parse_input_by_rule(Rule::attribute, "class=\"some-value\"");

    assert!(result.is_ok());
    let tag = result.unwrap();
    assert_eq!("class=\"some-value\"", text(&tag, "class=\"some-value\""));
}

#[test]
fn is_invalid_attribute_value() {
    let result = parse_input_by_rule(Rule::opening_tag, "<div class=\'some-\'value\'>");

    assert!(result.is_err());
}

#[test]
fn is_valid_attribute() {
    let result = parse_input_by_rule(Rule::attribute, "id='123'");

    assert!(result.is_ok());
    let tag = result.unwrap();
    assert_eq!("id='123'", text(&tag, "id='123'"));
}

#[test]
fn is_space() {
    let result = parse_input_by_rule(Rule::space, " ");

    assert!(result.is_ok());
}

#[test]
fn is_dollar() {
    let result = parse_input_by_rule(Rule::dollar, "$");

    assert!(result.is_ok());
}

#[test]
fn is_ampersand() {
    let result = parse_input_by_rule(Rule::ampersand, "&");

    assert!(result.is_ok());
}

#[test]
fn is_html_comment_opening_tag() {
    let result = parse_input_by_rule(Rule::html_comment_opening_tag, "<!--");

    assert!(result.is_ok());
}

#[test]
fn is_invalid_html_comment_opening_tag() {
    let result = parse_input_by_rule(Rule::html_comment_opening_tag, "<--");

    assert!(result.is_err());
}

#[test]
fn is_html_comment_closing_tag() {
    let result = parse_input_by_rule(Rule::html_comment_closing_tag, "-->");

    assert!(result.is_ok());
}

#[test]
fn is_invalid_html_comment_closing_tag() {
    let result = parse_input_by_rule(Rule::html_comment_closing_tag, ">");

    assert!(result.is_err());
}

#[test]
fn is_html_comment_content() {
    let result = parse_input_by_rule(Rule::html_comment_content, "ahgh fajsbf 1u41y2afs _");

    assert!(result.is_ok());
}

#[test]
fn is_invalid_html_comment() {
    let result = parse_input_by_rule(Rule::html_comment, "<!-- <!-- ahgh fajsbf 1u41y2afs _");

    assert!(result.is_err());
}

#[test]
fn is_valid_html_comment() {
    let result = parse_input_by_rule(Rule::html_comment, "<!-- ahgh fajsbf 1u41y2afs _ -->");

    assert!(result.is_ok());
}
