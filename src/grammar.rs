//! The HTML rule set, written as data: each rule names a parsing expression that
//! the engine in `engine` interprets.
use vstd::prelude::*;

verus! {

/// The named productions of the HTML grammar.
#[allow(non_camel_case_types)]
#[derive(Clone, Copy, Debug, PartialEq, Eq, Hash)]
pub enum Rule {
    html,
    html_element,
    html_node,
    common_element,
    self_closing_element,
    opening_tag,
    closing_tag,
    self_closing_tag,
    tag_name,
    attribute,
    attribute_name,
    attribute_value,
    html_text,
    html_comment,
    html_comment_opening_tag,
    html_comment_closing_tag,
    html_comment_content,
    doctype_declaration,
    doctype_keyword,
    doctype_top_level_element,
    doctype_privacy_level,
    doctype_params,
    doctype_params_allowed_symbol,
    doctype_url,
    doctype_url_allowed_symbol,
    whitespace,
    space,
    digit,
    alpha,
    left_chevron,
    right_chevron,
    slash,
    equation_mark,
    single_quote,
    double_quote,
    hyphen,
    underscore,
    colon,
    semicolon,
    ampersand,
    dollar,
    left_square_bracket,
    right_square_bracket,
    dot,
    comma,
    question_mark,
    exclamation_mark,
}

/// A parsing expression. Every rule of the grammar is one of these.
#[derive(Debug)]
pub enum Expr {
    /// Exactly this byte.
    Byte(u8),
    /// One byte in the inclusive range.
    Range(u8, u8),
    /// Exactly the bytes of this text, case-sensitively.
    Lit(&'static str),
    /// Any one byte.
    Any,
    /// The end of the input; consumes nothing.
    End,
    /// An invocation of a named rule; it produces a node of the tree.
    Ref(Rule),
    /// The first expression, then the second.
    Then(Box<Expr>, Box<Expr>),
    /// The first expression, or, if it fails, the second from the same position.
    Choice(Box<Expr>, Box<Expr>),
    /// Zero or more repetitions, as many as match.
    Star(Box<Expr>),
    /// One or more repetitions, as many as match.
    Plus(Box<Expr>),
    /// Zero or one occurrence.
    Opt(Box<Expr>),
    /// Succeeds without consuming when the inner expression matches here.
    Ahead(Box<Expr>),
    /// Succeeds without consuming when the inner expression does not match here.
    NotAhead(Box<Expr>),
    /// Matches the inner expression and pushes the matched span on the name stack.
    Push(Box<Expr>),
    /// Matches the text of the span on top of the name stack, leaving the stack as it is.
    Peek,
    /// Removes the top of the name stack; fails when the stack is empty.
    Pop,
}

#[verifier::allow_in_spec]
pub fn byte(b: u8) -> Expr
    returns
        Expr::Byte(b),
{
    Expr::Byte(b)
}

#[verifier::allow_in_spec]
pub fn range(lo: u8, hi: u8) -> Expr
    returns
        Expr::Range(lo, hi),
{
    Expr::Range(lo, hi)
}

#[verifier::allow_in_spec]
pub fn lit(w: &'static str) -> Expr
    returns
        Expr::Lit(w),
{
    Expr::Lit(w)
}

#[verifier::allow_in_spec]
pub fn any() -> Expr
    returns
        Expr::Any,
{
    Expr::Any
}

#[verifier::allow_in_spec]
pub fn end() -> Expr
    returns
        Expr::End,
{
    Expr::End
}

#[verifier::allow_in_spec]
pub fn rule(r: Rule) -> Expr
    returns
        Expr::Ref(r),
{
    Expr::Ref(r)
}

#[verifier::allow_in_spec]
pub fn chain(a: Expr, b: Expr) -> Expr
    returns
        Expr::Then(Box::new(a), Box::new(b)),
{
    Expr::Then(Box::new(a), Box::new(b))
}

#[verifier::allow_in_spec]
pub fn or(a: Expr, b: Expr) -> Expr
    returns
        Expr::Choice(Box::new(a), Box::new(b)),
{
    Expr::Choice(Box::new(a), Box::new(b))
}

#[verifier::allow_in_spec]
pub fn many(a: Expr) -> Expr
    returns
        Expr::Star(Box::new(a)),
{
    Expr::Star(Box::new(a))
}

#[verifier::allow_in_spec]
pub fn many1(a: Expr) -> Expr
    returns
        Expr::Plus(Box::new(a)),
{
    Expr::Plus(Box::new(a))
}

#[verifier::allow_in_spec]
pub fn opt(a: Expr) -> Expr
    returns
        Expr::Opt(Box::new(a)),
{
    Expr::Opt(Box::new(a))
}

#[verifier::allow_in_spec]
pub fn not_ahead(a: Expr) -> Expr
    returns
        Expr::NotAhead(Box::new(a)),
{
    Expr::NotAhead(Box::new(a))
}

#[verifier::allow_in_spec]
pub fn push(a: Expr) -> Expr
    returns
        Expr::Push(Box::new(a)),
{
    Expr::Push(Box::new(a))
}

#[verifier::allow_in_spec]
pub fn peek() -> Expr
    returns
        Expr::Peek,
{
    Expr::Peek
}

#[verifier::allow_in_spec]
pub fn pop() -> Expr
    returns
        Expr::Pop,
{
    Expr::Pop
}

/// A value between quote characters of rule `q`, closed by the same character.
#[verifier::allow_in_spec]
pub fn quoted(q: Rule) -> Expr
    returns
        chain(rule(q), chain(many(chain(not_ahead(rule(q)), any())), rule(q))),
{
    chain(rule(q), chain(many(chain(not_ahead(rule(q)), any())), rule(q)))
}

/// Attributes, each after whitespace, then optional whitespace.
#[verifier::allow_in_spec]
pub fn attributes_tail() -> Expr
    returns
        chain(many(chain(rule(Rule::whitespace), rule(Rule::attribute))), opt(rule(Rule::whitespace))),
{
    chain(many(chain(rule(Rule::whitespace), rule(Rule::attribute))), opt(rule(Rule::whitespace)))
}

/// What the rule `r` matches.
pub open spec fn rule_body(r: Rule) -> Expr {
    match r {
        Rule::html => chain(
            opt(rule(Rule::whitespace)),
            chain(
                opt(chain(rule(Rule::doctype_declaration), opt(rule(Rule::whitespace)))),
                chain(rule(Rule::html_element), chain(opt(rule(Rule::whitespace)), end())),
            ),
        ),
        Rule::html_element => or(rule(Rule::common_element), rule(Rule::self_closing_element)),
        Rule::html_node => or(
            rule(Rule::html_comment),
            or(
                rule(Rule::common_element),
                or(rule(Rule::self_closing_element), rule(Rule::html_text)),
            ),
        ),
        Rule::common_element => chain(
            rule(Rule::opening_tag),
            chain(many(rule(Rule::html_node)), chain(rule(Rule::closing_tag), pop())),
        ),
        Rule::self_closing_element => rule(Rule::self_closing_tag),
        Rule::opening_tag => chain(
            rule(Rule::left_chevron),
            chain(push(rule(Rule::tag_name)), chain(attributes_tail(), rule(Rule::right_chevron))),
        ),
        Rule::closing_tag => chain(
            rule(Rule::left_chevron),
            chain(rule(Rule::slash), chain(peek(), rule(Rule::right_chevron))),
        ),
        Rule::self_closing_tag => chain(
            rule(Rule::left_chevron),
            chain(
                rule(Rule::tag_name),
                chain(attributes_tail(), chain(rule(Rule::slash), rule(Rule::right_chevron))),
            ),
        ),
        Rule::tag_name => chain(
            rule(Rule::alpha),
            many(or(rule(Rule::alpha), or(rule(Rule::digit), rule(Rule::hyphen)))),
        ),
        Rule::attribute => chain(
            rule(Rule::attribute_name),
            chain(rule(Rule::equation_mark), rule(Rule::attribute_value)),
        ),
        Rule::attribute_name => chain(
            or(rule(Rule::alpha), rule(Rule::underscore)),
            many(
                or(
                    rule(Rule::alpha),
                    or(
                        rule(Rule::digit),
                        or(rule(Rule::hyphen), or(rule(Rule::underscore), rule(Rule::colon))),
                    ),
                ),
            ),
        ),
        Rule::attribute_value => or(quoted(Rule::double_quote), quoted(Rule::single_quote)),
        Rule::html_text => many1(chain(not_ahead(rule(Rule::left_chevron)), any())),
        Rule::html_comment => chain(
            rule(Rule::html_comment_opening_tag),
            chain(rule(Rule::html_comment_content), rule(Rule::html_comment_closing_tag)),
        ),
        Rule::html_comment_opening_tag => chain(
            rule(Rule::left_chevron),
            chain(rule(Rule::exclamation_mark), chain(rule(Rule::hyphen), rule(Rule::hyphen))),
        ),
        Rule::html_comment_closing_tag => chain(
            rule(Rule::hyphen),
            chain(rule(Rule::hyphen), rule(Rule::right_chevron)),
        ),
        Rule::html_comment_content => many(
            chain(not_ahead(rule(Rule::html_comment_closing_tag)), any()),
        ),
        Rule::doctype_declaration => chain(
            rule(Rule::left_chevron),
            chain(
                rule(Rule::exclamation_mark),
                chain(
                    rule(Rule::doctype_keyword),
                    chain(
                        rule(Rule::whitespace),
                        chain(
                            rule(Rule::doctype_top_level_element),
                            chain(
                                opt(
                                    chain(
                                        rule(Rule::whitespace),
                                        chain(
                                            rule(Rule::doctype_privacy_level),
                                            chain(
                                                rule(Rule::whitespace),
                                                chain(
                                                    rule(Rule::doctype_params),
                                                    opt(
                                                        chain(
                                                            rule(Rule::whitespace),
                                                            rule(Rule::doctype_url),
                                                        ),
                                                    ),
                                                ),
                                            ),
                                        ),
                                    ),
                                ),
                                chain(opt(rule(Rule::whitespace)), rule(Rule::right_chevron)),
                            ),
                        ),
                    ),
                ),
            ),
        ),
        Rule::doctype_keyword => lit("DOCTYPE"),
        Rule::doctype_top_level_element => lit("html"),
        Rule::doctype_privacy_level => or(
            lit("PUBLIC"),
            or(lit("SYSTEM"), or(lit("public"), lit("system"))),
        ),
        Rule::doctype_params => chain(
            rule(Rule::double_quote),
            chain(
                rule(Rule::hyphen),
                chain(
                    rule(Rule::slash),
                    chain(
                        rule(Rule::slash),
                        chain(
                            many1(
                                or(
                                    rule(Rule::alpha),
                                    or(rule(Rule::digit), rule(Rule::doctype_params_allowed_symbol)),
                                ),
                            ),
                            rule(Rule::double_quote),
                        ),
                    ),
                ),
            ),
        ),
        Rule::doctype_params_allowed_symbol => or(
            rule(Rule::hyphen),
            or(
                rule(Rule::slash),
                or(
                    rule(Rule::dot),
                    or(
                        rule(Rule::colon),
                        or(rule(Rule::space), or(rule(Rule::comma), rule(Rule::underscore))),
                    ),
                ),
            ),
        ),
        Rule::doctype_url => chain(
            rule(Rule::double_quote),
            chain(
                many1(
                    or(
                        rule(Rule::alpha),
                        or(rule(Rule::digit), rule(Rule::doctype_url_allowed_symbol)),
                    ),
                ),
                rule(Rule::double_quote),
            ),
        ),
        Rule::doctype_url_allowed_symbol => or(
            rule(Rule::hyphen),
            or(
                rule(Rule::slash),
                or(
                    rule(Rule::dot),
                    or(
                        rule(Rule::colon),
                        or(
                            rule(Rule::underscore),
                            or(
                                rule(Rule::ampersand),
                                or(
                                    rule(Rule::question_mark),
                                    or(
                                        rule(Rule::equation_mark),
                                        or(
                                            rule(Rule::dollar),
                                            or(
                                                rule(Rule::semicolon),
                                                or(
                                                    rule(Rule::comma),
                                                    or(
                                                        rule(Rule::left_square_bracket),
                                                        rule(Rule::right_square_bracket),
                                                    ),
                                                ),
                                            ),
                                        ),
                                    ),
                                ),
                            ),
                        ),
                    ),
                ),
            ),
        ),
        Rule::whitespace => many1(or(byte(32), or(byte(9), or(byte(10), byte(13))))),
        Rule::space => byte(32),
        Rule::digit => range(48, 57),
        Rule::alpha => or(range(97, 122), range(65, 90)),
        Rule::left_chevron => byte(60),
        Rule::right_chevron => byte(62),
        Rule::slash => byte(47),
        Rule::equation_mark => byte(61),
        Rule::single_quote => byte(39),
        Rule::double_quote => byte(34),
        Rule::hyphen => byte(45),
        Rule::underscore => byte(95),
        Rule::colon => byte(58),
        Rule::semicolon => byte(59),
        Rule::ampersand => byte(38),
        Rule::dollar => byte(36),
        Rule::left_square_bracket => byte(91),
        Rule::right_square_bracket => byte(93),
        Rule::dot => byte(46),
        Rule::comma => byte(44),
        Rule::question_mark => byte(63),
        Rule::exclamation_mark => byte(33),
    }
}

/// Builds the expression of rule `r`.
pub fn rule_expr(r: Rule) -> (e: Expr)
    ensures
        e == rule_body(r),
{
    match r {
        Rule::html => chain(
            opt(rule(Rule::whitespace)),
            chain(
                opt(chain(rule(Rule::doctype_declaration), opt(rule(Rule::whitespace)))),
                chain(rule(Rule::html_element), chain(opt(rule(Rule::whitespace)), end())),
            ),
        ),
        Rule::html_element => or(rule(Rule::common_element), rule(Rule::self_closing_element)),
        Rule::html_node => or(
            rule(Rule::html_comment),
            or(
                rule(Rule::common_element),
                or(rule(Rule::self_closing_element), rule(Rule::html_text)),
            ),
        ),
        Rule::common_element => chain(
            rule(Rule::opening_tag),
            chain(many(rule(Rule::html_node)), chain(rule(Rule::closing_tag), pop())),
        ),
        Rule::self_closing_element => rule(Rule::self_closing_tag),
        Rule::opening_tag => chain(
            rule(Rule::left_chevron),
            chain(push(rule(Rule::tag_name)), chain(attributes_tail(), rule(Rule::right_chevron))),
        ),
        Rule::closing_tag => chain(
            rule(Rule::left_chevron),
            chain(rule(Rule::slash), chain(peek(), rule(Rule::right_chevron))),
        ),
        Rule::self_closing_tag => chain(
            rule(Rule::left_chevron),
            chain(
                rule(Rule::tag_name),
                chain(attributes_tail(), chain(rule(Rule::slash), rule(Rule::right_chevron))),
            ),
        ),
        Rule::tag_name => chain(
            rule(Rule::alpha),
            many(or(rule(Rule::alpha), or(rule(Rule::digit), rule(Rule::hyphen)))),
        ),
        Rule::attribute => chain(
            rule(Rule::attribute_name),
            chain(rule(Rule::equation_mark), rule(Rule::attribute_value)),
        ),
        Rule::attribute_name => chain(
            or(rule(Rule::alpha), rule(Rule::underscore)),
            many(
                or(
                    rule(Rule::alpha),
                    or(
                        rule(Rule::digit),
                        or(rule(Rule::hyphen), or(rule(Rule::underscore), rule(Rule::colon))),
                    ),
                ),
            ),
        ),
        Rule::attribute_value => or(quoted(Rule::double_quote), quoted(Rule::single_quote)),
        Rule::html_text => many1(chain(not_ahead(rule(Rule::left_chevron)), any())),
        Rule::html_comment => chain(
            rule(Rule::html_comment_opening_tag),
            chain(rule(Rule::html_comment_content), rule(Rule::html_comment_closing_tag)),
        ),
        Rule::html_comment_opening_tag => chain(
            rule(Rule::left_chevron),
            chain(rule(Rule::exclamation_mark), chain(rule(Rule::hyphen), rule(Rule::hyphen))),
        ),
        Rule::html_comment_closing_tag => chain(
            rule(Rule::hyphen),
            chain(rule(Rule::hyphen), rule(Rule::right_chevron)),
        ),
        Rule::html_comment_content => many(
            chain(not_ahead(rule(Rule::html_comment_closing_tag)), any()),
        ),
        Rule::doctype_declaration => chain(
            rule(Rule::left_chevron),
            chain(
                rule(Rule::exclamation_mark),
                chain(
                    rule(Rule::doctype_keyword),
                    chain(
                        rule(Rule::whitespace),
                        chain(
                            rule(Rule::doctype_top_level_element),
                            chain(
                                opt(
                                    chain(
                                        rule(Rule::whitespace),
                                        chain(
                                            rule(Rule::doctype_privacy_level),
                                            chain(
                                                rule(Rule::whitespace),
                                                chain(
                                                    rule(Rule::doctype_params),
                                                    opt(
                                                        chain(
                                                            rule(Rule::whitespace),
                                                            rule(Rule::doctype_url),
                                                        ),
                                                    ),
                                                ),
                                            ),
                                        ),
                                    ),
                                ),
                                chain(opt(rule(Rule::whitespace)), rule(Rule::right_chevron)),
                            ),
                        ),
                    ),
                ),
            ),
        ),
        Rule::doctype_keyword => lit("DOCTYPE"),
        Rule::doctype_top_level_element => lit("html"),
        Rule::doctype_privacy_level => or(
            lit("PUBLIC"),
            or(lit("SYSTEM"), or(lit("public"), lit("system"))),
        ),
        Rule::doctype_params => chain(
            rule(Rule::double_quote),
            chain(
                rule(Rule::hyphen),
                chain(
                    rule(Rule::slash),
                    chain(
                        rule(Rule::slash),
                        chain(
                            many1(
                                or(
                                    rule(Rule::alpha),
                                    or(rule(Rule::digit), rule(Rule::doctype_params_allowed_symbol)),
                                ),
                            ),
                            rule(Rule::double_quote),
                        ),
                    ),
                ),
            ),
        ),
        Rule::doctype_params_allowed_symbol => or(
            rule(Rule::hyphen),
            or(
                rule(Rule::slash),
                or(
                    rule(Rule::dot),
                    or(
                        rule(Rule::colon),
                        or(rule(Rule::space), or(rule(Rule::comma), rule(Rule::underscore))),
                    ),
                ),
            ),
        ),
        Rule::doctype_url => chain(
            rule(Rule::double_quote),
            chain(
                many1(
                    or(
                        rule(Rule::alpha),
                        or(rule(Rule::digit), rule(Rule::doctype_url_allowed_symbol)),
                    ),
                ),
                rule(Rule::double_quote),
            ),
        ),
        Rule::doctype_url_allowed_symbol => or(
            rule(Rule::hyphen),
            or(
                rule(Rule::slash),
                or(
                    rule(Rule::dot),
                    or(
                        rule(Rule::colon),
                        or(
                            rule(Rule::underscore),
                            or(
                                rule(Rule::ampersand),
                                or(
                                    rule(Rule::question_mark),
                                    or(
                                        rule(Rule::equation_mark),
                                        or(
                                            rule(Rule::dollar),
                                            or(
                                                rule(Rule::semicolon),
                                                or(
                                                    rule(Rule::comma),
                                                    or(
                                                        rule(Rule::left_square_bracket),
                                                        rule(Rule::right_square_bracket),
                                                    ),
                                                ),
                                            ),
                                        ),
                                    ),
                                ),
                            ),
                        ),
                    ),
                ),
            ),
        ),
        Rule::whitespace => many1(or(byte(32), or(byte(9), or(byte(10), byte(13))))),
        Rule::space => byte(32),
        Rule::digit => range(48, 57),
        Rule::alpha => or(range(97, 122), range(65, 90)),
        Rule::left_chevron => byte(60),
        Rule::right_chevron => byte(62),
        Rule::slash => byte(47),
        Rule::equation_mark => byte(61),
        Rule::single_quote => byte(39),
        Rule::double_quote => byte(34),
        Rule::hyphen => byte(45),
        Rule::underscore => byte(95),
        Rule::colon => byte(58),
        Rule::semicolon => byte(59),
        Rule::ampersand => byte(38),
        Rule::dollar => byte(36),
        Rule::left_square_bracket => byte(91),
        Rule::right_square_bracket => byte(93),
        Rule::dot => byte(46),
        Rule::comma => byte(44),
        Rule::question_mark => byte(63),
        Rule::exclamation_mark => byte(33),
    }
}

} // verus!
