//! Laws of the HTML grammar, proved from the meaning of its rules.
use crate::engine::{eval, Outcome, MAX_DEPTH};
use crate::grammar::{quoted, rule_body, Expr, Rule};
use crate::parser::parse_outcome;
use vstd::prelude::*;
use vstd::string::StringSliceAdditionalSpecFns;

verus! {

/// Whether `b` is an ASCII digit.
pub open spec fn is_digit(b: u8) -> bool {
    48 <= b <= 57
}

/// Tag names and attribute names never begin with a digit: on an input whose
/// first byte is a digit, both rules fail.
pub proof fn lemma_names_do_not_start_with_digit(s: Seq<u8>)
    requires
        s.len() > 0,
        is_digit(s[0]),
    ensures
        parse_outcome(Rule::tag_name, s) !is Matched,
        parse_outcome(Rule::attribute_name, s) !is Matched,
{
    let d = (MAX_DEPTH - 1) as nat;
    let d2 = (MAX_DEPTH - 2) as nat;
    lemma_alpha(s, 0, seq![], d);
    assert(eval(Expr::Byte(95), s, 0, seq![], d2) is Failed);
    assert(eval(Expr::Ref(Rule::underscore), s, 0, seq![], d) !is Matched);
    let first = crate::grammar::or(Expr::Ref(Rule::alpha), Expr::Ref(Rule::underscore));
    assert(eval(first, s, 0, seq![], d) !is Matched);
    assert(eval(rule_body(Rule::tag_name), s, 0, seq![], d) !is Matched);
    assert(eval(rule_body(Rule::attribute_name), s, 0, seq![], d) !is Matched);
}

/// The byte that the quote rule `q` stands for.
pub open spec fn quote_byte(q: Rule) -> u8 {
    if q == Rule::double_quote {
        34
    } else {
        39
    }
}

proof fn lemma_quote_rule(q: Rule, s: Seq<u8>, pos: int, st: Seq<(usize, usize)>, depth: nat)
    requires
        q == Rule::double_quote || q == Rule::single_quote,
    ensures
        eval(Expr::Ref(q), s, pos, st, depth) matches Outcome::Matched { end, .. } ==> 0 <= pos
            < s.len() && s[pos] == quote_byte(q) && end == pos + 1,
{
    if depth > 0 {
        let d = (depth - 1) as nat;
        assert(rule_body(q) == Expr::Byte(quote_byte(q)));
        assert(eval(Expr::Byte(quote_byte(q)), s, pos, st, d) matches Outcome::Matched { end, .. }
            ==> 0 <= pos < s.len() && s[pos] == quote_byte(q) && end == pos + 1);
    }
}

proof fn lemma_quoted(q: Rule, s: Seq<u8>, pos: int, st: Seq<(usize, usize)>, depth: nat)
    requires
        q == Rule::double_quote || q == Rule::single_quote,
        0 <= pos <= s.len(),
        s.len() <= usize::MAX,
    ensures
        eval(quoted(q), s, pos, st, depth) matches Outcome::Matched { end, .. } ==> pos + 2 <= end
            && s[pos] == quote_byte(q) && s[end - 1] == quote_byte(q),
{
    let body = crate::grammar::chain(
        crate::grammar::many(
            crate::grammar::chain(
                crate::grammar::not_ahead(crate::grammar::rule(q)),
                crate::grammar::any(),
            ),
        ),
        crate::grammar::rule(q),
    );
    lemma_quote_rule(q, s, pos, st, depth);
    if let Outcome::Matched { end, stack, nodes } = eval(Expr::Ref(q), s, pos, st, depth) {
        let star = crate::grammar::many(
            crate::grammar::chain(
                crate::grammar::not_ahead(crate::grammar::rule(q)),
                crate::grammar::any(),
            ),
        );
        crate::tree::lemma_eval_forest(star, s, end, stack, depth);
        if let Outcome::Matched { end: m, stack: st2, nodes: n2 } = eval(star, s, end, stack, depth) {
            lemma_quote_rule(q, s, m, st2, depth);
            assert(eval(body, s, end, stack, depth) == crate::engine::glue(
                n2,
                eval(Expr::Ref(q), s, m, st2, depth),
            ));
        }
        assert(quoted(q) == crate::grammar::chain(Expr::Ref(q), body));
    }
}

/// An attribute value opens and closes with the same quote character: what the
/// rule matches is at least two bytes long, and its first and last bytes are
/// both `"` or both `'`.
pub proof fn lemma_attribute_value_quotes_match(s: Seq<u8>, pos: int, st: Seq<(usize, usize)>, depth: nat)
    requires
        0 <= pos <= s.len(),
        s.len() <= usize::MAX,
    ensures
        eval(Expr::Ref(Rule::attribute_value), s, pos, st, depth) matches Outcome::Matched {
            end,
            ..
        } ==> pos + 2 <= end && (s[pos] == 34 || s[pos] == 39) && s[end - 1] == s[pos],
{
    if depth > 0 {
        let d = (depth - 1) as nat;
        lemma_quoted(Rule::double_quote, s, pos, st, d);
        lemma_quoted(Rule::single_quote, s, pos, st, d);
        let body = rule_body(Rule::attribute_value);
        assert(body == crate::grammar::or(quoted(Rule::double_quote), quoted(Rule::single_quote)));
        let a = eval(quoted(Rule::double_quote), s, pos, st, d);
        let b = eval(quoted(Rule::single_quote), s, pos, st, d);
        assert(eval(body, s, pos, st, d) is Matched ==> eval(body, s, pos, st, d) == a || eval(
            body,
            s,
            pos,
            st,
            d,
        ) == b);
    }
}

/// Whether `b` is an ASCII letter.
pub open spec fn is_alpha(b: u8) -> bool {
    97 <= b <= 122 || 65 <= b <= 90
}

/// Whether `b` may stand in a tag name after its first byte.
pub open spec fn is_name_byte(b: u8) -> bool {
    is_alpha(b) || is_digit(b) || b == 45
}

/// `n` is a tag name: a letter, then letters, digits and hyphens.
pub open spec fn is_tag_name(n: Seq<u8>) -> bool {
    &&& n.len() >= 1
    &&& is_alpha(n[0])
    &&& forall|i: int| 1 <= i < n.len() ==> is_name_byte(#[trigger] n[i])
}

/// The element `<n></n>`.
pub open spec fn element_text(n: Seq<u8>, m: Seq<u8>) -> Seq<u8> {
    seq![60u8] + n + seq![62u8, 60u8, 47u8] + m + seq![62u8]
}

/// `o` is a match that ends at `end` and leaves the name stack as `st`.
pub open spec fn consumed(o: Outcome, end: int, st: Seq<(usize, usize)>) -> bool {
    o is Matched && o->end == end && o->stack == st
}

/// What may follow the first byte of a tag name.
pub open spec fn name_char() -> Expr {
    crate::grammar::or(
        Expr::Ref(Rule::alpha),
        crate::grammar::or(Expr::Ref(Rule::digit), Expr::Ref(Rule::hyphen)),
    )
}

proof fn lemma_alpha(s: Seq<u8>, p: int, st: Seq<(usize, usize)>, depth: nat)
    requires
        depth >= 1,
        0 <= p,
    ensures
        if p < s.len() && is_alpha(s[p]) {
            consumed(eval(Expr::Ref(Rule::alpha), s, p, st, depth), p + 1, st)
        } else {
            eval(Expr::Ref(Rule::alpha), s, p, st, depth) is Failed
        },
{
    let d = (depth - 1) as nat;
    assert(rule_body(Rule::alpha) == crate::grammar::or(Expr::Range(97, 122), Expr::Range(65, 90)));
    let a = eval(Expr::Range(97, 122), s, p, st, d);
    let b = eval(Expr::Range(65, 90), s, p, st, d);
    assert(eval(rule_body(Rule::alpha), s, p, st, d) == if a is Failed {
        if b is Failed {
            crate::engine::further(a, b)
        } else {
            b
        }
    } else {
        a
    });
}

pub(crate) proof fn lemma_byte(r: Rule, b: u8, s: Seq<u8>, p: int, st: Seq<(usize, usize)>, depth: nat)
    requires
        depth >= 1,
        0 <= p,
        rule_body(r) == Expr::Byte(b),
    ensures
        if p < s.len() && s[p] == b {
            consumed(eval(Expr::Ref(r), s, p, st, depth), p + 1, st)
        } else {
            eval(Expr::Ref(r), s, p, st, depth) is Failed
        },
{
    let d = (depth - 1) as nat;
    assert(eval(Expr::Byte(b), s, p, st, d) == if p < s.len() && s[p] == b {
        crate::engine::matched(p + 1, st, seq![])
    } else {
        crate::engine::failed(p)
    });
}

proof fn lemma_digit(s: Seq<u8>, p: int, st: Seq<(usize, usize)>, depth: nat)
    requires
        depth >= 1,
        0 <= p,
    ensures
        if p < s.len() && is_digit(s[p]) {
            consumed(eval(Expr::Ref(Rule::digit), s, p, st, depth), p + 1, st)
        } else {
            eval(Expr::Ref(Rule::digit), s, p, st, depth) is Failed
        },
{
    let d = (depth - 1) as nat;
    assert(rule_body(Rule::digit) == Expr::Range(48, 57));
    assert(eval(Expr::Range(48, 57), s, p, st, d) is Matched ==> p < s.len() && is_digit(s[p]));
}

proof fn lemma_name_char(s: Seq<u8>, p: int, st: Seq<(usize, usize)>, depth: nat)
    requires
        depth >= 1,
        0 <= p,
    ensures
        if p < s.len() && is_name_byte(s[p]) {
            consumed(eval(name_char(), s, p, st, depth), p + 1, st)
        } else {
            eval(name_char(), s, p, st, depth) is Failed
        },
{
    lemma_alpha(s, p, st, depth);
    lemma_digit(s, p, st, depth);
    lemma_byte(Rule::hyphen, 45, s, p, st, depth);
    let inner = crate::grammar::or(Expr::Ref(Rule::digit), Expr::Ref(Rule::hyphen));
    assert(eval(inner, s, p, st, depth) is Failed <==> (eval(Expr::Ref(Rule::digit), s, p, st, depth) is Failed
        && eval(Expr::Ref(Rule::hyphen), s, p, st, depth) is Failed));
    assert(eval(name_char(), s, p, st, depth) is Failed <==> (eval(Expr::Ref(Rule::alpha), s, p, st, depth) is Failed
        && eval(inner, s, p, st, depth) is Failed));
}

proof fn lemma_name_rest(s: Seq<u8>, q: int, hi: int, st: Seq<(usize, usize)>, depth: nat)
    requires
        depth >= 1,
        0 <= q <= hi < s.len(),
        forall|i: int| q <= i < hi ==> is_name_byte(#[trigger] s[i]),
        !is_name_byte(s[hi]),
    ensures
        consumed(crate::engine::eval_star(name_char(), s, q, st, depth), hi, st),
    decreases hi - q,
{
    lemma_name_char(s, q, st, depth);
    if q < hi {
        lemma_name_rest(s, q + 1, hi, st, depth);
    }
}

proof fn lemma_tag_name(s: Seq<u8>, p: int, hi: int, st: Seq<(usize, usize)>, depth: nat)
    requires
        depth >= 3,
        0 <= p < hi < s.len(),
        is_alpha(s[p]),
        forall|i: int| p < i < hi ==> is_name_byte(#[trigger] s[i]),
        !is_name_byte(s[hi]),
    ensures
        consumed(eval(Expr::Ref(Rule::tag_name), s, p, st, depth), hi, st),
{
    let d = (depth - 1) as nat;
    lemma_alpha(s, p, st, d);
    lemma_name_rest(s, p + 1, hi, st, d);
    assert(rule_body(Rule::tag_name) == crate::grammar::chain(
        Expr::Ref(Rule::alpha),
        crate::grammar::many(name_char()),
    ));
    assert(eval(crate::grammar::many(name_char()), s, p + 1, st, d) == crate::engine::eval_star(
        name_char(),
        s,
        p + 1,
        st,
        d,
    ));
    let a = eval(Expr::Ref(Rule::alpha), s, p, st, d);
    assert(eval(rule_body(Rule::tag_name), s, p, st, d) == crate::engine::glue(
        a->nodes,
        eval(crate::grammar::many(name_char()), s, p + 1, st, d),
    ));
}

pub(crate) proof fn lemma_chain(a: Expr, b: Expr, s: Seq<u8>, p: int, st: Seq<(usize, usize)>, depth: nat)
    ensures
        eval(crate::grammar::chain(a, b), s, p, st, depth) == match eval(a, s, p, st, depth) {
            Outcome::Matched { end, stack, nodes } => crate::engine::glue(
                nodes,
                eval(b, s, end, stack, depth),
            ),
            o => o,
        },
{
}

proof fn lemma_or(a: Expr, b: Expr, s: Seq<u8>, p: int, st: Seq<(usize, usize)>, depth: nat)
    ensures
        eval(crate::grammar::or(a, b), s, p, st, depth) is Failed <==> (eval(a, s, p, st, depth) is Failed
            && eval(b, s, p, st, depth) is Failed),
        eval(a, s, p, st, depth) is Failed ==> eval(crate::grammar::or(a, b), s, p, st, depth) == eval(b, s, p, st, depth)
            || eval(b, s, p, st, depth) is Failed,
        eval(a, s, p, st, depth) !is Failed ==> eval(crate::grammar::or(a, b), s, p, st, depth) == eval(a, s, p, st, depth),
{
}

proof fn lemma_ref(r: Rule, s: Seq<u8>, p: int, st: Seq<(usize, usize)>, depth: nat)
    requires
        depth >= 1,
    ensures
        eval(rule_body(r), s, p, st, (depth - 1) as nat) is Failed ==> eval(Expr::Ref(r), s, p, st, depth) is Failed,
        eval(rule_body(r), s, p, st, (depth - 1) as nat) matches Outcome::Matched { end, stack, .. }
            ==> consumed(eval(Expr::Ref(r), s, p, st, depth), end, stack),
{
}

/// Whether `b` is one of the bytes that whitespace is made of.
pub open spec fn is_space_byte(b: u8) -> bool {
    b == 32 || b == 9 || b == 10 || b == 13
}

proof fn lemma_whitespace_fails(s: Seq<u8>, p: int, st: Seq<(usize, usize)>, depth: nat)
    requires
        depth >= 1,
        0 <= p < s.len(),
        !is_space_byte(s[p]),
    ensures
        eval(Expr::Ref(Rule::whitespace), s, p, st, depth) is Failed,
{
    let d = (depth - 1) as nat;
    let one = crate::grammar::or(
        Expr::Byte(32),
        crate::grammar::or(Expr::Byte(9), crate::grammar::or(Expr::Byte(10), Expr::Byte(13))),
    );
    assert(eval(Expr::Byte(32), s, p, st, d) is Failed);
    assert(eval(Expr::Byte(9), s, p, st, d) is Failed);
    assert(eval(Expr::Byte(10), s, p, st, d) is Failed);
    assert(eval(Expr::Byte(13), s, p, st, d) is Failed);
    lemma_or(Expr::Byte(10), Expr::Byte(13), s, p, st, d);
    lemma_or(Expr::Byte(9), crate::grammar::or(Expr::Byte(10), Expr::Byte(13)), s, p, st, d);
    lemma_or(
        Expr::Byte(32),
        crate::grammar::or(Expr::Byte(9), crate::grammar::or(Expr::Byte(10), Expr::Byte(13))),
        s,
        p,
        st,
        d,
    );
    assert(rule_body(Rule::whitespace) == crate::grammar::many1(one));
    assert(eval(crate::grammar::many1(one), s, p, st, d) is Failed);
    lemma_ref(Rule::whitespace, s, p, st, depth);
}

proof fn lemma_attributes_empty(s: Seq<u8>, p: int, st: Seq<(usize, usize)>, depth: nat)
    requires
        depth >= 1,
        0 <= p < s.len(),
        !is_space_byte(s[p]),
    ensures
        consumed(eval(crate::grammar::attributes_tail(), s, p, st, depth), p, st),
{
    lemma_whitespace_fails(s, p, st, depth);
    let one = crate::grammar::chain(Expr::Ref(Rule::whitespace), Expr::Ref(Rule::attribute));
    lemma_chain(Expr::Ref(Rule::whitespace), Expr::Ref(Rule::attribute), s, p, st, depth);
    assert(crate::engine::eval_star(one, s, p, st, depth) == crate::engine::matched(p, st, seq![]));
    assert(eval(crate::grammar::many(one), s, p, st, depth) == crate::engine::matched(p, st, seq![]));
    assert(eval(crate::grammar::opt(Expr::Ref(Rule::whitespace)), s, p, st, depth) == crate::engine::matched(
        p,
        st,
        seq![],
    ));
    lemma_chain(crate::grammar::many(one), crate::grammar::opt(Expr::Ref(Rule::whitespace)), s, p, st, depth);
}

proof fn lemma_opening_tag(s: Seq<u8>, p: int, hi: int, st: Seq<(usize, usize)>, depth: nat)
    requires
        depth >= 4,
        0 <= p,
        p + 1 < hi < s.len(),
        s.len() <= usize::MAX,
        s[p] == 60,
        is_alpha(s[p + 1]),
        forall|i: int| p + 1 < i < hi ==> is_name_byte(#[trigger] s[i]),
        s[hi] == 62,
    ensures
        consumed(
            eval(Expr::Ref(Rule::opening_tag), s, p, st, depth),
            hi + 1,
            st.push(((p + 1) as usize, hi as usize)),
        ),
{
    let d = (depth - 1) as nat;
    let st2 = st.push(((p + 1) as usize, hi as usize));
    lemma_byte(Rule::left_chevron, 60, s, p, st, d);
    lemma_tag_name(s, p + 1, hi, st, d);
    lemma_attributes_empty(s, hi, st2, d);
    lemma_byte(Rule::right_chevron, 62, s, hi, st2, d);
    let pushed = crate::grammar::push(Expr::Ref(Rule::tag_name));
    assert(consumed(eval(pushed, s, p + 1, st, d), hi, st2));
    let rest = crate::grammar::chain(crate::grammar::attributes_tail(), Expr::Ref(Rule::right_chevron));
    lemma_chain(crate::grammar::attributes_tail(), Expr::Ref(Rule::right_chevron), s, hi, st2, d);
    lemma_chain(pushed, rest, s, p + 1, st, d);
    lemma_chain(Expr::Ref(Rule::left_chevron), crate::grammar::chain(pushed, rest), s, p, st, d);
    lemma_ref(Rule::opening_tag, s, p, st, depth);
}

proof fn lemma_tag_name_fails(s: Seq<u8>, p: int, st: Seq<(usize, usize)>, depth: nat)
    requires
        depth >= 2,
        0 <= p,
        !(p < s.len() && is_alpha(s[p])),
    ensures
        eval(Expr::Ref(Rule::tag_name), s, p, st, depth) is Failed,
{
    let d = (depth - 1) as nat;
    lemma_alpha(s, p, st, d);
    lemma_chain(Expr::Ref(Rule::alpha), crate::grammar::many(name_char()), s, p, st, d);
    lemma_ref(Rule::tag_name, s, p, st, depth);
}

/// No node of an element's content starts at a closing tag.
proof fn lemma_node_fails_at_closing(s: Seq<u8>, p: int, st: Seq<(usize, usize)>, depth: nat)
    requires
        depth >= 5,
        0 <= p,
        p + 1 < s.len(),
        s[p] == 60,
        s[p + 1] == 47,
    ensures
        eval(Expr::Ref(Rule::html_node), s, p, st, depth) is Failed,
{
    let d = (depth - 1) as nat;
    let d1 = (depth - 2) as nat;
    let d2 = (depth - 3) as nat;
    // a comment needs `!` after `<`
    lemma_byte(Rule::left_chevron, 60, s, p, st, d2);
    lemma_byte(Rule::exclamation_mark, 33, s, p + 1, st, d2);
    let hy = crate::grammar::chain(Expr::Ref(Rule::hyphen), Expr::Ref(Rule::hyphen));
    lemma_chain(Expr::Ref(Rule::exclamation_mark), hy, s, p + 1, st, d2);
    lemma_chain(
        Expr::Ref(Rule::left_chevron),
        crate::grammar::chain(Expr::Ref(Rule::exclamation_mark), hy),
        s,
        p,
        st,
        d2,
    );
    lemma_ref(Rule::html_comment_opening_tag, s, p, st, d1);
    lemma_chain(
        Expr::Ref(Rule::html_comment_opening_tag),
        crate::grammar::chain(
            Expr::Ref(Rule::html_comment_content),
            Expr::Ref(Rule::html_comment_closing_tag),
        ),
        s,
        p,
        st,
        d1,
    );
    lemma_ref(Rule::html_comment, s, p, st, d);
    // an element needs a tag name after `<`
    lemma_tag_name_fails(s, p + 1, st, d2);
    let pushed = crate::grammar::push(Expr::Ref(Rule::tag_name));
    let open_rest = crate::grammar::chain(
        crate::grammar::attributes_tail(),
        Expr::Ref(Rule::right_chevron),
    );
    lemma_chain(pushed, open_rest, s, p + 1, st, d2);
    lemma_chain(Expr::Ref(Rule::left_chevron), crate::grammar::chain(pushed, open_rest), s, p, st, d2);
    lemma_ref(Rule::opening_tag, s, p, st, d1);
    let elem_rest = crate::grammar::chain(
        crate::grammar::many(Expr::Ref(Rule::html_node)),
        crate::grammar::chain(Expr::Ref(Rule::closing_tag), crate::grammar::pop()),
    );
    lemma_chain(Expr::Ref(Rule::opening_tag), elem_rest, s, p, st, d1);
    lemma_ref(Rule::common_element, s, p, st, d);
    let self_rest = crate::grammar::chain(
        crate::grammar::attributes_tail(),
        crate::grammar::chain(Expr::Ref(Rule::slash), Expr::Ref(Rule::right_chevron)),
    );
    lemma_chain(Expr::Ref(Rule::tag_name), self_rest, s, p + 1, st, d2);
    lemma_chain(
        Expr::Ref(Rule::left_chevron),
        crate::grammar::chain(Expr::Ref(Rule::tag_name), self_rest),
        s,
        p,
        st,
        d2,
    );
    lemma_ref(Rule::self_closing_tag, s, p, st, d1);
    lemma_ref(Rule::self_closing_element, s, p, st, d);
    // text cannot start with `<`
    lemma_byte(Rule::left_chevron, 60, s, p, st, d1);
    let step = crate::grammar::chain(
        crate::grammar::not_ahead(Expr::Ref(Rule::left_chevron)),
        crate::grammar::any(),
    );
    lemma_chain(
        crate::grammar::not_ahead(Expr::Ref(Rule::left_chevron)),
        crate::grammar::any(),
        s,
        p,
        st,
        d1,
    );
    assert(eval(crate::grammar::many1(step), s, p, st, d1) is Failed);
    lemma_ref(Rule::html_text, s, p, st, d);
    // so no alternative of a node matches
    lemma_or(Expr::Ref(Rule::self_closing_element), Expr::Ref(Rule::html_text), s, p, st, d);
    lemma_or(
        Expr::Ref(Rule::common_element),
        crate::grammar::or(Expr::Ref(Rule::self_closing_element), Expr::Ref(Rule::html_text)),
        s,
        p,
        st,
        d,
    );
    lemma_or(
        Expr::Ref(Rule::html_comment),
        crate::grammar::or(
            Expr::Ref(Rule::common_element),
            crate::grammar::or(Expr::Ref(Rule::self_closing_element), Expr::Ref(Rule::html_text)),
        ),
        s,
        p,
        st,
        d,
    );
    lemma_ref(Rule::html_node, s, p, st, depth);
}

proof fn lemma_closing_tag(s: Seq<u8>, p: int, st: Seq<(usize, usize)>, depth: nat)
    requires
        depth >= 2,
        0 <= p,
        p + 1 < s.len(),
        s[p] == 60,
        s[p + 1] == 47,
        st.len() > 0,
    ensures
        ({
            let len = st.last().1 - st.last().0;
            if crate::engine::repeats_span(s, p + 2, st.last()) && p + 2 + len < s.len() && s[p + 2
                + len] == 62 {
                consumed(eval(Expr::Ref(Rule::closing_tag), s, p, st, depth), p + 3 + len, st)
            } else {
                eval(Expr::Ref(Rule::closing_tag), s, p, st, depth) is Failed
            }
        }),
{
    let d = (depth - 1) as nat;
    let len = st.last().1 - st.last().0;
    lemma_byte(Rule::left_chevron, 60, s, p, st, d);
    lemma_byte(Rule::slash, 47, s, p + 1, st, d);
    assert(eval(crate::grammar::peek(), s, p + 2, st, d) == if crate::engine::repeats_span(
        s,
        p + 2,
        st.last(),
    ) {
        crate::engine::matched(p + 2 + len, st, seq![])
    } else {
        crate::engine::failed(p + 2)
    });
    if len >= 0 {
        lemma_byte(Rule::right_chevron, 62, s, p + 2 + len, st, d);
    }
    lemma_chain(crate::grammar::peek(), Expr::Ref(Rule::right_chevron), s, p + 2, st, d);
    let tail = crate::grammar::chain(crate::grammar::peek(), Expr::Ref(Rule::right_chevron));
    lemma_chain(Expr::Ref(Rule::slash), tail, s, p + 1, st, d);
    lemma_chain(
        Expr::Ref(Rule::left_chevron),
        crate::grammar::chain(Expr::Ref(Rule::slash), tail),
        s,
        p,
        st,
        d,
    );
    lemma_ref(Rule::closing_tag, s, p, st, depth);
}

/// The layout of `<n></m>`: where the names and the punctuation stand.
proof fn lemma_element_layout(n: Seq<u8>, m: Seq<u8>)
    ensures
        ({
            let s = element_text(n, m);
            let l = n.len() as int;
            &&& s.len() == n.len() + m.len() + 5
            &&& s[0] == 60 && s[1 + l] == 62 && s[2 + l] == 60 && s[3 + l] == 47
            &&& s[4 + l + m.len()] == 62
            &&& s.subrange(1, 1 + l) == n
            &&& s.subrange(4 + l, 4 + l + m.len()) == m
            &&& forall|i: int| 0 <= i < l ==> s[1 + i] == n[i]
            &&& forall|i: int| 0 <= i < m.len() ==> s[4 + l + i] == m[i]
        }),
{
    let s = element_text(n, m);
    let l = n.len() as int;
    assert(s.subrange(1, 1 + l) =~= n);
    assert(s.subrange(4 + l, 4 + l + m.len()) =~= m);
}

/// The shared first steps of `<n>` followed by `</`: the opening tag pushes the
/// span of `n`, and no content node follows it.
proof fn lemma_element_prefix(n: Seq<u8>, m: Seq<u8>, depth: nat)
    requires
        depth >= 5,
        is_tag_name(n),
        element_text(n, m).len() <= usize::MAX,
    ensures
        ({
            let s = element_text(n, m);
            let l = n.len() as int;
            let st1 = seq![(1usize, (1 + l) as usize)];
            &&& consumed(eval(Expr::Ref(Rule::opening_tag), s, 0, seq![], depth), 2 + l, st1)
            &&& eval(crate::grammar::many(Expr::Ref(Rule::html_node)), s, 2 + l, st1, depth)
                == crate::engine::matched(2 + l, st1, seq![])
        }),
{
    let s = element_text(n, m);
    let l = n.len() as int;
    let st1 = seq![(1usize, (1 + l) as usize)];
    lemma_element_layout(n, m);
    assert forall|i: int| 1 < i < 1 + l implies is_name_byte(#[trigger] s[i]) by {
        assert(s[1 + (i - 1)] == n[i - 1]);
    }
    assert(s[1] == n[0]);
    lemma_opening_tag(s, 0, 1 + l, seq![], depth);
    assert(seq![].push((1usize, (1 + l) as usize)) =~= st1);
    lemma_node_fails_at_closing(s, 2 + l, st1, depth);
    assert(crate::engine::eval_star(Expr::Ref(Rule::html_node), s, 2 + l, st1, depth)
        == crate::engine::matched(2 + l, st1, seq![]));
}

/// An element whose opening and closing tags carry the same name parses as a
/// whole: `common_element` matches all of `<n></n>`.
pub proof fn lemma_matching_tags_parse(n: Seq<u8>)
    requires
        is_tag_name(n),
        element_text(n, n).len() <= usize::MAX,
    ensures
        parse_outcome(Rule::common_element, element_text(n, n)) is Matched,
        parse_outcome(Rule::common_element, element_text(n, n))->end == element_text(n, n).len(),
{
    let s = element_text(n, n);
    let l = n.len() as int;
    let d = (MAX_DEPTH - 1) as nat;
    let st1 = seq![(1usize, (1 + l) as usize)];
    lemma_element_layout(n, n);
    lemma_element_prefix(n, n, d);
    lemma_closing_tag(s, 2 + l, st1, d);
    assert(st1.last() == (1usize, (1 + l) as usize));
    assert(crate::engine::repeats_span(s, 4 + l, st1.last()));
    assert(eval(crate::grammar::pop(), s, 5 + 2 * l, st1, d) == crate::engine::matched(
        5 + 2 * l,
        st1.drop_last(),
        seq![],
    ));
    let close = crate::grammar::chain(Expr::Ref(Rule::closing_tag), crate::grammar::pop());
    lemma_chain(Expr::Ref(Rule::closing_tag), crate::grammar::pop(), s, 2 + l, st1, d);
    let many = crate::grammar::many(Expr::Ref(Rule::html_node));
    lemma_chain(many, close, s, 2 + l, st1, d);
    lemma_chain(Expr::Ref(Rule::opening_tag), crate::grammar::chain(many, close), s, 0, seq![], d);
    lemma_ref(Rule::common_element, s, 0, seq![], MAX_DEPTH as nat);
}

/// An element whose closing tag names another tag than its opening tag does
/// not parse: `common_element` fails on `<n></m>` when `n != m`.
pub proof fn lemma_mismatched_tags_fail(n: Seq<u8>, m: Seq<u8>)
    requires
        is_tag_name(n),
        is_tag_name(m),
        n != m,
        element_text(n, m).len() <= usize::MAX,
    ensures
        parse_outcome(Rule::common_element, element_text(n, m)) is Failed,
{
    let s = element_text(n, m);
    let l = n.len() as int;
    let d = (MAX_DEPTH - 1) as nat;
    let st1 = seq![(1usize, (1 + l) as usize)];
    lemma_element_layout(n, m);
    lemma_element_prefix(n, m, d);
    lemma_closing_tag(s, 2 + l, st1, d);
    assert(st1.last() == (1usize, (1 + l) as usize));
    if crate::engine::repeats_span(s, 4 + l, st1.last()) && 4 + 2 * l < s.len() && s[4 + 2 * l] == 62 {
        assert(s.subrange(4 + l, 4 + 2 * l) == n);
        if l == m.len() {
            assert(false);
        } else if l < m.len() {
            assert(s[4 + l + l] == m[l]);
            assert(is_name_byte(m[l]));
        } else {
            assert(l + 1 <= m.len() + 1);
            assert(s.subrange(4 + l, 4 + 2 * l)[m.len() as int] == s[4 + l + m.len()]);
            assert(n[m.len() as int] == 62);
            assert(is_name_byte(n[m.len() as int]));
        }
    }
    let close = crate::grammar::chain(Expr::Ref(Rule::closing_tag), crate::grammar::pop());
    lemma_chain(Expr::Ref(Rule::closing_tag), crate::grammar::pop(), s, 2 + l, st1, d);
    let many = crate::grammar::many(Expr::Ref(Rule::html_node));
    lemma_chain(many, close, s, 2 + l, st1, d);
    lemma_chain(Expr::Ref(Rule::opening_tag), crate::grammar::chain(many, close), s, 0, seq![], d);
    lemma_ref(Rule::common_element, s, 0, seq![], MAX_DEPTH as nat);
}

/// `-->` occurs in `s` at `q`.
pub open spec fn closer_at(s: Seq<u8>, q: int) -> bool {
    0 <= q && q + 3 <= s.len() && s[q] == 45 && s[q + 1] == 45 && s[q + 2] == 62
}

proof fn lemma_closer(s: Seq<u8>, q: int, st: Seq<(usize, usize)>, depth: nat)
    requires
        depth >= 2,
        0 <= q,
    ensures
        if closer_at(s, q) {
            consumed(eval(Expr::Ref(Rule::html_comment_closing_tag), s, q, st, depth), q + 3, st)
        } else {
            eval(Expr::Ref(Rule::html_comment_closing_tag), s, q, st, depth) is Failed
        },
{
    let d = (depth - 1) as nat;
    lemma_byte(Rule::hyphen, 45, s, q, st, d);
    lemma_byte(Rule::hyphen, 45, s, q + 1, st, d);
    lemma_byte(Rule::right_chevron, 62, s, q + 2, st, d);
    lemma_chain(Expr::Ref(Rule::hyphen), Expr::Ref(Rule::right_chevron), s, q + 1, st, d);
    lemma_chain(
        Expr::Ref(Rule::hyphen),
        crate::grammar::chain(Expr::Ref(Rule::hyphen), Expr::Ref(Rule::right_chevron)),
        s,
        q,
        st,
        d,
    );
    lemma_ref(Rule::html_comment_closing_tag, s, q, st, depth);
}

/// One step of a comment's content: a byte at which no `-->` begins.
pub open spec fn content_step() -> Expr {
    crate::grammar::chain(
        crate::grammar::not_ahead(Expr::Ref(Rule::html_comment_closing_tag)),
        crate::grammar::any(),
    )
}

proof fn lemma_content_star(s: Seq<u8>, q: int, st: Seq<(usize, usize)>, depth: nat)
    requires
        depth >= 2,
        0 <= q <= s.len(),
    ensures
        crate::engine::eval_star(content_step(), s, q, st, depth) matches Outcome::Matched { end, .. }
            ==> q <= end <= s.len() && (end == s.len() || closer_at(s, end)) && forall|i: int|
            q <= i < end ==> !closer_at(s, i),
    decreases s.len() - q,
{
    lemma_closer(s, q, st, depth);
    let look = crate::grammar::not_ahead(Expr::Ref(Rule::html_comment_closing_tag));
    lemma_chain(look, crate::grammar::any(), s, q, st, depth);
    if !closer_at(s, q) && q < s.len() {
        assert(consumed(eval(content_step(), s, q, st, depth), q + 1, st));
        lemma_content_star(s, q + 1, st, depth);
    }
}

/// A comment ends at the first `-->` after its opening `<!--`: an inner `<!--`
/// does not nest, and no `-->` occurs inside the comment before its end.
pub proof fn lemma_comment_ends_at_first_closer(s: Seq<u8>)
    requires
        s.len() <= usize::MAX,
    ensures
        parse_outcome(Rule::html_comment, s) matches Outcome::Matched { end, .. } ==> 7 <= end
            <= s.len() && closer_at(s, end - 3) && forall|i: int| 4 <= i < end - 3 ==> !closer_at(s, i),
{
    let d = (MAX_DEPTH - 1) as nat;
    let d1 = (MAX_DEPTH - 2) as nat;
    let st = seq![];
    // the opener spans four bytes
    let hy = crate::grammar::chain(Expr::Ref(Rule::hyphen), Expr::Ref(Rule::hyphen));
    let ex = crate::grammar::chain(Expr::Ref(Rule::exclamation_mark), hy);
    lemma_byte(Rule::left_chevron, 60, s, 0, st, d1);
    lemma_byte(Rule::exclamation_mark, 33, s, 1, st, d1);
    lemma_byte(Rule::hyphen, 45, s, 2, st, d1);
    lemma_byte(Rule::hyphen, 45, s, 3, st, d1);
    lemma_chain(Expr::Ref(Rule::hyphen), Expr::Ref(Rule::hyphen), s, 2, st, d1);
    lemma_chain(Expr::Ref(Rule::exclamation_mark), hy, s, 1, st, d1);
    lemma_chain(Expr::Ref(Rule::left_chevron), ex, s, 0, st, d1);
    lemma_ref(Rule::html_comment_opening_tag, s, 0, st, d);
    let opener = eval(Expr::Ref(Rule::html_comment_opening_tag), s, 0, st, d);
    // then the content, then the closer
    let rest = crate::grammar::chain(
        Expr::Ref(Rule::html_comment_content),
        Expr::Ref(Rule::html_comment_closing_tag),
    );
    lemma_chain(Expr::Ref(Rule::html_comment_opening_tag), rest, s, 0, st, d);
    if opener is Matched {
        assert(opener->end == 4);
        let st4 = opener->stack;
        lemma_content_star(s, 4, st4, d1);
        assert(eval(crate::grammar::many(content_step()), s, 4, st4, d1) == crate::engine::eval_star(
            content_step(),
            s,
            4,
            st4,
            d1,
        ));
        lemma_ref(Rule::html_comment_content, s, 4, st4, d);
        let content = eval(Expr::Ref(Rule::html_comment_content), s, 4, st4, d);
        lemma_chain(
            Expr::Ref(Rule::html_comment_content),
            Expr::Ref(Rule::html_comment_closing_tag),
            s,
            4,
            st4,
            d,
        );
        if content is Matched {
            lemma_closer(s, content->end, content->stack, d);
        }
    }
    lemma_ref(Rule::html_comment, s, 0, st, MAX_DEPTH as nat);
}

/// `s` begins with the bytes of `w`.
pub open spec fn starts_with(s: Seq<u8>, w: &str) -> bool {
    w.spec_bytes().len() <= s.len() && s.subrange(0, w.spec_bytes().len() as int) == w.spec_bytes()
}

/// The privacy level of a doctype is one of `PUBLIC`, `SYSTEM`, `public` and
/// `system`, matched case-sensitively; any other text, `PRIVATE` among them,
/// fails.
pub proof fn lemma_privacy_levels(s: Seq<u8>)
    ensures
        parse_outcome(Rule::doctype_privacy_level, s) is Matched <==> (starts_with(s, "PUBLIC")
            || starts_with(s, "SYSTEM") || starts_with(s, "public") || starts_with(s, "system")),
{
    let d = (MAX_DEPTH - 1) as nat;
    let st = seq![];
    let l1 = Expr::Lit("PUBLIC");
    let l2 = Expr::Lit("SYSTEM");
    let l3 = Expr::Lit("public");
    let l4 = Expr::Lit("system");
    assert(eval(l1, s, 0, st, d) is Matched <==> starts_with(s, "PUBLIC"));
    assert(eval(l2, s, 0, st, d) is Matched <==> starts_with(s, "SYSTEM"));
    assert(eval(l3, s, 0, st, d) is Matched <==> starts_with(s, "public"));
    assert(eval(l4, s, 0, st, d) is Matched <==> starts_with(s, "system"));
    lemma_or(l3, l4, s, 0, st, d);
    lemma_or(l2, crate::grammar::or(l3, l4), s, 0, st, d);
    lemma_or(l1, crate::grammar::or(l2, crate::grammar::or(l3, l4)), s, 0, st, d);
    assert(rule_body(Rule::doctype_privacy_level) == crate::grammar::or(
        l1,
        crate::grammar::or(l2, crate::grammar::or(l3, l4)),
    ));
    lemma_ref(Rule::doctype_privacy_level, s, 0, st, MAX_DEPTH as nat);
}

/// Whether `b` may stand in the quoted parameters of a doctype.
pub open spec fn is_params_byte(b: u8) -> bool {
    is_alpha(b) || is_digit(b) || b == 45 || b == 47 || b == 46 || b == 58 || b == 32 || b == 44
        || b == 95
}

/// One byte of a doctype's quoted parameters.
pub open spec fn params_char() -> Expr {
    crate::grammar::or(
        Expr::Ref(Rule::alpha),
        crate::grammar::or(Expr::Ref(Rule::digit), Expr::Ref(Rule::doctype_params_allowed_symbol)),
    )
}

proof fn lemma_params_symbol(s: Seq<u8>, p: int, st: Seq<(usize, usize)>, depth: nat)
    requires
        depth >= 2,
        0 <= p,
    ensures
        if p < s.len() && (s[p] == 45 || s[p] == 47 || s[p] == 46 || s[p] == 58 || s[p] == 32
            || s[p] == 44 || s[p] == 95) {
            consumed(eval(Expr::Ref(Rule::doctype_params_allowed_symbol), s, p, st, depth), p + 1, st)
        } else {
            eval(Expr::Ref(Rule::doctype_params_allowed_symbol), s, p, st, depth) is Failed
        },
{
    let d = (depth - 1) as nat;
    lemma_byte(Rule::hyphen, 45, s, p, st, d);
    lemma_byte(Rule::slash, 47, s, p, st, d);
    lemma_byte(Rule::dot, 46, s, p, st, d);
    lemma_byte(Rule::colon, 58, s, p, st, d);
    lemma_byte(Rule::space, 32, s, p, st, d);
    lemma_byte(Rule::comma, 44, s, p, st, d);
    lemma_byte(Rule::underscore, 95, s, p, st, d);
    let e6 = crate::grammar::or(Expr::Ref(Rule::comma), Expr::Ref(Rule::underscore));
    let e5 = crate::grammar::or(Expr::Ref(Rule::space), e6);
    let e4 = crate::grammar::or(Expr::Ref(Rule::colon), e5);
    let e3 = crate::grammar::or(Expr::Ref(Rule::dot), e4);
    let e2 = crate::grammar::or(Expr::Ref(Rule::slash), e3);
    let e1 = crate::grammar::or(Expr::Ref(Rule::hyphen), e2);
    lemma_or(Expr::Ref(Rule::comma), Expr::Ref(Rule::underscore), s, p, st, d);
    lemma_or(Expr::Ref(Rule::space), e6, s, p, st, d);
    lemma_or(Expr::Ref(Rule::colon), e5, s, p, st, d);
    lemma_or(Expr::Ref(Rule::dot), e4, s, p, st, d);
    lemma_or(Expr::Ref(Rule::slash), e3, s, p, st, d);
    lemma_or(Expr::Ref(Rule::hyphen), e2, s, p, st, d);
    assert(rule_body(Rule::doctype_params_allowed_symbol) == e1);
    lemma_ref(Rule::doctype_params_allowed_symbol, s, p, st, depth);
}

proof fn lemma_params_char(s: Seq<u8>, p: int, st: Seq<(usize, usize)>, depth: nat)
    requires
        depth >= 2,
        0 <= p,
    ensures
        if p < s.len() && is_params_byte(s[p]) {
            consumed(eval(params_char(), s, p, st, depth), p + 1, st)
        } else {
            eval(params_char(), s, p, st, depth) is Failed
        },
{
    lemma_alpha(s, p, st, depth);
    lemma_digit(s, p, st, depth);
    lemma_params_symbol(s, p, st, depth);
    let rest = crate::grammar::or(
        Expr::Ref(Rule::digit),
        Expr::Ref(Rule::doctype_params_allowed_symbol),
    );
    lemma_or(Expr::Ref(Rule::digit), Expr::Ref(Rule::doctype_params_allowed_symbol), s, p, st, depth);
    lemma_or(Expr::Ref(Rule::alpha), rest, s, p, st, depth);
}

proof fn lemma_params_run(s: Seq<u8>, q: int, k: int, st: Seq<(usize, usize)>, depth: nat)
    requires
        depth >= 2,
        0 <= q <= k < s.len(),
        forall|i: int| q <= i < k ==> is_params_byte(#[trigger] s[i]),
        !is_params_byte(s[k]),
    ensures
        consumed(crate::engine::eval_star(params_char(), s, q, st, depth), k, st),
    decreases k - q,
{
    lemma_params_char(s, q, st, depth);
    if q < k {
        lemma_params_run(s, q + 1, k, st, depth);
    }
}

/// The quoted parameters of a doctype take only letters, digits and a few
/// symbols: after the opening `"-//`, if the first byte outside that set is not
/// the closing quote, the parameters do not parse.
pub proof fn lemma_params_reject_disallowed(s: Seq<u8>, k: int)
    requires
        s.len() <= usize::MAX,
        4 <= k < s.len(),
        s[0] == 34 && s[1] == 45 && s[2] == 47 && s[3] == 47,
        forall|i: int| 4 <= i < k ==> is_params_byte(#[trigger] s[i]),
        !is_params_byte(s[k]),
        s[k] != 34,
    ensures
        parse_outcome(Rule::doctype_params, s) is Failed,
{
    let d = (MAX_DEPTH - 1) as nat;
    let st = seq![];
    lemma_byte(Rule::double_quote, 34, s, 0, st, d);
    lemma_byte(Rule::hyphen, 45, s, 1, st, d);
    lemma_byte(Rule::slash, 47, s, 2, st, d);
    lemma_byte(Rule::slash, 47, s, 3, st, d);
    lemma_byte(Rule::double_quote, 34, s, k, st, d);
    lemma_params_char(s, 4, st, d);
    if k > 4 {
        lemma_params_run(s, 5, k, st, d);
    }
    let run = crate::grammar::many1(params_char());
    assert(consumed(eval(run, s, 4, st, d), k, st) || eval(run, s, 4, st, d) is Failed);
    let c5 = crate::grammar::chain(run, Expr::Ref(Rule::double_quote));
    let c4 = crate::grammar::chain(Expr::Ref(Rule::slash), c5);
    let c3 = crate::grammar::chain(Expr::Ref(Rule::slash), c4);
    let c2 = crate::grammar::chain(Expr::Ref(Rule::hyphen), c3);
    let c1 = crate::grammar::chain(Expr::Ref(Rule::double_quote), c2);
    lemma_chain(run, Expr::Ref(Rule::double_quote), s, 4, st, d);
    lemma_chain(Expr::Ref(Rule::slash), c5, s, 3, st, d);
    lemma_chain(Expr::Ref(Rule::slash), c4, s, 2, st, d);
    lemma_chain(Expr::Ref(Rule::hyphen), c3, s, 1, st, d);
    lemma_chain(Expr::Ref(Rule::double_quote), c2, s, 0, st, d);
    assert(rule_body(Rule::doctype_params) == c1);
    lemma_ref(Rule::doctype_params, s, 0, st, MAX_DEPTH as nat);
}

/// Quoted parameters of allowed bytes parse: on `"-//`, then one or more
/// letters, digits and allowed symbols, then `"`, the rule matches up to and
/// including that closing quote.
pub proof fn lemma_params_accept_allowed(s: Seq<u8>, k: int)
    requires
        s.len() <= usize::MAX,
        4 < k < s.len(),
        s[0] == 34 && s[1] == 45 && s[2] == 47 && s[3] == 47,
        forall|i: int| 4 <= i < k ==> is_params_byte(#[trigger] s[i]),
        s[k] == 34,
    ensures
        parse_outcome(Rule::doctype_params, s) is Matched,
        parse_outcome(Rule::doctype_params, s)->end == k + 1,
{
    let d = (MAX_DEPTH - 1) as nat;
    let st = seq![];
    lemma_byte(Rule::double_quote, 34, s, 0, st, d);
    lemma_byte(Rule::hyphen, 45, s, 1, st, d);
    lemma_byte(Rule::slash, 47, s, 2, st, d);
    lemma_byte(Rule::slash, 47, s, 3, st, d);
    lemma_byte(Rule::double_quote, 34, s, k, st, d);
    lemma_params_char(s, 4, st, d);
    lemma_params_run(s, 5, k, st, d);
    let run = crate::grammar::many1(params_char());
    assert(consumed(eval(run, s, 4, st, d), k, st));
    let c5 = crate::grammar::chain(run, Expr::Ref(Rule::double_quote));
    let c4 = crate::grammar::chain(Expr::Ref(Rule::slash), c5);
    let c3 = crate::grammar::chain(Expr::Ref(Rule::slash), c4);
    let c2 = crate::grammar::chain(Expr::Ref(Rule::hyphen), c3);
    let c1 = crate::grammar::chain(Expr::Ref(Rule::double_quote), c2);
    lemma_chain(run, Expr::Ref(Rule::double_quote), s, 4, st, d);
    lemma_chain(Expr::Ref(Rule::slash), c5, s, 3, st, d);
    lemma_chain(Expr::Ref(Rule::slash), c4, s, 2, st, d);
    lemma_chain(Expr::Ref(Rule::hyphen), c3, s, 1, st, d);
    lemma_chain(Expr::Ref(Rule::double_quote), c2, s, 0, st, d);
    assert(rule_body(Rule::doctype_params) == c1);
    lemma_ref(Rule::doctype_params, s, 0, st, MAX_DEPTH as nat);
}

/// Whether `b` may stand in the quoted URL of a doctype.
pub open spec fn is_url_byte(b: u8) -> bool {
    is_alpha(b) || is_digit(b) || b == 45 || b == 47 || b == 46 || b == 58 || b == 95 || b == 38
        || b == 63 || b == 61 || b == 36 || b == 59 || b == 44 || b == 91 || b == 93
}

/// One byte of a doctype's quoted URL.
pub open spec fn url_char() -> Expr {
    crate::grammar::or(
        Expr::Ref(Rule::alpha),
        crate::grammar::or(Expr::Ref(Rule::digit), Expr::Ref(Rule::doctype_url_allowed_symbol)),
    )
}

proof fn lemma_url_symbol(s: Seq<u8>, p: int, st: Seq<(usize, usize)>, depth: nat)
    requires
        depth >= 2,
        0 <= p,
    ensures
        if p < s.len() && (s[p] == 45 || s[p] == 47 || s[p] == 46 || s[p] == 58 || s[p] == 95
            || s[p] == 38 || s[p] == 63 || s[p] == 61 || s[p] == 36 || s[p] == 59 || s[p] == 44
            || s[p] == 91 || s[p] == 93) {
            consumed(eval(Expr::Ref(Rule::doctype_url_allowed_symbol), s, p, st, depth), p + 1, st)
        } else {
            eval(Expr::Ref(Rule::doctype_url_allowed_symbol), s, p, st, depth) is Failed
        },
{
    let d = (depth - 1) as nat;
    lemma_byte(Rule::hyphen, 45, s, p, st, d);
    lemma_byte(Rule::slash, 47, s, p, st, d);
    lemma_byte(Rule::dot, 46, s, p, st, d);
    lemma_byte(Rule::colon, 58, s, p, st, d);
    lemma_byte(Rule::underscore, 95, s, p, st, d);
    lemma_byte(Rule::ampersand, 38, s, p, st, d);
    lemma_byte(Rule::question_mark, 63, s, p, st, d);
    lemma_byte(Rule::equation_mark, 61, s, p, st, d);
    lemma_byte(Rule::dollar, 36, s, p, st, d);
    lemma_byte(Rule::semicolon, 59, s, p, st, d);
    lemma_byte(Rule::comma, 44, s, p, st, d);
    lemma_byte(Rule::left_square_bracket, 91, s, p, st, d);
    lemma_byte(Rule::right_square_bracket, 93, s, p, st, d);
    let e11 = crate::grammar::or(Expr::Ref(Rule::left_square_bracket), Expr::Ref(Rule::right_square_bracket));
    let e10 = crate::grammar::or(Expr::Ref(Rule::comma), e11);
    let e9 = crate::grammar::or(Expr::Ref(Rule::semicolon), e10);
    let e8 = crate::grammar::or(Expr::Ref(Rule::dollar), e9);
    let e7 = crate::grammar::or(Expr::Ref(Rule::equation_mark), e8);
    let e6 = crate::grammar::or(Expr::Ref(Rule::question_mark), e7);
    let e5 = crate::grammar::or(Expr::Ref(Rule::ampersand), e6);
    let e4 = crate::grammar::or(Expr::Ref(Rule::underscore), e5);
    let e3 = crate::grammar::or(Expr::Ref(Rule::colon), e4);
    let e2 = crate::grammar::or(Expr::Ref(Rule::dot), e3);
    let e1 = crate::grammar::or(Expr::Ref(Rule::slash), e2);
    let e0 = crate::grammar::or(Expr::Ref(Rule::hyphen), e1);
    lemma_or(Expr::Ref(Rule::left_square_bracket), Expr::Ref(Rule::right_square_bracket), s, p, st, d);
    lemma_or(Expr::Ref(Rule::comma), e11, s, p, st, d);
    lemma_or(Expr::Ref(Rule::semicolon), e10, s, p, st, d);
    lemma_or(Expr::Ref(Rule::dollar), e9, s, p, st, d);
    lemma_or(Expr::Ref(Rule::equation_mark), e8, s, p, st, d);
    lemma_or(Expr::Ref(Rule::question_mark), e7, s, p, st, d);
    lemma_or(Expr::Ref(Rule::ampersand), e6, s, p, st, d);
    lemma_or(Expr::Ref(Rule::underscore), e5, s, p, st, d);
    lemma_or(Expr::Ref(Rule::colon), e4, s, p, st, d);
    lemma_or(Expr::Ref(Rule::dot), e3, s, p, st, d);
    lemma_or(Expr::Ref(Rule::slash), e2, s, p, st, d);
    lemma_or(Expr::Ref(Rule::hyphen), e1, s, p, st, d);
    assert(rule_body(Rule::doctype_url_allowed_symbol) == e0);
    lemma_ref(Rule::doctype_url_allowed_symbol, s, p, st, depth);
}

proof fn lemma_url_char(s: Seq<u8>, p: int, st: Seq<(usize, usize)>, depth: nat)
    requires
        depth >= 2,
        0 <= p,
    ensures
        if p < s.len() && is_url_byte(s[p]) {
            consumed(eval(url_char(), s, p, st, depth), p + 1, st)
        } else {
            eval(url_char(), s, p, st, depth) is Failed
        },
{
    lemma_alpha(s, p, st, depth);
    lemma_digit(s, p, st, depth);
    lemma_url_symbol(s, p, st, depth);
    let rest = crate::grammar::or(Expr::Ref(Rule::digit), Expr::Ref(Rule::doctype_url_allowed_symbol));
    lemma_or(Expr::Ref(Rule::digit), Expr::Ref(Rule::doctype_url_allowed_symbol), s, p, st, depth);
    lemma_or(Expr::Ref(Rule::alpha), rest, s, p, st, depth);
}

proof fn lemma_url_run(s: Seq<u8>, q: int, k: int, st: Seq<(usize, usize)>, depth: nat)
    requires
        depth >= 2,
        0 <= q <= k < s.len(),
        forall|i: int| q <= i < k ==> is_url_byte(#[trigger] s[i]),
        !is_url_byte(s[k]),
    ensures
        consumed(crate::engine::eval_star(url_char(), s, q, st, depth), k, st),
    decreases k - q,
{
    lemma_url_char(s, q, st, depth);
    if q < k {
        lemma_url_run(s, q + 1, k, st, depth);
    }
}

/// A doctype's quoted URL takes only letters, digits and a fixed set of
/// symbols: after the opening `"`, if the first byte outside that set is the
/// closing quote and at least one byte came before it, the URL matches up to
/// and including that quote; if it is any other byte, the URL does not parse.
pub proof fn lemma_url_bytes(s: Seq<u8>, k: int)
    requires
        s.len() <= usize::MAX,
        1 <= k < s.len(),
        s[0] == 34,
        forall|i: int| 1 <= i < k ==> is_url_byte(#[trigger] s[i]),
        !is_url_byte(s[k]),
    ensures
        s[k] == 34 && k > 1 ==> parse_outcome(Rule::doctype_url, s) is Matched
            && parse_outcome(Rule::doctype_url, s)->end == k + 1,
        s[k] != 34 ==> parse_outcome(Rule::doctype_url, s) is Failed,
{
    let d = (MAX_DEPTH - 1) as nat;
    let st = seq![];
    lemma_byte(Rule::double_quote, 34, s, 0, st, d);
    lemma_byte(Rule::double_quote, 34, s, k, st, d);
    lemma_url_char(s, 1, st, d);
    if k > 1 {
        lemma_url_run(s, 2, k, st, d);
    }
    let run = crate::grammar::many1(url_char());
    assert(consumed(eval(run, s, 1, st, d), k, st) || eval(run, s, 1, st, d) is Failed);
    assert(k > 1 ==> consumed(eval(run, s, 1, st, d), k, st));
    let c2 = crate::grammar::chain(run, Expr::Ref(Rule::double_quote));
    let c1 = crate::grammar::chain(Expr::Ref(Rule::double_quote), c2);
    lemma_chain(run, Expr::Ref(Rule::double_quote), s, 1, st, d);
    lemma_chain(Expr::Ref(Rule::double_quote), c2, s, 0, st, d);
    assert(rule_body(Rule::doctype_url) == c1);
    lemma_ref(Rule::doctype_url, s, 0, st, MAX_DEPTH as nat);
}

} // verus!
