//! How parsing uses the name stack: only an opening tag pushes, only the
//! element around it pops, so every element's closing tag is compared with the
//! name of its own opening tag; and the rules that never touch the stack, such
//! as self-closing tags, match the same way whatever it holds.
use crate::engine::{eval, eval_star, Node, Outcome, MAX_DEPTH};
use crate::grammar::{rule_body, Expr, Rule};
use crate::lemmas::lemma_chain;
use vstd::prelude::*;

verus! {

/// `e` neither pushes nor pops the name stack itself, nor invokes the opening
/// tag rule, which pushes.
pub open spec fn keeps_stack(e: Expr) -> bool
    decreases e,
{
    match e {
        Expr::Ref(r) => r != Rule::opening_tag,
        Expr::Then(a, b) => keeps_stack(*a) && keeps_stack(*b),
        Expr::Choice(a, b) => keeps_stack(*a) && keeps_stack(*b),
        Expr::Star(a) => keeps_stack(*a),
        Expr::Plus(a) => keeps_stack(*a),
        Expr::Opt(a) => keeps_stack(*a),
        Expr::Ahead(a) => keeps_stack(*a),
        Expr::NotAhead(a) => keeps_stack(*a),
        Expr::Push(_) => false,
        Expr::Pop => false,
        _ => true,
    }
}

proof fn lemma_bodies_keep_stack(r: Rule)
    requires
        r != Rule::opening_tag,
        r != Rule::common_element,
    ensures
        keeps_stack(rule_body(r)),
{
    reveal_with_fuel(keeps_stack, 20);
}

/// What a match of `e` from `pos` does to the name stack `st`: an opening tag
/// pushes the span of its name, which starts right after its `<`; anything
/// that keeps the stack leaves it as it was.
pub open spec fn stack_effect(e: Expr, pos: int, st: Seq<(usize, usize)>, after: Seq<(usize, usize)>) -> bool {
    if e == Expr::Ref(Rule::opening_tag) {
        &&& after.len() == st.len() + 1
        &&& after.drop_last() == st
        &&& after.last().0 == pos + 1
        &&& after.last().0 <= after.last().1
    } else {
        after == st
    }
}

pub proof fn lemma_stack_effect(e: Expr, s: Seq<u8>, pos: int, st: Seq<(usize, usize)>, depth: nat)
    requires
        keeps_stack(e) || e == Expr::Ref(Rule::opening_tag),
        0 <= pos <= s.len(),
        s.len() <= usize::MAX,
    ensures
        eval(e, s, pos, st, depth) matches Outcome::Matched { stack, .. } ==> stack_effect(
            e,
            pos,
            st,
            stack,
        ),
    decreases depth, e, 1int,
{
    assert(!keeps_stack(Expr::Ref(Rule::opening_tag)));
    crate::tree::lemma_eval_forest(e, s, pos, st, depth);
    match e {
        Expr::Ref(r) => {
            if depth > 0 {
                let d = (depth - 1) as nat;
                if r == Rule::opening_tag {
                    lemma_opening_effect(s, pos, st, d);
                } else if r == Rule::common_element {
                    lemma_element_effect(s, pos, st, d);
                } else {
                    lemma_bodies_keep_stack(r);
                    assert(rule_body(r) != Expr::Ref(Rule::opening_tag));
                    lemma_stack_effect(rule_body(r), s, pos, st, d);
                }
            }
        },
        Expr::Then(a, b) => {
            lemma_stack_effect(*a, s, pos, st, depth);
            crate::tree::lemma_eval_forest(*a, s, pos, st, depth);
            if let Outcome::Matched { end, stack, .. } = eval(*a, s, pos, st, depth) {
                lemma_stack_effect(*b, s, end, stack, depth);
            }
        },
        Expr::Choice(a, b) => {
            lemma_stack_effect(*a, s, pos, st, depth);
            lemma_stack_effect(*b, s, pos, st, depth);
        },
        Expr::Star(a) => {
            lemma_star_effect(*a, s, pos, st, depth);
        },
        Expr::Plus(a) => {
            lemma_stack_effect(*a, s, pos, st, depth);
            crate::tree::lemma_eval_forest(*a, s, pos, st, depth);
            if let Outcome::Matched { end, stack, .. } = eval(*a, s, pos, st, depth) {
                if pos < end <= s.len() {
                    lemma_star_effect(*a, s, end, stack, depth);
                }
            }
        },
        Expr::Opt(a) => {
            lemma_stack_effect(*a, s, pos, st, depth);
        },
        _ => {},
    }
}

proof fn lemma_star_effect(a: Expr, s: Seq<u8>, pos: int, st: Seq<(usize, usize)>, depth: nat)
    requires
        keeps_stack(a),
        0 <= pos <= s.len(),
        s.len() <= usize::MAX,
    ensures
        eval_star(a, s, pos, st, depth) matches Outcome::Matched { stack, .. } ==> stack == st,
    decreases depth, a, s.len() - pos + 2,
{
    assert(!keeps_stack(Expr::Ref(Rule::opening_tag)));
    lemma_stack_effect(a, s, pos, st, depth);
    crate::tree::lemma_eval_forest(a, s, pos, st, depth);
    if let Outcome::Matched { end, stack, .. } = eval(a, s, pos, st, depth) {
        if pos < end <= s.len() {
            lemma_star_effect(a, s, end, stack, depth);
        }
    }
}

proof fn lemma_opening_effect(s: Seq<u8>, pos: int, st: Seq<(usize, usize)>, d: nat)
    requires
        0 <= pos <= s.len(),
        s.len() <= usize::MAX,
    ensures
        eval(rule_body(Rule::opening_tag), s, pos, st, d) matches Outcome::Matched { stack, .. }
            ==> stack_effect(Expr::Ref(Rule::opening_tag), pos, st, stack),
    decreases d + 1, Expr::Ref(Rule::opening_tag), 0int,
{
    reveal_with_fuel(keeps_stack, 5);
    let lc = Expr::Ref(Rule::left_chevron);
    let tn = Expr::Ref(Rule::tag_name);
    let pushed = crate::grammar::push(tn);
    let at = crate::grammar::attributes_tail();
    let rc = Expr::Ref(Rule::right_chevron);
    let c3 = crate::grammar::chain(at, rc);
    let c2 = crate::grammar::chain(pushed, c3);
    assert(rule_body(Rule::opening_tag) == crate::grammar::chain(lc, c2));
    lemma_chain(lc, c2, s, pos, st, d);
    lemma_stack_effect(lc, s, pos, st, d);
    crate::tree::lemma_eval_forest(lc, s, pos, st, d);
    if d >= 1 {
        crate::lemmas::lemma_byte(Rule::left_chevron, 60, s, pos, st, d);
    }
    if let Outcome::Matched { end: e1, stack: s1, .. } = eval(lc, s, pos, st, d) {
        lemma_chain(pushed, c3, s, e1, s1, d);
        lemma_stack_effect(tn, s, e1, s1, d);
        crate::tree::lemma_eval_forest(tn, s, e1, s1, d);
        if let Outcome::Matched { end: e2, stack: s2, .. } = eval(tn, s, e1, s1, d) {
            let s3 = s2.push((e1 as usize, e2 as usize));
            lemma_chain(at, rc, s, e2, s3, d);
            lemma_stack_effect(at, s, e2, s3, d);
            crate::tree::lemma_eval_forest(at, s, e2, s3, d);
            if let Outcome::Matched { end: e3, stack: s4, .. } = eval(at, s, e2, s3, d) {
                lemma_stack_effect(rc, s, e3, s4, d);
            }
            assert(s3.drop_last() =~= st);
        }
    }
}

proof fn lemma_element_effect(s: Seq<u8>, pos: int, st: Seq<(usize, usize)>, d: nat)
    requires
        0 <= pos <= s.len(),
        s.len() <= usize::MAX,
    ensures
        eval(rule_body(Rule::common_element), s, pos, st, d) matches Outcome::Matched { stack, .. }
            ==> stack == st,
    decreases d + 1, Expr::Ref(Rule::common_element), 0int,
{
    reveal_with_fuel(keeps_stack, 5);
    let open = Expr::Ref(Rule::opening_tag);
    let nodes = crate::grammar::many(Expr::Ref(Rule::html_node));
    let close = crate::grammar::chain(Expr::Ref(Rule::closing_tag), crate::grammar::pop());
    let rest = crate::grammar::chain(nodes, close);
    assert(rule_body(Rule::common_element) == crate::grammar::chain(open, rest));
    lemma_chain(open, rest, s, pos, st, d);
    lemma_stack_effect(open, s, pos, st, d);
    crate::tree::lemma_eval_forest(open, s, pos, st, d);
    if let Outcome::Matched { end: e1, stack: s1, .. } = eval(open, s, pos, st, d) {
        lemma_chain(nodes, close, s, e1, s1, d);
        lemma_stack_effect(nodes, s, e1, s1, d);
        crate::tree::lemma_eval_forest(nodes, s, e1, s1, d);
        if let Outcome::Matched { end: e2, stack: s2, .. } = eval(nodes, s, e1, s1, d) {
            lemma_chain(Expr::Ref(Rule::closing_tag), crate::grammar::pop(), s, e2, s2, d);
            lemma_stack_effect(Expr::Ref(Rule::closing_tag), s, e2, s2, d);
        }
    }
}

/// The span `a..b` opens with `<` and a name that spans `a + 1..t`, and ends
/// with a closing tag: `</`, the same name, `>`.
pub open spec fn closes_with_name(s: Seq<u8>, a: int, b: int, t: int) -> bool {
    let l = t - a - 1;
    &&& 0 <= a < a + 1 <= t
    &&& 0 <= b - 3 - l && b <= s.len()
    &&& s[a] == 60
    &&& s[b - 3 - l] == 60 && s[b - 2 - l] == 47 && s[b - 1] == 62
    &&& s.subrange(b - 1 - l, b - 1) == s.subrange(a + 1, t)
}

/// The span `a..b` is an element whose closing tag repeats its opening name.
pub open spec fn closes_own_name(s: Seq<u8>, a: int, b: int) -> bool {
    exists|t: int| closes_with_name(s, a, b, t)
}

/// Every element node among `nodes` closes with the name it opened with.
pub open spec fn elements_close_own_names(s: Seq<u8>, nodes: Seq<Node>) -> bool {
    forall|i: int|
        0 <= i < nodes.len() && (#[trigger] nodes[i]).rule == Rule::common_element
            ==> closes_own_name(s, nodes[i].start as int, nodes[i].end as int)
}

proof fn lemma_opening_starts(s: Seq<u8>, pos: int, st: Seq<(usize, usize)>, d: nat)
    requires
        0 <= pos,
    ensures
        eval(Expr::Ref(Rule::opening_tag), s, pos, st, d) is Matched ==> pos < s.len() && s[pos]
            == 60,
{
    if d >= 1 {
        let d1 = (d - 1) as nat;
        let lc = Expr::Ref(Rule::left_chevron);
        let c2 = crate::grammar::chain(
            crate::grammar::push(Expr::Ref(Rule::tag_name)),
            crate::grammar::chain(crate::grammar::attributes_tail(), Expr::Ref(Rule::right_chevron)),
        );
        lemma_chain(lc, c2, s, pos, st, d1);
        if d1 >= 1 {
            crate::lemmas::lemma_byte(Rule::left_chevron, 60, s, pos, st, d1);
        }
    }
}

proof fn lemma_closing_matched(s: Seq<u8>, p: int, st: Seq<(usize, usize)>, depth: nat)
    requires
        0 <= p,
    ensures
        eval(Expr::Ref(Rule::closing_tag), s, p, st, depth) matches Outcome::Matched { end, .. }
            ==> {
            let len = st.last().1 - st.last().0;
            &&& st.len() > 0
            &&& p + 1 < s.len() && s[p] == 60 && s[p + 1] == 47
            &&& crate::engine::repeats_span(s, p + 2, st.last())
            &&& p + 2 + len < s.len() && s[p + 2 + len] == 62
            &&& end == p + 3 + len
        },
{
    if depth >= 1 {
        let d = (depth - 1) as nat;
        let tail = crate::grammar::chain(crate::grammar::peek(), Expr::Ref(Rule::right_chevron));
        let c2 = crate::grammar::chain(Expr::Ref(Rule::slash), tail);
        lemma_chain(Expr::Ref(Rule::left_chevron), c2, s, p, st, d);
        lemma_chain(Expr::Ref(Rule::slash), tail, s, p + 1, st, d);
        lemma_chain(crate::grammar::peek(), Expr::Ref(Rule::right_chevron), s, p + 2, st, d);
        if d >= 1 {
            crate::lemmas::lemma_byte(Rule::left_chevron, 60, s, p, st, d);
            crate::lemmas::lemma_byte(Rule::slash, 47, s, p + 1, st, d);
            if st.len() > 0 && crate::engine::repeats_span(s, p + 2, st.last()) {
                let len = st.last().1 - st.last().0;
                crate::lemmas::lemma_byte(Rule::right_chevron, 62, s, p + 2 + len, st, d);
            }
        }
    }
}

proof fn lemma_element_closes(s: Seq<u8>, pos: int, st: Seq<(usize, usize)>, d: nat)
    requires
        0 <= pos <= s.len(),
        s.len() <= usize::MAX,
    ensures
        eval(rule_body(Rule::common_element), s, pos, st, d) matches Outcome::Matched { end, .. }
            ==> closes_own_name(s, pos, end),
{
    let open = Expr::Ref(Rule::opening_tag);
    let nodes = crate::grammar::many(Expr::Ref(Rule::html_node));
    let close = crate::grammar::chain(Expr::Ref(Rule::closing_tag), crate::grammar::pop());
    let rest = crate::grammar::chain(nodes, close);
    reveal_with_fuel(keeps_stack, 3);
    lemma_chain(open, rest, s, pos, st, d);
    lemma_stack_effect(open, s, pos, st, d);
    lemma_opening_starts(s, pos, st, d);
    crate::tree::lemma_eval_forest(open, s, pos, st, d);
    if let Outcome::Matched { end: e1, stack: s1, .. } = eval(open, s, pos, st, d) {
        lemma_chain(nodes, close, s, e1, s1, d);
        lemma_stack_effect(nodes, s, e1, s1, d);
        crate::tree::lemma_eval_forest(nodes, s, e1, s1, d);
        if let Outcome::Matched { end: e2, stack: s2, .. } = eval(nodes, s, e1, s1, d) {
            lemma_chain(Expr::Ref(Rule::closing_tag), crate::grammar::pop(), s, e2, s2, d);
            lemma_closing_matched(s, e2, s2, d);
            if let Outcome::Matched { end: e3, stack: s3, .. } = eval(
                Expr::Ref(Rule::closing_tag),
                s,
                e2,
                s2,
                d,
            ) {
                let x = s1.last();
                let t = x.1 as int;
                let l = t - pos - 1;
                assert(s2.last() == x);
                assert(e3 - 1 - l == e2 + 2);
                assert(closes_with_name(s, pos, e3, t));
            }
        }
    }
}

proof fn lemma_elements_concat(s: Seq<u8>, a: Seq<Node>, b: Seq<Node>)
    requires
        elements_close_own_names(s, a),
        elements_close_own_names(s, b),
    ensures
        elements_close_own_names(s, a + b),
{
    assert forall|i: int|
        0 <= i < (a + b).len() && (#[trigger] (a + b)[i]).rule == Rule::common_element implies closes_own_name(
        s,
        (a + b)[i].start as int,
        (a + b)[i].end as int,
    ) by {
        if i < a.len() {
            assert((a + b)[i] == a[i]);
        } else {
            assert((a + b)[i] == b[i - a.len()]);
        }
    }
}

/// Every element node that a match produces closes with its opening name.
pub proof fn lemma_eval_elements(e: Expr, s: Seq<u8>, pos: int, st: Seq<(usize, usize)>, depth: nat)
    requires
        0 <= pos <= s.len(),
        s.len() <= usize::MAX,
    ensures
        eval(e, s, pos, st, depth) matches Outcome::Matched { nodes, .. }
            ==> elements_close_own_names(s, nodes),
    decreases depth, e, 0int,
{
    crate::tree::lemma_eval_forest(e, s, pos, st, depth);
    match e {
        Expr::Ref(r) => {
            if depth > 0 {
                let d = (depth - 1) as nat;
                lemma_eval_elements(rule_body(r), s, pos, st, d);
                crate::tree::lemma_eval_forest(rule_body(r), s, pos, st, d);
                if let Outcome::Matched { end, stack, nodes } = eval(rule_body(r), s, pos, st, d) {
                    let n = crate::engine::rule_node(r, pos, end, nodes);
                    if r == Rule::common_element {
                        lemma_element_closes(s, pos, st, d);
                    }
                    assert(elements_close_own_names(s, seq![n]));
                    lemma_elements_concat(s, seq![n], nodes);
                }
            }
        },
        Expr::Then(a, b) => {
            lemma_eval_elements(*a, s, pos, st, depth);
            crate::tree::lemma_eval_forest(*a, s, pos, st, depth);
            if let Outcome::Matched { end, stack, nodes } = eval(*a, s, pos, st, depth) {
                lemma_eval_elements(*b, s, end, stack, depth);
                if let Outcome::Matched { nodes: nodes2, .. } = eval(*b, s, end, stack, depth) {
                    lemma_elements_concat(s, nodes, nodes2);
                }
            }
        },
        Expr::Choice(a, b) => {
            lemma_eval_elements(*a, s, pos, st, depth);
            lemma_eval_elements(*b, s, pos, st, depth);
        },
        Expr::Star(a) => {
            lemma_star_elements(*a, s, pos, st, depth);
        },
        Expr::Plus(a) => {
            lemma_eval_elements(*a, s, pos, st, depth);
            crate::tree::lemma_eval_forest(*a, s, pos, st, depth);
            if let Outcome::Matched { end, stack, nodes } = eval(*a, s, pos, st, depth) {
                if pos < end <= s.len() {
                    lemma_star_elements(*a, s, end, stack, depth);
                    if let Outcome::Matched { nodes: nodes2, .. } = eval_star(*a, s, end, stack, depth) {
                        lemma_elements_concat(s, nodes, nodes2);
                    }
                }
            }
        },
        Expr::Opt(a) => {
            lemma_eval_elements(*a, s, pos, st, depth);
        },
        Expr::Push(a) => {
            lemma_eval_elements(*a, s, pos, st, depth);
        },
        _ => {},
    }
}

proof fn lemma_star_elements(a: Expr, s: Seq<u8>, pos: int, st: Seq<(usize, usize)>, depth: nat)
    requires
        0 <= pos <= s.len(),
        s.len() <= usize::MAX,
    ensures
        eval_star(a, s, pos, st, depth) matches Outcome::Matched { nodes, .. }
            ==> elements_close_own_names(s, nodes),
    decreases depth, a, s.len() - pos + 1,
{
    lemma_eval_elements(a, s, pos, st, depth);
    crate::tree::lemma_eval_forest(a, s, pos, st, depth);
    if let Outcome::Matched { end, stack, nodes } = eval(a, s, pos, st, depth) {
        if pos < end <= s.len() {
            lemma_star_elements(a, s, end, stack, depth);
            if let Outcome::Matched { nodes: nodes2, .. } = eval_star(a, s, end, stack, depth) {
                lemma_elements_concat(s, nodes, nodes2);
            }
        }
    }
}

/// In every successful parse, from any rule, each element's closing tag
/// repeats the name of its own opening tag. A closing tag that matches no open
/// element therefore never ends an element of a parse tree.
pub proof fn lemma_parse_closing_tags_match(rule: Rule, s: Seq<u8>)
    requires
        s.len() <= usize::MAX,
    ensures
        crate::parser::parse_outcome(rule, s) matches Outcome::Matched { nodes, .. }
            ==> elements_close_own_names(s, nodes),
{
    lemma_eval_elements(Expr::Ref(rule), s, 0, seq![], MAX_DEPTH as nat);
}

/// The rules whose matches can read or change the name stack.
pub open spec fn touches_stack(r: Rule) -> bool {
    r == Rule::opening_tag || r == Rule::closing_tag || r == Rule::common_element || r
        == Rule::html_node || r == Rule::html_element || r == Rule::html
}

/// `e` neither reads nor changes the name stack, nor invokes a rule that does.
pub open spec fn stack_free(e: Expr) -> bool
    decreases e,
{
    match e {
        Expr::Ref(r) => !touches_stack(r),
        Expr::Then(a, b) => stack_free(*a) && stack_free(*b),
        Expr::Choice(a, b) => stack_free(*a) && stack_free(*b),
        Expr::Star(a) => stack_free(*a),
        Expr::Plus(a) => stack_free(*a),
        Expr::Opt(a) => stack_free(*a),
        Expr::Ahead(a) => stack_free(*a),
        Expr::NotAhead(a) => stack_free(*a),
        Expr::Push(_) => false,
        Expr::Peek => false,
        Expr::Pop => false,
        _ => true,
    }
}

proof fn lemma_bodies_stack_free(r: Rule)
    requires
        !touches_stack(r),
    ensures
        stack_free(rule_body(r)),
{
    reveal_with_fuel(stack_free, 20);
}

/// `o1`, reached from stack `st1`, and `o2`, reached from stack `st2`, are the
/// same outcome, and neither changed its stack.
pub open spec fn same_but_stack(o1: Outcome, st1: Seq<(usize, usize)>, o2: Outcome, st2: Seq<(usize, usize)>) -> bool {
    match (o1, o2) {
        (
            Outcome::Matched { end: e1, stack: a, nodes: n1 },
            Outcome::Matched { end: e2, stack: b, nodes: n2 },
        ) => e1 == e2 && n1 == n2 && a == st1 && b == st2,
        (Outcome::Failed { .. }, Outcome::Failed { .. }) => o1 == o2,
        (Outcome::TooDeep, Outcome::TooDeep) => true,
        _ => false,
    }
}

pub proof fn lemma_stack_free(
    e: Expr,
    s: Seq<u8>,
    pos: int,
    st1: Seq<(usize, usize)>,
    st2: Seq<(usize, usize)>,
    depth: nat,
)
    requires
        stack_free(e),
    ensures
        same_but_stack(eval(e, s, pos, st1, depth), st1, eval(e, s, pos, st2, depth), st2),
    decreases depth, e, 0int,
{
    match e {
        Expr::Ref(r) => {
            if depth > 0 {
                lemma_bodies_stack_free(r);
                lemma_stack_free(rule_body(r), s, pos, st1, st2, (depth - 1) as nat);
            }
        },
        Expr::Then(a, b) => {
            lemma_stack_free(*a, s, pos, st1, st2, depth);
            if let Outcome::Matched { end, .. } = eval(*a, s, pos, st1, depth) {
                lemma_stack_free(*b, s, end, st1, st2, depth);
            }
        },
        Expr::Choice(a, b) => {
            lemma_stack_free(*a, s, pos, st1, st2, depth);
            lemma_stack_free(*b, s, pos, st1, st2, depth);
        },
        Expr::Star(a) => {
            lemma_star_stack_free(*a, s, pos, st1, st2, depth);
        },
        Expr::Plus(a) => {
            lemma_stack_free(*a, s, pos, st1, st2, depth);
            if let Outcome::Matched { end, .. } = eval(*a, s, pos, st1, depth) {
                if pos < end <= s.len() {
                    lemma_star_stack_free(*a, s, end, st1, st2, depth);
                }
            }
        },
        Expr::Opt(a) => {
            lemma_stack_free(*a, s, pos, st1, st2, depth);
        },
        Expr::Ahead(a) => {
            lemma_stack_free(*a, s, pos, st1, st2, depth);
        },
        Expr::NotAhead(a) => {
            lemma_stack_free(*a, s, pos, st1, st2, depth);
        },
        _ => {},
    }
}

proof fn lemma_star_stack_free(
    a: Expr,
    s: Seq<u8>,
    pos: int,
    st1: Seq<(usize, usize)>,
    st2: Seq<(usize, usize)>,
    depth: nat,
)
    requires
        stack_free(a),
    ensures
        same_but_stack(eval_star(a, s, pos, st1, depth), st1, eval_star(a, s, pos, st2, depth), st2),
    decreases depth, a, s.len() - pos + 1,
{
    if pos <= s.len() {
        lemma_stack_free(a, s, pos, st1, st2, depth);
        if let Outcome::Matched { end, .. } = eval(a, s, pos, st1, depth) {
            if pos < end <= s.len() {
                lemma_star_stack_free(a, s, end, st1, st2, depth);
            }
        }
    }
}

/// A self-closing tag needs no closing tag and stands on its own: it matches
/// the same bytes and yields the same nodes whatever tags are open around it,
/// and leaves the name stack as it found it.
pub proof fn lemma_self_closing_independent(
    s: Seq<u8>,
    pos: int,
    st1: Seq<(usize, usize)>,
    st2: Seq<(usize, usize)>,
    depth: nat,
)
    ensures
        same_but_stack(
            eval(Expr::Ref(Rule::self_closing_tag), s, pos, st1, depth),
            st1,
            eval(Expr::Ref(Rule::self_closing_tag), s, pos, st2, depth),
            st2,
        ),
        same_but_stack(
            eval(Expr::Ref(Rule::self_closing_element), s, pos, st1, depth),
            st1,
            eval(Expr::Ref(Rule::self_closing_element), s, pos, st2, depth),
            st2,
        ),
{
    lemma_stack_free(Expr::Ref(Rule::self_closing_tag), s, pos, st1, st2, depth);
    lemma_stack_free(Expr::Ref(Rule::self_closing_element), s, pos, st1, st2, depth);
}

} // verus!
