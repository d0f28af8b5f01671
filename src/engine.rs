//! The backtracking interpreter of parsing expressions, with its meaning stated
//! as a spec function and the executable evaluator proved to agree with it.
use crate::grammar::{rule_body, rule_expr, Expr, Rule};
use vstd::prelude::*;
use vstd::string::StringSliceAdditionalSpecFns;

verus! {

/// How many rule invocations may be nested before a parse gives up.
pub const MAX_DEPTH: usize = 256;

/// One node of a parse tree. A tree is a sequence of nodes in pre-order: each
/// node is followed by the `descendants` nodes of its subtree.
#[derive(Clone, Copy, Debug, PartialEq, Eq)]
pub struct Node {
    pub rule: Rule,
    pub start: usize,
    pub end: usize,
    pub descendants: usize,
}

/// The meaning of evaluating an expression at a position.
pub enum Outcome {
    /// The expression matched up to `end`, leaving the name stack as `stack`
    /// and producing the nodes `nodes`.
    Matched { end: int, stack: Seq<(usize, usize)>, nodes: Seq<Node> },
    /// The expression did not match; `pos` is the furthest position at which
    /// an attempt failed and `rule` the innermost rule attempted there.
    Failed { pos: int, rule: Option<Rule> },
    /// Rule invocations were nested deeper than allowed.
    TooDeep,
}

pub open spec fn matched(end: int, stack: Seq<(usize, usize)>, nodes: Seq<Node>) -> Outcome {
    Outcome::Matched { end, stack, nodes }
}

pub open spec fn failed(pos: int) -> Outcome {
    Outcome::Failed { pos, rule: None }
}

/// Puts `prefix` before the nodes of a match; leaves other outcomes alone.
pub open spec fn glue(prefix: Seq<Node>, o: Outcome) -> Outcome {
    match o {
        Outcome::Matched { end, stack, nodes } => matched(end, stack, prefix + nodes),
        _ => o,
    }
}

/// Of two failures, the one that reached further (the first on a tie).
pub open spec fn further(a: Outcome, b: Outcome) -> Outcome {
    match (a, b) {
        (Outcome::Failed { pos: pa, .. }, Outcome::Failed { pos: pb, .. }) => if pb > pa {
            b
        } else {
            a
        },
        _ => b,
    }
}

/// The text at `pos` repeats the span `top` of the input.
pub open spec fn repeats_span(s: Seq<u8>, pos: int, top: (usize, usize)) -> bool {
    let len = top.1 - top.0;
    &&& top.0 <= top.1 <= s.len()
    &&& 0 <= pos && pos + len <= s.len()
    &&& s.subrange(pos, pos + len) == s.subrange(top.0 as int, top.1 as int)
}

/// The node that an invocation of `r` spanning `start..end` adds before the
/// nodes `inner` of its body.
pub open spec fn rule_node(r: Rule, start: int, end: int, inner: Seq<Node>) -> Node {
    Node { rule: r, start: start as usize, end: end as usize, descendants: inner.len() as usize }
}

/// Evaluating expression `e` on input `s` at `pos` with name stack `st`,
/// allowing `depth` more nested rule invocations.
pub open spec fn eval(e: Expr, s: Seq<u8>, pos: int, st: Seq<(usize, usize)>, depth: nat) -> Outcome
    decreases depth, e, 0int,
{
    match e {
        Expr::Byte(b) => if 0 <= pos < s.len() && s[pos] == b {
            matched(pos + 1, st, seq![])
        } else {
            failed(pos)
        },
        Expr::Range(lo, hi) => if 0 <= pos < s.len() && lo <= s[pos] <= hi {
            matched(pos + 1, st, seq![])
        } else {
            failed(pos)
        },
        Expr::Lit(w) => {
            let len = w.spec_bytes().len();
            if 0 <= pos && pos + len <= s.len() && s.subrange(pos, pos + len) == w.spec_bytes() {
                matched(pos + len, st, seq![])
            } else {
                failed(pos)
            }
        },
        Expr::Any => if 0 <= pos < s.len() {
            matched(pos + 1, st, seq![])
        } else {
            failed(pos)
        },
        Expr::End => if pos == s.len() {
            matched(pos, st, seq![])
        } else {
            failed(pos)
        },
        Expr::Ref(r) => if depth == 0 {
            Outcome::TooDeep
        } else {
            match eval(rule_body(r), s, pos, st, (depth - 1) as nat) {
                Outcome::Matched { end, stack, nodes } => matched(
                    end,
                    stack,
                    seq![rule_node(r, pos, end, nodes)] + nodes,
                ),
                Outcome::Failed { pos: p, rule: None } => Outcome::Failed { pos: p, rule: Some(r) },
                o => o,
            }
        },
        Expr::Then(a, b) => match eval(*a, s, pos, st, depth) {
            Outcome::Matched { end, stack, nodes } => glue(nodes, eval(*b, s, end, stack, depth)),
            o => o,
        },
        Expr::Choice(a, b) => {
            let oa = eval(*a, s, pos, st, depth);
            match oa {
                Outcome::Failed { .. } => {
                    let ob = eval(*b, s, pos, st, depth);
                    match ob {
                        Outcome::Failed { .. } => further(oa, ob),
                        _ => ob,
                    }
                },
                _ => oa,
            }
        },
        Expr::Star(a) => eval_star(*a, s, pos, st, depth),
        Expr::Plus(a) => match eval(*a, s, pos, st, depth) {
            Outcome::Matched { end, stack, nodes } => if pos < end <= s.len() {
                glue(nodes, eval_star(*a, s, end, stack, depth))
            } else {
                matched(end, stack, nodes)
            },
            o => o,
        },
        Expr::Opt(a) => match eval(*a, s, pos, st, depth) {
            Outcome::Failed { .. } => matched(pos, st, seq![]),
            o => o,
        },
        Expr::Ahead(a) => match eval(*a, s, pos, st, depth) {
            Outcome::Matched { .. } => matched(pos, st, seq![]),
            o => o,
        },
        Expr::NotAhead(a) => match eval(*a, s, pos, st, depth) {
            Outcome::Matched { .. } => failed(pos),
            Outcome::Failed { .. } => matched(pos, st, seq![]),
            Outcome::TooDeep => Outcome::TooDeep,
        },
        Expr::Push(a) => match eval(*a, s, pos, st, depth) {
            Outcome::Matched { end, stack, nodes } => matched(
                end,
                stack.push((pos as usize, end as usize)),
                nodes,
            ),
            o => o,
        },
        Expr::Peek => if st.len() > 0 && repeats_span(s, pos, st.last()) {
            matched(pos + (st.last().1 - st.last().0), st, seq![])
        } else {
            failed(pos)
        },
        Expr::Pop => if st.len() > 0 {
            matched(pos, st.drop_last(), seq![])
        } else {
            failed(pos)
        },
    }
}

/// Repeating `a` from `pos` as long as it matches; an iteration that consumes
/// nothing is the last.
pub open spec fn eval_star(a: Expr, s: Seq<u8>, pos: int, st: Seq<(usize, usize)>, depth: nat) -> Outcome
    decreases depth, a, s.len() - pos + 1,
{
    if pos > s.len() {
        matched(pos, st, seq![])
    } else {
        match eval(a, s, pos, st, depth) {
            Outcome::Matched { end, stack, nodes } => if pos < end <= s.len() {
                glue(nodes, eval_star(a, s, end, stack, depth))
            } else {
                matched(end, stack, nodes)
            },
            Outcome::Failed { .. } => matched(pos, st, seq![]),
            Outcome::TooDeep => Outcome::TooDeep,
        }
    }
}

/// What the executable evaluator returns.
pub enum Evaluated {
    Matched { end: usize, nodes: Vec<Node> },
    Failed { pos: usize, rule: Option<Rule> },
    TooDeep,
}

/// `r`, with the stack `st` left after it, is the outcome `o`; on a failure the
/// stack is back to `st0`.
pub open spec fn agrees(r: Evaluated, st: Seq<(usize, usize)>, st0: Seq<(usize, usize)>, o: Outcome) -> bool {
    match o {
        Outcome::Matched { end, stack, nodes } => match r {
            Evaluated::Matched { end: e, nodes: n } => e == end && n@ == nodes && st == stack,
            _ => false,
        },
        Outcome::Failed { pos, rule } => match r {
            Evaluated::Failed { pos: p, rule: q } => p == pos && q == rule && st == st0,
            _ => false,
        },
        Outcome::TooDeep => r is TooDeep,
    }
}

fn copy_stack(st: &Vec<(usize, usize)>) -> (r: Vec<(usize, usize)>)
    ensures
        r@ == st@,
{
    let mut r: Vec<(usize, usize)> = Vec::new();
    let mut i: usize = 0;
    while i < st.len()
        invariant
            i <= st@.len(),
            r@ == st@.subrange(0, i as int),
        decreases st@.len() - i,
    {
        r.push(st[i]);
        i = i + 1;
        assert(r@ =~= st@.subrange(0, i as int));
    }
    assert(r@ =~= st@);
    r
}

/// Whether `w` occurs in `input` at `pos`.
fn bytes_at(input: &[u8], pos: usize, w: &[u8]) -> (r: bool)
    requires
        pos <= input@.len(),
    ensures
        r == (pos + w@.len() <= input@.len() && input@.subrange(pos as int, pos + w@.len())
            == w@),
{
    if w.len() > input.len() - pos {
        return false;
    }
    let mut i: usize = 0;
    while i < w.len()
        invariant
            pos + w@.len() <= input@.len(),
            input@.len() <= usize::MAX,
            i <= w@.len(),
            forall|k: int| 0 <= k < i ==> input@[pos + k] == w@[k],
        decreases w@.len() - i,
    {
        if input[pos + i] != w[i] {
            assert(input@.subrange(pos as int, pos + w@.len())[i as int] != w@[i as int]);
            return false;
        }
        i = i + 1;
    }
    assert(input@.subrange(pos as int, pos + w@.len()) =~= w@);
    true
}

/// Whether the span `start..end` of `input` occurs again at `pos`.
fn span_repeats_at(input: &[u8], pos: usize, start: usize, end: usize) -> (r: bool)
    requires
        pos <= input@.len(),
        start <= end <= input@.len(),
    ensures
        r == (pos + (end - start) <= input@.len() && input@.subrange(pos as int, pos + (end - start))
            == input@.subrange(start as int, end as int)),
{
    let len = end - start;
    if len > input.len() - pos {
        return false;
    }
    let mut i: usize = 0;
    while i < len
        invariant
            pos + len <= input@.len(),
            input@.len() <= usize::MAX,
            len == end - start,
            start <= end <= input@.len(),
            i <= len,
            input@.subrange(pos as int, pos + i) == input@.subrange(start as int, start + i),
        decreases len - i,
    {
        if input[pos + i] != input[start + i] {
            assert(input@.subrange(pos as int, pos + len)[i as int] != input@.subrange(
                start as int,
                end as int,
            )[i as int]);
            return false;
        }
        assert(input@.subrange(pos as int, pos + i + 1) =~= input@.subrange(pos as int, pos + i).push(
            input@[pos + i],
        ));
        assert(input@.subrange(start as int, start + i + 1) =~= input@.subrange(
            start as int,
            start + i,
        ).push(input@[start + i]));
        i = i + 1;
    }
    true
}

/// Evaluates `e` on `input` at `pos`, with the name stack `stack` and at most
/// `depth` more nested rule invocations.
pub fn eval_expr(e: &Expr, input: &[u8], pos: usize, stack: &mut Vec<(usize, usize)>, depth: usize) -> (r: Evaluated)
    requires
        pos <= input@.len(),
        input@.len() <= usize::MAX,
    ensures
        agrees(r, final(stack)@, old(stack)@, eval(*e, input@, pos as int, old(stack)@, depth as nat)),
        r matches Evaluated::Matched { end, .. } ==> pos <= end <= input@.len(),
    decreases depth, *e, 0int,
{
    match e {
        Expr::Byte(b) => if pos < input.len() && input[pos] == *b {
            Evaluated::Matched { end: pos + 1, nodes: Vec::new() }
        } else {
            Evaluated::Failed { pos, rule: None }
        },
        Expr::Range(lo, hi) => if pos < input.len() && *lo <= input[pos] && input[pos] <= *hi {
            Evaluated::Matched { end: pos + 1, nodes: Vec::new() }
        } else {
            Evaluated::Failed { pos, rule: None }
        },
        Expr::Lit(w) => {
            let wb = w.as_bytes();
            assert(input@.len() == input.len());
            if bytes_at(input, pos, wb) {
                Evaluated::Matched { end: pos + wb.len(), nodes: Vec::new() }
            } else {
                Evaluated::Failed { pos, rule: None }
            }
        },
        Expr::Any => if pos < input.len() {
            Evaluated::Matched { end: pos + 1, nodes: Vec::new() }
        } else {
            Evaluated::Failed { pos, rule: None }
        },
        Expr::End => if pos == input.len() {
            Evaluated::Matched { end: pos, nodes: Vec::new() }
        } else {
            Evaluated::Failed { pos, rule: None }
        },
        Expr::Ref(r) => {
            if depth == 0 {
                return Evaluated::TooDeep;
            }
            let body = rule_expr(*r);
            match eval_expr(&body, input, pos, stack, depth - 1) {
                Evaluated::Matched { end, nodes } => {
                    let mut out: Vec<Node> = Vec::new();
                    out.push(Node { rule: *r, start: pos, end, descendants: nodes.len() });
                    let ghost n = nodes@;
                    let mut inner = nodes;
                    out.append(&mut inner);
                    assert(out@ =~= seq![rule_node(*r, pos as int, end as int, n)] + n);
                    Evaluated::Matched { end, nodes: out }
                },
                Evaluated::Failed { pos: p, rule: None } => Evaluated::Failed {
                    pos: p,
                    rule: Some(*r),
                },
                o => o,
            }
        },
        Expr::Then(a, b) => {
            let saved = copy_stack(stack);
            match eval_expr(a, input, pos, stack, depth) {
                Evaluated::Matched { end, nodes } => {
                    match eval_expr(b, input, end, stack, depth) {
                        Evaluated::Matched { end: end2, nodes: nodes2 } => {
                            let mut out = nodes;
                            let mut rest = nodes2;
                            out.append(&mut rest);
                            Evaluated::Matched { end: end2, nodes: out }
                        },
                        Evaluated::Failed { pos: p, rule } => {
                            *stack = saved;
                            Evaluated::Failed { pos: p, rule }
                        },
                        Evaluated::TooDeep => Evaluated::TooDeep,
                    }
                },
                o => o,
            }
        },
        Expr::Choice(a, b) => match eval_expr(a, input, pos, stack, depth) {
            Evaluated::Failed { pos: pa, rule: ra } => match eval_expr(b, input, pos, stack, depth) {
                Evaluated::Failed { pos: pb, rule: rb } => if pb > pa {
                    Evaluated::Failed { pos: pb, rule: rb }
                } else {
                    Evaluated::Failed { pos: pa, rule: ra }
                },
                o => o,
            },
            o => o,
        },
        Expr::Star(a) => {
            proof {
                lemma_glue_empty(eval_star(**a, input@, pos as int, stack@, depth as nat));
            }
            eval_repeat(a, input, pos, stack, depth, Vec::new())
        },
        Expr::Plus(a) => match eval_expr(a, input, pos, stack, depth) {
            Evaluated::Matched { end, nodes } => if pos < end {
                eval_repeat(a, input, end, stack, depth, nodes)
            } else {
                Evaluated::Matched { end, nodes }
            },
            o => o,
        },
        Expr::Opt(a) => match eval_expr(a, input, pos, stack, depth) {
            Evaluated::Failed { .. } => Evaluated::Matched { end: pos, nodes: Vec::new() },
            o => o,
        },
        Expr::Ahead(a) => {
            let saved = copy_stack(stack);
            match eval_expr(a, input, pos, stack, depth) {
                Evaluated::Matched { .. } => {
                    *stack = saved;
                    Evaluated::Matched { end: pos, nodes: Vec::new() }
                },
                o => o,
            }
        },
        Expr::NotAhead(a) => {
            let saved = copy_stack(stack);
            match eval_expr(a, input, pos, stack, depth) {
                Evaluated::Matched { .. } => {
                    *stack = saved;
                    Evaluated::Failed { pos, rule: None }
                },
                Evaluated::Failed { .. } => Evaluated::Matched { end: pos, nodes: Vec::new() },
                Evaluated::TooDeep => Evaluated::TooDeep,
            }
        },
        Expr::Push(a) => match eval_expr(a, input, pos, stack, depth) {
            Evaluated::Matched { end, nodes } => {
                stack.push((pos, end));
                Evaluated::Matched { end, nodes }
            },
            o => o,
        },
        Expr::Peek => {
            let n = stack.len();
            if n > 0 {
                let top = stack[n - 1];
                if top.0 <= top.1 && top.1 <= input.len() && span_repeats_at(
                    input,
                    pos,
                    top.0,
                    top.1,
                ) {
                    return Evaluated::Matched { end: pos + (top.1 - top.0), nodes: Vec::new() };
                }
            }
            Evaluated::Failed { pos, rule: None }
        },
        Expr::Pop => if stack.len() > 0 {
            stack.pop();
            Evaluated::Matched { end: pos, nodes: Vec::new() }
        } else {
            Evaluated::Failed { pos, rule: None }
        },
    }
}

/// Goes on repeating `a` from `pos`, after earlier iterations that produced
/// `prefix`: the outcome is `prefix` before that of `eval_star` from `pos`.
fn eval_repeat(
    a: &Expr,
    input: &[u8],
    pos: usize,
    stack: &mut Vec<(usize, usize)>,
    depth: usize,
    prefix: Vec<Node>,
) -> (r: Evaluated)
    requires
        pos <= input@.len(),
        input@.len() <= usize::MAX,
    ensures
        agrees(
            r,
            final(stack)@,
            old(stack)@,
            glue(prefix@, eval_star(*a, input@, pos as int, old(stack)@, depth as nat)),
        ),
        !(r is Failed),
        r matches Evaluated::Matched { end, .. } ==> pos <= end <= input@.len(),
    decreases depth, *a, 1int,
{
    let mut acc = prefix;
    let mut cur = pos;
    loop
        invariant
            pos <= cur <= input@.len(),
            input@.len() <= usize::MAX,
            glue(prefix@, eval_star(*a, input@, pos as int, old(stack)@, depth as nat)) == glue(
                acc@,
                eval_star(*a, input@, cur as int, stack@, depth as nat),
            ),
        decreases input@.len() - cur,
    {
        let ghost st = stack@;
        let res = eval_expr(a, input, cur, stack, depth);
        assert(eval_star(*a, input@, cur as int, st, depth as nat) == match eval(
            *a,
            input@,
            cur as int,
            st,
            depth as nat,
        ) {
            Outcome::Matched { end, stack, nodes } => if cur < end <= input@.len() {
                glue(nodes, eval_star(*a, input@, end, stack, depth as nat))
            } else {
                matched(end, stack, nodes)
            },
            Outcome::Failed { .. } => matched(cur as int, st, seq![]),
            Outcome::TooDeep => Outcome::TooDeep,
        });
        match res {
            Evaluated::Matched { end, nodes } => {
                let ghost n = nodes@;
                proof {
                    lemma_glue_glue(acc@, n, eval_star(*a, input@, end as int, stack@, depth as nat));
                }
                let mut more = nodes;
                acc.append(&mut more);
                if cur < end {
                    cur = end;
                } else {
                    return Evaluated::Matched { end, nodes: acc };
                }
            },
            Evaluated::Failed { .. } => {
                assert(acc@ + seq![] =~= acc@);
                return Evaluated::Matched { end: cur, nodes: acc };
            },
            Evaluated::TooDeep => {
                return Evaluated::TooDeep;
            },
        }
    }
}

pub proof fn lemma_glue_empty(o: Outcome)
    ensures
        glue(seq![], o) == o,
{
    if let Outcome::Matched { end, stack, nodes } = o {
        assert(seq![] + nodes =~= nodes);
    }
}

pub proof fn lemma_glue_glue(a: Seq<Node>, b: Seq<Node>, o: Outcome)
    ensures
        glue(a, glue(b, o)) == glue(a + b, o),
{
    if let Outcome::Matched { end, stack, nodes } = o {
        assert(a + (b + nodes) =~= (a + b) + nodes);
    }
}

} // verus!
