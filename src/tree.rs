//! The shape of parse trees: the spans of a node's subtree lie inside its own
//! span, and siblings follow each other in input order without overlap.
use crate::engine::{eval, eval_star, rule_node, Node, Outcome};
use crate::grammar::{rule_body, Expr};
use vstd::prelude::*;
use vstd::string::StringSliceAdditionalSpecFns;

verus! {

/// `nodes` is a sequence of whole subtrees in pre-order whose spans lie within
/// `lo..hi`, each inside its parent's span and each after its previous sibling.
pub open spec fn forest(nodes: Seq<Node>, lo: int, hi: int) -> bool
    decreases nodes.len(),
{
    if nodes.len() == 0 {
        lo <= hi
    } else {
        let n = nodes[0];
        let d = n.descendants as int;
        &&& lo <= n.start <= n.end
        &&& d + 1 <= nodes.len()
        &&& forest(nodes.subrange(1, d + 1), n.start as int, n.end as int)
        &&& forest(nodes.subrange(d + 1, nodes.len() as int), n.end as int, hi)
    }
}

proof fn lemma_forest_widen(nodes: Seq<Node>, lo: int, lo2: int, hi: int)
    requires
        forest(nodes, lo, hi),
        lo2 <= lo,
    ensures
        forest(nodes, lo2, hi),
{
}

proof fn lemma_forest_empty(lo: int, hi: int)
    requires
        lo <= hi,
    ensures
        forest(seq![], lo, hi),
{
}

/// Two forests side by side make one.
pub proof fn lemma_forest_concat(a: Seq<Node>, b: Seq<Node>, lo: int, mid: int, hi: int)
    requires
        forest(a, lo, mid),
        forest(b, mid, hi),
    ensures
        forest(a + b, lo, hi),
    decreases a.len(),
{
    if a.len() == 0 {
        assert(a + b =~= b);
        if b.len() == 0 {
        } else {
            lemma_forest_widen(b, mid, lo, hi);
        }
    } else {
        let n = a[0];
        let d = n.descendants as int;
        let ab = a + b;
        assert(ab[0] == n);
        assert(ab.subrange(1, d + 1) =~= a.subrange(1, d + 1));
        assert(ab.subrange(d + 1, ab.len() as int) =~= a.subrange(d + 1, a.len() as int) + b);
        lemma_forest_concat(a.subrange(d + 1, a.len() as int), b, n.end as int, mid, hi);
    }
}

/// What an expression matches from `pos` ends between `pos` and the end of the
/// input, and the nodes it produces form a forest within that span.
pub proof fn lemma_eval_forest(e: Expr, s: Seq<u8>, pos: int, st: Seq<(usize, usize)>, depth: nat)
    requires
        0 <= pos <= s.len(),
        s.len() <= usize::MAX,
    ensures
        eval(e, s, pos, st, depth) matches Outcome::Matched { end, nodes, .. } ==> pos <= end
            <= s.len() && (nodes.len() <= usize::MAX ==> forest(nodes, pos, end)),
    decreases depth, e, 0int,
{
    lemma_forest_empty(pos, pos);
    lemma_forest_empty(pos, pos + 1);
    match e {
        Expr::Lit(w) => {
            let len = w.spec_bytes().len();
            lemma_forest_empty(pos, pos + len);
        },
        Expr::Ref(r) => {
            if depth > 0 {
                lemma_eval_forest(rule_body(r), s, pos, st, (depth - 1) as nat);
                if let Outcome::Matched { end, stack, nodes } = eval(
                    rule_body(r),
                    s,
                    pos,
                    st,
                    (depth - 1) as nat,
                ) {
                    if nodes.len() + 1 <= usize::MAX {
                        let n = rule_node(r, pos, end, nodes);
                        let all = seq![n] + nodes;
                        let d = n.descendants as int;
                        assert(d == nodes.len());
                        assert(all.subrange(1, d + 1) =~= nodes);
                        assert(all.subrange(d + 1, all.len() as int) =~= seq![]);
                        lemma_forest_empty(end, end);
                    }
                }
            }
        },
        Expr::Then(a, b) => {
            lemma_eval_forest(*a, s, pos, st, depth);
            if let Outcome::Matched { end, stack, nodes } = eval(*a, s, pos, st, depth) {
                lemma_eval_forest(*b, s, end, stack, depth);
                if let Outcome::Matched { end: end2, stack: stack2, nodes: nodes2 } = eval(
                    *b,
                    s,
                    end,
                    stack,
                    depth,
                ) {
                    if nodes.len() + nodes2.len() <= usize::MAX {
                        if nodes.len() + nodes2.len() <= usize::MAX {
                            lemma_forest_concat(nodes, nodes2, pos, end, end2);
                        }
                    }
                }
            }
        },
        Expr::Choice(a, b) => {
            lemma_eval_forest(*a, s, pos, st, depth);
            lemma_eval_forest(*b, s, pos, st, depth);
        },
        Expr::Star(a) => {
            lemma_star_forest(*a, s, pos, st, depth);
        },
        Expr::Plus(a) => {
            lemma_eval_forest(*a, s, pos, st, depth);
            if let Outcome::Matched { end, stack, nodes } = eval(*a, s, pos, st, depth) {
                if pos < end <= s.len() {
                    lemma_star_forest(*a, s, end, stack, depth);
                    if let Outcome::Matched { end: end2, stack: stack2, nodes: nodes2 } = eval_star(
                        *a,
                        s,
                        end,
                        stack,
                        depth,
                    ) {
                        if nodes.len() + nodes2.len() <= usize::MAX {
                        lemma_forest_concat(nodes, nodes2, pos, end, end2);
                    }
                    }
                }
            }
        },
        Expr::Opt(a) => {
            lemma_eval_forest(*a, s, pos, st, depth);
        },
        Expr::Ahead(a) => {
            lemma_eval_forest(*a, s, pos, st, depth);
        },
        Expr::NotAhead(a) => {
            lemma_eval_forest(*a, s, pos, st, depth);
        },
        Expr::Push(a) => {
            lemma_eval_forest(*a, s, pos, st, depth);
        },
        Expr::Peek => {
            if st.len() > 0 && crate::engine::repeats_span(s, pos, st.last()) {
                lemma_forest_empty(pos, pos + (st.last().1 - st.last().0));
            }
        },
        _ => {},
    }
}

/// The same for repetitions.
pub proof fn lemma_star_forest(a: Expr, s: Seq<u8>, pos: int, st: Seq<(usize, usize)>, depth: nat)
    requires
        0 <= pos <= s.len(),
        s.len() <= usize::MAX,
    ensures
        eval_star(a, s, pos, st, depth) matches Outcome::Matched { end, nodes, .. } ==> pos <= end
            <= s.len() && (nodes.len() <= usize::MAX ==> forest(nodes, pos, end)),
    decreases depth, a, s.len() - pos + 1,
{
    lemma_forest_empty(pos, pos);
    lemma_eval_forest(a, s, pos, st, depth);
    if let Outcome::Matched { end, stack, nodes } = eval(a, s, pos, st, depth) {
        if pos < end <= s.len() {
            lemma_star_forest(a, s, end, stack, depth);
            if let Outcome::Matched { end: end2, stack: stack2, nodes: nodes2 } = eval_star(
                a,
                s,
                end,
                stack,
                depth,
            ) {
                if nodes.len() + nodes2.len() <= usize::MAX {
                    lemma_forest_concat(nodes, nodes2, pos, end, end2);
                }
            }
        }
    }
}

} // verus!
