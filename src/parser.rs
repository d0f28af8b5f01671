//! Parsing a whole input from a named rule.
use crate::engine::{eval, eval_expr, Evaluated, Node, Outcome, MAX_DEPTH};
use crate::error::{HtmlParserError, SyntaxError};
use crate::grammar::{Expr, Rule};
use crate::nesting::{elements_close_own_names, lemma_parse_closing_tags_match};
use crate::tree::{forest, lemma_eval_forest};
use vstd::prelude::*;
use vstd::string::StringSliceAdditionalSpecFns;

verus! {

/// A successful parse: the nodes of the tree in pre-order, the root first.
#[derive(Clone, Debug)]
pub struct ParseTree {
    pub nodes: Vec<Node>,
}

/// Evaluating rule `rule` from the start of `s` with an empty name stack.
pub open spec fn parse_outcome(rule: Rule, s: Seq<u8>) -> Outcome {
    eval(Expr::Ref(rule), s, 0, seq![], MAX_DEPTH as nat)
}

/// What parsing `s` from `rule` yields: the nodes of the tree, or the error.
pub open spec fn parse_spec(rule: Rule, s: Seq<u8>) -> Result<Seq<Node>, HtmlParserError> {
    match parse_outcome(rule, s) {
        Outcome::Matched { nodes, .. } => Ok(nodes),
        Outcome::Failed { pos, rule: q } => Err(
            HtmlParserError::ParseError(
                SyntaxError {
                    rule: match q {
                        Some(x) => x,
                        None => rule,
                    },
                    pos: pos as usize,
                },
            ),
        ),
        Outcome::TooDeep => Err(HtmlParserError::RecursionLimitExceeded),
    }
}

/// The nodes form one tree rooted at a node of `rule` that starts at offset 0
/// and ends within an input of `len` bytes; every node's subtree lies inside
/// its span, and siblings follow each other without overlap.
pub open spec fn is_parse_tree(nodes: Seq<Node>, rule: Rule, len: int) -> bool {
    &&& nodes.len() >= 1
    &&& nodes[0].rule == rule
    &&& nodes[0].start == 0
    &&& nodes[0].end <= len
    &&& nodes[0].descendants == nodes.len() - 1
    &&& forest(nodes, 0, nodes[0].end as int)
}

/// Every successful parse yields a well-nested tree: each child's span lies
/// inside its parent's, siblings appear in input order without overlap, and the
/// root spans exactly the bytes that the rule consumed from the start.
pub proof fn lemma_parse_tree_nested(rule: Rule, s: Seq<u8>)
    requires
        s.len() <= usize::MAX,
        parse_outcome(rule, s) is Matched,
        parse_outcome(rule, s)->nodes.len() <= usize::MAX,
    ensures
        is_parse_tree(parse_outcome(rule, s)->nodes, rule, s.len() as int),
        parse_outcome(rule, s)->nodes[0].end == parse_outcome(rule, s)->end,
{
    let body = crate::grammar::rule_body(rule);
    let d = (MAX_DEPTH - 1) as nat;
    lemma_eval_forest(body, s, 0, seq![], d);
    lemma_eval_forest(Expr::Ref(rule), s, 0, seq![], MAX_DEPTH as nat);
    let inner = eval(body, s, 0, seq![], d)->nodes;
    assert(parse_outcome(rule, s)->nodes.len() == inner.len() + 1);
}

/// Parsing is a function of the rule and the input: equal inputs give equal
/// results, and an invalid input fails with the same rule and position on
/// every attempt.
pub proof fn lemma_parse_deterministic(rule: Rule, s1: Seq<u8>, s2: Seq<u8>)
    requires
        s1 == s2,
    ensures
        parse_spec(rule, s1) == parse_spec(rule, s2),
{
}

/// Parses `input` from rule `rule`; the rule's match must start at the
/// beginning of the input, and need not reach its end unless the rule says so.
pub fn parse_input_by_rule(rule: Rule, input: &str) -> (res: Result<ParseTree, HtmlParserError>)
    ensures
        match (res, parse_spec(rule, input.spec_bytes())) {
            (Ok(t), Ok(n)) => t.nodes@ == n,
            (Err(e), Err(f)) => e == f,
            _ => false,
        },
        res matches Ok(t) ==> is_parse_tree(t.nodes@, rule, input.spec_bytes().len() as int),
        res matches Ok(t) ==> elements_close_own_names(input.spec_bytes(), t.nodes@),
{
    let bytes = input.as_bytes();
    let mut stack: Vec<(usize, usize)> = Vec::new();
    let e = Expr::Ref(rule);
    assert(bytes@.len() == bytes.len());
    match eval_expr(&e, bytes, 0, &mut stack, MAX_DEPTH) {
        Evaluated::Matched { end, nodes } => {
            assert(nodes@.len() == nodes.len());
            proof {
                lemma_parse_tree_nested(rule, bytes@);
                lemma_parse_closing_tags_match(rule, bytes@);
            }
            Ok(ParseTree { nodes })
        },
        Evaluated::Failed { pos, rule: q } => {
            let r = match q {
                Some(x) => x,
                None => rule,
            };
            Err(HtmlParserError::ParseError(SyntaxError { rule: r, pos }))
        },
        Evaluated::TooDeep => Err(HtmlParserError::RecursionLimitExceeded),
    }
}

/// Parses a whole HTML document.
pub fn parse_html(input: &str) -> (res: Result<ParseTree, HtmlParserError>)
    ensures
        match (res, parse_spec(Rule::html, input.spec_bytes())) {
            (Ok(t), Ok(n)) => t.nodes@ == n,
            (Err(e), Err(f)) => e == f,
            _ => false,
        },
        res matches Ok(t) ==> is_parse_tree(t.nodes@, Rule::html, input.spec_bytes().len() as int),
        res matches Ok(t) ==> elements_close_own_names(input.spec_bytes(), t.nodes@),
{
    parse_input_by_rule(Rule::html, input)
}

} // verus!
