//! The mathematical value of a parse tree, and facts about it.

use vstd::prelude::*;
use crate::cnf_scan::Type;
use crate::cnf_parse::{ParseVal, ParseNode};
use crate::text::strs;

verus! {

/// The value of a node's label: a grammar rule (its symbols, left-hand side
/// first) or a token (its lexeme and kind).
pub enum PVal {
    Rule(Seq<Seq<char>>),
    Term(Seq<char>, Type),
}

/// The value of a parse tree: a label and the children, as the parser stores
/// them (for a rule, the rightmost symbol's subtree first).
pub struct PTree {
    pub val: PVal,
    pub children: Seq<PTree>,
}

/// The value of a label.
pub open spec fn view_val(v: ParseVal) -> PVal {
    match v {
        ParseVal::Rule(r) => PVal::Rule(strs(r@)),
        ParseVal::Term(t) => PVal::Term(t.0@, t.1),
    }
}

/// The value of a tree.
pub open spec fn view_node(n: ParseNode) -> PTree
    decreases n,
{
    PTree { val: view_val(n.0), children: view_nodes(n.1@) }
}

/// The values of a sequence of trees.
pub open spec fn view_nodes(s: Seq<ParseNode>) -> Seq<PTree>
    decreases s,
{
    if s.len() == 0 {
        Seq::empty()
    } else {
        view_nodes(s.drop_last()).push(view_node(s.last()))
    }
}

/// `view_nodes` takes each tree to its value, one for one.
pub broadcast proof fn lemma_view_nodes(s: Seq<ParseNode>)
    ensures
        (#[trigger] view_nodes(s)).len() == s.len(),
        forall|i: int|
            #![trigger view_nodes(s)[i]]
            #![trigger s[i]]
            0 <= i < s.len() ==> view_nodes(s)[i] == view_node(s[i]),
    decreases s.len(),
{
    if s.len() > 0 {
        lemma_view_nodes(s.drop_last());
    }
}

} // verus!
