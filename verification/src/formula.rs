//! The mathematical value of a formula, and facts about it.

use vstd::prelude::*;
use crate::connective::Connective;

verus! {

/// The mathematical value of a formula: the names of literals are taken by
/// their characters.
pub enum Formula {
    And(Seq<Formula>),
    Or(Seq<Formula>),
    /// `Lit(negated, name)`
    Lit(bool, Seq<char>),
}

/// The values of a sequence of formulas.
pub open spec fn view_seq(s: Seq<Connective>) -> Seq<Formula>
    decreases s,
{
    if s.len() == 0 {
        Seq::empty()
    } else {
        view_seq(s.drop_last()).push(view_conn(s.last()))
    }
}

/// The value of a formula.
pub open spec fn view_conn(c: Connective) -> Formula
    decreases c,
{
    match c {
        Connective::And(v) => Formula::And(view_seq(v@)),
        Connective::Or(v) => Formula::Or(view_seq(v@)),
        Connective::Literal(n, s) => Formula::Lit(n, s@),
    }
}

/// `view_seq` takes each formula to its value, one for one.
pub broadcast proof fn lemma_view_seq(s: Seq<Connective>)
    ensures
        (#[trigger] view_seq(s)).len() == s.len(),
        forall|i: int|
            #![trigger view_seq(s)[i]]
            #![trigger s[i]]
            0 <= i < s.len() ==> view_seq(s)[i] == view_conn(s[i]),
    decreases s.len(),
{
    if s.len() > 0 {
        lemma_view_seq(s.drop_last());
    }
}

/// The position of the first formula equal to `f`, or -1 where there is none.
pub open spec fn first_index(s: Seq<Formula>, f: Formula) -> int
    decreases s.len(),
{
    if s.len() == 0 {
        -1
    } else if s[0] == f {
        0
    } else {
        let k = first_index(s.drop_first(), f);
        if k < 0 { -1 } else { k + 1 }
    }
}

pub proof fn lemma_first_index(s: Seq<Formula>, f: Formula)
    ensures
        -1 <= first_index(s, f) < s.len(),
        first_index(s, f) == -1 <==> (forall|j: int| 0 <= j < s.len() ==> s[j] != f),
        first_index(s, f) >= 0 ==> s[first_index(s, f)] == f && (forall|j: int|
            0 <= j < first_index(s, f) ==> s[j] != f),
    decreases s.len(),
{
    if s.len() > 0 {
        lemma_first_index(s.drop_first(), f);
        if s[0] != f {
            if first_index(s.drop_first(), f) == -1 {
                assert forall|j: int| 0 <= j < s.len() implies s[j] != f by {
                    if j > 0 {
                        assert(s[j] == s.drop_first()[j - 1]);
                    }
                }
            } else {
                let k = first_index(s.drop_first(), f);
                assert forall|j: int| 0 <= j < k + 1 implies s[j] != f by {
                    if j > 0 {
                        assert(s[j] == s.drop_first()[j - 1]);
                    }
                }
            }
        }
    }
}

/// `s` without its first occurrence of `f`; `s` itself where `f` does not occur.
pub open spec fn remove_first(s: Seq<Formula>, f: Formula) -> Seq<Formula> {
    let k = first_index(s, f);
    if k < 0 { s } else { s.remove(k) }
}

} // verus!
