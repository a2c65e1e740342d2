//! From a parse tree to a formula, and the flattening of nested
//! conjunctions and disjunctions.

use vstd::prelude::*;
use crate::formula::{Formula, view_seq, lemma_view_seq};
use crate::connective::{Connective};
use crate::cnf_parse::{ParseNode, ParseVal, get_token, token_of};
use crate::parse_tree::{PVal, PTree, view_nodes, lemma_view_nodes};
use crate::text::{strs, append_str};
use crate::soundness::Assignment;

verus! {

broadcast use {lemma_view_seq, lemma_view_nodes};

/// What a grammar rule becomes: its child at a position (`Recur`), a
/// conjunction or disjunction of its children at two positions, or a literal
/// (negated where the rule's first symbol is `NOT`).
#[derive(Clone, Copy, Debug, PartialEq, Eq, Structural)]
pub enum Decision {
    Recur,
    AND,
    OR,
    Term,
}

/// The rules of the grammar with what each becomes and the positions of the
/// children it uses (children are stored rightmost symbol first).
pub open spec fn rule_entry(i: int) -> (Seq<Seq<char>>, Decision, Seq<usize>) {
    if i == 0 {
        (seq!["S"@, "BOF"@, "expr"@, "EOF"@], Decision::Recur, seq![1usize])
    } else if i == 1 {
        (seq!["expr"@, "term"@], Decision::Recur, seq![0usize])
    } else if i == 2 {
        (seq!["expr"@, "term"@, "AND"@, "expr"@], Decision::AND, seq![2usize, 0usize])
    } else if i == 3 {
        (seq!["term"@, "pred"@], Decision::Recur, seq![0usize])
    } else if i == 4 {
        (seq!["term"@, "LPAREN"@, "disj"@, "RPAREN"@], Decision::Recur, seq![1usize])
    } else if i == 5 {
        (seq!["disj"@, "pred"@], Decision::Recur, seq![0usize])
    } else if i == 6 {
        (seq!["disj"@, "pred"@, "OR"@, "disj"@], Decision::OR, seq![2usize, 0usize])
    } else if i == 7 {
        (seq!["pred"@, "NOT"@, "LIT"@], Decision::Term, seq![0usize])
    } else {
        (seq!["pred"@, "LIT"@], Decision::Term, seq![0usize])
    }
}

/// The rule table.
pub open spec fn rule_table() -> Seq<(Seq<Seq<char>>, Decision, Seq<usize>)> {
    Seq::new(9, |i: int| rule_entry(i))
}

/// The value of an entry of the rule table.
pub open spec fn entry_view(e: (Vec<String>, Decision, Vec<usize>)) -> (Seq<Seq<char>>, Decision, Seq<usize>) {
    (strs(e.0@), e.1, e.2@)
}

/// The values of the entries of a rule table.
pub open spec fn table_view(v: Seq<(Vec<String>, Decision, Vec<usize>)>) -> Seq<(Seq<Seq<char>>, Decision, Seq<usize>)> {
    v.map_values(|e: (Vec<String>, Decision, Vec<usize>)| entry_view(e))
}

/// The position of the first entry at or after `k` for rule `r`, or -1.
pub open spec fn find_from(tab: Seq<(Seq<Seq<char>>, Decision, Seq<usize>)>, r: Seq<Seq<char>>, k: int) -> int
    decreases tab.len() - k,
{
    if k < 0 || k >= tab.len() {
        -1
    } else if tab[k].0 == r {
        k
    } else {
        find_from(tab, r, k + 1)
    }
}

/// The formula of a parse tree under the rule table `tab`: the first entry
/// for the node's rule says which children it uses (children are stored
/// rightmost symbol first) and what they become. A rule with no entry, or a
/// token, gives none; so does a conversion that fails (see `ast_ok_in`).
pub open spec fn ast_in(tab: Seq<(Seq<Seq<char>>, Decision, Seq<usize>)>, t: PTree) -> Option<Formula>
    decreases t,
{
    match t.val {
        PVal::Term(_, _) => None,
        PVal::Rule(r) => {
            let k = find_from(tab, r, 0);
            if k < 0 || k >= tab.len() || tab[k].2.len() == 0 {
                None
            } else {
                let e = tab[k];
                let c = t.children;
                let i0 = e.2[0] as int;
                match e.1 {
                    Decision::Recur => if i0 < c.len() { ast_in(tab, c[i0]) } else { None },
                    Decision::AND => {
                        if e.2.len() >= 2 && i0 < c.len() && (e.2[1] as int) < c.len() && ast_in(tab, c[i0]) is Some
                            && ast_in(tab, c[e.2[1] as int]) is Some {
                            Some(Formula::And(seq![ast_in(tab, c[i0]).unwrap(), ast_in(tab, c[e.2[1] as int]).unwrap()]))
                        } else {
                            None
                        }
                    },
                    Decision::OR => {
                        if e.2.len() >= 2 && i0 < c.len() && (e.2[1] as int) < c.len() && ast_in(tab, c[i0]) is Some
                            && ast_in(tab, c[e.2[1] as int]) is Some {
                            Some(Formula::Or(seq![ast_in(tab, c[i0]).unwrap(), ast_in(tab, c[e.2[1] as int]).unwrap()]))
                        } else {
                            None
                        }
                    },
                    Decision::Term => if i0 < c.len() && e.0.len() >= 2 {
                        Some(Formula::Lit(e.0[1] == "NOT"@, token_of(c[i0])))
                    } else {
                        None
                    },
                }
            }
        },
    }
}

/// Whether converting a parse tree under `tab` finishes without a failure:
/// the entry found for a rule lists the positions it needs, every child it
/// uses exists, the parts of a conjunction or disjunction convert, a literal's
/// rule has a second symbol, and the token of a literal can be read.
pub open spec fn ast_ok_in(tab: Seq<(Seq<Seq<char>>, Decision, Seq<usize>)>, t: PTree) -> bool
    decreases t,
{
    match t.val {
        PVal::Term(_, _) => true,
        PVal::Rule(r) => {
            let k = find_from(tab, r, 0);
            if k < 0 || k >= tab.len() {
                true
            } else if tab[k].2.len() == 0 {
                false
            } else {
                let e = tab[k];
                let c = t.children;
                let i0 = e.2[0] as int;
                match e.1 {
                    Decision::Recur => i0 < c.len() && ast_ok_in(tab, c[i0]),
                    Decision::AND => {
                        e.2.len() >= 2 && i0 < c.len() && (e.2[1] as int) < c.len() && ast_ok_in(tab, c[i0])
                            && ast_ok_in(tab, c[e.2[1] as int]) && ast_in(tab, c[i0]) is Some && ast_in(
                            tab,
                            c[e.2[1] as int],
                        ) is Some
                    },
                    Decision::OR => {
                        e.2.len() >= 2 && i0 < c.len() && (e.2[1] as int) < c.len() && ast_ok_in(tab, c[i0])
                            && ast_ok_in(tab, c[e.2[1] as int]) && ast_in(tab, c[i0]) is Some && ast_in(
                            tab,
                            c[e.2[1] as int],
                        ) is Some
                    },
                    Decision::Term => i0 < c.len() && e.0.len() >= 2 && (c[i0].val matches PVal::Rule(w)
                        ==> w.len() > 0),
                }
            }
        },
    }
}

/// The formula of a parse tree under the grammar's rule table.
pub open spec fn ast_of(t: PTree) -> Option<Formula> {
    ast_in(rule_table(), t)
}

/// Whether converting a parse tree under the grammar's rule table finishes
/// without a failure.
pub open spec fn ast_ok(t: PTree) -> bool {
    ast_ok_in(rule_table(), t)
}

/// The value of an optional formula.
pub open spec fn opt_view(o: Option<Connective>) -> Option<Formula> {
    match o {
        Some(c) => Some(c@),
        None => None,
    }
}

/// Whether two sequences of strings have the same characters.
fn vec_equal(v1: &Vec<String>, v2: &Vec<String>) -> (r: bool)
    ensures
        r == (strs(v1@) == strs(v2@)),
{
    if v1.len() != v2.len() {
        return false;
    }
    let mut i: usize = 0;
    while i < v1.len()
        invariant
            i <= v1.len(),
            v1.len() == v2.len(),
            forall|j: int| 0 <= j < i ==> strs(v1@)[j] == strs(v2@)[j],
        decreases v1.len() - i,
    {
        if v1[i] != v2[i] {
            assert(strs(v1@)[i as int] != strs(v2@)[i as int]);
            return false;
        }
        i = i + 1;
    }
    assert(strs(v1@) =~= strs(v2@));
    true
}

/// The strings of the string slices, in order.
fn str_to_string(vec: &Vec<&str>) -> (r: Vec<String>)
    ensures
        strs(r@) == vec@.map_values(|s: &str| s@),
{
    let mut out: Vec<String> = Vec::new();
    let mut i: usize = 0;
    while i < vec.len()
        invariant
            i <= vec.len(),
            strs(out@) == vec@.map_values(|s: &str| s@).take(i as int),
        decreases vec.len() - i,
    {
        let mut s = String::new();
        append_str(&mut s, vec[i]);
        let ghost before = out@;
        out.push(s);
        assert(strs(out@) =~= strs(before).push(vec@[i as int]@));
        i = i + 1;
    }
    out
}

fn entry(words: Vec<&str>, d: Decision, ix: Vec<usize>) -> (r: (Vec<String>, Decision, Vec<usize>))
    ensures
        entry_view(r) == (words@.map_values(|s: &str| s@), d, ix@),
{
    (str_to_string(&words), d, ix)
}

/// The rule table.
fn make_rule_vec() -> (v: Vec<(Vec<String>, Decision, Vec<usize>)>)
    ensures
        table_view(v@) == rule_table(),
{
    let mut v: Vec<(Vec<String>, Decision, Vec<usize>)> = Vec::new();
    let w = vec!["S", "BOF", "expr", "EOF"];
    let e = entry(w, Decision::Recur, vec![1]);
    v.push(e);
    let w = vec!["expr", "term"];
    let e = entry(w, Decision::Recur, vec![0]);
    v.push(e);
    let w = vec!["expr", "term", "AND", "expr"];
    let e = entry(w, Decision::AND, vec![2, 0]);
    v.push(e);
    let w = vec!["term", "pred"];
    let e = entry(w, Decision::Recur, vec![0]);
    v.push(e);
    let w = vec!["term", "LPAREN", "disj", "RPAREN"];
    let e = entry(w, Decision::Recur, vec![1]);
    v.push(e);
    let w = vec!["disj", "pred"];
    let e = entry(w, Decision::Recur, vec![0]);
    v.push(e);
    let w = vec!["disj", "pred", "OR", "disj"];
    let e = entry(w, Decision::OR, vec![2, 0]);
    v.push(e);
    let w = vec!["pred", "NOT", "LIT"];
    let e = entry(w, Decision::Term, vec![0]);
    v.push(e);
    let w = vec!["pred", "LIT"];
    let e = entry(w, Decision::Term, vec![0]);
    v.push(e);
    assert(forall|i: int| 0 <= i < 9 ==> table_view(v@)[i] == rule_table()[i]);
    v
}

/// The position of the first entry for `rule` in the table.
fn rule_cntv(rule: &Vec<String>, vecs: &Vec<(Vec<String>, Decision, Vec<usize>)>) -> (r: Option<usize>)
    ensures
        match r {
            Some(k) => k == find_from(table_view(vecs@), strs(rule@), 0) && k < vecs.len(),
            None => find_from(table_view(vecs@), strs(rule@), 0) == -1,
        },
{
    let ghost tab = table_view(vecs@);
    let mut i: usize = 0;
    while i < vecs.len()
        invariant
            i <= vecs.len(),
            tab == table_view(vecs@),
            tab.len() == vecs.len(),
            find_from(tab, strs(rule@), 0) == find_from(tab, strs(rule@), i as int),
        decreases vecs.len() - i,
    {
        if vec_equal(rule, &vecs[i].0) {
            return Some(i);
        }
        i = i + 1;
    }
    None
}

/// Converts a parse tree; `None` where conversion would fail (see `ast_ok`),
/// otherwise the formula it gives, if any.
fn make_ast_helper(node: &ParseNode, vec: &Vec<(Vec<String>, Decision, Vec<usize>)>) -> (r: Option<Option<Connective>>)
    ensures
        match r {
            None => !ast_ok_in(table_view(vec@), node@),
            Some(o) => ast_ok_in(table_view(vec@), node@) && opt_view(o) == ast_in(table_view(vec@), node@),
        },
    decreases node,
{
    match &node.0 {
        ParseVal::Rule(rule) => {
            let k = match rule_cntv(rule, vec) {
                Some(k) => k,
                None => {
                    return Some(None);
                },
            };
            let thrup = &vec[k];
            let ghost c = view_nodes(node.1@);
            if thrup.2.len() == 0 {
                return None;
            }
            match thrup.1 {
                Decision::Recur => {
                    let i0 = thrup.2[0];
                    if i0 >= node.1.len() {
                        return None;
                    }
                    make_ast_helper(&node.1[i0], vec)
                },
                Decision::AND => {
                    if thrup.2.len() < 2 {
                        return None;
                    }
                    let i0 = thrup.2[0];
                    let i1 = thrup.2[1];
                    if i0 >= node.1.len() || i1 >= node.1.len() {
                        return None;
                    }
                    let a = match make_ast_helper(&node.1[i0], vec) {
                        Some(Some(a)) => a,
                        _ => {
                            return None;
                        },
                    };
                    let b = match make_ast_helper(&node.1[i1], vec) {
                        Some(Some(b)) => b,
                        _ => {
                            return None;
                        },
                    };
                    let r = Connective::And(vec![a, b]);
                    assert(view_seq(seq![a, b]) =~= seq![a@, b@]);
                    Some(Some(r))
                },
                Decision::OR => {
                    if thrup.2.len() < 2 {
                        return None;
                    }
                    let i0 = thrup.2[0];
                    let i1 = thrup.2[1];
                    if i0 >= node.1.len() || i1 >= node.1.len() {
                        return None;
                    }
                    let a = match make_ast_helper(&node.1[i0], vec) {
                        Some(Some(a)) => a,
                        _ => {
                            return None;
                        },
                    };
                    let b = match make_ast_helper(&node.1[i1], vec) {
                        Some(Some(b)) => b,
                        _ => {
                            return None;
                        },
                    };
                    let r = Connective::Or(vec![a, b]);
                    assert(view_seq(seq![a, b]) =~= seq![a@, b@]);
                    Some(Some(r))
                },
                Decision::Term => {
                    let i0 = thrup.2[0];
                    if i0 >= node.1.len() {
                        return None;
                    }
                    let child = &node.1[i0];
                    let named = match &child.0 {
                        ParseVal::Rule(w) => w.len() > 0,
                        ParseVal::Term(_) => true,
                    };
                    if !named || thrup.0.len() < 2 {
                        return None;
                    }
                    let mut not_s = String::new();
                    append_str(&mut not_s, "NOT");
                    if thrup.0[1] == not_s {
                        return Some(Some(Connective::Literal(true, get_token(child))));
                    } else {
                        return Some(Some(Connective::Literal(false, get_token(child))));
                    }
                },
            }
        },
        ParseVal::Term(_) => Some(None),
    }
}

/// The formula of a parse tree (see `ast_of`), where it has one.
pub fn make_ast(node: &ParseNode) -> (r: Option<Connective>)
    requires
        ast_ok(node@),
    ensures
        opt_view(r) == ast_of(node@),
{
    let rule_table = make_rule_vec();
    match make_ast_helper(node, &rule_table) {
        Some(o) => o,
        None => None,
    }
}

/// The formula of a parse tree, or `None` where converting it would fail
/// (where `make_ast` may not be called): `Some` of what `make_ast` gives.
pub fn try_make_ast(node: &ParseNode) -> (r: Option<Option<Connective>>)
    ensures
        match r {
            None => !ast_ok(node@),
            Some(o) => ast_ok(node@) && opt_view(o) == ast_of(node@),
        },
{
    let rule_table = make_rule_vec();
    make_ast_helper(node, &rule_table)
}

/// The flattened formula: the parts of a conjunction that are (once
/// flattened) conjunctions are replaced by their parts, and likewise for
/// disjunctions; literals stay.
pub open spec fn simplify(f: Formula) -> Formula
    decreases f,
{
    match f {
        Formula::And(s) => Formula::And(flatten_and(s)),
        Formula::Or(s) => Formula::Or(flatten_or(s)),
        Formula::Lit(n, x) => Formula::Lit(n, x),
    }
}

/// The flattened parts of a conjunction.
pub open spec fn flatten_and(s: Seq<Formula>) -> Seq<Formula>
    decreases s,
{
    if s.len() == 0 {
        Seq::empty()
    } else {
        let r = flatten_and(s.drop_last());
        match simplify(s.last()) {
            Formula::And(inn) => r + inn,
            other => r.push(other),
        }
    }
}

/// The flattened parts of a disjunction.
pub open spec fn flatten_or(s: Seq<Formula>) -> Seq<Formula>
    decreases s,
{
    if s.len() == 0 {
        Seq::empty()
    } else {
        let r = flatten_or(s.drop_last());
        match simplify(s.last()) {
            Formula::Or(inn) => r + inn,
            other => r.push(other),
        }
    }
}

/// Flattens nested conjunctions and disjunctions (see `simplify`):
/// `a and b and c` parses to `And([a, And([b, c])])` and becomes
/// `And([a, b, c])`.
pub fn simplify_ast(node: &Connective) -> (r: Connective)
    ensures
        r@ == simplify(node@),
    decreases node,
{
    match node {
        Connective::And(vec) => simplify_children(vec, true),
        Connective::Or(vec) => simplify_children(vec, false),
        Connective::Literal(is_not, lex) => Connective::Literal(*is_not, lex.clone()),
    }
}

/// The flattened conjunction (`and`) or disjunction of the parts `vec`.
fn simplify_children(vec: &Vec<Connective>, and: bool) -> (r: Connective)
    ensures
        r@ == (if and {
            Formula::And(flatten_and(view_seq(vec@)))
        } else {
            Formula::Or(flatten_or(view_seq(vec@)))
        }),
    decreases vec,
{
    let ghost items = view_seq(vec@);
    let ghost flat = |s: Seq<Formula>| if and { flatten_and(s) } else { flatten_or(s) };
    let ghost wrap = |s: Seq<Formula>| if and { Formula::And(s) } else { Formula::Or(s) };
    let mut conn: Connective = if and { Connective::And(Vec::new()) } else { Connective::Or(Vec::new()) };
    let mut i: usize = 0;
    while i < vec.len()
        invariant
            i <= vec.len(),
            items == view_seq(vec@),
            items.len() == vec.len(),
            flat == (|s: Seq<Formula>| if and { flatten_and(s) } else { flatten_or(s) }),
            wrap == (|s: Seq<Formula>| if and { Formula::And(s) } else { Formula::Or(s) }),
            conn@ == wrap(flat(items.take(i as int))),
        decreases vec.len() - i,
    {
        assert(items.take(i + 1).drop_last() =~= items.take(i as int));
        let simpl: Connective = simplify_ast(&vec[i]);
        let ghost r0 = flat(items.take(i as int));
        let same_kind = match &simpl {
            Connective::And(_) => and,
            Connective::Or(_) => !and,
            Connective::Literal(_, _) => false,
        };
        if same_kind {
            let inn_vec = match &simpl {
                Connective::And(v) => v,
                Connective::Or(v) => v,
                Connective::Literal(_, _) => vec,
            };
            let ghost inn = view_seq(inn_vec@);
            let mut j: usize = 0;
            while j < inn_vec.len()
                invariant
                    j <= inn_vec.len(),
                    inn == view_seq(inn_vec@),
                    inn.len() == inn_vec.len(),
                    wrap == (|s: Seq<Formula>| if and { Formula::And(s) } else { Formula::Or(s) }),
                    conn@ == wrap(r0 + inn.take(j as int)),
                decreases inn_vec.len() - j,
            {
                conn.add(&inn_vec[j]);
                assert((r0 + inn.take(j as int)).push(inn[j as int]) =~= r0 + inn.take(j + 1));
                j = j + 1;
            }
            assert(inn.take(inn_vec.len() as int) =~= inn);
        } else {
            conn.add(&simpl);
        }
        i = i + 1;
    }
    assert(items.take(vec.len() as int) =~= items);
    conn
}

/// Whether no conjunction has a conjunction as a part and no disjunction a
/// disjunction, at any depth.
pub open spec fn flat(f: Formula) -> bool
    decreases f,
{
    match f {
        Formula::And(s) => flat_and_seq(s),
        Formula::Or(s) => flat_or_seq(s),
        Formula::Lit(_, _) => true,
    }
}

/// Whether each part is flat and no conjunction.
pub open spec fn flat_and_seq(s: Seq<Formula>) -> bool
    decreases s,
{
    s.len() == 0 || (flat_and_seq(s.drop_last()) && !(s.last() is And) && flat(s.last()))
}

/// Whether each part is flat and no disjunction.
pub open spec fn flat_or_seq(s: Seq<Formula>) -> bool
    decreases s,
{
    s.len() == 0 || (flat_or_seq(s.drop_last()) && !(s.last() is Or) && flat(s.last()))
}

proof fn lemma_flat_and_concat(a: Seq<Formula>, b: Seq<Formula>)
    ensures
        flat_and_seq(a + b) == (flat_and_seq(a) && flat_and_seq(b)),
    decreases b.len(),
{
    if b.len() > 0 {
        lemma_flat_and_concat(a, b.drop_last());
        assert((a + b).drop_last() =~= a + b.drop_last());
    }
}

proof fn lemma_flat_or_concat(a: Seq<Formula>, b: Seq<Formula>)
    ensures
        flat_or_seq(a + b) == (flat_or_seq(a) && flat_or_seq(b)),
    decreases b.len(),
{
    if b.len() > 0 {
        lemma_flat_or_concat(a, b.drop_last());
        assert((a + b).drop_last() =~= a + b.drop_last());
    }
}

/// Flattening leaves no conjunction directly inside a conjunction and no
/// disjunction directly inside a disjunction, at any depth.
pub proof fn law_simplify_flat(f: Formula)
    ensures
        flat(simplify(f)),
    decreases f,
{
    match f {
        Formula::And(s) => lemma_flatten_and_flat(s),
        Formula::Or(s) => lemma_flatten_or_flat(s),
        Formula::Lit(_, _) => {},
    }
}

proof fn lemma_flatten_and_flat(s: Seq<Formula>)
    ensures
        flat_and_seq(flatten_and(s)),
    decreases s,
{
    if s.len() > 0 {
        lemma_flatten_and_flat(s.drop_last());
        law_simplify_flat(s.last());
        let r = flatten_and(s.drop_last());
        match simplify(s.last()) {
            Formula::And(inn) => {
                lemma_flat_and_concat(r, inn);
            },
            other => {
                assert(r.push(other).drop_last() =~= r);
            },
        }
    }
}

proof fn lemma_flatten_or_flat(s: Seq<Formula>)
    ensures
        flat_or_seq(flatten_or(s)),
    decreases s,
{
    if s.len() > 0 {
        lemma_flatten_or_flat(s.drop_last());
        law_simplify_flat(s.last());
        let r = flatten_or(s.drop_last());
        match simplify(s.last()) {
            Formula::Or(inn) => {
                lemma_flat_or_concat(r, inn);
            },
            other => {
                assert(r.push(other).drop_last() =~= r);
            },
        }
    }
}

/// A flat formula is left as it is.
pub proof fn law_simplify_keeps_flat(f: Formula)
    requires
        flat(f),
    ensures
        simplify(f) == f,
    decreases f,
{
    match f {
        Formula::And(s) => lemma_flatten_and_keeps(s),
        Formula::Or(s) => lemma_flatten_or_keeps(s),
        Formula::Lit(_, _) => {},
    }
}

proof fn lemma_flatten_and_keeps(s: Seq<Formula>)
    requires
        flat_and_seq(s),
    ensures
        flatten_and(s) == s,
    decreases s,
{
    if s.len() > 0 {
        lemma_flatten_and_keeps(s.drop_last());
        law_simplify_keeps_flat(s.last());
    }
}

proof fn lemma_flatten_or_keeps(s: Seq<Formula>)
    requires
        flat_or_seq(s),
    ensures
        flatten_or(s) == s,
    decreases s,
{
    if s.len() > 0 {
        lemma_flatten_or_keeps(s.drop_last());
        law_simplify_keeps_flat(s.last());
    }
}

/// Flattening twice is flattening once.
pub proof fn law_simplify_idempotent(f: Formula)
    ensures
        simplify(simplify(f)) == simplify(f),
{
    law_simplify_flat(f);
    law_simplify_keeps_flat(simplify(f));
}

/// Whether a formula holds under an assignment: a conjunction when all its
/// parts hold, a disjunction when one does, a literal as its sign says.
pub open spec fn holds(a: Assignment, f: Formula) -> bool
    decreases f,
{
    match f {
        Formula::And(s) => all_of(a, s),
        Formula::Or(s) => any_of(a, s),
        Formula::Lit(n, x) => a(x) != n,
    }
}

/// Whether every formula of `s` holds.
pub open spec fn all_of(a: Assignment, s: Seq<Formula>) -> bool
    decreases s,
{
    s.len() == 0 || (all_of(a, s.drop_last()) && holds(a, s.last()))
}

/// Whether some formula of `s` holds.
pub open spec fn any_of(a: Assignment, s: Seq<Formula>) -> bool
    decreases s,
{
    s.len() > 0 && (any_of(a, s.drop_last()) || holds(a, s.last()))
}

proof fn lemma_all_of_concat(a: Assignment, p: Seq<Formula>, q: Seq<Formula>)
    ensures
        all_of(a, p + q) == (all_of(a, p) && all_of(a, q)),
    decreases q.len(),
{
    if q.len() > 0 {
        lemma_all_of_concat(a, p, q.drop_last());
        assert((p + q).drop_last() =~= p + q.drop_last());
    }
}

proof fn lemma_any_of_concat(a: Assignment, p: Seq<Formula>, q: Seq<Formula>)
    ensures
        any_of(a, p + q) == (any_of(a, p) || any_of(a, q)),
    decreases q.len(),
{
    if q.len() > 0 {
        lemma_any_of_concat(a, p, q.drop_last());
        assert((p + q).drop_last() =~= p + q.drop_last());
    }
}

/// Flattening does not change when a formula holds.
pub proof fn law_simplify_equivalent(a: Assignment, f: Formula)
    ensures
        holds(a, simplify(f)) == holds(a, f),
    decreases f,
{
    match f {
        Formula::And(s) => lemma_flatten_and_equivalent(a, s),
        Formula::Or(s) => lemma_flatten_or_equivalent(a, s),
        Formula::Lit(_, _) => {},
    }
}

proof fn lemma_flatten_and_equivalent(a: Assignment, s: Seq<Formula>)
    ensures
        all_of(a, flatten_and(s)) == all_of(a, s),
    decreases s,
{
    if s.len() > 0 {
        lemma_flatten_and_equivalent(a, s.drop_last());
        law_simplify_equivalent(a, s.last());
        let r = flatten_and(s.drop_last());
        match simplify(s.last()) {
            Formula::And(inn) => {
                lemma_all_of_concat(a, r, inn);
            },
            other => {
                assert(r.push(other).drop_last() =~= r);
            },
        }
    }
}

proof fn lemma_flatten_or_equivalent(a: Assignment, s: Seq<Formula>)
    ensures
        any_of(a, flatten_or(s)) == any_of(a, s),
    decreases s,
{
    if s.len() > 0 {
        lemma_flatten_or_equivalent(a, s.drop_last());
        law_simplify_equivalent(a, s.last());
        let r = flatten_or(s.drop_last());
        match simplify(s.last()) {
            Formula::Or(inn) => {
                lemma_any_of_concat(a, r, inn);
            },
            other => {
                assert(r.push(other).drop_last() =~= r);
            },
        }
    }
}

} // verus!
