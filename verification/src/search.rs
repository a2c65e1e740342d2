//! What the search works with: the three-valued value of a formula under a
//! map in which some names are still undecided, the clauses of a formula,
//! unit clauses, pure literals, and the map that lists every name undecided.

use vstd::prelude::*;
use crate::formula::Formula;
use crate::valuation::{
    Bv, VMap, idx, has, value_at, assign, distinct, count_und, first_und, lemma_idx, lemma_idx_distinct,
    lemma_assign, lemma_assign_refines, lemma_refines_count, lemma_count_le, lemma_first_und,
};

verus! {

/// The answer of the search.
#[derive(Clone, Copy, Debug, PartialEq, Eq, Structural)]
pub enum Res {
    SAT,
    UNSAT,
}

/// The value of a formula under a map that may leave names undecided: true,
/// false, or not yet known.
#[derive(Clone, Copy, Debug, PartialEq, Eq, Structural)]
pub enum V3 {
    T,
    F,
    U,
}

/// The value that makes a literal with this sign true.
pub open spec fn value_of(negated: bool) -> Bv {
    if negated { Bv::FALSE } else { Bv::TRUE }
}

/// `m` with a literal made true; anything else leaves `m` as it is.
pub open spec fn set_lit(m: VMap, f: Formula) -> VMap {
    match f {
        Formula::Lit(n, x) => assign(m, x, value_of(n)),
        _ => m,
    }
}

/// `m` with a literal's name undecided; anything else leaves `m` as it is.
pub open spec fn unset_lit(m: VMap, f: Formula) -> VMap {
    match f {
        Formula::Lit(_, x) => assign(m, x, Bv::UND),
        _ => m,
    }
}

/// Whether `f` is a literal that `m` makes true.
pub open spec fn eval_lit(m: VMap, f: Formula) -> bool {
    match f {
        Formula::Lit(n, x) => (!n && value_at(m, x) == Bv::TRUE) || (n && value_at(m, x) == Bv::FALSE),
        _ => false,
    }
}

/// Whether `f` is a literal whose name `m` leaves undecided.
pub open spec fn und_lit(m: VMap, f: Formula) -> bool {
    match f {
        Formula::Lit(_, x) => value_at(m, x) == Bv::UND,
        _ => false,
    }
}

/// The value of the literal `(n, x)` under `m`: not known where `x` has no
/// entry or an undecided one.
pub open spec fn lit3(m: VMap, n: bool, x: Seq<char>) -> V3 {
    if has(m, x) && value_at(m, x) != Bv::UND {
        if value_at(m, x) == value_of(n) {
            V3::T
        } else {
            V3::F
        }
    } else {
        V3::U
    }
}

/// Conjunction of two three-valued values.
pub open spec fn and_v(a: V3, b: V3) -> V3 {
    if a == V3::F || b == V3::F {
        V3::F
    } else if a == V3::T && b == V3::T {
        V3::T
    } else {
        V3::U
    }
}

/// Disjunction of two three-valued values.
pub open spec fn or_v(a: V3, b: V3) -> V3 {
    if a == V3::T || b == V3::T {
        V3::T
    } else if a == V3::F && b == V3::F {
        V3::F
    } else {
        V3::U
    }
}

/// The value of `f` under `m`.
pub open spec fn val3(m: VMap, f: Formula) -> V3
    decreases f,
{
    match f {
        Formula::And(s) => and3(m, s),
        Formula::Or(s) => or3(m, s),
        Formula::Lit(n, x) => lit3(m, n, x),
    }
}

/// The value of the conjunction of `s` under `m`.
pub open spec fn and3(m: VMap, s: Seq<Formula>) -> V3
    decreases s,
{
    if s.len() == 0 {
        V3::T
    } else {
        and_v(and3(m, s.drop_last()), val3(m, s.last()))
    }
}

/// The value of the disjunction of `s` under `m`.
pub open spec fn or3(m: VMap, s: Seq<Formula>) -> V3
    decreases s,
{
    if s.len() == 0 {
        V3::F
    } else {
        or_v(or3(m, s.drop_last()), val3(m, s.last()))
    }
}

/// Whether `m` makes `f` true: whatever value the undecided names take.
pub open spec fn made_true(m: VMap, f: Formula) -> bool {
    val3(m, f) == V3::T
}

/// The clauses of a formula: the parts of a conjunction, or the formula
/// itself.
pub open spec fn clause_list(f: Formula) -> Seq<Formula> {
    match f {
        Formula::And(s) => s,
        _ => seq![f],
    }
}

/// Whether every literal name in `f`, at any depth, has an entry in `m`.
pub open spec fn known(f: Formula, m: VMap) -> bool
    decreases f,
{
    match f {
        Formula::And(s) => known_seq(s, m),
        Formula::Or(s) => known_seq(s, m),
        Formula::Lit(_, x) => has(m, x),
    }
}

/// `known` for every formula of `s`.
pub open spec fn known_seq(s: Seq<Formula>, m: VMap) -> bool
    decreases s,
{
    s.len() == 0 || (known_seq(s.drop_last(), m) && known(s.last(), m))
}

/// Whether clause `c` is unit under `m` with the literal `(n, x)`: it is that
/// literal, undecided, or a disjunction in which that literal is undecided
/// and every other part is false.
pub open spec fn unit_lit(m: VMap, c: Formula, n: bool, x: Seq<char>) -> bool {
    &&& has(m, x)
    &&& value_at(m, x) == Bv::UND
    &&& (c == Formula::Lit(n, x) || (c matches Formula::Or(s) && exists|j: int|
        0 <= j < s.len() && s[j] == Formula::Lit(n, x) && (forall|k: int|
            0 <= k < s.len() && k != j ==> #[trigger] val3(m, s[k]) == V3::F)))
}

/// Whether some clause of `f` is unit under `m` with the literal `(n, x)`.
pub open spec fn has_unit(m: VMap, f: Formula, n: bool, x: Seq<char>) -> bool {
    exists|i: int| 0 <= i < clause_list(f).len() && unit_lit(m, #[trigger] clause_list(f)[i], n, x)
}

/// Whether `c` is a literal or a disjunction of literals.
pub open spec fn flat_clause(c: Formula) -> bool {
    c is Lit || (c matches Formula::Or(s) && forall|j: int| 0 <= j < s.len() ==> #[trigger] s[j] is Lit)
}

/// Whether the literal `(n, x)` is `c` or a part of `c`.
pub open spec fn occurs(c: Formula, n: bool, x: Seq<char>) -> bool {
    c == Formula::Lit(n, x) || (c matches Formula::Or(s) && exists|j: int|
        0 <= j < s.len() && s[j] == Formula::Lit(n, x))
}

/// Whether the literal `(n, x)` is pure in `f` under `m`: `x` is undecided,
/// and every clause that `m` does not yet make true is a literal or a
/// disjunction of literals in which `x` never has the other sign.
pub open spec fn pure_lit(m: VMap, f: Formula, n: bool, x: Seq<char>) -> bool {
    &&& has(m, x)
    &&& value_at(m, x) == Bv::UND
    &&& forall|i: int|
        0 <= i < clause_list(f).len() && val3(m, #[trigger] clause_list(f)[i]) != V3::T ==> flat_clause(
            clause_list(f)[i],
        ) && !occurs(clause_list(f)[i], !n, x)
}

/// Whether `b` lists the names of `a` in the same order, with every value
/// that `a` decides.
pub open spec fn agrees(a: VMap, b: VMap) -> bool {
    &&& a.len() == b.len()
    &&& forall|i: int| 0 <= i < a.len() ==> (#[trigger] b[i]).0 == a[i].0
    &&& forall|i: int| 0 <= i < a.len() && a[i].1 != Bv::UND ==> (#[trigger] b[i]).1 == a[i].1
}

/// The number of parts of `s` that `m` does not make false.
pub open spec fn open_count(m: VMap, s: Seq<Formula>) -> nat
    decreases s.len(),
{
    if s.len() == 0 {
        0
    } else {
        open_count(m, s.drop_last()) + (if val3(m, s.last()) != V3::F { 1nat } else { 0nat })
    }
}

/// The position of the first part of `s` that `m` does not make false, or
/// -1.
pub open spec fn first_open(m: VMap, s: Seq<Formula>) -> int
    decreases s.len(),
{
    if s.len() == 0 {
        -1
    } else {
        let k = first_open(m, s.drop_last());
        if k >= 0 {
            k
        } else if val3(m, s.last()) != V3::F {
            s.len() - 1
        } else {
            -1
        }
    }
}

/// The literal with which clause `c` is unit under `m`: `c` is that literal,
/// undecided, or a disjunction of which that literal, undecided, is the one
/// part that `m` does not make false.
pub open spec fn unit_of(m: VMap, c: Formula) -> Option<(bool, Seq<char>)> {
    match c {
        Formula::Lit(n, x) => if has(m, x) && value_at(m, x) == Bv::UND { Some((n, x)) } else { None },
        Formula::Or(s) => if open_count(m, s) == 1 {
            match s[first_open(m, s)] {
                Formula::Lit(n, x) => if has(m, x) && value_at(m, x) == Bv::UND { Some((n, x)) } else { None },
                _ => None,
            }
        } else {
            None
        },
        Formula::And(_) => None,
    }
}

/// One clause of unit propagation: a clause that `m` makes false is a clash
/// (`true`); a unit clause's literal is made true; any other clause leaves
/// `m` as it is.
pub open spec fn unit_step(m: VMap, c: Formula) -> (bool, VMap) {
    if val3(m, c) == V3::F {
        (true, m)
    } else {
        match unit_of(m, c) {
            Some(u) => (false, assign(m, u.1, value_of(u.0))),
            None => (false, m),
        }
    }
}

/// Unit propagation over the clauses `cl`, in order, starting from `m`: a
/// unit clause's literal is made true; a clause that the map so far makes
/// false stops the pass with a clash (`true`).
pub open spec fn unit_pass(m: VMap, cl: Seq<Formula>) -> (bool, VMap)
    decreases cl.len(),
{
    if cl.len() == 0 {
        (false, m)
    } else {
        let p = unit_pass(m, cl.drop_last());
        if p.0 {
            p
        } else {
            unit_step(p.1, cl.last())
        }
    }
}

/// `m` with each literal of `s` that is pure in `f` under `m1` made true.
pub open spec fn pure_lits(m1: VMap, f: Formula, s: Seq<Formula>, m: VMap) -> VMap
    decreases s.len(),
{
    if s.len() == 0 {
        m
    } else {
        let m0 = pure_lits(m1, f, s.drop_last(), m);
        match s.last() {
            Formula::Lit(n, x) => if pure_lit(m1, f, n, x) { assign(m0, x, value_of(n)) } else { m0 },
            _ => m0,
        }
    }
}

/// The literals of a clause: the clause itself, or the parts of a
/// disjunction.
pub open spec fn clause_lits(c: Formula) -> Seq<Formula> {
    match c {
        Formula::Or(s) => s,
        Formula::Lit(_, _) => seq![c],
        Formula::And(_) => Seq::empty(),
    }
}

/// `m` with every literal of clause `c`, where `m1` does not make `c` true,
/// made true where it is pure in `f` under `m1`.
pub open spec fn pure_clause(m1: VMap, f: Formula, c: Formula, m: VMap) -> VMap {
    if val3(m1, c) != V3::T {
        pure_lits(m1, f, clause_lits(c), m)
    } else {
        m
    }
}

/// Pure literal elimination: `m` with every literal of the clauses `cl` that
/// `m1` does not make true made true where it is pure in `f` under `m1`.
pub open spec fn pure_pass(m1: VMap, f: Formula, cl: Seq<Formula>, m: VMap) -> VMap
    decreases cl.len(),
{
    if cl.len() == 0 {
        m
    } else {
        pure_clause(m1, f, cl.last(), pure_pass(m1, f, cl.drop_last(), m))
    }
}

/// The map after one round of simplification of `f` from `m`: unit
/// propagation, then, where it meets no clash, pure literal elimination.
pub open spec fn simplified(f: Formula, m: VMap) -> (bool, VMap) {
    let up = unit_pass(m, clause_list(f));
    if up.0 {
        up
    } else {
        (false, pure_pass(up.1, f, clause_list(f), up.1))
    }
}

/// The search (DPLL) for values of the names that `m` leaves undecided under
/// which `f` holds. A formula that `m` makes true is satisfiable, one that it
/// makes false is not. Otherwise one round of unit propagation and pure
/// literal elimination is made; a clash is unsatisfiable; a formula that the
/// new map makes true or false is answered so; otherwise the first undecided
/// name is tried true, and where that fails, false.
pub open spec fn search(f: Formula, m: VMap) -> (Res, VMap)
    decreases count_und(m),
    when distinct(m)
    via search_decreases
{
    let v = val3(m, f);
    if v == V3::T {
        (Res::SAT, m)
    } else if v == V3::F {
        (Res::UNSAT, m)
    } else {
        let sp = simplified(f, m);
        let m2 = sp.1;
        if sp.0 {
            (Res::UNSAT, m2)
        } else if val3(m2, f) == V3::T {
            (Res::SAT, m2)
        } else if val3(m2, f) == V3::F {
            (Res::UNSAT, m2)
        } else {
            let i = first_und(m2);
            if i < 0 {
                (Res::SAT, m2)
            } else {
                let x = m2[i].0;
                let r1 = search(f, assign(m2, x, Bv::TRUE));
                if r1.0 == Res::SAT {
                    r1
                } else {
                    search(f, assign(m2, x, Bv::FALSE))
                }
            }
        }
    }
}

#[via_fn]
proof fn search_decreases(f: Formula, m: VMap) {
    let v = val3(m, f);
    if v != V3::T && v != V3::F {
        lemma_simplified(f, m);
        let m2 = simplified(f, m).1;
        let i = first_und(m2);
        lemma_first_und(m2);
        if i >= 0 {
            let x = m2[i].0;
            lemma_idx_distinct(m2, x, i);
            lemma_decide(m2, x, Bv::TRUE);
            lemma_decide(m2, x, Bv::FALSE);
            lemma_agrees_count(m, m2);
        }
    }
}

/// Deciding an undecided name keeps the names and the decided values, and
/// leaves fewer names undecided.
pub proof fn lemma_decide(m: VMap, x: Seq<char>, v: Bv)
    requires
        distinct(m),
        has(m, x),
        value_at(m, x) == Bv::UND,
        v != Bv::UND,
    ensures
        agrees(m, assign(m, x, v)),
        distinct(assign(m, x, v)),
        keeps_names(m, assign(m, x, v)),
        count_und(assign(m, x, v)) < count_und(m),
{
    lemma_assign(m, x, v);
    lemma_idx(m, x);
    lemma_assign_refines(m, x, v);
    let r = assign(m, x, v);
    lemma_refines_count(m, r);
}

/// A map that keeps the names and decided values of another has no more
/// undecided names.
pub proof fn lemma_agrees_count(a: VMap, b: VMap)
    requires
        agrees(a, b),
    ensures
        count_und(b) <= count_und(a),
{
    lemma_count_le(a, b);
}

pub proof fn lemma_agrees_trans(a: VMap, b: VMap, c: VMap)
    requires
        agrees(a, b),
        agrees(b, c),
    ensures
        agrees(a, c),
{
}

/// Maps of the same names in the same order find a name at the same place,
/// and have the same names.
pub proof fn lemma_agrees_idx(a: VMap, b: VMap, k: Seq<char>)
    requires
        agrees(a, b),
    ensures
        idx(a, k) == idx(b, k),
        has(a, k) == has(b, k),
    decreases a.len(),
{
    if a.len() > 0 {
        let a1 = a.drop_last();
        let b1 = b.drop_last();
        lemma_agrees_idx(a1, b1, k);
    }
}

/// Where `m` makes a name undecided, an assignment that keeps the names
/// and the decided values of `m` and gives that name a value still does.
proof fn lemma_assign_agrees(m: VMap, c: VMap, x: Seq<char>, v: Bv)
    requires
        agrees(m, c),
        distinct(c),
        has(m, x),
        value_at(m, x) == Bv::UND,
    ensures
        agrees(m, assign(c, x, v)),
        distinct(assign(c, x, v)),
{
    lemma_agrees_idx(m, c, x);
    lemma_idx(m, x);
    lemma_assign(c, x, v);
}

/// Unit propagation keeps the names and decided values, and the names
/// distinct.
pub proof fn lemma_unit_pass(m: VMap, cl: Seq<Formula>)
    requires
        distinct(m),
    ensures
        agrees(m, unit_pass(m, cl).1),
        distinct(unit_pass(m, cl).1),
    decreases cl.len(),
{
    if cl.len() > 0 {
        lemma_unit_pass(m, cl.drop_last());
        let p = unit_pass(m, cl.drop_last());
        if !p.0 && val3(p.1, cl.last()) != V3::F {
            if let Some(u) = unit_of(p.1, cl.last()) {
                lemma_decide(p.1, u.1, value_of(u.0));
                lemma_agrees_trans(m, p.1, assign(p.1, u.1, value_of(u.0)));
            }
        }
    }
}

pub proof fn lemma_pure_lits_agrees(m1: VMap, f: Formula, s: Seq<Formula>, m: VMap)
    requires
        agrees(m1, m),
        distinct(m),
    ensures
        agrees(m1, pure_lits(m1, f, s, m)),
        distinct(pure_lits(m1, f, s, m)),
    decreases s.len(),
{
    if s.len() > 0 {
        lemma_pure_lits_agrees(m1, f, s.drop_last(), m);
        let m0 = pure_lits(m1, f, s.drop_last(), m);
        if let Formula::Lit(n, x) = s.last() {
            if pure_lit(m1, f, n, x) {
                lemma_assign_agrees(m1, m0, x, value_of(n));
            }
        }
    }
}

/// Pure literal elimination keeps the names and the values that `m1`
/// decides, and the names distinct.
pub proof fn lemma_pure_pass(m1: VMap, f: Formula, cl: Seq<Formula>, m: VMap)
    requires
        agrees(m1, m),
        distinct(m),
    ensures
        agrees(m1, pure_pass(m1, f, cl, m)),
        distinct(pure_pass(m1, f, cl, m)),
    decreases cl.len(),
{
    if cl.len() > 0 {
        lemma_pure_pass(m1, f, cl.drop_last(), m);
        let m0 = pure_pass(m1, f, cl.drop_last(), m);
        lemma_pure_lits_agrees(m1, f, clause_lits(cl.last()), m0);
    }
}

/// A round of simplification keeps the names and decided values, and the
/// names distinct.
pub proof fn lemma_simplified(f: Formula, m: VMap)
    requires
        distinct(m),
    ensures
        agrees(m, simplified(f, m).1),
        distinct(simplified(f, m).1),
{
    lemma_unit_pass(m, clause_list(f));
    let up = unit_pass(m, clause_list(f));
    if !up.0 {
        lemma_pure_pass(up.1, f, clause_list(f), up.1);
        lemma_agrees_trans(m, up.1, pure_pass(up.1, f, clause_list(f), up.1));
    }
}

/// The answer of the search on a formula, and the map it ends with: every
/// literal's name is entered undecided; a disjunction whose first part is a
/// literal is satisfiable, that literal made true; any other formula is
/// searched.
pub open spec fn dpll_spec(f: Formula) -> (Res, VMap) {
    let m0 = collect(f, Seq::empty());
    match f {
        Formula::Or(v) => if v.len() > 0 && v[0] is Lit {
            (Res::SAT, set_lit(m0, v[0]))
        } else {
            search(f, m0)
        },
        _ => search(f, m0),
    }
}

/// The map that lists each literal's name undecided, in the order of the
/// literals' first occurrences, the formula taken depth first.
pub open spec fn collect(f: Formula, m: VMap) -> VMap
    decreases f,
{
    match f {
        Formula::And(v) => collect_seq(v, m),
        Formula::Or(v) => collect_seq(v, m),
        Formula::Lit(_, x) => assign(m, x, Bv::UND),
    }
}

/// `collect` over a sequence of formulas, in order.
pub open spec fn collect_seq(s: Seq<Formula>, m: VMap) -> VMap
    decreases s,
{
    if s.len() == 0 {
        m
    } else {
        collect(s.last(), collect_seq(s.drop_last(), m))
    }
}

/// Whether every name with an entry in `a` has one in `b`.
pub open spec fn keeps_names(a: VMap, b: VMap) -> bool {
    forall|x: Seq<char>| has(a, x) ==> #[trigger] has(b, x)
}

/// Whether every entry of `m` is undecided.
pub open spec fn all_undecided(m: VMap) -> bool {
    forall|i: int| 0 <= i < m.len() ==> (#[trigger] m[i]).1 == Bv::UND
}

pub proof fn lemma_known_keeps(f: Formula, a: VMap, b: VMap)
    requires
        known(f, a),
        keeps_names(a, b),
    ensures
        known(f, b),
    decreases f,
{
    match f {
        Formula::And(s) => lemma_known_seq_keeps(s, a, b),
        Formula::Or(s) => lemma_known_seq_keeps(s, a, b),
        Formula::Lit(_, x) => {},
    }
}

proof fn lemma_known_seq_keeps(s: Seq<Formula>, a: VMap, b: VMap)
    requires
        known_seq(s, a),
        keeps_names(a, b),
    ensures
        known_seq(s, b),
    decreases s,
{
    if s.len() > 0 {
        lemma_known_seq_keeps(s.drop_last(), a, b);
        lemma_known_keeps(s.last(), a, b);
    }
}

/// Collecting keeps names distinct and undecided, keeps the names there were,
/// and enters every literal name of the formula.
pub proof fn lemma_collect(f: Formula, m: VMap)
    requires
        distinct(m),
    ensures
        distinct(collect(f, m)),
        keeps_names(m, collect(f, m)),
        known(f, collect(f, m)),
        all_undecided(m) ==> all_undecided(collect(f, m)),
    decreases f,
{
    match f {
        Formula::Lit(_, x) => {
            lemma_assign(m, x, Bv::UND);
            let r = collect(f, m);
            lemma_idx(m, x);
            if all_undecided(m) {
                assert(forall|i: int| 0 <= i < r.len() ==> (#[trigger] r[i]).1 == Bv::UND);
            }
        },
        Formula::And(v) => {
            lemma_collect_seq(v, m);
        },
        Formula::Or(v) => {
            lemma_collect_seq(v, m);
        },
    }
}

pub proof fn lemma_collect_seq(s: Seq<Formula>, m: VMap)
    requires
        distinct(m),
    ensures
        distinct(collect_seq(s, m)),
        keeps_names(m, collect_seq(s, m)),
        known_seq(s, collect_seq(s, m)),
        all_undecided(m) ==> all_undecided(collect_seq(s, m)),
    decreases s,
{
    if s.len() > 0 {
        let pre = s.drop_last();
        lemma_collect_seq(pre, m);
        let m1 = collect_seq(pre, m);
        lemma_collect(s.last(), m1);
        lemma_known_seq_keeps(pre, m1, collect_seq(s, m));
    }
}

} // verus!
