//! What the values of formulas under maps mean for assignments of truth
//! values: a formula that a map makes true holds under every assignment that
//! agrees with the map, and each step of the search keeps a model wherever
//! there is one.

use vstd::prelude::*;
use crate::formula::Formula;
use crate::make_ast::{holds, all_of, any_of};
use crate::valuation::{Bv, VMap, idx, has, value_at, assign, distinct, lemma_idx, lemma_assign};
use crate::search::{
    Res, V3, value_of, val3, and3, or3, clause_list, known, known_seq, unit_lit, has_unit,
    flat_clause, occurs, pure_lit, agrees, open_count, first_open, unit_of, unit_pass,
    pure_lits, clause_lits, pure_pass, simplified, search, dpll_spec, collect, lemma_collect,
    keeps_names, lemma_decide, lemma_agrees_trans, lemma_agrees_idx, lemma_agrees_count,
    lemma_unit_pass, lemma_pure_pass, lemma_simplified, lemma_known_keeps,
};
use crate::valuation::{count_und, first_und, lemma_first_und, lemma_idx_distinct};

verus! {

/// An assignment of truth values to names.
pub type Assignment = spec_fn(Seq<char>) -> bool;

/// Whether some assignment makes `f` true.
pub open spec fn satisfiable(f: Formula) -> bool {
    exists|a: Assignment| holds(a, f)
}

/// Whether `a` gives every name that `m` decides the value `m` gives it.
pub open spec fn extends(a: Assignment, m: VMap) -> bool {
    forall|x: Seq<char>|
        has(m, x) && value_at(m, x) != Bv::UND ==> #[trigger] a(x) == (value_at(m, x) == Bv::TRUE)
}

/// Whether some assignment that agrees with `m` makes `f` true.
pub open spec fn sat_under(m: VMap, f: Formula) -> bool {
    exists|a: Assignment| extends(a, m) && holds(a, f)
}

/// The assignment that makes true exactly the names that `m` makes true.
pub open spec fn model_of(m: VMap) -> Assignment {
    |x: Seq<char>| value_at(m, x) == Bv::TRUE
}

pub proof fn lemma_all_of(a: Assignment, s: Seq<Formula>)
    ensures
        all_of(a, s) <==> forall|i: int| 0 <= i < s.len() ==> holds(a, #[trigger] s[i]),
    decreases s.len(),
{
    if s.len() > 0 {
        let p = s.drop_last();
        lemma_all_of(a, p);
        if all_of(a, s) {
            assert forall|i: int| 0 <= i < s.len() implies holds(a, #[trigger] s[i]) by {
                if i < s.len() - 1 {
                    assert(p[i] == s[i]);
                }
            }
        }
    }
}

pub proof fn lemma_any_of(a: Assignment, s: Seq<Formula>)
    ensures
        any_of(a, s) <==> exists|i: int| 0 <= i < s.len() && holds(a, #[trigger] s[i]),
    decreases s.len(),
{
    if s.len() > 0 {
        let p = s.drop_last();
        lemma_any_of(a, p);
        if exists|i: int| 0 <= i < s.len() && holds(a, #[trigger] s[i]) {
            let i = choose|i: int| 0 <= i < s.len() && holds(a, #[trigger] s[i]);
            if i < s.len() - 1 {
                assert(p[i] == s[i]);
            }
        }
    }
}

/// A formula holds exactly when each of its clauses does.
pub proof fn lemma_clauses(a: Assignment, f: Formula)
    ensures
        holds(a, f) <==> forall|i: int|
            0 <= i < clause_list(f).len() ==> holds(a, #[trigger] clause_list(f)[i]),
{
    match f {
        Formula::And(s) => lemma_all_of(a, s),
        _ => {
            assert(clause_list(f)[0] == f);
        },
    }
}

/// The conjunction of `s` is true under `m` exactly when every part is.
pub proof fn lemma_and3(m: VMap, s: Seq<Formula>)
    ensures
        (and3(m, s) == V3::T) <==> forall|i: int| 0 <= i < s.len() ==> #[trigger] val3(m, s[i]) == V3::T,
    decreases s.len(),
{
    if s.len() > 0 {
        let p = s.drop_last();
        lemma_and3(m, p);
        if forall|i: int| 0 <= i < s.len() ==> #[trigger] val3(m, s[i]) == V3::T {
            assert(val3(m, s[s.len() - 1]) == V3::T);
        }
        if and3(m, s) == V3::T {
            assert forall|i: int| 0 <= i < s.len() implies #[trigger] val3(m, s[i]) == V3::T by {
                if i < s.len() - 1 {
                    assert(p[i] == s[i]);
                }
            }
        }
    }
}

/// A formula is true under `m` exactly when each of its clauses is.
pub proof fn lemma_made_true_clauses(m: VMap, f: Formula)
    ensures
        (val3(m, f) == V3::T) <==> forall|i: int|
            0 <= i < clause_list(f).len() ==> #[trigger] val3(m, clause_list(f)[i]) == V3::T,
{
    match f {
        Formula::And(s) => lemma_and3(m, s),
        _ => {
            assert(clause_list(f)[0] == f);
        },
    }
}

/// What is true under `m` holds under every assignment that agrees with `m`;
/// what is false under `m` holds under none.
pub proof fn lemma_val3_sound(m: VMap, a: Assignment, f: Formula)
    requires
        extends(a, m),
    ensures
        val3(m, f) == V3::T ==> holds(a, f),
        val3(m, f) == V3::F ==> !holds(a, f),
    decreases f,
{
    match f {
        Formula::And(s) => lemma_and3_sound(m, a, s),
        Formula::Or(s) => lemma_or3_sound(m, a, s),
        Formula::Lit(_, _) => {},
    }
}

proof fn lemma_and3_sound(m: VMap, a: Assignment, s: Seq<Formula>)
    requires
        extends(a, m),
    ensures
        and3(m, s) == V3::T ==> all_of(a, s),
        and3(m, s) == V3::F ==> !all_of(a, s),
    decreases s,
{
    if s.len() > 0 {
        lemma_and3_sound(m, a, s.drop_last());
        lemma_val3_sound(m, a, s.last());
    }
}

proof fn lemma_or3_sound(m: VMap, a: Assignment, s: Seq<Formula>)
    requires
        extends(a, m),
    ensures
        or3(m, s) == V3::T ==> any_of(a, s),
        or3(m, s) == V3::F ==> !any_of(a, s),
    decreases s,
{
    if s.len() > 0 {
        lemma_or3_sound(m, a, s.drop_last());
        lemma_val3_sound(m, a, s.last());
    }
}

/// A formula whose value `m` does not yet know has a literal whose name `m`
/// leaves undecided.
pub proof fn lemma_val3_undecided(m: VMap, f: Formula)
    requires
        known(f, m),
        val3(m, f) == V3::U,
    ensures
        exists|x: Seq<char>| has(m, x) && value_at(m, x) == Bv::UND,
    decreases f,
{
    match f {
        Formula::And(s) => lemma_seq_undecided(m, s, true),
        Formula::Or(s) => lemma_seq_undecided(m, s, false),
        Formula::Lit(n, x) => {},
    }
}

proof fn lemma_seq_undecided(m: VMap, s: Seq<Formula>, conj: bool)
    requires
        known_seq(s, m),
        (if conj { and3(m, s) } else { or3(m, s) }) == V3::U,
    ensures
        exists|x: Seq<char>| has(m, x) && value_at(m, x) == Bv::UND,
    decreases s,
{
    if s.len() > 0 {
        let p = s.drop_last();
        if val3(m, s.last()) == V3::U {
            lemma_val3_undecided(m, s.last());
        } else {
            lemma_seq_undecided(m, p, conj);
        }
    }
}

/// Maps of the same names in the same order find a name at the same place.
pub proof fn lemma_same_idx(a: VMap, b: VMap, k: Seq<char>)
    requires
        a.len() == b.len(),
        forall|i: int| 0 <= i < a.len() ==> (#[trigger] b[i]).0 == a[i].0,
    ensures
        idx(a, k) == idx(b, k),
    decreases a.len(),
{
    if a.len() > 0 {
        lemma_same_idx(a.drop_last(), b.drop_last(), k);
    }
}

/// What agrees with a map that keeps the decided values of `m` agrees with
/// `m`.
pub proof fn lemma_agrees_extends(m: VMap, r: VMap, a: Assignment)
    requires
        agrees(m, r),
        extends(a, r),
    ensures
        extends(a, m),
{
    assert forall|x: Seq<char>| has(m, x) && value_at(m, x) != Bv::UND implies #[trigger] a(x) == (
    value_at(m, x) == Bv::TRUE) by {
        lemma_same_idx(m, r, x);
        lemma_idx(m, x);
    }
}

/// Deciding `x` as `a` has it keeps `a` in agreement.
pub proof fn lemma_assign_extends(a: Assignment, m: VMap, x: Seq<char>, v: Bv)
    requires
        extends(a, m),
        v != Bv::UND,
        a(x) == (v == Bv::TRUE),
    ensures
        extends(a, assign(m, x, v)),
{
    lemma_assign(m, x, v);
}

/// A model that agrees with `m` gives a unit clause's literal its sign.
pub proof fn lemma_unit_sound(m: VMap, f: Formula, n: bool, x: Seq<char>, a: Assignment)
    requires
        has_unit(m, f, n, x),
        extends(a, m),
        holds(a, f),
    ensures
        a(x) != n,
{
    let i = choose|i: int| 0 <= i < clause_list(f).len() && unit_lit(m, #[trigger] clause_list(f)[i], n, x);
    let c = clause_list(f)[i];
    lemma_clauses(a, f);
    if let Formula::Or(s) = c {
        if c != Formula::Lit(n, x) {
            let j = choose|j: int|
                0 <= j < s.len() && s[j] == Formula::Lit(n, x) && (forall|k: int|
                    0 <= k < s.len() && k != j ==> #[trigger] val3(m, s[k]) == V3::F);
            lemma_any_of(a, s);
            let k = choose|k: int| 0 <= k < s.len() && holds(a, #[trigger] s[k]);
            if k != j {
                lemma_val3_sound(m, a, s[k]);
            }
        }
    }
}

/// Every assignment that agrees with `m` agrees with `m` once `x` is
/// decided one way or the other.
pub proof fn lemma_branch(m: VMap, x: Seq<char>, a: Assignment)
    requires
        extends(a, m),
    ensures
        extends(a, assign(m, x, Bv::TRUE)) || extends(a, assign(m, x, Bv::FALSE)),
{
    if a(x) {
        lemma_assign_extends(a, m, x, Bv::TRUE);
    } else {
        lemma_assign_extends(a, m, x, Bv::FALSE);
    }
}

/// Whether the literal `(n, y)` is part of a clause of `f` that `m1` does
/// not make true.
pub open spec fn open_occ(m1: VMap, f: Formula, n: bool, y: Seq<char>) -> bool {
    exists|i: int|
        0 <= i < clause_list(f).len() && val3(m1, clause_list(f)[i]) != V3::T && occurs(
            #[trigger] clause_list(f)[i],
            n,
            y,
        )
}

/// Whether every name that `m2` decides and `m1` does not has the value of
/// a pure literal, under `m1`, that is part of a clause `m1` does not make
/// true.
pub open spec fn pure_set(m1: VMap, f: Formula, m2: VMap) -> bool {
    forall|y: Seq<char>|
        has(m2, y) && value_at(m2, y) != Bv::UND && !(has(m1, y) && value_at(m1, y) != Bv::UND) ==> {
            ||| pure_lit(m1, f, false, y) && #[trigger] value_at(m2, y) == Bv::TRUE && open_occ(m1, f, false, y)
            ||| pure_lit(m1, f, true, y) && value_at(m2, y) == Bv::FALSE && open_occ(m1, f, true, y)
        }
}

/// `a` with every name pure under `m1` given its pure sign.
pub open spec fn pure_model(a: Assignment, m1: VMap, f: Formula) -> Assignment {
    |y: Seq<char>|
        if pure_lit(m1, f, false, y) {
            true
        } else if pure_lit(m1, f, true, y) {
            false
        } else {
            a(y)
        }
}

pub proof fn lemma_open(m: VMap, s: Seq<Formula>)
    ensures
        -1 <= first_open(m, s) < s.len(),
        first_open(m, s) >= 0 ==> val3(m, s[first_open(m, s)]) != V3::F,
        (first_open(m, s) == -1) == (open_count(m, s) == 0),
        open_count(m, s) == 0 ==> forall|k: int| 0 <= k < s.len() ==> #[trigger] val3(m, s[k]) == V3::F,
        open_count(m, s) == 1 ==> forall|k: int|
            0 <= k < s.len() && k != first_open(m, s) ==> #[trigger] val3(m, s[k]) == V3::F,
        first_open(m, s) >= 0 ==> forall|k: int| 0 <= k < first_open(m, s) ==> #[trigger] val3(m, s[k]) == V3::F,
    decreases s.len(),
{
    if s.len() > 0 {
        let p = s.drop_last();
        lemma_open(m, p);
        assert forall|k: int| 0 <= k < p.len() implies p[k] == s[k] by {}
        let n = s.len() - 1;
    }
}

proof fn lemma_unit_of(m: VMap, c: Formula, n: bool, x: Seq<char>)
    requires
        unit_of(m, c) == Some((n, x)),
    ensures
        unit_lit(m, c, n, x),
{
    if let Formula::Or(s) = c {
        lemma_open(m, s);
    }
}

/// Unit propagation over the first `k` clauses of `f` keeps every model
/// that agrees with `m`, and clashes only where there is none.
proof fn lemma_unit_pass_models(m: VMap, f: Formula, k: int)
    requires
        0 <= k <= clause_list(f).len(),
        distinct(m),
    ensures
        forall|a: Assignment|
            extends(a, m) && holds(a, f) ==> #[trigger] extends(a, unit_pass(m, clause_list(f).take(k)).1),
        unit_pass(m, clause_list(f).take(k)).0 ==> !sat_under(m, f),
    decreases k,
{
    let cl = clause_list(f).take(k);
    if k > 0 {
        lemma_unit_pass_models(m, f, k - 1);
        assert(cl.drop_last() =~= clause_list(f).take(k - 1));
        let p = unit_pass(m, cl.drop_last());
        lemma_unit_pass(m, cl.drop_last());
        let c = clause_list(f)[k - 1];
        if !p.0 {
            if val3(p.1, c) == V3::F {
                assert forall|a: Assignment| extends(a, m) implies !holds(a, f) by {
                    if holds(a, f) {
                        lemma_clauses(a, f);
                        lemma_val3_sound(p.1, a, c);
                    }
                }
            } else if let Some(u) = unit_of(p.1, c) {
                lemma_unit_of(p.1, c, u.0, u.1);
                assert forall|a: Assignment| extends(a, m) && holds(a, f) implies #[trigger] extends(
                    a,
                    unit_pass(m, cl).1,
                ) by {
                    lemma_unit_sound(p.1, f, u.0, u.1, a);
                    lemma_assign_extends(a, p.1, u.1, value_of(u.0));
                }
            }
        }
    }
}

proof fn lemma_pure_lits_set(m1: VMap, f: Formula, i: int, k: int, m: VMap)
    requires
        0 <= i < clause_list(f).len(),
        val3(m1, clause_list(f)[i]) != V3::T,
        0 <= k <= clause_lits(clause_list(f)[i]).len(),
        agrees(m1, m),
        distinct(m),
        pure_set(m1, f, m),
    ensures
        pure_set(m1, f, pure_lits(m1, f, clause_lits(clause_list(f)[i]).take(k), m)),
    decreases k,
{
    let c = clause_list(f)[i];
    let s = clause_lits(c).take(k);
    if k > 0 {
        assert(s.drop_last() =~= clause_lits(c).take(k - 1));
        lemma_pure_lits_set(m1, f, i, k - 1, m);
        let m0 = pure_lits(m1, f, s.drop_last(), m);
        crate::search::lemma_pure_lits_agrees(m1, f, s.drop_last(), m);
        if let Formula::Lit(n, x) = s.last() {
            if pure_lit(m1, f, n, x) {
                let r = assign(m0, x, value_of(n));
                lemma_assign(m0, x, value_of(n));
            }
        }
    }
}

proof fn lemma_pure_pass_set(m1: VMap, f: Formula, k: int, m: VMap)
    requires
        0 <= k <= clause_list(f).len(),
        agrees(m1, m),
        distinct(m),
        pure_set(m1, f, m),
    ensures
        pure_set(m1, f, pure_pass(m1, f, clause_list(f).take(k), m)),
    decreases k,
{
    let cl = clause_list(f).take(k);
    if k > 0 {
        assert(cl.drop_last() =~= clause_list(f).take(k - 1));
        lemma_pure_pass_set(m1, f, k - 1, m);
        lemma_pure_pass(m1, f, cl.drop_last(), m);
        let m0 = pure_pass(m1, f, cl.drop_last(), m);
        if val3(m1, cl.last()) != V3::T {
            lemma_pure_lits_set(m1, f, k - 1, clause_lits(clause_list(f)[k - 1]).len() as int, m0);
            assert(clause_lits(clause_list(f)[k - 1]).take(clause_lits(clause_list(f)[k - 1]).len() as int)
                =~= clause_lits(clause_list(f)[k - 1]));
        }
    }
}

/// Giving every pure name its pure sign keeps a clause that `m1` does not
/// make true holding.
proof fn lemma_pure_model_clause(a: Assignment, m1: VMap, f: Formula, i: int)
    requires
        0 <= i < clause_list(f).len(),
        val3(m1, clause_list(f)[i]) != V3::T,
        holds(a, clause_list(f)[i]),
    ensures
        holds(pure_model(a, m1, f), clause_list(f)[i]),
{
    let c = clause_list(f)[i];
    let b = pure_model(a, m1, f);
    if !flat_clause(c) {
        // no name is pure while a clause that is not yet true is not flat
        assert(b =~= a);
    } else if let Formula::Lit(n, y) = c {
        lemma_pure_sign(m1, f, i, n, y);
    } else if let Formula::Or(s) = c {
        lemma_any_of(a, s);
        lemma_any_of(b, s);
        let k = choose|k: int| 0 <= k < s.len() && holds(a, #[trigger] s[k]);
        if let Formula::Lit(n, y) = s[k] {
            lemma_pure_sign(m1, f, i, n, y);
        }
    }
}

/// A name that is pure and has the sign `n` in a clause that `m1` does not
/// make true is pure with that sign only.
proof fn lemma_pure_sign(m1: VMap, f: Formula, i: int, n: bool, y: Seq<char>)
    requires
        0 <= i < clause_list(f).len(),
        val3(m1, clause_list(f)[i]) != V3::T,
        occurs(clause_list(f)[i], n, y),
    ensures
        !pure_lit(m1, f, !n, y),
{
}

/// A model that agrees with `m1`, with every pure name given its pure sign,
/// is a model that agrees with the map after pure literal elimination.
proof fn lemma_pure_model(a: Assignment, m1: VMap, f: Formula, m2: VMap)
    requires
        extends(a, m1),
        holds(a, f),
        agrees(m1, m2),
        pure_set(m1, f, m2),
    ensures
        extends(pure_model(a, m1, f), m2),
        holds(pure_model(a, m1, f), f),
{
    let b = pure_model(a, m1, f);
    assert forall|y: Seq<char>| has(m2, y) && value_at(m2, y) != Bv::UND implies #[trigger] b(y) == (
    value_at(m2, y) == Bv::TRUE) by {
        lemma_agrees_idx(m1, m2, y);
        lemma_idx(m1, y);
        if has(m1, y) && value_at(m1, y) != Bv::UND {
            // decided in `m1`, and kept in `m2`
        } else if pure_lit(m1, f, true, y) && value_at(m2, y) == Bv::FALSE && open_occ(m1, f, true, y) {
            let i = choose|i: int|
                0 <= i < clause_list(f).len() && val3(m1, clause_list(f)[i]) != V3::T && occurs(
                    #[trigger] clause_list(f)[i],
                    true,
                    y,
                );
        }
    }
    lemma_clauses(a, f);
    lemma_clauses(b, f);
    assert forall|i: int| 0 <= i < clause_list(f).len() implies holds(b, #[trigger] clause_list(f)[i]) by {
        if val3(m1, clause_list(f)[i]) == V3::T {
            lemma_val3_sound(m1, b, clause_list(f)[i]);
        } else {
            lemma_pure_model_clause(a, m1, f, i);
        }
    }
}

/// A round of simplification keeps a model wherever there is one, and
/// clashes only where there is none.
pub proof fn lemma_simplified_models(f: Formula, m: VMap)
    requires
        distinct(m),
    ensures
        sat_under(m, f) ==> !simplified(f, m).0 && sat_under(simplified(f, m).1, f),
        sat_under(simplified(f, m).1, f) ==> sat_under(m, f),
{
    let cl = clause_list(f);
    lemma_unit_pass_models(m, f, cl.len() as int);
    assert(cl.take(cl.len() as int) =~= cl);
    lemma_simplified(f, m);
    let up = unit_pass(m, cl);
    lemma_unit_pass(m, cl);
    if sat_under(m, f) {
        let a = choose|a: Assignment| extends(a, m) && holds(a, f);
        let m2 = pure_pass(up.1, f, cl, up.1);
        lemma_pure_pass(up.1, f, cl, up.1);
        lemma_pure_pass_set(up.1, f, cl.len() as int, up.1);
        lemma_pure_model(a, up.1, f, m2);
    }
    if sat_under(simplified(f, m).1, f) {
        let a = choose|a: Assignment| extends(a, simplified(f, m).1) && holds(a, f);
        lemma_agrees_extends(m, simplified(f, m).1, a);
    }
}

/// The search keeps the names and decided values of its map and the names
/// distinct; it answers SAT exactly when some assignment that keeps the
/// decided values makes the formula true, and then with a map that makes
/// it true.
pub proof fn lemma_search(f: Formula, m: VMap)
    requires
        distinct(m),
        known(f, m),
    ensures
        agrees(m, search(f, m).1),
        distinct(search(f, m).1),
        (search(f, m).0 == Res::SAT) == sat_under(m, f),
        search(f, m).0 == Res::SAT ==> val3(search(f, m).1, f) == V3::T,
    decreases count_und(m),
{
    let v = val3(m, f);
    if v == V3::T {
        lemma_val3_sound(m, model_of(m), f);
    } else if v == V3::F {
        assert forall|a: Assignment| extends(a, m) implies !holds(a, f) by {
            lemma_val3_sound(m, a, f);
        }
    } else {
        lemma_simplified(f, m);
        lemma_simplified_models(f, m);
        let sp = simplified(f, m);
        let m2 = sp.1;
        lemma_agrees_count(m, m2);
        assert(keeps_names(m, m2)) by {
            assert forall|x: Seq<char>| has(m, x) implies #[trigger] has(m2, x) by {
                lemma_agrees_idx(m, m2, x);
            }
        }
        lemma_known_keeps(f, m, m2);
        if sp.0 {
            // a clash: there is no model (`lemma_simplified_models`)
        } else if val3(m2, f) == V3::T {
            lemma_val3_sound(m2, model_of(m2), f);
        } else if val3(m2, f) == V3::F {
            assert forall|a: Assignment| extends(a, m2) implies !holds(a, f) by {
                lemma_val3_sound(m2, a, f);
            }
        } else {
            lemma_val3_undecided(m2, f);
            let y = choose|y: Seq<char>| has(m2, y) && value_at(m2, y) == Bv::UND;
            lemma_idx(m2, y);
            lemma_first_und(m2);
            let i = first_und(m2);
            let x = m2[i].0;
            lemma_idx_distinct(m2, x, i);
            let mt = assign(m2, x, Bv::TRUE);
            let mf = assign(m2, x, Bv::FALSE);
            lemma_decide(m2, x, Bv::TRUE);
            lemma_decide(m2, x, Bv::FALSE);
            lemma_known_keeps(f, m2, mt);
            lemma_known_keeps(f, m2, mf);
            lemma_search(f, mt);
            lemma_search(f, mf);
            let r1 = search(f, mt);
            if r1.0 == Res::SAT {
                let a = choose|a: Assignment| extends(a, mt) && holds(a, f);
                lemma_agrees_extends(m2, mt, a);
                lemma_agrees_trans(m, m2, mt);
                lemma_agrees_trans(m, mt, r1.1);
            } else {
                let r2 = search(f, mf);
                lemma_agrees_trans(m, m2, mf);
                lemma_agrees_trans(m, mf, r2.1);
                if r2.0 == Res::SAT {
                    let a = choose|a: Assignment| extends(a, mf) && holds(a, f);
                    lemma_agrees_extends(m2, mf, a);
                } else {
                    assert forall|a: Assignment| extends(a, m2) implies !holds(a, f) by {
                        lemma_branch(m2, x, a);
                    }
                }
            }
        }
    }
}

/// A disjunction with a part that a map makes true is true under it.
proof fn lemma_or3_true(m: VMap, s: Seq<Formula>, j: int)
    requires
        0 <= j < s.len(),
        val3(m, s[j]) == V3::T,
    ensures
        or3(m, s) == V3::T,
    decreases s.len(),
{
    if j < s.len() - 1 {
        lemma_or3_true(m, s.drop_last(), j);
    }
}

/// The search decides satisfiability: it answers SAT exactly when some
/// assignment of truth values makes the formula true, and then with a map
/// under which every clause is true. The map lists every literal's name
/// once, in the order of first occurrence, and nothing else.
pub proof fn law_dpll(f: Formula)
    ensures
        (dpll_spec(f).0 == Res::SAT) == satisfiable(f),
        dpll_spec(f).0 == Res::SAT ==> forall|i: int|
            0 <= i < clause_list(f).len() ==> val3(dpll_spec(f).1, #[trigger] clause_list(f)[i]) == V3::T,
        agrees(collect(f, Seq::empty()), dpll_spec(f).1),
        distinct(dpll_spec(f).1),
{
    let m0 = collect(f, Seq::empty());
    lemma_collect(f, Seq::empty());
    assert forall|a: Assignment| #[trigger] extends(a, m0) by {
        assert forall|x: Seq<char>| has(m0, x) && value_at(m0, x) != Bv::UND implies #[trigger] a(x) == (
        value_at(m0, x) == Bv::TRUE) by {
            lemma_idx(m0, x);
        }
    }
    let r = dpll_spec(f);
    if let Formula::Or(v) = f {
        if v.len() > 0 && v[0] is Lit {
            let n = v[0]->Lit_0;
            let x = v[0]->Lit_1;
            lemma_known_seq_index(v, m0, 0);
            lemma_idx(m0, x);
            lemma_decide(m0, x, value_of(n));
            lemma_assign(m0, x, value_of(n));
            lemma_or3_true(r.1, v, 0);
            lemma_val3_sound(r.1, model_of(r.1), f);
            lemma_made_true_clauses(r.1, f);
            return;
        }
    }
    lemma_search(f, m0);
    lemma_made_true_clauses(r.1, f);
}

/// Every part of a sequence whose names are known has its names known.
pub proof fn lemma_known_seq_index(s: Seq<Formula>, m: VMap, i: int)
    requires
        known_seq(s, m),
        0 <= i < s.len(),
    ensures
        known(s[i], m),
    decreases s.len(),
{
    if i < s.len() - 1 {
        lemma_known_seq_index(s.drop_last(), m, i);
    }
}

} // verus!
