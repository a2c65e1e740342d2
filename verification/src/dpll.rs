//! The search for a satisfying assignment (DPLL): unit propagation, pure
//! literal elimination and chronological backtracking on the first
//! undecided name.

use vstd::prelude::*;
use crate::formula::{Formula, view_seq, lemma_view_seq};
use crate::connective::Connective;
use crate::valuation::{
    Bv, VMap, Valuation, has, value_at, assign, distinct, count_und, lemma_idx_distinct,
    lemma_first_und,
};
use crate::search::{
    Res, V3, set_lit, unset_lit, eval_lit, und_lit, lit3, and_v, or_v, val3, and3, or3, made_true,
    clause_list, known, flat_clause, occurs, pure_lit, agrees, open_count, first_open, unit_of, unit_step,
    unit_pass, pure_lits, clause_lits, pure_clause, pure_pass, search, dpll_spec, collect, collect_seq,
    keeps_names, lemma_collect, lemma_known_keeps, lemma_decide, lemma_simplified, lemma_agrees_count,
    lemma_agrees_idx,
};
use crate::soundness::{satisfiable, sat_under, lemma_search, law_dpll, lemma_open};

verus! {

broadcast use lemma_view_seq;

/// Makes a literal true in `map`; anything else leaves `map` as it is.
pub fn set_literal(conn: &Connective, map: &mut Valuation)
    ensures
        final(map)@ == set_lit(old(map)@, conn@),
{
    if let Connective::Literal(is_not, lex) = conn {
        let bv = if *is_not { Bv::FALSE } else { Bv::TRUE };
        map.insert(lex, bv);
    }
}

/// Makes a literal's name undecided in `map`; anything else leaves `map` as
/// it is.
pub fn unset_literal(conn: &Connective, map: &mut Valuation)
    ensures
        final(map)@ == unset_lit(old(map)@, conn@),
{
    if let Connective::Literal(_, lex) = conn {
        map.insert(lex, Bv::UND);
    }
}

/// Whether `conn` is a literal that `map` makes true.
pub fn eval_literal(conn: &Connective, map: &Valuation) -> (r: bool)
    requires
        conn@ matches Formula::Lit(_, x) ==> has(map@, x),
    ensures
        r == eval_lit(map@, conn@),
{
    match conn {
        Connective::Literal(is_not, lex) => {
            match map.get(lex) {
                Some(v) => (!*is_not && v == Bv::TRUE) || (*is_not && v == Bv::FALSE),
                None => false,
            }
        },
        _ => false,
    }
}

/// Whether `conn` is a literal whose name `map` leaves undecided.
pub fn und_literal(conn: &Connective, map: &Valuation) -> (r: bool)
    requires
        conn@ matches Formula::Lit(_, x) ==> has(map@, x),
    ensures
        r == und_lit(map@, conn@),
{
    match conn {
        Connective::Literal(_, lex) => {
            match map.get(lex) {
                Some(v) => v == Bv::UND,
                None => false,
            }
        },
        _ => false,
    }
}

/// The value of the literal `(n, x)` under `map`.
fn lit3_exec(n: bool, x: &String, map: &Valuation) -> (r: V3)
    ensures
        r == lit3(map@, n, x@),
{
    match map.get(x) {
        None => V3::U,
        Some(v) => {
            if v == Bv::UND {
                V3::U
            } else if (v == Bv::TRUE) == !n {
                V3::T
            } else {
                V3::F
            }
        },
    }
}

fn and_v_exec(a: V3, b: V3) -> (r: V3)
    ensures
        r == and_v(a, b),
{
    if a == V3::F || b == V3::F {
        V3::F
    } else if a == V3::T && b == V3::T {
        V3::T
    } else {
        V3::U
    }
}

fn or_v_exec(a: V3, b: V3) -> (r: V3)
    ensures
        r == or_v(a, b),
{
    if a == V3::T || b == V3::T {
        V3::T
    } else if a == V3::F && b == V3::F {
        V3::F
    } else {
        V3::U
    }
}

/// The value of `conn` under `map`: true, false, or not yet known.
fn eval3(conn: &Connective, map: &Valuation) -> (r: V3)
    ensures
        r == val3(map@, conn@),
    decreases conn,
{
    match conn {
        Connective::And(vec) => eval3_vec(vec, map, true),
        Connective::Or(vec) => eval3_vec(vec, map, false),
        Connective::Literal(n, x) => lit3_exec(*n, x, map),
    }
}

fn eval3_vec(vec: &Vec<Connective>, map: &Valuation, conj: bool) -> (r: V3)
    ensures
        r == (if conj { and3(map@, view_seq(vec@)) } else { or3(map@, view_seq(vec@)) }),
    decreases vec,
{
    let ghost s = view_seq(vec@);
    let mut r = if conj { V3::T } else { V3::F };
    let mut i: usize = 0;
    while i < vec.len()
        invariant
            i <= vec.len(),
            s == view_seq(vec@),
            s.len() == vec.len(),
            r == (if conj { and3(map@, s.take(i as int)) } else { or3(map@, s.take(i as int)) }),
        decreases vec.len() - i,
    {
        assert(s.take(i + 1).drop_last() =~= s.take(i as int));
        let v = eval3(&vec[i], map);
        r = if conj { and_v_exec(r, v) } else { or_v_exec(r, v) };
        i = i + 1;
    }
    assert(s.take(vec.len() as int) =~= s);
    r
}

/// The value of an optional literal.
pub open spec fn opt_lit(o: Option<(bool, String)>) -> Option<(bool, Seq<char>)> {
    match o {
        Some(p) => Some((p.0, p.1@)),
        None => None,
    }
}

/// The literal with which `c` is unit under `map`, if it is a unit clause.
fn unit_of_clause(c: &Connective, map: &Valuation) -> (r: Option<(bool, String)>)
    ensures
        opt_lit(r) == unit_of(map@, c@),
{
    match c {
        Connective::Literal(n, x) => {
            match map.get(x) {
                Some(v) => {
                    if v == Bv::UND {
                        Some((*n, x.clone()))
                    } else {
                        None
                    }
                },
                None => None,
            }
        },
        Connective::Or(vec) => {
            let ghost s = view_seq(vec@);
            let mut count: usize = 0;
            let mut first: Option<usize> = None;
            let mut i: usize = 0;
            while i < vec.len()
                invariant
                    i <= vec.len(),
                    s == view_seq(vec@),
                    s.len() == vec.len(),
                    count <= i,
                    count == open_count(map@, s.take(i as int)),
                    first_open(map@, s.take(i as int)) == (match first {
                        Some(j) => j as int,
                        None => -1,
                    }),
                    first matches Some(j) ==> j < i,
                decreases vec.len() - i,
            {
                assert(s.take(i + 1).drop_last() =~= s.take(i as int));
                if eval3(&vec[i], map) != V3::F {
                    count = count + 1;
                    if first.is_none() {
                        first = Some(i);
                    }
                }
                i = i + 1;
            }
            assert(s.take(vec.len() as int) =~= s);
            proof {
                lemma_open(map@, s);
            }
            if count != 1 {
                return None;
            }
            match first {
                Some(j) => {
                    match &vec[j] {
                        Connective::Literal(n, x) => {
                            match map.get(x) {
                                Some(Bv::UND) => Some((*n, x.clone())),
                                _ => None,
                            }
                        },
                        _ => None,
                    }
                },
                None => None,
            }
        },
        Connective::And(_) => None,
    }
}

/// One clause of unit propagation (see `unit_step`).
fn unit_step_exec(c: &Connective, map: &mut Valuation) -> (clash: bool)
    ensures
        (clash, final(map)@) == unit_step(old(map)@, c@),
{
    if eval3(c, map) == V3::F {
        return true;
    }
    match unit_of_clause(c, map) {
        Some((n, x)) => {
            map.insert(&x, if n { Bv::FALSE } else { Bv::TRUE });
            false
        },
        None => false,
    }
}

/// Unit propagation over the clauses of `conn` (see `unit_pass`).
fn unit_pass_exec(conn: &Connective, map: &mut Valuation) -> (clash: bool)
    ensures
        (clash, final(map)@) == unit_pass(old(map)@, clause_list(conn@)),
{
    match conn {
        Connective::And(vec) => {
            let ghost s = view_seq(vec@);
            let ghost m0 = map@;
            let mut i: usize = 0;
            while i < vec.len()
                invariant
                    i <= vec.len(),
                    s == view_seq(vec@),
                    s.len() == vec.len(),
                    conn@ == Formula::And(s),
                    m0 == old(map)@,
                    unit_pass(m0, s.take(i as int)) == (false, map@),
                decreases vec.len() - i,
            {
                assert(s.take(i + 1).drop_last() =~= s.take(i as int));
                if unit_step_exec(&vec[i], map) {
                    proof {
                        lemma_clash_stays(m0, s, i + 1);
                    }
                    return true;
                }
                i = i + 1;
            }
            assert(s.take(vec.len() as int) =~= s);
            false
        },
        _ => {
            assert(unit_pass(map@, seq![conn@].drop_last()) == (false, map@));
            unit_step_exec(conn, map)
        },
    }
}

/// A clash in unit propagation over the first `k` clauses ends the pass.
proof fn lemma_clash_stays(m: VMap, s: Seq<Formula>, k: int)
    requires
        0 <= k <= s.len(),
        unit_pass(m, s.take(k)).0,
    ensures
        unit_pass(m, s) == unit_pass(m, s.take(k)),
    decreases s.len() - k,
{
    if k < s.len() {
        assert(s.take(k + 1).drop_last() =~= s.take(k));
        lemma_clash_stays(m, s, k + 1);
    } else {
        assert(s.take(k) =~= s);
    }
}

/// Whether clause `c`, where `map` does not make it true, is a literal or a
/// disjunction of literals without the literal `(!n, x)`.
fn clause_allows(c: &Connective, map: &Valuation, n: bool, x: &String) -> (r: bool)
    ensures
        r == (val3(map@, c@) != V3::T ==> flat_clause(c@) && !occurs(c@, !n, x@)),
{
    if eval3(c, map) == V3::T {
        return true;
    }
    match c {
        Connective::Literal(n2, y) => !(*n2 == !n && *y == *x),
        Connective::Or(vec) => {
            let ghost s = view_seq(vec@);
            let mut i: usize = 0;
            while i < vec.len()
                invariant
                    i <= vec.len(),
                    s == view_seq(vec@),
                    s.len() == vec.len(),
                    c@ == Formula::Or(s),
                    val3(map@, c@) != V3::T,
                    forall|j: int| 0 <= j < i ==> #[trigger] s[j] is Lit && s[j] != Formula::Lit(!n, x@),
                decreases vec.len() - i,
            {
                match &vec[i] {
                    Connective::Literal(n2, y) => {
                        if *n2 == !n && *y == *x {
                            return false;
                        }
                    },
                    _ => {
                        return false;
                    },
                }
                i = i + 1;
            }
            true
        },
        Connective::And(_) => false,
    }
}

/// Whether the literal `(n, x)` is pure in `conn` under `map`.
fn is_pure(conn: &Connective, map: &Valuation, n: bool, x: &String) -> (r: bool)
    ensures
        r == pure_lit(map@, conn@, n, x@),
{
    if map.get(x) != Some(Bv::UND) {
        return false;
    }
    match conn {
        Connective::And(vec) => {
            let ghost s = view_seq(vec@);
            let mut i: usize = 0;
            while i < vec.len()
                invariant
                    i <= vec.len(),
                    s == view_seq(vec@),
                    s.len() == vec.len(),
                    conn@ == Formula::And(s),
                    has(map@, x@) && value_at(map@, x@) == Bv::UND,
                    forall|j: int| 0 <= j < i && val3(map@, #[trigger] s[j]) != V3::T ==> flat_clause(s[j])
                        && !occurs(s[j], !n, x@),
                decreases vec.len() - i,
            {
                if !clause_allows(&vec[i], map, n, x) {
                    return false;
                }
                i = i + 1;
            }
            true
        },
        _ => {
            assert(clause_list(conn@)[0] == conn@);
            clause_allows(conn, map, n, x)
        },
    }
}

/// The literals of clause `c` that are pure in `conn` under `m1` made true
/// in `m2`, where `m1` does not make `c` true (see `pure_clause`).
fn pure_clause_exec(conn: &Connective, m1: &Valuation, c: &Connective, m2: &mut Valuation)
    ensures
        final(m2)@ == pure_clause(m1@, conn@, c@, old(m2)@),
{
    if eval3(c, m1) == V3::T {
        return;
    }
    match c {
        Connective::Literal(n, x) => {
            assert(pure_lits(m1@, conn@, seq![c@].drop_last(), m2@) == m2@);
            if is_pure(conn, m1, *n, x) {
                m2.insert(x, if *n { Bv::FALSE } else { Bv::TRUE });
            }
        },
        Connective::Or(vec) => {
            let ghost s = view_seq(vec@);
            let ghost m0 = m2@;
            let mut i: usize = 0;
            while i < vec.len()
                invariant
                    i <= vec.len(),
                    s == view_seq(vec@),
                    s.len() == vec.len(),
                    c@ == Formula::Or(s),
                    m0 == old(m2)@,
                    m2@ == pure_lits(m1@, conn@, s.take(i as int), m0),
                decreases vec.len() - i,
            {
                assert(s.take(i + 1).drop_last() =~= s.take(i as int));
                if let Connective::Literal(n, x) = &vec[i] {
                    if is_pure(conn, m1, *n, x) {
                        m2.insert(x, if *n { Bv::FALSE } else { Bv::TRUE });
                    }
                }
                i = i + 1;
            }
            assert(s.take(vec.len() as int) =~= s);
        },
        Connective::And(_) => {
            // a conjunction inside a clause has no literals of its own
        },
    }
}

/// Pure literal elimination over the clauses of `conn` (see `pure_pass`).
fn pure_pass_exec(conn: &Connective, m1: &Valuation, m2: &mut Valuation)
    ensures
        final(m2)@ == pure_pass(m1@, conn@, clause_list(conn@), old(m2)@),
{
    match conn {
        Connective::And(vec) => {
            let ghost s = view_seq(vec@);
            let ghost m0 = m2@;
            let mut i: usize = 0;
            while i < vec.len()
                invariant
                    i <= vec.len(),
                    s == view_seq(vec@),
                    s.len() == vec.len(),
                    conn@ == Formula::And(s),
                    m0 == old(m2)@,
                    m2@ == pure_pass(m1@, conn@, s.take(i as int), m0),
                decreases vec.len() - i,
            {
                assert(s.take(i + 1).drop_last() =~= s.take(i as int));
                pure_clause_exec(conn, m1, &vec[i], m2);
                i = i + 1;
            }
            assert(s.take(vec.len() as int) =~= s);
        },
        _ => {
            assert(pure_pass(m1@, conn@, seq![conn@].drop_last(), m2@) == m2@);
            pure_clause_exec(conn, m1, conn, m2);
        },
    }
}

/// Searches for values of the names that `in_map` leaves undecided under
/// which `conn` holds (see `search`): a formula that `in_map` already makes
/// true or false is answered so; otherwise a round of unit propagation and
/// pure literal elimination is made, and where that settles nothing the
/// first undecided name is tried true and then false. Answers SAT exactly
/// when some assignment that keeps the decided values makes `conn` true, and
/// then with a map, keeping those values, that makes `conn` true.
fn dpll_helper(conn: &Connective, in_map: &Valuation) -> (r: (Res, Valuation))
    requires
        distinct(in_map@),
        known(conn@, in_map@),
    ensures
        (r.0, r.1@) == search(conn@, in_map@),
        agrees(in_map@, r.1@),
        distinct(r.1@),
        (r.0 == Res::SAT) == sat_under(in_map@, conn@),
        r.0 == Res::SAT ==> made_true(r.1@, conn@),
    decreases count_und(in_map@),
{
    let ghost m = in_map@;
    let ghost f = conn@;
    proof {
        lemma_search(f, m);
    }
    let v = eval3(conn, in_map);
    if v == V3::T {
        return (Res::SAT, in_map.clone());
    }
    if v == V3::F {
        return (Res::UNSAT, in_map.clone());
    }
    let mut m1 = in_map.clone();
    if unit_pass_exec(conn, &mut m1) {
        return (Res::UNSAT, m1);
    }
    let mut m2 = m1.clone();
    pure_pass_exec(conn, &m1, &mut m2);
    proof {
        lemma_simplified(f, m);
        lemma_agrees_count(m, m2@);
        assert(keeps_names(m, m2@)) by {
            assert forall|y: Seq<char>| has(m, y) implies #[trigger] has(m2@, y) by {
                lemma_agrees_idx(m, m2@, y);
            }
        }
        lemma_known_keeps(f, m, m2@);
    }
    let v2 = eval3(conn, &m2);
    if v2 == V3::T {
        return (Res::SAT, m2);
    }
    if v2 == V3::F {
        return (Res::UNSAT, m2);
    }
    let i = match m2.first_und() {
        Some(i) => i,
        None => {
            return (Res::SAT, m2);
        },
    };
    let name = m2.entries[i].0.clone();
    proof {
        lemma_first_und(m2@);
        lemma_idx_distinct(m2@, name@, i as int);
        lemma_decide(m2@, name@, Bv::TRUE);
        lemma_decide(m2@, name@, Bv::FALSE);
        lemma_known_keeps(f, m2@, assign(m2@, name@, Bv::TRUE));
        lemma_known_keeps(f, m2@, assign(m2@, name@, Bv::FALSE));
    }
    let mut mt = m2.clone();
    mt.insert(&name, Bv::TRUE);
    let r1 = dpll_helper(conn, &mt);
    if r1.0 == Res::SAT {
        return r1;
    }
    let mut mf = m2.clone();
    mf.insert(&name, Bv::FALSE);
    dpll_helper(conn, &mf)
}

/// Enters the name of every literal of `conn` as undecided, depth first.
fn add_literals(conn: &Connective, map: &mut Valuation)
    ensures
        final(map)@ == collect(conn@, old(map)@),
    decreases conn,
{
    match conn {
        Connective::And(vec) => add_literals_vec(vec, map),
        Connective::Or(vec) => add_literals_vec(vec, map),
        Connective::Literal(_, lex) => map.insert(lex, Bv::UND),
    }
}

fn add_literals_vec(vec: &Vec<Connective>, map: &mut Valuation)
    ensures
        final(map)@ == collect_seq(view_seq(vec@), old(map)@),
    decreases vec,
{
    let ghost items = view_seq(vec@);
    let ghost m0 = map@;
    let mut i: usize = 0;
    while i < vec.len()
        invariant
            i <= vec.len(),
            items == view_seq(vec@),
            items.len() == vec.len(),
            map@ == collect_seq(items.take(i as int), m0),
        decreases vec.len() - i,
    {
        assert(items.take(i + 1).drop_last() =~= items.take(i as int));
        add_literals(&vec[i], map);
        i = i + 1;
    }
    assert(items.take(vec.len() as int) =~= items);
}

/// Decides whether `conn` is satisfiable (see `dpll_spec`). Every literal's
/// name is entered undecided, in the order of first occurrence; a
/// disjunction whose first part is a literal is satisfiable, that literal
/// made true; any other formula is searched. Answers SAT exactly when some
/// assignment of truth values makes `conn` true, and then with a map, of the
/// same names in the same order, under which every clause of `conn` is true.
pub fn dpll(conn: &Connective) -> (r: (Res, Valuation))
    ensures
        (r.0, r.1@) == dpll_spec(conn@),
        agrees(collect(conn@, Seq::empty()), r.1@),
        distinct(r.1@),
        (r.0 == Res::SAT) == satisfiable(conn@),
        r.0 == Res::SAT ==> forall|i: int|
            0 <= i < clause_list(conn@).len() ==> made_true(r.1@, #[trigger] clause_list(conn@)[i]),
{
    let mut map = Valuation::new();
    add_literals(conn, &mut map);
    proof {
        lemma_collect(conn@, Seq::empty());
        law_dpll(conn@);
    }
    if let Connective::Or(vec) = conn {
        if vec.len() > 0 {
            if let Connective::Literal(_, _) = &vec[0] {
                assert(conn@ == Formula::Or(view_seq(vec@)));
                set_literal(&vec[0], &mut map);
                return (Res::SAT, map);
            }
        }
    }
    dpll_helper(conn, &map)
}

} // verus!
