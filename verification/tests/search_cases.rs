use lib::connective::Connective;
use lib::dpll::{dpll, eval_literal, set_literal, und_literal, unset_literal};
use lib::search::Res;
use lib::valuation::{Bv, Valuation};

fn lit(n: bool, s: &str) -> Connective {
    Connective::Literal(n, s.to_string())
}

#[test]
fn empty_conjunction_is_sat() {
    let (res, map) = dpll(&Connective::And(vec![]));
    assert_eq!(res, Res::SAT);
    assert_eq!(map.len(), 0);
}

#[test]
fn a_lone_literal_is_made_true() {
    let (res, map) = dpll(&lit(true, "a"));
    assert_eq!(res, Res::SAT);
    assert_eq!(map.get(&"a".to_string()), Some(Bv::FALSE));
}

#[test]
fn a_lone_disjunction_makes_its_first_part_true() {
    let (res, map) = dpll(&Connective::Or(vec![lit(false, "a"), lit(false, "b")]));
    assert_eq!(res, Res::SAT);
    assert_eq!(map.get(&"a".to_string()), Some(Bv::TRUE));
    assert_eq!(map.get(&"b".to_string()), Some(Bv::UND));
}

#[test]
fn a_name_with_both_signs_is_not_pure() {
    // (!a or !a) and (a or a): a has both signs, so no literal is pure, and
    // neither value of a makes both clauses true
    let f = Connective::And(vec![
        Connective::Or(vec![lit(true, "a"), lit(true, "a")]),
        Connective::Or(vec![lit(false, "a"), lit(false, "a")]),
    ]);
    let (res, _) = dpll(&f);
    assert_eq!(res, Res::UNSAT);
}

#[test]
fn the_empty_clause_is_unsat() {
    let (res, map) = dpll(&Connective::Or(vec![]));
    assert_eq!(res, Res::UNSAT);
    assert_eq!(map.len(), 0);
    let (res, _) = dpll(&Connective::And(vec![lit(false, "a"), Connective::Or(vec![])]));
    assert_eq!(res, Res::UNSAT);
}

#[test]
fn a_unit_clause_inside_a_disjunction_is_checked() {
    let f = Connective::And(vec![lit(false, "a"), Connective::Or(vec![lit(true, "a")])]);
    let (res, _) = dpll(&f);
    assert_eq!(res, Res::UNSAT);
}

#[test]
fn a_pure_literal_is_made_true() {
    // b occurs only unnegated: it is made true and every clause holds
    let f = Connective::And(vec![
        Connective::Or(vec![lit(false, "a"), lit(false, "b")]),
        Connective::Or(vec![lit(true, "a"), lit(false, "b")]),
    ]);
    let (res, map) = dpll(&f);
    assert_eq!(res, Res::SAT);
    assert_eq!(map.get(&"b".to_string()), Some(Bv::TRUE));
    assert_eq!(map.get(&"a".to_string()), Some(Bv::UND));
}

#[test]
fn literal_helpers() {
    let mut m = Valuation::new();
    assert_eq!(m.get(&"a".to_string()), None);
    set_literal(&lit(true, "a"), &mut m);
    assert_eq!(m.get(&"a".to_string()), Some(Bv::FALSE));
    assert!(eval_literal(&lit(true, "a"), &m));
    assert!(!eval_literal(&lit(false, "a"), &m));
    assert!(!und_literal(&lit(false, "a"), &m));
    unset_literal(&lit(false, "a"), &mut m);
    assert!(und_literal(&lit(true, "a"), &m));
    assert!(!eval_literal(&Connective::And(vec![]), &m));
    set_literal(&Connective::Or(vec![lit(false, "a")]), &mut m);
    assert_eq!(m.get(&"a".to_string()), Some(Bv::UND));
    assert_eq!(m.len(), 1);
}

#[test]
fn valuation_insert_keeps_order() {
    let mut m = Valuation::new();
    m.insert(&"b".to_string(), Bv::UND);
    m.insert(&"a".to_string(), Bv::TRUE);
    m.insert(&"b".to_string(), Bv::FALSE);
    assert_eq!(m.len(), 2);
    assert_eq!(m.entries[0].0, "b");
    assert_eq!(m.entries[0].1, Bv::FALSE);
    assert_eq!(m.first_und(), None);
    m.insert(&"c".to_string(), Bv::UND);
    assert_eq!(m.first_und(), Some(2));
    assert_eq!(m.clone().len(), 3);
}

#[test]
fn all_pure_literals_are_made_true_at_once() {
    // a and b are both pure: both are made true in one round
    let f = Connective::And(vec![Connective::Or(vec![lit(false, "a"), lit(false, "b")])]);
    let (res, map) = dpll(&f);
    assert_eq!(res, Res::SAT);
    assert_eq!(map.get(&"a".to_string()), Some(Bv::TRUE));
    assert_eq!(map.get(&"b".to_string()), Some(Bv::TRUE));
}

#[test]
fn a_lone_disjunction_leaves_the_rest_undecided() {
    let (res, map) = dpll(&Connective::Or(vec![lit(false, "a"), lit(true, "b")]));
    assert_eq!(res, Res::SAT);
    assert_eq!(map.get(&"a".to_string()), Some(Bv::TRUE));
    assert_eq!(map.get(&"b".to_string()), Some(Bv::UND));
}
