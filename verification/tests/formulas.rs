use lib::connective::{ast_print, Connective};
use lib::make_ast::simplify_ast;

fn lit(n: bool, s: &str) -> Connective {
    Connective::Literal(n, s.to_string())
}

#[test]
fn add_appends_to_conjunctions_and_disjunctions() {
    let mut c = Connective::And(vec![lit(false, "a")]);
    c.add(&lit(true, "b"));
    assert!(c == Connective::And(vec![lit(false, "a"), lit(true, "b")]));
    let mut d = Connective::Or(vec![]);
    d.add(&lit(false, "x"));
    assert!(d == Connective::Or(vec![lit(false, "x")]));
    let mut l = lit(false, "a");
    l.add(&lit(false, "b"));
    assert!(l == lit(false, "a"));
}

#[test]
fn empty_clauses() {
    assert!(Connective::And(vec![]).empty());
    assert!(Connective::Or(vec![]).empty());
    assert!(!Connective::Or(vec![lit(false, "a")]).empty());
    assert!(!lit(false, "a").empty());
}

#[test]
fn remove_takes_out_the_first_equal_part() {
    let mut c = Connective::And(vec![lit(false, "a"), lit(true, "b"), lit(false, "a")]);
    c.remove(&lit(false, "a"));
    assert!(c == Connective::And(vec![lit(true, "b"), lit(false, "a")]));
    c.remove(&lit(false, "zzz"));
    assert!(c == Connective::And(vec![lit(true, "b"), lit(false, "a")]));
    let mut l = lit(false, "a");
    l.remove(&lit(false, "a"));
    assert!(l == lit(false, "a"));
}

#[test]
fn equality_is_structural() {
    assert!(lit(false, "a") != lit(true, "a"));
    assert!(Connective::And(vec![lit(false, "a")]) != Connective::Or(vec![lit(false, "a")]));
    assert!(Connective::And(vec![]) != Connective::And(vec![lit(false, "a")]));
    let c = Connective::Or(vec![lit(false, "a"), Connective::And(vec![lit(true, "b")])]);
    assert!(c.clone() == c);
}

#[test]
fn printing_a_formula() {
    let f = Connective::And(vec![lit(false, "p"), Connective::Or(vec![lit(false, "a"), lit(true, "b")])]);
    assert_eq!(
        ast_print(&f),
        vec!["And(", "  p", "  Or(", "    a", "    NOT b", "  )", ")"]
    );
}

#[test]
fn flattening_nested_conjunctions() {
    // p and q and r and s and (a or b or c), as the parser nests it
    let nested = Connective::And(vec![
        lit(false, "p"),
        Connective::And(vec![
            lit(false, "q"),
            Connective::And(vec![
                lit(false, "r"),
                Connective::And(vec![
                    lit(false, "s"),
                    Connective::Or(vec![lit(false, "a"), Connective::Or(vec![lit(false, "b"), lit(false, "c")])]),
                ]),
            ]),
        ]),
    ]);
    let flat = simplify_ast(&nested);
    let expected = Connective::And(vec![
        lit(false, "p"),
        lit(false, "q"),
        lit(false, "r"),
        lit(false, "s"),
        Connective::Or(vec![lit(false, "a"), lit(false, "b"), lit(false, "c")]),
    ]);
    assert!(flat == expected);
    // flattening a flat formula changes nothing
    assert!(simplify_ast(&flat) == flat);
}

#[test]
fn flattening_keeps_different_connectives_nested() {
    let f = Connective::Or(vec![Connective::And(vec![lit(false, "a"), Connective::And(vec![lit(false, "b")])]), lit(true, "c")]);
    let expected = Connective::Or(vec![Connective::And(vec![lit(false, "a"), lit(false, "b")]), lit(true, "c")]);
    assert!(simplify_ast(&f) == expected);
}
