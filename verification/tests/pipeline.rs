use lib::cnf_parse::{get_token, inorder, parse, try_parse, ParseError, ParseNode, ParseVal};
use lib::cnf_scan::{scan, Token, Type};
use lib::connective::Connective;
use lib::dpll::dpll;
use lib::lr_table::{lr1_lines_ok, read_grammar, read_lr1, try_read_lr1, LrTable, ReducePair};
use lib::make_ast::{make_ast, simplify_ast, try_make_ast};
use lib::search::Res;
use lib::valuation::Bv;

const GRAMMAR: &str = "S BOF expr EOF
expr term
expr term AND expr
term pred
term LPAREN disj RPAREN
disj pred
disj pred OR disj
pred NOT LIT
pred LIT";

const TABLE: &str = "0 BOF shift 1
1 LIT shift 7
1 LPAREN shift 5
1 NOT shift 6
1 expr shift 2
1 pred shift 4
1 term shift 3
2 EOF shift 8
3 AND shift 9
3 EOF reduce 1
4 { AND , EOF } reduce 3
5 LIT shift 7
5 NOT shift 6
5 disj shift 10
5 pred shift 11
6 LIT shift 12
7 { AND , EOF , OR , RPAREN } reduce 8
9 LIT shift 7
9 LPAREN shift 5
9 NOT shift 6
9 expr shift 13
9 pred shift 4
9 term shift 3
10 RPAREN shift 14
11 OR shift 15
11 RPAREN reduce 5
12 { AND , EOF , OR , RPAREN } reduce 7
13 EOF reduce 2
14 { AND , EOF } reduce 4
15 LIT shift 7
15 NOT shift 6
15 disj shift 16
15 pred shift 11
16 RPAREN reduce 6";

fn lines(text: &str) -> Vec<String> {
    text.lines().map(|l| l.to_string()).collect()
}

fn grammar() -> Vec<Vec<String>> {
    read_grammar(&lines(GRAMMAR))
}

fn table() -> LrTable {
    read_lr1(&lines(TABLE))
}

fn parse_text(input: &str) -> Result<ParseNode, ParseError> {
    let mut toks = scan(&input.to_string());
    parse(&mut toks, &grammar(), &table())
}

fn formula(input: &str) -> Connective {
    let root = parse_text(input).unwrap();
    simplify_ast(&make_ast(&root).unwrap())
}

fn lit(n: bool, s: &str) -> Connective {
    Connective::Literal(n, s.to_string())
}

#[test]
fn table_lines_fill_rows() {
    let t = table();
    assert_eq!(t.rows.len(), 17);
    assert_eq!(t.rows[7].len(), 4);
    assert_eq!(t.rows[7][1].0, "EOF");
    assert_eq!(t.rows[7][1].1, ReducePair(true, 8));
    assert_eq!(t.rows[0][0].0, "BOF");
    assert_eq!(t.rows[0][0].1, ReducePair(false, 1));
    assert!(t.rows[8].is_empty());
}

#[test]
fn later_table_line_overrides() {
    let t = read_lr1(&lines("2 X shift 3\n\n2 X reduce 5\n0 Y shift 1"));
    assert_eq!(t.rows.len(), 3);
    assert_eq!(t.rows[2].len(), 1);
    assert_eq!(t.rows[2][0].1, ReducePair(true, 5));
    assert!(t.rows[1].is_empty());
}

#[test]
fn malformed_table_lines() {
    assert!(!lr1_lines_ok(&lines("x A shift 1")));
    assert!(!lr1_lines_ok(&lines("1")));
    assert!(!lr1_lines_ok(&lines("1 A shift y")));
    assert!(try_read_lr1(&lines("1 A shift y")).is_none());
    assert!(lr1_lines_ok(&lines(TABLE)));
    assert!(try_read_lr1(&lines("")).unwrap().rows.is_empty());
}

#[test]
fn grammar_lines_are_split() {
    let g = grammar();
    assert_eq!(g.len(), 9);
    assert_eq!(g[0], vec!["S", "BOF", "expr", "EOF"]);
    assert_eq!(g[8], vec!["pred", "LIT"]);
}

#[test]
fn parse_tree_of_a_literal() {
    let root = parse_text("p").unwrap();
    assert_eq!(get_token(&root), "S");
    assert_eq!(root.1.len(), 3);
    assert_eq!(get_token(&root.1[0]), "EOF");
    assert_eq!(get_token(&root.1[1]), "expr");
    assert_eq!(get_token(&root.1[2]), "BOF");
    assert_eq!(
        inorder(&root),
        vec![
            "S BOF expr EOF ",
            " BOF BOF",
            " expr term ",
            "  term pred ",
            "   pred LIT ",
            "    p LIT",
            " EOF EOF",
        ]
    );
}

#[test]
fn fuel_bounds_the_reductions() {
    // "p" is reduced to pred, term and expr before EOF can be shifted
    let mut toks = scan(&"p".to_string());
    assert!(try_parse(&mut toks, &grammar(), &table(), 0).is_none());
    assert!(toks.is_empty());
    let mut toks = scan(&"p".to_string());
    let r = try_parse(&mut toks, &grammar(), &table(), 1000).unwrap().unwrap();
    assert_eq!(inorder(&r), inorder(&parse_text("p").unwrap()));
}

#[test]
fn fuel_does_not_change_a_syntax_error() {
    let mut toks = scan(&"and".to_string());
    match try_parse(&mut toks, &grammar(), &table(), u64::MAX) {
        Some(Err(ParseError::Syntax(lexeme))) => assert_eq!(lexeme, "and"),
        _ => panic!("expected a syntax error"),
    }
}

#[test]
fn parse_stream_is_taken() {
    let mut toks = scan(&"a and b".to_string());
    let r = parse(&mut toks, &grammar(), &table());
    assert!(r.is_ok());
    assert!(toks.is_empty());
}

#[test]
fn readme_example_flattens() {
    let f = formula("p and q and r and s and (a or b or c)");
    let expected = Connective::And(vec![
        lit(false, "p"),
        lit(false, "q"),
        lit(false, "r"),
        lit(false, "s"),
        Connective::Or(vec![lit(false, "a"), lit(false, "b"), lit(false, "c")]),
    ]);
    assert!(f == expected);
}

#[test]
fn negations_become_negated_literals() {
    let f = formula("not a & (!b | c)");
    let expected = Connective::And(vec![lit(true, "a"), Connective::Or(vec![lit(true, "b"), lit(false, "c")])]);
    assert!(f == expected);
}

#[test]
fn a_single_literal() {
    assert!(formula("p") == lit(false, "p"));
}

#[test]
fn syntax_error_names_the_token() {
    match parse_text("p and and q") {
        Err(ParseError::Syntax(lex)) => assert_eq!(lex, "and"),
        _ => panic!("expected a syntax error"),
    }
    match parse_text("(a and b)") {
        Err(ParseError::Syntax(lex)) => assert_eq!(lex, "and"),
        _ => panic!("expected a syntax error"),
    }
    match parse_text("") {
        Err(ParseError::Syntax(lex)) => assert_eq!(lex, "EOF"),
        _ => panic!("expected a syntax error"),
    }
}

#[test]
fn table_errors() {
    let mut toks = scan(&"p".to_string());
    let empty = read_lr1(&lines(""));
    assert!(matches!(parse(&mut toks, &grammar(), &empty), Err(ParseError::Table)));
    let mut toks = scan(&"p".to_string());
    let no_rules: Vec<Vec<String>> = Vec::new();
    let t = read_lr1(&lines("0 BOF shift 1\n1 LIT shift 2\n2 EOF shift 3"));
    match parse(&mut toks, &no_rules, &t) {
        Err(ParseError::Table) => {},
        _ => panic!("expected a table error"),
    }
}

#[test]
fn derivation_error_at_the_end() {
    // a table that shifts everything: the stack ends BOF LIT EOF, not BOF expr EOF
    let mut toks = scan(&"p".to_string());
    let t = read_lr1(&lines("0 BOF shift 1\n1 LIT shift 2\n2 EOF shift 3"));
    match parse(&mut toks, &grammar(), &t) {
        Err(ParseError::Derivation(item)) => assert_eq!(item, "expr"),
        _ => panic!("expected a derivation error"),
    }
}

#[test]
fn tokens_are_not_formulas() {
    let leaf = ParseNode(ParseVal::Term(Token("p".to_string(), Type::LIT)), vec![]);
    assert!(make_ast(&leaf).is_none());
    let unknown = ParseNode(ParseVal::Rule(vec!["x".to_string()]), vec![]);
    assert!(make_ast(&unknown).is_none());
    // a rule whose child is missing cannot be converted
    let broken = ParseNode(ParseVal::Rule(vec!["expr".to_string(), "term".to_string()]), vec![]);
    assert!(try_make_ast(&broken).is_none());
}

#[test]
fn contradiction_is_unsat() {
    let (res, _) = dpll(&formula("a and !a"));
    assert_eq!(res, Res::UNSAT);
    let (res, _) = dpll(&formula("a and (b or c) and !b and !c"));
    assert_eq!(res, Res::UNSAT);
}

#[test]
fn satisfiable_formula_and_its_valuation() {
    let (res, map) = dpll(&formula("a and (b or c) and !b"));
    assert_eq!(res, Res::SAT);
    assert_eq!(map.get(&"a".to_string()), Some(Bv::TRUE));
    assert_eq!(map.get(&"b".to_string()), Some(Bv::FALSE));
    assert_eq!(map.get(&"c".to_string()), Some(Bv::TRUE));
    assert_eq!(map.len(), 3);
}

#[test]
fn three_clauses_are_sat() {
    // no unit clause and no pure literal: a is tried true, which makes b a unit
    let (res, map) = dpll(&formula("(a or b) and (!a or b) and (a or !b)"));
    assert_eq!(res, Res::SAT);
    assert_eq!(map.get(&"a".to_string()), Some(Bv::TRUE));
    assert_eq!(map.get(&"b".to_string()), Some(Bv::TRUE));
}

#[test]
fn unit_clash_inside_a_clause_is_unsat() {
    let (res, map) = dpll(&formula("a and (!a or b) and !b"));
    assert_eq!(res, Res::UNSAT);
    assert_eq!(map.len(), 2);
    assert_eq!(map.get(&"a".to_string()), Some(Bv::TRUE));
}

#[test]
fn all_four_clauses_over_two_names_are_unsat() {
    let (res, _) = dpll(&formula("(a or b) and (!a or b) and (a or !b) and (!a or !b)"));
    assert_eq!(res, Res::UNSAT);
}

#[test]
fn backtracking_finds_the_only_model() {
    let (res, map) = dpll(&formula("(!p or q) and (!p or !q) and (p or !q)"));
    assert_eq!(res, Res::SAT);
    assert_eq!(map.get(&"p".to_string()), Some(Bv::FALSE));
    assert_eq!(map.get(&"q".to_string()), Some(Bv::FALSE));
}

#[test]
fn valuation_names_every_literal_in_order() {
    let (_, map) = dpll(&formula("x and (y or not z)"));
    let names: Vec<String> = map.entries.iter().map(|e| e.0.clone()).collect();
    assert_eq!(names, vec!["x", "y", "z"]);
}

fn leaves(node: &ParseNode, out: &mut Vec<(String, Type)>) {
    match &node.0 {
        ParseVal::Term(Token(lexeme, kind)) => out.push((lexeme.clone(), *kind)),
        ParseVal::Rule(_) => {
            for child in node.1.iter().rev() {
                leaves(child, out);
            }
        },
    }
}

#[test]
fn leaves_of_the_tree_are_the_tokens() {
    let input = "(a or !b) and not c";
    let mut expected = vec![("BOF".to_string(), Type::BOF)];
    for Token(s, t) in scan(&input.to_string()) {
        expected.push((s, t));
    }
    expected.push(("EOF".to_string(), Type::EOF));
    let root = parse_text(input).unwrap();
    let mut got = Vec::new();
    leaves(&root, &mut got);
    assert_eq!(got, expected);
}
