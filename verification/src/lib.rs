//! Scanning, parsing and satisfiability checking of propositional formulas
//! in conjunctive normal form.

pub mod text;
pub mod cnf_scan;
pub mod parse_tree;
pub mod lr_table;
pub mod cnf_parse;
pub mod formula;
pub mod connective;
pub mod valuation;
pub mod search;
pub mod make_ast;
pub mod dpll;
pub mod soundness;
pub mod parse_law;
pub mod scan_law;
pub mod ast_law;
