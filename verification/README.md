# CNF satisfiability

Reads a propositional formula in conjunctive normal form, scans it into
tokens, parses it with an SLR table, turns the parse tree into a formula,
flattens nested conjunctions and disjunctions, and runs a DPLL-style search
for a satisfying valuation.

## Layout

- `src/` — the verified library
  - `text.rs`: string helpers (splitting on whitespace, decimal numbers)
  - `cnf_scan.rs`: the scanner (a DFA run by maximal munch)
  - `lr_table.rs`, `parse_tree.rs`, `cnf_parse.rs`: the parse table, parse trees
    and the shift/reduce parser
  - `formula.rs`, `connective.rs`: formulas and their printing
  - `make_ast.rs`: from parse tree to formula, and flattening
  - `valuation.rs`, `search.rs`, `dpll.rs`: valuations and the DPLL search
  - `soundness.rs`: what the values of formulas under maps mean for
    assignments, and why each step of the search keeps every model
  - `parse_law.rs`: the leaves of a parse tree are the tokens it was given
- `tests/` — tests of the library
- `app/` — the command-line program: reads standard input, `grammar.txt` and
  `DFA.txt`, and prints what the flags `--tok --deriv --ast --simpl --nores
  --nobv` ask for.
