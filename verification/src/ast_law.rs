//! What the conversion from parse tree to formula keeps: the literals of the
//! formula are named, in order, by the lexemes of the `LIT` tokens at the
//! tree's leaves, and negated exactly where a `NOT` token comes just before.

use vstd::prelude::*;
use crate::formula::Formula;
use crate::cnf_scan::{Type, kind_name};
use crate::parse_tree::{PVal, PTree};
use crate::cnf_parse::token_of;
use crate::make_ast::{Decision, rule_entry, rule_table, find_from, ast_in, ast_of};
use crate::parse_law::{frontier, frontier_rev};

verus! {

/// The names of the literals of a formula, from left to right.
pub open spec fn lit_names(f: Formula) -> Seq<Seq<char>>
    decreases f,
{
    match f {
        Formula::Lit(_, x) => seq![x],
        Formula::And(s) => names_seq(s),
        Formula::Or(s) => names_seq(s),
    }
}

/// The names of the literals of a sequence of formulas, from left to right.
pub open spec fn names_seq(s: Seq<Formula>) -> Seq<Seq<char>>
    decreases s,
{
    if s.len() == 0 {
        Seq::empty()
    } else {
        names_seq(s.drop_last()) + lit_names(s.last())
    }
}

/// The lexemes of the `LIT` tokens among `ts`, in order.
pub open spec fn lit_lexemes(ts: Seq<(Seq<char>, Type)>) -> Seq<Seq<char>>
    decreases ts.len(),
{
    if ts.len() == 0 {
        Seq::empty()
    } else {
        lit_lexemes(ts.drop_last()) + (if ts.last().1 == Type::LIT { seq![ts.last().0] } else { Seq::empty() })
    }
}

/// Whether tree `c` stands for the grammar symbol `sym`: a token whose kind
/// is named `sym`, or a node for a rule whose left-hand side is `sym`.
pub open spec fn fits(c: PTree, sym: Seq<char>) -> bool {
    match c.val {
        PVal::Term(_, k) => kind_name(k) == sym,
        PVal::Rule(r) => r.len() > 0 && r[0] == sym,
    }
}

/// Whether a tree is shaped by the grammar: every node is for a rule of
/// the grammar, and has one child for each symbol on the rule's right,
/// stored from the rightmost, each standing for its symbol and shaped in
/// turn. Tokens are leaves.
pub open spec fn shaped(t: PTree) -> bool
    decreases t,
{
    match t.val {
        PVal::Term(_, _) => true,
        PVal::Rule(r) => {
            let k = find_from(rule_table(), r, 0);
            0 <= k < 9 && t.children.len() + 1 == r.len() && shaped_seq(t.children, r)
        },
    }
}

/// Whether the children `c` of a node for rule `r` stand for its symbols,
/// the first child for the last symbol, and are shaped.
pub open spec fn shaped_seq(c: Seq<PTree>, r: Seq<Seq<char>>) -> bool
    decreases c,
{
    if c.len() == 0 {
        true
    } else {
        shaped_seq(c.drop_last(), r) && fits(c.last(), r[r.len() - c.len()]) && shaped(c.last())
    }
}

proof fn lemma_shaped_seq(c: Seq<PTree>, r: Seq<Seq<char>>, j: int)
    requires
        shaped_seq(c, r),
        0 <= j < c.len(),
    ensures
        fits(c[j], r[r.len() - 1 - j]),
        shaped(c[j]),
    decreases c.len(),
{
    if j < c.len() - 1 {
        lemma_shaped_seq(c.drop_last(), r, j);
    }
}

/// The symbols of the grammar, as characters.
proof fn lemma_symbols()
    ensures
        "S"@ == seq!['S'],
        "BOF"@ == kind_name(Type::BOF),
        "EOF"@ == kind_name(Type::EOF),
        "expr"@ == seq!['e', 'x', 'p', 'r'],
        "term"@ == seq!['t', 'e', 'r', 'm'],
        "disj"@ == seq!['d', 'i', 's', 'j'],
        "pred"@ == seq!['p', 'r', 'e', 'd'],
        "AND"@ == kind_name(Type::AND),
        "OR"@ == kind_name(Type::OR),
        "NOT"@ == kind_name(Type::NOT),
        "LIT"@ == kind_name(Type::LIT),
        "LPAREN"@ == kind_name(Type::LPAREN),
        "RPAREN"@ == kind_name(Type::RPAREN),
{
    reveal_strlit("S");
    reveal_strlit("BOF");
    reveal_strlit("EOF");
    reveal_strlit("expr");
    reveal_strlit("term");
    reveal_strlit("disj");
    reveal_strlit("pred");
    reveal_strlit("AND");
    reveal_strlit("OR");
    reveal_strlit("NOT");
    reveal_strlit("LIT");
    reveal_strlit("LPAREN");
    reveal_strlit("RPAREN");
    assert("S"@ =~= seq!['S']);
    assert("BOF"@ =~= kind_name(Type::BOF));
    assert("EOF"@ =~= kind_name(Type::EOF));
    assert("expr"@ =~= seq!['e', 'x', 'p', 'r']);
    assert("term"@ =~= seq!['t', 'e', 'r', 'm']);
    assert("disj"@ =~= seq!['d', 'i', 's', 'j']);
    assert("pred"@ =~= seq!['p', 'r', 'e', 'd']);
    assert("AND"@ =~= kind_name(Type::AND));
    assert("OR"@ =~= kind_name(Type::OR));
    assert("NOT"@ =~= kind_name(Type::NOT));
    assert("LIT"@ =~= kind_name(Type::LIT));
    assert("LPAREN"@ =~= kind_name(Type::LPAREN));
    assert("RPAREN"@ =~= kind_name(Type::RPAREN));
}

/// The name of a kind of token is written in capitals; no two kinds share
/// the name `LIT`.
proof fn lemma_kind_name(k: Type)
    ensures
        kind_name(k).len() > 0,
        kind_name(k)[0] != 'S' && kind_name(k)[0] != 'e' && kind_name(k)[0] != 't' && kind_name(k)[0]
            != 'd' && kind_name(k)[0] != 'p',
        k != Type::LIT ==> kind_name(k) != kind_name(Type::LIT),
{
    if k != Type::LIT && kind_name(k) == kind_name(Type::LIT) {
        assert(kind_name(k).len() == 3 && kind_name(k)[0] == 'L' && kind_name(k)[1] == 'I');
    }
}

/// No two kinds of token share a name.
proof fn lemma_kind_name_unique(a: Type, b: Type)
    requires
        kind_name(a) == kind_name(b),
    ensures
        a == b,
{
    assert(kind_name(a).len() == kind_name(b).len() && kind_name(a)[0] == kind_name(b)[0]);
}

proof fn lemma_find_from(tab: Seq<(Seq<Seq<char>>, Decision, Seq<usize>)>, r: Seq<Seq<char>>, k: int)
    requires
        0 <= k,
    ensures
        find_from(tab, r, k) == -1 || (k <= find_from(tab, r, k) < tab.len() && tab[find_from(tab, r, k)].0
            == r),
    decreases tab.len() - k,
{
    if k < tab.len() && tab[k].0 != r {
        lemma_find_from(tab, r, k + 1);
    }
}

/// A rule of the grammar is the rule of its entry in the table; its
/// left-hand side is written in lower case, or is `S`.
proof fn lemma_rule(r: Seq<Seq<char>>)
    requires
        0 <= find_from(rule_table(), r, 0) < 9,
    ensures
        r == rule_entry(find_from(rule_table(), r, 0)).0,
        r.len() > 0 && r[0].len() > 0,
        r[0][0] == 'S' || r[0][0] == 'e' || r[0][0] == 't' || r[0][0] == 'd' || r[0][0] == 'p',
{
    lemma_find_from(rule_table(), r, 0);
    lemma_symbols();
}

/// A tree that stands for a token kind other than `LIT` has no `LIT` token
/// among its leaves.
proof fn lemma_terminal(c: PTree, kd: Type)
    requires
        kd != Type::LIT,
        fits(c, kind_name(kd)),
        shaped(c),
    ensures
        lit_lexemes(frontier(c)) == Seq::<Seq<char>>::empty(),
{
    lemma_kind_name(kd);
    match c.val {
        PVal::Term(x, k) => {
            lemma_kind_name(k);
            assert(frontier(c) == seq![(x, k)]);
            assert(seq![(x, k)].drop_last() =~= Seq::<(Seq<char>, Type)>::empty());
            assert(lit_lexemes(seq![(x, k)].drop_last()) =~= Seq::<Seq<char>>::empty());
            assert(lit_lexemes(frontier(c)) =~= Seq::<Seq<char>>::empty());
        },
        PVal::Rule(r) => {
            lemma_rule(r);
        },
    }
}

/// A tree that stands for `LIT` is a `LIT` token.
proof fn lemma_lit(c: PTree)
    requires
        fits(c, kind_name(Type::LIT)),
        shaped(c),
    ensures
        c.val matches PVal::Term(x, k) && k == Type::LIT,
        lit_lexemes(frontier(c)) == seq![token_of(c)],
{
    lemma_kind_name(Type::LIT);
    match c.val {
        PVal::Term(x, k) => {
            lemma_kind_name(k);
            assert(frontier(c) == seq![(x, k)]);
            assert(seq![(x, k)].drop_last() =~= Seq::<(Seq<char>, Type)>::empty());
            assert(lit_lexemes(seq![(x, k)].drop_last()) =~= Seq::<Seq<char>>::empty());
            assert(lit_lexemes(frontier(c)) =~= seq![x]);
        },
        PVal::Rule(r) => {
            lemma_rule(r);
        },
    }
}

proof fn lemma_lexemes_concat(a: Seq<(Seq<char>, Type)>, b: Seq<(Seq<char>, Type)>)
    ensures
        lit_lexemes(a + b) == lit_lexemes(a) + lit_lexemes(b),
    decreases b.len(),
{
    if b.len() == 0 {
        assert(a + b =~= a);
        assert(lit_lexemes(a) + lit_lexemes(b) =~= lit_lexemes(a));
    } else {
        lemma_lexemes_concat(a, b.drop_last());
        assert((a + b).drop_last() =~= a + b.drop_last());
        assert(lit_lexemes(a + b) =~= lit_lexemes(a) + lit_lexemes(b));
    }
}

/// The `LIT` lexemes of the leaves under children stored rightmost first:
/// those of the last child first.
proof fn lemma_lexemes_rev(c: Seq<PTree>)
    ensures
        c.len() == 1 ==> lit_lexemes(frontier_rev(c)) == lit_lexemes(frontier(c[0])),
        c.len() == 2 ==> lit_lexemes(frontier_rev(c)) == lit_lexemes(frontier(c[1])) + lit_lexemes(
            frontier(c[0]),
        ),
        c.len() == 3 ==> lit_lexemes(frontier_rev(c)) == lit_lexemes(frontier(c[2])) + lit_lexemes(
            frontier(c[1]),
        ) + lit_lexemes(frontier(c[0])),
{
    if 1 <= c.len() <= 3 {
        let c1 = c.drop_last();
        let c2 = c1.drop_last();
        assert(frontier_rev(Seq::<PTree>::empty()) =~= Seq::<(Seq<char>, Type)>::empty());
        lemma_lexemes_concat(frontier(c.last()), frontier_rev(c1));
        if c.len() >= 2 {
            lemma_lexemes_concat(frontier(c1.last()), frontier_rev(c2));
        }
        if c.len() == 3 {
            let c3 = c2.drop_last();
            lemma_lexemes_concat(frontier(c2.last()), frontier_rev(c3));
            assert(c3.len() == 0);
        }
        assert(lit_lexemes(Seq::<(Seq<char>, Type)>::empty()) =~= Seq::<Seq<char>>::empty());
        assert(forall|s: Seq<Seq<char>>| s + Seq::<Seq<char>>::empty() =~= s);
    }
}

/// The names of the literals of a pair of formulas.
proof fn lemma_names_pair(a: Formula, b: Formula)
    ensures
        names_seq(seq![a, b]) == lit_names(a) + lit_names(b),
{
    assert(seq![a, b].drop_last() =~= seq![a]);
    assert(seq![a].drop_last() =~= Seq::<Formula>::empty());
    assert(names_seq(seq![a].drop_last()) =~= Seq::<Seq<char>>::empty());
    assert(names_seq(seq![a]) =~= lit_names(a));
}

/// The literals of the formula that a tree shaped by the grammar converts
/// to are named, from left to right, by the lexemes of the `LIT` tokens at
/// its leaves, from left to right: each literal keeps its token's whole
/// lexeme, and no literal is dropped, repeated or moved.
pub proof fn law_ast_names(t: PTree)
    requires
        shaped(t),
        ast_of(t) is Some,
    ensures
        lit_names(ast_of(t)->Some_0) == lit_lexemes(frontier(t)),
    decreases t,
{
    if let PVal::Rule(r) = t.val {
        let k = find_from(rule_table(), r, 0);
        lemma_rule(r);
        lemma_symbols();
        let c = t.children;
        assert(rule_table()[k] == rule_entry(k));
        lemma_lexemes_rev(c);
        if k == 1 || k == 3 || k == 5 || k == 8 {
            lemma_shaped_seq(c, r, 0);
            if k == 8 {
                lemma_lit(c[0]);
                assert(lit_names(ast_of(t)->Some_0) =~= seq![token_of(c[0])]);
            } else {
                law_ast_names(c[0]);
            }
        } else if k == 0 || k == 4 {
            lemma_shaped_seq(c, r, 0);
            lemma_shaped_seq(c, r, 1);
            lemma_shaped_seq(c, r, 2);
            law_ast_names(c[1]);
            if k == 0 {
                lemma_terminal(c[0], Type::EOF);
                lemma_terminal(c[2], Type::BOF);
            } else {
                lemma_terminal(c[0], Type::RPAREN);
                lemma_terminal(c[2], Type::LPAREN);
            }
            assert(lit_lexemes(frontier(t)) =~= lit_lexemes(frontier(c[1])));
        } else if k == 2 || k == 6 {
            lemma_shaped_seq(c, r, 0);
            lemma_shaped_seq(c, r, 1);
            lemma_shaped_seq(c, r, 2);
            law_ast_names(c[0]);
            law_ast_names(c[2]);
            if k == 2 {
                lemma_terminal(c[1], Type::AND);
            } else {
                lemma_terminal(c[1], Type::OR);
            }
            lemma_names_pair(ast_of(c[2])->Some_0, ast_of(c[0])->Some_0);
            assert(lit_lexemes(frontier(t)) =~= lit_lexemes(frontier(c[2])) + lit_lexemes(frontier(c[0])));
        } else {
            lemma_shaped_seq(c, r, 0);
            lemma_shaped_seq(c, r, 1);
            lemma_lit(c[0]);
            lemma_terminal(c[1], Type::NOT);
            assert(lit_names(ast_of(t)->Some_0) =~= seq![token_of(c[0])]);
            assert(lit_lexemes(frontier(t)) =~= seq![token_of(c[0])]);
        }
    }
}

/// The literals of a formula, sign and name, from left to right.
pub open spec fn literals(f: Formula) -> Seq<(bool, Seq<char>)>
    decreases f,
{
    match f {
        Formula::Lit(n, x) => seq![(n, x)],
        Formula::And(s) => literals_seq(s),
        Formula::Or(s) => literals_seq(s),
    }
}

/// The literals of a sequence of formulas, from left to right.
pub open spec fn literals_seq(s: Seq<Formula>) -> Seq<(bool, Seq<char>)>
    decreases s,
{
    if s.len() == 0 {
        Seq::empty()
    } else {
        literals_seq(s.drop_last()) + literals(s.last())
    }
}

/// The literals that a sequence of tokens spells: one for each `LIT` token,
/// named by its lexeme and negated where the token just before is `NOT`.
pub open spec fn signed_lits(ts: Seq<(Seq<char>, Type)>) -> Seq<(bool, Seq<char>)>
    decreases ts.len(),
{
    if ts.len() == 0 {
        Seq::empty()
    } else if ts.last().1 == Type::LIT {
        signed_lits(ts.drop_last()).push((ts.len() >= 2 && ts[ts.len() - 2].1 == Type::NOT, ts.last().0))
    } else {
        signed_lits(ts.drop_last())
    }
}

proof fn lemma_signed_concat(a: Seq<(Seq<char>, Type)>, b: Seq<(Seq<char>, Type)>)
    requires
        a.len() == 0 || b.len() == 0 || a.last().1 != Type::NOT || b[0].1 != Type::LIT,
    ensures
        signed_lits(a + b) == signed_lits(a) + signed_lits(b),
    decreases b.len(),
{
    if b.len() == 0 {
        assert(a + b =~= a);
        assert(signed_lits(a) + signed_lits(b) =~= signed_lits(a));
    } else {
        if b.len() > 1 {
            lemma_signed_concat(a, b.drop_last());
        } else {
            assert(b.drop_last() =~= Seq::<(Seq<char>, Type)>::empty());
            assert(a + b.drop_last() =~= a);
            assert(signed_lits(a) + signed_lits(b.drop_last()) =~= signed_lits(a));
        }
        assert((a + b).drop_last() =~= a + b.drop_last());
        assert(signed_lits(a + b) =~= signed_lits(a) + signed_lits(b));
    }
}

/// A tree that stands for a token kind is a leaf of that kind.
proof fn lemma_leaf(c: PTree, kd: Type)
    requires
        fits(c, kind_name(kd)),
        shaped(c),
    ensures
        c.val matches PVal::Term(x, k) && k == kd,
        frontier(c) == seq![(token_of(c), kd)],
{
    lemma_kind_name(kd);
    match c.val {
        PVal::Term(x, k) => {
            lemma_kind_name_unique(k, kd);
        },
        PVal::Rule(r) => {
            lemma_rule(r);
        },
    }
}

/// The leaves of a tree shaped by the grammar that converts to a formula
/// are not empty and never end with a `NOT` token.
proof fn lemma_frontier_ends(t: PTree)
    requires
        shaped(t),
        ast_of(t) is Some,
    ensures
        frontier(t).len() > 0,
        frontier(t).last().1 != Type::NOT,
    decreases t,
{
    if let PVal::Rule(r) = t.val {
        let k = find_from(rule_table(), r, 0);
        lemma_rule(r);
        lemma_symbols();
        let c = t.children;
        assert(rule_table()[k] == rule_entry(k));
        lemma_shaped_seq(c, r, 0);
        let c1 = c.drop_last();
        assert(frontier(t) == frontier(c.last()) + frontier_rev(c1));
        if k == 1 || k == 3 || k == 5 {
            lemma_frontier_ends(c[0]);
            assert(c1.len() == 0);
            assert(frontier_rev(c1) =~= Seq::<(Seq<char>, Type)>::empty());
            assert(frontier(t) =~= frontier(c[0]));
        } else if k == 8 {
            lemma_leaf(c[0], Type::LIT);
            assert(frontier_rev(c1) =~= Seq::<(Seq<char>, Type)>::empty());
            assert(frontier(t) =~= frontier(c[0]));
        } else {
            // the rule's last symbol is a token other than `NOT`, or the
            // rule is `pred NOT LIT`, whose last symbol is `LIT`
            let kd = if k == 0 {
                Type::EOF
            } else if k == 4 {
                Type::RPAREN
            } else if k == 7 {
                Type::LIT
            } else if k == 2 {
                Type::AND
            } else {
                Type::OR
            };
            if k == 2 || k == 6 {
                lemma_shaped_seq(c, r, 2);
                lemma_frontier_ends(c[0]);
                lemma_shaped_seq(c, r, 1);
                lemma_frontier_ends(c[0]);
                let c2 = c1.drop_last();
                assert(frontier_rev(c1) == frontier(c1.last()) + frontier_rev(c2));
                assert(frontier_rev(c2) == frontier(c2.last()) + frontier_rev(c2.drop_last()));
                assert(c2.drop_last().len() == 0);
                assert(frontier_rev(c2.drop_last()) =~= Seq::<(Seq<char>, Type)>::empty());
                assert(frontier(t).last() == frontier(c[0]).last());
            } else {
                lemma_leaf(c[0], kd);
                lemma_last_of_rev(c);
            }
        }
    }
}

/// The last leaf under children stored rightmost first is the last leaf of
/// the first child, where that child has leaves.
proof fn lemma_last_of_rev(c: Seq<PTree>)
    requires
        c.len() > 0,
        frontier(c[0]).len() > 0,
    ensures
        frontier_rev(c).len() > 0,
        frontier_rev(c).last() == frontier(c[0]).last(),
    decreases c.len(),
{
    let c1 = c.drop_last();
    if c.len() == 1 {
        assert(frontier_rev(c1) =~= Seq::<(Seq<char>, Type)>::empty());
        assert(frontier_rev(c) =~= frontier(c[0]));
    } else {
        assert(c1[0] == c[0]);
        lemma_last_of_rev(c1);
    }
}

/// The literals of the formula that a tree shaped by the grammar converts
/// to are, from left to right, one for each `LIT` token at its leaves,
/// named by the token's whole lexeme and negated exactly where a `NOT` token
/// comes just before it.
pub proof fn law_ast_literals(t: PTree)
    requires
        shaped(t),
        ast_of(t) is Some,
    ensures
        literals(ast_of(t)->Some_0) == signed_lits(frontier(t)),
    decreases t,
{
    if let PVal::Rule(r) = t.val {
        let k = find_from(rule_table(), r, 0);
        lemma_rule(r);
        lemma_symbols();
        let c = t.children;
        assert(rule_table()[k] == rule_entry(k));
        let c1 = c.drop_last();
        if k == 1 || k == 3 || k == 5 || k == 8 {
            lemma_shaped_seq(c, r, 0);
            assert(frontier_rev(c1) =~= Seq::<(Seq<char>, Type)>::empty());
            assert(frontier(t) =~= frontier(c[0]));
            if k == 8 {
                lemma_leaf(c[0], Type::LIT);
                let x = token_of(c[0]);
                assert(seq![(x, Type::LIT)].drop_last() =~= Seq::<(Seq<char>, Type)>::empty());
                assert(signed_lits(seq![(x, Type::LIT)].drop_last()) =~= Seq::<(bool, Seq<char>)>::empty());
                assert(signed_lits(frontier(t)) =~= seq![(false, x)]);
            } else {
                law_ast_literals(c[0]);
            }
        } else if k == 7 {
            lemma_shaped_seq(c, r, 0);
            lemma_shaped_seq(c, r, 1);
            lemma_leaf(c[0], Type::LIT);
            lemma_leaf(c[1], Type::NOT);
            let x = token_of(c[0]);
            let y = token_of(c[1]);
            assert(c.len() == 2);
            assert(c1.drop_last().len() == 0);
            assert(frontier_rev(c1.drop_last()) =~= Seq::<(Seq<char>, Type)>::empty());
            assert(frontier(t) == frontier(c[1]) + frontier_rev(c1));
            assert(frontier_rev(c1) == frontier(c[0]) + frontier_rev(c1.drop_last()));
            assert(frontier(t) =~= seq![(y, Type::NOT), (x, Type::LIT)]);
            let ts = seq![(y, Type::NOT), (x, Type::LIT)];
            assert(ts.drop_last() =~= seq![(y, Type::NOT)]);
            assert(ts.drop_last().drop_last() =~= Seq::<(Seq<char>, Type)>::empty());
            assert(signed_lits(ts.drop_last().drop_last()) =~= Seq::<(bool, Seq<char>)>::empty());
            assert(signed_lits(ts.drop_last()) =~= Seq::<(bool, Seq<char>)>::empty());
            assert(signed_lits(ts) =~= seq![(true, x)]);
            assert(literals(ast_of(t)->Some_0) =~= seq![(true, x)]);
        } else {
            lemma_shaped_seq(c, r, 0);
            lemma_shaped_seq(c, r, 1);
            lemma_shaped_seq(c, r, 2);
            let c2 = c1.drop_last();
            assert(c2.drop_last().len() == 0);
            assert(frontier_rev(c2.drop_last()) =~= Seq::<(Seq<char>, Type)>::empty());
            let f0 = frontier(c[0]);
            let f1 = frontier(c[1]);
            let f2 = frontier(c[2]);
            assert(c.len() == 3);
            assert(frontier(t) == frontier(c[2]) + frontier_rev(c1));
            assert(frontier_rev(c1) == frontier(c[1]) + frontier_rev(c2));
            assert(frontier_rev(c2) == frontier(c[0]) + frontier_rev(c2.drop_last()));
            assert(frontier(t) =~= f2 + (f1 + f0));
            if k == 0 || k == 4 {
                law_ast_literals(c[1]);
                lemma_frontier_ends(c[1]);
                if k == 0 {
                    lemma_leaf(c[0], Type::EOF);
                    lemma_leaf(c[2], Type::BOF);
                } else {
                    lemma_leaf(c[0], Type::RPAREN);
                    lemma_leaf(c[2], Type::LPAREN);
                }
                lemma_signed_concat(f1, f0);
                lemma_signed_concat(f2, f1 + f0);
                assert(seq![(token_of(c[0]), f0[0].1)].drop_last() =~= Seq::<(Seq<char>, Type)>::empty());
                assert(signed_lits(f0.drop_last()) =~= Seq::<(bool, Seq<char>)>::empty());
                assert(signed_lits(f2.drop_last()) =~= Seq::<(bool, Seq<char>)>::empty());
                assert(signed_lits(frontier(t)) =~= signed_lits(f1));
            } else {
                law_ast_literals(c[0]);
                law_ast_literals(c[2]);
                lemma_frontier_ends(c[2]);
                if k == 2 {
                    lemma_leaf(c[1], Type::AND);
                } else {
                    lemma_leaf(c[1], Type::OR);
                }
                lemma_signed_concat(f1, f0);
                lemma_signed_concat(f2, f1 + f0);
                assert(signed_lits(f1.drop_last()) =~= Seq::<(bool, Seq<char>)>::empty());
                let a = ast_of(c[2])->Some_0;
                let b = ast_of(c[0])->Some_0;
                assert(seq![a, b].drop_last() =~= seq![a]);
                assert(seq![a].drop_last() =~= Seq::<Formula>::empty());
                assert(literals_seq(seq![a].drop_last()) =~= Seq::<(bool, Seq<char>)>::empty());
                assert(literals_seq(seq![a]) =~= literals(a));
                assert(signed_lits(frontier(t)) =~= signed_lits(f2) + signed_lits(f0));
            }
        }
    }
}

} // verus!
