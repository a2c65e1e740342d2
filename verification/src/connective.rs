//! Formulas: conjunctions and disjunctions of possibly negated literals.

use vstd::prelude::*;
use crate::text::{spaces, spaces_string, append_str};
use crate::formula::{
    Formula, view_seq, view_conn, lemma_view_seq, first_index, lemma_first_index, remove_first,
};

verus! {

broadcast use lemma_view_seq;

/// A formula as the parser builds it. `Literal(true, x)` is `NOT x`.
pub enum Connective {
    And(Vec<Connective>),
    Or(Vec<Connective>),
    Literal(bool, String),
}

impl View for Connective {
    type V = Formula;

    open spec fn view(&self) -> Formula {
        view_conn(*self)
    }
}

/// The result of `Connective::add` on a formula's value.
pub open spec fn added(f: Formula, item: Formula) -> Formula {
    match f {
        Formula::And(s) => Formula::And(s.push(item)),
        Formula::Or(s) => Formula::Or(s.push(item)),
        Formula::Lit(n, x) => Formula::Lit(n, x),
    }
}

/// The result of `Connective::remove` on a formula's value.
pub open spec fn removed(f: Formula, item: Formula) -> Formula {
    match f {
        Formula::And(s) => Formula::And(remove_first(s, item)),
        Formula::Or(s) => Formula::Or(remove_first(s, item)),
        Formula::Lit(n, x) => Formula::Lit(n, x),
    }
}

/// A copy of a formula, of the same value.
pub fn clone_conn(c: &Connective) -> (r: Connective)
    ensures
        r@ == c@,
    decreases c,
{
    match c {
        Connective::And(v) => Connective::And(clone_vec(v)),
        Connective::Or(v) => Connective::Or(clone_vec(v)),
        Connective::Literal(n, s) => Connective::Literal(*n, s.clone()),
    }
}

/// A copy of a sequence of formulas, of the same values.
pub fn clone_vec(v: &Vec<Connective>) -> (r: Vec<Connective>)
    ensures
        view_seq(r@) == view_seq(v@),
    decreases v,
{
    let mut r: Vec<Connective> = Vec::new();
    let mut i: usize = 0;
    while i < v.len()
        invariant
            i <= v.len(),
            r.len() == i,
            forall|j: int| 0 <= j < i ==> view_conn(#[trigger] r@[j]) == view_conn(v@[j]),
        decreases v.len() - i,
    {
        let c = clone_conn(&v[i]);
        r.push(c);
        i = i + 1;
    }
    r
}

impl Clone for Connective {
    fn clone(&self) -> (r: Self)
        ensures
            r@ == self@,
    {
        clone_conn(self)
    }
}

/// Whether two formulas have the same value.
pub fn conn_eq(a: &Connective, b: &Connective) -> (r: bool)
    ensures
        r == (a@ == b@),
    decreases a,
{
    match a {
        Connective::And(vec) => match b {
            Connective::And(rhs_vec) => conn_vec_eq(vec, rhs_vec),
            _ => false,
        },
        Connective::Or(vec) => match b {
            Connective::Or(rhs_vec) => conn_vec_eq(vec, rhs_vec),
            _ => false,
        },
        Connective::Literal(is_not, lex) => match b {
            Connective::Literal(rhs_not, rhs_lex) => *is_not == *rhs_not && lex.eq(rhs_lex),
            _ => false,
        },
    }
}

/// Whether two sequences of formulas have the same values.
pub fn conn_vec_eq(lhs: &Vec<Connective>, rhs: &Vec<Connective>) -> (r: bool)
    ensures
        r == (view_seq(lhs@) == view_seq(rhs@)),
    decreases lhs,
{
    if lhs.len() == rhs.len() {
        let mut i: usize = 0;
        while i < lhs.len()
            invariant
                i <= lhs.len(),
                lhs.len() == rhs.len(),
                forall|j: int| 0 <= j < i ==> view_conn(#[trigger] lhs@[j]) == view_conn(rhs@[j]),
            decreases lhs.len() - i,
        {
            if !conn_eq(&lhs[i], &rhs[i]) {
                return false;
            }
            i = i + 1;
        }
        assert(view_seq(lhs@) =~= view_seq(rhs@));
        true
    } else {
        false
    }
}

impl PartialEq for Connective {
    fn eq(&self, other: &Self) -> (r: bool) {
        conn_eq(self, other)
    }
}

impl vstd::std_specs::cmp::PartialEqSpecImpl for Connective {
    open spec fn obeys_eq_spec() -> bool {
        true
    }

    open spec fn eq_spec(&self, other: &Self) -> bool {
        self@ == other@
    }
}

impl Connective {
    /// Appends a copy of `item` to a conjunction or a disjunction; a literal
    /// is left as it is.
    pub fn add(&mut self, item: &Connective)
        ensures
            final(self)@ == added(old(self)@, item@),
    {
            let c = clone_conn(item);
        match self {
            Connective::And(vec) => {
                let ghost before = vec@;
                vec.push(c);
                assert(view_seq(vec@) =~= view_seq(before).push(item@));
            },
            Connective::Or(vec) => {
                let ghost before = vec@;
                vec.push(c);
                assert(view_seq(vec@) =~= view_seq(before).push(item@));
            },
            Connective::Literal(_, _) => {},
        }
    }

    /// Whether this is a conjunction or a disjunction of nothing (a literal
    /// is never empty).
    pub fn empty(&self) -> (r: bool)
        ensures
            r == match self@ {
                Formula::And(s) => s.len() == 0,
                Formula::Or(s) => s.len() == 0,
                Formula::Lit(_, _) => false,
            },
    {
            match self {
            Connective::And(vec) => vec.len() == 0,
            Connective::Or(vec) => vec.len() == 0,
            Connective::Literal(_, _) => false,
        }
    }

    /// Removes the first part of a conjunction or a disjunction that equals
    /// `pred`; nothing changes where no part does, or on a literal.
    pub fn remove(&mut self, pred: &Connective)
        ensures
            final(self)@ == removed(old(self)@, pred@),
    {
        match self {
            Connective::And(vec) => {
                remove_first_from(vec, pred);
            },
            Connective::Or(vec) => {
                remove_first_from(vec, pred);
            },
            Connective::Literal(_, _) => {},
        }
    }
}

/// Removes from `vec` the first formula equal to `pred`, where there is one.
fn remove_first_from(vec: &mut Vec<Connective>, pred: &Connective)
    ensures
        view_seq(final(vec)@) == remove_first(view_seq(old(vec)@), pred@),
{
    let ghost s = view_seq(vec@);
    proof {
        lemma_first_index(s, pred@);
    }
    let mut i: usize = 0;
    while i < vec.len()
        invariant
            i <= vec.len(),
            vec@ == old(vec)@,
            s == view_seq(vec@),
            forall|j: int| 0 <= j < i ==> s[j] != pred@,
        decreases vec.len() - i,
    {
        if conn_eq(&vec[i], pred) {
            assert(first_index(s, pred@) == i) by {
                lemma_first_index(s, pred@);
            }
            vec.remove(i);
            return;
        }
        i = i + 1;
    }
}

/// The depth of nesting that printing a formula indents by.
pub open spec fn nesting(f: Formula) -> nat
    decreases f,
{
    match f {
        Formula::And(s) => if s.len() == 0 { 0 } else { 1 + nesting_seq(s) },
        Formula::Or(s) => if s.len() == 0 { 0 } else { 1 + nesting_seq(s) },
        Formula::Lit(_, _) => 0,
    }
}

/// The greatest nesting among a sequence of formulas.
pub open spec fn nesting_seq(s: Seq<Formula>) -> nat
    decreases s,
{
    if s.len() == 0 {
        0
    } else {
        let a = nesting_seq(s.drop_last());
        let b = nesting(s.last());
        if a < b { b } else { a }
    }
}

/// The lines that print a formula at indentation `indent`: a conjunction
/// or disjunction opens with `And(` or `Or(`, lists its parts two columns
/// further in, and closes with `)`; a literal is its name, after `NOT `
/// where it is negated.
pub open spec fn ast_lines(f: Formula, indent: nat) -> Seq<Seq<char>>
    decreases f,
{
    match f {
        Formula::And(s) => seq![spaces(indent) + seq!['A', 'n', 'd', '(']]
            + ast_lines_seq(s, indent + 2) + seq![spaces(indent) + seq![')']],
        Formula::Or(s) => seq![spaces(indent) + seq!['O', 'r', '(']]
            + ast_lines_seq(s, indent + 2) + seq![spaces(indent) + seq![')']],
        Formula::Lit(n, x) => seq![
            spaces(indent) + (if n { seq!['N', 'O', 'T', ' '] } else { Seq::empty() }) + x,
        ],
    }
}

/// The lines that print each formula of a sequence, one after another.
pub open spec fn ast_lines_seq(s: Seq<Formula>, indent: nat) -> Seq<Seq<char>>
    decreases s,
{
    if s.len() == 0 {
        Seq::empty()
    } else {
        ast_lines_seq(s.drop_last(), indent) + ast_lines(s.last(), indent)
    }
}

proof fn lemma_nesting_seq(s: Seq<Formula>, i: int)
    requires
        0 <= i < s.len(),
    ensures
        nesting(s[i]) <= nesting_seq(s),
    decreases s.len(),
{
    if i < s.len() - 1 {
        lemma_nesting_seq(s.drop_last(), i);
    }
}

/// `lines` with `n` spaces put in front of each line.
pub open spec fn shifted(lines: Seq<Seq<char>>, n: nat) -> Seq<Seq<char>> {
    lines.map_values(|l: Seq<char>| spaces(n) + l)
}

proof fn lemma_shifted_concat(x: Seq<Seq<char>>, y: Seq<Seq<char>>, n: nat)
    ensures
        shifted(x + y, n) == shifted(x, n) + shifted(y, n),
{
}

proof fn lemma_spaces_line(a: nat, b: nat, l: Seq<char>)
    ensures
        spaces(a + b) + l == spaces(b) + (spaces(a) + l),
{
}

/// Printing a formula `b` columns further in puts `b` spaces in front of
/// every line it prints.
pub proof fn law_indent(f: Formula, a: nat, b: nat)
    ensures
        ast_lines(f, a + b) == shifted(ast_lines(f, a), b),
    decreases f,
{
    match f {
        Formula::And(s) => {
            lemma_indent_seq(s, a + 2, b);
            lemma_spaces_line(a, b, seq!['A', 'n', 'd', '(']);
            lemma_spaces_line(a, b, seq![')']);
            let open = seq![spaces(a) + seq!['A', 'n', 'd', '(']];
            let close = seq![spaces(a) + seq![')']];
            let mid = ast_lines_seq(s, a + 2);
            lemma_shifted_concat(open + mid, close, b);
            lemma_shifted_concat(open, mid, b);
        },
        Formula::Or(s) => {
            lemma_indent_seq(s, a + 2, b);
            lemma_spaces_line(a, b, seq!['O', 'r', '(']);
            lemma_spaces_line(a, b, seq![')']);
            let open = seq![spaces(a) + seq!['O', 'r', '(']];
            let close = seq![spaces(a) + seq![')']];
            let mid = ast_lines_seq(s, a + 2);
            lemma_shifted_concat(open + mid, close, b);
            lemma_shifted_concat(open, mid, b);
        },
        Formula::Lit(n, x) => {
            let rest = (if n { seq!['N', 'O', 'T', ' '] } else { Seq::empty() }) + x;
            lemma_spaces_line(a, b, rest);
            assert(spaces(a) + (if n { seq!['N', 'O', 'T', ' '] } else { Seq::empty() }) + x =~= spaces(a) + rest);
            assert(spaces(a + b) + (if n { seq!['N', 'O', 'T', ' '] } else { Seq::empty() }) + x =~= spaces(a + b)
                + rest);
        },
    }
}

proof fn lemma_indent_seq(s: Seq<Formula>, a: nat, b: nat)
    ensures
        ast_lines_seq(s, a + b) == shifted(ast_lines_seq(s, a), b),
    decreases s,
{
    if s.len() > 0 {
        lemma_indent_seq(s.drop_last(), a, b);
        law_indent(s.last(), a, b);
        lemma_shifted_concat(ast_lines_seq(s.drop_last(), a), ast_lines(s.last(), a), b);
    }
}

/// The characters of each line.
pub open spec fn lines_view(v: Seq<String>) -> Seq<Seq<char>> {
    v.map_values(|l: String| l@)
}

fn ast_print_helper(node: &Connective, s: u16) -> (lines: Vec<String>)
    requires
        s + 2 * nesting(node@) <= u16::MAX,
    ensures
        lines_view(lines@) == ast_lines(node@, s as nat),
    decreases node,
{
    match node {
        Connective::And(vec) => {
            let mut line = spaces_string(s as usize);
            append_str(&mut line, "And(");
            proof {
                reveal_strlit("And(");
            }
            let mut out = vec![line];
            let mut inner = ast_print_children(vec, s);
            let mut close = spaces_string(s as usize);
            append_str(&mut close, ")");
            proof {
                reveal_strlit(")");
            }
            out.append(&mut inner);
            out.push(close);
            assert(lines_view(out@) =~~= ast_lines(node@, s as nat));
            out
        },
        Connective::Or(vec) => {
            let mut line = spaces_string(s as usize);
            append_str(&mut line, "Or(");
            proof {
                reveal_strlit("Or(");
            }
            let mut out = vec![line];
            let mut inner = ast_print_children(vec, s);
            let mut close = spaces_string(s as usize);
            append_str(&mut close, ")");
            proof {
                reveal_strlit(")");
            }
            out.append(&mut inner);
            out.push(close);
            assert(lines_view(out@) =~~= ast_lines(node@, s as nat));
            out
        },
        Connective::Literal(is_not, lit) => {
            let mut line = spaces_string(s as usize);
            if *is_not {
                append_str(&mut line, "NOT ");
                proof {
                    reveal_strlit("NOT ");
                }
            }
            append_str(&mut line, lit.as_str());
            let out = vec![line];
            assert(lines_view(out@) =~~= ast_lines(node@, s as nat));
            out
        },
    }
}

/// The lines of the parts of a conjunction or disjunction printed at `s`.
fn ast_print_children(vec: &Vec<Connective>, s: u16) -> (lines: Vec<String>)
    requires
        vec.len() > 0 ==> s + 2 + 2 * nesting_seq(view_seq(vec@)) <= u16::MAX,
    ensures
        lines_view(lines@) == ast_lines_seq(view_seq(vec@), s as nat + 2),
    decreases vec,
{
    let ghost items = view_seq(vec@);
    let mut out: Vec<String> = Vec::new();
    let mut i: usize = 0;
    while i < vec.len()
        invariant
            i <= vec.len(),
            items == view_seq(vec@),
            lines_view(out@) == ast_lines_seq(items.take(i as int), s as nat + 2),
            vec.len() > 0 ==> s + 2 + 2 * nesting_seq(items) <= u16::MAX,
        decreases vec.len() - i,
    {
        proof {
            lemma_nesting_seq(items, i as int);
        }
        let mut child = ast_print_helper(&vec[i], s + 2);
        out.append(&mut child);
        proof {
            assert(items.take(i + 1).drop_last() =~= items.take(i as int));
        }
        i = i + 1;
    }
    assert(items.take(vec.len() as int) =~= items);
    out
}

/// The lines that print a formula, one `String` per line.
pub fn ast_print(node: &Connective) -> (lines: Vec<String>)
    requires
        2 * nesting(node@) <= u16::MAX,
    ensures
        lines_view(lines@) == ast_lines(node@, 0),
{
    ast_print_helper(node, 0)
}

} // verus!
