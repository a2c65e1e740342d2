//! The parse table and the grammar, read from the lines of their files.

use vstd::prelude::*;
use crate::text::{words, strs, split_whitespace, usize_of, parse_usize, append_str};

verus! {

/// An action of the table: whether to reduce, and the rule to reduce by or
/// the state to shift to.
#[derive(Clone, Copy, Debug, PartialEq, Eq, Structural)]
pub struct ReducePair(pub bool, pub usize);

/// The parse table: for each state, the actions by symbol name.
pub struct LrTable {
    pub rows: Vec<Vec<(String, ReducePair)>>,
}

/// The actions of one state, by symbol name, in the order they were entered.
pub type Row = Seq<(Seq<char>, (bool, usize))>;

/// The rows of a table.
pub type TView = Seq<Row>;

/// The value of a row.
pub open spec fn row_view(r: Seq<(String, ReducePair)>) -> Row {
    r.map_values(|e: (String, ReducePair)| (e.0@, (e.1.0, e.1.1)))
}

/// The value of the rows of a table.
pub open spec fn table_view(rows: Seq<Vec<(String, ReducePair)>>) -> TView {
    rows.map_values(|r: Vec<(String, ReducePair)>| row_view(r@))
}

impl View for LrTable {
    type V = TView;

    open spec fn view(&self) -> TView {
        table_view(self.rows@)
    }
}

/// The position of the last entry for `k` in a row, or -1.
pub open spec fn ridx(r: Row, k: Seq<char>) -> int
    decreases r.len(),
{
    if r.len() == 0 {
        -1
    } else if r.last().0 == k {
        r.len() - 1
    } else {
        ridx(r.drop_last(), k)
    }
}

/// The action for symbol `k` in a row, where there is one.
pub open spec fn rget(r: Row, k: Seq<char>) -> Option<(bool, usize)> {
    if ridx(r, k) >= 0 {
        Some(r[ridx(r, k)].1)
    } else {
        None
    }
}

/// A row with the action for `k` replaced, or added last.
pub open spec fn rset(r: Row, k: Seq<char>, v: (bool, usize)) -> Row {
    if ridx(r, k) >= 0 {
        r.update(ridx(r, k), (k, v))
    } else {
        r.push((k, v))
    }
}

pub proof fn lemma_ridx(r: Row, k: Seq<char>)
    ensures
        -1 <= ridx(r, k) < r.len(),
        ridx(r, k) >= 0 ==> r[ridx(r, k)].0 == k,
    decreases r.len(),
{
    if r.len() > 0 {
        lemma_ridx(r.drop_last(), k);
    }
}

/// The word `reduce`.
pub open spec fn reduce_word() -> Seq<char> {
    seq!['r', 'e', 'd', 'u', 'c', 'e']
}

/// Whether a word is a brace or a comma of the set notation.
pub open spec fn is_punct(w: Seq<char>) -> bool {
    w == seq!['{'] || w == seq!['}'] || w == seq![',']
}

/// The words that are not braces or commas, in order.
pub open spec fn drop_punct(ws: Seq<Seq<char>>) -> Seq<Seq<char>>
    decreases ws.len(),
{
    if ws.len() == 0 {
        ws
    } else {
        let r = drop_punct(ws.drop_last());
        if is_punct(ws.last()) {
            r
        } else {
            r.push(ws.last())
        }
    }
}

/// The symbols of a line: the words between the first and the last two,
/// braces and commas dropped.
pub open spec fn symbols_of(ws: Seq<Seq<char>>) -> Seq<Seq<char>> {
    drop_punct(if ws.len() >= 3 { ws.subrange(1, ws.len() - 2) } else { Seq::empty() })
}

/// A row with each symbol given the action `v`, in order.
pub open spec fn insert_all(r: Row, syms: Seq<Seq<char>>, v: (bool, usize)) -> Row
    decreases syms.len(),
{
    if syms.len() == 0 {
        r
    } else {
        rset(insert_all(r, syms.drop_last(), v), syms.last(), v)
    }
}

/// A table extended with empty rows to at least `n` rows.
pub open spec fn grow(t: TView, n: nat) -> TView {
    if t.len() < n {
        t + Seq::new((n - t.len()) as nat, |i: int| Seq::<(Seq<char>, (bool, usize))>::empty())
    } else {
        t
    }
}

/// Whether a line of the table file can be read: it is empty, or it has at
/// least two words, the first (the state) and the last (the target) being
/// numbers, and the state less than the largest `usize`.
pub open spec fn line_ok(ws: Seq<Seq<char>>) -> bool {
    ws.len() == 0 || (ws.len() >= 2 && usize_of(ws[0]) is Some && usize_of(ws.last()) is Some
        && usize_of(ws[0]).unwrap() < usize::MAX)
}

/// The table after one line `STATE SYMBOLS (shift|reduce) TARGET`: every
/// symbol of the line gets the action in the row of the state.
pub open spec fn add_line(t: TView, ws: Seq<Seq<char>>) -> TView {
    if ws.len() == 0 {
        t
    } else {
        let i = usize_of(ws[0]).unwrap();
        let o = usize_of(ws.last()).unwrap();
        let red = ws[ws.len() - 2] == reduce_word();
        let t1 = grow(t, (i + 1) as nat);
        t1.update(i as int, insert_all(t1[i as int], symbols_of(ws), (red, o)))
    }
}

/// The table that the lines describe, read in order.
pub open spec fn table_of(lines: Seq<Seq<char>>) -> TView
    decreases lines.len(),
{
    if lines.len() == 0 {
        Seq::empty()
    } else {
        add_line(table_of(lines.drop_last()), words(lines.last()))
    }
}

/// Whether every line can be read.
pub open spec fn lines_ok(lines: Seq<Seq<char>>) -> bool {
    forall|i: int| 0 <= i < lines.len() ==> line_ok(words(#[trigger] lines[i]))
}

/// The rules of a grammar file: the words of each line.
pub open spec fn grammar_of(lines: Seq<Seq<char>>) -> Seq<Seq<Seq<char>>> {
    lines.map_values(|l: Seq<char>| words(l))
}

/// The rules of a grammar, each as its words.
pub open spec fn grammar_view(g: Seq<Vec<String>>) -> Seq<Seq<Seq<char>>> {
    g.map_values(|r: Vec<String>| strs(r@))
}

/// A copy of a row.
fn clone_row(row: &Vec<(String, ReducePair)>) -> (r: Vec<(String, ReducePair)>)
    ensures
        row_view(r@) == row_view(row@),
{
    let mut out: Vec<(String, ReducePair)> = Vec::new();
    let mut i: usize = 0;
    while i < row.len()
        invariant
            i <= row.len(),
            row_view(out@) == row_view(row@).take(i as int),
        decreases row.len() - i,
    {
        let ghost before = out@;
        let e = (row[i].0.clone(), row[i].1);
        out.push(e);
        assert(row_view(out@) =~= row_view(before).push((e.0@, (e.1.0, e.1.1))));
        i = i + 1;
    }
    out
}

/// Gives symbol `k` the action `v` in a row.
fn row_insert(row: &mut Vec<(String, ReducePair)>, k: &String, v: ReducePair)
    ensures
        row_view(final(row)@) == rset(row_view(old(row)@), k@, (v.0, v.1)),
{
    let ghost r = row_view(row@);
    proof {
        lemma_ridx(r, k@);
    }
    let mut i: usize = row.len();
    assert(r.take(i as int) =~= r);
    while i > 0
        invariant
            i <= row.len(),
            r == row_view(row@),
            row@ == old(row)@,
            ridx(r, k@) == ridx(r.take(i as int), k@),
            -1 <= ridx(r, k@) < r.len(),
        decreases i,
    {
        assert(r.take(i as int).drop_last() =~= r.take(i - 1));
        if row[i - 1].0 == *k {
            row.set(i - 1, (k.clone(), v));
            return;
        }
        i = i - 1;
    }
    row.push((k.clone(), v));
}

/// The action for symbol `k` in a row.
pub fn row_get(row: &Vec<(String, ReducePair)>, k: &String) -> (r: Option<ReducePair>)
    ensures
        match r {
            Some(p) => rget(row_view(row@), k@) == Some((p.0, p.1)),
            None => rget(row_view(row@), k@) is None,
        },
{
    let ghost rv = row_view(row@);
    proof {
        lemma_ridx(rv, k@);
    }
    let mut i: usize = row.len();
    assert(rv.take(i as int) =~= rv);
    while i > 0
        invariant
            i <= row.len(),
            rv == row_view(row@),
            ridx(rv, k@) == ridx(rv.take(i as int), k@),
            -1 <= ridx(rv, k@) < rv.len(),
        decreases i,
    {
        assert(rv.take(i as int).drop_last() =~= rv.take(i - 1));
        if row[i - 1].0 == *k {
            return Some(row[i - 1].1);
        }
        i = i - 1;
    }
    None
}

/// Whether every line of a table file can be read.
pub fn lr1_lines_ok(lines: &Vec<String>) -> (r: bool)
    ensures
        r == lines_ok(strs(lines@)),
{
    let ghost ls = strs(lines@);
    let mut i: usize = 0;
    while i < lines.len()
        invariant
            i <= lines.len(),
            ls == strs(lines@),
            forall|j: int| 0 <= j < i ==> line_ok(words(#[trigger] ls[j])),
        decreases lines.len() - i,
    {
        let ws = split_whitespace(&lines[i]);
        assert(ls[i as int] == lines@[i as int]@);
        if ws.len() != 0 {
            if ws.len() < 2 {
                return false;
            }
            let a = parse_usize(&ws[0]);
            let b = parse_usize(&ws[ws.len() - 1]);
            match (a, b) {
                (Some(x), Some(_)) => {
                    if x == usize::MAX {
                        return false;
                    }
                },
                _ => {
                    return false;
                },
            }
        }
        i = i + 1;
    }
    true
}

/// Reads the parse table from the lines of its file: each line
/// `STATE SYMBOLS (shift|reduce) TARGET`, where SYMBOLS is a symbol or a set
/// `{ A , B }`, gives every symbol that action in the row of the state (a
/// later line overrides an earlier one for the same state and symbol).
pub fn read_lr1(lines: &Vec<String>) -> (t: LrTable)
    requires
        lines_ok(strs(lines@)),
    ensures
        t@ == table_of(strs(lines@)),
{
    let ghost ls = strs(lines@);
    let mut lr_vec: Vec<Vec<(String, ReducePair)>> = Vec::new();
    let mut reduce_s = String::new();
    append_str(&mut reduce_s, "reduce");
    proof {
        reveal_strlit("reduce");
    }
    let mut idx: usize = 0;
    while idx < lines.len()
        invariant
            idx <= lines.len(),
            ls == strs(lines@),
            ls.len() == lines.len(),
            lines_ok(ls),
            reduce_s@ == reduce_word(),
            table_view(lr_vec@) == table_of(ls.take(idx as int)),
        decreases lines.len() - idx,
    {
        assert(ls.take(idx + 1).drop_last() =~= ls.take(idx as int));
        assert(ls.take(idx + 1).last() == ls[idx as int]);
        let line_vec = split_whitespace(&lines[idx]);
        let ghost ws = strs(line_vec@);
        if line_vec.len() > 0 {
            let n = line_vec.len();
            let in_state = match parse_usize(&line_vec[0]) {
                Some(x) => x,
                None => 0,
            };
            let out_state = match parse_usize(&line_vec[n - 1]) {
                Some(x) => x,
                None => 0,
            };
            let is_red = line_vec[n - 2] == reduce_s;
            // the symbols: the words between the first and the last two,
            // braces and commas dropped
            let mut syms: Vec<String> = Vec::new();
            let mut j: usize = 1;
            let ghost mid = if ws.len() >= 3 { ws.subrange(1, ws.len() - 2) } else { Seq::empty() };
            while j + 2 < n
                invariant
                    n == line_vec.len(),
                    n >= 2,
                    1 <= j,
                    j + 2 <= n || j == 1,
                    ws == strs(line_vec@),
                    mid == (if ws.len() >= 3 { ws.subrange(1, ws.len() - 2) } else { Seq::empty() }),
                    strs(syms@) == drop_punct(mid.take(j - 1)),
                decreases n - j,
            {
                assert(mid.take(j as int).drop_last() =~= mid.take(j - 1));
                let w = &line_vec[j];
                let is_p = {
                    let mut b1 = String::new();
                    append_str(&mut b1, "{");
                    let mut b2 = String::new();
                    append_str(&mut b2, "}");
                    let mut b3 = String::new();
                    append_str(&mut b3, ",");
                    proof {
                        reveal_strlit("{");
                        reveal_strlit("}");
                        reveal_strlit(",");
                    }
                    assert(b1@ =~= seq!['{']);
                    assert(b2@ =~= seq!['}']);
                    assert(b3@ =~= seq![',']);
                    *w == b1 || *w == b2 || *w == b3
                };
                if !is_p {
                    syms.push(w.clone());
                }
                j = j + 1;
            }
            assert(mid.take(mid.len() as int) =~= mid);
            if lr_vec.len() <= in_state {
                let ghost t0 = table_view(lr_vec@);
                while lr_vec.len() < in_state + 1
                    invariant
                        lr_vec.len() <= in_state + 1,
                        in_state < usize::MAX,
                        t0.len() <= lr_vec.len(),
                        forall|k: int| 0 <= k < t0.len() ==> #[trigger] row_view(lr_vec@[k]@) == t0[k],
                        forall|k: int| t0.len() <= k < lr_vec.len() ==> #[trigger] row_view(lr_vec@[k]@) == Seq::<(Seq<char>, (bool, usize))>::empty(),
                    decreases in_state + 1 - lr_vec.len(),
                {
                    lr_vec.push(Vec::new());
                }
            }
            let ghost t1 = table_view(lr_vec@);
            let mut row = clone_row(&lr_vec[in_state]);
            let mut k: usize = 0;
            let ghost sv = strs(syms@);
            while k < syms.len()
                invariant
                    k <= syms.len(),
                    sv == strs(syms@),
                    row_view(row@) == insert_all(t1[in_state as int], sv.take(k as int), (is_red, out_state)),
                decreases syms.len() - k,
            {
                assert(sv.take(k + 1).drop_last() =~= sv.take(k as int));
                row_insert(&mut row, &syms[k], ReducePair(is_red, out_state));
                k = k + 1;
            }
            assert(sv.take(syms.len() as int) =~= sv);
            lr_vec.set(in_state, row);
        }
        idx = idx + 1;
    }
    assert(ls.take(lines.len() as int) =~= ls);
    LrTable { rows: lr_vec }
}

/// The table from the lines of its file, or `None` where a line cannot be
/// read.
pub fn try_read_lr1(lines: &Vec<String>) -> (r: Option<LrTable>)
    ensures
        match r {
            Some(t) => lines_ok(strs(lines@)) && t@ == table_of(strs(lines@)),
            None => !lines_ok(strs(lines@)),
        },
{
    if lr1_lines_ok(lines) {
        Some(read_lr1(lines))
    } else {
        None
    }
}

/// Reads the rules of a grammar from the lines of its file: each line is a
/// rule, its left-hand side first, its symbols separated by whitespace.
pub fn read_grammar(lines: &Vec<String>) -> (g: Vec<Vec<String>>)
    ensures
        grammar_view(g@) == grammar_of(strs(lines@)),
{
    let mut g: Vec<Vec<String>> = Vec::new();
    let mut i: usize = 0;
    while i < lines.len()
        invariant
            i <= lines.len(),
            grammar_view(g@) == grammar_of(strs(lines@)).take(i as int),
        decreases lines.len() - i,
    {
        let ws = split_whitespace(&lines[i]);
        let ghost before = g@;
        g.push(ws);
        assert(grammar_view(g@) =~= grammar_view(before).push(strs(ws@)));
        i = i + 1;
    }
    g
}

} // verus!
