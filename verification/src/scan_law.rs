//! What the scanner makes of its input: a run of letters and digits is one
//! token, whole, the keyword `and`, `or` or `not` where it is exactly that
//! word and a literal otherwise; a symbol is a token of its own; whitespace
//! gives no token; and input split by whitespace scans part by part.

use vstd::prelude::*;
use crate::text::{is_alphanumeric, is_whitespace};
use crate::cnf_scan::{
    State, Type, table_entry, transition_table, lookup_from, lookup, step, type_of, accepting, munch,
    scannable, drop_whitespace, scan_spec,
};

verus! {

/// Whether `c` is a letter or digit, and none of the symbols that the
/// scanner reads on their own.
pub open spec fn word_char(c: char) -> bool {
    is_alphanumeric(c) && c != '(' && c != ')' && c != '&' && c != '|' && c != '!'
}

/// Whether `w` is a word: one or more letters or digits.
pub open spec fn is_word(w: Seq<char>) -> bool {
    w.len() > 0 && forall|i: int| 0 <= i < w.len() ==> word_char(#[trigger] w[i])
}

/// The kind of token a word is: a keyword where it is exactly `and`, `or` or
/// `not`, a literal otherwise.
pub open spec fn word_kind(w: Seq<char>) -> Type {
    if w == seq!['a', 'n', 'd'] {
        Type::AND
    } else if w == seq!['o', 'r'] {
        Type::OR
    } else if w == seq!['n', 'o', 't'] {
        Type::NOT
    } else {
        Type::LIT
    }
}

/// Whether `l` begins one of the keywords (or is one): `a`, `an`, `and`,
/// `n`, `no`, `not`, `o`, `or`.
spec fn keyword_prefix(l: Seq<char>) -> bool {
    ||| l.len() == 1 && (l[0] == 'a' || l[0] == 'n' || l[0] == 'o')
    ||| l.len() == 2 && ((l[0] == 'a' && l[1] == 'n') || (l[0] == 'n' && l[1] == 'o') || (l[0] == 'o' && l[1] == 'r'))
    ||| l.len() == 3 && ((l[0] == 'a' && l[1] == 'n' && l[2] == 'd') || (l[0] == 'n' && l[1] == 'o' && l[2] == 't'))
}

/// What the scanner's state says of the letters read so far in a word.
spec fn word_state(s: State, lex: Seq<char>) -> bool {
    match s {
        State::AA => lex == seq!['a'],
        State::AN => lex == seq!['a', 'n'],
        State::AND => lex == seq!['a', 'n', 'd'],
        State::NN => lex == seq!['n'],
        State::NO => lex == seq!['n', 'o'],
        State::NOT => lex == seq!['n', 'o', 't'],
        State::OO => lex == seq!['o'],
        State::OR => lex == seq!['o', 'r'],
        State::LIT => lex.len() > 0 && !keyword_prefix(lex),
        _ => false,
    }
}

/// The explicit transitions, one by one, from position `k` on.
proof fn lemma_lookup_from(q: State, c: char, k: int)
    requires
        0 <= k <= 13,
    ensures
        lookup_from(transition_table(), q, c, k) == (if k <= 0 && q == State::START && c == '(' {
            State::LPAREN
        } else if k <= 1 && q == State::START && c == ')' {
            State::RPAREN
        } else if k <= 2 && q == State::START && c == '|' {
            State::BAR
        } else if k <= 3 && q == State::START && c == '&' {
            State::AMP
        } else if k <= 4 && q == State::START && c == '!' {
            State::BANG
        } else if k <= 5 && q == State::START && c == 'a' {
            State::AA
        } else if k <= 6 && q == State::AA && c == 'n' {
            State::AN
        } else if k <= 7 && q == State::AN && c == 'd' {
            State::AND
        } else if k <= 8 && q == State::START && c == 'n' {
            State::NN
        } else if k <= 9 && q == State::NN && c == 'o' {
            State::NO
        } else if k <= 10 && q == State::NO && c == 't' {
            State::NOT
        } else if k <= 11 && q == State::START && c == 'o' {
            State::OO
        } else if k <= 12 && q == State::OO && c == 'r' {
            State::OR
        } else {
            State::FAIL
        }),
    decreases 13 - k,
{
    let t = transition_table();
    assert(t.len() == 13);
    if k < 13 {
        assert(t[k] == table_entry(k));
        lemma_lookup_from(q, c, k + 1);
    }
}

/// A step of the scanner on a letter or digit, from the start or from a
/// state inside a word.
proof fn lemma_step_word(q: State, c: char)
    requires
        word_char(c),
        q == State::START || q == State::AA || q == State::AN || q == State::AND
            || q == State::NN || q == State::NO || q == State::NOT || q == State::OO || q == State::OR
            || q == State::LIT,
    ensures
        step(q, c) == (if q == State::START && c == 'a' {
            State::AA
        } else if q == State::AA && c == 'n' {
            State::AN
        } else if q == State::AN && c == 'd' {
            State::AND
        } else if q == State::START && c == 'n' {
            State::NN
        } else if q == State::NN && c == 'o' {
            State::NO
        } else if q == State::NO && c == 't' {
            State::NOT
        } else if q == State::START && c == 'o' {
            State::OO
        } else if q == State::OO && c == 'r' {
            State::OR
        } else {
            State::LIT
        }),
{
    lemma_lookup_from(q, c, 0);
}

/// A letter or digit read inside a word keeps what the state says of it.
proof fn lemma_word_step(s: State, lex: Seq<char>, c: char)
    requires
        word_char(c),
        s == State::START && lex.len() == 0 || word_state(s, lex),
    ensures
        word_state(step(s, c), lex.push(c)),
{
    lemma_step_word(s, c);
    let l = lex.push(c);
    assert(l.len() == lex.len() + 1 && l[lex.len() as int] == c);
    assert forall|k: int| 0 <= k < lex.len() implies l[k] == lex[k] by {}
    let n = step(s, c);
    if n == State::AA || n == State::NN || n == State::OO {
        assert(l =~= seq![c]);
    } else if n == State::AN || n == State::NO || n == State::OR {
        assert(l =~= seq![lex[0], c]);
    } else if n == State::AND || n == State::NOT {
        assert(l =~= seq![lex[0], lex[1], c]);
    }
}

/// The rest of a word, read from a state inside it, ends it as one token.
proof fn lemma_munch_word(w: Seq<char>, i: int, s: State)
    requires
        is_word(w),
        1 <= i <= w.len(),
        word_state(s, w.take(i)),
    ensures
        munch(w, i, s, w.take(i)) == seq![(w, word_kind(w))],
    decreases w.len() - i,
{
    if i < w.len() {
        lemma_word_step(s, w.take(i), w[i]);
        lemma_step_word(s, w[i]);
        assert(w.take(i).push(w[i]) =~= w.take(i + 1));
        lemma_munch_word(w, i + 1, step(s, w[i]));
    } else {
        assert(w.take(i) =~= w);
        if s == State::LIT {
            assert(w != seq!['a', 'n', 'd'] && w != seq!['o', 'r'] && w != seq!['n', 'o', 't']);
        }
    }
}

/// A word is scanned as one token whose lexeme is the whole word: the
/// keyword `and`, `or` or `not` where the word is exactly that, a literal
/// otherwise. A word that only begins like a keyword (`android`, `nothing`,
/// `order`, `a`, `no`) is a literal.
pub proof fn law_scan_word(w: Seq<char>)
    requires
        is_word(w),
    ensures
        scannable(w),
        scan_spec(w) == seq![(w, word_kind(w))],
{
    assert forall|i: int| 0 <= i < w.len() implies step(State::START, #[trigger] w[i]) != State::FAIL by {
        lemma_step_word(State::START, w[i]);
    }
    lemma_word_step(State::START, Seq::empty(), w[0]);
    lemma_step_word(State::START, w[0]);
    assert(Seq::<char>::empty().push(w[0]) =~= w.take(1));
    lemma_munch_word(w, 1, step(State::START, w[0]));
    let toks = munch(w, 0, State::START, Seq::empty());
    assert(toks == seq![(w, word_kind(w))]);
    assert(toks.drop_last() =~= Seq::<(Seq<char>, Type)>::empty());
    assert(drop_whitespace(toks.drop_last()) =~= Seq::<(Seq<char>, Type)>::empty());
    assert(drop_whitespace(toks) =~= seq![(w, word_kind(w))]);
}

/// Whether no whitespace character among `cs` counts as a letter or digit
/// (of the characters `char::is_whitespace` accepts, none is alphanumeric).
pub open spec fn blank_apart(cs: Seq<char>) -> bool {
    forall|i: int| 0 <= i < cs.len() && is_whitespace(#[trigger] cs[i]) ==> !is_alphanumeric(cs[i])
}

/// A step on a whitespace character: whitespace goes on from the start or
/// from whitespace; every other state cannot read it.
proof fn lemma_step_blank(q: State, c: char)
    requires
        is_whitespace(c),
        !is_alphanumeric(c),
    ensures
        step(q, c) == (if q == State::START || q == State::WHITESPACE { State::WHITESPACE } else { State::FAIL }),
{
    lemma_lookup_from(q, c, 0);
}

/// Only a whitespace character leads into the whitespace state; the
/// whitespace state reads nothing else.
proof fn lemma_step_into_blank(q: State, c: char)
    ensures
        step(q, c) == State::WHITESPACE ==> is_whitespace(c),
        q == State::WHITESPACE && !is_whitespace(c) ==> step(q, c) == State::FAIL,
{
    lemma_lookup_from(q, c, 0);
}

/// The scan of the input after a prefix is the scan of that part alone.
proof fn lemma_shift(pre: Seq<char>, q: Seq<char>, j: int, s: State, lex: Seq<char>)
    requires
        0 <= j <= q.len(),
    ensures
        munch(pre + q, pre.len() + j, s, lex) == munch(q, j, s, lex),
    decreases q.len() - j, (if s == State::START { 0int } else { 1int }),
{
    if j < q.len() {
        assert((pre + q)[pre.len() + j] == q[j]);
        let n = step(s, q[j]);
        if n == State::FAIL {
            if accepting(s) {
                lemma_shift(pre, q, j, State::START, Seq::empty());
            }
        } else {
            lemma_shift(pre, q, j + 1, n, lex.push(q[j]));
        }
    }
}

proof fn lemma_drop_concat(a: Seq<(Seq<char>, Type)>, b: Seq<(Seq<char>, Type)>)
    ensures
        drop_whitespace(a + b) == drop_whitespace(a) + drop_whitespace(b),
    decreases b.len(),
{
    if b.len() == 0 {
        assert(a + b =~= a);
        assert(drop_whitespace(a) + drop_whitespace(b) =~= drop_whitespace(a));
    } else {
        lemma_drop_concat(a, b.drop_last());
        assert((a + b).drop_last() =~= a + b.drop_last());
        assert(drop_whitespace(a + b) =~= drop_whitespace(a) + drop_whitespace(b));
    }
}

/// A whitespace token alone is dropped.
proof fn lemma_drop_blank(lex: Seq<char>)
    ensures
        drop_whitespace(seq![(lex, Type::WHITESPACE)]) == Seq::<(Seq<char>, Type)>::empty(),
{
    assert(seq![(lex, Type::WHITESPACE)].drop_last() =~= Seq::<(Seq<char>, Type)>::empty());
    assert(drop_whitespace(seq![(lex, Type::WHITESPACE)].drop_last()) =~= Seq::<(Seq<char>, Type)>::empty());
}

/// Scanning `p` followed by a whitespace character and more: up to the end
/// of `p` the scan is that of `p` alone, and the rest starts afresh.
proof fn lemma_munch_prefix(p: Seq<char>, t: Seq<char>, i: int, s: State, lex: Seq<char>)
    requires
        scannable(p),
        p.len() > 0,
        !is_whitespace(p[p.len() - 1]),
        t.len() > 0,
        is_whitespace(t[0]),
        !is_alphanumeric(t[0]),
        0 <= i <= p.len(),
        s != State::FAIL,
        i == p.len() ==> s != State::START && s != State::WHITESPACE,
    ensures
        munch(p + t, i, s, lex) == munch(p, i, s, lex) + munch(p + t, p.len() as int, State::START, Seq::empty()),
    decreases p.len() - i, (if s == State::START { 0int } else { 1int }),
{
    let cs = p + t;
    let rest = munch(cs, p.len() as int, State::START, Seq::empty());
    if i < p.len() {
        assert(cs[i] == p[i]);
        let n = step(s, p[i]);
        if n == State::FAIL {
            lemma_munch_prefix(p, t, i, State::START, Seq::empty());
            assert(seq![(lex, type_of(s))] + munch(p, i, State::START, Seq::empty()) + rest =~= seq![
                (lex, type_of(s)),
            ] + (munch(p, i, State::START, Seq::empty()) + rest));
        } else {
            crate::cnf_scan::lemma_step_not_start(s, p[i]);
            lemma_step_into_blank(s, p[i]);
            lemma_munch_prefix(p, t, i + 1, n, lex.push(p[i]));
        }
    } else {
        assert(cs[i] == t[0]);
        lemma_step_blank(s, t[0]);
    }
}

/// From the whitespace state, the tokens that are not whitespace are those
/// of a scan started afresh at the same place.
proof fn lemma_blank_run(cs: Seq<char>, i: int, lex: Seq<char>)
    requires
        0 <= i <= cs.len(),
        blank_apart(cs),
    ensures
        drop_whitespace(munch(cs, i, State::WHITESPACE, lex)) == drop_whitespace(
            munch(cs, i, State::START, Seq::empty()),
        ),
    decreases cs.len() - i,
{
    lemma_drop_blank(lex);
    if i < cs.len() {
        let c = cs[i];
        if is_whitespace(c) {
            lemma_step_blank(State::WHITESPACE, c);
            lemma_step_blank(State::START, c);
            lemma_blank_run(cs, i + 1, lex.push(c));
            lemma_blank_run(cs, i + 1, Seq::<char>::empty().push(c));
        } else {
            lemma_step_into_blank(State::WHITESPACE, c);
            lemma_drop_concat(seq![(lex, Type::WHITESPACE)], munch(cs, i, State::START, Seq::empty()));
            assert(Seq::<(Seq<char>, Type)>::empty() + drop_whitespace(munch(cs, i, State::START, Seq::empty()))
                =~= drop_whitespace(munch(cs, i, State::START, Seq::empty())));
        }
    }
}

/// Input split by a whitespace character scans part by part: the tokens of
/// `p`, then those of `q`. (The part before the split ends in a character
/// other than whitespace.)
pub proof fn law_scan_split(p: Seq<char>, c: char, q: Seq<char>)
    requires
        scannable(p),
        scannable(q),
        p.len() > 0,
        !is_whitespace(p[p.len() - 1]),
        is_whitespace(c),
        blank_apart(p + seq![c] + q),
    ensures
        scannable(p + seq![c] + q),
        scan_spec(p + seq![c] + q) == scan_spec(p) + scan_spec(q),
{
    let cs = p + seq![c] + q;
    let t = seq![c] + q;
    let pre = p + seq![c];
    assert(cs =~= p + t);
    assert(cs =~= pre + q);
    assert(cs[p.len() as int] == c);
    assert(!is_alphanumeric(c));
    assert forall|i: int| 0 <= i < cs.len() implies step(State::START, #[trigger] cs[i]) != State::FAIL by {
        if i < p.len() {
            assert(cs[i] == p[i]);
        } else if i == p.len() {
            lemma_step_blank(State::START, c);
        } else {
            assert(cs[i] == q[i - p.len() - 1]);
        }
    }
    lemma_munch_prefix(p, t, 0, State::START, Seq::empty());
    let rest = munch(cs, p.len() as int, State::START, Seq::empty());
    lemma_step_blank(State::START, c);
    assert(Seq::<char>::empty().push(c) =~= seq![c]);
    lemma_blank_run(cs, (p.len() + 1) as int, seq![c]);
    lemma_shift(pre, q, 0, State::START, Seq::empty());
    lemma_drop_concat(munch(p, 0, State::START, Seq::empty()), rest);
}

/// Input of whitespace alone gives no token.
pub proof fn law_scan_blank(w: Seq<char>)
    requires
        forall|i: int| 0 <= i < w.len() ==> is_whitespace(#[trigger] w[i]),
        blank_apart(w),
    ensures
        scannable(w),
        scan_spec(w) == Seq::<(Seq<char>, Type)>::empty(),
{
    assert forall|i: int| 0 <= i < w.len() implies step(State::START, #[trigger] w[i]) != State::FAIL by {
        lemma_step_blank(State::START, w[i]);
    }
    if w.len() > 0 {
        lemma_step_blank(State::START, w[0]);
        lemma_blank_run(w, 1, Seq::<char>::empty().push(w[0]));
        lemma_blank_only(w, 1);
    }
}

proof fn lemma_blank_only(w: Seq<char>, i: int)
    requires
        0 <= i <= w.len(),
        forall|k: int| 0 <= k < w.len() ==> is_whitespace(#[trigger] w[k]),
        blank_apart(w),
    ensures
        drop_whitespace(munch(w, i, State::START, Seq::empty())) == Seq::<(Seq<char>, Type)>::empty(),
    decreases w.len() - i,
{
    if i < w.len() {
        lemma_step_blank(State::START, w[i]);
        lemma_blank_run(w, i + 1, Seq::<char>::empty().push(w[i]));
        lemma_blank_only(w, i + 1);
    }
}

/// Each symbol is a token of its own: `(` and `)` are parentheses, `&` is
/// a conjunction, `|` a disjunction and `!` a negation.
pub proof fn law_scan_symbols()
    ensures
        scan_spec(seq!['(']) == seq![(seq!['('], Type::LPAREN)],
        scan_spec(seq![')']) == seq![(seq![')'], Type::RPAREN)],
        scan_spec(seq!['&']) == seq![(seq!['&'], Type::AND)],
        scan_spec(seq!['|']) == seq![(seq!['|'], Type::OR)],
        scan_spec(seq!['!']) == seq![(seq!['!'], Type::NOT)],
{
    lemma_symbol('(', Type::LPAREN);
    lemma_symbol(')', Type::RPAREN);
    lemma_symbol('&', Type::AND);
    lemma_symbol('|', Type::OR);
    lemma_symbol('!', Type::NOT);
}

proof fn lemma_symbol(c: char, k: Type)
    requires
        (c == '(' && k == Type::LPAREN) || (c == ')' && k == Type::RPAREN) || (c == '&' && k == Type::AND) || (c
            == '|' && k == Type::OR) || (c == '!' && k == Type::NOT),
    ensures
        scan_spec(seq![c]) == seq![(seq![c], k)],
{
    lemma_lookup_from(State::START, c, 0);
    let w = seq![c];
    assert(Seq::<char>::empty().push(c) =~= w);
    let n = step(State::START, c);
    assert(n != State::FAIL && accepting(n) && type_of(n) == k);
    assert(munch(w, 1, n, w) == seq![(w, k)]);
    let toks = munch(w, 0, State::START, Seq::empty());
    assert(toks == seq![(w, k)]);
    assert(toks.drop_last() =~= Seq::<(Seq<char>, Type)>::empty());
    assert(drop_whitespace(toks.drop_last()) =~= Seq::<(Seq<char>, Type)>::empty());
    assert(drop_whitespace(toks) =~= seq![(w, k)]);
}

} // verus!
