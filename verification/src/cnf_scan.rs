//! The scanner: a finite automaton run by simplified maximal munch.

use vstd::prelude::*;
use crate::text::{
    is_alphanumeric, is_whitespace, char_is_alphanumeric, char_is_whitespace, push_char,
    append_str,
};

verus! {

/// The kind of a token.
#[derive(Clone, Copy, Debug, PartialEq, Eq, Structural)]
pub enum Type {
    LPAREN,
    RPAREN,
    AND,
    OR,
    NOT,
    LIT,
    WHITESPACE,
    BOF,
    EOF,
    FAIL,
}

/// A token: its lexeme and its kind.
#[derive(Debug)]
pub struct Token(pub String, pub Type);

impl Clone for Token {
    fn clone(&self) -> (r: Self)
        ensures
            r@ == self@,
    {
        Token(self.0.clone(), self.1)
    }
}

impl PartialEq for Token {
    fn eq(&self, other: &Self) -> (r: bool) {
        self.0 == other.0 && self.1 == other.1
    }
}

impl vstd::std_specs::cmp::PartialEqSpecImpl for Token {
    open spec fn obeys_eq_spec() -> bool {
        true
    }

    open spec fn eq_spec(&self, other: &Self) -> bool {
        self@ == other@
    }
}

impl View for Token {
    type V = (Seq<char>, Type);

    open spec fn view(&self) -> (Seq<char>, Type) {
        (self.0@, self.1)
    }
}

/// The lexemes and kinds of a sequence of tokens.
pub open spec fn tokens_view(v: Seq<Token>) -> Seq<(Seq<char>, Type)> {
    v.map_values(|t: Token| t@)
}

/// A state of the scanning automaton. `AA`, `AN` lie on the way from `a` to
/// `and`, `NN`, `NO` on the way to `not`, `OO` on the way to `or`; `AMP`,
/// `BAR` and `BANG` are reached by the symbols `&`, `|` and `!`.
#[derive(Clone, Copy, Debug, PartialEq, Eq, Structural)]
pub enum State {
    START,
    LPAREN,
    RPAREN,
    AND,
    OR,
    NOT,
    LIT,
    AA,
    AN,
    NN,
    NO,
    OO,
    AMP,
    BAR,
    BANG,
    WHITESPACE,
    FAIL,
}

/// A transition of the automaton: from a state, on a character, to a state.
pub struct Transition(State, char, State);

impl View for Transition {
    type V = (State, char, State);

    closed spec fn view(&self) -> (State, char, State) {
        (self.0, self.1, self.2)
    }
}

/// The explicit transitions of the automaton, in order.
pub open spec fn table_entry(i: int) -> (State, char, State) {
    if i == 0 {
        (State::START, '(', State::LPAREN)
    } else if i == 1 {
        (State::START, ')', State::RPAREN)
    } else if i == 2 {
        (State::START, '|', State::BAR)
    } else if i == 3 {
        (State::START, '&', State::AMP)
    } else if i == 4 {
        (State::START, '!', State::BANG)
    } else if i == 5 {
        (State::START, 'a', State::AA)
    } else if i == 6 {
        (State::AA, 'n', State::AN)
    } else if i == 7 {
        (State::AN, 'd', State::AND)
    } else if i == 8 {
        (State::START, 'n', State::NN)
    } else if i == 9 {
        (State::NN, 'o', State::NO)
    } else if i == 10 {
        (State::NO, 't', State::NOT)
    } else if i == 11 {
        (State::START, 'o', State::OO)
    } else {
        (State::OO, 'r', State::OR)
    }
}

/// The number of explicit transitions.
pub open spec fn table_len() -> nat {
    13
}

/// The explicit transitions as a sequence.
pub open spec fn transition_table() -> Seq<(State, char, State)> {
    Seq::new(table_len(), |i: int| table_entry(i))
}

/// The target of the first transition at or after position `k` from `q` on
/// `c`, or `FAIL`.
pub open spec fn lookup_from(t: Seq<(State, char, State)>, q: State, c: char, k: int) -> State
    decreases t.len() - k,
{
    if k < 0 || k >= t.len() {
        State::FAIL
    } else if t[k].0 == q && t[k].1 == c {
        t[k].2
    } else {
        lookup_from(t, q, c, k + 1)
    }
}

/// The target of the first transition from `q` on `c`, or `FAIL`.
pub open spec fn lookup(t: Seq<(State, char, State)>, q: State, c: char) -> State {
    lookup_from(t, q, c, 0)
}

/// A step of the automaton: an explicit transition where there is one;
/// otherwise a letter or digit leads to `LIT` from any state but a
/// parenthesis, a symbol or whitespace; otherwise whitespace leads to
/// `WHITESPACE` from the start or from whitespace; otherwise `FAIL`.
pub open spec fn delta_spec(t: Seq<(State, char, State)>, q: State, c: char) -> State {
    let n = lookup(t, q, c);
    if n != State::FAIL {
        n
    } else if q != State::LPAREN && q != State::RPAREN && q != State::WHITESPACE && q
        != State::AMP && q != State::BAR && q != State::BANG && is_alphanumeric(c) {
        State::LIT
    } else if (q == State::START || q == State::WHITESPACE) && is_whitespace(c) {
        State::WHITESPACE
    } else {
        State::FAIL
    }
}

/// The step of the scanner's automaton.
pub open spec fn step(q: State, c: char) -> State {
    delta_spec(transition_table(), q, c)
}

/// The kind of token that a state accepts.
pub open spec fn type_of(s: State) -> Type {
    match s {
        State::LPAREN => Type::LPAREN,
        State::RPAREN => Type::RPAREN,
        State::AND => Type::AND,
        State::AMP => Type::AND,
        State::OR => Type::OR,
        State::BAR => Type::OR,
        State::NOT => Type::NOT,
        State::BANG => Type::NOT,
        State::AA => Type::LIT,
        State::AN => Type::LIT,
        State::OO => Type::LIT,
        State::NN => Type::LIT,
        State::NO => Type::LIT,
        State::LIT => Type::LIT,
        State::WHITESPACE => Type::WHITESPACE,
        _ => Type::FAIL,
    }
}

/// The accepting states, in order.
pub open spec fn accept_entry(i: int) -> State {
    if i == 0 {
        State::LPAREN
    } else if i == 1 {
        State::RPAREN
    } else if i == 2 {
        State::AA
    } else if i == 3 {
        State::AN
    } else if i == 4 {
        State::AND
    } else if i == 5 {
        State::OO
    } else if i == 6 {
        State::OR
    } else if i == 7 {
        State::NN
    } else if i == 8 {
        State::NO
    } else if i == 9 {
        State::NOT
    } else if i == 10 {
        State::WHITESPACE
    } else if i == 11 {
        State::LIT
    } else if i == 12 {
        State::AMP
    } else if i == 13 {
        State::BAR
    } else {
        State::BANG
    }
}

/// The accepting states as a sequence.
pub open spec fn accept_list() -> Seq<State> {
    Seq::new(15, |i: int| accept_entry(i))
}

/// Every state but the start and failure accepts.
pub open spec fn accepting(s: State) -> bool {
    s != State::START && s != State::FAIL
}

/// Simplified maximal munch over `cs` from position `i`, in state `s` with
/// the lexeme `lex` read so far: the automaton reads as long as it can; where
/// it cannot, the token read so far is emitted and the scan restarts at the
/// start state on the same character; at the end the last token is emitted.
/// Where no token can start (the start state cannot read a character),
/// nothing more is emitted: the scan fails there.
pub open spec fn munch(cs: Seq<char>, i: int, s: State, lex: Seq<char>) -> Seq<(Seq<char>, Type)>
    decreases cs.len() - i, (if s == State::START { 0int } else { 1int }),
{
    if i < 0 || i >= cs.len() {
        if accepting(s) {
            seq![(lex, type_of(s))]
        } else {
            Seq::empty()
        }
    } else {
        let n = step(s, cs[i]);
        if n == State::FAIL {
            if accepting(s) {
                seq![(lex, type_of(s))] + munch(cs, i, State::START, Seq::empty())
            } else {
                Seq::empty()
            }
        } else {
            munch(cs, i + 1, n, lex.push(cs[i]))
        }
    }
}

/// Simplified maximal munch over `cs` with the transitions `t` and the
/// accepting states `acc`, from position `i`, in state `s` with the lexeme
/// `lex` read so far. Where the automaton cannot read the next character, the
/// token read so far is emitted if `s` accepts, and the scan restarts at the
/// start state on the same character; at the end the last token is emitted
/// if its state accepts. `None` where a character cannot be read by a state
/// that does not accept (the scan fails there), or by the start state (the
/// scan makes no progress there).
pub open spec fn munch_with(
    t: Seq<(State, char, State)>,
    acc: Seq<State>,
    cs: Seq<char>,
    i: int,
    s: State,
    lex: Seq<char>,
) -> Option<Seq<(Seq<char>, Type)>>
    decreases cs.len() - i, (if s == State::START { 0int } else { 1int }),
{
    if i < 0 || i >= cs.len() {
        if acc.contains(s) {
            Some(seq![(lex, type_of(s))])
        } else {
            Some(Seq::empty())
        }
    } else {
        let n = delta_spec(t, s, cs[i]);
        if n == State::FAIL {
            if s != State::START && acc.contains(s) {
                match munch_with(t, acc, cs, i, State::START, Seq::empty()) {
                    Some(rest) => Some(seq![(lex, type_of(s))] + rest),
                    None => None,
                }
            } else {
                None
            }
        } else {
            munch_with(t, acc, cs, i + 1, n, lex.push(cs[i]))
        }
    }
}

/// Whether every character can start a token.
pub open spec fn scannable(cs: Seq<char>) -> bool {
    forall|i: int| 0 <= i < cs.len() ==> step(State::START, #[trigger] cs[i]) != State::FAIL
}

/// The tokens that are not whitespace, in order.
pub open spec fn drop_whitespace(toks: Seq<(Seq<char>, Type)>) -> Seq<(Seq<char>, Type)>
    decreases toks.len(),
{
    if toks.len() == 0 {
        toks
    } else {
        let r = drop_whitespace(toks.drop_last());
        if toks.last().1 == Type::WHITESPACE {
            r
        } else {
            r.push(toks.last())
        }
    }
}

/// The tokens of an input: maximal munch from the start, whitespace dropped.
pub open spec fn scan_spec(cs: Seq<char>) -> Seq<(Seq<char>, Type)> {
    drop_whitespace(munch(cs, 0, State::START, Seq::empty()))
}

proof fn lemma_lookup_not_start(t: Seq<(State, char, State)>, q: State, c: char, k: int)
    requires
        forall|i: int| 0 <= i < t.len() ==> (#[trigger] t[i]).2 != State::START,
    ensures
        lookup_from(t, q, c, k) != State::START,
    decreases t.len() - k,
{
    if 0 <= k < t.len() {
        lemma_lookup_not_start(t, q, c, k + 1);
    }
}

/// The automaton never steps back to its start state.
pub proof fn lemma_step_not_start(q: State, c: char)
    ensures
        step(q, c) != State::START,
{
    lemma_lookup_not_start(transition_table(), q, c, 0);
}

/// The target of the first transition from `q` on `e`, or `FAIL`.
fn exists_transition(trans_vec: &Vec<Transition>, q: &State, e: &char) -> (r: State)
    ensures
        r == lookup(trans_vec@.map_values(|t: Transition| t@), *q, *e),
{
    let ghost t = trans_vec@.map_values(|t: Transition| t@);
    let mut i: usize = 0;
    while i < trans_vec.len()
        invariant
            i <= trans_vec.len(),
            t == trans_vec@.map_values(|t: Transition| t@),
            lookup(t, *q, *e) == lookup_from(t, *q, *e, i as int),
        decreases trans_vec.len() - i,
    {
        let Transition(s, c, next_state) = &trans_vec[i];
        if *s == *q && *c == *e {
            return *next_state;
        }
        i = i + 1;
    }
    State::FAIL
}

/// One step of the automaton over the transitions `trans_vec`.
fn delta(trans_vec: &Vec<Transition>, q: &State, e: &char) -> (r: State)
    ensures
        r == delta_spec(trans_vec@.map_values(|t: Transition| t@), *q, *e),
{
    let next_state: State = exists_transition(trans_vec, q, e);
    if !(next_state == State::FAIL) {
        return next_state;
    } else if *q != State::LPAREN && *q != State::RPAREN && *q != State::WHITESPACE && *q
        != State::AMP && *q != State::BAR && *q != State::BANG && char_is_alphanumeric(*e) {
        return State::LIT;
    } else if (*q == State::START || *q == State::WHITESPACE) && char_is_whitespace(*e) {
        return State::WHITESPACE;
    }
    State::FAIL
}

/// The kind of token that a state accepts.
fn to_type(state: &State) -> (r: Type)
    ensures
        r == type_of(*state),
{
    match state {
        State::LPAREN => Type::LPAREN,
        State::RPAREN => Type::RPAREN,
        State::AND => Type::AND,
        State::AMP => Type::AND,
        State::OR => Type::OR,
        State::BAR => Type::OR,
        State::NOT => Type::NOT,
        State::BANG => Type::NOT,
        State::AA => Type::LIT,
        State::AN => Type::LIT,
        State::OO => Type::LIT,
        State::NN => Type::LIT,
        State::NO => Type::LIT,
        State::LIT => Type::LIT,
        State::WHITESPACE => Type::WHITESPACE,
        _ => Type::FAIL,
    }
}

/// Whether `s` is among `states`.
fn contains_state(states: &Vec<State>, s: &State) -> (r: bool)
    ensures
        r == states@.contains(*s),
{
    let mut i: usize = 0;
    while i < states.len()
        invariant
            i <= states.len(),
            forall|j: int| 0 <= j < i ==> states@[j] != *s,
        decreases states.len() - i,
    {
        if states[i] == *s {
            return true;
        }
        i = i + 1;
    }
    false
}

proof fn lemma_accept_list(s: State)
    ensures
        accept_list().contains(s) <==> accepting(s),
{
    let l = accept_list();
    if accepting(s) {
        let i: int = match s {
            State::LPAREN => 0,
            State::RPAREN => 1,
            State::AA => 2,
            State::AN => 3,
            State::AND => 4,
            State::OO => 5,
            State::OR => 6,
            State::NN => 7,
            State::NO => 8,
            State::NOT => 9,
            State::WHITESPACE => 10,
            State::LIT => 11,
            State::AMP => 12,
            State::BAR => 13,
            _ => 14,
        };
        assert(l[i] == s);
    }
}

/// With the scanner's own transitions and accepting states, on an input
/// whose every character can start a token, munch succeeds and gives `munch`.
proof fn lemma_munch_with(cs: Seq<char>, i: int, s: State, lex: Seq<char>)
    requires
        scannable(cs),
        s != State::FAIL,
    ensures
        munch_with(transition_table(), accept_list(), cs, i, s, lex) == Some(munch(cs, i, s, lex)),
    decreases cs.len() - i, (if s == State::START { 0int } else { 1int }),
{
    lemma_accept_list(s);
    if 0 <= i < cs.len() {
        let n = step(s, cs[i]);
        if n == State::FAIL {
            if accepting(s) {
                lemma_munch_with(cs, i, State::START, Seq::empty());
            }
        } else {
            lemma_munch_with(cs, i + 1, n, lex.push(cs[i]));
        }
    }
}

/// Simplified maximal munch over `input`: appends the tokens read to
/// `tokens`, whitespace included.
fn simpl_max_munch(
    tokens: &mut Vec<Token>,
    trans_vec: &Vec<Transition>,
    accept_states: &Vec<State>,
    input: &String,
)
    requires
        munch_with(trans_vec@.map_values(|t: Transition| t@), accept_states@, input@, 0, State::START, Seq::empty()) is Some,
    ensures
        tokens_view(final(tokens)@) == tokens_view(old(tokens)@) + munch_with(
            trans_vec@.map_values(|t: Transition| t@),
            accept_states@,
            input@,
            0,
            State::START,
            Seq::empty(),
        )->0,
{
    let ghost cs = input@;
    let ghost tt = trans_vec@.map_values(|t: Transition| t@);
    let ghost acc = accept_states@;
    let ghost total = munch_with(tt, acc, cs, 0, State::START, Seq::empty())->0;
    let n = input.as_str().unicode_len();
    let mut s: State = State::START;
    let mut t: String = String::new();
    let mut i: usize = 0;
    while i < n
        invariant
            n == cs.len(),
            cs == input@,
            i <= n,
            tt == trans_vec@.map_values(|t: Transition| t@),
            acc == accept_states@,
            munch_with(tt, acc, cs, i as int, s, t@) is Some,
            tokens_view(tokens@) + munch_with(tt, acc, cs, i as int, s, t@)->0 == tokens_view(old(tokens)@)
                + total,
        decreases 2 * (n - i) + (if s == State::START { 0int } else { 1int }),
    {
        let c = input.as_str().get_char(i);
        let nx = delta(trans_vec, &s, &c);
        if nx == State::FAIL {
            let acc_s = contains_state(accept_states, &s);
            if s != State::START && acc_s {
                let ghost before = tokens@;
                let ghost rest = munch_with(tt, acc, cs, i as int, State::START, Seq::empty())->0;
                let tok = Token(t, to_type(&s));
                tokens.push(tok);
                assert(tokens_view(tokens@) + rest =~= tokens_view(before) + (seq![(tok.0@, type_of(s))]
                    + rest));
                t = String::new();
                s = State::START;
            } else {
                // the scan fails here, which `munch_with(..) is Some` rules out
                return;
            }
        } else {
            s = nx;
            push_char(&mut t, c);
            i = i + 1;
        }
    }
    if contains_state(accept_states, &s) {
        let tok = Token(t, to_type(&s));
        tokens.push(tok);
    }
}

/// The transitions of the automaton, in order.
fn transitions() -> (v: Vec<Transition>)
    ensures
        v@.map_values(|t: Transition| t@) == transition_table(),
{
    let v = vec![
        Transition(State::START, '(', State::LPAREN),
        Transition(State::START, ')', State::RPAREN),
        Transition(State::START, '|', State::BAR),
        Transition(State::START, '&', State::AMP),
        Transition(State::START, '!', State::BANG),
        Transition(State::START, 'a', State::AA),
        Transition(State::AA, 'n', State::AN),
        Transition(State::AN, 'd', State::AND),
        Transition(State::START, 'n', State::NN),
        Transition(State::NN, 'o', State::NO),
        Transition(State::NO, 't', State::NOT),
        Transition(State::START, 'o', State::OO),
        Transition(State::OO, 'r', State::OR),
    ];
    v
}

/// The accepting states, in order.
fn accepting_states() -> (v: Vec<State>)
    ensures
        v@ == accept_list(),
{
    let v = vec![
        State::LPAREN,
        State::RPAREN,
        State::AA,
        State::AN,
        State::AND,
        State::OO,
        State::OR,
        State::NN,
        State::NO,
        State::NOT,
        State::WHITESPACE,
        State::LIT,
        State::AMP,
        State::BAR,
        State::BANG,
    ];
    v
}

/// The tokens of `input`, whitespace dropped. Keywords `and`, `or`, `not`
/// and the symbols `&`, `|`, `!` may be used interchangeably; letters or
/// digits that follow a keyword without a space make it part of a literal.
pub fn scan(input: &String) -> (toks: Vec<Token>)
    requires
        scannable(input@),
    ensures
        tokens_view(toks@) == scan_spec(input@),
{
    let accept = accepting_states();
    let trans_vec = transitions();
    let mut temp_vec: Vec<Token> = Vec::new();
    proof {
        lemma_munch_with(input@, 0, State::START, Seq::empty());
    }
    simpl_max_munch(&mut temp_vec, &trans_vec, &accept, input);
    let ghost all = tokens_view(temp_vec@);
    let mut fin: Vec<Token> = Vec::new();
    let mut i: usize = 0;
    while i < temp_vec.len()
        invariant
            i <= temp_vec.len(),
            all == tokens_view(temp_vec@),
            all.len() == temp_vec.len(),
            tokens_view(fin@) == drop_whitespace(all.take(i as int)),
        decreases temp_vec.len() - i,
    {
        assert(all.take(i + 1).drop_last() =~= all.take(i as int));
        if temp_vec[i].1 != Type::WHITESPACE {
            fin.push(Token(temp_vec[i].0.clone(), temp_vec[i].1));
        }
        i = i + 1;
    }
    assert(all.take(temp_vec.len() as int) =~= all);
    fin
}

/// Whether every character of `input` can start a token.
pub fn is_scannable(input: &String) -> (r: bool)
    ensures
        r == scannable(input@),
{
    let trans_vec = transitions();
    let n = input.as_str().unicode_len();
    let mut i: usize = 0;
    while i < n
        invariant
            n == input@.len(),
            i <= n,
            trans_vec@.map_values(|t: Transition| t@) == transition_table(),
            forall|j: int| 0 <= j < i ==> step(State::START, #[trigger] input@[j]) != State::FAIL,
        decreases n - i,
    {
        let c = input.as_str().get_char(i);
        if delta(&trans_vec, &State::START, &c) == State::FAIL {
            return false;
        }
        i = i + 1;
    }
    true
}

/// The tokens of `input`, or `None` where a character can start no token
/// (where `scan` may not be called).
pub fn try_scan(input: &String) -> (r: Option<Vec<Token>>)
    ensures
        match r {
            Some(toks) => scannable(input@) && tokens_view(toks@) == scan_spec(input@),
            None => !scannable(input@),
        },
{
    if is_scannable(input) {
        Some(scan(input))
    } else {
        None
    }
}

impl Type {
    /// The name of a kind of token, as the parse table spells it.
    pub fn name(&self) -> (r: String)
        ensures
            r@ == kind_name(*self),
    {
        let mut s = String::new();
        match self {
            Type::LPAREN => {
                append_str(&mut s, "LPAREN");
                proof { reveal_strlit("LPAREN"); }
            },
            Type::RPAREN => {
                append_str(&mut s, "RPAREN");
                proof { reveal_strlit("RPAREN"); }
            },
            Type::AND => {
                append_str(&mut s, "AND");
                proof { reveal_strlit("AND"); }
            },
            Type::OR => {
                append_str(&mut s, "OR");
                proof { reveal_strlit("OR"); }
            },
            Type::NOT => {
                append_str(&mut s, "NOT");
                proof { reveal_strlit("NOT"); }
            },
            Type::LIT => {
                append_str(&mut s, "LIT");
                proof { reveal_strlit("LIT"); }
            },
            Type::WHITESPACE => {
                append_str(&mut s, "WHITESPACE");
                proof { reveal_strlit("WHITESPACE"); }
            },
            Type::BOF => {
                append_str(&mut s, "BOF");
                proof { reveal_strlit("BOF"); }
            },
            Type::EOF => {
                append_str(&mut s, "EOF");
                proof { reveal_strlit("EOF"); }
            },
            Type::FAIL => {
                append_str(&mut s, "FAIL");
                proof { reveal_strlit("FAIL"); }
            },
        }
        s
    }
}

/// The name of a kind of token: the variant's name.
pub open spec fn kind_name(t: Type) -> Seq<char> {
    match t {
        Type::LPAREN => seq!['L', 'P', 'A', 'R', 'E', 'N'],
        Type::RPAREN => seq!['R', 'P', 'A', 'R', 'E', 'N'],
        Type::AND => seq!['A', 'N', 'D'],
        Type::OR => seq!['O', 'R'],
        Type::NOT => seq!['N', 'O', 'T'],
        Type::LIT => seq!['L', 'I', 'T'],
        Type::WHITESPACE => seq!['W', 'H', 'I', 'T', 'E', 'S', 'P', 'A', 'C', 'E'],
        Type::BOF => seq!['B', 'O', 'F'],
        Type::EOF => seq!['E', 'O', 'F'],
        Type::FAIL => seq!['F', 'A', 'I', 'L'],
    }
}

/// The kinds that a token of the scanner can have.
pub open spec fn scanned_kind(t: Type) -> bool {
    t == Type::LPAREN || t == Type::RPAREN || t == Type::AND || t == Type::OR || t == Type::NOT
        || t == Type::LIT
}

proof fn lemma_munch_tokens(cs: Seq<char>, i: int, s: State, lex: Seq<char>)
    requires
        s != State::FAIL,
        (s == State::START) == (lex.len() == 0),
    ensures
        forall|k: int|
            0 <= k < munch(cs, i, s, lex).len() ==> ((scanned_kind(
                #[trigger] munch(cs, i, s, lex)[k].1,
            ) || munch(cs, i, s, lex)[k].1 == Type::WHITESPACE) && munch(cs, i, s, lex)[k].0.len()
                > 0),
    decreases cs.len() - i, (if s == State::START { 0int } else { 1int }),
{
    if 0 <= i < cs.len() {
        let n = step(s, cs[i]);
        lemma_step_not_start(s, cs[i]);
        if n == State::FAIL {
            if accepting(s) {
                lemma_munch_tokens(cs, i, State::START, Seq::empty());
            }
        } else {
            lemma_munch_tokens(cs, i + 1, n, lex.push(cs[i]));
        }
    }
}

proof fn lemma_drop_whitespace(toks: Seq<(Seq<char>, Type)>)
    ensures
        forall|k: int|
            0 <= k < drop_whitespace(toks).len() ==> (#[trigger] drop_whitespace(toks)[k]).1
                != Type::WHITESPACE && toks.contains(drop_whitespace(toks)[k]),
    decreases toks.len(),
{
    if toks.len() > 0 {
        let pre = toks.drop_last();
        lemma_drop_whitespace(pre);
    }
}

/// Every token of a scan has a nonempty lexeme and is a parenthesis, a
/// connective or a literal: whitespace never reaches the parser.
pub proof fn law_scan_tokens(cs: Seq<char>)
    ensures
        forall|k: int|
            0 <= k < scan_spec(cs).len() ==> scanned_kind(#[trigger] scan_spec(cs)[k].1)
                && scan_spec(cs)[k].0.len() > 0,
{
    let all = munch(cs, 0, State::START, Seq::empty());
    lemma_munch_tokens(cs, 0, State::START, Seq::empty());
    lemma_drop_whitespace(all);
}

} // verus!
