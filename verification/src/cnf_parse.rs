//! The parser: a shift-reduce automaton driven by an SLR table.

use vstd::prelude::*;
use crate::cnf_scan::{Token, Type, kind_name};
use crate::parse_tree::{PVal, PTree, view_val, view_node, view_nodes, lemma_view_nodes};
use crate::text::{spaces, spaces_string, append_str, strs};
use crate::cnf_scan::tokens_view;
use crate::lr_table::{LrTable, TView, rget, row_get, grammar_view};

verus! {

broadcast use lemma_view_nodes;

/// The label of a node: a rule (the symbols of a grammar rule, left-hand
/// side first) or a terminal token.
pub enum ParseVal {
    Rule(Vec<String>),
    Term(Token),
}

/// A node of a parse tree: its label and its children (for a rule, the
/// subtree of the rightmost symbol first).
pub struct ParseNode(pub ParseVal, pub Vec<ParseNode>);

impl View for ParseNode {
    type V = PTree;

    open spec fn view(&self) -> PTree {
        view_node(*self)
    }
}

/// The symbol a tree derives: a rule's left-hand side, or a token's lexeme.
pub open spec fn token_of(t: PTree) -> Seq<char> {
    match t.val {
        PVal::Rule(r) => r[0],
        PVal::Term(lex, _) => lex,
    }
}

/// The symbol that `node` derives.
pub fn get_token(node: &ParseNode) -> (r: String)
    requires
        node@.val matches PVal::Rule(r) ==> r.len() > 0,
    ensures
        r@ == token_of(node@),
{
    match &node.0 {
        ParseVal::Rule(vec) => vec[0].clone(),
        ParseVal::Term(tok) => tok.0.clone(),
    }
}

/// The text of a label: each symbol of a rule followed by a space; a token's
/// lexeme, a space and the name of its kind.
pub open spec fn display(v: PVal) -> Seq<char> {
    match v {
        PVal::Rule(r) => r.fold_left(Seq::<char>::empty(), |acc: Seq<char>, w: Seq<char>| acc + w + seq![' ']),
        PVal::Term(lex, k) => lex + seq![' '] + kind_name(k),
    }
}

impl ParseVal {
    /// The text of a label.
    pub fn display(&self) -> (r: String)
        ensures
            r@ == display(view_val(*self)),
    {
        let mut s = String::new();
        match self {
            ParseVal::Rule(vec) => {
                let ghost ws = strs(vec@);
                let mut i: usize = 0;
                while i < vec.len()
                    invariant
                        i <= vec.len(),
                        ws == strs(vec@),
                        s@ == ws.take(i as int).fold_left(
                            Seq::<char>::empty(),
                            |acc: Seq<char>, w: Seq<char>| acc + w + seq![' '],
                        ),
                    decreases vec.len() - i,
                {
                    assert(ws.take(i + 1).drop_last() =~= ws.take(i as int));
                    append_str(&mut s, vec[i].as_str());
                    append_str(&mut s, " ");
                    proof {
                        reveal_strlit(" ");
                        assert(s@ =~= ws.take(i as int).fold_left(
                            Seq::<char>::empty(),
                            |acc: Seq<char>, w: Seq<char>| acc + w + seq![' '],
                        ) + ws[i as int] + seq![' ']);
                    }
                    i = i + 1;
                }
            },
            ParseVal::Term(tok) => {
                append_str(&mut s, tok.0.as_str());
                append_str(&mut s, " ");
                let name = tok.1.name();
                append_str(&mut s, name.as_str());
                proof {
                    reveal_strlit(" ");
                }
            },
        }
        s
    }
}

/// The depth of a tree below its root.
pub open spec fn depth(t: PTree) -> nat
    decreases t,
{
    if t.children.len() == 0 {
        0
    } else {
        1 + depth_seq(t.children)
    }
}

/// The greatest depth among a sequence of trees.
pub open spec fn depth_seq(s: Seq<PTree>) -> nat
    decreases s,
{
    if s.len() == 0 {
        0
    } else {
        let a = depth_seq(s.drop_last());
        let b = depth(s.last());
        if a < b { b } else { a }
    }
}

proof fn lemma_depth_seq(s: Seq<PTree>, i: int)
    requires
        0 <= i < s.len(),
    ensures
        depth(s[i]) <= depth_seq(s),
    decreases s.len(),
{
    if i < s.len() - 1 {
        lemma_depth_seq(s.drop_last(), i);
    }
}

/// The lines of the derivation printout of a tree at indentation `s`: the
/// label, then the children from last to first (for a rule, its symbols'
/// subtrees from left to right), one column further in.
pub open spec fn inorder_lines(t: PTree, s: nat) -> Seq<Seq<char>>
    decreases t,
{
    seq![spaces(s) + display(t.val)] + inorder_rev(t.children, s + 1)
}

/// The printouts of a sequence of trees, from the last to the first.
pub open spec fn inorder_rev(cs: Seq<PTree>, s: nat) -> Seq<Seq<char>>
    decreases cs,
{
    if cs.len() == 0 {
        Seq::empty()
    } else {
        inorder_rev(cs.drop_first(), s) + inorder_lines(cs[0], s)
    }
}

/// The characters of each line.
pub open spec fn lines_of(v: Seq<String>) -> Seq<Seq<char>> {
    v.map_values(|l: String| l@)
}

fn inorder_helper(node: &ParseNode, s: i16) -> (lines: Vec<String>)
    requires
        0 <= s,
        s + depth(node@) <= i16::MAX,
    ensures
        lines_of(lines@) == inorder_lines(node@, s as nat),
    decreases node,
{
    let mut line = spaces_string(s as usize);
    let d = node.0.display();
    append_str(&mut line, d.as_str());
    let mut out = vec![line];
    let ghost cs = view_nodes(node.1@);
    let ghost head = seq![spaces(s as nat) + display(node@.val)];
    let mut i: usize = node.1.len();
    while i > 0
        invariant
            i <= node.1.len(),
            cs == view_nodes(node.1@),
            cs.len() == node.1.len(),
            0 <= s,
            node.1.len() > 0 ==> s + 1 + depth_seq(cs) <= i16::MAX,
            lines_of(out@) == head + inorder_rev(cs.skip(i as int), s as nat + 1),
        decreases i,
    {
        proof {
            lemma_depth_seq(cs, i - 1);
        }
        let mut child = inorder_helper(&node.1[i - 1], s + 1);
        let ghost before = out@;
        out.append(&mut child);
        proof {
            assert(cs.skip(i - 1).drop_first() =~= cs.skip(i as int));
            assert(lines_of(out@) =~= lines_of(before) + inorder_lines(cs[i - 1], s as nat + 1));
        }
        i = i - 1;
    }
    assert(cs.skip(0) =~= cs);
    out
}

/// The lines of the derivation printout of a parse tree.
pub fn inorder(node: &ParseNode) -> (lines: Vec<String>)
    requires
        depth(node@) <= i16::MAX,
    ensures
        lines_of(lines@) == inorder_lines(node@, 0),
{
    inorder_helper(node, 0)
}

/// Why a parse failed: a token that no action of the table accepts (its
/// lexeme); a symbol of the start rule that the stack does not end with (the
/// symbol); or a table or grammar that refers to what is not there.
pub enum PErr {
    Syntax(Seq<char>),
    Derivation(Seq<char>),
    Table,
}

/// Why a parse failed (see `PErr`).
#[derive(Debug)]
pub enum ParseError {
    Syntax(String),
    Derivation(String),
    Table,
}

impl View for ParseError {
    type V = PErr;

    open spec fn view(&self) -> PErr {
        match self {
            ParseError::Syntax(s) => PErr::Syntax(s@),
            ParseError::Derivation(s) => PErr::Derivation(s@),
            ParseError::Table => PErr::Table,
        }
    }
}

/// A leaf for a token.
pub open spec fn leaf(lex: Seq<char>, kind: Type) -> PTree {
    PTree { val: PVal::Term(lex, kind), children: Seq::empty() }
}

/// The top `k` trees of a stack, topmost first.
pub open spec fn popped(sy: Seq<PTree>, k: int) -> Seq<PTree> {
    Seq::new(k as nat, |j: int| sy[sy.len() - 1 - j])
}

/// A reduction on lookahead `a`: the rule that the table names for the top
/// state is looked up in the grammar; as many trees as the rule has symbols
/// on its right are popped (with as many states) and become the children of
/// a new node for the rule; the state that the table gives for the rule's
/// left-hand side in the new top state is pushed. `None` where the table or
/// grammar refers to what is not there.
pub open spec fn reduce_step(
    t: TView,
    g: Seq<Seq<Seq<char>>>,
    st: Seq<usize>,
    sy: Seq<PTree>,
    a: Seq<char>,
) -> Option<(Seq<usize>, Seq<PTree>)> {
    let rule_no = rget(t[st.last() as int], a).unwrap().1;
    if rule_no >= g.len() {
        None
    } else {
        let rule = g[rule_no as int];
        if rule.len() == 0 || sy.len() < rule.len() - 1 || st.len() <= rule.len() - 1 {
            None
        } else {
            let k = rule.len() - 1;
            let node = PTree { val: PVal::Rule(rule), children: popped(sy, k) };
            let st1 = st.take(st.len() - k);
            let sy1 = sy.take(sy.len() - k).push(node);
            if st1.last() >= t.len() {
                None
            } else {
                match rget(t[st1.last() as int], rule[0]) {
                    None => None,
                    Some(p) => Some((st1.push(p.1), sy1)),
                }
            }
        }
    }
}

/// The end of a parse: the start rule's symbols are matched, from its last
/// to its first (stopping at one equal to its left-hand side), against the
/// trees on top of the stack; the matched trees become the root's children.
pub open spec fn finish_loop(fr: Seq<Seq<char>>, sy: Seq<PTree>, j: int, acc: Seq<PTree>) -> Result<PTree, PErr>
    decreases j,
{
    if j <= 0 || j > fr.len() {
        Ok(PTree { val: PVal::Rule(fr), children: acc })
    } else {
        let item = fr[j - 1];
        if item == fr[0] {
            Ok(PTree { val: PVal::Rule(fr), children: acc })
        } else if sy.len() == 0 {
            Err(PErr::Derivation(item))
        } else if token_of(sy.last()) == item {
            finish_loop(fr, sy.drop_last(), j - 1, acc.push(sy.last()))
        } else {
            Err(PErr::Derivation(item))
        }
    }
}

/// The end of a parse, by the grammar's first rule.
pub open spec fn finish(g: Seq<Seq<Seq<char>>>, sy: Seq<PTree>) -> Result<PTree, PErr> {
    if g.len() == 0 {
        Err(PErr::Table)
    } else {
        finish_loop(g[0], sy, g[0].len() as int, Seq::empty())
    }
}

/// The shift-reduce automaton from token `i` on, with state stack `st` and
/// tree stack `sy`, allowed `fuel` reductions: before each token it reduces
/// for as long as the table says so for that token, then shifts the token
/// (a token with no action is a syntax error); after the last token it
/// finishes. `None` where the reductions outrun the fuel.
pub open spec fn run(
    t: TView,
    g: Seq<Seq<Seq<char>>>,
    toks: Seq<(Seq<char>, Type)>,
    i: int,
    st: Seq<usize>,
    sy: Seq<PTree>,
    fuel: nat,
) -> Option<Result<PTree, PErr>>
    decreases toks.len() - i, fuel,
{
    if i < 0 || i >= toks.len() {
        Some(finish(g, sy))
    } else if st.len() == 0 || st.last() >= t.len() {
        Some(Err(PErr::Table))
    } else {
        let a = kind_name(toks[i].1);
        match rget(t[st.last() as int], a) {
            Some(p) => if p.0 {
                if fuel == 0 {
                    None
                } else {
                    match reduce_step(t, g, st, sy, a) {
                        None => Some(Err(PErr::Table)),
                        Some(c) => run(t, g, toks, i, c.0, c.1, (fuel - 1) as nat),
                    }
                }
            } else {
                run(t, g, toks, i + 1, st.push(p.1), sy.push(leaf(toks[i].0, toks[i].1)), fuel)
            },
            None => Some(Err(PErr::Syntax(toks[i].0))),
        }
    }
}

/// The tokens with `BOF` before them and `EOF` after them.
pub open spec fn augmented(toks: Seq<(Seq<char>, Type)>) -> Seq<(Seq<char>, Type)> {
    seq![(kind_name(Type::BOF), Type::BOF)] + toks + seq![(kind_name(Type::EOF), Type::EOF)]
}

/// Whether the automaton stops on these tokens (it can reduce forever by a
/// table that cycles through rules with no symbols or one).
pub open spec fn parse_terminates(t: TView, g: Seq<Seq<Seq<char>>>, toks: Seq<(Seq<char>, Type)>) -> bool {
    exists|f: nat| #[trigger] run(t, g, augmented(toks), 0, seq![0usize], Seq::empty(), f) is Some
}

/// The outcome of parsing the tokens, where the automaton stops.
pub open spec fn parse_result(t: TView, g: Seq<Seq<Seq<char>>>, toks: Seq<(Seq<char>, Type)>) -> Result<
    PTree,
    PErr,
> {
    let f = choose|f: nat| #[trigger] run(t, g, augmented(toks), 0, seq![0usize], Seq::empty(), f) is Some;
    run(t, g, augmented(toks), 0, seq![0usize], Seq::empty(), f).unwrap()
}

/// Every rule node on the stack has a left-hand side.
pub open spec fn rules_named(sy: Seq<PTree>) -> bool {
    forall|k: int| 0 <= k < sy.len() ==> ((#[trigger] sy[k]).val matches PVal::Rule(r) ==> r.len() > 0)
}

/// The last element of `item`, where there is one.
fn last<T>(item: &Vec<T>) -> (r: Option<&T>)
    ensures
        item.len() == 0 <==> r is None,
        r matches Some(x) ==> *x == item@.last(),
{
    match item.len() {
        0 => None,
        n => Some(&item[n - 1]),
    }
}

/// The state on top of the stack.
fn state_top(item: &Vec<usize>) -> (r: usize)
    requires
        item.len() > 0,
    ensures
        r == item@.last(),
{
    match last::<usize>(item) {
        Some(x) => *x,
        None => 0,
    }
}

/// Whether the table says to reduce in `state` on the symbol `a`.
fn reduce(a: &String, state: usize, dfa: &LrTable) -> (r: bool)
    requires
        state < dfa@.len(),
    ensures
        r == (rget(dfa@[state as int], a@) matches Some(p) && p.0),
{
    match row_get(&dfa.rows[state], a) {
        Some(item) => item.0,
        None => false,
    }
}

fn clone_strings(v: &Vec<String>) -> (r: Vec<String>)
    ensures
        strs(r@) == strs(v@),
{
    let mut out: Vec<String> = Vec::new();
    let mut i: usize = 0;
    while i < v.len()
        invariant
            i <= v.len(),
            strs(out@) == strs(v@).take(i as int),
        decreases v.len() - i,
    {
        let ghost before = out@;
        out.push(v[i].clone());
        assert(strs(out@) =~= strs(before).push(v@[i as int]@));
        i = i + 1;
    }
    out
}

/// The tokens of `stream` (which it takes, leaving `stream` empty) with
/// `BOF` before them and `EOF` after them.
fn augment(stream: &mut Vec<Token>) -> (toks: Vec<Token>)
    ensures
        final(stream)@.len() == 0,
        tokens_view(toks@) == augmented(tokens_view(old(stream)@)),
{
    let ghost input = tokens_view(stream@);
    let mut bof = String::new();
    append_str(&mut bof, "BOF");
    let mut eof = String::new();
    append_str(&mut eof, "EOF");
    proof {
        reveal_strlit("BOF");
        reveal_strlit("EOF");
    }
    let mut toks: Vec<Token> = Vec::new();
    toks.push(Token(bof, Type::BOF));
    toks.append(stream);
    toks.push(Token(eof, Type::EOF));
    let ghost tv = tokens_view(toks@);
    assert(forall|k: int| 0 <= k < tv.len() ==> tv[k] == augmented(input)[k]);
    toks
}

/// Parses the tokens of `stream` (which it takes, leaving `stream` empty)
/// by the grammar's rules and the parse table: `BOF` and `EOF` are put
/// around the tokens and the shift-reduce automaton is run (see `run`).
/// Incorrect input is rejected with the error `run` gives.
pub fn parse(stream: &mut Vec<Token>, grammar: &Vec<Vec<String>>, lr1: &LrTable) -> (r: Result<ParseNode, ParseError>)
    requires
        parse_terminates(lr1@, grammar_view(grammar@), tokens_view(old(stream)@)),
    ensures
        final(stream)@.len() == 0,
        match r {
            Ok(n) => parse_result(lr1@, grammar_view(grammar@), tokens_view(old(stream)@)) == Ok::<PTree, PErr>(n@),
            Err(e) => parse_result(lr1@, grammar_view(grammar@), tokens_view(old(stream)@)) == Err::<PTree, PErr>(e@),
        },
{
    let ghost t = lr1@;
    let ghost g = grammar_view(grammar@);
    let ghost input = tokens_view(stream@);
    let ghost f0 = choose|f: nat| #[trigger] run(t, g, augmented(input), 0, seq![0usize], Seq::empty(), f) is Some;
    let toks = augment(stream);
    let r = run_tokens(&toks, grammar, lr1, None, Ghost(f0));
    r.unwrap()
}

/// Parses the tokens of `stream` (which it takes, leaving `stream` empty) as
/// `parse` does, allowed at most `fuel` reductions: `None` where the
/// automaton would need more, otherwise what `parse` gives.
pub fn try_parse(stream: &mut Vec<Token>, grammar: &Vec<Vec<String>>, lr1: &LrTable, fuel: u64) -> (r: Option<
    Result<ParseNode, ParseError>,
>)
    ensures
        final(stream)@.len() == 0,
        outcome(r) == run(lr1@, grammar_view(grammar@), augmented(tokens_view(old(stream)@)), 0, seq![0usize], Seq::empty(), fuel as nat),
        r is Some ==> parse_terminates(lr1@, grammar_view(grammar@), tokens_view(old(stream)@)),
        r matches Some(Ok(n)) ==> parse_result(lr1@, grammar_view(grammar@), tokens_view(old(stream)@)) == Ok::<PTree, PErr>(n@),
        r matches Some(Err(e)) ==> parse_result(lr1@, grammar_view(grammar@), tokens_view(old(stream)@)) == Err::<PTree, PErr>(e@),
{
    let ghost t = lr1@;
    let ghost g = grammar_view(grammar@);
    let ghost input = tokens_view(stream@);
    let toks = augment(stream);
    let r = run_tokens(&toks, grammar, lr1, Some(fuel), Ghost(fuel as nat));
    proof {
        if r is Some {
            let f0 = choose|f: nat| #[trigger] run(t, g, augmented(input), 0, seq![0usize], Seq::empty(), f) is Some;
            lemma_run_agrees(t, g, augmented(input), 0, seq![0usize], Seq::empty(), f0, fuel as nat);
        }
    }
    r
}

/// Two runs that both stop give the same outcome, whatever fuel each had.
pub proof fn lemma_run_agrees(
    t: TView,
    g: Seq<Seq<Seq<char>>>,
    toks: Seq<(Seq<char>, Type)>,
    i: int,
    st: Seq<usize>,
    sy: Seq<PTree>,
    f1: nat,
    f2: nat,
)
    requires
        run(t, g, toks, i, st, sy, f1) is Some,
        run(t, g, toks, i, st, sy, f2) is Some,
    ensures
        run(t, g, toks, i, st, sy, f1) == run(t, g, toks, i, st, sy, f2),
    decreases toks.len() - i, f1,
{
    if 0 <= i < toks.len() && st.len() > 0 && st.last() < t.len() {
        let a = kind_name(toks[i].1);
        match rget(t[st.last() as int], a) {
            Some(p) => if p.0 {
                match reduce_step(t, g, st, sy, a) {
                    None => {},
                    Some(c) => lemma_run_agrees(t, g, toks, i, c.0, c.1, (f1 - 1) as nat, (f2 - 1) as nat),
                }
            } else {
                lemma_run_agrees(t, g, toks, i + 1, st.push(p.1), sy.push(leaf(toks[i].0, toks[i].1)), f1, f2);
            },
            None => {},
        }
    }
}

/// The outcome of a run of the automaton as values.
pub open spec fn outcome(r: Option<Result<ParseNode, ParseError>>) -> Option<Result<PTree, PErr>> {
    match r {
        None => None,
        Some(Ok(n)) => Some(Ok(n@)),
        Some(Err(e)) => Some(Err(e@)),
    }
}

/// Runs the shift-reduce automaton over `toks` (see `run`), allowed `limit`
/// reductions where a limit is given; `fuel` is that limit, or, where none is
/// given, a number of reductions within which the automaton stops.
fn run_tokens(
    toks: &Vec<Token>,
    grammar: &Vec<Vec<String>>,
    lr1: &LrTable,
    limit: Option<u64>,
    Ghost(fuel0): Ghost<nat>,
) -> (r: Option<Result<ParseNode, ParseError>>)
    requires
        limit matches Some(n) ==> n == fuel0,
        limit is None ==> run(lr1@, grammar_view(grammar@), tokens_view(toks@), 0, seq![0usize], Seq::empty(), fuel0) is Some,
    ensures
        outcome(r) == run(lr1@, grammar_view(grammar@), tokens_view(toks@), 0, seq![0usize], Seq::empty(), fuel0),
{
    let ghost t = lr1@;
    let ghost g = grammar_view(grammar@);
    let ghost tv = tokens_view(toks@);
    let ghost target = run(t, g, tv, 0, seq![0usize], Seq::empty(), fuel0);
    let mut limit = limit;
    let ghost mut fuel: nat = fuel0;
    let mut state_stack: Vec<usize> = vec![0];
    let mut sym_stack: Vec<ParseNode> = Vec::new();
    let mut i: usize = 0;
    assert(state_stack@ =~= seq![0usize]);
    while i < toks.len()
        invariant
            i <= toks.len(),
            tv == tokens_view(toks@),
            tv.len() == toks.len(),
            t == lr1@,
            g == grammar_view(grammar@),
            target == run(t, g, tv, 0, seq![0usize], Seq::empty(), fuel0),
            limit is None ==> target is Some,
            limit matches Some(n) ==> n == fuel,
            run(t, g, tv, i as int, state_stack@, view_nodes(sym_stack@), fuel) == target,
            state_stack.len() == sym_stack.len() + 1,
            rules_named(view_nodes(sym_stack@)),
        decreases toks.len() - i,
    {
        let kind_s = toks[i].1.name();
        let mut done = false;
        while !done
            invariant
                i < toks.len(),
                tv == tokens_view(toks@),
                tv.len() == toks.len(),
                tv[i as int] == (toks@[i as int].0@, toks@[i as int].1),
                kind_s@ == kind_name(tv[i as int].1),
                t == lr1@,
                g == grammar_view(grammar@),
                target == run(t, g, tv, 0, seq![0usize], Seq::empty(), fuel0),
                limit is None ==> target is Some,
                limit matches Some(n) ==> n == fuel,
                !done ==> run(t, g, tv, i as int, state_stack@, view_nodes(sym_stack@), fuel) == target,
                done ==> run(t, g, tv, i + 1, state_stack@, view_nodes(sym_stack@), fuel) == target,
                state_stack.len() == sym_stack.len() + 1,
                rules_named(view_nodes(sym_stack@)),
            decreases 2 * fuel + (if done { 0int } else { 1int }),
        {
            let ghost st = state_stack@;
            let ghost sy = view_nodes(sym_stack@);
            let top = state_top(&state_stack);
            if top >= lr1.rows.len() {
                return Some(Err(ParseError::Table));
            }
            if reduce(&kind_s, top, lr1) {
                    match limit {
                        Some(n) => {
                            if n == 0 {
                                return None;
                            }
                            limit = Some(n - 1);
                        },
                        None => {},
                    }
                    let rule_no = match row_get(&lr1.rows[top], &kind_s) {
                        Some(p) => p.1,
                        None => {
                            return Some(Err(ParseError::Table));
                        },
                    };
                    if rule_no >= grammar.len() {
                        return Some(Err(ParseError::Table));
                    }
                    let rule = clone_strings(&grammar[rule_no]);
                    let k = rule.len();
                    if k == 0 || sym_stack.len() < k - 1 {
                        return Some(Err(ParseError::Table));
                    }
                    let ghost rv = strs(rule@);
                    let mut children: Vec<ParseNode> = Vec::new();
                    let mut c: usize = 0;
                    while c < k - 1
                        invariant
                            c <= k - 1,
                            k == rule.len(),
                            sym_stack.len() == sy.len() - c,
                            state_stack.len() == st.len() - c,
                            sy.len() >= k - 1,
                            st.len() == sy.len() + 1,
                            view_nodes(sym_stack@) == sy.take(sy.len() - c),
                            state_stack@ == st.take(st.len() - c),
                            view_nodes(children@) == popped(sy, c as int),
                        decreases k - 1 - c,
                    {
                        let node = match sym_stack.pop() {
                            Some(n) => n,
                            None => {
                                return Some(Err(ParseError::Table));
                            },
                        };
                        state_stack.pop();
                        children.push(node);
                        c = c + 1;
                    }
                    let lhs_name = rule[0].clone();
                    let lhs = ParseNode(ParseVal::Rule(rule), children);
                    sym_stack.push(lhs);
                    let top1 = state_top(&state_stack);
                    if top1 >= lr1.rows.len() {
                        return Some(Err(ParseError::Table));
                    }
                    match row_get(&lr1.rows[top1], &lhs_name) {
                        None => {
                            return Some(Err(ParseError::Table));
                        },
                        Some(p) => {
                            state_stack.push(p.1);
                        },
                    }
                    proof {
                        assert(view_nodes(sym_stack@) =~= sy.take(sy.len() - (k - 1)).push(
                            PTree { val: PVal::Rule(rv), children: popped(sy, k - 1) },
                        ));
                        fuel = (fuel - 1) as nat;
                    }
            } else {
              match row_get(&lr1.rows[top], &kind_s) {
                Some(p) => {
                    let n = p.1;
                    let leaf_node = ParseNode(
                        ParseVal::Term(Token(toks[i].0.clone(), toks[i].1)),
                        Vec::new(),
                    );
                    sym_stack.push(leaf_node);
                    state_stack.push(n);
                    assert(view_nodes(sym_stack@) =~= sy.push(leaf(tv[i as int].0, tv[i as int].1)));
                    done = true;
                },
                None => {
                    return Some(Err(ParseError::Syntax(toks[i].0.clone())));
                },
              }
            }
        }
        i = i + 1;
    }
    // now the stack should end with the symbols of the start rule
    if grammar.len() == 0 {
        return Some(Err(ParseError::Table));
    }
    let first_rule = clone_strings(&grammar[0]);
    let ghost fr = strs(first_rule@);
    let mut root_children: Vec<ParseNode> = Vec::new();
    let mut j: usize = first_rule.len();
    while j > 0
        invariant
            j <= first_rule.len(),
            fr == strs(first_rule@),
            tv == tokens_view(toks@),
            t == lr1@,
            g == grammar_view(grammar@),
            target == run(t, g, tv, 0, seq![0usize], Seq::empty(), fuel0),
            target == Some(finish_loop(fr, view_nodes(sym_stack@), j as int, view_nodes(root_children@))),
            rules_named(view_nodes(sym_stack@)),
        decreases j,
    {
        let is_lhs = first_rule[j - 1] == first_rule[0];
        if is_lhs {
            return Some(Ok(ParseNode(ParseVal::Rule(first_rule), root_children)));
        }
        let item = first_rule[j - 1].clone();
        let ghost sy = view_nodes(sym_stack@);
        match sym_stack.pop() {
            None => {
                return Some(Err(ParseError::Derivation(item)));
            },
            Some(node) => {
                assert(view_nodes(sym_stack@) =~= sy.drop_last());
                let tk = get_token(&node);
                if tk == item {
                    let ghost before = root_children@;
                    root_children.push(node);
                    assert(view_nodes(root_children@) =~= view_nodes(before).push(node@));
                } else {
                    return Some(Err(ParseError::Derivation(item)));
                }
            },
        }
        j = j - 1;
    }
    Some(Ok(ParseNode(ParseVal::Rule(first_rule), root_children)))
}

} // verus!
