//! What a parse keeps of its input: the leaves of the tree it answers with,
//! read from left to right, are the last tokens it was given, in order.

use vstd::prelude::*;
use crate::cnf_scan::{Type, kind_name};
use crate::parse_tree::{PVal, PTree};
use crate::lr_table::{TView, rget};
use crate::cnf_parse::{
    leaf, popped, reduce_step, finish_loop, run, augmented, parse_terminates, parse_result,
};

verus! {

/// The tokens at the leaves of a tree, from left to right (children are
/// stored rightmost first).
pub open spec fn frontier(t: PTree) -> Seq<(Seq<char>, Type)>
    decreases t,
{
    match t.val {
        PVal::Term(x, k) => seq![(x, k)],
        PVal::Rule(_) => frontier_rev(t.children),
    }
}

/// The leaves of trees stored rightmost first, from left to right.
pub open spec fn frontier_rev(c: Seq<PTree>) -> Seq<(Seq<char>, Type)>
    decreases c,
{
    if c.len() == 0 {
        Seq::empty()
    } else {
        frontier(c.last()) + frontier_rev(c.drop_last())
    }
}

/// The leaves of a stack of trees, from the bottom up.
pub open spec fn frontier_stack(s: Seq<PTree>) -> Seq<(Seq<char>, Type)>
    decreases s.len(),
{
    if s.len() == 0 {
        Seq::empty()
    } else {
        frontier_stack(s.drop_last()) + frontier(s.last())
    }
}

proof fn lemma_stack_concat(a: Seq<PTree>, b: Seq<PTree>)
    ensures
        frontier_stack(a + b) == frontier_stack(a) + frontier_stack(b),
    decreases b.len(),
{
    if b.len() > 0 {
        lemma_stack_concat(a, b.drop_last());
        assert((a + b).drop_last() =~= a + b.drop_last());
    }
}

/// The top `k` trees, taken off topmost first, have the leaves of the top
/// `k` trees of the stack.
proof fn lemma_popped(sy: Seq<PTree>, k: int)
    requires
        0 <= k <= sy.len(),
    ensures
        frontier_rev(popped(sy, k)) == frontier_stack(sy.subrange(sy.len() - k, sy.len() as int)),
    decreases k,
{
    let n = sy.len() as int;
    if k > 0 {
        lemma_popped(sy, k - 1);
        assert(popped(sy, k).drop_last() =~= popped(sy, k - 1));
        let top = sy.subrange(n - k + 1, n);
        assert(sy.subrange(n - k, n) =~= seq![sy[n - k]] + top);
        lemma_stack_concat(seq![sy[n - k]], top);
        assert(frontier_stack(seq![sy[n - k]]) =~= frontier(sy[n - k])) by {
            assert(seq![sy[n - k]].drop_last() =~= Seq::<PTree>::empty());
            assert(frontier_stack(Seq::<PTree>::empty()) =~= Seq::empty());
        }
    }
}

/// A reduction keeps the leaves of the stack.
proof fn lemma_reduce_frontier(t: TView, g: Seq<Seq<Seq<char>>>, st: Seq<usize>, sy: Seq<PTree>, a: Seq<char>)
    requires
        st.len() > 0,
        st.last() < t.len(),
        rget(t[st.last() as int], a) is Some,
        reduce_step(t, g, st, sy, a) is Some,
    ensures
        frontier_stack(reduce_step(t, g, st, sy, a).unwrap().1) == frontier_stack(sy),
{
    let rule_no = rget(t[st.last() as int], a).unwrap().1;
    let rule = g[rule_no as int];
    let k = rule.len() - 1;
    let n = sy.len() as int;
    let node = PTree { val: PVal::Rule(rule), children: popped(sy, k) };
    lemma_popped(sy, k);
    let low = sy.take(n - k);
    let high = sy.subrange(n - k, n);
    assert(low.push(node).drop_last() =~= low);
    lemma_stack_concat(low, high);
    assert(low + high =~= sy);
}

/// The end of a parse answers with a tree whose leaves are those of the top
/// trees of the stack, followed by those of the trees it has taken off.
proof fn lemma_finish_loop(fr: Seq<Seq<char>>, sy: Seq<PTree>, j: int, acc: Seq<PTree>)
    requires
        finish_loop(fr, sy, j, acc) is Ok,
    ensures
        exists|b: int|
            0 <= b <= sy.len() && frontier(finish_loop(fr, sy, j, acc)->Ok_0) == frontier_stack(
                #[trigger] sy.subrange(b, sy.len() as int),
            ) + frontier_rev(acc),
    decreases j,
{
    let n = sy.len() as int;
    if j <= 0 || j > fr.len() || fr[j - 1] == fr[0] {
        assert(sy.subrange(n, n) =~= Seq::<PTree>::empty());
    } else {
        let x = sy.last();
        let sy1 = sy.drop_last();
        lemma_finish_loop(fr, sy1, j - 1, acc.push(x));
        let b = choose|b: int|
            0 <= b <= sy1.len() && frontier(finish_loop(fr, sy1, j - 1, acc.push(x))->Ok_0) == frontier_stack(
                #[trigger] sy1.subrange(b, sy1.len() as int),
            ) + frontier_rev(acc.push(x));
        assert(acc.push(x).drop_last() =~= acc);
        let part = sy1.subrange(b, sy1.len() as int);
        assert(sy.subrange(b, n) =~= part.push(x));
        assert(part.push(x).drop_last() =~= part);
        assert(frontier_stack(part.push(x)) + frontier_rev(acc) =~= frontier_stack(part) + frontier_rev(
            acc.push(x),
        ));
    }
}

/// A run from token `i`, with a stack whose leaves are the tokens before
/// `i`, answers with a tree whose leaves end the tokens.
proof fn lemma_run_frontier(
    t: TView,
    g: Seq<Seq<Seq<char>>>,
    toks: Seq<(Seq<char>, Type)>,
    i: int,
    st: Seq<usize>,
    sy: Seq<PTree>,
    fuel: nat,
)
    requires
        0 <= i <= toks.len(),
        frontier_stack(sy) == toks.take(i),
        run(t, g, toks, i, st, sy, fuel) matches Some(Ok(_)),
    ensures
        exists|p: Seq<(Seq<char>, Type)>| toks == p + frontier(run(t, g, toks, i, st, sy, fuel)->Some_0->Ok_0),
    decreases toks.len() - i, fuel,
{
    if i >= toks.len() {
        let fr = g[0];
        lemma_finish_loop(fr, sy, fr.len() as int, Seq::empty());
        let n = sy.len() as int;
        let b = choose|b: int|
            0 <= b <= sy.len() && frontier(finish_loop(fr, sy, fr.len() as int, Seq::empty())->Ok_0)
                == frontier_stack(#[trigger] sy.subrange(b, sy.len() as int)) + frontier_rev(
                Seq::empty(),
            );
        let low = sy.take(b);
        let high = sy.subrange(b, n);
        lemma_stack_concat(low, high);
        assert(low + high =~= sy);
    } else {
        let a = kind_name(toks[i].1);
        let p = rget(t[st.last() as int], a).unwrap();
        if p.0 {
            let c = reduce_step(t, g, st, sy, a).unwrap();
            lemma_reduce_frontier(t, g, st, sy, a);
            lemma_run_frontier(t, g, toks, i, c.0, c.1, (fuel - 1) as nat);
        } else {
            let sy1 = sy.push(leaf(toks[i].0, toks[i].1));
            assert(sy1.drop_last() =~= sy);
            assert(frontier_stack(sy1) =~= toks.take(i + 1));
            lemma_run_frontier(t, g, toks, i + 1, st.push(p.1), sy1, fuel);
        }
    }
}

/// A parse that succeeds answers with a tree whose leaves, read from left
/// to right, are the last tokens of the input with `BOF` before it and `EOF`
/// after it, in order: no token is changed, repeated or moved.
pub proof fn law_parse_frontier(t: TView, g: Seq<Seq<Seq<char>>>, toks: Seq<(Seq<char>, Type)>)
    requires
        parse_terminates(t, g, toks),
        parse_result(t, g, toks) is Ok,
    ensures
        exists|p: Seq<(Seq<char>, Type)>| augmented(toks) == p + frontier(parse_result(t, g, toks)->Ok_0),
{
    let f = choose|f: nat| #[trigger] run(t, g, augmented(toks), 0, seq![0usize], Seq::empty(), f) is Some;
    assert(augmented(toks).take(0) =~= frontier_stack(Seq::<PTree>::empty()));
    lemma_run_frontier(t, g, augmented(toks), 0, seq![0usize], Seq::empty(), f);
}

} // verus!
