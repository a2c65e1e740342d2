//! Truth values of literals by name, kept in the order in which names were
//! first entered.

use vstd::prelude::*;

verus! {

/// The value a name has during the search: not yet decided, true or false.
#[derive(Clone, Copy, Debug, PartialEq, Eq, Structural)]
pub enum Bv {
    UND,
    TRUE,
    FALSE,
}

/// An association of names to values, as a sequence of entries.
pub type VMap = Seq<(Seq<char>, Bv)>;

/// The position of the last entry for `k`, or -1 where there is none.
pub open spec fn idx(m: VMap, k: Seq<char>) -> int
    decreases m.len(),
{
    if m.len() == 0 {
        -1
    } else if m.last().0 == k {
        m.len() - 1
    } else {
        idx(m.drop_last(), k)
    }
}

/// Whether `k` has an entry.
pub open spec fn has(m: VMap, k: Seq<char>) -> bool {
    idx(m, k) >= 0
}

/// The value of `k` (meaningful where `k` has an entry).
pub open spec fn value_at(m: VMap, k: Seq<char>) -> Bv {
    m[idx(m, k)].1
}

/// `m` with `k` taking the value `v`: its entry is changed in place, or a new
/// entry comes last.
pub open spec fn assign(m: VMap, k: Seq<char>, v: Bv) -> VMap {
    let i = idx(m, k);
    if i >= 0 {
        m.update(i, (k, v))
    } else {
        m.push((k, v))
    }
}

/// No name has two entries.
pub open spec fn distinct(m: VMap) -> bool {
    forall|i: int, j: int| 0 <= i < j < m.len() ==> m[i].0 != m[j].0
}

/// The number of undecided entries.
pub open spec fn count_und(m: VMap) -> nat
    decreases m.len(),
{
    if m.len() == 0 {
        0
    } else {
        count_und(m.drop_last()) + (if m.last().1 == Bv::UND { 1nat } else { 0nat })
    }
}

/// The position of the first undecided entry, or -1 where there is none.
pub open spec fn first_und(m: VMap) -> int
    decreases m.len(),
{
    if m.len() == 0 {
        -1
    } else {
        let k = first_und(m.drop_last());
        if k >= 0 {
            k
        } else if m.last().1 == Bv::UND {
            m.len() - 1
        } else {
            -1
        }
    }
}

pub proof fn lemma_idx(m: VMap, k: Seq<char>)
    ensures
        -1 <= idx(m, k) < m.len(),
        idx(m, k) >= 0 ==> m[idx(m, k)].0 == k,
        idx(m, k) == -1 <==> forall|j: int| 0 <= j < m.len() ==> m[j].0 != k,
        forall|j: int| idx(m, k) < j < m.len() ==> m[j].0 != k,
    decreases m.len(),
{
    if m.len() > 0 {
        lemma_idx(m.drop_last(), k);
        if m.last().0 != k {
            assert forall|j: int| 0 <= j < m.len() && idx(m, k) == -1 implies m[j].0 != k by {
                if j < m.len() - 1 {
                    assert(m.drop_last()[j] == m[j]);
                }
            }
            assert forall|j: int| idx(m, k) < j < m.len() implies m[j].0 != k by {
                if j < m.len() - 1 {
                    assert(m.drop_last()[j] == m[j]);
                }
            }
        }
    }
}

/// In a map without repeated names, `idx` finds the one entry of a name.
pub proof fn lemma_idx_distinct(m: VMap, k: Seq<char>, j: int)
    requires
        distinct(m),
        0 <= j < m.len(),
        m[j].0 == k,
    ensures
        idx(m, k) == j,
{
    lemma_idx(m, k);
}

/// Setting a value keeps the names and their order, adding `k` last where it
/// had no entry.
pub proof fn lemma_assign(m: VMap, k: Seq<char>, v: Bv)
    ensures
        has(assign(m, k, v), k),
        value_at(assign(m, k, v), k) == v,
        forall|x: Seq<char>| #[trigger] has(assign(m, k, v), x) <==> (has(m, x) || x == k),
        forall|x: Seq<char>| x != k && has(m, x) ==> #[trigger] value_at(assign(m, k, v), x) == value_at(m, x),
        distinct(m) ==> distinct(assign(m, k, v)),
        has(m, k) ==> assign(m, k, v).len() == m.len(),
        has(m, k) ==> forall|j: int| 0 <= j < m.len() ==> (#[trigger] assign(m, k, v)[j]).0 == m[j].0,
{
    let r = assign(m, k, v);
    lemma_idx(m, k);
    lemma_idx(r, k);
    assert forall|x: Seq<char>| #[trigger] has(r, x) <==> (has(m, x) || x == k) by {
        lemma_idx(m, x);
        lemma_idx(r, x);
        if has(m, x) {
            assert(r[idx(m, x)].0 == x);
        }
    }
    assert forall|x: Seq<char>| x != k && has(m, x) implies #[trigger] value_at(r, x) == value_at(m, x) by {
        lemma_idx(m, x);
        lemma_idx(r, x);
        if has(m, x) {
            assert(r[idx(m, x)].0 == x);
        }
    }
    if idx(m, k) >= 0 {
        assert(r[idx(m, k)].0 == k);
    }
}

/// A map `b` refines `a` where it lists the same names first, decides every
/// name that `a` decides, and decides every name that it adds.
pub open spec fn refines(a: VMap, b: VMap) -> bool {
    &&& a.len() <= b.len()
    &&& forall|i: int| 0 <= i < a.len() ==> (#[trigger] b[i]).0 == a[i].0
    &&& forall|i: int| 0 <= i < a.len() && a[i].1 != Bv::UND ==> (#[trigger] b[i]).1 != Bv::UND
    &&& forall|i: int| a.len() <= i < b.len() ==> (#[trigger] b[i]).1 != Bv::UND
}

/// Deciding a name refines the map.
pub proof fn lemma_assign_refines(m: VMap, k: Seq<char>, v: Bv)
    requires
        v != Bv::UND,
    ensures
        refines(m, assign(m, k, v)),
{
    lemma_idx(m, k);
}

/// A map that keeps every decided value of another of the same length has
/// no more undecided names, and fewer where it decides an undecided one.
pub proof fn lemma_count_le(a: VMap, b: VMap)
    requires
        a.len() == b.len(),
        forall|i: int| 0 <= i < a.len() && a[i].1 != Bv::UND ==> b[i].1 != Bv::UND,
    ensures
        count_und(b) <= count_und(a),
        (exists|i: int| 0 <= i < a.len() && a[i].1 == Bv::UND && b[i].1 != Bv::UND) ==> count_und(
            b,
        ) < count_und(a),
    decreases a.len(),
{
    if a.len() > 0 {
        let a1 = a.drop_last();
        let b1 = b.drop_last();
        lemma_count_le(a1, b1);
        if exists|i: int| 0 <= i < a.len() && a[i].1 == Bv::UND && b[i].1 != Bv::UND {
            let i = choose|i: int| 0 <= i < a.len() && a[i].1 == Bv::UND && b[i].1 != Bv::UND;
            if i < a.len() - 1 {
                assert(a1[i] == a[i] && b1[i] == b[i]);
            }
        }
    }
}

proof fn lemma_count_extend(b: VMap, n: int)
    requires
        0 <= n <= b.len(),
        forall|i: int| n <= i < b.len() ==> b[i].1 != Bv::UND,
    ensures
        count_und(b) == count_und(b.take(n)),
    decreases b.len() - n,
{
    if n < b.len() {
        assert(b.drop_last().take(n) =~= b.take(n));
        lemma_count_extend(b.drop_last(), n);
    } else {
        assert(b.take(n) =~= b);
    }
}

/// A refinement has no more undecided names, and fewer where it decides an
/// undecided one.
pub proof fn lemma_refines_count(a: VMap, b: VMap)
    requires
        refines(a, b),
    ensures
        count_und(b) <= count_und(a),
        (exists|i: int| 0 <= i < a.len() && a[i].1 == Bv::UND && b[i].1 != Bv::UND) ==> count_und(
            b,
        ) < count_und(a),
{
    lemma_count_extend(b, a.len() as int);
    let bt = b.take(a.len() as int);
    lemma_count_le(a, bt);
}

pub proof fn lemma_first_und(m: VMap)
    ensures
        -1 <= first_und(m) < m.len(),
        first_und(m) >= 0 ==> m[first_und(m)].1 == Bv::UND,
        first_und(m) == -1 <==> forall|j: int| 0 <= j < m.len() ==> m[j].1 != Bv::UND,
        forall|j: int| 0 <= j < first_und(m) ==> m[j].1 != Bv::UND,
    decreases m.len(),
{
    if m.len() > 0 {
        lemma_first_und(m.drop_last());
        assert forall|j: int| 0 <= j < m.len() - 1 implies m.drop_last()[j] == m[j] by {}
    }
}

/// A map of names to values.
pub struct Valuation {
    pub entries: Vec<(String, Bv)>,
}

impl View for Valuation {
    type V = VMap;

    open spec fn view(&self) -> VMap {
        self.entries@.map_values(|e: (String, Bv)| (e.0@, e.1))
    }
}

impl Valuation {
    /// A map with no entries.
    pub fn new() -> (r: Valuation)
        ensures
            r@ == Seq::<(Seq<char>, Bv)>::empty(),
    {
        let r = Valuation { entries: Vec::new() };
        r
    }

    /// The number of entries.
    pub fn len(&self) -> (r: usize)
        ensures
            r == self@.len(),
    {
        self.entries.len()
    }

    /// The position of the entry for `name`, found from the end.
    pub fn find(&self, name: &String) -> (r: Option<usize>)
        ensures
            match r {
                Some(i) => i == idx(self@, name@) && i < self@.len(),
                None => idx(self@, name@) == -1,
            },
    {
        proof {
            lemma_idx(self@, name@);
        }
        let mut i: usize = self.entries.len();
        assert(self@.take(i as int) =~= self@);
        while i > 0
            invariant
                i <= self.entries.len(),
                idx(self@, name@) == idx(self@.take(i as int), name@),
                -1 <= idx(self@, name@) < self@.len(),
            decreases i,
        {
            let ghost t = self@.take(i as int);
            assert(t.drop_last() =~= self@.take(i - 1));
            if self.entries[i - 1].0 == *name {
                return Some(i - 1);
            }
            i = i - 1;
        }
        None
    }

    /// The value of `name`, where it has an entry.
    pub fn get(&self, name: &String) -> (r: Option<Bv>)
        ensures
            r == (if has(self@, name@) { Some(value_at(self@, name@)) } else { None::<Bv> }),
    {
        match self.find(name) {
            Some(i) => Some(self.entries[i].1),
            None => None,
        }
    }

    /// Gives `name` the value `v`: its entry changes in place, or a new entry
    /// is added last.
    pub fn insert(&mut self, name: &String, v: Bv)
        ensures
            final(self)@ == assign(old(self)@, name@, v),
    {
        match self.find(name) {
            Some(i) => {
                self.entries.set(i, (name.clone(), v));
            },
            None => {
                self.entries.push((name.clone(), v));
            },
        }
    }

    /// The position of the first undecided entry.
    pub fn first_und(&self) -> (r: Option<usize>)
        ensures
            match r {
                Some(i) => i == first_und(self@) && i < self@.len(),
                None => first_und(self@) == -1,
            },
    {
        proof {
            lemma_first_und(self@);
        }
        let mut i: usize = 0;
        while i < self.entries.len()
            invariant
                i <= self.entries.len(),
                forall|j: int| 0 <= j < i ==> self@[j].1 != Bv::UND,
                -1 <= first_und(self@) < self@.len(),
                first_und(self@) >= 0 ==> self@[first_und(self@)].1 == Bv::UND,
                first_und(self@) == -1 <==> forall|j: int| 0 <= j < self@.len() ==> self@[j].1 != Bv::UND,
                forall|j: int| 0 <= j < first_und(self@) ==> self@[j].1 != Bv::UND,
            decreases self.entries.len() - i,
        {
            if self.entries[i].1 == Bv::UND {
                assert(self@[i as int].1 == Bv::UND);
                return Some(i);
            }
            i = i + 1;
        }
        None
    }
}

impl Clone for Valuation {
    fn clone(&self) -> (r: Self)
        ensures
            r@ == self@,
    {
        let mut entries: Vec<(String, Bv)> = Vec::new();
        let mut i: usize = 0;
        while i < self.entries.len()
            invariant
                i <= self.entries.len(),
                entries@.map_values(|e: (String, Bv)| (e.0@, e.1)) == self@.take(i as int),
            decreases self.entries.len() - i,
        {
            let e = (self.entries[i].0.clone(), self.entries[i].1);
            let ghost before = entries@;
            entries.push(e);
            assert(entries@.map_values(|e: (String, Bv)| (e.0@, e.1)) =~= before.map_values(
                |e: (String, Bv)| (e.0@, e.1),
            ).push((e.0@, e.1)));
            i = i + 1;
        }
        Valuation { entries }
    }
}

} // verus!
