//! Maps and sets keyed by strings.
//!
//! A map is a list of entries. Insertion keeps the entries ordered by key, so
//! that a map built by insertions is walked in the order of its keys.

use crate::text;
use vstd::prelude::*;

verus! {

// ---------------------------------------------------------------------------
// Maps

/// A map from strings to values.
#[derive(Debug, Clone)]
pub struct StrMap<V> {
    pub entries: Vec<(String, V)>,
}

/// The entries of a map with the characters of their keys.
pub open spec fn pairs<V>(e: Seq<(String, V)>) -> Seq<(Seq<char>, V)> {
    e.map_values(|p: (String, V)| (p.0@, p.1))
}

impl<V> View for StrMap<V> {
    type V = Seq<(Seq<char>, V)>;

    open spec fn view(&self) -> Seq<(Seq<char>, V)> {
        pairs(self.entries@)
    }
}

/// The value of the first entry with the key `k`.
pub open spec fn lookup<V>(p: Seq<(Seq<char>, V)>, k: Seq<char>) -> Option<V>
    decreases p.len(),
{
    if p.len() == 0 {
        None
    } else if p[0].0 == k {
        Some(p[0].1)
    } else {
        lookup(p.skip(1), k)
    }
}

/// The entries after `k` was given the value `v`: its entry is replaced, or a
/// new one stands before the first greater key.
pub open spec fn inserted<V>(p: Seq<(Seq<char>, V)>, k: Seq<char>, v: V) -> Seq<(Seq<char>, V)>
    decreases p.len(),
{
    if p.len() == 0 {
        seq![(k, v)]
    } else if p[0].0 == k {
        seq![(k, v)] + p.skip(1)
    } else if text::text_lt(k, p[0].0) {
        seq![(k, v)] + p
    } else {
        seq![p[0]] + inserted(p.skip(1), k, v)
    }
}

/// The entries with another key than `k`.
pub open spec fn removed<V>(p: Seq<(Seq<char>, V)>, k: Seq<char>) -> Seq<(Seq<char>, V)>
    decreases p.len(),
{
    if p.len() == 0 {
        p
    } else if p.last().0 == k {
        removed(p.drop_last(), k)
    } else {
        removed(p.drop_last(), k).push(p.last())
    }
}

/// The keys rise from entry to entry.
pub open spec fn ordered<V>(p: Seq<(Seq<char>, V)>) -> bool {
    forall|i: int, j: int| 0 <= i < j < p.len() ==> text::text_lt(#[trigger] p[i].0, #[trigger] p[j].0)
}

/// A read gives back what was written last, and a write changes nothing else.
pub proof fn law_lookup_inserted<V>(p: Seq<(Seq<char>, V)>, k: Seq<char>, v: V, q: Seq<char>)
    ensures
        lookup(inserted(p, k, v), q) == if q == k {
            Some(v)
        } else {
            lookup(p, q)
        },
    decreases p.len(),
{
    let r = inserted(p, k, v);
    if p.len() == 0 {
        assert(r.skip(1) =~= p);
    } else if p[0].0 == k {
        assert(r.skip(1) =~= p.skip(1));
    } else if text::text_lt(k, p[0].0) {
        assert(r.skip(1) =~= p);
    } else {
        assert(r.skip(1) =~= inserted(p.skip(1), k, v));
        law_lookup_inserted(p.skip(1), k, v, q);
    }
}

pub proof fn lemma_lookup_push<V>(p: Seq<(Seq<char>, V)>, e: (Seq<char>, V), q: Seq<char>)
    ensures
        lookup(p.push(e), q) == match lookup(p, q) {
            Some(v) => Some(v),
            None => if e.0 == q {
                Some(e.1)
            } else {
                None
            },
        },
    decreases p.len(),
{
    if p.len() == 0 {
        assert(p.push(e)[0] == e);
        assert(p.push(e).skip(1) =~= p);
    } else {
        assert(p.push(e).skip(1) =~= p.skip(1).push(e));
        lemma_lookup_push(p.skip(1), e, q);
    }
}

/// A key that is found stands in an entry.
pub proof fn lemma_lookup_found<V>(p: Seq<(Seq<char>, V)>, k: Seq<char>)
    ensures
        lookup(p, k) matches Some(v) ==> exists|i: int|
            0 <= i < p.len() && (#[trigger] p[i]).0 == k && p[i].1 == v,
        lookup(p, k) is None ==> forall|i: int| 0 <= i < p.len() ==> (#[trigger] p[i]).0 != k,
    decreases p.len(),
{
    if p.len() > 0 {
        let rest = p.skip(1);
        lemma_lookup_found(rest, k);
        if p[0].0 != k {
            if let Some(v) = lookup(rest, k) {
                let i = choose|i: int|
                    0 <= i < rest.len() && (#[trigger] rest[i]).0 == k && rest[i].1 == v;
                assert(p[i + 1] == rest[i]);
            } else {
                assert forall|i: int| 0 <= i < p.len() implies (#[trigger] p[i]).0 != k by {
                    if i > 0 {
                        assert(rest[i - 1] == p[i]);
                    }
                }
            }
        }
    }
}

/// A removed key is gone, and a removal changes nothing else.
pub proof fn law_lookup_removed<V>(p: Seq<(Seq<char>, V)>, k: Seq<char>, q: Seq<char>)
    ensures
        lookup(removed(p, k), q) == if q == k {
            None
        } else {
            lookup(p, q)
        },
    decreases p.len(),
{
    if p.len() > 0 {
        law_lookup_removed(p.drop_last(), k, q);
        assert(p =~= p.drop_last().push(p.last()));
        lemma_lookup_push(p.drop_last(), p.last(), q);
        if p.last().0 != k {
            lemma_lookup_push(removed(p.drop_last(), k), p.last(), q);
        }
    }
}

/// An insertion keeps the keys in order.
pub proof fn law_insertion_keeps_order<V>(p: Seq<(Seq<char>, V)>, k: Seq<char>, v: V)
    requires
        ordered(p),
    ensures
        ordered(inserted(p, k, v)),
    decreases p.len(),
{
    let r = inserted(p, k, v);
    if p.len() == 0 {
    } else if p[0].0 == k {
        assert forall|i: int, j: int| 0 <= i < j < r.len() implies text::text_lt(
            #[trigger] r[i].0,
            #[trigger] r[j].0,
        ) by {
            assert(text::text_lt(p[i].0, p[j].0));
        }
    } else if text::text_lt(k, p[0].0) {
        assert forall|i: int, j: int| 0 <= i < j < r.len() implies text::text_lt(
            #[trigger] r[i].0,
            #[trigger] r[j].0,
        ) by {
            if i == 0 {
                if j > 1 {
                    assert(text::text_lt(p[0].0, p[j - 1].0));
                    text::lemma_text_lt_transitive(k, p[0].0, p[j - 1].0);
                }
            } else {
                assert(text::text_lt(p[i - 1].0, p[j - 1].0));
            }
        }
    } else {
        let tail = p.skip(1);
        assert(ordered(tail)) by {
            assert forall|i: int, j: int| 0 <= i < j < tail.len() implies text::text_lt(
                #[trigger] tail[i].0,
                #[trigger] tail[j].0,
            ) by {
                assert(text::text_lt(p[i + 1].0, p[j + 1].0));
            }
        }
        law_insertion_keeps_order(tail, k, v);
        text::lemma_text_lt_total(k, p[0].0);
        lemma_inserted_keys(tail, k, v);
        let rest = inserted(tail, k, v);
        assert forall|i: int, j: int| 0 <= i < j < r.len() implies text::text_lt(
            #[trigger] r[i].0,
            #[trigger] r[j].0,
        ) by {
            if i == 0 {
                assert(r[j] == rest[j - 1]);
                if rest[j - 1].0 != k {
                    let m = choose|m: int| 0 <= m < tail.len() && tail[m].0 == rest[j - 1].0;
                    assert(text::text_lt(p[0].0, p[m + 1].0));
                }
            } else {
                assert(text::text_lt(rest[i - 1].0, rest[j - 1].0));
            }
        }
    }
}

/// A removal keeps the keys in order.
pub proof fn law_removal_keeps_order<V>(p: Seq<(Seq<char>, V)>, k: Seq<char>)
    requires
        ordered(p),
    ensures
        ordered(removed(p, k)),
    decreases p.len(),
{
    if p.len() > 0 {
        let front = p.drop_last();
        assert(ordered(front)) by {
            assert forall|i: int, j: int| 0 <= i < j < front.len() implies text::text_lt(
                #[trigger] front[i].0,
                #[trigger] front[j].0,
            ) by {
                assert(text::text_lt(p[i].0, p[j].0));
            }
        }
        law_removal_keeps_order(front, k);
        lemma_removed_keys(front, k);
        let rest = removed(front, k);
        let r = removed(p, k);
        if p.last().0 != k {
            assert forall|i: int, j: int| 0 <= i < j < r.len() implies text::text_lt(
                #[trigger] r[i].0,
                #[trigger] r[j].0,
            ) by {
                if j == rest.len() {
                    let m = choose|m: int| 0 <= m < front.len() && front[m] == rest[i];
                    assert(text::text_lt(p[m].0, p[p.len() - 1].0));
                } else {
                    assert(text::text_lt(rest[i].0, rest[j].0));
                }
            }
        }
    }
}

proof fn lemma_removed_keys<V>(p: Seq<(Seq<char>, V)>, k: Seq<char>)
    ensures
        forall|j: int|
            0 <= j < removed(p, k).len() ==> exists|m: int|
                0 <= m < p.len() && p[m] == #[trigger] removed(p, k)[j],
    decreases p.len(),
{
    if p.len() > 0 {
        lemma_removed_keys(p.drop_last(), k);
        let rest = removed(p.drop_last(), k);
        let r = removed(p, k);
        assert forall|j: int| 0 <= j < r.len() implies exists|m: int|
            0 <= m < p.len() && p[m] == #[trigger] r[j] by {
            if j < rest.len() {
                assert(r[j] == rest[j]);
                let m = choose|m: int| 0 <= m < p.drop_last().len() && p.drop_last()[m] == rest[j];
                assert(p[m] == r[j]);
            } else {
                assert(p[p.len() - 1] == r[j]);
            }
        }
    }
}

proof fn lemma_tail_ordered<V>(p: Seq<(Seq<char>, V)>)
    requires
        p.len() > 0,
        ordered(p),
    ensures
        ordered(p.skip(1)),
{
    let tail = p.skip(1);
    assert forall|i: int, j: int| 0 <= i < j < tail.len() implies text::text_lt(
        #[trigger] tail[i].0,
        #[trigger] tail[j].0,
    ) by {
        assert(text::text_lt(p[i + 1].0, p[j + 1].0));
    }
}

/// A key below the first one has no entry.
proof fn lemma_below_first<V>(p: Seq<(Seq<char>, V)>, k: Seq<char>)
    requires
        ordered(p),
        p.len() > 0 ==> text::text_lt(k, p[0].0),
    ensures
        lookup(p, k) is None,
    decreases p.len(),
{
    if p.len() > 0 {
        text::lemma_text_lt_total(k, p[0].0);
        lemma_tail_ordered(p);
        if p.len() > 1 {
            assert(text::text_lt(p[0].0, p[1].0));
            text::lemma_text_lt_transitive(k, p[0].0, p[1].0);
        }
        lemma_below_first(p.skip(1), k);
    }
}

/// Maps in order that give the same at every key are the same.
pub proof fn law_same_lookups<V>(p: Seq<(Seq<char>, V)>, q: Seq<(Seq<char>, V)>)
    requires
        ordered(p),
        ordered(q),
        forall|k: Seq<char>| #[trigger] lookup(p, k) == lookup(q, k),
    ensures
        p == q,
    decreases p.len(),
{
    if p.len() == 0 {
        if q.len() > 0 {
            assert(lookup(p, q[0].0) == lookup(q, q[0].0));
        }
        assert(p =~= q);
    } else {
        let k = p[0].0;
        assert(lookup(p, k) == lookup(q, k));
        assert(q.len() > 0);
        let h = q[0].0;
        assert(lookup(p, h) == lookup(q, h));
        text::lemma_text_lt_total(k, h);
        if text::text_lt(k, h) {
            lemma_below_first(q, k);
        } else if text::text_lt(h, k) {
            lemma_below_first(p, h);
        }
        assert(p[0] == q[0]);
        lemma_tail_ordered(p);
        lemma_tail_ordered(q);
        assert forall|n: Seq<char>| #[trigger] lookup(p.skip(1), n) == lookup(q.skip(1), n) by {
            if n == k {
                if p.len() > 1 {
                    assert(text::text_lt(p[0].0, p[1].0));
                }
                if q.len() > 1 {
                    assert(text::text_lt(q[0].0, q[1].0));
                }
                lemma_below_first(p.skip(1), k);
                lemma_below_first(q.skip(1), k);
            } else {
                assert(lookup(p, n) == lookup(q, n));
            }
        }
        law_same_lookups(p.skip(1), q.skip(1));
        assert(p =~= seq![p[0]] + p.skip(1));
        assert(q =~= seq![q[0]] + q.skip(1));
    }
}

pub proof fn lemma_inserted_keys<V>(p: Seq<(Seq<char>, V)>, k: Seq<char>, v: V)
    ensures
        forall|j: int|
            0 <= j < inserted(p, k, v).len() ==> (#[trigger] inserted(p, k, v)[j]).0 == k || exists|
                m: int,
            |
                0 <= m < p.len() && p[m].0 == inserted(p, k, v)[j].0,
    decreases p.len(),
{
    let r = inserted(p, k, v);
    if p.len() == 0 || p[0].0 == k {
        assert forall|j: int| 0 <= j < r.len() implies (#[trigger] r[j]).0 == k || exists|m: int|
            0 <= m < p.len() && p[m].0 == r[j].0 by {
            if j > 0 {
                assert(p[j].0 == r[j].0);
            }
        }
    } else if text::text_lt(k, p[0].0) {
        assert forall|j: int| 0 <= j < r.len() implies (#[trigger] r[j]).0 == k || exists|m: int|
            0 <= m < p.len() && p[m].0 == r[j].0 by {
            if j > 0 {
                assert(p[j - 1].0 == r[j].0);
            }
        }
    } else {
        lemma_inserted_keys(p.skip(1), k, v);
        let rest = inserted(p.skip(1), k, v);
        assert forall|j: int| 0 <= j < r.len() implies (#[trigger] r[j]).0 == k || exists|m: int|
            0 <= m < p.len() && p[m].0 == r[j].0 by {
            if j == 0 {
                assert(p[0].0 == r[0].0);
            } else {
                assert(r[j] == rest[j - 1]);
                if rest[j - 1].0 != k {
                    let m = choose|m: int|
                        0 <= m < p.skip(1).len() && p.skip(1)[m].0 == rest[j - 1].0;
                    assert(p[m + 1].0 == r[j].0);
                }
            }
        }
    }
}

/// A map's entries with each value replaced by what `f` makes of it.
pub open spec fn with_values<V, W>(p: Seq<(Seq<char>, V)>, f: spec_fn(V) -> W) -> Seq<
    (Seq<char>, W),
> {
    p.map_values(|e: (Seq<char>, V)| (e.0, f(e.1)))
}

/// Insertion, removal and lookup commute with a change of the values.
pub proof fn lemma_with_values<V, W>(
    p: Seq<(Seq<char>, V)>,
    k: Seq<char>,
    v: V,
    f: spec_fn(V) -> W,
)
    ensures
        with_values(inserted(p, k, v), f) == inserted(with_values(p, f), k, f(v)),
        with_values(removed(p, k), f) == removed(with_values(p, f), k),
        lookup(with_values(p, f), k) == match lookup(p, k) {
            Some(x) => Some(f(x)),
            None => None,
        },
    decreases p.len(),
{
    let q = with_values(p, f);
    if p.len() == 0 {
        assert(with_values(inserted(p, k, v), f) =~= inserted(q, k, f(v)));
        assert(with_values(removed(p, k), f) =~= removed(q, k));
    } else {
        lemma_with_values(p.skip(1), k, v, f);
        lemma_with_values(p.drop_last(), k, v, f);
        assert(q.skip(1) =~= with_values(p.skip(1), f));
        assert(q.drop_last() =~= with_values(p.drop_last(), f));
        assert(with_values(inserted(p, k, v), f) =~= inserted(q, k, f(v)));
        assert(with_values(removed(p, k), f) =~= removed(q, k));
    }
}

impl<V> StrMap<V> {
    /// The empty map.
    pub fn new() -> (r: Self)
        ensures
            r@ == Seq::<(Seq<char>, V)>::empty(),
            r.entries@.len() == 0,
    {
        let r = StrMap { entries: Vec::new() };
        assert(r@ =~= Seq::<(Seq<char>, V)>::empty());
        r
    }

    /// The number of entries.
    pub fn len(&self) -> (r: usize)
        ensures
            r == self@.len(),
    {
        self.entries.len()
    }

    pub fn is_empty(&self) -> (r: bool)
        ensures
            r == (self@.len() == 0),
    {
        self.entries.len() == 0
    }

    /// The position of the first entry with the key `k`.
    pub fn position(&self, k: &str) -> (r: Option<usize>)
        ensures
            match r {
                Some(i) => i < self@.len() && self@[i as int].0 == k@ && lookup(self@, k@) == Some(
                    self.entries@[i as int].1,
                ) && forall|j: int| 0 <= j < i ==> self@[j].0 != k@,
                None => lookup(self@, k@) is None && forall|j: int|
                    0 <= j < self@.len() ==> self@[j].0 != k@,
            },
    {
        let n: usize = self.entries.len();
        let mut i: usize = 0;
        assert(self@.skip(0) =~= self@);
        while i < n
            invariant
                i <= n,
                n == self.entries@.len(),
                lookup(self@, k@) == lookup(self@.skip(i as int), k@),
                forall|j: int| 0 <= j < i ==> self@[j].0 != k@,
            decreases n - i,
        {
            assert(self@[i as int] == (self.entries@[i as int].0@, self.entries@[i as int].1));
            if text::same(self.entries[i].0.as_str(), k) {
                return Some(i);
            }
            assert(self@.skip(i as int).skip(1) =~= self@.skip(i + 1));
            i += 1;
        }
        None
    }

    /// The value of `k`.
    pub fn get(&self, k: &str) -> (r: Option<&V>)
        ensures
            match r {
                Some(v) => lookup(self@, k@) == Some(*v),
                None => lookup(self@, k@) is None,
            },
    {
        match self.position(k) {
            Some(i) => Some(&self.entries[i].1),
            None => None,
        }
    }

    pub fn contains_key(&self, k: &str) -> (r: bool)
        ensures
            r == (lookup(self@, k@) is Some),
    {
        self.position(k).is_some()
    }

    /// Gives `k` the value `v`.
    pub fn insert(&mut self, k: String, v: V)
        ensures
            final(self)@ == inserted(old(self)@, k@, v),
    {
        let n: usize = self.entries.len();
        let mut i: usize = 0;
        let ghost p = self@;
        assert(p.skip(0) =~= p);
        assert(p.take(0) + inserted(p, k@, v) =~= inserted(p, k@, v));
        while i < n
            invariant
                i <= n,
                n == self.entries@.len(),
                p == self@,
                p == old(self)@,
                inserted(p, k@, v) == p.take(i as int) + inserted(p.skip(i as int), k@, v),
            decreases n - i,
        {
            let ghost tail = p.skip(i as int);
            assert(tail[0] == (self.entries@[i as int].0@, self.entries@[i as int].1));
            if text::same(self.entries[i].0.as_str(), k.as_str()) {
                self.entries.set(i, (k, v));
                assert(tail.skip(1) =~= p.skip(i + 1));
                assert(self@ =~= p.take(i as int) + (seq![(k@, v)] + p.skip(i + 1)));
                return;
            }
            if text::below(k.as_str(), self.entries[i].0.as_str()) {
                self.entries.insert(i, (k, v));
                assert(self@ =~= p.take(i as int) + (seq![(k@, v)] + tail));
                return;
            }
            assert(tail.skip(1) =~= p.skip(i + 1));
            assert(p.take(i as int) + (seq![tail[0]] + inserted(tail.skip(1), k@, v)) =~= p.take(
                i + 1,
            ) + inserted(p.skip(i + 1), k@, v));
            i += 1;
        }
        self.entries.push((k, v));
        assert(self@ =~= p.take(n as int) + seq![(k@, v)]);
    }

    /// Takes `k` out. Returns whether it was in.
    pub fn remove(&mut self, k: &str) -> (r: bool)
        ensures
            final(self)@ == removed(old(self)@, k@),
            r == (lookup(old(self)@, k@) is Some),
    {
        let had = self.contains_key(k);
        let ghost p = self@;
        let mut i: usize = self.entries.len();
        assert(p.take(i as int) =~= p);
        assert(removed(p, k@) =~= removed(p.take(i as int), k@) + p.skip(i as int));
        assert(self@ =~= p.take(i as int) + Seq::<(Seq<char>, V)>::empty());
        let ghost mut kept: Seq<(Seq<char>, V)> = Seq::empty();
        while i > 0
            invariant
                i <= self.entries@.len(),
                i <= p.len(),
                p == old(self)@,
                self@ == p.take(i as int) + kept,
                removed(p, k@) == removed(p.take(i as int), k@) + kept,
            decreases i,
        {
            i -= 1;
            let ghost head = p.take(i + 1);
            assert(head.drop_last() =~= p.take(i as int));
            assert(self@[i as int] == (self.entries@[i as int].0@, self.entries@[i as int].1));
            assert(self@[i as int] == p[i as int]);
            let ghost before = self@;
            if text::same(self.entries[i].0.as_str(), k) {
                self.entries.remove(i);
                assert(self@ =~= before.remove(i as int));
                assert(self@ =~= p.take(i as int) + kept);
            } else {
                assert(removed(head, k@) + kept =~= removed(p.take(i as int), k@) + (seq![
                    p[i as int],
                ] + kept));
                assert(before =~= p.take(i as int) + (seq![p[i as int]] + kept));
                proof {
                    kept = seq![p[i as int]] + kept;
                }
            }
        }
        assert(self@ =~= removed(p, k@));
        had
    }
}

// ---------------------------------------------------------------------------
// Requirements: package names and constraints

/// A map from strings to strings.
pub type Links = StrMap<String>;

/// The characters of a map's keys and values.
pub open spec fn link_pairs(m: StrMap<String>) -> Seq<(Seq<char>, Seq<char>)> {
    with_values(m@, |s: String| s@)
}

impl StrMap<String> {
    /// A copy of the map.
    pub fn copy(&self) -> (r: StrMap<String>)
        ensures
            r@ == self@,
    {
        let n: usize = self.entries.len();
        let mut out: Vec<(String, String)> = Vec::new();
        let mut i: usize = 0;
        while i < n
            invariant
                i <= n,
                n == self.entries@.len(),
                out@.len() == i,
                forall|j: int|
                    0 <= j < i ==> (#[trigger] out@[j]).0@ == self.entries@[j].0@ && out@[j].1
                        == self.entries@[j].1,
            decreases n - i,
        {
            out.push((self.entries[i].0.clone(), self.entries[i].1.clone()));
            i += 1;
        }
        let r = StrMap { entries: out };
        assert(r@ =~= self@);
        r
    }
}

/// Reading a value of a map of strings.
pub proof fn lemma_link_lookup(m: StrMap<String>, k: Seq<char>)
    ensures
        lookup(link_pairs(m), k) == match lookup(m@, k) {
            Some(s) => Some(s@),
            None => None,
        },
{
    let s: String = arbitrary();
    lemma_with_values(m@, k, s, |s: String| s@);
}

// ---------------------------------------------------------------------------
// Sets

/// A set of strings.
#[derive(Debug, Clone)]
pub struct StrSet {
    pub items: Vec<String>,
}

impl View for StrSet {
    type V = Set<Seq<char>>;

    open spec fn view(&self) -> Set<Seq<char>> {
        text::texts(self.items@).to_set()
    }
}

impl StrSet {
    /// The empty set.
    pub fn new() -> (r: Self)
        ensures
            r@ == Set::<Seq<char>>::empty(),
            r.items@.len() == 0,
    {
        let r = StrSet { items: Vec::new() };
        assert(r@ =~= Set::<Seq<char>>::empty());
        r
    }

    /// Whether the set holds `s`.
    pub fn contains(&self, s: &str) -> (r: bool)
        ensures
            r == self@.contains(s@),
    {
        contains_text(&self.items, s)
    }

    /// Puts `s` into the set. Returns whether it is new.
    pub fn insert(&mut self, s: String) -> (r: bool)
        ensures
            final(self)@ == old(self)@.insert(s@),
            r == !old(self)@.contains(s@),
            final(self).items@ == if r {
                old(self).items@.push(s)
            } else {
                old(self).items@
            },
    {
        if self.contains(s.as_str()) {
            assert(self@ =~= old(self)@.insert(s@));
            return false;
        }
        self.items.push(s);
        proof {
            let before = text::texts(old(self).items@);
            let now = text::texts(self.items@);
            assert(now =~= before.push(s@));
            assert forall|t: Seq<char>| self@.contains(t) == old(self)@.insert(s@).contains(t) by {
                if now.contains(t) {
                    let i = choose|i: int| 0 <= i < now.len() && now[i] == t;
                    if i < before.len() {
                        assert(before[i] == t);
                    }
                }
                if before.contains(t) {
                    let i = choose|i: int| 0 <= i < before.len() && before[i] == t;
                    assert(now[i] == t);
                }
                assert(now[before.len() as int] == s@);
            }
            assert(self@ =~= old(self)@.insert(s@));
        }
        true
    }

    /// Takes `s` out of the set.
    pub fn remove(&mut self, s: &str)
        ensures
            final(self)@ == old(self)@.remove(s@),
    {
        let mut out: Vec<String> = Vec::new();
        let n: usize = self.items.len();
        let mut i: usize = 0;
        while i < n
            invariant
                i <= n,
                n == self.items@.len(),
                self.items@ == old(self).items@,
                forall|j: int| 0 <= j < out@.len() ==> (#[trigger] out@[j])@ != s@ && exists|m: int|
                    0 <= m < i && self.items@[m]@ == out@[j]@,
                forall|m: int|
                    0 <= m < i && (#[trigger] self.items@[m])@ != s@ ==> exists|j: int|
                        0 <= j < out@.len() && out@[j]@ == self.items@[m]@,
            decreases n - i,
        {
            let ghost before = out@;
            if !text::same(self.items[i].as_str(), s) {
                out.push(self.items[i].clone());
                assert(out@[before.len() as int]@ == self.items@[i as int]@);
            }
            proof {
                assert forall|m: int| 0 <= m < i + 1 && (#[trigger] self.items@[m])@ != s@ implies exists|
                    j: int,
                | 0 <= j < out@.len() && out@[j]@ == self.items@[m]@ by {
                    if m < i {
                        let j = choose|j: int|
                            0 <= j < before.len() && before[j]@ == self.items@[m]@;
                        assert(out@[j]@ == self.items@[m]@);
                    }
                }
            }
            i += 1;
        }
        let ghost items = self.items@;
        self.items = out;
        proof {
            let now = text::texts(self.items@);
            let was = text::texts(items);
            assert forall|t: Seq<char>| self@.contains(t) == old(self)@.remove(s@).contains(t) by {
                if now.contains(t) {
                    let j = choose|j: int| 0 <= j < now.len() && now[j] == t;
                    assert(self.items@[j]@ == t);
                    let m = choose|m: int| 0 <= m < n && items[m]@ == self.items@[j]@;
                    assert(was[m] == t);
                }
                if was.contains(t) && t != s@ {
                    let m = choose|m: int| 0 <= m < was.len() && was[m] == t;
                    assert(items[m]@ == t);
                    let j = choose|j: int|
                        0 <= j < self.items@.len() && self.items@[j]@ == items[m]@;
                    assert(now[j] == t);
                }
            }
            assert(self@ =~= old(self)@.remove(s@));
        }
    }
}

/// Whether a list holds the string `s`.
pub fn contains_text(v: &Vec<String>, s: &str) -> (r: bool)
    ensures
        r == text::texts(v@).contains(s@),
        r == text::texts(v@).to_set().contains(s@),
{
    let n: usize = v.len();
    let mut i: usize = 0;
    while i < n
        invariant
            i <= n,
            n == v@.len(),
            forall|j: int| 0 <= j < i ==> text::texts(v@)[j] != s@,
        decreases n - i,
    {
        assert(text::texts(v@)[i as int] == v@[i as int]@);
        if text::same(v[i].as_str(), s) {
            return true;
        }
        i += 1;
    }
    false
}

/// A copy of a list of strings.
pub fn copy_texts(v: &Vec<String>) -> (r: Vec<String>)
    ensures
        text::texts(r@) == text::texts(v@),
        r@ == v@,
{
    let n: usize = v.len();
    let mut out: Vec<String> = Vec::new();
    let mut i: usize = 0;
    while i < n
        invariant
            i <= n,
            n == v@.len(),
            out@ == v@.take(i as int),
        decreases n - i,
    {
        out.push(v[i].clone());
        assert(out@ =~= v@.take(i + 1));
        i += 1;
    }
    assert(v@.take(n as int) =~= v@);
    out
}

// ---------------------------------------------------------------------------
// Hashed sets

/// `ahash::AHashSet`, a hashed set.
#[verifier::external_type_specification]
#[verifier::external_body]
#[verifier::reject_recursive_types(T)]
#[verifier::reject_recursive_types(S)]
pub struct ExAHashSet<T, S>(ahash::AHashSet<T, S>);

/// `ahash::RandomState`, the keys of the hash function of a set.
#[verifier::external_type_specification]
#[verifier::external_body]
pub struct ExRandomState(ahash::RandomState);

/// The texts that a hashed set holds.
pub uninterp spec fn held_texts(s: ahash::AHashSet<String>) -> Set<Seq<char>>;

/// `ahash::AHashSet::new`: a set that holds nothing.
#[verifier::external_body]
pub(crate) fn hashed_new() -> (r: ahash::AHashSet<String>)
    ensures
        held_texts(r) == Set::<Seq<char>>::empty(),
{
    ahash::AHashSet::new()
}

/// `insert` of an `ahash::AHashSet`, which it has from the set of std inside it:
/// afterwards the set holds the text too. The result says whether it is new.
#[verifier::external_body]
pub(crate) fn hashed_insert(set: &mut ahash::AHashSet<String>, s: String) -> (r: bool)
    ensures
        held_texts(*final(set)) == held_texts(*old(set)).insert(s@),
        r == !held_texts(*old(set)).contains(s@),
{
    set.insert(s)
}

/// `remove` of an `ahash::AHashSet`, which it has from the set of std inside it:
/// afterwards the set does not hold the text. The result says whether it did.
#[verifier::external_body]
pub(crate) fn hashed_remove(set: &mut ahash::AHashSet<String>, s: &str) -> (r: bool)
    ensures
        held_texts(*final(set)) == held_texts(*old(set)).remove(s@),
        r == held_texts(*old(set)).contains(s@),
{
    set.remove(s)
}

/// `contains` of an `ahash::AHashSet`, which it has from the set of std inside
/// it: whether the set holds the text.
#[verifier::external_body]
pub(crate) fn hashed_contains(set: &ahash::AHashSet<String>, s: &str) -> (r: bool)
    ensures
        r == held_texts(*set).contains(s@),
{
    set.contains(s)
}

} // verus!
