//! Names that can be reached from others.

use crate::collections;
use crate::collections::StrMap;
use crate::collections::StrSet;
use crate::text;
use vstd::prelude::*;

verus! {

/// Names with the names that they lead to.
pub type EdgeMap = Seq<(Seq<char>, Seq<Seq<char>>)>;

/// What a map of names consists of.
pub open spec fn edge_map(m: StrMap<Vec<String>>) -> EdgeMap {
    collections::with_values(m@, |v: Vec<String>| text::texts(v@))
}

/// One name leads to another that is not blocked.
pub open spec fn leads(edges: EdgeMap, blocked: Set<Seq<char>>, a: Seq<char>, b: Seq<char>) -> bool {
    !blocked.contains(b) && (collections::lookup(edges, a) matches Some(v) && v.contains(b))
}

/// A way from a seed that is not blocked, each name of which leads to the next.
pub open spec fn is_way(
    edges: EdgeMap,
    blocked: Set<Seq<char>>,
    seeds: Seq<Seq<char>>,
    way: Seq<Seq<char>>,
) -> bool {
    &&& way.len() > 0
    &&& seeds.contains(way[0])
    &&& !blocked.contains(way[0])
    &&& forall|i: int|
        0 <= i < way.len() - 1 ==> leads(edges, blocked, #[trigger] way[i], way[i + 1])
}

/// A way leads to the name.
pub open spec fn reachable(
    edges: EdgeMap,
    blocked: Set<Seq<char>>,
    seeds: Seq<Seq<char>>,
    x: Seq<char>,
) -> bool {
    exists|way: Seq<Seq<char>>| #[trigger] is_way(edges, blocked, seeds, way) && way.last() == x
}

/// A seed that is not blocked is reached.
pub proof fn law_seeds_are_reached(
    edges: EdgeMap,
    blocked: Set<Seq<char>>,
    seeds: Seq<Seq<char>>,
    x: Seq<char>,
)
    requires
        seeds.contains(x),
        !blocked.contains(x),
    ensures
        reachable(edges, blocked, seeds, x),
{
    let way = seq![x];
    assert(is_way(edges, blocked, seeds, way));
    assert(way.last() == x);
}

/// What a reached name leads to is reached.
pub proof fn law_reach_goes_on(
    edges: EdgeMap,
    blocked: Set<Seq<char>>,
    seeds: Seq<Seq<char>>,
    a: Seq<char>,
    b: Seq<char>,
)
    requires
        reachable(edges, blocked, seeds, a),
        leads(edges, blocked, a, b),
    ensures
        reachable(edges, blocked, seeds, b),
{
    let way = choose|way: Seq<Seq<char>>| #[trigger]
        is_way(edges, blocked, seeds, way) && way.last() == a;
    let longer = way.push(b);
    assert forall|i: int| 0 <= i < longer.len() - 1 implies leads(
        edges,
        blocked,
        #[trigger] longer[i],
        longer[i + 1],
    ) by {
        if i < way.len() - 1 {
            assert(leads(edges, blocked, way[i], way[i + 1]));
        } else {
            assert(longer[i] == way.last());
        }
    }
    assert(longer[0] == way[0]);
    assert(is_way(edges, blocked, seeds, longer));
    assert(longer.last() == b);
}

/// A set that holds the seeds and all that its members lead to holds every way.
proof fn lemma_closed_holds(
    edges: EdgeMap,
    blocked: Set<Seq<char>>,
    seeds: Seq<Seq<char>>,
    all: Set<Seq<char>>,
    way: Seq<Seq<char>>,
)
    requires
        is_way(edges, blocked, seeds, way),
        forall|x: Seq<char>| seeds.contains(x) && !blocked.contains(x) ==> all.contains(x),
        forall|a: Seq<char>, b: Seq<char>|
            all.contains(a) && #[trigger] leads(edges, blocked, a, b) ==> all.contains(b),
    ensures
        all.contains(way.last()),
    decreases way.len(),
{
    if way.len() > 1 {
        let rest = way.drop_last();
        assert forall|i: int| 0 <= i < rest.len() - 1 implies leads(
            edges,
            blocked,
            #[trigger] rest[i],
            rest[i + 1],
        ) by {
            assert(leads(edges, blocked, way[i], way[i + 1]));
        }
        assert(rest[0] == way[0]);
        lemma_closed_holds(edges, blocked, seeds, all, rest);
        let n = way.len() as int;
        assert(leads(edges, blocked, way[n - 2], way[n - 1]));
        assert(rest.last() == way[n - 2]);
    }
}

/// All names that a map of names leads to.
pub open spec fn targets(edges: EdgeMap) -> Seq<Seq<char>>
    decreases edges.len(),
{
    if edges.len() == 0 {
        Seq::empty()
    } else {
        targets(edges.drop_last()) + edges.last().1
    }
}

/// A name that another one leads to is among all of them.
pub proof fn lemma_targets(edges: EdgeMap, a: Seq<char>, b: Seq<char>)
    requires
        collections::lookup(edges, a) matches Some(v) && v.contains(b),
    ensures
        targets(edges).contains(b),
    decreases edges.len(),
{
    let rest = edges.drop_last();
    let all = targets(edges);
    let v = collections::lookup(edges, a)->0;
    lemma_lookup_last(edges, a);
    if collections::lookup(rest, a) is Some {
        lemma_targets(rest, a, b);
        let i = choose|i: int| 0 <= i < targets(rest).len() && targets(rest)[i] == b;
        assert(all[i] == b);
    } else {
        let i = choose|i: int| 0 <= i < v.len() && v[i] == b;
        assert(all[targets(rest).len() + i] == b);
    }
}

proof fn lemma_lookup_last(edges: EdgeMap, a: Seq<char>)
    requires
        edges.len() > 0,
    ensures
        collections::lookup(edges, a) == match collections::lookup(edges.drop_last(), a) {
            Some(v) => Some(v),
            None => if edges.last().0 == a {
                Some(edges.last().1)
            } else {
                None
            },
        },
    decreases edges.len(),
{
    if edges.len() == 1 {
        assert(edges.skip(1) =~= Seq::empty());
    } else if edges[0].0 != a {
        assert(edges.skip(1).drop_last() =~= edges.drop_last().skip(1));
        assert(edges.skip(1).last() == edges.last());
        lemma_lookup_last(edges.skip(1), a);
    }
}

/// The names that are reached from the seeds without passing a blocked one, in
/// the order in which they are found.
pub fn closure(seeds: &Vec<String>, edges: &StrMap<Vec<String>>, blocked: &StrSet) -> (r: StrSet)
    ensures
        forall|x: Seq<char>| #[trigger]
            r@.contains(x) <==> reachable(edge_map(*edges), blocked@, text::texts(seeds@), x),
        text::texts(r.items@).no_duplicates(),
{
    let ghost e = edge_map(*edges);
    let ghost s = text::texts(seeds@);
    let ghost stop = blocked@;
    let ghost universe = (s + targets(e)).to_set();
    let mut found = StrSet::new();
    let n: usize = seeds.len();
    let mut i: usize = 0;
    proof {
        vstd::seq_lib::seq_to_set_is_finite(s + targets(e));
    }
    while i < n
        invariant
            i <= n,
            n == seeds@.len(),
            e == edge_map(*edges),
            s == text::texts(seeds@),
            stop == blocked@,
            universe == (s + targets(e)).to_set(),
            text::texts(found.items@).no_duplicates(),
            found@.subset_of(universe),
            forall|x: Seq<char>| #[trigger]
                found@.contains(x) ==> reachable(e, stop, s, x),
            forall|k: int|
                0 <= k < i && !stop.contains(#[trigger] s[k]) ==> found@.contains(s[k]),
        decreases n - i,
    {
        assert(s[i as int] == seeds@[i as int]@);
        if !blocked.contains(seeds[i].as_str()) {
            proof {
                law_seeds_are_reached(e, stop, s, s[i as int]);
                assert((s + targets(e))[i as int] == s[i as int]);
                assert(universe.contains(s[i as int]));
            }
            enter(&mut found, seeds[i].as_str());
        }
        i += 1;
    }
    let mut head: usize = 0;
    while head < found.items.len()
        invariant
            head <= found.items@.len(),
            e == edge_map(*edges),
            s == text::texts(seeds@),
            stop == blocked@,
            universe == (s + targets(e)).to_set(),
            universe.finite(),
            text::texts(found.items@).no_duplicates(),
            found@.subset_of(universe),
            forall|x: Seq<char>| #[trigger]
                found@.contains(x) ==> reachable(e, stop, s, x),
            forall|x: Seq<char>|
                s.contains(x) && !stop.contains(x) ==> #[trigger] found@.contains(x),
            forall|k: int, b: Seq<char>|
                0 <= k < head && #[trigger] leads(e, stop, found.items@[k]@, b)
                    ==> found@.contains(b),
        decreases universe.len() - head,
    {
        proof {
            lemma_fits(found, universe);
        }
        let name = found.items[head].clone();
        let ghost before = found.items@;
        proof {
            assert(text::texts(found.items@)[head as int] == name@);
            assert(found@.contains(name@));
            collections::lemma_with_values(
                edges@,
                name@,
                arbitrary(),
                |v: Vec<String>| text::texts(v@),
            );
        }
        if let Some(next) = edges.get(name.as_str()) {
            let ghost v = text::texts(next@);
            assert(collections::lookup(e, name@) == Some(v));
            let m: usize = next.len();
            let mut j: usize = 0;
            while j < m
                invariant
                    j <= m,
                    m == next@.len(),
                    v == text::texts(next@),
                    collections::lookup(e, name@) == Some(v),
                    e == edge_map(*edges),
                    s == text::texts(seeds@),
                    stop == blocked@,
                    universe == (s + targets(e)).to_set(),
                    head < before.len(),
                    before.len() <= found.items@.len(),
                    forall|k: int| 0 <= k < before.len() ==> found.items@[k] == before[k],
                    before[head as int]@ == name@,
                    text::texts(found.items@).no_duplicates(),
                    found@.subset_of(universe),
                    found@.contains(name@),
                    forall|x: Seq<char>| #[trigger]
                        found@.contains(x) ==> reachable(e, stop, s, x),
                    forall|x: Seq<char>|
                        s.contains(x) && !stop.contains(x) ==> #[trigger] found@.contains(x),
                    forall|k: int, b: Seq<char>|
                        0 <= k < head && #[trigger] leads(e, stop, found.items@[k]@, b)
                            ==> found@.contains(b),
                    forall|k: int|
                        0 <= k < j && !stop.contains(#[trigger] v[k]) ==> found@.contains(v[k]),
                decreases m - j,
            {
                assert(v[j as int] == next@[j as int]@);
                if !blocked.contains(next[j].as_str()) {
                    proof {
                        assert(v.contains(v[j as int]));
                        assert(leads(e, stop, name@, v[j as int]));
                        law_reach_goes_on(e, stop, s, name@, v[j as int]);
                        lemma_targets(e, name@, v[j as int]);
                        let t = targets(e);
                        let k = choose|k: int| 0 <= k < t.len() && t[k] == v[j as int];
                        assert((s + t)[s.len() + k] == v[j as int]);
                        assert(universe.contains(v[j as int]));
                    }
                    enter(&mut found, next[j].as_str());
                }
                j += 1;
            }
            proof {
                assert forall|k: int, b: Seq<char>|
                    0 <= k < head + 1 && #[trigger] leads(
                        e,
                        stop,
                        found.items@[k]@,
                        b,
                    ) implies found@.contains(b) by {
                    if k == head {
                        assert(found.items@[k]@ == name@);
                        let q = choose|q: int| 0 <= q < v.len() && v[q] == b;
                        assert(!stop.contains(v[q]));
                    }
                }
            }
        } else {
            proof {
                assert(collections::lookup(e, name@) is None);
                assert forall|k: int, b: Seq<char>|
                    0 <= k < head + 1 && #[trigger] leads(
                        e,
                        stop,
                        found.items@[k]@,
                        b,
                    ) implies found@.contains(b) by {
                    if k == head {
                        assert(found.items@[k]@ == name@);
                    }
                }
            }
        }
        head += 1;
    }
    proof {
        assert forall|x: Seq<char>| reachable(e, stop, s, x) implies #[trigger] found@.contains(
            x,
        ) by {
            let way = choose|way: Seq<Seq<char>>| #[trigger]
                is_way(e, stop, s, way) && way.last() == x;
            assert forall|a: Seq<char>, b: Seq<char>|
                found@.contains(a) && #[trigger] leads(e, stop, a, b) implies found@.contains(b) by {
                let items = text::texts(found.items@);
                let k = choose|k: int| 0 <= k < items.len() && items[k] == a;
                assert(found.items@[k]@ == a);
                assert(leads(e, stop, found.items@[k]@, b));
            }
            lemma_closed_holds(e, stop, s, found@, way);
        }
    }
    found
}

/// A set without duplicates has no more items than what it is part of.
proof fn lemma_fits(found: StrSet, universe: Set<Seq<char>>)
    requires
        text::texts(found.items@).no_duplicates(),
        found@.subset_of(universe),
        universe.finite(),
    ensures
        found.items@.len() <= universe.len(),
{
    text::texts(found.items@).unique_seq_to_set();
    vstd::set_lib::lemma_len_subset(found@, universe);
}

fn enter(found: &mut StrSet, name: &str)
    requires
        text::texts(old(found).items@).no_duplicates(),
    ensures
        final(found)@ == old(found)@.insert(name@),
        text::texts(final(found).items@).no_duplicates(),
        old(found).items@.len() <= final(found).items@.len(),
        forall|k: int| 0 <= k < old(found).items@.len() ==> final(found).items@[k] == old(
            found,
        ).items@[k],
{
    let ghost was = text::texts(found.items@);
    let copy = String::from_str(name);
    let fresh = found.insert(copy);
    proof {
        let now = text::texts(found.items@);
        if fresh {
            assert(now =~= was.push(name@));
            assert forall|i: int, j: int| 0 <= i < now.len() && 0 <= j < now.len() && i
                != j implies now[i] != now[j] by {
                if i < was.len() && j < was.len() {
                    assert(was[i] != was[j]);
                } else if i < was.len() {
                    assert(was.contains(was[i]));
                    assert(was.to_set().contains(was[i]));
                } else {
                    assert(was.contains(was[j]));
                    assert(was.to_set().contains(was[j]));
                }
            }
        }
    }
}

} // verus!
