//! The chain of requirements from a project to a package.

use crate::collections;
use crate::collections::StrMap;
use crate::reach;
use crate::text;
use vstd::prelude::*;

verus! {

/// Names in the order in which they are found, each with the name that led to it;
/// an empty text if it is required by the project.
pub type Trail = Seq<(Seq<char>, Seq<char>)>;

/// A trail holds a name.
pub open spec fn knows(l: Trail, x: Seq<char>) -> bool {
    exists|i: int| 0 <= i < l.len() && (#[trigger] l[i]).0 == x
}

/// A trail after a name was found.
pub open spec fn with_entry(l: Trail, x: Seq<char>, from: Seq<char>) -> Trail {
    if knows(l, x) {
        l
    } else {
        l.push((x, from))
    }
}

/// A trail after several names were found.
pub open spec fn with_entries(l: Trail, names: Seq<Seq<char>>, from: Seq<char>) -> Trail
    decreases names.len(),
{
    if names.len() == 0 {
        l
    } else {
        with_entry(with_entries(l, names.drop_last(), from), names.last(), from)
    }
}

/// The names that a name leads to.
pub open spec fn led_to(edges: reach::EdgeMap, x: Seq<char>) -> Seq<Seq<char>> {
    match collections::lookup(edges, x) {
        Some(v) => v,
        None => Seq::empty(),
    }
}

/// The trail after its first `k` names were followed.
pub open spec fn followed(roots: Seq<Seq<char>>, edges: reach::EdgeMap, k: nat) -> Trail
    decreases k,
{
    if k == 0 {
        with_entries(Seq::empty(), roots, Seq::empty())
    } else {
        let l = followed(roots, edges, (k - 1) as nat);
        if k - 1 < l.len() {
            with_entries(l, led_to(edges, l[k - 1].0), l[k - 1].0)
        } else {
            l
        }
    }
}

/// The trail after all its names were followed.
pub open spec fn whole_trail(roots: Seq<Seq<char>>, edges: reach::EdgeMap) -> Trail {
    followed(roots, edges, roots.len() + reach::targets(edges).len())
}

/// The place of a name in a trail.
pub open spec fn place_in(l: Trail, x: Seq<char>) -> Option<int>
    decreases l.len(),
{
    if l.len() == 0 {
        None
    } else {
        match place_in(l.drop_last(), x) {
            Some(i) => Some(i),
            None => if l.last().0 == x {
                Some(l.len() - 1)
            } else {
                None
            },
        }
    }
}

/// The names that led to the one at `j`, and itself.
pub open spec fn chain_at(l: Trail, j: int) -> Seq<Seq<char>>
    decreases j,
{
    match place_in(l, l[j].1) {
        Some(i) => if l[j].1.len() > 0 && 0 <= i < j {
            chain_at(l, i).push(l[j].0)
        } else {
            seq![l[j].0]
        },
        None => seq![l[j].0],
    }
}

/// The chain from the roots to a name.
pub open spec fn chain_to(
    roots: Seq<Seq<char>>,
    edges: reach::EdgeMap,
    target: Seq<char>,
) -> Option<Seq<Seq<char>>> {
    let l = whole_trail(roots, edges);
    match place_in(l, target) {
        Some(j) => Some(chain_at(l, j)),
        None => None,
    }
}

// ---------------------------------------------------------------------------
// Trails

/// Every name of a trail is one of the roots, or a name before it led to it, and
/// none stands there twice.
pub open spec fn is_sound(l: Trail, roots: Seq<Seq<char>>, edges: reach::EdgeMap) -> bool {
    &&& forall|i: int, j: int| 0 <= i < j < l.len() ==> (#[trigger] l[i]).0 != (#[trigger] l[j]).0
    &&& forall|j: int| 0 <= j < l.len() ==> comes_from(l, roots, edges, #[trigger] l[j], j)
}

/// An entry is a root, or one before it led to it.
pub open spec fn comes_from(
    l: Trail,
    roots: Seq<Seq<char>>,
    edges: reach::EdgeMap,
    e: (Seq<char>, Seq<char>),
    j: int,
) -> bool {
    (roots.contains(e.0) && e.1.len() == 0) || exists|i: int|
        0 <= i < j && (#[trigger] l[i]).0 == e.1 && led_to(edges, e.1).contains(e.0)
}

/// A trail goes on from another one.
pub open spec fn goes_on(l: Trail, m: Trail) -> bool {
    l.len() <= m.len() && forall|i: int| 0 <= i < l.len() ==> #[trigger] m[i] == l[i]
}

proof fn lemma_entry(
    l: Trail,
    x: Seq<char>,
    from: Seq<char>,
    roots: Seq<Seq<char>>,
    edges: reach::EdgeMap,
)
    requires
        is_sound(l, roots, edges),
        (roots.contains(x) && from.len() == 0) || (knows(l, from) && led_to(edges, from).contains(
            x,
        )),
    ensures
        is_sound(with_entry(l, x, from), roots, edges),
        goes_on(l, with_entry(l, x, from)),
        knows(with_entry(l, x, from), x),
{
    let m = with_entry(l, x, from);
    if !knows(l, x) {
        assert(m[l.len() as int].0 == x);
        assert forall|i: int, j: int| 0 <= i < j < m.len() implies (#[trigger] m[i]).0 != (
        #[trigger] m[j]).0 by {
            if j < l.len() {
                assert(l[i].0 != l[j].0);
            } else {
                assert(m[i] == l[i]);
            }
        }
        assert forall|j: int| 0 <= j < m.len() implies comes_from(
            m,
            roots,
            edges,
            #[trigger] m[j],
            j,
        ) by {
            if j < l.len() {
                assert(comes_from(l, roots, edges, l[j], j));
                if !(roots.contains(l[j].0) && l[j].1.len() == 0) {
                    let i = choose|i: int|
                        0 <= i < j && (#[trigger] l[i]).0 == l[j].1 && led_to(
                            edges,
                            l[j].1,
                        ).contains(l[j].0);
                    assert(m[i].0 == m[j].1);
                }
            } else if !(roots.contains(x) && from.len() == 0) {
                let i = choose|i: int| 0 <= i < l.len() && (#[trigger] l[i]).0 == from;
                assert(m[i].0 == from);
            }
        }
    }
}

proof fn lemma_entries(
    l: Trail,
    names: Seq<Seq<char>>,
    from: Seq<char>,
    roots: Seq<Seq<char>>,
    edges: reach::EdgeMap,
)
    requires
        is_sound(l, roots, edges),
        (from.len() == 0 && forall|i: int|
            0 <= i < names.len() ==> roots.contains(#[trigger] names[i])) || (knows(l, from)
            && forall|i: int|
            0 <= i < names.len() ==> led_to(edges, from).contains(#[trigger] names[i])),
    ensures
        is_sound(with_entries(l, names, from), roots, edges),
        goes_on(l, with_entries(l, names, from)),
        forall|i: int|
            0 <= i < names.len() ==> knows(with_entries(l, names, from), #[trigger] names[i]),
    decreases names.len(),
{
    if names.len() > 0 {
        let rest = names.drop_last();
        assert forall|i: int| 0 <= i < rest.len() implies rest[i] == names[i] by {}
        lemma_entries(l, rest, from, roots, edges);
        let m = with_entries(l, rest, from);
        let x = names.last();
        assert(x == names[names.len() - 1]);
        if knows(l, from) {
            lemma_still_known(l, m, from);
        }
        lemma_entry(m, x, from, roots, edges);
        let r = with_entries(l, names, from);
        assert forall|i: int| 0 <= i < names.len() implies knows(r, #[trigger] names[i]) by {
            if i < rest.len() {
                assert(names[i] == rest[i]);
                lemma_still_known(m, r, rest[i]);
            }
        }
        assert forall|i: int| 0 <= i < l.len() implies #[trigger] r[i] == l[i] by {
            assert(m[i] == l[i]);
        }
    }
}

proof fn lemma_still_known(l: Trail, m: Trail, x: Seq<char>)
    requires
        goes_on(l, m),
        knows(l, x),
    ensures
        knows(m, x),
{
    let i = choose|i: int| 0 <= i < l.len() && (#[trigger] l[i]).0 == x;
    assert(m[i].0 == x);
}

/// The first `k` names of a trail were followed.
pub open spec fn is_followed(l: Trail, edges: reach::EdgeMap, k: int) -> bool {
    forall|i: int, d: Seq<char>|
        0 <= i < k && i < l.len() && #[trigger] led_to(edges, l[i].0).contains(d) ==> knows(l, d)
}

proof fn lemma_followed(roots: Seq<Seq<char>>, edges: reach::EdgeMap, k: nat)
    ensures
        is_sound(followed(roots, edges, k), roots, edges),
        is_followed(followed(roots, edges, k), edges, k as int),
        forall|i: int|
            0 <= i < roots.len() ==> knows(followed(roots, edges, k), #[trigger] roots[i]),
        k > 0 ==> goes_on(followed(roots, edges, (k - 1) as nat), followed(roots, edges, k)),
    decreases k,
{
    if k == 0 {
        assert forall|i: int| 0 <= i < roots.len() implies roots.contains(#[trigger] roots[i]) by {}
        lemma_entries(Seq::empty(), roots, Seq::empty(), roots, edges);
    } else {
        let before = followed(roots, edges, (k - 1) as nat);
        let now = followed(roots, edges, k);
        lemma_followed(roots, edges, (k - 1) as nat);
        if k - 1 < before.len() {
            let cur = before[k - 1].0;
            let names = led_to(edges, cur);
            assert(knows(before, cur));
            assert forall|i: int| 0 <= i < names.len() implies names.contains(
                #[trigger] names[i],
            ) by {}
            lemma_entries(before, names, cur, roots, edges);
            assert forall|i: int, d: Seq<char>|
                0 <= i < k && i < now.len() && #[trigger] led_to(edges, now[i].0).contains(
                    d,
                ) implies knows(now, d) by {
                assert(now[i] == before[i]);
                if i < k - 1 {
                    assert(led_to(edges, before[i].0).contains(d));
                    lemma_still_known(before, now, d);
                } else {
                    let j = choose|j: int| 0 <= j < names.len() && names[j] == d;
                    assert(knows(now, names[j]));
                }
            }
            assert forall|i: int| 0 <= i < roots.len() implies knows(now, #[trigger] roots[i]) by {
                lemma_still_known(before, now, roots[i]);
            }
        }
    }
}

/// The names of a trail.
spec fn trail_names(l: Trail) -> Seq<Seq<char>> {
    l.map_values(|e: (Seq<char>, Seq<char>)| e.0)
}

proof fn lemma_trail_fits(l: Trail, roots: Seq<Seq<char>>, edges: reach::EdgeMap)
    requires
        is_sound(l, roots, edges),
    ensures
        l.len() <= roots.len() + reach::targets(edges).len(),
{
    let names = trail_names(l);
    let all = roots + reach::targets(edges);
    assert forall|i: int, j: int| 0 <= i < j < names.len() implies names[i] != names[j] by {
        assert(l[i].0 != l[j].0);
    }
    assert(names.no_duplicates());
    assert forall|x: Seq<char>| names.to_set().contains(x) implies all.to_set().contains(x) by {
        let j = choose|j: int| 0 <= j < names.len() && names[j] == x;
        assert(comes_from(l, roots, edges, l[j], j));
        if roots.contains(x) {
            let i = choose|i: int| 0 <= i < roots.len() && roots[i] == x;
            assert(all[i] == x);
        } else {
            reach::lemma_targets(edges, l[j].1, x);
            let t = reach::targets(edges);
            let i = choose|i: int| 0 <= i < t.len() && t[i] == x;
            assert(all[roots.len() + i] == x);
        }
    }
    vstd::seq_lib::seq_to_set_is_finite(all);
    names.unique_seq_to_set();
    vstd::set_lib::lemma_len_subset(names.to_set(), all.to_set());
    all.lemma_cardinality_of_set();
}

proof fn lemma_nothing_left(roots: Seq<Seq<char>>, edges: reach::EdgeMap, n: nat, m: nat)
    requires
        followed(roots, edges, n).len() <= n,
        n <= m,
    ensures
        followed(roots, edges, m) == followed(roots, edges, n),
    decreases m,
{
    if m > n {
        lemma_nothing_left(roots, edges, n, (m - 1) as nat);
    }
}

/// All names of the whole trail were followed.
proof fn lemma_whole(roots: Seq<Seq<char>>, edges: reach::EdgeMap)
    ensures
        is_sound(whole_trail(roots, edges), roots, edges),
        is_followed(
            whole_trail(roots, edges),
            edges,
            whole_trail(roots, edges).len() as int,
        ),
        forall|i: int|
            0 <= i < roots.len() ==> knows(whole_trail(roots, edges), #[trigger] roots[i]),
{
    let k = roots.len() + reach::targets(edges).len();
    let l = whole_trail(roots, edges);
    lemma_followed(roots, edges, k);
    lemma_trail_fits(l, roots, edges);
}

proof fn lemma_place(l: Trail, x: Seq<char>)
    ensures
        match place_in(l, x) {
            Some(i) => 0 <= i < l.len() && l[i].0 == x,
            None => !knows(l, x),
        },
    decreases l.len(),
{
    if l.len() > 0 {
        lemma_place(l.drop_last(), x);
        if place_in(l, x) is None && knows(l, x) {
            let i = choose|i: int| 0 <= i < l.len() && (#[trigger] l[i]).0 == x;
            if i < l.len() - 1 {
                assert(l.drop_last()[i].0 == x);
            }
        }
    }
}

proof fn lemma_chain(l: Trail, j: int, roots: Seq<Seq<char>>, edges: reach::EdgeMap)
    requires
        is_sound(l, roots, edges),
        0 <= j < l.len(),
        forall|i: int| 0 <= i < l.len() ==> (#[trigger] l[i]).0.len() > 0,
    ensures
        reach::is_way(edges, Set::empty(), roots, chain_at(l, j)),
        chain_at(l, j).last() == l[j].0,
    decreases j,
{
    let e = l[j];
    assert(comes_from(l, roots, edges, l[j], j));
    lemma_place(l, e.1);
    if roots.contains(e.0) && e.1.len() == 0 {
        assert(chain_at(l, j) == seq![e.0]);
    } else {
        let i = choose|i: int|
            0 <= i < j && (#[trigger] l[i]).0 == e.1 && led_to(edges, e.1).contains(e.0);
        assert(l[i].0.len() > 0);
        assert(knows(l, e.1));
        let p = place_in(l, e.1)->0;
        if p < i {
            assert(l[p].0 != l[i].0);
        } else if i < p {
            assert(l[i].0 != l[p].0);
        }
        lemma_chain(l, i, roots, edges);
        let way = chain_at(l, i);
        let longer = way.push(e.0);
        assert forall|k: int| 0 <= k < longer.len() - 1 implies reach::leads(
            edges,
            Set::empty(),
            #[trigger] longer[k],
            longer[k + 1],
        ) by {
            if k < way.len() - 1 {
                assert(reach::leads(edges, Set::empty(), way[k], way[k + 1]));
            } else {
                assert(longer[k] == way.last());
            }
        }
        assert(longer[0] == way[0]);
    }
}

/// No name of the whole trail is empty.
proof fn lemma_names_given(roots: Seq<Seq<char>>, edges: reach::EdgeMap)
    requires
        forall|i: int| 0 <= i < roots.len() ==> (#[trigger] roots[i]).len() > 0,
        forall|i: int|
            0 <= i < reach::targets(edges).len() ==> (#[trigger] reach::targets(edges)[i]).len()
                > 0,
    ensures
        forall|i: int|
            0 <= i < whole_trail(roots, edges).len() ==> (#[trigger] whole_trail(
                roots,
                edges,
            )[i]).0.len() > 0,
{
    let l = whole_trail(roots, edges);
    lemma_whole(roots, edges);
    assert forall|i: int| 0 <= i < l.len() implies (#[trigger] l[i]).0.len() > 0 by {
        assert(comes_from(l, roots, edges, l[i], i));
        let x = l[i].0;
        if roots.contains(x) {
            let k = choose|k: int| 0 <= k < roots.len() && roots[k] == x;
            assert(roots[k].len() > 0);
        } else {
            reach::lemma_targets(edges, l[i].1, x);
            let t = reach::targets(edges);
            let k = choose|k: int| 0 <= k < t.len() && t[k] == x;
            assert(t[k].len() > 0);
        }
    }
}

/// The chain to a package begins with a requirement of the project, each package
/// in it requires the next, and it ends with the package. No name may be empty.
pub proof fn law_chain_is_a_way(
    roots: Seq<Seq<char>>,
    edges: reach::EdgeMap,
    target: Seq<char>,
)
    requires
        chain_to(roots, edges, target) is Some,
        forall|i: int| 0 <= i < roots.len() ==> (#[trigger] roots[i]).len() > 0,
        forall|i: int|
            0 <= i < reach::targets(edges).len() ==> (#[trigger] reach::targets(edges)[i]).len()
                > 0,
    ensures
        reach::is_way(edges, Set::empty(), roots, chain_to(roots, edges, target)->0),
        chain_to(roots, edges, target)->0.last() == target,
{
    let l = whole_trail(roots, edges);
    lemma_whole(roots, edges);
    lemma_place(l, target);
    lemma_names_given(roots, edges);
    lemma_chain(l, place_in(l, target)->0, roots, edges);
}

proof fn lemma_way_is_known(
    roots: Seq<Seq<char>>,
    edges: reach::EdgeMap,
    way: Seq<Seq<char>>,
    k: int,
)
    requires
        reach::is_way(edges, Set::empty(), roots, way),
        0 <= k < way.len(),
    ensures
        knows(whole_trail(roots, edges), way[k]),
    decreases k,
{
    let l = whole_trail(roots, edges);
    lemma_whole(roots, edges);
    if k == 0 {
        let i = choose|i: int| 0 <= i < roots.len() && roots[i] == way[0];
        assert(knows(l, roots[i]));
    } else {
        lemma_way_is_known(roots, edges, way, k - 1);
        assert(reach::leads(edges, Set::empty(), way[k - 1], way[k - 1 + 1]));
        let i = choose|i: int| 0 <= i < l.len() && (#[trigger] l[i]).0 == way[k - 1];
        assert(led_to(edges, l[i].0).contains(way[k]));
    }
}

/// There is a chain to every package that the requirements of the project lead
/// to, and to no other one.
pub proof fn law_chain_if_reached(
    roots: Seq<Seq<char>>,
    edges: reach::EdgeMap,
    target: Seq<char>,
)
    ensures
        chain_to(roots, edges, target) is Some <==> reach::reachable(
            edges,
            Set::empty(),
            roots,
            target,
        ),
{
    let l = whole_trail(roots, edges);
    lemma_whole(roots, edges);
    lemma_place(l, target);
    if reach::reachable(edges, Set::empty(), roots, target) {
        let way = choose|way: Seq<Seq<char>>| #[trigger]
            reach::is_way(edges, Set::empty(), roots, way) && way.last() == target;
        lemma_way_is_known(roots, edges, way, way.len() - 1);
    }
    if chain_to(roots, edges, target) is Some {
        lemma_known_is_reached(roots, edges, place_in(l, target)->0);
    }
}

proof fn lemma_known_is_reached(roots: Seq<Seq<char>>, edges: reach::EdgeMap, j: int)
    requires
        0 <= j < whole_trail(roots, edges).len(),
    ensures
        reach::reachable(edges, Set::empty(), roots, whole_trail(roots, edges)[j].0),
    decreases j,
{
    let l = whole_trail(roots, edges);
    lemma_whole(roots, edges);
    let e = l[j];
    assert(comes_from(l, roots, edges, l[j], j));
    if roots.contains(e.0) && e.1.len() == 0 {
        reach::law_seeds_are_reached(edges, Set::empty(), roots, e.0);
    } else {
        let i = choose|i: int|
            0 <= i < j && (#[trigger] l[i]).0 == e.1 && led_to(edges, e.1).contains(e.0);
        lemma_known_is_reached(roots, edges, i);
        reach::law_reach_goes_on(edges, Set::empty(), roots, e.1, e.0);
    }
}

// ---------------------------------------------------------------------------
// The length of a chain

/// For each name of a trail the place of the one that led to it, -1 for a root.
spec fn origins(roots: Seq<Seq<char>>, edges: reach::EdgeMap, k: nat) -> Seq<int>
    decreases k,
{
    if k == 0 {
        Seq::new(followed(roots, edges, 0).len(), |j: int| -1)
    } else {
        let before = followed(roots, edges, (k - 1) as nat);
        let now = followed(roots, edges, k);
        origins(roots, edges, (k - 1) as nat) + Seq::new(
            (now.len() - before.len()) as nat,
            |j: int| k - 1,
        )
    }
}

/// A name stands in a trail, and what led to it stands no later than at `i`.
spec fn known_by(l: Trail, o: Seq<int>, x: Seq<char>, i: int) -> bool {
    exists|j: int| 0 <= j < l.len() && (#[trigger] l[j]).0 == x && o[j] <= i
}

/// The origins of a trail point back to the names that led on, and never go down.
spec fn is_traced(l: Trail, o: Seq<int>) -> bool {
    &&& o.len() == l.len()
    &&& forall|j: int| 0 <= j < l.len() ==> -1 <= (#[trigger] o[j]) < j
    &&& forall|j: int|
        0 <= j < l.len() ==> if (#[trigger] o[j]) < 0 {
            l[j].1.len() == 0
        } else {
            l[j].1 == l[o[j]].0
        }
    &&& forall|i: int, j: int| 0 <= i < j < l.len() ==> #[trigger] o[i] <= #[trigger] o[j]
}

proof fn lemma_added(l: Trail, names: Seq<Seq<char>>, from: Seq<char>)
    ensures
        goes_on(l, with_entries(l, names, from)),
        forall|j: int|
            l.len() <= j < with_entries(l, names, from).len() ==> (#[trigger] with_entries(
                l,
                names,
                from,
            )[j]).1 == from,
    decreases names.len(),
{
    if names.len() > 0 {
        lemma_added(l, names.drop_last(), from);
        let m = with_entries(l, names.drop_last(), from);
        let r = with_entries(l, names, from);
        assert forall|i: int| 0 <= i < l.len() implies #[trigger] r[i] == l[i] by {
            assert(m[i] == l[i]);
        }
        assert forall|j: int| l.len() <= j < r.len() implies (#[trigger] r[j]).1 == from by {
            if j < m.len() {
                assert(m[j].1 == from);
                assert(r[j] == m[j]);
            }
        }
    }
}

proof fn lemma_traced(roots: Seq<Seq<char>>, edges: reach::EdgeMap, k: nat)
    ensures
        is_traced(followed(roots, edges, k), origins(roots, edges, k)),
        forall|j: int|
            0 <= j < origins(roots, edges, k).len() ==> (#[trigger] origins(roots, edges, k)[j])
                < k,
        forall|i: int|
            0 <= i < roots.len() ==> known_by(
                followed(roots, edges, k),
                origins(roots, edges, k),
                #[trigger] roots[i],
                -1,
            ),
        forall|i: int, d: Seq<char>|
            0 <= i < k && i < followed(roots, edges, k).len() && #[trigger] led_to(
                edges,
                followed(roots, edges, k)[i].0,
            ).contains(d) ==> known_by(
                followed(roots, edges, k),
                origins(roots, edges, k),
                d,
                i,
            ),
    decreases k,
{
    let now = followed(roots, edges, k);
    let o = origins(roots, edges, k);
    lemma_followed(roots, edges, k);
    if k == 0 {
        lemma_added(Seq::empty(), roots, Seq::empty());
        assert forall|i: int| 0 <= i < roots.len() implies known_by(
            now,
            o,
            #[trigger] roots[i],
            -1,
        ) by {
            let j = choose|j: int| 0 <= j < now.len() && (#[trigger] now[j]).0 == roots[i];
            assert(now[j].0 == roots[i] && o[j] <= -1);
        }
    } else {
        let before = followed(roots, edges, (k - 1) as nat);
        let p = origins(roots, edges, (k - 1) as nat);
        lemma_traced(roots, edges, (k - 1) as nat);
        assert(goes_on(before, now));
        if k - 1 < before.len() {
            lemma_added(before, led_to(edges, before[k - 1].0), before[k - 1].0);
        }
        assert forall|j: int| 0 <= j < before.len() implies o[j] == p[j] && now[j] == before[j] by {}
        assert forall|j: int| before.len() <= j < now.len() implies #[trigger] o[j] == k - 1
            && now[j].1 == now[k - 1].0 && k - 1 < j by {
            assert(now[j].1 == before[k - 1].0);
        }
        assert forall|j: int| 0 <= j < now.len() implies if (#[trigger] o[j]) < 0 {
            now[j].1.len() == 0
        } else {
            now[j].1 == now[o[j]].0
        } by {
            if j < before.len() {
                assert(o[j] == p[j]);
                assert(-1 <= p[j] < j);
                assert(now[j] == before[j]);
                if p[j] >= 0 {
                    assert(now[p[j]] == before[p[j]]);
                }
            }
        }
        assert(is_traced(now, o));
        assert forall|x: Seq<char>, i: int| #[trigger]
            known_by(before, p, x, i) implies known_by(now, o, x, i) by {
            let j = choose|j: int|
                0 <= j < before.len() && (#[trigger] before[j]).0 == x && p[j] <= i;
            assert(now[j].0 == x && o[j] <= i);
        }
        assert forall|i: int| 0 <= i < roots.len() implies known_by(
            now,
            o,
            #[trigger] roots[i],
            -1,
        ) by {
            assert(known_by(before, p, roots[i], -1));
        }
        assert forall|i: int, d: Seq<char>|
            0 <= i < k && i < now.len() && #[trigger] led_to(edges, now[i].0).contains(
                d,
            ) implies known_by(now, o, d, i) by {
            if i < k - 1 {
                if i < before.len() {
                    assert(led_to(edges, before[i].0).contains(d));
                    assert(known_by(before, p, d, i));
                }
            } else {
                assert(knows(now, d));
                let j = choose|j: int| 0 <= j < now.len() && (#[trigger] now[j]).0 == d;
                assert(now[j].0 == d && o[j] <= i);
            }
        }
    }
}

proof fn lemma_unique_place(l: Trail, j: int)
    requires
        0 <= j < l.len(),
        forall|i: int, k: int| 0 <= i < k < l.len() ==> (#[trigger] l[i]).0 != (#[trigger] l[k]).0,
    ensures
        place_in(l, l[j].0) == Some(j),
{
    lemma_place(l, l[j].0);
    match place_in(l, l[j].0) {
        Some(i) => {
            if i < j {
                assert(l[i].0 != l[j].0);
            } else if j < i {
                assert(l[j].0 != l[i].0);
            }
        },
        None => {
            assert(knows(l, l[j].0));
        },
    }
}

/// A chain is one longer than that of the name before its last one.
proof fn lemma_chain_length(l: Trail, o: Seq<int>, j: int)
    requires
        is_traced(l, o),
        0 <= j < l.len(),
        forall|i: int, k: int| 0 <= i < k < l.len() ==> (#[trigger] l[i]).0 != (#[trigger] l[k]).0,
        forall|i: int| 0 <= i < l.len() ==> (#[trigger] l[i]).0.len() > 0,
    ensures
        o[j] < 0 ==> chain_at(l, j).len() == 1,
        o[j] >= 0 ==> chain_at(l, j).len() == chain_at(l, o[j]).len() + 1,
        chain_at(l, j).len() >= 1,
{
    if o[j] >= 0 {
        assert(l[o[j]].0.len() > 0);
        lemma_unique_place(l, o[j]);
    }
}

/// Chains do not get shorter along a trail.
proof fn lemma_chains_grow(l: Trail, o: Seq<int>, i: int, j: int)
    requires
        is_traced(l, o),
        0 <= i <= j < l.len(),
        forall|i: int, k: int| 0 <= i < k < l.len() ==> (#[trigger] l[i]).0 != (#[trigger] l[k]).0,
        forall|i: int| 0 <= i < l.len() ==> (#[trigger] l[i]).0.len() > 0,
    ensures
        chain_at(l, i).len() <= chain_at(l, j).len(),
    decreases j,
{
    lemma_chain_length(l, o, i);
    lemma_chain_length(l, o, j);
    if i < j {
        assert(o[i] <= o[j]);
        if o[i] >= 0 {
            lemma_chains_grow(l, o, o[i], o[j]);
        }
    }
}

proof fn lemma_way_is_not_shorter(
    roots: Seq<Seq<char>>,
    edges: reach::EdgeMap,
    way: Seq<Seq<char>>,
    k: int,
) -> (p: int)
    requires
        reach::is_way(edges, Set::empty(), roots, way),
        0 <= k < way.len(),
        forall|i: int|
            0 <= i < whole_trail(roots, edges).len() ==> (#[trigger] whole_trail(
                roots,
                edges,
            )[i]).0.len() > 0,
    ensures
        0 <= p < whole_trail(roots, edges).len(),
        whole_trail(roots, edges)[p].0 == way[k],
        chain_at(whole_trail(roots, edges), p).len() <= k + 1,
    decreases k,
{
    let n = roots.len() + reach::targets(edges).len();
    let l = whole_trail(roots, edges);
    let o = origins(roots, edges, n);
    lemma_whole(roots, edges);
    lemma_trail_fits(l, roots, edges);
    lemma_traced(roots, edges, n);
    if k == 0 {
        let i = choose|i: int| 0 <= i < roots.len() && roots[i] == way[0];
        assert(known_by(l, o, roots[i], -1));
        let p = choose|j: int| 0 <= j < l.len() && (#[trigger] l[j]).0 == roots[i] && o[j] <= -1;
        lemma_chain_length(l, o, p);
        p
    } else {
        let q = lemma_way_is_not_shorter(roots, edges, way, k - 1);
        assert(reach::leads(edges, Set::empty(), way[k - 1], way[k - 1 + 1]));
        assert(led_to(edges, l[q].0).contains(way[k]));
        assert(known_by(l, o, way[k], q));
        let p = choose|j: int| 0 <= j < l.len() && (#[trigger] l[j]).0 == way[k] && o[j] <= q;
        lemma_chain_length(l, o, p);
        if o[p] >= 0 {
            lemma_chains_grow(l, o, o[p], q);
        }
        p
    }
}

/// No way from the requirements of the project to a package is shorter than the
/// chain to it. No name may be empty.
pub proof fn law_chain_is_shortest(
    roots: Seq<Seq<char>>,
    edges: reach::EdgeMap,
    way: Seq<Seq<char>>,
)
    requires
        reach::is_way(edges, Set::empty(), roots, way),
        forall|i: int| 0 <= i < roots.len() ==> (#[trigger] roots[i]).len() > 0,
        forall|i: int|
            0 <= i < reach::targets(edges).len() ==> (#[trigger] reach::targets(edges)[i]).len()
                > 0,
    ensures
        chain_to(roots, edges, way.last()) is Some,
        chain_to(roots, edges, way.last())->0.len() <= way.len(),
{
    let l = whole_trail(roots, edges);
    lemma_whole(roots, edges);
    lemma_names_given(roots, edges);
    let p = lemma_way_is_not_shorter(roots, edges, way, way.len() - 1);
    lemma_unique_place(l, p);
}

// ---------------------------------------------------------------------------
// Finding the chain

/// The entries of a list.
pub open spec fn trail_of(v: Seq<(String, String)>) -> Trail {
    v.map_values(|e: (String, String)| (e.0@, e.1@))
}

fn find_place(l: &Vec<(String, String)>, x: &str) -> (r: Option<usize>)
    ensures
        match r {
            Some(i) => place_in(trail_of(l@), x@) == Some(i as int) && i < l@.len(),
            None => place_in(trail_of(l@), x@) is None,
        },
{
    let ghost all = trail_of(l@);
    let n: usize = l.len();
    let mut i: usize = 0;
    let mut r: Option<usize> = None;
    while i < n
        invariant
            i <= n,
            n == l@.len(),
            all == trail_of(l@),
            match r {
                Some(k) => place_in(all.take(i as int), x@) == Some(k as int) && k < i,
                None => place_in(all.take(i as int), x@) is None,
            },
        decreases n - i,
    {
        proof {
            assert(all.take(i + 1).drop_last() =~= all.take(i as int));
            assert(all.take(i + 1).last() == (l@[i as int].0@, l@[i as int].1@));
        }
        if r.is_none() && text::same(l[i].0.as_str(), x) {
            r = Some(i);
        }
        i += 1;
    }
    assert(all.take(n as int) =~= all);
    r
}

fn add_entry(l: &mut Vec<(String, String)>, x: &str, from: &str)
    ensures
        trail_of(final(l)@) == with_entry(trail_of(old(l)@), x@, from@),
{
    let ghost before = trail_of(l@);
    proof {
        lemma_place(before, x@);
    }
    if find_place(l, x).is_none() {
        l.push((String::from_str(x), String::from_str(from)));
        assert(trail_of(l@) =~= before.push((x@, from@)));
    } else {
        assert(knows(before, x@));
    }
}

fn chain_from(l: &Vec<(String, String)>, j: usize) -> (r: Vec<String>)
    requires
        j < l@.len(),
    ensures
        text::texts(r@) == chain_at(trail_of(l@), j as int),
    decreases j,
{
    let ghost all = trail_of(l@);
    assert(all[j as int] == (l@[j as int].0@, l@[j as int].1@));
    let mut chain: Vec<String> = Vec::new();
    assert(text::texts(chain@) =~= Seq::empty());
    if l[j].1.as_str().unicode_len() > 0 {
        if let Some(i) = find_place(l, l[j].1.as_str()) {
            if i < j {
                chain = chain_from(l, i);
            }
        }
    }
    let ghost before = text::texts(chain@);
    chain.push(String::from_str(l[j].0.as_str()));
    assert(text::texts(chain@) =~= before.push(all[j as int].0));
    assert(Seq::<Seq<char>>::empty().push(all[j as int].0) =~= seq![all[j as int].0]);
    chain
}

/// The chain of requirements from one of the roots to a package.
pub fn why_chain(roots: &[String], graph: &StrMap<Vec<String>>, target: &str) -> (r: Option<
    Vec<String>,
>)
    ensures
        match r {
            Some(c) => chain_to(text::texts(roots@), reach::edge_map(*graph), target@) == Some(
                text::texts(c@),
            ),
            None => chain_to(text::texts(roots@), reach::edge_map(*graph), target@) is None,
        },
{
    let ghost names = text::texts(roots@);
    let ghost edges = reach::edge_map(*graph);
    let mut l: Vec<(String, String)> = Vec::new();
    let n: usize = roots.len();
    let mut i: usize = 0;
    assert(trail_of(l@) =~= Seq::empty());
    proof {
        reveal_strlit("");
        assert(""@ =~= Seq::empty());
    }
    while i < n
        invariant
            i <= n,
            n == roots@.len(),
            names == text::texts(roots@),
            ""@ == Seq::<char>::empty(),
            trail_of(l@) == with_entries(Seq::empty(), names.take(i as int), Seq::empty()),
        decreases n - i,
    {
        proof {
            assert(names.take(i + 1).drop_last() =~= names.take(i as int));
            assert(names.take(i + 1).last() == roots@[i as int]@);
        }
        add_entry(&mut l, roots[i].as_str(), "");
        i += 1;
    }
    assert(names.take(n as int) =~= names);
    let ghost bound = names.len() + reach::targets(edges).len();
    let mut k: usize = 0;
    proof {
        lemma_followed(names, edges, 0);
        lemma_trail_fits(trail_of(l@), names, edges);
    }
    while k < l.len()
        invariant
            k <= l@.len(),
            l@.len() <= bound,
            names == text::texts(roots@),
            edges == reach::edge_map(*graph),
            bound == names.len() + reach::targets(edges).len(),
            trail_of(l@) == followed(names, edges, k as nat),
        decreases bound - k,
    {
        let ghost before = trail_of(l@);
        let cur = String::from_str(l[k].0.as_str());
        assert(before[k as int].0 == cur@);
        proof {
            collections::lemma_with_values(
                graph@,
                cur@,
                arbitrary(),
                |v: Vec<String>| text::texts(v@),
            );
        }
        if let Some(next) = graph.get(cur.as_str()) {
            let ghost v = text::texts(next@);
            assert(led_to(edges, cur@) == v);
            let m: usize = next.len();
            let mut j: usize = 0;
            assert(v.take(0) =~= Seq::empty());
            while j < m
                invariant
                    j <= m,
                    m == next@.len(),
                    v == text::texts(next@),
                    trail_of(l@) == with_entries(before, v.take(j as int), cur@),
                decreases m - j,
            {
                proof {
                    assert(v.take(j + 1).drop_last() =~= v.take(j as int));
                    assert(v.take(j + 1).last() == next@[j as int]@);
                }
                add_entry(&mut l, next[j].as_str(), cur.as_str());
                j += 1;
            }
            assert(v.take(m as int) =~= v);
        } else {
            assert(led_to(edges, cur@) =~= Seq::empty());
        }
        k += 1;
        proof {
            assert(trail_of(l@) == followed(names, edges, k as nat));
            lemma_followed(names, edges, k as nat);
            lemma_trail_fits(trail_of(l@), names, edges);
            assert(goes_on(before, trail_of(l@)));
        }
    }
    proof {
        lemma_nothing_left(names, edges, k as nat, bound);
    }
    match find_place(&l, target) {
        Some(j) => Some(chain_from(&l, j)),
        None => None,
    }
}

} // verus!
