//! Packages in the order in which their files are loaded.
//!
//! A package weighs the less, the more packages build on it, and light packages
//! come first.

use crate::collections;
use crate::collections::StrMap;
use crate::collections::StrSet;
use crate::lock;
use crate::lock::LockedPackage;
use crate::text;
use vstd::prelude::*;

verus! {

// ---------------------------------------------------------------------------
// Weights

/// The packages of a list that require a package.
pub open spec fn users_of(pkgs: Seq<lock::LockedView>, name: Seq<char>) -> Seq<Seq<char>>
    decreases pkgs.len(),
{
    if pkgs.len() == 0 {
        Seq::empty()
    } else {
        let rest = users_of(pkgs.drop_last(), name);
        if collections::lookup(pkgs.last().require, name) is Some {
            rest.push(pkgs.last().name)
        } else {
            rest
        }
    }
}

/// A weight after a package was counted that builds on the weighed one and
/// itself weighs `user`.
pub open spec fn lowered(weight: i128, user: i128) -> i128 {
    let x = weight - (1 - user);
    if x < i128::MIN {
        i128::MIN
    } else if x > i128::MAX {
        i128::MAX
    } else {
        x as i128
    }
}

/// The weight of a package, given the weights found so far, with these weights
/// after it. A package on the way to itself counts as if nothing built on it.
pub open spec fn weighed(
    pkgs: Seq<lock::LockedView>,
    name: Seq<char>,
    way: Set<Seq<char>>,
    known: Seq<(Seq<char>, i128)>,
    depth: nat,
) -> (i128, Seq<(Seq<char>, i128)>)
    decreases depth, 0nat,
{
    match collections::lookup(known, name) {
        Some(w) => (w, known),
        None => if way.contains(name) || depth == 0 {
            (0i128, known)
        } else {
            let (w, k) = weighed_users(
                pkgs,
                users_of(pkgs, name),
                way.insert(name),
                known,
                (depth - 1) as nat,
            );
            (w, collections::inserted(k, name, w))
        },
    }
}

/// The weight that the packages of a list give to one that they build on.
pub open spec fn weighed_users(
    pkgs: Seq<lock::LockedView>,
    users: Seq<Seq<char>>,
    way: Set<Seq<char>>,
    known: Seq<(Seq<char>, i128)>,
    depth: nat,
) -> (i128, Seq<(Seq<char>, i128)>)
    decreases depth, users.len() + 1,
{
    if users.len() == 0 {
        (0i128, known)
    } else {
        let (w, k) = weighed_users(pkgs, users.drop_last(), way, known, depth);
        let (u, l) = weighed(pkgs, users.last(), way, k, depth);
        (lowered(w, u), l)
    }
}

/// The weights of the packages of a list, with all weights found.
pub open spec fn weights(
    pkgs: Seq<lock::LockedView>,
    list: Seq<lock::LockedView>,
) -> (Seq<i128>, Seq<(Seq<char>, i128)>)
    decreases list.len(),
{
    if list.len() == 0 {
        (Seq::empty(), Seq::empty())
    } else {
        let (rest, known) = weights(pkgs, list.drop_last());
        let (w, k) = weighed(
            pkgs,
            list.last().name,
            Set::empty(),
            known,
            pkgs.len(),
        );
        (rest.push(w), k)
    }
}

fn lower(weight: i128, user: i128) -> (r: i128)
    ensures
        r == lowered(weight, user),
{
    if user >= 1 {
        let d: i128 = user - 1;
        if weight > i128::MAX - d {
            i128::MAX
        } else {
            weight + d
        }
    } else if user == i128::MIN {
        if weight <= 0 {
            i128::MIN
        } else {
            (weight + i128::MIN) - 1
        }
    } else {
        let d: i128 = user - 1;
        if weight < i128::MIN - d {
            i128::MIN
        } else {
            weight + d
        }
    }
}

fn find_users(pkgs: &Vec<&LockedPackage>, name: &str) -> (r: Vec<String>)
    ensures
        text::texts(r@) == users_of(lock::ref_views(pkgs@), name@),
{
    let ghost all = lock::ref_views(pkgs@);
    let mut out: Vec<String> = Vec::new();
    let n: usize = pkgs.len();
    let mut i: usize = 0;
    assert(text::texts(out@) =~= Seq::empty());
    while i < n
        invariant
            i <= n,
            n == pkgs@.len(),
            all == lock::ref_views(pkgs@),
            text::texts(out@) == users_of(all.take(i as int), name@),
        decreases n - i,
    {
        let p = pkgs[i];
        proof {
            assert(all.take(i + 1).drop_last() =~= all.take(i as int));
            assert(all.take(i + 1).last() == p@);
            collections::lemma_link_lookup(p.require, name@);
        }
        if p.require.contains_key(name) {
            let ghost before = text::texts(out@);
            let copy = p.name.clone();
            out.push(copy);
            assert(text::texts(out@) =~= before.push(copy@));
        }
        i += 1;
    }
    assert(all.take(n as int) =~= all);
    out
}

fn weigh(
    pkgs: &Vec<&LockedPackage>,
    name: &str,
    way: &mut StrSet,
    known: &mut StrMap<i128>,
    depth: usize,
) -> (r: i128)
    ensures
        (r, final(known)@) == weighed(
            lock::ref_views(pkgs@),
            name@,
            old(way)@,
            old(known)@,
            depth as nat,
        ),
        final(way)@ == old(way)@,
    decreases depth,
{
    if let Some(w) = known.get(name) {
        return *w;
    }
    if way.contains(name) || depth == 0 {
        return 0;
    }
    let ghost all = lock::ref_views(pkgs@);
    let ghost start = known@;
    let ghost outer = way@;
    way.insert(String::from_str(name));
    let ghost inner = way@;
    let users = find_users(pkgs, name);
    let ghost names = text::texts(users@);
    let mut weight: i128 = 0;
    let n: usize = users.len();
    let mut i: usize = 0;
    while i < n
        invariant
            i <= n,
            n == users@.len(),
            depth > 0,
            all == lock::ref_views(pkgs@),
            names == text::texts(users@),
            way@ == inner,
            (weight, known@) == weighed_users(
                all,
                names.take(i as int),
                inner,
                start,
                (depth - 1) as nat,
            ),
        decreases n - i,
    {
        proof {
            assert(names.take(i + 1).drop_last() =~= names.take(i as int));
            assert(names.take(i + 1).last() == users@[i as int]@);
        }
        let user: i128 = weigh(pkgs, users[i].as_str(), way, known, depth - 1);
        weight = lower(weight, user);
        i += 1;
    }
    assert(names.take(n as int) =~= names);
    way.remove(name);
    assert(way@ =~= outer);
    known.insert(String::from_str(name), weight);
    weight
}

// ---------------------------------------------------------------------------
// Sorting

/// A package with its weight.
pub type Weighted = (i128, lock::LockedView);

/// A package comes before another one: it weighs less, or as much and has the
/// lower name.
pub open spec fn comes_before(a: Weighted, b: Weighted) -> bool {
    a.0 < b.0 || (a.0 == b.0 && text::text_lt(a.1.name, b.1.name))
}

/// A package after those of a list that it does not come before.
pub open spec fn placed_by_weight(s: Seq<Weighted>, e: Weighted) -> Seq<Weighted>
    decreases s.len(),
{
    if s.len() == 0 {
        seq![e]
    } else if comes_before(e, s.last()) {
        placed_by_weight(s.drop_last(), e).push(s.last())
    } else {
        s.push(e)
    }
}

/// Packages in the order of their weights.
pub open spec fn sorted_by_weight(v: Seq<Weighted>) -> Seq<Weighted>
    decreases v.len(),
{
    if v.len() == 0 {
        v
    } else {
        placed_by_weight(sorted_by_weight(v.drop_last()), v.last())
    }
}

/// The packages of a list with their weights.
pub open spec fn with_weights(pkgs: Seq<lock::LockedView>) -> Seq<Weighted> {
    Seq::new(pkgs.len(), |i: int| (weights(pkgs, pkgs).0[i], pkgs[i]))
}

/// The packages of a list in the order in which their files are loaded.
pub open spec fn load_order(pkgs: Seq<lock::LockedView>) -> Seq<Weighted> {
    sorted_by_weight(with_weights(pkgs))
}

proof fn lemma_weights_len(pkgs: Seq<lock::LockedView>, list: Seq<lock::LockedView>)
    ensures
        weights(pkgs, list).0.len() == list.len(),
    decreases list.len(),
{
    if list.len() > 0 {
        lemma_weights_len(pkgs, list.drop_last());
    }
}

proof fn lemma_weights_prefix(pkgs: Seq<lock::LockedView>, list: Seq<lock::LockedView>, i: int)
    requires
        0 <= i < list.len(),
    ensures
        weights(pkgs, list).0[i] == weights(pkgs, list.take(i + 1)).0[i],
    decreases list.len(),
{
    lemma_weights_len(pkgs, list.drop_last());
    if i < list.len() - 1 {
        lemma_weights_prefix(pkgs, list.drop_last(), i);
        assert(list.drop_last().take(i + 1) =~= list.take(i + 1));
    } else {
        assert(list.take(i + 1) =~= list);
    }
}

proof fn lemma_placed_by_weight(s: Seq<Weighted>, e: Weighted, i: int)
    requires
        0 <= i <= s.len(),
        forall|j: int| i <= j < s.len() ==> comes_before(e, #[trigger] s[j]),
        i > 0 ==> !comes_before(e, s[i - 1]),
    ensures
        placed_by_weight(s, e) == s.insert(i, e),
    decreases s.len(),
{
    if s.len() == 0 {
        assert(placed_by_weight(s, e) =~= s.insert(i, e));
    } else if i == s.len() {
        assert(s.last() == s[i - 1]);
        assert(placed_by_weight(s, e) =~= s.insert(i, e));
    } else {
        assert(s.last() == s[s.len() - 1]);
        assert forall|j: int| i <= j < s.drop_last().len() implies comes_before(
            e,
            #[trigger] s.drop_last()[j],
        ) by {
            assert(s[j] == s.drop_last()[j]);
        }
        lemma_placed_by_weight(s.drop_last(), e, i);
        assert(placed_by_weight(s, e) =~= s.insert(i, e));
    }
}

spec fn weighted_views(w: Seq<i128>, p: Seq<&LockedPackage>) -> Seq<Weighted> {
    Seq::new(w.len(), |i: int| (w[i], p[i]@))
}

/// The packages of a list in the order in which their files are loaded: those
/// first that others build on.
pub fn sort_packages_by_dependency_weight<'a>(packages: &Vec<&'a LockedPackage>) -> (r: Vec<
    &'a LockedPackage,
>)
    ensures
        lock::ref_views(r@) == load_order(lock::ref_views(packages@)).map_values(
            |e: Weighted| e.1,
        ),
{
    let ghost pkgs = lock::ref_views(packages@);
    let mut way = StrSet::new();
    let mut known: StrMap<i128> = StrMap::new();
    let mut sorted_weights: Vec<i128> = Vec::new();
    let mut sorted: Vec<&'a LockedPackage> = Vec::new();
    let n: usize = packages.len();
    let mut i: usize = 0;
    let ghost all = with_weights(pkgs);
    assert(weighted_views(sorted_weights@, sorted@) =~= all.take(0));
    while i < n
        invariant
            i <= n,
            n == packages@.len(),
            pkgs == lock::ref_views(packages@),
            all == with_weights(pkgs),
            way@ == Set::<Seq<char>>::empty(),
            known@ == weights(pkgs, pkgs.take(i as int)).1,
            sorted_weights@.len() == sorted@.len(),
            weighted_views(sorted_weights@, sorted@) == sorted_by_weight(all.take(i as int)),
        decreases n - i,
    {
        let p = packages[i];
        proof {
            assert(pkgs.take(i + 1).drop_last() =~= pkgs.take(i as int));
            assert(pkgs.take(i + 1).last() == p@);
            assert(all.take(i + 1).drop_last() =~= all.take(i as int));
            lemma_weights_prefix(pkgs, pkgs, i as int);
            lemma_weights_len(pkgs, pkgs.take(i as int));
        }
        let w: i128 = weigh(packages, p.name.as_str(), &mut way, &mut known, n);
        let ghost s = weighted_views(sorted_weights@, sorted@);
        let ghost e: Weighted = (w, p@);
        assert(all.take(i + 1).last() == e);
        let mut k: usize = sorted.len();
        while k > 0 && before(w, p, sorted_weights[k - 1], sorted[k - 1])
            invariant
                k <= sorted@.len(),
                sorted_weights@.len() == sorted@.len(),
                s == weighted_views(sorted_weights@, sorted@),
                e == (w, p@),
                forall|j: int| k <= j < s.len() ==> comes_before(e, #[trigger] s[j]),
            decreases k,
        {
            assert(s[k - 1] == (sorted_weights@[k - 1], sorted@[k - 1]@));
            k -= 1;
        }
        proof {
            if k > 0 {
                assert(s[k - 1] == (sorted_weights@[k - 1], sorted@[k - 1]@));
            }
            lemma_placed_by_weight(s, e, k as int);
        }
        sorted_weights.insert(k, w);
        sorted.insert(k, p);
        assert(weighted_views(sorted_weights@, sorted@) =~= s.insert(k as int, e));
        i += 1;
    }
    proof {
        assert(all.take(n as int) =~= all);
        assert(lock::ref_views(sorted@) =~= load_order(pkgs).map_values(|e: Weighted| e.1)) by {
            assert(weighted_views(sorted_weights@, sorted@) == load_order(pkgs));
        }
    }
    sorted
}

fn before(w: i128, p: &LockedPackage, v: i128, q: &LockedPackage) -> (r: bool)
    ensures
        r == comes_before((w, p@), (v, q@)),
{
    w < v || (w == v && text::below(p.name.as_str(), q.name.as_str()))
}

// ---------------------------------------------------------------------------
// The order of packages that do not build on themselves

/// A number for each name such that a package has a lower one than what it
/// requires. There is one exactly if no package builds on itself.
pub open spec fn ranks(pkgs: Seq<lock::LockedView>, r: spec_fn(Seq<char>) -> nat) -> bool {
    forall|i: int, k: Seq<char>|
        0 <= i < pkgs.len() && collections::lookup((#[trigger] pkgs[i]).require, k) is Some
            ==> r(pkgs[i].name) < #[trigger] r(k)
}

/// The weight of a package: each package that builds on it, and each that
/// builds on those, makes it lighter by one.
pub open spec fn true_weight(
    pkgs: Seq<lock::LockedView>,
    r: spec_fn(Seq<char>) -> nat,
    name: Seq<char>,
) -> int
    decreases r(name), 1nat, 0nat,
{
    true_sum(pkgs, r, users_of(pkgs, name), r(name))
}

/// The weight that the packages of a list give to one that they build on.
pub open spec fn true_sum(
    pkgs: Seq<lock::LockedView>,
    r: spec_fn(Seq<char>) -> nat,
    users: Seq<Seq<char>>,
    bound: nat,
) -> int
    decreases bound, 0nat, users.len(),
{
    if users.len() == 0 {
        0
    } else {
        let rest = true_sum(pkgs, r, users.drop_last(), bound);
        if r(users.last()) < bound {
            rest - (1 - true_weight(pkgs, r, users.last()))
        } else {
            rest
        }
    }
}

proof fn lemma_true_weight_low(
    pkgs: Seq<lock::LockedView>,
    r: spec_fn(Seq<char>) -> nat,
    name: Seq<char>,
)
    ensures
        true_weight(pkgs, r, name) <= 0,
    decreases r(name), 1nat, 0nat,
{
    lemma_true_sum_low(pkgs, r, users_of(pkgs, name), r(name));
}

proof fn lemma_true_sum_low(
    pkgs: Seq<lock::LockedView>,
    r: spec_fn(Seq<char>) -> nat,
    users: Seq<Seq<char>>,
    bound: nat,
)
    ensures
        true_sum(pkgs, r, users, bound) <= 0,
        users.len() > 0 ==> true_sum(pkgs, r, users, bound) <= true_sum(
            pkgs,
            r,
            users.drop_last(),
            bound,
        ),
    decreases bound, 0nat, users.len(),
{
    if users.len() > 0 {
        lemma_true_sum_low(pkgs, r, users.drop_last(), bound);
        if r(users.last()) < bound {
            lemma_true_weight_low(pkgs, r, users.last());
        }
    }
}

proof fn lemma_users(
    pkgs: Seq<lock::LockedView>,
    all: Seq<lock::LockedView>,
    r: spec_fn(Seq<char>) -> nat,
    name: Seq<char>,
)
    requires
        ranks(all, r),
        pkgs.len() <= all.len(),
        forall|i: int| 0 <= i < pkgs.len() ==> pkgs[i] == all[i],
    ensures
        forall|i: int|
            0 <= i < users_of(pkgs, name).len() ==> r(#[trigger] users_of(pkgs, name)[i]) < r(name),
    decreases pkgs.len(),
{
    if pkgs.len() > 0 {
        lemma_users(pkgs.drop_last(), all, r, name);
        assert(pkgs.last() == all[pkgs.len() - 1]);
        assert forall|i: int| 0 <= i < users_of(pkgs, name).len() implies r(
            #[trigger] users_of(pkgs, name)[i],
        ) < r(name) by {
            let rest = users_of(pkgs.drop_last(), name);
            if i < rest.len() {
                assert(rest[i] == users_of(pkgs, name)[i]);
            }
        }
    }
}

/// What is known of the weights is true.
spec fn known_true(
    pkgs: Seq<lock::LockedView>,
    r: spec_fn(Seq<char>) -> nat,
    known: Seq<(Seq<char>, i128)>,
) -> bool {
    forall|k: Seq<char>|
        #![trigger collections::lookup(known, k)]
        collections::lookup(known, k) matches Some(w) ==> w as int == true_weight(pkgs, r, k)
}

/// No weight is too low to be told apart from a lower one.
pub open spec fn weights_fit(pkgs: Seq<lock::LockedView>, r: spec_fn(Seq<char>) -> nat) -> bool {
    forall|k: Seq<char>| #[trigger] true_weight(pkgs, r, k) > i128::MIN
}

proof fn lemma_weighed_true(
    pkgs: Seq<lock::LockedView>,
    r: spec_fn(Seq<char>) -> nat,
    name: Seq<char>,
    way: Set<Seq<char>>,
    known: Seq<(Seq<char>, i128)>,
    depth: nat,
)
    requires
        ranks(pkgs, r),
        weights_fit(pkgs, r),
        known_true(pkgs, r, known),
        forall|x: Seq<char>| #[trigger] way.contains(x) ==> r(name) < r(x),
        r(name) < depth,
    ensures
        weighed(pkgs, name, way, known, depth).0 as int == true_weight(pkgs, r, name),
        known_true(pkgs, r, weighed(pkgs, name, way, known, depth).1),
    decreases depth, 0nat,
{
    if collections::lookup(known, name) is None {
        let users = users_of(pkgs, name);
        lemma_users(pkgs, pkgs, r, name);
        assert(true_weight(pkgs, r, name) > i128::MIN);
        lemma_weighed_users_true(
            pkgs,
            r,
            users,
            way.insert(name),
            known,
            (depth - 1) as nat,
            r(name),
        );
        let (w, k) = weighed_users(
            pkgs,
            users,
            way.insert(name),
            known,
            (depth - 1) as nat,
        );
        assert forall|q: Seq<char>|
            #![trigger collections::lookup(collections::inserted(k, name, w), q)]
            collections::lookup(collections::inserted(k, name, w), q) is Some implies collections::lookup(
            collections::inserted(k, name, w),
            q,
        )->0 as int == true_weight(pkgs, r, q) by {
            collections::law_lookup_inserted(k, name, w, q);
            assert(collections::lookup(k, q) matches Some(y) ==> y as int == true_weight(
                pkgs,
                r,
                q,
            ));
        }
    }
}

proof fn lemma_weighed_users_true(
    pkgs: Seq<lock::LockedView>,
    r: spec_fn(Seq<char>) -> nat,
    users: Seq<Seq<char>>,
    way: Set<Seq<char>>,
    known: Seq<(Seq<char>, i128)>,
    depth: nat,
    bound: nat,
)
    requires
        ranks(pkgs, r),
        weights_fit(pkgs, r),
        known_true(pkgs, r, known),
        forall|i: int| 0 <= i < users.len() ==> r(#[trigger] users[i]) < bound,
        forall|x: Seq<char>| #[trigger] way.contains(x) ==> bound <= r(x),
        bound <= depth,
        true_sum(pkgs, r, users, bound) > i128::MIN,
    ensures
        weighed_users(pkgs, users, way, known, depth).0 as int == true_sum(pkgs, r, users, bound),
        known_true(pkgs, r, weighed_users(pkgs, users, way, known, depth).1),
    decreases depth, users.len() + 1,
{
    if users.len() > 0 {
        let rest = users.drop_last();
        assert(users.last() == users[users.len() - 1]);
        lemma_true_sum_low(pkgs, r, users, bound);
        lemma_true_sum_low(pkgs, r, rest, bound);
        assert forall|i: int| 0 <= i < rest.len() implies r(#[trigger] rest[i]) < bound by {
            assert(rest[i] == users[i]);
        }
        lemma_weighed_users_true(pkgs, r, rest, way, known, depth, bound);
        let (w, k) = weighed_users(pkgs, rest, way, known, depth);
        lemma_weighed_true(pkgs, r, users.last(), way, k, depth);
        lemma_true_weight_low(pkgs, r, users.last());
    }
}

proof fn lemma_weights_true(
    pkgs: Seq<lock::LockedView>,
    r: spec_fn(Seq<char>) -> nat,
    list: Seq<lock::LockedView>,
)
    requires
        ranks(pkgs, r),
        weights_fit(pkgs, r),
        forall|i: int| 0 <= i < list.len() ==> r((#[trigger] list[i]).name) < pkgs.len(),
    ensures
        known_true(pkgs, r, weights(pkgs, list).1),
        weights(pkgs, list).0.len() == list.len(),
        forall|i: int|
            0 <= i < list.len() ==> (#[trigger] weights(pkgs, list).0[i]) as int == true_weight(
                pkgs,
                r,
                list[i].name,
            ),
    decreases list.len(),
{
    if list.len() > 0 {
        let rest = list.drop_last();
        assert forall|i: int| 0 <= i < rest.len() implies r((#[trigger] rest[i]).name)
            < pkgs.len() by {
            assert(rest[i] == list[i]);
        }
        lemma_weights_true(pkgs, r, rest);
        let known = weights(pkgs, rest).1;
        assert(list.last() == list[list.len() - 1]);
        lemma_weighed_true(
            pkgs,
            r,
            list.last().name,
            Set::empty(),
            known,
            pkgs.len(),
        );
        assert forall|i: int| 0 <= i < list.len() implies (#[trigger] weights(
            pkgs,
            list,
        ).0[i]) as int == true_weight(pkgs, r, list[i].name) by {
            if i < rest.len() {
                assert(weights(pkgs, rest).0[i] as int == true_weight(pkgs, r, rest[i].name));
            }
        }
    }
}

proof fn lemma_user_listed(pkgs: Seq<lock::LockedView>, name: Seq<char>, i: int)
    requires
        0 <= i < pkgs.len(),
        collections::lookup(pkgs[i].require, name) is Some,
    ensures
        users_of(pkgs, name).contains(pkgs[i].name),
    decreases pkgs.len(),
{
    let all = users_of(pkgs, name);
    let rest = users_of(pkgs.drop_last(), name);
    if i < pkgs.len() - 1 {
        assert(pkgs.drop_last()[i] == pkgs[i]);
        lemma_user_listed(pkgs.drop_last(), name, i);
        let k = choose|k: int| 0 <= k < rest.len() && rest[k] == pkgs[i].name;
        assert(all[k] == pkgs[i].name);
    } else {
        assert(all[rest.len() as int] == pkgs[i].name);
    }
}

proof fn lemma_sum_below_part(
    pkgs: Seq<lock::LockedView>,
    r: spec_fn(Seq<char>) -> nat,
    users: Seq<Seq<char>>,
    bound: nat,
    k: int,
)
    requires
        0 <= k < users.len(),
        r(users[k]) < bound,
    ensures
        true_sum(pkgs, r, users, bound) < true_weight(pkgs, r, users[k]),
    decreases users.len(),
{
    let rest = users.drop_last();
    lemma_true_sum_low(pkgs, r, users, bound);
    lemma_true_sum_low(pkgs, r, rest, bound);
    if k < rest.len() {
        assert(rest[k] == users[k]);
        lemma_sum_below_part(pkgs, r, rest, bound, k);
    }
}

proof fn lemma_placed_sorted(s: Seq<Weighted>, e: Weighted)
    requires
        forall|i: int, j: int|
            0 <= i < j < s.len() ==> !comes_before(#[trigger] s[j], #[trigger] s[i]),
    ensures
        forall|i: int, j: int|
            0 <= i < j < placed_by_weight(s, e).len() ==> !comes_before(
                #[trigger] placed_by_weight(s, e)[j],
                #[trigger] placed_by_weight(s, e)[i],
            ),
        forall|i: int|
            0 <= i < placed_by_weight(s, e).len() ==> #[trigger] placed_by_weight(s, e)[i] == e
                || s.contains(placed_by_weight(s, e)[i]),
    decreases s.len(),
{
    let p = placed_by_weight(s, e);
    if s.len() == 0 {
    } else if comes_before(e, s.last()) {
        let rest = s.drop_last();
        assert forall|i: int, j: int| 0 <= i < j < rest.len() implies !comes_before(
            #[trigger] rest[j],
            #[trigger] rest[i],
        ) by {
            assert(!comes_before(s[j], s[i]));
        }
        lemma_placed_sorted(rest, e);
        let q = placed_by_weight(rest, e);
        assert(p == q.push(s.last()));
        assert forall|i: int| 0 <= i < p.len() implies #[trigger] p[i] == e || s.contains(p[i]) by {
            if i < q.len() {
                assert(p[i] == q[i]);
                if q[i] != e {
                    let m = choose|m: int| 0 <= m < rest.len() && rest[m] == q[i];
                    assert(s[m] == q[i]);
                }
            } else {
                assert(s[s.len() - 1] == p[i]);
            }
        }
        assert forall|i: int, j: int| 0 <= i < j < p.len() implies !comes_before(
            #[trigger] p[j],
            #[trigger] p[i],
        ) by {
            if j < q.len() {
                assert(p[j] == q[j] && p[i] == q[i]);
            } else {
                assert(p[i] == q[i]);
                if q[i] == e {
                    lemma_before_asymmetric(e, s.last());
                } else {
                    let m = choose|m: int| 0 <= m < rest.len() && rest[m] == q[i];
                    assert(s[m] == q[i]);
                    assert(!comes_before(s[s.len() - 1], s[m]));
                }
            }
        }
    } else {
        assert forall|i: int| 0 <= i < p.len() implies #[trigger] p[i] == e || s.contains(p[i]) by {
            if i < s.len() {
                assert(s[i] == p[i]);
            }
        }
        assert forall|i: int, j: int| 0 <= i < j < p.len() implies !comes_before(
            #[trigger] p[j],
            #[trigger] p[i],
        ) by {
            if j < s.len() {
                assert(!comes_before(s[j], s[i]));
            } else if i < s.len() - 1 {
                let last = s[s.len() - 1];
                assert(!comes_before(last, s[i]));
                lemma_not_before_chain(s[i], last, e);
            }
        }
    }
}

proof fn lemma_before_asymmetric(a: Weighted, b: Weighted)
    requires
        comes_before(a, b),
    ensures
        !comes_before(b, a),
{
    text::lemma_text_lt_total(a.1.name, b.1.name);
}

proof fn lemma_not_before_chain(a: Weighted, b: Weighted, c: Weighted)
    requires
        !comes_before(b, a),
        !comes_before(c, b),
    ensures
        !comes_before(c, a),
{
    text::lemma_text_lt_total(a.1.name, b.1.name);
    text::lemma_text_lt_total(b.1.name, c.1.name);
    text::lemma_text_lt_total(a.1.name, c.1.name);
    if a.0 == b.0 && b.0 == c.0 {
        if text::text_lt(a.1.name, b.1.name) && text::text_lt(b.1.name, c.1.name) {
            text::lemma_text_lt_transitive(a.1.name, b.1.name, c.1.name);
        }
    }
}

proof fn lemma_sorted(v: Seq<Weighted>)
    ensures
        forall|i: int, j: int|
            0 <= i < j < sorted_by_weight(v).len() ==> !comes_before(
                #[trigger] sorted_by_weight(v)[j],
                #[trigger] sorted_by_weight(v)[i],
            ),
        forall|i: int|
            0 <= i < sorted_by_weight(v).len() ==> v.contains(#[trigger] sorted_by_weight(v)[i]),
    decreases v.len(),
{
    if v.len() > 0 {
        let rest = v.drop_last();
        lemma_sorted(rest);
        let s = sorted_by_weight(rest);
        lemma_placed_sorted(s, v.last());
        let p = sorted_by_weight(v);
        assert forall|i: int| 0 <= i < p.len() implies v.contains(#[trigger] p[i]) by {
            if p[i] == v.last() {
                assert(v[v.len() - 1] == p[i]);
            } else {
                let m = choose|m: int| 0 <= m < s.len() && s[m] == p[i];
                assert(rest.contains(s[m]));
                let k = choose|k: int| 0 <= k < rest.len() && rest[k] == s[m];
                assert(v[k] == p[i]);
            }
        }
    }
}

/// Where no package builds on itself, the files of a package are loaded after
/// those of every package that it requires.
pub proof fn law_dependencies_come_first(
    pkgs: Seq<lock::LockedView>,
    r: spec_fn(Seq<char>) -> nat,
    i: int,
    j: int,
)
    requires
        ranks(pkgs, r),
        forall|k: int| 0 <= k < pkgs.len() ==> r((#[trigger] pkgs[k]).name) < pkgs.len(),
        weights_fit(pkgs, r),
        0 <= i < load_order(pkgs).len(),
        0 <= j < load_order(pkgs).len(),
        collections::lookup(load_order(pkgs)[i].1.require, load_order(pkgs)[j].1.name) is Some,
    ensures
        j < i,
{
    let all = with_weights(pkgs);
    let s = load_order(pkgs);
    lemma_sorted(all);
    lemma_weights_true(pkgs, r, pkgs);
    assert(all.contains(s[i]));
    assert(all.contains(s[j]));
    let a = choose|a: int| 0 <= a < all.len() && all[a] == s[i];
    let b = choose|b: int| 0 <= b < all.len() && all[b] == s[j];
    let name = s[j].1.name;
    assert(pkgs[a] == s[i].1);
    assert(pkgs[b] == s[j].1);
    lemma_user_listed(pkgs, name, a);
    let users = users_of(pkgs, name);
    let k = choose|k: int| 0 <= k < users.len() && users[k] == pkgs[a].name;
    assert(r(pkgs[a].name) < r(name));
    lemma_sum_below_part(pkgs, r, users, r(name), k);
    assert(comes_before(s[j], s[i]));
    if i < j {
        lemma_before_asymmetric(s[j], s[i]);
        assert(!comes_before(s[j], s[i]));
    }
}

proof fn lemma_placed_holds(s: Seq<Weighted>, e: Weighted)
    ensures
        placed_by_weight(s, e).to_multiset() == s.to_multiset().insert(e),
        placed_by_weight(s, e).len() == s.len() + 1,
    decreases s.len(),
{
    broadcast use vstd::seq_lib::group_to_multiset_ensures;

    if s.len() == 0 {
        assert(seq![e] =~= s.push(e));
    } else if comes_before(e, s.last()) {
        lemma_placed_holds(s.drop_last(), e);
        assert(s =~= s.drop_last().push(s.last()));
        assert(s.drop_last().to_multiset().insert(e).insert(s.last())
            =~= s.drop_last().to_multiset().insert(s.last()).insert(e));
    }
}

proof fn lemma_sorted_holds(v: Seq<Weighted>)
    ensures
        sorted_by_weight(v).to_multiset() == v.to_multiset(),
        sorted_by_weight(v).len() == v.len(),
    decreases v.len(),
{
    broadcast use vstd::seq_lib::group_to_multiset_ensures;

    if v.len() > 0 {
        lemma_sorted_holds(v.drop_last());
        lemma_placed_holds(sorted_by_weight(v.drop_last()), v.last());
        assert(v =~= v.drop_last().push(v.last()));
    }
}

/// The order in which files are loaded holds every package of the list, each as
/// often as the list does, and no other.
pub proof fn law_load_order_loses_nothing(pkgs: Seq<lock::LockedView>)
    ensures
        load_order(pkgs).len() == pkgs.len(),
        forall|i: int|
            0 <= i < pkgs.len() ==> exists|k: int|
                0 <= k < load_order(pkgs).len() && load_order(pkgs)[k].1 == #[trigger] pkgs[i],
        forall|k: int|
            0 <= k < load_order(pkgs).len() ==> exists|i: int|
                0 <= i < pkgs.len() && pkgs[i] == (#[trigger] load_order(pkgs)[k]).1,
{
    broadcast use vstd::seq_lib::group_to_multiset_ensures;

    let all = with_weights(pkgs);
    let s = load_order(pkgs);
    lemma_sorted_holds(all);
    assert forall|i: int| 0 <= i < pkgs.len() implies exists|k: int|
        0 <= k < s.len() && s[k].1 == #[trigger] pkgs[i] by {
        assert(all.contains(all[i]));
        assert(all.to_multiset().count(all[i]) > 0);
        assert(s.contains(all[i]));
        let k = choose|k: int| 0 <= k < s.len() && s[k] == all[i];
        assert(s[k].1 == pkgs[i]);
    }
    assert forall|k: int| 0 <= k < s.len() implies exists|i: int|
        0 <= i < pkgs.len() && pkgs[i] == (#[trigger] s[k]).1 by {
        assert(s.contains(s[k]));
        assert(s.to_multiset().count(s[k]) > 0);
        assert(all.contains(s[k]));
        let i = choose|i: int| 0 <= i < all.len() && all[i] == s[k];
        assert(pkgs[i] == s[k].1);
    }
}

} // verus!
