//! Resolving the requirements of a project.

use crate::collections;
use crate::collections::StrMap;
use crate::collections::StrSet;
use crate::constraint::VersionConstraint;
use crate::content_hash;
use crate::error::Error;
use crate::index;
use crate::index::PackageIndex;
use crate::json;
use crate::json::Json;
use crate::lock;
use crate::lock::ComposerLock;
use crate::lock::LockedPackage;
use crate::manifest;
use crate::manifest::ComposerJson;
use crate::package;
use crate::package::PackageId;
use crate::platform::Platform;
use crate::reach;
use crate::repo;
use crate::repo::RemotePackageVersion;
use crate::repositories::Repository;
use crate::solution;
use crate::solver::SolveRequest;
use crate::sources;
use crate::sources::LocalPathPackage;
use crate::sources::LocalSources;
use crate::text;
use crate::version::Stability;
use vstd::prelude::*;

verus! {

/// How far a partial update follows the requirements of the named packages.
#[derive(Debug, Clone, Copy, PartialEq, Eq, Structural)]
pub enum UpdateDeps {
    /// The named packages alone.
    OnlyListed,
    /// Also what they require, but for requirements of the project.
    WithDependencies,
    /// Also what they require.
    WithAllDependencies,
}

impl Default for UpdateDeps {
    fn default() -> (r: Self)
        ensures
            r == UpdateDeps::OnlyListed,
    {
        UpdateDeps::OnlyListed
    }
}

/// How a project is resolved.
#[derive(Debug)]
pub struct ResolveOptions {
    pub with_dev: bool,
    pub prefer_stable: bool,
    pub prefer_lowest: bool,
    pub minimum_stability: String,
    pub concurrency: usize,
    pub ignore_platform_reqs: bool,
    /// Patterns of platform requirements that are ignored.
    pub ignore_platform_req: Vec<String>,
    /// The packages that may change; all of them if none is named.
    pub packages_to_update: Vec<String>,
    pub update_deps: UpdateDeps,
}

impl Default for ResolveOptions {
    fn default() -> (r: Self)
        ensures
            r.with_dev,
            r.prefer_stable,
            !r.prefer_lowest,
            r.minimum_stability@ == "stable"@,
            r.concurrency == 32,
            !r.ignore_platform_reqs,
            r.ignore_platform_req@.len() == 0,
            r.packages_to_update@.len() == 0,
            r.update_deps == UpdateDeps::OnlyListed,
    {
        ResolveOptions {
            with_dev: true,
            prefer_stable: true,
            prefer_lowest: false,
            minimum_stability: String::from_str("stable"),
            concurrency: 32,
            ignore_platform_reqs: false,
            ignore_platform_req: Vec::new(),
            packages_to_update: Vec::new(),
            update_deps: UpdateDeps::OnlyListed,
        }
    }
}

/// The packages of a resolved project.
#[derive(Debug)]
pub struct Resolution {
    pub packages: Vec<LockedPackage>,
    pub packages_dev: Vec<LockedPackage>,
}

// ---------------------------------------------------------------------------
// Names

/// The names of a list that name a package other than a platform package.
pub open spec fn package_names(reqs: Seq<(Seq<char>, Seq<char>)>) -> Seq<Seq<char>>
    decreases reqs.len(),
{
    if reqs.len() == 0 {
        Seq::empty()
    } else {
        let rest = package_names(reqs.drop_last());
        if package::names_package(reqs.last().0) {
            rest.push(reqs.last().0)
        } else {
            rest
        }
    }
}

/// Puts the names that name a package other than a platform package behind a list.
pub fn push_package_names(out: &mut Vec<String>, reqs: &StrMap<String>)
    ensures
        text::texts(final(out)@) == text::texts(old(out)@) + package_names(
            collections::link_pairs(*reqs),
        ),
{
    let ghost start = text::texts(out@);
    let ghost all = collections::link_pairs(*reqs);
    let n: usize = reqs.entries.len();
    let mut i: usize = 0;
    assert(start + Seq::<Seq<char>>::empty() =~= start);
    while i < n
        invariant
            i <= n,
            n == reqs.entries@.len(),
            all == collections::link_pairs(*reqs),
            text::texts(out@) == start + package_names(all.take(i as int)),
        decreases n - i,
    {
        let name = reqs.entries[i].0.as_str();
        proof {
            assert(all.take(i + 1).drop_last() =~= all.take(i as int));
            assert(all.take(i + 1).last().0 == name@);
        }
        if package::is_package_req(name) {
            let ghost before = text::texts(out@);
            let copy = String::from_str(name);
            out.push(copy);
            assert(text::texts(out@) =~= before.push(name@));
            assert(text::texts(out@) =~= start + package_names(all.take(i as int)).push(name@));
        }
        i += 1;
    }
    assert(all.take(n as int) =~= all);
}

/// The packages that a project requires.
pub open spec fn root_names(m: manifest::ManifestView, with_dev: bool) -> Set<Seq<char>> {
    let prod = package_names(m.require).to_set();
    if with_dev {
        prod.union(package_names(m.require_dev).to_set())
    } else {
        prod
    }
}

fn set_of(names: Vec<String>) -> (r: StrSet)
    ensures
        r@ == text::texts(names@).to_set(),
{
    StrSet { items: names }
}

proof fn lemma_union_of_sum(a: Seq<Seq<char>>, b: Seq<Seq<char>>)
    ensures
        (a + b).to_set() == a.to_set().union(b.to_set()),
{
    assert forall|x: Seq<char>| (a + b).to_set().contains(x) == a.to_set().union(
        b.to_set(),
    ).contains(x) by {
        if (a + b).contains(x) {
            let i = choose|i: int| 0 <= i < (a + b).len() && (a + b)[i] == x;
            if i < a.len() {
                assert(a[i] == x);
            } else {
                assert(b[i - a.len()] == x);
            }
        }
        if a.contains(x) {
            let i = choose|i: int| 0 <= i < a.len() && a[i] == x;
            assert((a + b)[i] == x);
        }
        if b.contains(x) {
            let i = choose|i: int| 0 <= i < b.len() && b[i] == x;
            assert((a + b)[a.len() + i] == x);
        }
    }
    assert((a + b).to_set() =~= a.to_set().union(b.to_set()));
}

/// The packages that a project requires.
pub fn root_requirement_names(manifest: &ComposerJson, with_dev: bool) -> (r: StrSet)
    ensures
        r@ == root_names(manifest@, with_dev),
{
    let mut names: Vec<String> = Vec::new();
    assert(text::texts(names@) =~= Seq::empty());
    push_package_names(&mut names, &manifest.require);
    let ghost prod = package_names(manifest@.require);
    assert(text::texts(names@) =~= prod);
    if with_dev {
        push_package_names(&mut names, &manifest.require_dev);
        proof {
            lemma_union_of_sum(prod, package_names(manifest@.require_dev));
        }
    }
    set_of(names)
}

// ---------------------------------------------------------------------------
// Locked packages

/// Locked packages by their names. Of several with the same name the last one
/// counts.
pub open spec fn by_name(v: Seq<lock::LockedView>) -> solution::LockedMap
    decreases v.len(),
{
    if v.len() == 0 {
        Seq::empty()
    } else {
        collections::inserted(by_name(v.drop_last()), v.last().name, v.last())
    }
}

/// The packages of a lock file by their names.
pub fn locked_map(lock: &ComposerLock, with_dev: bool) -> (r: StrMap<LockedPackage>)
    ensures
        index::locked_map_view(r) == by_name(lock::to_install(lock@, with_dev)),
{
    let list = lock.packages_to_install(with_dev);
    let ghost all = lock::ref_views(list@);
    let mut out: StrMap<LockedPackage> = StrMap::new();
    let n: usize = list.len();
    let mut i: usize = 0;
    assert(index::locked_map_view(out) =~= Seq::empty());
    while i < n
        invariant
            i <= n,
            n == list@.len(),
            all == lock::ref_views(list@),
            index::locked_map_view(out) == by_name(all.take(i as int)),
        decreases n - i,
    {
        let p = list[i].copy();
        let name = list[i].name.clone();
        proof {
            assert(all.take(i + 1).drop_last() =~= all.take(i as int));
            assert(all.take(i + 1).last() == p@);
            collections::lemma_with_values(out@, name@, p, |l: LockedPackage| l@);
        }
        out.insert(name, p);
        i += 1;
    }
    assert(all.take(n as int) =~= all);
    out
}

/// A package after those of a list whose names do not lie above its own.
pub open spec fn placed_by_name(s: Seq<lock::LockedView>, p: lock::LockedView) -> Seq<
    lock::LockedView,
>
    decreases s.len(),
{
    if s.len() == 0 {
        seq![p]
    } else if text::text_lt(p.name, s.last().name) {
        placed_by_name(s.drop_last(), p).push(s.last())
    } else {
        s.push(p)
    }
}

/// Packages in the order of their names.
pub open spec fn sorted_by_name(v: Seq<lock::LockedView>) -> Seq<lock::LockedView>
    decreases v.len(),
{
    if v.len() == 0 {
        v
    } else {
        placed_by_name(sorted_by_name(v.drop_last()), v.last())
    }
}

proof fn lemma_placed_by_name(s: Seq<lock::LockedView>, p: lock::LockedView, i: int)
    requires
        0 <= i <= s.len(),
        forall|j: int| i <= j < s.len() ==> text::text_lt(p.name, (#[trigger] s[j]).name),
        i > 0 ==> !text::text_lt(p.name, s[i - 1].name),
    ensures
        placed_by_name(s, p) == s.insert(i, p),
    decreases s.len(),
{
    if s.len() == 0 {
        assert(placed_by_name(s, p) =~= s.insert(i, p));
    } else if i == s.len() {
        assert(s.last() == s[i - 1]);
        assert(placed_by_name(s, p) =~= s.insert(i, p));
    } else {
        assert(s.last() == s[s.len() - 1]);
        assert forall|j: int| i <= j < s.drop_last().len() implies text::text_lt(
            p.name,
            (#[trigger] s.drop_last()[j]).name,
        ) by {
            assert(s[j] == s.drop_last()[j]);
        }
        lemma_placed_by_name(s.drop_last(), p, i);
        assert(placed_by_name(s, p) =~= s.insert(i, p));
    }
}

/// Puts a package into a list that is ordered by name.
pub fn place_by_name(list: &mut Vec<LockedPackage>, p: LockedPackage)
    ensures
        lock::locked_views(final(list)@) == placed_by_name(lock::locked_views(old(list)@), p@),
{
    let ghost s = lock::locked_views(list@);
    let mut i: usize = list.len();
    while i > 0 && text::below(p.name.as_str(), list[i - 1].name.as_str())
        invariant
            i <= list@.len(),
            list@ == old(list)@,
            s == lock::locked_views(list@),
            forall|j: int| i <= j < s.len() ==> text::text_lt(p@.name, (#[trigger] s[j]).name),
        decreases i,
    {
        assert(s[i - 1] == list@[i - 1]@);
        i -= 1;
    }
    proof {
        if i > 0 {
            assert(s[i - 1] == list@[i - 1]@);
        }
        lemma_placed_by_name(s, p@, i as int);
    }
    list.insert(i, p);
    assert(lock::locked_views(list@) =~= s.insert(i as int, p@));
}

/// The packages of a lock file in the order of their names.
pub fn locked_list(lock: &ComposerLock, with_dev: bool) -> (r: Vec<LockedPackage>)
    ensures
        lock::locked_views(r@) == sorted_by_name(lock::to_install(lock@, with_dev)),
{
    let list = lock.packages_to_install(with_dev);
    let ghost all = lock::ref_views(list@);
    let mut out: Vec<LockedPackage> = Vec::new();
    let n: usize = list.len();
    let mut i: usize = 0;
    assert(lock::locked_views(out@) =~= Seq::empty());
    while i < n
        invariant
            i <= n,
            n == list@.len(),
            all == lock::ref_views(list@),
            lock::locked_views(out@) == sorted_by_name(all.take(i as int)),
        decreases n - i,
    {
        let p = list[i].copy();
        proof {
            assert(all.take(i + 1).drop_last() =~= all.take(i as int));
            assert(all.take(i + 1).last() == p@);
        }
        place_by_name(&mut out, p);
        i += 1;
    }
    assert(all.take(n as int) =~= all);
    out
}

// ---------------------------------------------------------------------------
// Partial updates

/// What a package requires, with what it requires for development if asked for.
pub open spec fn dep_names(l: lock::LockedView, with_dev: bool) -> Seq<Seq<char>> {
    if with_dev {
        package_names(l.require) + package_names(l.require_dev)
    } else {
        package_names(l.require)
    }
}

/// The locked packages with what they require.
pub open spec fn requirement_edges(v: solution::LockedMap, with_dev: bool) -> reach::EdgeMap {
    collections::with_values(v, |l: lock::LockedView| dep_names(l, with_dev))
}

/// The packages that an update must not free.
pub open spec fn kept_back(
    mode: UpdateDeps,
    roots: Set<Seq<char>>,
    targets: Seq<Seq<char>>,
) -> Set<Seq<char>> {
    match mode {
        UpdateDeps::WithDependencies => roots.difference(targets.to_set()),
        _ => Set::empty(),
    }
}

/// A package may change in a partial update: it is named, or a named package
/// leads to it by requirements that the update follows.
pub open spec fn may_change(
    targets: Seq<Seq<char>>,
    locked: Seq<lock::LockedView>,
    with_dev: bool,
    mode: UpdateDeps,
    roots: Set<Seq<char>>,
    x: Seq<char>,
) -> bool {
    if mode == UpdateDeps::OnlyListed {
        targets.contains(x)
    } else {
        reach::reachable(
            requirement_edges(by_name(locked), with_dev),
            kept_back(mode, roots, targets),
            targets,
            x,
        )
    }
}

fn package_dep_names(pkg: &LockedPackage, with_dev: bool) -> (r: Vec<String>)
    ensures
        text::texts(r@) == dep_names(pkg@, with_dev),
{
    let mut out: Vec<String> = Vec::new();
    assert(text::texts(out@) =~= Seq::empty());
    push_package_names(&mut out, &pkg.require);
    assert(text::texts(out@) =~= package_names(pkg@.require));
    if with_dev {
        push_package_names(&mut out, &pkg.require_dev);
    }
    out
}

/// The packages of a map with what they require.
pub fn edges_of(map: &StrMap<LockedPackage>, with_dev: bool) -> (r: StrMap<Vec<String>>)
    ensures
        reach::edge_map(r) == requirement_edges(index::locked_map_view(*map), with_dev),
{
    let ghost all = index::locked_map_view(*map);
    let mut out: Vec<(String, Vec<String>)> = Vec::new();
    let n: usize = map.entries.len();
    let mut i: usize = 0;
    while i < n
        invariant
            i <= n,
            n == map.entries@.len(),
            out@.len() == i,
            forall|j: int|
                0 <= j < i ==> (#[trigger] out@[j]).0@ == map.entries@[j].0@ && text::texts(
                    out@[j].1@,
                ) == dep_names(map.entries@[j].1@, with_dev),
        decreases n - i,
    {
        out.push((map.entries[i].0.clone(), package_dep_names(&map.entries[i].1, with_dev)));
        i += 1;
    }
    let r = StrMap { entries: out };
    assert(reach::edge_map(r) =~= requirement_edges(all, with_dev));
    r
}

/// The packages that may change in a partial update.
pub fn packages_allowed_to_change(
    targets: &Vec<String>,
    lock: &ComposerLock,
    with_dev: bool,
    mode: UpdateDeps,
    root_requirements: &StrSet,
) -> (r: StrSet)
    ensures
        forall|x: Seq<char>| #[trigger]
            r@.contains(x) <==> may_change(
                text::texts(targets@),
                lock::to_install(lock@, with_dev),
                with_dev,
                mode,
                root_requirements@,
                x,
            ),
{
    let ghost want = text::texts(targets@);
    if mode == UpdateDeps::OnlyListed {
        let r = set_of(collections::copy_texts(targets));
        assert forall|x: Seq<char>| #[trigger] r@.contains(x) <==> want.contains(x) by {}
        return r;
    }
    let map = locked_map(lock, with_dev);
    let edges = edges_of(&map, with_dev);
    let mut blocked = StrSet::new();
    if mode == UpdateDeps::WithDependencies {
        let n: usize = root_requirements.items.len();
        let ghost roots = text::texts(root_requirements.items@);
        let mut i: usize = 0;
        while i < n
            invariant
                i <= n,
                n == root_requirements.items@.len(),
                roots == text::texts(root_requirements.items@),
                want == text::texts(targets@),
                forall|x: Seq<char>| #[trigger]
                    blocked@.contains(x) <==> (!want.contains(x) && exists|k: int|
                        0 <= k < i && roots[k] == x),
            decreases n - i,
        {
            assert(roots[i as int] == root_requirements.items@[i as int]@);
            let name = root_requirements.items[i].as_str();
            let ghost before = blocked@;
            if !collections::contains_text(targets, name) {
                blocked.insert(String::from_str(name));
            }
            proof {
                assert forall|x: Seq<char>| #[trigger]
                    blocked@.contains(x) <==> (!want.contains(x) && exists|k: int|
                        0 <= k < i + 1 && roots[k] == x) by {
                    if before.contains(x) {
                        let k = choose|k: int| 0 <= k < i && roots[k] == x;
                        assert(roots[k] == x);
                    }
                    if !want.contains(x) && (exists|k: int| 0 <= k < i + 1 && roots[k] == x) {
                        let k = choose|k: int| 0 <= k < i + 1 && roots[k] == x;
                        if k < i {
                            assert(before.contains(x));
                        }
                    }
                }
            }
            i += 1;
        }
        proof {
            assert forall|x: Seq<char>| blocked@.contains(x) == kept_back(
                mode,
                root_requirements@,
                want,
            ).contains(x) by {
                if roots.contains(x) {
                    let k = choose|k: int| 0 <= k < roots.len() && roots[k] == x;
                    assert(roots[k] == x);
                }
            }
        }
    }
    assert(blocked@ =~= kept_back(mode, root_requirements@, want));
    reach::closure(targets, &edges, &blocked)
}

/// The named packages may change.
pub proof fn law_targets_may_change(
    targets: Seq<Seq<char>>,
    locked: Seq<lock::LockedView>,
    with_dev: bool,
    mode: UpdateDeps,
    roots: Set<Seq<char>>,
    x: Seq<char>,
)
    requires
        targets.contains(x),
    ensures
        may_change(targets, locked, with_dev, mode, roots, x),
{
    if mode != UpdateDeps::OnlyListed {
        assert(targets.to_set().contains(x));
        reach::law_seeds_are_reached(
            requirement_edges(by_name(locked), with_dev),
            kept_back(mode, roots, targets),
            targets,
            x,
        );
    }
}

/// An update that follows all requirements frees at least what one frees that
/// keeps the requirements of the project.
pub proof fn law_all_dependencies_free_more(
    targets: Seq<Seq<char>>,
    locked: Seq<lock::LockedView>,
    with_dev: bool,
    roots: Set<Seq<char>>,
    x: Seq<char>,
)
    requires
        may_change(targets, locked, with_dev, UpdateDeps::WithDependencies, roots, x),
    ensures
        may_change(targets, locked, with_dev, UpdateDeps::WithAllDependencies, roots, x),
{
    let edges = requirement_edges(by_name(locked), with_dev);
    let few = kept_back(UpdateDeps::WithDependencies, roots, targets);
    let none = kept_back(UpdateDeps::WithAllDependencies, roots, targets);
    let way = choose|way: Seq<Seq<char>>| #[trigger]
        reach::is_way(edges, few, targets, way) && way.last() == x;
    assert forall|i: int| 0 <= i < way.len() - 1 implies reach::leads(
        edges,
        none,
        #[trigger] way[i],
        way[i + 1],
    ) by {
        assert(reach::leads(edges, few, way[i], way[i + 1]));
    }
    assert(reach::is_way(edges, none, targets, way));
}

/// A requirement of the project that is not named is not freed by an update
/// that keeps the requirements of the project.
pub proof fn law_roots_are_kept(
    targets: Seq<Seq<char>>,
    locked: Seq<lock::LockedView>,
    with_dev: bool,
    roots: Set<Seq<char>>,
    x: Seq<char>,
)
    requires
        roots.contains(x),
        !targets.contains(x),
    ensures
        !may_change(targets, locked, with_dev, UpdateDeps::WithDependencies, roots, x),
{
    let edges = requirement_edges(by_name(locked), with_dev);
    let kept = kept_back(UpdateDeps::WithDependencies, roots, targets);
    assert(kept.contains(x));
    assert forall|way: Seq<Seq<char>>| #[trigger]
        reach::is_way(edges, kept, targets, way) implies way.last() != x by {
        if way.len() > 1 {
            let n = way.len() as int;
            assert(reach::leads(edges, kept, way[n - 2], way[n - 1]));
        }
    }
}

/// The locked packages that may not change, by their names.
pub open spec fn pins_of(
    v: Seq<lock::LockedView>,
    mutable: Set<Seq<char>>,
) -> solution::LockedMap
    decreases v.len(),
{
    if v.len() == 0 {
        Seq::empty()
    } else {
        let rest = pins_of(v.drop_last(), mutable);
        if mutable.contains(v.last().name) {
            rest
        } else {
            collections::inserted(rest, v.last().name, v.last())
        }
    }
}

/// The locked packages that may not change, by their names.
pub fn build_locked_pins(lock: &ComposerLock, mutable: &StrSet, with_dev: bool) -> (r: StrMap<
    LockedPackage,
>)
    ensures
        index::locked_map_view(r) == pins_of(lock::to_install(lock@, with_dev), mutable@),
{
    let list = lock.packages_to_install(with_dev);
    let ghost all = lock::ref_views(list@);
    let mut out: StrMap<LockedPackage> = StrMap::new();
    let n: usize = list.len();
    let mut i: usize = 0;
    assert(index::locked_map_view(out) =~= Seq::empty());
    while i < n
        invariant
            i <= n,
            n == list@.len(),
            all == lock::ref_views(list@),
            index::locked_map_view(out) == pins_of(all.take(i as int), mutable@),
        decreases n - i,
    {
        proof {
            assert(all.take(i + 1).drop_last() =~= all.take(i as int));
            assert(all.take(i + 1).last() == list@[i as int]@);
        }
        if !mutable.contains(list[i].name.as_str()) {
            let p = list[i].copy();
            let name = list[i].name.clone();
            proof {
                collections::lemma_with_values(out@, name@, p, |l: LockedPackage| l@);
            }
            out.insert(name, p);
        }
        i += 1;
    }
    assert(all.take(n as int) =~= all);
    out
}

/// A locked package is pinned exactly if it may not change.
pub proof fn law_pinned_or_mutable(v: Seq<lock::LockedView>, mutable: Set<Seq<char>>, x: Seq<char>)
    ensures
        collections::lookup(pins_of(v, mutable), x) is Some <==> !mutable.contains(x) && exists|
            i: int,
        |
            0 <= i < v.len() && (#[trigger] v[i]).name == x,
    decreases v.len(),
{
    if v.len() > 0 {
        let rest = v.drop_last();
        law_pinned_or_mutable(rest, mutable, x);
        let last = v.last();
        assert(v[v.len() - 1] == last);
        collections::law_lookup_inserted(pins_of(rest, mutable), last.name, last, x);
        if exists|i: int| 0 <= i < rest.len() && (#[trigger] rest[i]).name == x {
            let i = choose|i: int| 0 <= i < rest.len() && (#[trigger] rest[i]).name == x;
            assert(v[i].name == x);
        }
        if exists|i: int| 0 <= i < v.len() && (#[trigger] v[i]).name == x {
            let i = choose|i: int| 0 <= i < v.len() && (#[trigger] v[i]).name == x;
            if i < rest.len() {
                assert(rest[i].name == x);
            }
        }
    }
}

// ---------------------------------------------------------------------------
// Metadata

/// How far the metadata of the packages has been fetched.
#[derive(Debug)]
pub struct Prefetch {
    /// The packages that are to be looked at.
    pub queue: Vec<String>,
    /// The packages that have been looked at.
    pub seen: StrSet,
    /// The packages that no repository knows.
    pub missing: StrSet,
}

/// What a state of fetching consists of.
#[verifier::ext_equal]
pub struct PrefetchView {
    pub queue: Seq<Seq<char>>,
    pub seen: Set<Seq<char>>,
    pub missing: Set<Seq<char>>,
}

impl View for Prefetch {
    type V = PrefetchView;

    open spec fn view(&self) -> PrefetchView {
        PrefetchView {
            queue: text::texts(self.queue@),
            seen: self.seen@,
            missing: self.missing@,
        }
    }
}

/// What the known versions of a package require.
pub open spec fn version_requirements(m: Seq<lock::LockedView>) -> Seq<Seq<char>>
    decreases m.len(),
{
    if m.len() == 0 {
        Seq::empty()
    } else {
        version_requirements(m.drop_last()) + package_names(m.last().require)
    }
}

/// The known packages with what their versions require.
pub open spec fn index_edges(p: index::PackageMap) -> reach::EdgeMap {
    collections::with_values(
        p,
        |m: index::VersionMap|
            version_requirements(m.map_values(|e: (Seq<char>, index::IndexedView)| e.1.locked)),
    )
}

/// A package whose metadata is to be fetched.
pub open spec fn to_fetch(p: index::PackageMap, x: Seq<char>) -> bool {
    collections::lookup(p, x) is None && !package::names_platform(x)
}

/// The packages that a state leads to without passing one that has been looked
/// at.
pub open spec fn looked_at(s: PrefetchView, p: index::PackageMap, x: Seq<char>) -> bool {
    reach::reachable(index_edges(p), s.seen, s.queue, x)
}

fn index_edges_of(index: &PackageIndex) -> (r: StrMap<Vec<String>>)
    ensures
        reach::edge_map(r) == index_edges(index@.packages),
{
    let ghost all = index@.packages;
    let names = index.package_names();
    let mut out: Vec<(String, Vec<String>)> = Vec::new();
    let n: usize = names.len();
    let mut i: usize = 0;
    assert(text::texts(names@).len() == index::names_of(all).len());
    while i < n
        invariant
            i <= n,
            n == names@.len(),
            n == all.len(),
            all == index@.packages,
            text::texts(names@) == index::names_of(all),
            out@.len() == i,
            forall|j: int|
                0 <= j < i ==> (#[trigger] out@[j]).0@ == all[j].0 && text::texts(out@[j].1@)
                    == version_requirements(
                    all[j].1.map_values(|e: (Seq<char>, index::IndexedView)| e.1.locked),
                ),
        decreases n - i,
    {
        assert(text::texts(names@)[i as int] == names@[i as int]@);
        let versions = index.versions_at(i);
        let ghost locked = all[i as int].1.map_values(
            |e: (Seq<char>, index::IndexedView)| e.1.locked,
        );
        let ghost known = index::indexed_views(versions@);
        assert(known.len() == versions@.len());
        let mut list: Vec<String> = Vec::new();
        assert(text::texts(list@) =~= Seq::empty());
        let k: usize = versions.len();
        let mut j: usize = 0;
        while j < k
            invariant
                j <= k,
                k == versions@.len(),
                k == locked.len(),
                known == index::indexed_views(versions@),
                known == index::values_of(all[i as int].1),
                locked == all[i as int].1.map_values(
                    |e: (Seq<char>, index::IndexedView)| e.1.locked,
                ),
                text::texts(list@) == version_requirements(locked.take(j as int)),
            decreases k - j,
        {
            proof {
                assert(locked.take(j + 1).drop_last() =~= locked.take(j as int));
                assert(known[j as int] == versions@[j as int]@);
                assert(locked.take(j + 1).last() == versions@[j as int]@.locked);
            }
            push_package_names(&mut list, &versions[j].locked.require);
            j += 1;
        }
        assert(locked.take(k as int) =~= locked);
        out.push((names[i].clone(), list));
        i += 1;
    }
    let r = StrMap { entries: out };
    assert(reach::edge_map(r) =~= index_edges(all));
    r
}

impl Prefetch {
    /// The state at the beginning, for the requirements of a project.
    pub fn start(roots: &Vec<(PackageId, VersionConstraint)>) -> (r: Self)
        ensures
            r@.queue == manifest::dep_views(roots@).map_values(
                |e: (Seq<char>, Seq<char>)| e.0,
            ),
            r@.seen == Set::<Seq<char>>::empty(),
            r@.missing == Set::<Seq<char>>::empty(),
    {
        let mut queue: Vec<String> = Vec::new();
        let n: usize = roots.len();
        let mut i: usize = 0;
        while i < n
            invariant
                i <= n,
                n == roots@.len(),
                queue@.len() == i,
                forall|j: int| 0 <= j < i ==> (#[trigger] queue@[j])@ == roots@[j].0@,
            decreases n - i,
        {
            queue.push(String::from_str(roots[i].0.as_str()));
            i += 1;
        }
        assert(text::texts(queue@) =~= manifest::dep_views(roots@).map_values(
            |e: (Seq<char>, Seq<char>)| e.0,
        ));
        Prefetch { queue, seen: StrSet::new(), missing: StrSet::new() }
    }

    /// The packages whose metadata is to be fetched next. What is known already
    /// is walked through without fetching anything.
    pub fn next_wave(&mut self, index: &PackageIndex) -> (r: Vec<String>)
        ensures
            final(self)@.queue.len() == 0,
            final(self)@.missing == old(self)@.missing,
            forall|x: Seq<char>| #[trigger]
                final(self)@.seen.contains(x) <==> old(self)@.seen.contains(x) || looked_at(
                    old(self)@,
                    index@.packages,
                    x,
                ),
            forall|x: Seq<char>| #[trigger]
                text::texts(r@).contains(x) <==> looked_at(old(self)@, index@.packages, x)
                    && to_fetch(index@.packages, x),
            text::texts(r@).no_duplicates(),
    {
        let ghost before = self@;
        let edges = index_edges_of(index);
        let found = reach::closure(&self.queue, &edges, &self.seen);
        let ghost items = text::texts(found.items@);
        let mut wave: Vec<String> = Vec::new();
        let n: usize = found.items.len();
        let mut i: usize = 0;
        assert(text::texts(wave@) =~= Seq::empty());
        while i < n
            invariant
                i <= n,
                n == found.items@.len(),
                items == text::texts(found.items@),
                items.no_duplicates(),
                self@.missing == before.missing,
                self@.queue == before.queue,
                forall|x: Seq<char>| #[trigger]
                    self@.seen.contains(x) <==> before.seen.contains(x) || exists|k: int|
                        0 <= k < i && items[k] == x,
                forall|x: Seq<char>| #[trigger]
                    text::texts(wave@).contains(x) <==> to_fetch(index@.packages, x) && exists|
                        k: int,
                    |
                        0 <= k < i && items[k] == x,
                text::texts(wave@).no_duplicates(),
            decreases n - i,
        {
            assert(items[i as int] == found.items@[i as int]@);
            let name = found.items[i].as_str();
            let ghost seen_before = self@.seen;
            self.seen.insert(String::from_str(name));
            proof {
                assert forall|x: Seq<char>| #[trigger]
                    self@.seen.contains(x) <==> before.seen.contains(x) || exists|k: int|
                        0 <= k < i + 1 && items[k] == x by {
                    if seen_before.contains(x) && !before.seen.contains(x) {
                        let k = choose|k: int| 0 <= k < i && items[k] == x;
                        assert(items[k] == x);
                    }
                    if exists|k: int| 0 <= k < i + 1 && items[k] == x {
                        let k = choose|k: int| 0 <= k < i + 1 && items[k] == x;
                        if k < i {
                            assert(seen_before.contains(x));
                        }
                    }
                }
            }
            let ghost was = text::texts(wave@);
            let fetch = !index.has_package(name) && !package::is_platform_req(name);
            if fetch {
                let copy = String::from_str(name);
                wave.push(copy);
                assert(text::texts(wave@) =~= was.push(name@));
            }
            proof {
                let now = text::texts(wave@);
                assert forall|x: Seq<char>| #[trigger]
                    now.contains(x) <==> to_fetch(index@.packages, x) && exists|k: int|
                        0 <= k < i + 1 && items[k] == x by {
                    if now.contains(x) {
                        let q = choose|q: int| 0 <= q < now.len() && now[q] == x;
                        if q < was.len() {
                            assert(was[q] == x);
                            assert(was.contains(x));
                            let k = choose|k: int| 0 <= k < i && items[k] == x;
                            assert(items[k] == x);
                        }
                    }
                    if to_fetch(index@.packages, x) && (exists|k: int|
                        0 <= k < i + 1 && items[k] == x) {
                        let k = choose|k: int| 0 <= k < i + 1 && items[k] == x;
                        if k < i {
                            assert(was.contains(x));
                            let q = choose|q: int| 0 <= q < was.len() && was[q] == x;
                            assert(now[q] == x);
                        } else {
                            assert(now[was.len() as int] == x);
                        }
                    }
                }
                if fetch {
                    assert(!was.contains(name@)) by {
                        if was.contains(name@) {
                            let k = choose|k: int| 0 <= k < i && items[k] == name@;
                            assert(items[k] != items[i as int]);
                        }
                    }
                    assert forall|a: int, b: int|
                        0 <= a < now.len() && 0 <= b < now.len() && a != b implies now[a]
                        != now[b] by {
                        if a < was.len() && b < was.len() {
                            assert(was[a] != was[b]);
                        } else if a < was.len() {
                            assert(was.contains(was[a]));
                        } else {
                            assert(was.contains(was[b]));
                        }
                    }
                }
            }
            i += 1;
        }
        let ghost seen = self@.seen;
        self.queue = Vec::new();
        assert(self@.seen == seen);
        proof {
            assert forall|x: Seq<char>| (exists|k: int| 0 <= k < n && items[k] == x)
                <==> #[trigger] found@.contains(x) by {
                if found@.contains(x) {
                    let k = choose|k: int| 0 <= k < items.len() && items[k] == x;
                    assert(items[k] == x);
                }
                if exists|k: int| 0 <= k < n && items[k] == x {
                    let k = choose|k: int| 0 <= k < n && items[k] == x;
                    assert(items.contains(x));
                }
            }
            assert forall|x: Seq<char>| #[trigger] self@.seen.contains(x) <==> before.seen.contains(
                x,
            ) || looked_at(before, index@.packages, x) by {
                assert(found@.contains(x) <==> looked_at(before, index@.packages, x));
                assert(seen.contains(x) <==> before.seen.contains(x) || exists|k: int|
                    0 <= k < n && items[k] == x);
            }
            assert forall|x: Seq<char>| #[trigger] text::texts(wave@).contains(x) <==> looked_at(
                before,
                index@.packages,
                x,
            ) && to_fetch(index@.packages, x) by {
                assert(found@.contains(x) <==> looked_at(before, index@.packages, x));
            }
        }
        wave
    }
}

/// The names of a list.
pub open spec fn keys_of(pairs: Seq<(Seq<char>, Seq<char>)>) -> Seq<Seq<char>> {
    pairs.map_values(|e: (Seq<char>, Seq<char>)| e.0)
}

/// The names of a list that are packages which have not been looked at.
pub open spec fn unseen(names: Seq<Seq<char>>, seen: Set<Seq<char>>) -> Seq<Seq<char>>
    decreases names.len(),
{
    if names.len() == 0 {
        Seq::empty()
    } else {
        let rest = unseen(names.drop_last(), seen);
        if seen.contains(names.last()) {
            rest
        } else {
            rest.push(names.last())
        }
    }
}

/// The state after a version was found. What it stands for need not be fetched.
pub open spec fn with_found_version(s: PrefetchView, v: repo::RemoteView) -> PrefetchView {
    let stands_for = keys_of(v.provide + v.replace).to_set();
    let seen = s.seen.union(stands_for);
    PrefetchView {
        queue: s.queue + unseen(package_names(v.require), seen),
        seen,
        missing: s.missing.difference(stands_for),
    }
}

/// The state after versions were found.
pub open spec fn with_found(s: PrefetchView, v: Seq<repo::RemoteView>) -> PrefetchView
    decreases v.len(),
{
    if v.len() == 0 {
        s
    } else {
        with_found_version(with_found(s, v.drop_last()), v.last())
    }
}

proof fn lemma_unseen(names: Seq<Seq<char>>, seen: Set<Seq<char>>, d: Seq<char>)
    requires
        names.contains(d),
        !seen.contains(d),
    ensures
        unseen(names, seen).contains(d),
    decreases names.len(),
{
    let i = choose|i: int| 0 <= i < names.len() && names[i] == d;
    let rest = unseen(names.drop_last(), seen);
    if i < names.len() - 1 {
        assert(names.drop_last()[i] == d);
        lemma_unseen(names.drop_last(), seen, d);
        let j = choose|j: int| 0 <= j < rest.len() && rest[j] == d;
        assert(unseen(names, seen)[j] == d);
    } else {
        assert(unseen(names, seen)[rest.len() as int] == d);
    }
}

/// What a found version requires has been looked at, or will be.
pub proof fn law_requirements_are_queued(
    s: PrefetchView,
    v: Seq<repo::RemoteView>,
    i: int,
    d: Seq<char>,
)
    requires
        0 <= i < v.len(),
        package_names(v[i].require).contains(d),
    ensures
        with_found(s, v).seen.contains(d) || with_found(s, v).queue.contains(d),
    decreases v.len(),
{
    let before = with_found(s, v.drop_last());
    let now = with_found(s, v);
    let more = unseen(package_names(v.last().require), now.seen);
    assert(now.queue == before.queue + more);
    if i < v.len() - 1 {
        assert(v.drop_last()[i] == v[i]);
        law_requirements_are_queued(s, v.drop_last(), i, d);
        if before.queue.contains(d) {
            let j = choose|j: int| 0 <= j < before.queue.len() && before.queue[j] == d;
            assert(now.queue[j] == d);
        }
    } else if !now.seen.contains(d) {
        lemma_unseen(package_names(v.last().require), now.seen, d);
        let j = choose|j: int| 0 <= j < more.len() && more[j] == d;
        assert(now.queue[before.queue.len() + j] == d);
    }
}

/// What is in the queue is looked at next, unless it has been looked at. So what a
/// known package requires is looked at with it.
pub proof fn law_queued_is_looked_at(s: PrefetchView, p: index::PackageMap, x: Seq<char>)
    ensures
        s.queue.contains(x) && !s.seen.contains(x) ==> looked_at(s, p, x),
        forall|d: Seq<char>|
            looked_at(s, p, x) && #[trigger] reach::leads(index_edges(p), s.seen, x, d)
                ==> looked_at(s, p, d),
{
    if s.queue.contains(x) && !s.seen.contains(x) {
        reach::law_seeds_are_reached(index_edges(p), s.seen, s.queue, x);
    }
    assert forall|d: Seq<char>|
        looked_at(s, p, x) && #[trigger] reach::leads(index_edges(p), s.seen, x, d) implies looked_at(
        s,
        p,
        d,
    ) by {
        reach::law_reach_goes_on(index_edges(p), s.seen, s.queue, x, d);
    }
}

impl Prefetch {
    fn stand_in(&mut self, links: &StrMap<String>)
        ensures
            final(self)@.queue == old(self)@.queue,
            final(self)@.seen == old(self)@.seen.union(
                keys_of(collections::link_pairs(*links)).to_set(),
            ),
            final(self)@.missing == old(self)@.missing.difference(
                keys_of(collections::link_pairs(*links)).to_set(),
            ),
    {
        let ghost before = self@;
        let ghost all = keys_of(collections::link_pairs(*links));
        let n: usize = links.entries.len();
        let mut i: usize = 0;
        while i < n
            invariant
                i <= n,
                n == links.entries@.len(),
                all == keys_of(collections::link_pairs(*links)),
                self@.queue == before.queue,
                forall|x: Seq<char>| #[trigger]
                    self@.seen.contains(x) <==> before.seen.contains(x) || exists|k: int|
                        0 <= k < i && all[k] == x,
                forall|x: Seq<char>| #[trigger]
                    self@.missing.contains(x) <==> before.missing.contains(x) && !(exists|k: int|
                        0 <= k < i && all[k] == x),
            decreases n - i,
        {
            let name = links.entries[i].0.as_str();
            assert(all[i as int] == name@);
            let ghost now = self@;
            self.seen.insert(String::from_str(name));
            self.missing.remove(name);
            proof {
                assert forall|x: Seq<char>| #[trigger]
                    self@.seen.contains(x) <==> before.seen.contains(x) || exists|k: int|
                        0 <= k < i + 1 && all[k] == x by {
                    if now.seen.contains(x) && !before.seen.contains(x) {
                        let k = choose|k: int| 0 <= k < i && all[k] == x;
                        assert(all[k] == x);
                    }
                    if exists|k: int| 0 <= k < i + 1 && all[k] == x {
                        let k = choose|k: int| 0 <= k < i + 1 && all[k] == x;
                        if k < i {
                            assert(now.seen.contains(x));
                        }
                    }
                }
                assert forall|x: Seq<char>| #[trigger]
                    self@.missing.contains(x) <==> before.missing.contains(x) && !(exists|k: int|
                        0 <= k < i + 1 && all[k] == x) by {
                    assert(self@.missing.contains(x) == (now.missing.contains(x) && x != name@));
                    if x == name@ {
                        assert(all[i as int] == x);
                    }
                    if exists|k: int| 0 <= k < i && all[k] == x {
                        let k = choose|k: int| 0 <= k < i && all[k] == x;
                        assert(all[k] == x);
                        assert(!now.missing.contains(x));
                    }
                    if exists|k: int| 0 <= k < i + 1 && all[k] == x {
                        let k = choose|k: int| 0 <= k < i + 1 && all[k] == x;
                        if k < i {
                            assert(!now.missing.contains(x));
                        }
                    }
                }
            }
            i += 1;
        }
        proof {
            assert forall|x: Seq<char>| all.to_set().contains(x) <==> (exists|k: int|
                0 <= k < n && all[k] == x) by {
                if all.contains(x) {
                    let k = choose|k: int| 0 <= k < all.len() && all[k] == x;
                    assert(all[k] == x);
                }
            }
            assert(self@.seen =~= before.seen.union(all.to_set()));
            assert(self@.missing =~= before.missing.difference(all.to_set()));
        }
    }

    fn queue_unseen(&mut self, names: &Vec<String>)
        ensures
            final(self)@.seen == old(self)@.seen,
            final(self)@.missing == old(self)@.missing,
            final(self)@.queue == old(self)@.queue + unseen(text::texts(names@), old(self)@.seen),
    {
        let ghost before = self@;
        let ghost all = text::texts(names@);
        let n: usize = names.len();
        let mut i: usize = 0;
        assert(before.queue + Seq::<Seq<char>>::empty() =~= before.queue);
        while i < n
            invariant
                i <= n,
                n == names@.len(),
                all == text::texts(names@),
                self@.seen == before.seen,
                self@.missing == before.missing,
                self@.queue == before.queue + unseen(all.take(i as int), before.seen),
            decreases n - i,
        {
            let name = names[i].as_str();
            proof {
                assert(all.take(i + 1).drop_last() =~= all.take(i as int));
                assert(all.take(i + 1).last() == name@);
            }
            if !self.seen.contains(name) {
                let ghost now = self@.queue;
                let copy = String::from_str(name);
                self.queue.push(copy);
                assert(self@.queue =~= now.push(name@));
                assert(self@.queue =~= before.queue + unseen(all.take(i as int), before.seen).push(
                    name@,
                ));
            }
            i += 1;
        }
        assert(all.take(n as int) =~= all);
    }

    /// The state after a repository answered with versions of a package.
    pub fn found(&mut self, versions: &Vec<RemotePackageVersion>)
        ensures
            final(self)@ == with_found(old(self)@, repo::remote_views(versions@)),
    {
        let ghost before = self@;
        let ghost all = repo::remote_views(versions@);
        let n: usize = versions.len();
        let mut i: usize = 0;
        while i < n
            invariant
                i <= n,
                n == versions@.len(),
                all == repo::remote_views(versions@),
                self@ == with_found(before, all.take(i as int)),
            decreases n - i,
        {
            let v = &versions[i];
            let ghost here = self@;
            let ghost a = keys_of(v@.provide);
            let ghost b = keys_of(v@.replace);
            proof {
                assert(all.take(i + 1).drop_last() =~= all.take(i as int));
                assert(all.take(i + 1).last() == v@);
                assert(keys_of(v@.provide + v@.replace) =~= a + b);
                lemma_union_of_sum(a, b);
            }
            self.stand_in(&v.provide);
            self.stand_in(&v.replace);
            proof {
                let both = a.to_set().union(b.to_set());
                assert(here.seen.union(a.to_set()).union(b.to_set()) =~= here.seen.union(both));
                assert(here.missing.difference(a.to_set()).difference(b.to_set())
                    =~= here.missing.difference(both));
            }
            let mut deps: Vec<String> = Vec::new();
            assert(text::texts(deps@) =~= Seq::empty());
            push_package_names(&mut deps, &v.require);
            assert(text::texts(deps@) =~= package_names(v@.require));
            self.queue_unseen(&deps);
            assert(self@ =~= with_found_version(here, v@));
            i += 1;
        }
        assert(all.take(n as int) =~= all);
    }

    /// The state after all repositories answered that they do not know a
    /// package.
    pub fn not_found(&mut self, name: &str)
        ensures
            final(self)@ == (PrefetchView {
                missing: old(self)@.missing.insert(name@),
                ..old(self)@
            }),
    {
        self.missing.insert(String::from_str(name));
    }

    /// Nothing is left to be looked at.
    pub fn is_done(&self) -> (r: bool)
        ensures
            r == (self@.queue.len() == 0),
    {
        self.queue.len() == 0
    }

    /// Checks that every package that no repository knows is known otherwise.
    pub fn check_missing(&self, index: &PackageIndex) -> (r: Result<(), Error>)
        ensures
            match r {
                Ok(_) => forall|x: Seq<char>| #[trigger]
                    self@.missing.contains(x) ==> collections::lookup(index@.packages, x) is Some,
                Err(e) => exists|x: Seq<char>|
                    #[trigger]
                    is_first_missing(self@.missing, index@.packages, x) && says_missing(e, x),
            },
    {
        let ghost items = text::texts(self.missing.items@);
        let ghost p = index@.packages;
        let n: usize = self.missing.items.len();
        let mut least: Option<usize> = None;
        let mut i: usize = 0;
        while i < n
            invariant
                i <= n,
                n == self.missing.items@.len(),
                items == text::texts(self.missing.items@),
                p == index@.packages,
                match least {
                    Some(b) => b < i && collections::lookup(p, items[b as int]) is None && forall|
                        k: int,
                    |
                        0 <= k < i && collections::lookup(p, #[trigger] items[k]) is None
                            ==> !text::text_lt(items[k], items[b as int]),
                    None => forall|k: int|
                        0 <= k < i ==> collections::lookup(p, #[trigger] items[k]) is Some,
                },
            decreases n - i,
        {
            assert(items[i as int] == self.missing.items@[i as int]@);
            let name = self.missing.items[i].as_str();
            if !index.has_package(name) {
                let better = match least {
                    Some(b) => {
                        assert(items[b as int] == self.missing.items@[b as int]@);
                        text::below(name, self.missing.items[b].as_str())
                    },
                    None => true,
                };
                proof {
                    text::lemma_text_lt_total(name@, name@);
                    if let Some(b) = least {
                        assert forall|k: int|
                            0 <= k < i && collections::lookup(p, #[trigger] items[k]) is None
                                && better implies !text::text_lt(items[k], name@) by {
                            if text::text_lt(items[k], name@) {
                                text::lemma_text_lt_transitive(
                                    items[k],
                                    name@,
                                    items[b as int],
                                );
                            }
                        }
                    }
                }
                if better {
                    least = Some(i);
                }
            }
            i += 1;
        }
        match least {
            Some(b) => {
                assert(items[b as int] == self.missing.items@[b as int]@);
                let name = self.missing.items[b].as_str();
                let e = Error::PackageNotFound(
                    text::cat(
                        name,
                        " (not on the repository and no installed package provides it)",
                    ),
                );
                proof {
                    assert(self@.missing.contains(name@)) by {
                        assert(items.contains(name@));
                    }
                    assert forall|y: Seq<char>| #[trigger]
                        self@.missing.contains(y) && collections::lookup(p, y) is None implies !text::text_lt(
                        y,
                        name@,
                    ) by {
                        let k = choose|k: int| 0 <= k < items.len() && items[k] == y;
                        assert(collections::lookup(p, items[k]) is None);
                    }
                    assert(is_first_missing(self@.missing, p, name@));
                }
                Err(e)
            },
            None => {
                proof {
                    assert forall|x: Seq<char>| #[trigger]
                        self@.missing.contains(x) implies collections::lookup(p, x) is Some by {
                        let k = choose|k: int| 0 <= k < items.len() && items[k] == x;
                        assert(collections::lookup(p, items[k]) is Some);
                    }
                }
                Ok(())
            },
        }
    }
}

/// The first package that nothing knows.
pub open spec fn is_first_missing(
    missing: Set<Seq<char>>,
    p: index::PackageMap,
    x: Seq<char>,
) -> bool {
    &&& missing.contains(x)
    &&& collections::lookup(p, x) is None
    &&& forall|y: Seq<char>| #[trigger]
        missing.contains(y) && collections::lookup(p, y) is None ==> !text::text_lt(y, x)
}

/// What is said of a package that nothing knows.
pub open spec fn says_missing(e: Error, x: Seq<char>) -> bool {
    e matches Error::PackageNotFound(t) && t@ == x
        + " (not on the repository and no installed package provides it)"@
}

// ---------------------------------------------------------------------------
// Packages that are given in the manifest

/// The packages after those of a list were entered that can be read.
pub open spec fn with_inline_list(p: index::PackageMap, a: Seq<json::JsonView>) -> index::PackageMap
    decreases a.len(),
{
    if a.len() == 0 {
        p
    } else {
        let rest = with_inline_list(p, a.drop_last());
        match lock::locked_json(a.last()) {
            Some(l) => index::put_locked(rest, l, None),
            None => rest,
        }
    }
}

/// The packages after those that the repositories of the manifest give were
/// entered.
pub open spec fn with_inline(
    p: index::PackageMap,
    repos: Seq<crate::repositories::RepositoryView>,
) -> index::PackageMap
    decreases repos.len(),
{
    if repos.len() == 0 {
        p
    } else {
        let rest = with_inline(p, repos.drop_last());
        match repos.last() {
            crate::repositories::RepositoryView::Package(a) => with_inline_list(rest, a),
            _ => rest,
        }
    }
}

/// Enters the packages that the repositories of the manifest give.
pub fn insert_inline(index: &mut PackageIndex, repos: &Vec<Repository>)
    ensures
        final(index)@ == (index::IndexView {
            packages: with_inline(
                old(index)@.packages,
                crate::repositories::repository_views(repos@),
            ),
            ..old(index)@
        }),
{
    let ghost before = index@;
    let ghost all = crate::repositories::repository_views(repos@);
    let n: usize = repos.len();
    let mut i: usize = 0;
    while i < n
        invariant
            i <= n,
            n == repos@.len(),
            all == crate::repositories::repository_views(repos@),
            index@ == (index::IndexView {
                packages: with_inline(before.packages, all.take(i as int)),
                ..before
            }),
        decreases n - i,
    {
        proof {
            assert(all.take(i + 1).drop_last() =~= all.take(i as int));
            assert(all.take(i + 1).last() == repos@[i as int]@);
        }
        if let Repository::Package { packages } = &repos[i] {
            insert_inline_list(index, packages);
        }
        i += 1;
    }
    assert(all.take(n as int) =~= all);
}

fn insert_inline_list(index: &mut PackageIndex, list: &Vec<Json>)
    ensures
        final(index)@ == (index::IndexView {
            packages: with_inline_list(old(index)@.packages, json::elements(list@)),
            ..old(index)@
        }),
{
    let ghost before = index@;
    let ghost all = json::elements(list@);
    let n: usize = list.len();
    let mut i: usize = 0;
    while i < n
        invariant
            i <= n,
            n == list@.len(),
            all == json::elements(list@),
            index@ == (index::IndexView {
                packages: with_inline_list(before.packages, all.take(i as int)),
                ..before
            }),
        decreases n - i,
    {
        proof {
            assert(all.take(i + 1).drop_last() =~= all.take(i as int));
            assert(all.take(i + 1).last() == list@[i as int]@);
        }
        if let Some(l) = LockedPackage::from_json(&list[i]) {
            index.insert_locked(l);
        }
        i += 1;
    }
    assert(all.take(n as int) =~= all);
}

/// The packages after those of a local repository were entered.
pub open spec fn with_local(
    p: index::PackageMap,
    v: Seq<LocalPathPackage>,
) -> index::PackageMap
    decreases v.len(),
{
    if v.len() == 0 {
        p
    } else {
        let l = v.last();
        index::put_version(
            with_local(p, v.drop_last()),
            l.name@,
            l.version@.raw,
            index::IndexedView {
                version: l.version@,
                locked: sources::local_as_locked(l),
                source: index::kind_source(l.source_kind),
                provided_by: None,
            },
        )
    }
}

fn insert_locals(index: &mut PackageIndex, v: &Vec<LocalPathPackage>)
    ensures
        final(index)@ == (index::IndexView {
            packages: with_local(old(index)@.packages, v@),
            ..old(index)@
        }),
{
    let ghost before = index@;
    let n: usize = v.len();
    let mut i: usize = 0;
    while i < n
        invariant
            i <= n,
            n == v@.len(),
            index@ == (index::IndexView {
                packages: with_local(before.packages, v@.take(i as int)),
                ..before
            }),
        decreases n - i,
    {
        proof {
            assert(v@.take(i + 1).drop_last() =~= v@.take(i as int));
            assert(v@.take(i + 1).last() == v@[i as int]);
        }
        index.insert_local(&v[i]);
        i += 1;
    }
    assert(v@.take(n as int) =~= v@);
}

/// The index of the packages that need not be fetched: those of the local
/// repositories and those that the manifest gives.
pub fn local_index(local: &LocalSources, repos: &Vec<Repository>) -> (r: PackageIndex)
    ensures
        r@ == (index::IndexView {
            packages: with_inline(
                with_local(
                    with_local(Seq::empty(), local.path_packages@),
                    local.vcs_packages@,
                ),
                crate::repositories::repository_views(repos@),
            ),
            providers: Seq::empty(),
            provider_names: Seq::empty(),
        }),
{
    let mut index = PackageIndex::new();
    insert_locals(&mut index, &local.path_packages);
    insert_locals(&mut index, &local.vcs_packages);
    insert_inline(&mut index, repos);
    index
}

/// The packages that may change in a partial update.
pub open spec fn mutable_set(
    lock: lock::LockView,
    options: ResolveOptions,
    roots: Set<Seq<char>>,
) -> Set<Seq<char>> {
    Set::new(
        |x: Seq<char>|
            may_change(
                text::texts(options.packages_to_update@),
                lock::to_install(lock, options.with_dev),
                options.with_dev,
                options.update_deps,
                roots,
                x,
            ),
    )
}

/// The packages after those were pinned that a partial update must not change.
pub open spec fn pinned_for_update(
    p: index::PackageMap,
    lock: Option<lock::LockView>,
    options: ResolveOptions,
    roots: Set<Seq<char>>,
) -> index::PackageMap {
    match lock {
        Some(l) if options.packages_to_update@.len() > 0 => index::all_pinned(
            p,
            pins_of(
                lock::to_install(l, options.with_dev),
                mutable_set(l, options, roots),
            ),
        ),
        _ => p,
    }
}

/// The lock file that there is.
pub open spec fn opt_lock(l: Option<&ComposerLock>) -> Option<lock::LockView> {
    match l {
        Some(x) => Some(x@),
        None => None,
    }
}

/// The index after the metadata was fetched.
pub open spec fn settled(
    ix: index::IndexView,
    lock: Option<lock::LockView>,
    options: ResolveOptions,
    roots: Set<Seq<char>>,
) -> index::IndexView {
    let p = pinned_for_update(ix.packages, lock, options, roots);
    index::with_all_virtuals(index::IndexView { packages: p, ..ix }, index::all_real(p))
}

/// Finishes the index once the metadata was fetched: pins what a partial update
/// must not change, and enters the virtual packages. Fails if a package that no
/// repository knows is not known otherwise.
pub fn settle_index(
    index: &mut PackageIndex,
    existing_lock: Option<&ComposerLock>,
    options: &ResolveOptions,
    root_requirements: &StrSet,
    fetched: &Prefetch,
) -> (r: Result<(), Error>)
    ensures
        final(index)@ == settled(
            old(index)@,
            opt_lock(existing_lock),
            *options,
            root_requirements@,
        ),
        match r {
            Ok(_) => forall|x: Seq<char>| #[trigger]
                fetched@.missing.contains(x) ==> collections::lookup(final(index)@.packages, x)
                    is Some,
            Err(e) => exists|x: Seq<char>| #[trigger]
                is_first_missing(fetched@.missing, final(index)@.packages, x) && says_missing(e, x),
        },
{
    if let Some(lock) = existing_lock {
        if options.packages_to_update.len() > 0 {
            let mutable = packages_allowed_to_change(
                &options.packages_to_update,
                lock,
                options.with_dev,
                options.update_deps,
                root_requirements,
            );
            assert(mutable@ =~= mutable_set(lock@, *options, root_requirements@));
            let pins = build_locked_pins(lock, &mutable, options.with_dev);
            index.pin_to_locked(&pins);
        }
    }
    index.register_virtual_packages();
    fetched.check_missing(index)
}

// ---------------------------------------------------------------------------
// The request

fn names_in(m: &StrMap<String>) -> (r: Vec<String>)
    ensures
        text::texts(r@) == keys_of(collections::link_pairs(*m)),
{
    let mut out: Vec<String> = Vec::new();
    let n: usize = m.entries.len();
    let mut i: usize = 0;
    while i < n
        invariant
            i <= n,
            n == m.entries@.len(),
            out@.len() == i,
            forall|j: int| 0 <= j < i ==> (#[trigger] out@[j])@ == m.entries@[j].0@,
        decreases n - i,
    {
        out.push(m.entries[i].0.clone());
        i += 1;
    }
    assert(text::texts(out@) =~= keys_of(collections::link_pairs(*m)));
    out
}

/// What a solution is asked for on behalf of a project.
pub fn solve_request(
    manifest: &ComposerJson,
    options: &ResolveOptions,
    root_deps: Vec<(PackageId, VersionConstraint)>,
    platform: Platform,
) -> (r: SolveRequest)
    ensures
        r.root_deps == root_deps,
        r.prefer_stable == options.prefer_stable,
        r.prefer_lowest == options.prefer_lowest,
        r.minimum_stability == crate::version::stability_of(options.minimum_stability@),
        text::texts(r.root_replace@) == keys_of(manifest@.replace),
        text::texts(r.root_provide@) == keys_of(manifest@.provide),
        manifest::dep_views(r.root_conflicts@) == manifest::package_reqs(manifest@.conflict),
        r.platform == platform,
        r.ignore_platform_reqs == options.ignore_platform_reqs,
        r.ignore_platform_req@ == options.ignore_platform_req@,
{
    SolveRequest {
        root_deps,
        prefer_stable: options.prefer_stable,
        prefer_lowest: options.prefer_lowest,
        minimum_stability: Stability::parse(options.minimum_stability.as_str()),
        root_replace: names_in(&manifest.replace),
        root_provide: names_in(&manifest.provide),
        root_conflicts: repo::package_requirements(&manifest.conflict),
        platform,
        ignore_platform_reqs: options.ignore_platform_reqs,
        ignore_platform_req: collections::copy_texts(&options.ignore_platform_req),
    }
}

// ---------------------------------------------------------------------------
// Production and development

/// A package stands for another one.
pub open spec fn stands_for(l: lock::LockedView, name: Seq<char>) -> bool {
    collections::lookup(l.provide, name) is Some || collections::lookup(l.replace, name) is Some
}

/// The selected packages that stand for one.
pub open spec fn standing_for(sel: solution::LockedMap, name: Seq<char>) -> Seq<Seq<char>>
    decreases sel.len(),
{
    if sel.len() == 0 {
        Seq::empty()
    } else {
        let rest = standing_for(sel.drop_last(), name);
        if stands_for(sel.last().1, name) {
            rest.push(sel.last().0)
        } else {
            rest
        }
    }
}

/// The packages that a project requires, with those that stand for them.
pub open spec fn production_seeds(sel: solution::LockedMap, roots: Seq<Seq<char>>) -> Seq<Seq<char>>
    decreases roots.len(),
{
    if roots.len() == 0 {
        Seq::empty()
    } else {
        production_seeds(sel, roots.drop_last()).push(roots.last()) + standing_for(
            sel,
            roots.last(),
        )
    }
}

/// A package is needed in production.
pub open spec fn in_production(
    sel: solution::LockedMap,
    roots: Seq<Seq<char>>,
    x: Seq<char>,
) -> bool {
    reach::reachable(
        requirement_edges(sel, false),
        Set::empty(),
        production_seeds(sel, roots),
        x,
    )
}

/// The packages of a list that are needed in production, or those that are not.
pub open spec fn production_part(
    sel: solution::LockedMap,
    roots: Seq<Seq<char>>,
    list: solution::LockedMap,
    wanted: bool,
) -> Seq<lock::LockedView>
    decreases list.len(),
{
    if list.len() == 0 {
        Seq::empty()
    } else {
        let rest = production_part(sel, roots, list.drop_last(), wanted);
        if in_production(sel, roots, list.last().0) == wanted {
            rest.push(list.last().1)
        } else {
            rest
        }
    }
}

/// The packages of a list whose names none of the others has.
pub open spec fn not_named(v: Seq<lock::LockedView>, others: Seq<lock::LockedView>) -> Seq<
    lock::LockedView,
>
    decreases v.len(),
{
    if v.len() == 0 {
        v
    } else {
        let rest = not_named(v.drop_last(), others);
        if lock::first_named(others, v.last().name) is Some {
            rest
        } else {
            rest.push(v.last())
        }
    }
}

fn seeds_of(
    sel: &StrMap<LockedPackage>,
    roots: &Vec<(PackageId, VersionConstraint)>,
) -> (r: Vec<String>)
    ensures
        text::texts(r@) == production_seeds(
            index::locked_map_view(*sel),
            keys_of(manifest::dep_views(roots@)),
        ),
{
    let ghost s = index::locked_map_view(*sel);
    let ghost all = keys_of(manifest::dep_views(roots@));
    let mut out: Vec<String> = Vec::new();
    let n: usize = roots.len();
    let mut i: usize = 0;
    assert(text::texts(out@) =~= Seq::empty());
    while i < n
        invariant
            i <= n,
            n == roots@.len(),
            s == index::locked_map_view(*sel),
            all == keys_of(manifest::dep_views(roots@)),
            text::texts(out@) == production_seeds(s, all.take(i as int)),
        decreases n - i,
    {
        let name = roots[i].0.as_str();
        proof {
            assert(all.take(i + 1).drop_last() =~= all.take(i as int));
            assert(all.take(i + 1).last() == name@);
        }
        let ghost before = text::texts(out@);
        let copy = String::from_str(name);
        out.push(copy);
        assert(text::texts(out@) =~= before.push(name@));
        let ghost base = text::texts(out@);
        let k: usize = sel.entries.len();
        let mut j: usize = 0;
        assert(base + Seq::<Seq<char>>::empty() =~= base);
        while j < k
            invariant
                j <= k,
                k == sel.entries@.len(),
                s == index::locked_map_view(*sel),
                text::texts(out@) == base + standing_for(s.take(j as int), name@),
            decreases k - j,
        {
            let p = &sel.entries[j].1;
            proof {
                assert(s.take(j + 1).drop_last() =~= s.take(j as int));
                assert(s.take(j + 1).last() == (sel.entries@[j as int].0@, p@));
                collections::lemma_link_lookup(p.provide, name@);
                collections::lemma_link_lookup(p.replace, name@);
            }
            if p.provide.contains_key(name) || p.replace.contains_key(name) {
                let ghost now = text::texts(out@);
                let own = sel.entries[j].0.clone();
                out.push(own);
                assert(text::texts(out@) =~= now.push(own@));
                assert(text::texts(out@) =~= base + standing_for(s.take(j as int), name@).push(
                    own@,
                ));
            }
            j += 1;
        }
        assert(s.take(k as int) =~= s);
        i += 1;
    }
    assert(all.take(n as int) =~= all);
    out
}

fn has_named(v: &Vec<LockedPackage>, name: &str) -> (r: bool)
    ensures
        r == (lock::first_named(lock::locked_views(v@), name@) is Some),
{
    let ghost all = lock::locked_views(v@);
    let n: usize = v.len();
    let mut i: usize = 0;
    assert(all.skip(0) =~= all);
    while i < n
        invariant
            i <= n,
            n == v@.len(),
            all == lock::locked_views(v@),
            lock::first_named(all, name@) == lock::first_named(all.skip(i as int), name@),
        decreases n - i,
    {
        assert(all.skip(i as int)[0] == v@[i as int]@);
        if text::same(v[i].name.as_str(), name) {
            return true;
        }
        assert(all.skip(i as int).skip(1) =~= all.skip(i + 1));
        i += 1;
    }
    false
}

impl Resolution {
    /// The resolution of a selection: the packages that the requirements of the
    /// project lead to, and the others, which are needed for development.
    pub fn split(
        selected: &StrMap<LockedPackage>,
        root_prod: &Vec<(PackageId, VersionConstraint)>,
    ) -> (r: Self)
        ensures
            ({
                let sel = index::locked_map_view(*selected);
                let roots = keys_of(manifest::dep_views(root_prod@));
                let prod = production_part(sel, roots, sel, true);
                &&& lock::locked_views(r.packages@) == prod
                &&& lock::locked_views(r.packages_dev@) == not_named(
                    production_part(sel, roots, sel, false),
                    prod,
                )
            }),
    {
        let ghost sel = index::locked_map_view(*selected);
        let ghost roots = keys_of(manifest::dep_views(root_prod@));
        let seeds = seeds_of(selected, root_prod);
        let edges = edges_of(selected, false);
        let none = StrSet::new();
        let prod_names = reach::closure(&seeds, &edges, &none);
        let mut packages: Vec<LockedPackage> = Vec::new();
        let mut others: Vec<LockedPackage> = Vec::new();
        let n: usize = selected.entries.len();
        let mut i: usize = 0;
        assert(lock::locked_views(packages@) =~= Seq::empty());
        assert(lock::locked_views(others@) =~= Seq::empty());
        while i < n
            invariant
                i <= n,
                n == selected.entries@.len(),
                sel == index::locked_map_view(*selected),
                forall|x: Seq<char>| #[trigger]
                    prod_names@.contains(x) <==> in_production(sel, roots, x),
                lock::locked_views(packages@) == production_part(
                    sel,
                    roots,
                    sel.take(i as int),
                    true,
                ),
                lock::locked_views(others@) == production_part(
                    sel,
                    roots,
                    sel.take(i as int),
                    false,
                ),
            decreases n - i,
        {
            let name = selected.entries[i].0.as_str();
            let p = selected.entries[i].1.copy();
            proof {
                assert(sel.take(i + 1).drop_last() =~= sel.take(i as int));
                assert(sel.take(i + 1).last() == (name@, p@));
            }
            if prod_names.contains(name) {
                let ghost before = packages@;
                packages.push(p);
                assert(lock::locked_views(packages@) =~= lock::locked_views(before).push(p@));
            } else {
                let ghost before = others@;
                others.push(p);
                assert(lock::locked_views(others@) =~= lock::locked_views(before).push(p@));
            }
            i += 1;
        }
        assert(sel.take(n as int) =~= sel);
        let ghost all = lock::locked_views(others@);
        let mut packages_dev: Vec<LockedPackage> = Vec::new();
        let m: usize = others.len();
        let mut j: usize = 0;
        assert(lock::locked_views(packages_dev@) =~= all.take(0));
        while j < m
            invariant
                j <= m,
                m == others@.len(),
                all == lock::locked_views(others@),
                lock::locked_views(packages_dev@) == not_named(
                    all.take(j as int),
                    lock::locked_views(packages@),
                ),
            decreases m - j,
        {
            proof {
                assert(all.take(j + 1).drop_last() =~= all.take(j as int));
                assert(all.take(j + 1).last() == others@[j as int]@);
            }
            if !has_named(&packages, others[j].name.as_str()) {
                let ghost before = packages_dev@;
                let p = others[j].copy();
                packages_dev.push(p);
                assert(lock::locked_views(packages_dev@) =~= lock::locked_views(before).push(p@));
            }
            j += 1;
        }
        assert(all.take(m as int) =~= all);
        Resolution { packages, packages_dev }
    }

    /// All packages, those for development last.
    pub fn all_packages(&self) -> (r: Vec<&LockedPackage>)
        ensures
            lock::ref_views(r@) == lock::locked_views(self.packages@) + lock::locked_views(
                self.packages_dev@,
            ),
    {
        let mut out: Vec<&LockedPackage> = Vec::new();
        let n: usize = self.packages.len();
        let mut i: usize = 0;
        while i < n
            invariant
                i <= n,
                n == self.packages@.len(),
                out@.len() == i,
                forall|j: int| 0 <= j < i ==> (#[trigger] out@[j])@ == self.packages@[j]@,
            decreases n - i,
        {
            out.push(&self.packages[i]);
            i += 1;
        }
        let m: usize = self.packages_dev.len();
        let mut k: usize = 0;
        while k < m
            invariant
                k <= m,
                m == self.packages_dev@.len(),
                n == self.packages@.len(),
                out@.len() == n + k,
                forall|j: int| 0 <= j < n ==> (#[trigger] out@[j])@ == self.packages@[j]@,
                forall|j: int|
                    n <= j < n + k ==> (#[trigger] out@[j])@ == self.packages_dev@[j - n]@,
            decreases m - k,
        {
            out.push(&self.packages_dev[k]);
            k += 1;
        }
        assert(lock::ref_views(out@) =~= lock::locked_views(self.packages@) + lock::locked_views(
            self.packages_dev@,
        ));
        out
    }
}

/// Every selected package is needed in production or counts for development.
pub proof fn law_split_loses_nothing(
    sel: solution::LockedMap,
    roots: Seq<Seq<char>>,
    list: solution::LockedMap,
)
    ensures
        production_part(sel, roots, list, true).len() + production_part(
            sel,
            roots,
            list,
            false,
        ).len() == list.len(),
    decreases list.len(),
{
    if list.len() > 0 {
        law_split_loses_nothing(sel, roots, list.drop_last());
    }
}

/// What a package that is needed in production requires is needed in
/// production.
pub proof fn law_production_is_closed(
    sel: solution::LockedMap,
    roots: Seq<Seq<char>>,
    a: Seq<char>,
    b: Seq<char>,
)
    requires
        in_production(sel, roots, a),
        collections::lookup(sel, a) matches Some(l) && package_names(l.require).contains(b),
    ensures
        in_production(sel, roots, b),
{
    let edges = requirement_edges(sel, false);
    let l = collections::lookup(sel, a)->0;
    collections::lemma_with_values(sel, a, l, |l: lock::LockedView| dep_names(l, false));
    reach::law_reach_goes_on(edges, Set::empty(), production_seeds(sel, roots), a, b);
}

// ---------------------------------------------------------------------------
// The lock file

/// The requirements of a list on the platform.
pub open spec fn platform_reqs(reqs: Seq<(Seq<char>, Seq<char>)>) -> Seq<(Seq<char>, Seq<char>)>
    decreases reqs.len(),
{
    if reqs.len() == 0 {
        Seq::empty()
    } else {
        let rest = platform_reqs(reqs.drop_last());
        if package::names_platform(reqs.last().0) {
            collections::inserted(rest, reqs.last().0, reqs.last().1)
        } else {
            rest
        }
    }
}

/// The requirements of a map on the platform.
pub fn platform_links(reqs: &StrMap<String>) -> (r: StrMap<String>)
    ensures
        collections::link_pairs(r) == platform_reqs(collections::link_pairs(*reqs)),
{
    let ghost all = collections::link_pairs(*reqs);
    let mut out: StrMap<String> = StrMap::new();
    let n: usize = reqs.entries.len();
    let mut i: usize = 0;
    assert(collections::link_pairs(out) =~= Seq::empty());
    while i < n
        invariant
            i <= n,
            n == reqs.entries@.len(),
            all == collections::link_pairs(*reqs),
            collections::link_pairs(out) == platform_reqs(all.take(i as int)),
        decreases n - i,
    {
        let name = reqs.entries[i].0.clone();
        let c = reqs.entries[i].1.clone();
        proof {
            assert(all.take(i + 1).drop_last() =~= all.take(i as int));
            assert(all.take(i + 1).last() == (name@, c@));
            collections::lemma_with_values(out@, name@, c, |s: String| s@);
        }
        if package::is_platform_req(name.as_str()) {
            out.insert(name, c);
        }
        i += 1;
    }
    assert(all.take(n as int) =~= all);
    out
}

/// The lock file of a resolution.
pub open spec fn lock_of(
    r: Resolution,
    m: ComposerJson,
    content_hash: Seq<char>,
) -> lock::LockView {
    lock::LockView {
        packages: lock::locked_views(r.packages@),
        packages_dev: lock::locked_views(r.packages_dev@),
        minimum_stability: match text::opt_text(m.minimum_stability) {
            Some(s) => s,
            None => "stable"@,
        },
        prefer_stable: m.prefer_stable == Some(true),
        content_hash,
        platform: platform_reqs(collections::link_pairs(m.require)),
        platform_dev: platform_reqs(collections::link_pairs(m.require_dev)),
        ..lock::empty_lock()
    }
}

impl Resolution {
    /// The lock file of the resolution, for the manifest whose bytes are given.
    pub fn to_lock(&self, manifest: &ComposerJson, composer_json_bytes: &[u8]) -> (r: Result<
        ComposerLock,
        Error,
    >)
        ensures
            match json::json_read(composer_json_bytes@) {
                Ok(json::JsonView::Object(m)) => r is Ok && r->Ok_0@ == lock_of(
                    *self,
                    *manifest,
                    content_hash::hash_of(m),
                ),
                Ok(_) => r matches Err(Error::Manifest(t)) && t@
                    == "composer.json top level must be a JSON object"@,
                Err(fault) => r matches Err(Error::Json(t)) && t@ == fault,
            },
    {
        let content_hash = lock::content_hash_from_composer_json(composer_json_bytes)?;
        let mut out = ComposerLock::default();
        out.packages = lock::copy_locked(&self.packages);
        out.packages_dev = lock::copy_locked(&self.packages_dev);
        out.minimum_stability = String::from_str(manifest.minimum_stability());
        out.prefer_stable = manifest.prefer_stable();
        out.content_hash = content_hash;
        out.platform = platform_links(&manifest.require);
        out.platform_dev = platform_links(&manifest.require_dev);
        Ok(out)
    }
}

// ---------------------------------------------------------------------------
// Laws on names and parts

/// The packages that a list of requirements names are those of its names that
/// are no platform packages.
pub proof fn law_package_names(reqs: Seq<(Seq<char>, Seq<char>)>, x: Seq<char>)
    ensures
        package_names(reqs).contains(x) <==> package::names_package(x) && exists|i: int|
            0 <= i < reqs.len() && (#[trigger] reqs[i]).0 == x,
    decreases reqs.len(),
{
    if reqs.len() > 0 {
        let front = reqs.drop_last();
        law_package_names(front, x);
        let rest = package_names(front);
        let all = package_names(reqs);
        assert(reqs[reqs.len() - 1] == reqs.last());
        if rest.contains(x) {
            let k = choose|k: int| 0 <= k < rest.len() && rest[k] == x;
            assert(all[k] == x);
            let i = choose|i: int| 0 <= i < front.len() && (#[trigger] front[i]).0 == x;
            assert(reqs[i] == front[i]);
        }
        if package::names_package(x) && exists|i: int|
            0 <= i < reqs.len() && (#[trigger] reqs[i]).0 == x {
            let i = choose|i: int| 0 <= i < reqs.len() && (#[trigger] reqs[i]).0 == x;
            if i < front.len() {
                assert(front[i] == reqs[i]);
            } else {
                assert(all[rest.len() as int] == x);
            }
        }
        if all.contains(x) && !rest.contains(x) {
            let k = choose|k: int| 0 <= k < all.len() && all[k] == x;
            if k < rest.len() {
                assert(rest[k] == x);
            }
        }
    }
}

/// The packages that the project itself requires: those of `require`, and in
/// development those of `require-dev`.
pub proof fn law_root_names(m: manifest::ManifestView, with_dev: bool, x: Seq<char>)
    ensures
        root_names(m, with_dev).contains(x) <==> package::names_package(x) && ((exists|i: int|
            0 <= i < m.require.len() && (#[trigger] m.require[i]).0 == x) || (with_dev && exists|
            i: int,
        |
            0 <= i < m.require_dev.len() && (#[trigger] m.require_dev[i]).0 == x)),
{
    law_package_names(m.require, x);
    law_package_names(m.require_dev, x);
}

/// An update of listed packages alone changes nothing else. With all dependencies
/// whatever a package that may change requires may change too; with dependencies
/// also, unless the project itself requires it and it was not listed.
pub proof fn law_what_an_update_changes(
    targets: Seq<Seq<char>>,
    locked: Seq<lock::LockedView>,
    with_dev: bool,
    roots: Set<Seq<char>>,
    x: Seq<char>,
    l: lock::LockedView,
    d: Seq<char>,
)
    requires
        collections::lookup(by_name(locked), x) == Some(l),
        package_names(l.require).contains(d) || (with_dev && package_names(l.require_dev).contains(
            d,
        )),
    ensures
        may_change(targets, locked, with_dev, UpdateDeps::OnlyListed, roots, x)
            <==> targets.contains(x),
        may_change(targets, locked, with_dev, UpdateDeps::WithAllDependencies, roots, x)
            ==> may_change(targets, locked, with_dev, UpdateDeps::WithAllDependencies, roots, d),
        may_change(targets, locked, with_dev, UpdateDeps::WithDependencies, roots, x) && !(
        roots.contains(d) && !targets.contains(d)) ==> may_change(
            targets,
            locked,
            with_dev,
            UpdateDeps::WithDependencies,
            roots,
            d,
        ),
{
    let map = by_name(locked);
    let edges = requirement_edges(map, with_dev);
    lemma_edges_lookup(map, with_dev, x);
    let names = dep_names(l, with_dev);
    assert(names.contains(d)) by {
        let a = package_names(l.require);
        let b = package_names(l.require_dev);
        if a.contains(d) {
            let k = choose|k: int| 0 <= k < a.len() && a[k] == d;
            assert(names[k] == d);
        } else {
            let k = choose|k: int| 0 <= k < b.len() && b[k] == d;
            assert(names[a.len() + k] == d);
        }
    }
    let all = kept_back(UpdateDeps::WithAllDependencies, roots, targets);
    let some = kept_back(UpdateDeps::WithDependencies, roots, targets);
    if reach::reachable(edges, all, targets, x) {
        reach::law_reach_goes_on(edges, all, targets, x, d);
    }
    if reach::reachable(edges, some, targets, x) && !(roots.contains(d) && !targets.contains(d)) {
        reach::law_reach_goes_on(edges, some, targets, x, d);
    }
}

proof fn lemma_edges_lookup(map: solution::LockedMap, with_dev: bool, x: Seq<char>)
    ensures
        collections::lookup(requirement_edges(map, with_dev), x) == match collections::lookup(
            map,
            x,
        ) {
            Some(l) => Some(dep_names(l, with_dev)),
            None => None,
        },
    decreases map.len(),
{
    let e = requirement_edges(map, with_dev);
    if map.len() > 0 {
        assert(e[0] == (map[0].0, dep_names(map[0].1, with_dev)));
        lemma_edges_lookup(map.skip(1), with_dev, x);
        assert(e.skip(1) =~= requirement_edges(map.skip(1), with_dev));
    }
}

/// Only what is listed, or required by something that may change, may change.
pub proof fn law_no_other_package_changes(
    targets: Seq<Seq<char>>,
    locked: Seq<lock::LockedView>,
    with_dev: bool,
    mode: UpdateDeps,
    roots: Set<Seq<char>>,
    x: Seq<char>,
)
    requires
        may_change(targets, locked, with_dev, mode, roots, x),
        !targets.contains(x),
    ensures
        mode != UpdateDeps::OnlyListed,
        exists|y: Seq<char>| #[trigger]
            may_change(targets, locked, with_dev, mode, roots, y) && (collections::lookup(
                by_name(locked),
                y,
            ) matches Some(l) && (package_names(l.require).contains(x) || (with_dev
                && package_names(l.require_dev).contains(x)))),
{
    let map = by_name(locked);
    let edges = requirement_edges(map, with_dev);
    let blocked = kept_back(mode, roots, targets);
    let way = choose|way: Seq<Seq<char>>| #[trigger]
        reach::is_way(edges, blocked, targets, way) && way.last() == x;
    assert(way.len() > 1);
    let front = way.drop_last();
    let y = front.last();
    assert forall|i: int| 0 <= i < front.len() - 1 implies reach::leads(
        edges,
        blocked,
        #[trigger] front[i],
        front[i + 1],
    ) by {
        assert(reach::leads(edges, blocked, way[i], way[i + 1]));
    }
    assert(front[0] == way[0]);
    assert(reach::is_way(edges, blocked, targets, front));
    assert(reach::leads(edges, blocked, way[way.len() - 2], way[way.len() - 2 + 1]));
    lemma_edges_lookup(map, with_dev, y);
    let l = collections::lookup(map, y)->0;
    let names = dep_names(l, with_dev);
    let a = package_names(l.require);
    let k = choose|k: int| 0 <= k < names.len() && names[k] == x;
    if k < a.len() {
        assert(a[k] == x);
    } else {
        assert(package_names(l.require_dev)[k - a.len()] == x);
    }
    assert(may_change(targets, locked, with_dev, mode, roots, y));
}

proof fn lemma_part_holds(
    sel: solution::LockedMap,
    roots: Seq<Seq<char>>,
    list: solution::LockedMap,
    wanted: bool,
    l: lock::LockedView,
)
    ensures
        production_part(sel, roots, list, wanted).contains(l) <==> exists|i: int|
            0 <= i < list.len() && (#[trigger] list[i]).1 == l && in_production(
                sel,
                roots,
                list[i].0,
            ) == wanted,
    decreases list.len(),
{
    if list.len() > 0 {
        let front = list.drop_last();
        lemma_part_holds(sel, roots, front, wanted, l);
        let rest = production_part(sel, roots, front, wanted);
        let all = production_part(sel, roots, list, wanted);
        assert(list[list.len() - 1] == list.last());
        if rest.contains(l) {
            let k = choose|k: int| 0 <= k < rest.len() && rest[k] == l;
            assert(all[k] == l);
            let i = choose|i: int|
                0 <= i < front.len() && (#[trigger] front[i]).1 == l && in_production(
                    sel,
                    roots,
                    front[i].0,
                ) == wanted;
            assert(list[i] == front[i]);
        }
        if exists|i: int|
            0 <= i < list.len() && (#[trigger] list[i]).1 == l && in_production(
                sel,
                roots,
                list[i].0,
            ) == wanted {
            let i = choose|i: int|
                0 <= i < list.len() && (#[trigger] list[i]).1 == l && in_production(
                    sel,
                    roots,
                    list[i].0,
                ) == wanted;
            if i < front.len() {
                assert(front[i] == list[i]);
            } else {
                assert(all[rest.len() as int] == l);
            }
        }
        if all.contains(l) && !rest.contains(l) {
            let k = choose|k: int| 0 <= k < all.len() && all[k] == l;
            if k < rest.len() {
                assert(rest[k] == l);
            }
        }
    }
}

/// A selected package is locked for production if and only if it is needed there:
/// the project requires it, it stands for one that the project requires, or a
/// package that is needed requires it. The others are locked for development.
pub proof fn law_production_and_development(
    sel: solution::LockedMap,
    roots: Seq<Seq<char>>,
    i: int,
    x: Seq<char>,
)
    requires
        0 <= i < sel.len(),
    ensures
        in_production(sel, roots, sel[i].0) ==> production_part(sel, roots, sel, true).contains(
            sel[i].1,
        ),
        !in_production(sel, roots, sel[i].0) ==> production_part(sel, roots, sel, false).contains(
            sel[i].1,
        ),
        roots.contains(x) ==> in_production(sel, roots, x),
        roots.contains(x) && (collections::lookup(sel[i].1.provide, x) is Some
            || collections::lookup(sel[i].1.replace, x) is Some) ==> in_production(
            sel,
            roots,
            sel[i].0,
        ),
{
    lemma_part_holds(sel, roots, sel, true, sel[i].1);
    lemma_part_holds(sel, roots, sel, false, sel[i].1);
    let seeds = production_seeds(sel, roots);
    if roots.contains(x) {
        lemma_seeds_hold(sel, roots, x, i);
        reach::law_seeds_are_reached(
            requirement_edges(sel, false),
            Set::empty(),
            seeds,
            x,
        );
        if stands_for(sel[i].1, x) {
            reach::law_seeds_are_reached(
                requirement_edges(sel, false),
                Set::empty(),
                seeds,
                sel[i].0,
            );
        }
    }
}

proof fn lemma_standing_holds(sel: solution::LockedMap, name: Seq<char>, i: int)
    requires
        0 <= i < sel.len(),
        stands_for(sel[i].1, name),
    ensures
        standing_for(sel, name).contains(sel[i].0),
    decreases sel.len(),
{
    let front = sel.drop_last();
    let rest = standing_for(front, name);
    let all = standing_for(sel, name);
    if i < front.len() {
        assert(front[i] == sel[i]);
        lemma_standing_holds(front, name, i);
        let k = choose|k: int| 0 <= k < rest.len() && rest[k] == sel[i].0;
        assert(all[k] == sel[i].0);
    } else {
        assert(all[rest.len() as int] == sel[i].0);
    }
}

proof fn lemma_seeds_hold(
    sel: solution::LockedMap,
    roots: Seq<Seq<char>>,
    x: Seq<char>,
    i: int,
)
    requires
        roots.contains(x),
        0 <= i < sel.len(),
    ensures
        production_seeds(sel, roots).contains(x),
        stands_for(sel[i].1, x) ==> production_seeds(sel, roots).contains(sel[i].0),
    decreases roots.len(),
{
    let front = roots.drop_last();
    let head = production_seeds(sel, front);
    let tail = standing_for(sel, roots.last());
    let all = production_seeds(sel, roots);
    let r = choose|r: int| 0 <= r < roots.len() && roots[r] == x;
    if r < front.len() {
        assert(front[r] == x);
        lemma_seeds_hold(sel, front, x, i);
        let k = choose|k: int| 0 <= k < head.len() && head[k] == x;
        assert(all[k] == x);
        if stands_for(sel[i].1, x) {
            let k = choose|k: int| 0 <= k < head.len() && head[k] == sel[i].0;
            assert(all[k] == sel[i].0);
        }
    } else {
        assert(all[head.len() as int] == x);
        if stands_for(sel[i].1, x) {
            lemma_standing_holds(sel, x, i);
            let k = choose|k: int| 0 <= k < tail.len() && tail[k] == sel[i].0;
            assert(all[head.len() + 1 + k] == sel[i].0);
        }
    }
}

/// What a lock file says besides its packages: the content hash, the stability
/// that the project asks for, which is `stable` if it asks for none, whether it
/// prefers stable versions, and what it requires of the platform.
pub proof fn law_what_is_locked(
    r: Resolution,
    m: ComposerJson,
    content_hash: Seq<char>,
    k: Seq<char>,
)
    requires
        collections::ordered(collections::link_pairs(m.require)),
        collections::ordered(collections::link_pairs(m.require_dev)),
    ensures
        ({
            let l = lock_of(r, m, content_hash);
            &&& l.content_hash == content_hash
            &&& l.packages == lock::locked_views(r.packages@)
            &&& l.packages_dev == lock::locked_views(r.packages_dev@)
            &&& l.minimum_stability == match m.minimum_stability {
                Some(s) => s@,
                None => "stable"@,
            }
            &&& l.prefer_stable <==> m.prefer_stable == Some(true)
            &&& collections::lookup(l.platform, k) == if package::names_platform(k) {
                collections::lookup(collections::link_pairs(m.require), k)
            } else {
                None
            }
            &&& collections::lookup(l.platform_dev, k) == if package::names_platform(k) {
                collections::lookup(collections::link_pairs(m.require_dev), k)
            } else {
                None
            }
        }),
{
    lemma_platform_lookup(collections::link_pairs(m.require), k);
    lemma_platform_lookup(collections::link_pairs(m.require_dev), k);
}

proof fn lemma_platform_lookup(reqs: Seq<(Seq<char>, Seq<char>)>, k: Seq<char>)
    requires
        collections::ordered(reqs),
    ensures
        collections::lookup(platform_reqs(reqs), k) == if package::names_platform(k) {
            collections::lookup(reqs, k)
        } else {
            None
        },
    decreases reqs.len(),
{
    if reqs.len() > 0 {
        let front = reqs.drop_last();
        assert(collections::ordered(front)) by {
            assert forall|i: int, j: int| 0 <= i < j < front.len() implies text::text_lt(
                #[trigger] front[i].0,
                #[trigger] front[j].0,
            ) by {
                assert(text::text_lt(reqs[i].0, reqs[j].0));
            }
        }
        lemma_platform_lookup(front, k);
        assert(reqs =~= front.push(reqs.last()));
        collections::lemma_lookup_push(front, reqs.last(), k);
        if package::names_platform(reqs.last().0) {
            collections::law_lookup_inserted(
                platform_reqs(front),
                reqs.last().0,
                reqs.last().1,
                k,
            );
        }
        if k == reqs.last().0 && collections::lookup(front, k) is Some {
            collections::lemma_lookup_found(front, k);
            let i = choose|i: int| 0 <= i < front.len() && (#[trigger] front[i]).0 == k;
            assert(text::text_lt(reqs[i].0, reqs[reqs.len() - 1].0));
            text::lemma_text_lt_total(k, k);
        }
    }
}

proof fn lemma_kept_sorted(s: Seq<lock::LockedView>, p: lock::LockedView, x: lock::LockedView)
    requires
        forall|i: int, j: int|
            0 <= i < j < s.len() ==> !text::text_lt((#[trigger] s[j]).name, (#[trigger] s[i]).name),
    ensures
        placed_by_name(s, p).len() == s.len() + 1,
        placed_by_name(s, p).contains(x) <==> s.contains(x) || x == p,
        forall|i: int, j: int|
            0 <= i < j < placed_by_name(s, p).len() ==> !text::text_lt(
                (#[trigger] placed_by_name(s, p)[j]).name,
                (#[trigger] placed_by_name(s, p)[i]).name,
            ),
        forall|i: int|
            0 <= i < placed_by_name(s, p).len() ==> (#[trigger] placed_by_name(s, p)[i]) == p
                || s.contains(placed_by_name(s, p)[i]),
    decreases s.len(),
{
    let r = placed_by_name(s, p);
    if s.len() == 0 {
        assert(r[0] == p);
    } else if text::text_lt(p.name, s.last().name) {
        let front = s.drop_last();
        lemma_kept_sorted(front, p, x);
        let q = placed_by_name(front, p);
        assert(r == q.push(s.last()));
        assert(s[s.len() - 1] == s.last());
        assert forall|i: int| 0 <= i < r.len() implies (#[trigger] r[i]) == p || s.contains(r[i]) by {
            if i < q.len() {
                assert(r[i] == q[i]);
                if q[i] != p {
                    let k = choose|k: int| 0 <= k < front.len() && front[k] == q[i];
                    assert(s[k] == q[i]);
                }
            }
        }
        assert forall|i: int, j: int| 0 <= i < j < r.len() implies !text::text_lt(
            (#[trigger] r[j]).name,
            (#[trigger] r[i]).name,
        ) by {
            assert(r[i] == q[i]);
            if j < q.len() {
                assert(r[j] == q[j]);
            } else if q[i] == p {
                text::lemma_text_lt_total(p.name, s.last().name);
            } else {
                let k = choose|k: int| 0 <= k < front.len() && front[k] == q[i];
                assert(s[k] == q[i]);
            }
        }
        if q.contains(x) {
            let k = choose|k: int| 0 <= k < q.len() && q[k] == x;
            assert(r[k] == x);
        }
        if s.contains(x) {
            let k = choose|k: int| 0 <= k < s.len() && s[k] == x;
            if k < front.len() {
                assert(front[k] == x);
            } else {
                assert(r[q.len() as int] == x);
            }
        }
        if r.contains(x) {
            let k = choose|k: int| 0 <= k < r.len() && r[k] == x;
            assert(r[k] == p || s.contains(r[k]));
        }
    } else {
        assert forall|i: int, j: int| 0 <= i < j < r.len() implies !text::text_lt(
            (#[trigger] r[j]).name,
            (#[trigger] r[i]).name,
        ) by {
            if j == s.len() {
                assert(r[i] == s[i]);
                if i < s.len() - 1 {
                    assert(s[s.len() - 1] == s.last());
                    lemma_not_below(p.name, s.last().name, s[i].name);
                }
            } else {
                assert(r[i] == s[i] && r[j] == s[j]);
            }
        }
        assert(r[s.len() as int] == p);
        assert forall|i: int| 0 <= i < r.len() implies (#[trigger] r[i]) == p || s.contains(r[i]) by {
            if i < s.len() {
                assert(r[i] == s[i]);
            }
        }
        if s.contains(x) {
            let k = choose|k: int| 0 <= k < s.len() && s[k] == x;
            assert(r[k] == x);
        }
        if r.contains(x) {
            let k = choose|k: int| 0 <= k < r.len() && r[k] == x;
            assert(r[k] == p || s.contains(r[k]));
        }
    }
}

proof fn lemma_not_below(a: Seq<char>, b: Seq<char>, c: Seq<char>)
    requires
        !text::text_lt(a, b),
        !text::text_lt(b, c),
    ensures
        !text::text_lt(a, c),
{
    text::lemma_text_lt_total(a, b);
    text::lemma_text_lt_total(b, c);
    text::lemma_text_lt_total(a, c);
    if text::text_lt(a, c) {
        if a != b {
            text::lemma_text_lt_transitive(b, a, c);
        }
    }
}

/// Sorted packages rise by their names, and none is lost or added.
pub proof fn law_packages_are_sorted(v: Seq<lock::LockedView>, x: lock::LockedView)
    ensures
        sorted_by_name(v).len() == v.len(),
        sorted_by_name(v).contains(x) <==> v.contains(x),
        forall|i: int, j: int|
            0 <= i < j < v.len() ==> !text::text_lt(
                (#[trigger] sorted_by_name(v)[j]).name,
                (#[trigger] sorted_by_name(v)[i]).name,
            ),
    decreases v.len(),
{
    if v.len() > 0 {
        let front = v.drop_last();
        law_packages_are_sorted(front, x);
        lemma_kept_sorted(sorted_by_name(front), v.last(), x);
        assert(v[v.len() - 1] == v.last());
        if front.contains(x) {
            let k = choose|k: int| 0 <= k < front.len() && front[k] == x;
            assert(v[k] == x);
        }
        if v.contains(x) {
            let k = choose|k: int| 0 <= k < v.len() && v[k] == x;
            if k < front.len() {
                assert(front[k] == x);
            }
        }
    }
}

/// The requirements on the platform are those whose names are of the platform, the
/// later of two with one name.
pub proof fn law_requirements_on_the_platform(reqs: Seq<(Seq<char>, Seq<char>)>, i: int, k: Seq<char>)
    ensures
        (0 <= i < reqs.len() && package::names_platform(reqs[i].0) && forall|q: int|
            i < q < reqs.len() ==> (#[trigger] reqs[q]).0 != reqs[i].0) ==> collections::lookup(
            platform_reqs(reqs),
            reqs[i].0,
        ) == Some(reqs[i].1),
        (!package::names_platform(k) || forall|q: int|
            0 <= q < reqs.len() ==> (#[trigger] reqs[q]).0 != k) ==> collections::lookup(
            platform_reqs(reqs),
            k,
        ) is None,
    decreases reqs.len(),
{
    if reqs.len() > 0 {
        let front = reqs.drop_last();
        let e = reqs.last();
        law_requirements_on_the_platform(front, i, k);
        collections::law_lookup_inserted(platform_reqs(front), e.0, e.1, reqs[i].0);
        collections::law_lookup_inserted(platform_reqs(front), e.0, e.1, k);
        assert(reqs[reqs.len() - 1] == e);
        assert forall|q: int| 0 <= q < front.len() implies #[trigger] front[q] == reqs[q] by {}
        if 0 <= i < front.len() && forall|q: int|
            i < q < reqs.len() ==> (#[trigger] reqs[q]).0 != reqs[i].0 {
            assert(reqs[reqs.len() - 1].0 != reqs[i].0);
            assert forall|q: int| i < q < front.len() implies (#[trigger] front[q]).0
                != front[i].0 by {
                assert(reqs[q].0 != reqs[i].0);
            }
        }
        if forall|q: int| 0 <= q < reqs.len() ==> (#[trigger] reqs[q]).0 != k {
            assert(reqs[reqs.len() - 1].0 != k);
            assert forall|q: int| 0 <= q < front.len() implies (#[trigger] front[q]).0 != k by {
                assert(reqs[q].0 != k);
            }
        }
    }
}

} // verus!
