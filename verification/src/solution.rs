//! What is made of a solution: the packages that are installed.

use crate::collections;
use crate::collections::StrMap;
use crate::constraint;
use crate::constraint::VersionConstraint;
use crate::error;
use crate::error::Error;
use crate::index;
use crate::index::PackageIndex;
use crate::lock;
use crate::lock::LockedPackage;
use crate::manifest;
use crate::package::PackageId;
use crate::solver;
use crate::text;
use crate::version;
use crate::version::ComposerVersion;
use vstd::prelude::*;

verus! {

/// Locked packages by their names.
pub type LockedMap = Seq<(Seq<char>, lock::LockedView)>;

/// A solution: packages with the versions chosen for them.
pub type SolutionView = Seq<(Seq<char>, version::VersionView)>;

/// What a solution consists of.
pub open spec fn solution_views(v: Seq<(String, ComposerVersion)>) -> SolutionView {
    v.map_values(|e: (String, ComposerVersion)| (e.0@, e.1@))
}

// ---------------------------------------------------------------------------
// The packages of a solution

/// A part of a solution that stands for no package.
pub open spec fn is_helper(name: Seq<char>) -> bool {
    name == solver::root_name() || text::starts(name, solver::conflict_prefix())
}

/// The first of the known versions that is `v`.
pub open spec fn known_version(m: Seq<index::IndexedView>, v: version::VersionView) -> Option<
    index::IndexedView,
>
    decreases m.len(),
{
    if m.len() == 0 {
        None
    } else if m[0].version == v {
        Some(m[0])
    } else {
        known_version(m.skip(1), v)
    }
}

/// The locked package of a chosen version: the one whose key is the text of the
/// version, else the first with that version.
pub open spec fn chosen_entry(
    ix: index::IndexView,
    name: Seq<char>,
    v: version::VersionView,
) -> Option<lock::LockedView> {
    let m = index::entry_of(ix.packages, name);
    match collections::lookup(m, v.raw) {
        Some(e) => Some(e.locked),
        None => match known_version(index::values_of(m), v) {
            Some(e) => Some(e.locked),
            None => None,
        },
    }
}

/// The first part of a solution that is not known.
pub open spec fn first_unknown(ix: index::IndexView, sol: SolutionView) -> Option<
    (Seq<char>, version::VersionView),
>
    decreases sol.len(),
{
    if sol.len() == 0 {
        None
    } else if !is_helper(sol[0].0) && chosen_entry(ix, sol[0].0, sol[0].1) is None {
        Some(sol[0])
    } else {
        first_unknown(ix, sol.skip(1))
    }
}

/// The packages of a solution.
pub open spec fn selection(ix: index::IndexView, sol: SolutionView) -> LockedMap
    decreases sol.len(),
{
    if sol.len() == 0 {
        Seq::empty()
    } else {
        let rest = selection(ix, sol.drop_last());
        let (name, v) = sol.last();
        if is_helper(name) {
            rest
        } else {
            match chosen_entry(ix, name, v) {
                Some(l) => collections::inserted(rest, name, l),
                None => rest,
            }
        }
    }
}

/// What is said of a part of a solution that is not known.
pub open spec fn unknown_text(name: Seq<char>, raw: Seq<char>) -> Seq<char> {
    "solution references unknown "@ + name + "@"@ + raw
}

/// What is said of a version that cannot be read.
pub open spec fn unreadable_text(v: Seq<char>) -> Seq<char> {
    "invalid version: "@ + version::bad_version_text(v)
}

/// What is said of two packages that exclude each other.
pub open spec fn conflict_text(
    name: Seq<char>,
    version: Seq<char>,
    other: Seq<char>,
    other_version: Seq<char>,
    constraint: Seq<char>,
) -> Seq<char> {
    "package "@ + name + "@"@ + version + " conflicts with "@ + other + "@"@ + other_version
        + " (constraint "@ + constraint + ")"@
}

/// What is said of a package that the project excludes.
pub open spec fn root_conflict_text(
    other: Seq<char>,
    other_version: Seq<char>,
    constraint: Seq<char>,
) -> Seq<char> {
    "root project conflicts with "@ + other + "@"@ + other_version + " (constraint "@ + constraint
        + ")"@
}

/// What is wrong with one declaration of a package.
pub open spec fn declared_fault(
    selected: LockedMap,
    name: Seq<char>,
    version: Seq<char>,
    other: Seq<char>,
    constraint: Seq<char>,
) -> Option<Seq<char>> {
    match collections::lookup(selected, other) {
        None => None,
        Some(o) => match version::parsed(o.version) {
            None => Some(unreadable_text(o.version)),
            Some(v) => if constraint::satisfies(constraint, v) {
                Some(conflict_text(name, version, other, o.version, constraint))
            } else {
                None
            },
        },
    }
}

/// What is wrong with the first of the declarations of a package that is wrong.
pub open spec fn package_fault(
    selected: LockedMap,
    name: Seq<char>,
    version: Seq<char>,
    pairs: Seq<(Seq<char>, Seq<char>)>,
) -> Option<Seq<char>>
    decreases pairs.len(),
{
    if pairs.len() == 0 {
        None
    } else {
        match declared_fault(selected, name, version, pairs[0].0, pairs[0].1) {
            Some(t) => Some(t),
            None => package_fault(selected, name, version, pairs.skip(1)),
        }
    }
}

/// What is wrong with the first of the packages of a list.
pub open spec fn conflict_fault(selected: LockedMap, list: LockedMap) -> Option<Seq<char>>
    decreases list.len(),
{
    if list.len() == 0 {
        None
    } else {
        match package_fault(selected, list[0].0, list[0].1.version, list[0].1.conflict) {
            Some(t) => Some(t),
            None => conflict_fault(selected, list.skip(1)),
        }
    }
}

/// What is wrong with the packages in the eyes of the project.
pub open spec fn root_fault(selected: LockedMap, pairs: Seq<(Seq<char>, Seq<char>)>) -> Option<
    Seq<char>,
>
    decreases pairs.len(),
{
    if pairs.len() == 0 {
        None
    } else {
        let (other, c) = pairs[0];
        match collections::lookup(selected, other) {
            None => root_fault(selected, pairs.skip(1)),
            Some(o) => match version::parsed(o.version) {
                None => Some(unreadable_text(o.version)),
                Some(v) => if constraint::satisfies(c, v) {
                    Some(root_conflict_text(other, o.version, c))
                } else {
                    root_fault(selected, pairs.skip(1))
                },
            },
        }
    }
}

fn find_known(index: &PackageIndex, name: &str, version: &ComposerVersion) -> (r: Option<
    LockedPackage,
>)
    ensures
        match r {
            Some(l) => chosen_entry(index@, name@, version@) == Some(l@),
            None => chosen_entry(index@, name@, version@) is None,
        },
{
    if let Some(e) = index.get(name, version.as_str()) {
        return Some(e.locked.copy());
    }
    let versions = index.all_versions(name);
    let ghost all = index::indexed_views(versions@);
    let n: usize = versions.len();
    let mut i: usize = 0;
    assert(all.skip(0) =~= all);
    while i < n
        invariant
            i <= n,
            n == versions@.len(),
            all == index::indexed_views(versions@),
            all == index::values_of(index::entry_of(index@.packages, name@)),
            collections::lookup(index::entry_of(index@.packages, name@), version@.raw) is None,
            known_version(all, version@) == known_version(all.skip(i as int), version@),
        decreases n - i,
    {
        assert(all.skip(i as int)[0] == versions@[i as int]@);
        if versions[i].version.same(version) {
            return Some(versions[i].locked.copy());
        }
        assert(all.skip(i as int).skip(1) =~= all.skip(i + 1));
        i += 1;
    }
    None
}

/// The packages of a solution, or the part of it that is not known.
pub fn packages_of_solution(
    index: &PackageIndex,
    solution: &Vec<(String, ComposerVersion)>,
) -> (r: Result<StrMap<LockedPackage>, Error>)
    ensures
        match first_unknown(index@, solution_views(solution@)) {
            Some((name, v)) => r matches Err(Error::Resolve(t)) && t@ == unknown_text(name, v.raw),
            None => r is Ok && index::locked_map_view(r->Ok_0) == selection(
                index@,
                solution_views(solution@),
            ),
        },
{
    let ghost all = solution_views(solution@);
    let mut out: StrMap<LockedPackage> = StrMap::new();
    let n: usize = solution.len();
    let mut i: usize = 0;
    assert(all.skip(0) =~= all);
    assert(index::locked_map_view(out) =~= Seq::empty());
    while i < n
        invariant
            i <= n,
            n == solution@.len(),
            all == solution_views(solution@),
            first_unknown(index@, all) == first_unknown(index@, all.skip(i as int)),
            index::locked_map_view(out) == selection(index@, all.take(i as int)),
        decreases n - i,
    {
        let name = solution[i].0.as_str();
        let version = &solution[i].1;
        proof {
            assert(all.skip(i as int)[0] == (name@, version@));
            assert(all.skip(i as int).skip(1) =~= all.skip(i + 1));
            assert(all.take(i + 1).drop_last() =~= all.take(i as int));
            assert(all.take(i + 1).last() == (name@, version@));
        }
        if !text::same(name, "__root__/__root__") && !text::starts_with(
            name,
            "__composer_rs_conflict__/",
        ) {
            match find_known(index, name, version) {
                Some(l) => {
                    proof {
                        collections::lemma_with_values(
                            out@,
                            name@,
                            l,
                            |l: LockedPackage| l@,
                        );
                    }
                    out.insert(String::from_str(name), l);
                },
                None => {
                    let head = text::cat3("solution references unknown ", name, "@");
                    return Err(Error::Resolve(text::cat(head.as_str(), version.as_str())));
                },
            }
        }
        i += 1;
    }
    assert(all.take(n as int) =~= all);
    Ok(out)
}

fn unreadable(v: &str) -> (r: Error)
    requires
        version::parsed(v@) is None,
    ensures
        r matches Error::Resolve(t) && t@ == unreadable_text(v@),
{
    match ComposerVersion::parse(v) {
        Ok(_) => Error::Resolve(String::new()),
        Err(e) => {
            assert(error::error_text(e) =~= unreadable_text(v@));
            Error::Resolve(e.to_text())
        },
    }
}

fn conflict_message(name: &str, version: &str, other: &str, other_version: &str, c: &str) -> (r:
    String)
    ensures
        r@ == conflict_text(name@, version@, other@, other_version@, c@),
{
    let mut out = text::cat3("package ", name, "@");
    out.append(version);
    out.append(" conflicts with ");
    out.append(other);
    out.append("@");
    out.append(other_version);
    out.append(" (constraint ");
    out.append(c);
    out.append(")");
    out
}

fn check_declared(selected: &StrMap<LockedPackage>, name: &str, pkg: &LockedPackage) -> (r: Result<
    (),
    Error,
>)
    ensures
        match package_fault(
            index::locked_map_view(*selected),
            name@,
            pkg@.version,
            pkg@.conflict,
        ) {
            None => r is Ok,
            Some(m) => r matches Err(Error::Resolve(t)) && t@ == m,
        },
{
    let pairs = &pkg.conflict;
    let ghost sel = index::locked_map_view(*selected);
    let ghost all = collections::link_pairs(*pairs);
    let n: usize = pairs.entries.len();
    let mut i: usize = 0;
    assert(all.skip(0) =~= all);
    while i < n
        invariant
            i <= n,
            n == pairs.entries@.len(),
            all == collections::link_pairs(*pairs),
            all == pkg@.conflict,
            sel == index::locked_map_view(*selected),
            package_fault(sel, name@, pkg@.version, all) == package_fault(
                sel,
                name@,
                pkg@.version,
                all.skip(i as int),
            ),
        decreases n - i,
    {
        let other_name = pairs.entries[i].0.as_str();
        let c = pairs.entries[i].1.as_str();
        proof {
            assert(all.skip(i as int)[0] == (other_name@, c@));
            assert(all.skip(i as int).skip(1) =~= all.skip(i + 1));
            collections::lemma_with_values(
                selected@,
                other_name@,
                arbitrary(),
                |l: LockedPackage| l@,
            );
        }
        if let Some(other) = selected.get(other_name) {
            match ComposerVersion::parse(other.version.as_str()) {
                Ok(v) => {
                    if VersionConstraint::new(c).matches(&v) {
                        return Err(
                            Error::Resolve(
                                conflict_message(
                                    name,
                                    pkg.version.as_str(),
                                    other_name,
                                    other.version.as_str(),
                                    c,
                                ),
                            ),
                        );
                    }
                },
                Err(_) => {
                    return Err(unreadable(other.version.as_str()));
                },
            }
        }
        i += 1;
    }
    Ok(())
}

/// Checks that no package of a selection excludes another one.
pub fn validate_conflicts(selected: &StrMap<LockedPackage>) -> (r: Result<(), Error>)
    ensures
        match conflict_fault(
            index::locked_map_view(*selected),
            index::locked_map_view(*selected),
        ) {
            None => r is Ok,
            Some(m) => r matches Err(Error::Resolve(t)) && t@ == m,
        },
{
    let ghost all = index::locked_map_view(*selected);
    let n: usize = selected.entries.len();
    let mut i: usize = 0;
    assert(all.skip(0) =~= all);
    while i < n
        invariant
            i <= n,
            n == selected.entries@.len(),
            all == index::locked_map_view(*selected),
            conflict_fault(all, all) == conflict_fault(all, all.skip(i as int)),
        decreases n - i,
    {
        proof {
            assert(all.skip(i as int)[0] == (
                selected.entries@[i as int].0@,
                selected.entries@[i as int].1@,
            ));
            assert(all.skip(i as int).skip(1) =~= all.skip(i + 1));
        }
        check_declared(selected, selected.entries[i].0.as_str(), &selected.entries[i].1)?;
        i += 1;
    }
    Ok(())
}

/// Checks that no package of a selection is excluded by the project.
pub fn validate_root_conflicts(
    selected: &StrMap<LockedPackage>,
    root_conflicts: &Vec<(PackageId, VersionConstraint)>,
) -> (r: Result<(), Error>)
    ensures
        match root_fault(
            index::locked_map_view(*selected),
            manifest::dep_views(root_conflicts@),
        ) {
            None => r is Ok,
            Some(m) => r matches Err(Error::Resolve(t)) && t@ == m,
        },
{
    let ghost sel = index::locked_map_view(*selected);
    let ghost all = manifest::dep_views(root_conflicts@);
    let n: usize = root_conflicts.len();
    let mut i: usize = 0;
    assert(all.skip(0) =~= all);
    while i < n
        invariant
            i <= n,
            n == root_conflicts@.len(),
            all == manifest::dep_views(root_conflicts@),
            sel == index::locked_map_view(*selected),
            root_fault(sel, all) == root_fault(sel, all.skip(i as int)),
        decreases n - i,
    {
        let id = &root_conflicts[i].0;
        let c = &root_conflicts[i].1;
        proof {
            assert(all.skip(i as int)[0] == (id@, c@));
            assert(all.skip(i as int).skip(1) =~= all.skip(i + 1));
            collections::lemma_with_values(
                selected@,
                id@,
                arbitrary(),
                |l: LockedPackage| l@,
            );
        }
        if let Some(other) = selected.get(id.as_str()) {
            match ComposerVersion::parse(other.version.as_str()) {
                Ok(v) => {
                    if c.matches(&v) {
                        let mut m = text::cat3("root project conflicts with ", id.as_str(), "@");
                        m.append(other.version.as_str());
                        m.append(" (constraint ");
                        m.append(c.as_str());
                        m.append(")");
                        return Err(Error::Resolve(m));
                    }
                },
                Err(_) => {
                    return Err(unreadable(other.version.as_str()));
                },
            }
        }
        i += 1;
    }
    Ok(())
}

/// What is wrong with the packages of a solution.
pub open spec fn solution_fault(
    ix: index::IndexView,
    sol: SolutionView,
    root_conflicts: Seq<(Seq<char>, Seq<char>)>,
) -> Option<Seq<char>> {
    let sel = selection(ix, sol);
    match first_unknown(ix, sol) {
        Some((name, v)) => Some(unknown_text(name, v.raw)),
        None => match conflict_fault(sel, sel) {
            Some(t) => Some(t),
            None => root_fault(sel, root_conflicts),
        },
    }
}

/// The packages of a solution, checked for conflicts.
pub fn selected_packages(
    index: &PackageIndex,
    solution: &Vec<(String, ComposerVersion)>,
    root_conflicts: &Vec<(PackageId, VersionConstraint)>,
) -> (r: Result<StrMap<LockedPackage>, Error>)
    ensures
        match solution_fault(
            index@,
            solution_views(solution@),
            manifest::dep_views(root_conflicts@),
        ) {
            Some(m) => r matches Err(Error::Resolve(t)) && t@ == m,
            None => r is Ok && index::locked_map_view(r->Ok_0) == selection(
                index@,
                solution_views(solution@),
            ),
        },
{
    let selected = packages_of_solution(index, solution)?;
    validate_conflicts(&selected)?;
    validate_root_conflicts(&selected, root_conflicts)?;
    Ok(selected)
}

/// What is said where there is no solution.
pub fn unsolvable(reason: &str) -> (r: Error)
    ensures
        r matches Error::Resolve(t) && t@ == "PubGrub could not find a set of packages: "@
            + reason@,
{
    Error::Resolve(text::cat("PubGrub could not find a set of packages: ", reason))
}

proof fn lemma_no_package_fault(
    sel: LockedMap,
    name: Seq<char>,
    version: Seq<char>,
    pairs: Seq<(Seq<char>, Seq<char>)>,
    k: int,
)
    requires
        package_fault(sel, name, version, pairs) is None,
        0 <= k < pairs.len(),
    ensures
        declared_fault(sel, name, version, pairs[k].0, pairs[k].1) is None,
    decreases pairs.len(),
{
    if k > 0 {
        lemma_no_package_fault(sel, name, version, pairs.skip(1), k - 1);
    }
}

proof fn lemma_no_conflict_fault(sel: LockedMap, list: LockedMap, i: int)
    requires
        conflict_fault(sel, list) is None,
        0 <= i < list.len(),
    ensures
        package_fault(sel, list[i].0, list[i].1.version, list[i].1.conflict) is None,
    decreases list.len(),
{
    if i > 0 {
        lemma_no_conflict_fault(sel, list.skip(1), i - 1);
    }
}

/// Where nothing is wrong with the packages of a solution, none of them
/// excludes another one.
pub proof fn law_selection_has_no_conflict(
    ix: index::IndexView,
    sol: SolutionView,
    root_conflicts: Seq<(Seq<char>, Seq<char>)>,
    i: int,
    k: int,
)
    requires
        solution_fault(ix, sol, root_conflicts) is None,
        0 <= i < selection(ix, sol).len(),
        0 <= k < selection(ix, sol)[i].1.conflict.len(),
    ensures
        ({
            let sel = selection(ix, sol);
            let (other, c) = sel[i].1.conflict[k];
            collections::lookup(sel, other) matches Some(o) ==> version::parsed(o.version)
                matches Some(v) && !constraint::satisfies(c, v)
        }),
{
    let sel = selection(ix, sol);
    lemma_no_conflict_fault(sel, sel, i);
    lemma_no_package_fault(sel, sel[i].0, sel[i].1.version, sel[i].1.conflict, k);
}

// ---------------------------------------------------------------------------
// Virtual and replaced packages

/// The package behind a chosen one.
pub open spec fn package_behind(ix: index::IndexView, name: Seq<char>, raw: Seq<char>) -> Seq<
    char,
> {
    match index::provider_of(ix, name, raw) {
        Some(r) => r,
        None => match index::first_provider(ix, name) {
            Some(r) => r,
            None => name,
        },
    }
}

/// What is locked for a chosen package.
pub open spec fn locked_for(ix: index::IndexView, name: Seq<char>, l: lock::LockedView) ->
    lock::LockedView {
    let behind = package_behind(ix, name, l.version);
    if behind == name {
        l
    } else {
        match index::provider_entry(ix, behind, l.version) {
            Some(p) => p,
            None => lock::LockedView { name: behind, ..l },
        }
    }
}

/// A selection in which virtual packages have given way to those behind them.
pub open spec fn remapped(ix: index::IndexView, sel: LockedMap) -> LockedMap
    decreases sel.len(),
{
    if sel.len() == 0 {
        Seq::empty()
    } else {
        let rest = remapped(ix, sel.drop_last());
        let (name, l) = sel.last();
        let behind = package_behind(ix, name, l.version);
        if name == solver::root_name() || collections::lookup(rest, behind) is Some {
            rest
        } else {
            collections::inserted(rest, behind, locked_for(ix, name, l))
        }
    }
}

/// The packages of a selection that one of its packages replaces.
pub open spec fn replaced_by(
    sel: LockedMap,
    name: Seq<char>,
    pairs: Seq<(Seq<char>, Seq<char>)>,
) -> Seq<Seq<char>>
    decreases pairs.len(),
{
    if pairs.len() == 0 {
        Seq::empty()
    } else {
        let rest = replaced_by(sel, name, pairs.drop_last());
        let k = pairs.last().0;
        if collections::lookup(sel, k) is Some && k != name {
            rest.push(k)
        } else {
            rest
        }
    }
}

/// The packages of a selection that are replaced by packages of a list.
pub open spec fn all_replaced(sel: LockedMap, list: LockedMap) -> Seq<Seq<char>>
    decreases list.len(),
{
    if list.len() == 0 {
        Seq::empty()
    } else {
        all_replaced(sel, list.drop_last()) + replaced_by(
            sel,
            list.last().0,
            list.last().1.replace,
        )
    }
}

/// A selection without the packages of a list.
pub open spec fn without_names(sel: LockedMap, names: Seq<Seq<char>>) -> LockedMap
    decreases names.len(),
{
    if names.len() == 0 {
        sel
    } else {
        collections::removed(without_names(sel, names.drop_last()), names.last())
    }
}

/// A selection without virtual and replaced packages.
pub open spec fn normalized(ix: index::IndexView, sel: LockedMap) -> LockedMap {
    let m = remapped(ix, sel);
    without_names(m, all_replaced(m, m))
}

fn locked_behind(index: &PackageIndex, name: &str, l: &LockedPackage) -> (r: (
    String,
    LockedPackage,
))
    ensures
        r.0@ == package_behind(index@, name@, l@.version),
        r.1@ == locked_for(index@, name@, l@),
{
    let behind = match index.real_provider_for(name, l.version.as_str()) {
        Some(r) => r,
        None => index.real_package_name(name),
    };
    if text::same(behind, name) {
        return (String::from_str(behind), l.copy());
    }
    match index.provider_locked(behind, l.version.as_str()) {
        Some(p) => (String::from_str(behind), p),
        None => {
            let mut p = l.copy();
            p.name = String::from_str(behind);
            (String::from_str(behind), p)
        },
    }
}

/// Replaces virtual packages by those behind them, and drops the packages that
/// others replace.
pub fn normalize_solution(selected: &StrMap<LockedPackage>, index: &PackageIndex) -> (r: StrMap<
    LockedPackage,
>)
    ensures
        index::locked_map_view(r) == normalized(index@, index::locked_map_view(*selected)),
{
    let ghost sel = index::locked_map_view(*selected);
    let mut out: StrMap<LockedPackage> = StrMap::new();
    let n: usize = selected.entries.len();
    let mut i: usize = 0;
    assert(index::locked_map_view(out) =~= Seq::empty());
    while i < n
        invariant
            i <= n,
            n == selected.entries@.len(),
            sel == index::locked_map_view(*selected),
            index::locked_map_view(out) == remapped(index@, sel.take(i as int)),
        decreases n - i,
    {
        let name = selected.entries[i].0.as_str();
        let l = &selected.entries[i].1;
        proof {
            assert(sel.take(i + 1).drop_last() =~= sel.take(i as int));
            assert(sel.take(i + 1).last() == (name@, l@));
        }
        if !text::same(name, "__root__/__root__") {
            let (behind, locked) = locked_behind(index, name, l);
            proof {
                collections::lemma_with_values(out@, behind@, locked, |l: LockedPackage| l@);
            }
            if !out.contains_key(behind.as_str()) {
                out.insert(behind, locked);
            }
        }
        i += 1;
    }
    assert(sel.take(n as int) =~= sel);
    let ghost m = index::locked_map_view(out);
    let names = replaced_names(&out);
    let ghost gone = text::texts(names@);
    let k: usize = names.len();
    let mut j: usize = 0;
    while j < k
        invariant
            j <= k,
            k == names@.len(),
            gone == text::texts(names@),
            index::locked_map_view(out) == without_names(m, gone.take(j as int)),
        decreases k - j,
    {
        proof {
            assert(gone.take(j + 1).drop_last() =~= gone.take(j as int));
            assert(gone.take(j + 1).last() == names@[j as int]@);
            collections::lemma_with_values(
                out@,
                names@[j as int]@,
                arbitrary(),
                |l: LockedPackage| l@,
            );
        }
        out.remove(names[j].as_str());
        j += 1;
    }
    assert(gone.take(k as int) =~= gone);
    out
}

fn replaced_names(sel: &StrMap<LockedPackage>) -> (r: Vec<String>)
    ensures
        text::texts(r@) == all_replaced(
            index::locked_map_view(*sel),
            index::locked_map_view(*sel),
        ),
{
    let ghost all = index::locked_map_view(*sel);
    let mut out: Vec<String> = Vec::new();
    let n: usize = sel.entries.len();
    let mut i: usize = 0;
    assert(text::texts(out@) =~= Seq::empty());
    while i < n
        invariant
            i <= n,
            n == sel.entries@.len(),
            all == index::locked_map_view(*sel),
            text::texts(out@) == all_replaced(all, all.take(i as int)),
        decreases n - i,
    {
        let name = sel.entries[i].0.as_str();
        let replace = &sel.entries[i].1.replace;
        let ghost pairs = collections::link_pairs(*replace);
        let ghost before = text::texts(out@);
        proof {
            assert(all.take(i + 1).drop_last() =~= all.take(i as int));
            assert(all.take(i + 1).last() == (name@, sel.entries@[i as int].1@));
        }
        let k: usize = replace.entries.len();
        let mut j: usize = 0;
        assert(before + Seq::<Seq<char>>::empty() =~= before);
        while j < k
            invariant
                j <= k,
                k == replace.entries@.len(),
                all == index::locked_map_view(*sel),
                pairs == collections::link_pairs(*replace),
                text::texts(out@) == before + replaced_by(all, name@, pairs.take(j as int)),
            decreases k - j,
        {
            let other = replace.entries[j].0.as_str();
            proof {
                assert(pairs.take(j + 1).drop_last() =~= pairs.take(j as int));
                assert(pairs.take(j + 1).last().0 == other@);
                collections::lemma_with_values(
                    sel@,
                    other@,
                    arbitrary(),
                    |l: LockedPackage| l@,
                );
            }
            if sel.contains_key(other) && !text::same(other, name) {
                let ghost now = text::texts(out@);
                let copy = String::from_str(other);
                out.push(copy);
                assert(text::texts(out@) =~= now.push(other@));
                assert(text::texts(out@) =~= before + replaced_by(
                    all,
                    name@,
                    pairs.take(j as int),
                ).push(other@));
            }
            j += 1;
        }
        assert(pairs.take(k as int) =~= pairs);
        i += 1;
    }
    assert(all.take(n as int) =~= all);
    out
}

proof fn lemma_without_lookup(sel: LockedMap, names: Seq<Seq<char>>, k: Seq<char>)
    ensures
        collections::lookup(without_names(sel, names), k) == if names.contains(k) {
            None
        } else {
            collections::lookup(sel, k)
        },
    decreases names.len(),
{
    if names.len() > 0 {
        let rest = names.drop_last();
        lemma_without_lookup(sel, rest, k);
        collections::law_lookup_removed(without_names(sel, rest), names.last(), k);
        if names.contains(k) && names.last() != k {
            let i = choose|i: int| 0 <= i < names.len() && names[i] == k;
            assert(rest[i] == k);
        }
        if rest.contains(k) {
            let i = choose|i: int| 0 <= i < rest.len() && rest[i] == k;
            assert(names[i] == k);
        }
        assert(names.last() == names[names.len() - 1]);
    }
}

proof fn lemma_removed_entries(sel: LockedMap, k: Seq<char>, i: int)
    requires
        0 <= i < collections::removed(sel, k).len(),
    ensures
        sel.contains(collections::removed(sel, k)[i]),
    decreases sel.len(),
{
    let rest = sel.drop_last();
    if sel.len() > 0 {
        if sel.last().0 == k || i < collections::removed(rest, k).len() {
            lemma_removed_entries(rest, k, i);
            let e = collections::removed(sel, k)[i];
            let m = choose|m: int| 0 <= m < rest.len() && rest[m] == e;
            assert(sel[m] == e);
        } else {
            assert(sel[sel.len() - 1] == collections::removed(sel, k)[i]);
        }
    }
}

proof fn lemma_without_entries(sel: LockedMap, names: Seq<Seq<char>>, i: int)
    requires
        0 <= i < without_names(sel, names).len(),
    ensures
        sel.contains(without_names(sel, names)[i]),
    decreases names.len(),
{
    if names.len() > 0 {
        let rest = without_names(sel, names.drop_last());
        lemma_removed_entries(rest, names.last(), i);
        let e = without_names(sel, names)[i];
        let m = choose|m: int| 0 <= m < rest.len() && rest[m] == e;
        lemma_without_entries(sel, names.drop_last(), m);
    } else {
        assert(sel[i] == without_names(sel, names)[i]);
    }
}

proof fn lemma_replaced_by(
    sel: LockedMap,
    name: Seq<char>,
    pairs: Seq<(Seq<char>, Seq<char>)>,
    k: int,
)
    requires
        0 <= k < pairs.len(),
        pairs[k].0 != name,
        collections::lookup(sel, pairs[k].0) is Some,
    ensures
        replaced_by(sel, name, pairs).contains(pairs[k].0),
    decreases pairs.len(),
{
    let rest = pairs.drop_last();
    let all = replaced_by(sel, name, pairs);
    if k < rest.len() {
        assert(rest[k] == pairs[k]);
        lemma_replaced_by(sel, name, rest, k);
        let some = replaced_by(sel, name, rest);
        let i = choose|i: int| 0 <= i < some.len() && some[i] == pairs[k].0;
        assert(all[i] == pairs[k].0);
    } else {
        assert(all.last() == pairs[k].0);
    }
}

proof fn lemma_all_replaced(sel: LockedMap, list: LockedMap, i: int, k: int)
    requires
        0 <= i < list.len(),
        0 <= k < list[i].1.replace.len(),
        list[i].1.replace[k].0 != list[i].0,
        collections::lookup(sel, list[i].1.replace[k].0) is Some,
    ensures
        all_replaced(sel, list).contains(list[i].1.replace[k].0),
    decreases list.len(),
{
    let rest = list.drop_last();
    let all = all_replaced(sel, list);
    let want = list[i].1.replace[k].0;
    let first = all_replaced(sel, rest);
    let second = replaced_by(sel, list.last().0, list.last().1.replace);
    assert(all == first + second);
    if i < rest.len() {
        assert(rest[i] == list[i]);
        lemma_all_replaced(sel, rest, i, k);
        let m = choose|m: int| 0 <= m < first.len() && first[m] == want;
        assert(all[m] == want);
    } else {
        lemma_replaced_by(sel, list[i].0, list[i].1.replace, k);
        let m = choose|m: int| 0 <= m < second.len() && second[m] == want;
        assert(all[first.len() + m] == want);
    }
}

/// No package that is left replaces another one that is left.
pub proof fn law_nothing_left_is_replaced(ix: index::IndexView, sel: LockedMap, i: int, k: int)
    requires
        0 <= i < normalized(ix, sel).len(),
        0 <= k < normalized(ix, sel)[i].1.replace.len(),
        normalized(ix, sel)[i].1.replace[k].0 != normalized(ix, sel)[i].0,
    ensures
        collections::lookup(normalized(ix, sel), normalized(ix, sel)[i].1.replace[k].0) is None,
{
    let m = remapped(ix, sel);
    let gone = all_replaced(m, m);
    let e = normalized(ix, sel)[i];
    lemma_without_entries(m, gone, i);
    let at = choose|at: int| 0 <= at < m.len() && m[at] == e;
    lemma_without_lookup(m, gone, e.1.replace[k].0);
    if collections::lookup(m, e.1.replace[k].0) is Some {
        lemma_all_replaced(m, m, at, k);
    }
}

/// A solution is refused for a conflict of the project only if a chosen package is
/// in the way, and then always.
pub proof fn law_conflicts_of_the_project(selected: LockedMap, pairs: Seq<(Seq<char>, Seq<char>)>)
    ensures
        root_fault(selected, pairs) is Some <==> exists|i: int|
            0 <= i < pairs.len() && is_in_the_way(selected, #[trigger] pairs[i]),
    decreases pairs.len(),
{
    if pairs.len() > 0 {
        let rest = pairs.skip(1);
        law_conflicts_of_the_project(selected, rest);
        lemma_first_or_rest(selected, pairs);
    }
}

proof fn lemma_first_or_rest(selected: LockedMap, pairs: Seq<(Seq<char>, Seq<char>)>)
    requires
        pairs.len() > 0,
    ensures
        (exists|i: int| 0 <= i < pairs.len() && is_in_the_way(selected, #[trigger] pairs[i])) <==> (
        is_in_the_way(selected, pairs[0]) || exists|i: int|
            0 <= i < pairs.skip(1).len() && is_in_the_way(selected, #[trigger] pairs.skip(1)[i])),
{
    let rest = pairs.skip(1);
    if exists|i: int| 0 <= i < rest.len() && is_in_the_way(selected, #[trigger] rest[i]) {
        let i = choose|i: int| 0 <= i < rest.len() && is_in_the_way(selected, #[trigger] rest[i]);
        assert(pairs[i + 1] == rest[i]);
    }
    if exists|i: int| 0 <= i < pairs.len() && is_in_the_way(selected, #[trigger] pairs[i]) {
        let i = choose|i: int| 0 <= i < pairs.len() && is_in_the_way(selected, #[trigger] pairs[i]);
        if i > 0 {
            assert(rest[i - 1] == pairs[i]);
        }
    }
}

/// A package of the declared name is chosen, in a version that the conflict is
/// about or that cannot be read.
pub open spec fn is_in_the_way(selected: LockedMap, pair: (Seq<char>, Seq<char>)) -> bool {
    collections::lookup(selected, pair.0) matches Some(o) && (version::parsed(o.version) matches Some(
        v,
    ) ==> constraint::satisfies(pair.1, v))
}

/// The same holds of the conflicts that a package declares.
pub proof fn law_conflicts_of_packages(
    selected: LockedMap,
    name: Seq<char>,
    raw: Seq<char>,
    pairs: Seq<(Seq<char>, Seq<char>)>,
)
    ensures
        package_fault(selected, name, raw, pairs) is Some <==> exists|i: int|
            0 <= i < pairs.len() && is_in_the_way(selected, #[trigger] pairs[i]),
    decreases pairs.len(),
{
    if pairs.len() > 0 {
        law_conflicts_of_packages(selected, name, raw, pairs.skip(1));
        lemma_first_or_rest(selected, pairs);
    }
}

/// What is chosen for a name is an entry of the index for that name, under the
/// text of the version if there is one, else of an equal version.
pub proof fn law_chosen_entry(ix: index::IndexView, name: Seq<char>, v: version::VersionView)
    ensures
        chosen_entry(ix, name, v) matches Some(l) ==> exists|i: int|
            0 <= i < index::entry_of(ix.packages, name).len() && (#[trigger] index::entry_of(
                ix.packages,
                name,
            )[i]).1.locked == l && (index::entry_of(ix.packages, name)[i].0 == v.raw
                || index::entry_of(ix.packages, name)[i].1.version == v),
        collections::lookup(index::entry_of(ix.packages, name), v.raw) matches Some(e)
            ==> chosen_entry(ix, name, v) == Some(e.locked),
{
    let m = index::entry_of(ix.packages, name);
    collections::lemma_lookup_found(m, v.raw);
    if collections::lookup(m, v.raw) is None {
        lemma_known_version(index::values_of(m), v);
        if let Some(e) = known_version(index::values_of(m), v) {
            let vals = index::values_of(m);
            let i = choose|i: int| 0 <= i < vals.len() && vals[i] == e;
            assert(m[i].1 == e);
        }
    }
}

proof fn lemma_known_version(m: Seq<index::IndexedView>, v: version::VersionView)
    ensures
        known_version(m, v) matches Some(e) ==> m.contains(e) && e.version == v,
    decreases m.len(),
{
    if m.len() > 0 {
        let rest = m.skip(1);
        lemma_known_version(rest, v);
        if m[0].version == v {
            assert(m.contains(m[0]));
        } else if let Some(e) = known_version(rest, v) {
            let i = choose|i: int| 0 <= i < rest.len() && rest[i] == e;
            assert(m[i + 1] == e);
        }
    }
}

/// Every package of a solution is selected, but for the helpers of the solver.
pub proof fn law_solution_is_selected(ix: index::IndexView, sol: SolutionView, i: int)
    requires
        0 <= i < sol.len(),
        forall|k: int| i < k < sol.len() ==> (#[trigger] sol[k]).0 != sol[i].0,
        !is_helper(sol[i].0),
        chosen_entry(ix, sol[i].0, sol[i].1) is Some,
    ensures
        collections::lookup(selection(ix, sol), sol[i].0) == chosen_entry(ix, sol[i].0, sol[i].1),
    decreases sol.len(),
{
    let front = sol.drop_last();
    let (name, v) = sol.last();
    if let Some(l) = chosen_entry(ix, name, v) {
        collections::law_lookup_inserted(selection(ix, front), name, l, sol[i].0);
    }
    if i < front.len() {
        assert(front[i] == sol[i]);
        assert(sol[sol.len() - 1].0 != sol[i].0);
        assert forall|k: int| i < k < front.len() implies (#[trigger] front[k]).0 != front[i].0 by {
            assert(sol[k].0 != sol[i].0);
        }
        law_solution_is_selected(ix, front, i);
    }
}

/// For every chosen package the one behind it is installed.
pub proof fn law_nothing_chosen_is_lost(ix: index::IndexView, sel: LockedMap, i: int)
    requires
        0 <= i < sel.len(),
        sel[i].0 != solver::root_name(),
    ensures
        collections::lookup(
            remapped(ix, sel),
            package_behind(ix, sel[i].0, sel[i].1.version),
        ) is Some,
    decreases sel.len(),
{
    let front = sel.drop_last();
    let (name, l) = sel.last();
    let behind = package_behind(ix, name, l.version);
    collections::law_lookup_inserted(
        remapped(ix, front),
        behind,
        locked_for(ix, name, l),
        package_behind(ix, sel[i].0, sel[i].1.version),
    );
    if i < front.len() {
        assert(front[i] == sel[i]);
        law_nothing_chosen_is_lost(ix, front, i);
    }
}

/// A package that no other one stands for is installed as it was chosen.
pub proof fn law_real_packages_stay(ix: index::IndexView, name: Seq<char>, l: lock::LockedView)
    requires
        index::provider_of(ix, name, l.version) is None,
        index::first_provider(ix, name) is None,
    ensures
        package_behind(ix, name, l.version) == name,
        locked_for(ix, name, l) == l,
{
}

} // verus!
