//! Why packages are there, and what depends on them.

use crate::collections;
use crate::collections::StrMap;
use crate::collections::StrSet;
use crate::commands;
use crate::commands::outdated;
use crate::commands::Message;
use crate::commands::Tone;
use crate::commands::tree;
use crate::commands::why;
use crate::constraint;
use crate::constraint::VersionConstraint;
use crate::error::Error;
use crate::lock;
use crate::lock::ComposerLock;
use crate::lock::LockedPackage;
use crate::manifest;
use crate::manifest::ComposerJson;
use crate::package;
use crate::reach;
use crate::repo;
use crate::repo::RemotePackageVersion;
use crate::resolve;
use crate::text;
use crate::version;
use crate::version::ComposerVersion;
use vstd::prelude::*;

verus! {

/// What is asked of dependents.
#[derive(Debug, Clone)]
pub struct DependsArgs {
    pub package: String,
    /// The version in question.
    pub version: Option<String>,
    pub recursive: bool,
    pub tree: bool,
    pub no_dev: bool,
}

/// How a package depends on another one.
#[derive(Debug, Clone, Copy, PartialEq, Eq, Structural)]
pub enum DepKind {
    Require,
    RequireDev,
}

/// The word for a kind.
pub open spec fn kind_word(k: DepKind) -> Seq<char> {
    match k {
        DepKind::Require => "requires"@,
        DepKind::RequireDev => "require-dev"@,
    }
}

impl DepKind {
    /// The word for the kind.
    pub fn as_str(self) -> (r: &'static str)
        ensures
            r@ == kind_word(self),
    {
        match self {
            DepKind::Require => "requires",
            DepKind::RequireDev => "require-dev",
        }
    }
}

// ---------------------------------------------------------------------------
// Dependents

/// A dependent, its constraint and the kind.
pub type Dependent = (Seq<char>, Seq<char>, DepKind);

/// The dependents of a list.
pub open spec fn dependent_views(v: Seq<(String, String, DepKind)>) -> Seq<Dependent> {
    v.map_values(|d: (String, String, DepKind)| (d.0@, d.1@, d.2))
}

/// The links of a package to another one.
pub open spec fn links_to(
    name: Seq<char>,
    reqs: Seq<(Seq<char>, Seq<char>)>,
    kind: DepKind,
    x: Seq<char>,
) -> Seq<Dependent>
    decreases reqs.len(),
{
    if reqs.len() == 0 {
        Seq::empty()
    } else {
        let rest = links_to(name, reqs.drop_last(), kind, x);
        if reqs.last().0 == x && !package::names_platform(x) {
            rest.push((name, reqs.last().1, kind))
        } else {
            rest
        }
    }
}

/// The packages that depend on one that is no platform package.
pub open spec fn dependents_of(v: Seq<lock::LockedView>, with_dev: bool, x: Seq<char>) -> Seq<
    Dependent,
>
    decreases v.len(),
{
    if v.len() == 0 {
        Seq::empty()
    } else {
        let p = v.last();
        dependents_of(v.drop_last(), with_dev, x) + links_to(
            p.name,
            p.require,
            DepKind::Require,
            x,
        ) + if with_dev {
            links_to(p.name, p.require_dev, DepKind::RequireDev, x)
        } else {
            Seq::empty()
        }
    }
}

/// The dependents that a map holds of a package.
pub open spec fn found(m: Seq<(Seq<char>, Vec<(String, String, DepKind)>)>, x: Seq<char>) -> Seq<
    Dependent,
> {
    match collections::lookup(m, x) {
        Some(v) => dependent_views(v@),
        None => Seq::empty(),
    }
}

/// A map with its keys in order, none without dependents.
pub open spec fn tidy(m: Seq<(Seq<char>, Vec<(String, String, DepKind)>)>) -> bool {
    &&& collections::ordered(m)
    &&& forall|x: Seq<char>|
        #![trigger collections::lookup(m, x)]
        collections::lookup(m, x) matches Some(v) ==> v@.len() > 0
}

proof fn lemma_lookup_update<V>(p: Seq<(Seq<char>, V)>, i: int, v: V, x: Seq<char>)
    requires
        0 <= i < p.len(),
        forall|j: int| 0 <= j < i ==> p[j].0 != p[i].0,
    ensures
        collections::lookup(p.update(i, (p[i].0, v)), x) == if x == p[i].0 {
            Some(v)
        } else {
            collections::lookup(p, x)
        },
    decreases i,
{
    let q = p.update(i, (p[i].0, v));
    if i == 0 {
        assert(q.skip(1) =~= p.skip(1));
    } else {
        lemma_lookup_update(p.skip(1), i - 1, v, x);
        assert(q.skip(1) =~= p.skip(1).update(i - 1, (p[i].0, v)));
        assert(p[0].0 != p[i].0);
    }
}

fn add_dependent(
    m: &mut StrMap<Vec<(String, String, DepKind)>>,
    dep: &str,
    d: (String, String, DepKind),
)
    requires
        tidy(old(m)@),
    ensures
        tidy(final(m)@),
        forall|x: Seq<char>| #[trigger]
            found(final(m)@, x) == if x == dep@ {
                found(old(m)@, x).push((d.0@, d.1@, d.2))
            } else {
                found(old(m)@, x)
            },
{
    let ghost before = m@;
    match m.position(dep) {
        Some(i) => {
            let ghost old_list = m.entries@[i as int].1@;
            m.entries[i].1.push(d);
            proof {
                let list = m.entries@[i as int].1;
                assert(m@ =~= before.update(i as int, (before[i as int].0, list)));
                assert(dependent_views(list@) =~= dependent_views(old_list).push((d.0@, d.1@, d.2)));
                assert forall|x: Seq<char>| #[trigger]
                    found(m@, x) == if x == dep@ {
                        found(before, x).push((d.0@, d.1@, d.2))
                    } else {
                        found(before, x)
                    } by {
                    lemma_lookup_update(before, i as int, list, x);
                }
                assert forall|x: Seq<char>|
                    #![trigger collections::lookup(m@, x)]
                    collections::lookup(m@, x) is Some implies collections::lookup(m@, x)->0@.len()
                    > 0 by {
                    lemma_lookup_update(before, i as int, list, x);
                    assert(collections::lookup(before, x) is Some);
                }
                assert forall|a: int, b: int| 0 <= a < b < m@.len() implies text::text_lt(
                    #[trigger] m@[a].0,
                    #[trigger] m@[b].0,
                ) by {
                    assert(text::text_lt(before[a].0, before[b].0));
                }
            }
        },
        None => {
            let mut list: Vec<(String, String, DepKind)> = Vec::new();
            list.push(d);
            assert(dependent_views(list@) =~= Seq::empty().push((d.0@, d.1@, d.2)));
            m.insert(String::from_str(dep), list);
            proof {
                collections::law_insertion_keeps_order(before, dep@, list);
                assert forall|x: Seq<char>| #[trigger]
                    found(m@, x) == if x == dep@ {
                        found(before, x).push((d.0@, d.1@, d.2))
                    } else {
                        found(before, x)
                    } by {
                    collections::law_lookup_inserted(before, dep@, list, x);
                }
                assert forall|x: Seq<char>|
                    #![trigger collections::lookup(m@, x)]
                    collections::lookup(m@, x) is Some implies collections::lookup(m@, x)->0@.len()
                    > 0 by {
                    collections::law_lookup_inserted(before, dep@, list, x);
                }
            }
        },
    }
}

fn add_links(
    m: &mut StrMap<Vec<(String, String, DepKind)>>,
    name: &str,
    reqs: &StrMap<String>,
    kind: DepKind,
)
    requires
        tidy(old(m)@),
    ensures
        tidy(final(m)@),
        forall|x: Seq<char>| #[trigger]
            found(final(m)@, x) == found(old(m)@, x) + links_to(
                name@,
                collections::link_pairs(*reqs),
                kind,
                x,
            ),
{
    let ghost before = m@;
    let ghost all = collections::link_pairs(*reqs);
    let n: usize = reqs.entries.len();
    let mut i: usize = 0;
    proof {
        assert forall|x: Seq<char>| #[trigger]
            found(m@, x) == found(before, x) + links_to(name@, all.take(0), kind, x) by {
            assert(found(before, x) + Seq::<Dependent>::empty() =~= found(before, x));
        }
    }
    while i < n
        invariant
            i <= n,
            n == reqs.entries@.len(),
            all == collections::link_pairs(*reqs),
            tidy(m@),
            forall|x: Seq<char>| #[trigger]
                found(m@, x) == found(before, x) + links_to(name@, all.take(i as int), kind, x),
        decreases n - i,
    {
        let dep = reqs.entries[i].0.as_str();
        let ghost now = m@;
        proof {
            assert(all.take(i + 1).drop_last() =~= all.take(i as int));
            assert(all.take(i + 1).last() == (dep@, reqs.entries@[i as int].1@));
        }
        if !package::is_platform_req(dep) {
            let d = (
                String::from_str(name),
                String::from_str(reqs.entries[i].1.as_str()),
                kind,
            );
            add_dependent(m, dep, d);
        }
        proof {
            assert forall|x: Seq<char>| #[trigger]
                found(m@, x) == found(before, x) + links_to(name@, all.take(i + 1), kind, x) by {
                let a = found(before, x);
                let b = links_to(name@, all.take(i as int), kind, x);
                let e = (name@, reqs.entries@[i as int].1@, kind);
                assert(found(now, x) == a + b);
                assert((a + b).push(e) =~= a + b.push(e));
            }
        }
        i += 1;
    }
    assert(all.take(n as int) =~= all);
}

/// The dependents of packages, by their names.
pub fn reverse_dependents(packages: &Vec<&LockedPackage>, with_dev: bool) -> (r: StrMap<
    Vec<(String, String, DepKind)>,
>)
    ensures
        tidy(r@),
        forall|x: Seq<char>| #[trigger]
            found(r@, x) == dependents_of(lock::ref_views(packages@), with_dev, x),
{
    let ghost all = lock::ref_views(packages@);
    let mut m: StrMap<Vec<(String, String, DepKind)>> = StrMap::new();
    let n: usize = packages.len();
    let mut i: usize = 0;
    while i < n
        invariant
            i <= n,
            n == packages@.len(),
            all == lock::ref_views(packages@),
            tidy(m@),
            forall|x: Seq<char>| #[trigger]
                found(m@, x) == dependents_of(all.take(i as int), with_dev, x),
        decreases n - i,
    {
        let p = packages[i];
        let ghost before = m@;
        proof {
            assert(all.take(i + 1).drop_last() =~= all.take(i as int));
            assert(all.take(i + 1).last() == p@);
        }
        add_links(&mut m, p.name.as_str(), &p.require, DepKind::Require);
        let ghost middle = m@;
        if with_dev {
            add_links(&mut m, p.name.as_str(), &p.require_dev, DepKind::RequireDev);
        }
        proof {
            assert forall|x: Seq<char>| #[trigger]
                found(m@, x) == dependents_of(all.take(i + 1), with_dev, x) by {
                let a = found(before, x);
                assert(found(middle, x) == a + links_to(p@.name, p@.require, DepKind::Require, x));
                assert(found(middle, x) + Seq::<Dependent>::empty() =~= found(middle, x));
            }
        }
        i += 1;
    }
    assert(all.take(n as int) =~= all);
    m
}

/// Every requirement of a package that is no platform package stands among the
/// dependents of what is required.
pub proof fn law_no_requirement_is_lost(
    v: Seq<lock::LockedView>,
    with_dev: bool,
    i: int,
    j: int,
)
    requires
        0 <= i < v.len(),
        0 <= j < v[i].require.len(),
        !package::names_platform(v[i].require[j].0),
    ensures
        dependents_of(v, with_dev, v[i].require[j].0).contains(
            (v[i].name, v[i].require[j].1, DepKind::Require),
        ),
    decreases v.len(),
{
    let x = v[i].require[j].0;
    let d = (v[i].name, v[i].require[j].1, DepKind::Require);
    let rest = dependents_of(v.drop_last(), with_dev, x);
    let p = v.last();
    let own = links_to(p.name, p.require, DepKind::Require, x);
    let whole = dependents_of(v, with_dev, x);
    if i < v.len() - 1 {
        assert(v.drop_last()[i] == v[i]);
        law_no_requirement_is_lost(v.drop_last(), with_dev, i, j);
        let k = choose|k: int| 0 <= k < rest.len() && rest[k] == d;
        assert(whole[k] == d);
    } else {
        lemma_link_is_there(p.name, p.require, DepKind::Require, j);
        let k = choose|k: int| 0 <= k < own.len() && own[k] == d;
        assert(whole[rest.len() + k] == d);
    }
}

proof fn lemma_link_is_there(
    name: Seq<char>,
    reqs: Seq<(Seq<char>, Seq<char>)>,
    kind: DepKind,
    j: int,
)
    requires
        0 <= j < reqs.len(),
        !package::names_platform(reqs[j].0),
    ensures
        links_to(name, reqs, kind, reqs[j].0).contains((name, reqs[j].1, kind)),
    decreases reqs.len(),
{
    let x = reqs[j].0;
    let rest = links_to(name, reqs.drop_last(), kind, x);
    let all = links_to(name, reqs, kind, x);
    if j < reqs.len() - 1 {
        lemma_link_is_there(name, reqs.drop_last(), kind, j);
        let k = choose|k: int| 0 <= k < rest.len() && rest[k] == (name, reqs[j].1, kind);
        assert(all[k] == (name, reqs[j].1, kind));
    } else {
        assert(all[all.len() - 1] == (name, reqs[j].1, kind));
    }
}

// ---------------------------------------------------------------------------
// Requirements

/// Names with one more in its place, none twice.
pub open spec fn placed_name(s: Seq<Seq<char>>, x: Seq<char>) -> Seq<Seq<char>>
    decreases s.len(),
{
    if s.len() == 0 {
        seq![x]
    } else if s[0] == x {
        s
    } else if text::text_lt(x, s[0]) {
        seq![x] + s
    } else {
        seq![s[0]] + placed_name(s.skip(1), x)
    }
}

/// Names in order, none twice.
pub open spec fn sorted_names(s: Seq<Seq<char>>) -> Seq<Seq<char>>
    decreases s.len(),
{
    if s.len() == 0 {
        Seq::empty()
    } else {
        placed_name(sorted_names(s.drop_last()), s.last())
    }
}

proof fn lemma_placed_at(s: Seq<Seq<char>>, x: Seq<char>, i: int)
    requires
        0 <= i <= s.len(),
        forall|j: int| 0 <= j < i ==> s[j] != x && !text::text_lt(x, #[trigger] s[j]),
    ensures
        i == s.len() || text::text_lt(x, s[i]) && s[i] != x ==> placed_name(s, x) == s.insert(i, x),
        i < s.len() && s[i] == x ==> placed_name(s, x) == s,
    decreases i,
{
    if i == 0 {
        if s.len() == 0 {
            assert(seq![x] =~= s.insert(0, x));
        } else {
            assert(seq![x] + s =~= s.insert(0, x));
        }
    } else {
        let t = s.skip(1);
        assert forall|j: int| 0 <= j < i - 1 implies t[j] != x && !text::text_lt(
            x,
            #[trigger] t[j],
        ) by {
            assert(s[j + 1] == t[j]);
        }
        assert(s[0] != x && !text::text_lt(x, s[0]));
        lemma_placed_at(t, x, i - 1);
        if i < s.len() {
            assert(t[i - 1] == s[i]);
        }
        assert(seq![s[0]] + t =~= s);
        assert(seq![s[0]] + t.insert(i - 1, x) =~= s.insert(i, x));
    }
}

fn place_name(s: &mut Vec<String>, x: &str)
    ensures
        text::texts(final(s)@) == placed_name(text::texts(old(s)@), x@),
{
    let ghost before = text::texts(s@);
    let n: usize = s.len();
    let mut i: usize = 0;
    while i < n
        invariant_except_break
            i <= n,
            n == s@.len(),
            before == text::texts(s@),
            before == text::texts(old(s)@),
            forall|j: int|
                0 <= j < i ==> before[j] != x@ && !text::text_lt(x@, #[trigger] before[j]),
        ensures
            i <= n,
            n == s@.len(),
            before == text::texts(s@),
            before == text::texts(old(s)@),
            forall|j: int|
                0 <= j < i ==> before[j] != x@ && !text::text_lt(x@, #[trigger] before[j]),
            i == n || (text::text_lt(x@, before[i as int]) && before[i as int] != x@),
        decreases n - i,
    {
        assert(before[i as int] == s@[i as int]@);
        if text::same(s[i].as_str(), x) {
            proof {
                lemma_placed_at(before, x@, i as int);
            }
            return;
        }
        if text::below(x, s[i].as_str()) {
            break;
        }
        i += 1;
    }
    proof {
        lemma_placed_at(before, x@, i as int);
    }
    s.insert(i, String::from_str(x));
    assert(text::texts(s@) =~= before.insert(i as int, x@));
}

/// Names in order, none twice.
pub fn sort_names(names: &Vec<String>) -> (r: Vec<String>)
    ensures
        text::texts(r@) == sorted_names(text::texts(names@)),
{
    let ghost all = text::texts(names@);
    let mut out: Vec<String> = Vec::new();
    let n: usize = names.len();
    let mut i: usize = 0;
    assert(text::texts(out@) =~= Seq::empty());
    while i < n
        invariant
            i <= n,
            n == names@.len(),
            all == text::texts(names@),
            text::texts(out@) == sorted_names(all.take(i as int)),
        decreases n - i,
    {
        proof {
            assert(all.take(i + 1).drop_last() =~= all.take(i as int));
            assert(all.take(i + 1).last() == names@[i as int]@);
        }
        place_name(&mut out, names[i].as_str());
        i += 1;
    }
    assert(all.take(n as int) =~= all);
    out
}

/// The packages that packages require, by their names.
pub open spec fn forward_map(v: Seq<lock::LockedView>, with_dev: bool) -> reach::EdgeMap
    decreases v.len(),
{
    if v.len() == 0 {
        Seq::empty()
    } else {
        collections::inserted(
            forward_map(v.drop_last(), with_dev),
            v.last().name,
            sorted_names(resolve::dep_names(v.last(), with_dev)),
        )
    }
}

/// The packages that packages require, by their names.
pub fn forward_deps(packages: &Vec<&LockedPackage>, with_dev: bool) -> (r: StrMap<Vec<String>>)
    ensures
        reach::edge_map(r) == forward_map(lock::ref_views(packages@), with_dev),
{
    let ghost all = lock::ref_views(packages@);
    let mut m: StrMap<Vec<String>> = StrMap::new();
    let n: usize = packages.len();
    let mut i: usize = 0;
    assert(reach::edge_map(m) =~= Seq::empty());
    while i < n
        invariant
            i <= n,
            n == packages@.len(),
            all == lock::ref_views(packages@),
            reach::edge_map(m) == forward_map(all.take(i as int), with_dev),
        decreases n - i,
    {
        let p = packages[i];
        proof {
            assert(all.take(i + 1).drop_last() =~= all.take(i as int));
            assert(all.take(i + 1).last() == p@);
        }
        let mut names: Vec<String> = Vec::new();
        assert(text::texts(names@) =~= Seq::empty());
        resolve::push_package_names(&mut names, &p.require);
        assert(text::texts(names@) =~= resolve::package_names(p@.require));
        if with_dev {
            resolve::push_package_names(&mut names, &p.require_dev);
        }
        let sorted = sort_names(&names);
        proof {
            collections::lemma_with_values(
                m@,
                p@.name,
                sorted,
                |v: Vec<String>| text::texts(v@),
            );
        }
        m.insert(String::from_str(p.name.as_str()), sorted);
        i += 1;
    }
    assert(all.take(n as int) =~= all);
    m
}

/// The packages that a project requires, in the order in which it names them.
pub open spec fn roots_of(m: manifest::ManifestView, with_dev: bool) -> Seq<Seq<char>> {
    if with_dev {
        resolve::package_names(m.require) + resolve::package_names(m.require_dev)
    } else {
        resolve::package_names(m.require)
    }
}

/// The packages that a project requires, in the order in which it names them.
pub fn root_packages(manifest: &ComposerJson, with_dev: bool) -> (r: Vec<String>)
    ensures
        text::texts(r@) == roots_of(manifest@, with_dev),
{
    let mut names: Vec<String> = Vec::new();
    assert(text::texts(names@) =~= Seq::empty());
    resolve::push_package_names(&mut names, &manifest.require);
    assert(text::texts(names@) =~= resolve::package_names(manifest@.require));
    if with_dev {
        resolve::push_package_names(&mut names, &manifest.require_dev);
    }
    names
}

// ---------------------------------------------------------------------------
// What is shown

/// The line on a dependent.
pub open spec fn dependent_line(d: Dependent, target: Seq<char>) -> Seq<char> {
    d.0 + " "@ + kind_word(d.2) + " "@ + target + " ("@ + d.1 + ")"@
}

/// The lines on the dependents of a package.
pub open spec fn dependent_lines(d: Seq<Dependent>, target: Seq<char>) -> Seq<Seq<char>> {
    d.map_values(|x: Dependent| dependent_line(x, target))
}

/// The text of a branch of the tree of dependents.
pub open spec fn branch_text(d: Dependent, name: Seq<char>) -> Seq<char> {
    d.0 + " ("@ + kind_word(d.2) + " "@ + name + " "@ + d.1 + ")"@
}

/// The branches of the tree of dependents below a name.
pub open spec fn branches_of(d: Seq<Dependent>, name: Seq<char>) -> Seq<(Seq<char>, Seq<char>)> {
    d.map_values(|x: Dependent| (branch_text(x, name), x.0))
}

/// The branches of the tree of the dependents that a map holds.
pub open spec fn held_tree(m: Seq<(Seq<char>, Vec<(String, String, DepKind)>)>) -> tree::Branches {
    |name: Seq<char>| branches_of(found(m, name), name)
}

/// The branches of the tree of dependents.
pub open spec fn dependent_tree(v: Seq<lock::LockedView>, with_dev: bool) -> tree::Branches {
    |name: Seq<char>| branches_of(dependents_of(v, with_dev, name), name)
}

fn line_of(d: &(String, String, DepKind), target: &str) -> (r: String)
    ensures
        r@ == dependent_line((d.0@, d.1@, d.2), target@),
{
    let head = text::cat3(d.0.as_str(), " ", d.2.as_str());
    let middle = text::cat3(" ", target, " (");
    let mut out = text::cat(head.as_str(), middle.as_str());
    out.append(d.1.as_str());
    out.append(")");
    assert(out@ =~= dependent_line((d.0@, d.1@, d.2), target@));
    out
}

fn branch_of(d: &(String, String, DepKind), name: &str) -> (r: (String, String))
    ensures
        r.0@ == branch_text((d.0@, d.1@, d.2), name@),
        r.1@ == d.0@,
{
    let head = text::cat3(d.0.as_str(), " (", d.2.as_str());
    let middle = text::cat3(" ", name, " ");
    let mut out = text::cat(head.as_str(), middle.as_str());
    out.append(d.1.as_str());
    out.append(")");
    assert(out@ =~= branch_text((d.0@, d.1@, d.2), name@));
    (out, String::from_str(d.0.as_str()))
}

/// The lines on the packages that depend on one. There are none if no package
/// does.
pub fn dependents_list(reverse: &StrMap<Vec<(String, String, DepKind)>>, target: &str) -> (r: Vec<
    String,
>)
    ensures
        text::texts(r@) == dependent_lines(found(reverse@, target@), target@),
{
    let mut out: Vec<String> = Vec::new();
    match reverse.get(target) {
        None => {
            assert(text::texts(out@) =~= dependent_lines(found(reverse@, target@), target@));
        },
        Some(list) => {
            let n: usize = list.len();
            let mut i: usize = 0;
            while i < n
                invariant
                    i <= n,
                    n == list@.len(),
                    out@.len() == i,
                    forall|j: int|
                        0 <= j < i ==> (#[trigger] out@[j])@ == dependent_line(
                            dependent_views(list@)[j],
                            target@,
                        ),
                decreases n - i,
            {
                out.push(line_of(&list[i], target));
                i += 1;
            }
            assert(text::texts(out@) =~= dependent_lines(found(reverse@, target@), target@));
        },
    }
    out
}

fn branch_list(list: &Vec<(String, String, DepKind)>, name: &str) -> (r: Vec<(String, String)>)
    ensures
        tree::branch_views(r@) == branches_of(dependent_views(list@), name@),
{
    let mut out: Vec<(String, String)> = Vec::new();
    let n: usize = list.len();
    let mut i: usize = 0;
    while i < n
        invariant
            i <= n,
            n == list@.len(),
            out@.len() == i,
            forall|j: int|
                0 <= j < i ==> {
                    let d = dependent_views(list@)[j];
                    &&& (#[trigger] out@[j]).0@ == branch_text(d, name@)
                    &&& out@[j].1@ == d.0
                },
        decreases n - i,
    {
        out.push(branch_of(&list[i], name));
        i += 1;
    }
    assert(tree::branch_views(out@) =~= branches_of(dependent_views(list@), name@));
    out
}

proof fn lemma_same_branches(
    m: Seq<(Seq<char>, Vec<(String, String)>)>,
    r: Seq<(Seq<char>, Vec<(String, String, DepKind)>)>,
    x: Seq<char>,
)
    requires
        m.len() == r.len(),
        forall|j: int|
            0 <= j < r.len() ==> (#[trigger] m[j]).0 == r[j].0 && tree::branch_views(m[j].1@)
                == branches_of(dependent_views(r[j].1@), r[j].0),
    ensures
        (match collections::lookup(m, x) {
            Some(v) => tree::branch_views(v@),
            None => Seq::empty(),
        }) == branches_of(found(r, x), x),
    decreases r.len(),
{
    if r.len() == 0 {
        assert(branches_of(found(r, x), x) =~= Seq::empty());
    } else {
        assert(m[0].0 == r[0].0);
        if r[0].0 != x {
            assert forall|j: int| 0 <= j < r.skip(1).len() implies (#[trigger] m.skip(1)[j]).0
                == r.skip(1)[j].0 && tree::branch_views(m.skip(1)[j].1@) == branches_of(
                dependent_views(r.skip(1)[j].1@),
                r.skip(1)[j].0,
            ) by {
                assert(m[j + 1].0 == r[j + 1].0);
            }
            lemma_same_branches(m.skip(1), r.skip(1), x);
        }
    }
}

/// The lines of the tree of the packages that depend on one.
pub fn dependents_tree(reverse: &StrMap<Vec<(String, String, DepKind)>>, target: &str) -> (r: Vec<
    String,
>)
    ensures
        text::texts(r@) == tree::tree_of(
            held_tree(reverse@),
            target@,
            Seq::empty(),
            Set::empty(),
            0,
            20,
        ).0,
{
    let mut m: Vec<(String, Vec<(String, String)>)> = Vec::new();
    let n: usize = reverse.entries.len();
    let mut i: usize = 0;
    while i < n
        invariant
            i <= n,
            n == reverse.entries@.len(),
            m@.len() == i,
            forall|j: int|
                0 <= j < i ==> (#[trigger] m@[j]).0@ == reverse@[j].0 && tree::branch_views(
                    m@[j].1@,
                ) == branches_of(dependent_views(reverse@[j].1@), reverse@[j].0),
        decreases n - i,
    {
        let name = reverse.entries[i].0.as_str();
        let list = branch_list(&reverse.entries[i].1, name);
        m.push((String::from_str(name), list));
        i += 1;
    }
    let map = StrMap { entries: m };
    proof {
        assert forall|j: int| 0 <= j < reverse@.len() implies (#[trigger] map@[j]).0
            == reverse@[j].0 && tree::branch_views(map@[j].1@) == branches_of(
            dependent_views(reverse@[j].1@),
            reverse@[j].0,
        ) by {
            assert(m@[j].0@ == reverse@[j].0);
        }
        assert forall|x: Seq<char>| #[trigger]
            tree::branches(map)(x) == held_tree(reverse@)(x) by {
            lemma_same_branches(map@, reverse@, x);
        }
        assert(tree::branches(map) =~= held_tree(reverse@));
        reveal_strlit("");
        assert(""@ =~= Seq::empty());
    }
    let mut out: Vec<String> = Vec::new();
    let mut seen = StrSet::new();
    assert(text::texts(out@) =~= Seq::empty());
    tree::push_tree(&mut out, &map, target, "", &mut seen, 0, 20);
    assert(text::texts(out@) =~= tree::tree_of(
        held_tree(reverse@),
        target@,
        Seq::empty(),
        Set::empty(),
        0,
        20,
    ).0);
    out
}

/// What is said of a package that nothing requires.
pub fn no_dependents(target: &str) -> (r: String)
    ensures
        r@ == "No locked packages require "@ + target@,
{
    text::cat("No locked packages require ", target)
}

/// The line on the chain to a package.
pub fn chain_line(chain: &Option<Vec<String>>, package: &str) -> (r: Result<String, Error>)
    ensures
        match chain {
            Some(c) => r is Ok && r->Ok_0@ == text::joined(text::texts(c@), " → "@),
            None => r matches Err(Error::Other(t)) && t@ == package@
                + " is not in the installed dependency graph"@,
        },
{
    match chain {
        Some(c) => Ok(text::join(c, " → ")),
        None => Err(
            Error::Other(text::cat(package, " is not in the installed dependency graph")),
        ),
    }
}

// ---------------------------------------------------------------------------
// What stands against a version

/// The version that is asked for, also where it is written as a constraint.
pub open spec fn asked_version(s: Seq<char>) -> Option<version::VersionView> {
    match version::parsed(s) {
        Some(v) => Some(v),
        None => version::parsed(text::without_front(text::without_front(s, '^'), '~')),
    }
}

/// The version that is asked for.
pub fn wanted_version(s: &str) -> (r: Result<ComposerVersion, Error>)
    ensures
        match asked_version(s@) {
            Some(v) => r is Ok && r->Ok_0@ == v,
            None => r matches Err(Error::InvalidVersion(t)) && t@ == version::bad_version_text(
                text::without_front(text::without_front(s@, '^'), '~'),
            ),
        },
{
    match ComposerVersion::parse(s) {
        Ok(v) => Ok(v),
        Err(_) => ComposerVersion::parse(
            text::trim_front_char(text::trim_front_char(s, '^'), '~'),
        ),
    }
}

/// What is said of a version that the project does not allow.
pub open spec fn root_text(package: Seq<char>, c: Seq<char>, ver: Seq<char>) -> Seq<char> {
    "root requires "@ + package + " ("@ + c + ") which does not allow "@ + ver
}

/// What the project has against a version.
pub fn root_prohibits(manifest: &ComposerJson, package: &str, ver: &str, want: &ComposerVersion) -> (r:
    Option<String>)
    ensures
        text::opt_text(r) == match outdated::root_constraint_of(
            manifest@.require,
            manifest@.require_dev,
            package@,
        ) {
            Some(c) => if constraint::satisfies(c, want@) {
                None
            } else {
                Some(root_text(package@, c, ver@))
            },
            None => None,
        },
{
    let c = match outdated::root_constraint(manifest, package) {
        Some(c) => c,
        None => return None,
    };
    if VersionConstraint::new(c).matches(want) {
        return None;
    }
    let head = text::cat3("root requires ", package, " (");
    let tail = text::cat3(c, ") which does not allow ", ver);
    let out = text::cat(head.as_str(), tail.as_str());
    assert(out@ =~= root_text(package@, c@, ver@));
    Some(out)
}

/// What is said of a version that a package does not allow.
pub open spec fn locked_text(
    p: lock::LockedView,
    kind: DepKind,
    package: Seq<char>,
    c: Seq<char>,
    ver: Seq<char>,
) -> Seq<char> {
    p.name + " "@ + p.version + " "@ + kind_word(kind) + " "@ + package + " ("@ + c
        + ") — conflicts with "@ + ver
}

/// What a list of requirements has against a version.
pub open spec fn link_fault(
    p: lock::LockedView,
    reqs: Seq<(Seq<char>, Seq<char>)>,
    kind: DepKind,
    package: Seq<char>,
    ver: Seq<char>,
    want: version::VersionView,
) -> Seq<Seq<char>> {
    match collections::lookup(reqs, package) {
        Some(c) => if constraint::satisfies(c, want) {
            Seq::empty()
        } else {
            seq![locked_text(p, kind, package, c, ver)]
        },
        None => Seq::empty(),
    }
}

/// What locked packages have against a version.
pub open spec fn locked_faults(
    v: Seq<lock::LockedView>,
    package: Seq<char>,
    ver: Seq<char>,
    want: version::VersionView,
    with_dev: bool,
) -> Seq<Seq<char>>
    decreases v.len(),
{
    if v.len() == 0 {
        Seq::empty()
    } else {
        let p = v.last();
        locked_faults(v.drop_last(), package, ver, want, with_dev) + link_fault(
            p,
            p.require,
            DepKind::Require,
            package,
            ver,
            want,
        ) + if with_dev {
            link_fault(p, p.require_dev, DepKind::RequireDev, package, ver, want)
        } else {
            Seq::empty()
        }
    }
}

fn push_link_fault(
    out: &mut Vec<String>,
    p: &LockedPackage,
    reqs: &StrMap<String>,
    kind: DepKind,
    package: &str,
    ver: &str,
    want: &ComposerVersion,
)
    ensures
        text::texts(final(out)@) == text::texts(old(out)@) + link_fault(
            p@,
            collections::link_pairs(*reqs),
            kind,
            package@,
            ver@,
            want@,
        ),
{
    let ghost before = text::texts(out@);
    proof {
        collections::lemma_link_lookup(*reqs, package@);
        assert(before + Seq::<Seq<char>>::empty() =~= before);
    }
    if let Some(c) = reqs.get(package) {
        if !VersionConstraint::new(c.as_str()).matches(want) {
            let a = text::cat3(p.name.as_str(), " ", p.version.as_str());
            let b = text::cat3(" ", kind.as_str(), " ");
            let d = text::cat3(package, " (", c.as_str());
            let e = text::cat(") — conflicts with ", ver);
            let mut line = text::cat3(a.as_str(), b.as_str(), d.as_str());
            line.append(e.as_str());
            assert(line@ =~= locked_text(p@, kind, package@, c@, ver@));
            out.push(line);
            assert(text::texts(out@) =~= before + seq![line@]);
        }
    }
}

/// What locked packages have against a version.
pub fn lock_prohibits(
    packages: &Vec<&LockedPackage>,
    package: &str,
    ver: &str,
    want: &ComposerVersion,
    with_dev: bool,
) -> (r: Vec<String>)
    ensures
        text::texts(r@) == locked_faults(
            lock::ref_views(packages@),
            package@,
            ver@,
            want@,
            with_dev,
        ),
{
    let ghost all = lock::ref_views(packages@);
    let mut out: Vec<String> = Vec::new();
    let n: usize = packages.len();
    let mut i: usize = 0;
    assert(text::texts(out@) =~= Seq::empty());
    while i < n
        invariant
            i <= n,
            n == packages@.len(),
            all == lock::ref_views(packages@),
            text::texts(out@) == locked_faults(
                all.take(i as int),
                package@,
                ver@,
                want@,
                with_dev,
            ),
        decreases n - i,
    {
        let p = packages[i];
        proof {
            assert(all.take(i + 1).drop_last() =~= all.take(i as int));
            assert(all.take(i + 1).last() == p@);
        }
        push_link_fault(&mut out, p, &p.require, DepKind::Require, package, ver, want);
        if with_dev {
            push_link_fault(&mut out, p, &p.require_dev, DepKind::RequireDev, package, ver, want);
        } else {
            assert(text::texts(out@) + Seq::<Seq<char>>::empty() =~= text::texts(out@));
        }
        i += 1;
    }
    assert(all.take(n as int) =~= all);
    out
}

/// Some version is the one that is asked for, or is written like it.
pub open spec fn offers(v: Seq<repo::RemoteView>, ver: Seq<char>, want: version::VersionView) -> bool {
    exists|i: int|
        0 <= i < v.len() && ((#[trigger] v[i]).version.raw == ver || v[i].version == want)
}

/// Whether some version is the one that is asked for, or is written like it.
pub fn is_offered(versions: &Vec<RemotePackageVersion>, ver: &str, want: &ComposerVersion) -> (r: bool)
    ensures
        r == offers(repo::remote_views(versions@), ver@, want@),
{
    let ghost all = repo::remote_views(versions@);
    let n: usize = versions.len();
    let mut i: usize = 0;
    while i < n
        invariant
            i <= n,
            n == versions@.len(),
            all == repo::remote_views(versions@),
            forall|j: int|
                0 <= j < i ==> !((#[trigger] all[j]).version.raw == ver@ || all[j].version
                    == want@),
        decreases n - i,
    {
        assert(all[i as int] == versions@[i as int]@);
        if text::same(versions[i].version.as_str(), ver) || versions[i].version.same(want) {
            return true;
        }
        i += 1;
    }
    false
}

// ---------------------------------------------------------------------------
// The commands

/// Lines that are shown as they are.
pub open spec fn plain(lines: Seq<Seq<char>>) -> Seq<(Tone, Seq<char>)> {
    lines.map_values(|l: Seq<char>| (Tone::Plain, l))
}

fn plain_messages(lines: Vec<String>) -> (r: Vec<Message>)
    ensures
        commands::said(r@) == plain(text::texts(lines@)),
{
    let mut out: Vec<Message> = Vec::new();
    let n: usize = lines.len();
    let mut i: usize = 0;
    while i < n
        invariant
            i <= n,
            n == lines@.len(),
            out@.len() == i,
            forall|j: int| 0 <= j < i ==> (#[trigger] out@[j])@ == (Tone::Plain, lines@[j]@),
        decreases n - i,
    {
        out.push(Message { tone: Tone::Plain, text: String::from_str(lines[i].as_str()) });
        i += 1;
    }
    assert(commands::said(out@) =~= plain(text::texts(lines@)));
    out
}

/// What is said of the packages that depend on one: their tree, the packages that
/// depend on it directly, or that there are none.
pub open spec fn dependents_said(
    v: Seq<lock::LockedView>,
    with_dev: bool,
    target: Seq<char>,
    tree_wanted: bool,
) -> Seq<(Tone, Seq<char>)> {
    let direct = dependents_of(v, with_dev, target);
    if tree_wanted {
        plain(
            tree::tree_of(
                dependent_tree(v, with_dev),
                target,
                Seq::empty(),
                Set::empty(),
                0,
                20,
            ).0,
        )
    } else if direct.len() > 0 {
        plain(dependent_lines(direct, target))
    } else {
        seq![(Tone::Info, "No locked packages require "@ + target)]
    }
}

/// What is said of the packages that depend on one.
pub fn run_depends(args: &DependsArgs, lock: &ComposerLock) -> (r: Vec<Message>)
    ensures
        commands::said(r@) == dependents_said(
            lock::to_install(lock@, !args.no_dev),
            !args.no_dev,
            args.package@,
            args.tree || args.recursive,
        ),
{
    let with_dev = !args.no_dev;
    let packages = lock.packages_to_install(with_dev);
    let ghost v = lock::to_install(lock@, with_dev);
    let reverse = reverse_dependents(&packages, with_dev);
    let target = args.package.as_str();
    assert(found(reverse@, target@) == dependents_of(v, with_dev, target@));
    if args.tree || args.recursive {
        proof {
            assert forall|x: Seq<char>| #[trigger]
                held_tree(reverse@)(x) == dependent_tree(v, with_dev)(x) by {
                assert(found(reverse@, x) == dependents_of(v, with_dev, x));
            }
            assert(held_tree(reverse@) =~= dependent_tree(v, with_dev));
        }
        return plain_messages(dependents_tree(&reverse, target));
    }
    let lines = dependents_list(&reverse, target);
    assert(text::texts(lines@).len() == found(reverse@, target@).len());
    if lines.len() == 0 {
        let mut out: Vec<Message> = Vec::new();
        assert(commands::said(out@) =~= Seq::empty());
        commands::say(&mut out, Tone::Info, no_dependents(target));
        assert(commands::said(out@) =~= dependents_said(v, with_dev, target@, false));
        return out;
    }
    plain_messages(lines)
}

/// The chain of requirements from a project to a package.
pub fn run_why(args: &DependsArgs, manifest: &ComposerJson, lock: &ComposerLock) -> (r: Result<
    String,
    Error,
>)
    ensures
        match why::chain_to(
            roots_of(manifest@, !args.no_dev),
            forward_map(lock::to_install(lock@, !args.no_dev), !args.no_dev),
            args.package@,
        ) {
            Some(c) => r is Ok && r->Ok_0@ == text::joined(c, " → "@),
            None => r matches Err(Error::Other(t)) && t@ == args.package@
                + " is not in the installed dependency graph"@,
        },
{
    let with_dev = !args.no_dev;
    let packages = lock.packages_to_install(with_dev);
    let graph = forward_deps(&packages, with_dev);
    let roots = root_packages(manifest, with_dev);
    let chain = why::why_chain(roots.as_slice(), &graph, args.package.as_str());
    chain_line(&chain, args.package.as_str())
}

/// What stands against a version, as far as the project can tell.
#[derive(Debug)]
pub enum Prohibition {
    /// Something does.
    Found(Vec<String>),
    /// Nothing does; the repositories are asked for the version.
    AskRepositories(ComposerVersion),
}

/// The lines on what stands against a version.
pub open spec fn prohibitions(
    m: manifest::ManifestView,
    l: Option<lock::LockView>,
    package: Seq<char>,
    ver: Seq<char>,
    want: version::VersionView,
    with_dev: bool,
) -> Seq<Seq<char>> {
    match outdated::root_constraint_of(m.require, m.require_dev, package) {
        Some(c) if !constraint::satisfies(c, want) => seq![root_text(package, c, ver)],
        _ => match l {
            Some(x) => locked_faults(lock::to_install(x, with_dev), package, ver, want, with_dev),
            None => Seq::empty(),
        },
    }
}

/// Tells what stands against a version.
pub fn run_prohibits(args: &DependsArgs, manifest: &ComposerJson, lock: Option<&ComposerLock>) -> (r:
    Result<Prohibition, Error>)
    ensures
        match args.version {
            None => r matches Err(Error::Other(t)) && t@
                == "version constraint required (e.g. why-not foo/bar 2.0)"@,
            Some(ver) => match asked_version(ver@) {
                None => r matches Err(Error::InvalidVersion(t)) && t@ == version::bad_version_text(
                    text::without_front(text::without_front(ver@, '^'), '~'),
                ),
                Some(want) => {
                    let lines = prohibitions(
                        manifest@,
                        match lock {
                            Some(l) => Some(l@),
                            None => None,
                        },
                        args.package@,
                        ver@,
                        want,
                        !args.no_dev,
                    );
                    if lines.len() > 0 {
                        r matches Ok(Prohibition::Found(v)) && text::texts(v@) == lines
                    } else {
                        r matches Ok(Prohibition::AskRepositories(w)) && w@ == want
                    }
                },
            },
        },
{
    let ver = match &args.version {
        Some(v) => v.as_str(),
        None => {
            return Err(
                Error::Other(
                    String::from_str("version constraint required (e.g. why-not foo/bar 2.0)"),
                ),
            );
        },
    };
    let package = args.package.as_str();
    let want = wanted_version(ver)?;
    if let Some(line) = root_prohibits(manifest, package, ver, &want) {
        let mut v: Vec<String> = Vec::new();
        v.push(line);
        assert(text::texts(v@) =~= seq![line@]);
        return Ok(Prohibition::Found(v));
    }
    if let Some(l) = lock {
        let with_dev = !args.no_dev;
        let packages = l.packages_to_install(with_dev);
        let lines = lock_prohibits(&packages, package, ver, &want, with_dev);
        assert(text::texts(lines@).len() == lines@.len());
        if lines.len() > 0 {
            return Ok(Prohibition::Found(lines));
        }
    }
    Ok(Prohibition::AskRepositories(want))
}

/// What is said of a version once the repositories told their versions.
pub fn repositories_say(
    versions: &Vec<RemotePackageVersion>,
    package: &str,
    ver: &str,
    want: &ComposerVersion,
) -> (r: Message)
    ensures
        r@ == if offers(repo::remote_views(versions@), ver@, want@) {
            (
                Tone::Info,
                "No hard conflicts found for "@ + package@ + " "@ + ver@
                    + " against the current lock/root constraints"@,
            )
        } else {
            (
                Tone::Plain,
                "No version matching "@ + ver@ + " found for "@ + package@
                    + " on configured repositories"@,
            )
        },
{
    if is_offered(versions, ver, want) {
        let head = text::cat3("No hard conflicts found for ", package, " ");
        Message {
            tone: Tone::Info,
            text: text::cat3(
                head.as_str(),
                ver,
                " against the current lock/root constraints",
            ),
        }
    } else {
        let head = text::cat3("No version matching ", ver, " found for ");
        Message {
            tone: Tone::Plain,
            text: text::cat3(head.as_str(), package, " on configured repositories"),
        }
    }
}

// ---------------------------------------------------------------------------
// Laws

proof fn lemma_links_to(
    name: Seq<char>,
    reqs: Seq<(Seq<char>, Seq<char>)>,
    kind: DepKind,
    x: Seq<char>,
    d: Dependent,
)
    ensures
        links_to(name, reqs, kind, x).contains(d) <==> d.0 == name && d.2 == kind
            && !package::names_platform(x) && exists|j: int|
            0 <= j < reqs.len() && #[trigger] reqs[j] == (x, d.1),
    decreases reqs.len(),
{
    if reqs.len() > 0 {
        let front = reqs.drop_last();
        let rest = links_to(name, front, kind, x);
        let all = links_to(name, reqs, kind, x);
        lemma_links_to(name, front, kind, x, d);
        assert(reqs[reqs.len() - 1] == reqs.last());
        if all.contains(d) {
            let k = choose|k: int| 0 <= k < all.len() && all[k] == d;
            if k < rest.len() {
                assert(rest[k] == d);
                let j = choose|j: int| 0 <= j < front.len() && #[trigger] front[j] == (x, d.1);
                assert(reqs[j] == front[j]);
            } else {
                assert(reqs.last() == (x, d.1));
            }
        }
        if d.0 == name && d.2 == kind && !package::names_platform(x) && exists|j: int|
            0 <= j < reqs.len() && #[trigger] reqs[j] == (x, d.1) {
            let j = choose|j: int| 0 <= j < reqs.len() && #[trigger] reqs[j] == (x, d.1);
            if j < front.len() {
                assert(front[j] == reqs[j]);
                let k = choose|k: int| 0 <= k < rest.len() && rest[k] == d;
                assert(all[k] == d);
            } else {
                assert(all[rest.len() as int] == d);
            }
        }
    }
}

/// The package at `i` requires `x` as `d` says.
pub open spec fn requires_as(p: lock::LockedView, x: Seq<char>, d: Dependent, with_dev: bool) -> bool {
    &&& d.0 == p.name
    &&& !package::names_platform(x)
    &&& match d.2 {
        DepKind::Require => exists|j: int|
            0 <= j < p.require.len() && #[trigger] p.require[j] == (x, d.1),
        DepKind::RequireDev => with_dev && exists|j: int|
            0 <= j < p.require_dev.len() && #[trigger] p.require_dev[j] == (x, d.1),
    }
}

/// The dependents of a package are exactly the locked packages that require it,
/// each with its constraint; requirements for development count only if they are
/// asked for.
pub proof fn law_who_depends(v: Seq<lock::LockedView>, with_dev: bool, x: Seq<char>, d: Dependent)
    ensures
        dependents_of(v, with_dev, x).contains(d) <==> exists|i: int|
            0 <= i < v.len() && requires_as(#[trigger] v[i], x, d, with_dev),
    decreases v.len(),
{
    if v.len() > 0 {
        let front = v.drop_last();
        let p = v.last();
        assert(v[v.len() - 1] == p);
        law_who_depends(front, with_dev, x, d);
        let rest = dependents_of(front, with_dev, x);
        let own = links_to(p.name, p.require, DepKind::Require, x);
        let dev = if with_dev {
            links_to(p.name, p.require_dev, DepKind::RequireDev, x)
        } else {
            Seq::empty()
        };
        let all = dependents_of(v, with_dev, x);
        lemma_links_to(p.name, p.require, DepKind::Require, x, d);
        lemma_links_to(p.name, p.require_dev, DepKind::RequireDev, x, d);
        assert(all =~= rest + own + dev);
        lemma_in_three(rest, own, dev, d);
        if rest.contains(d) {
            let i = choose|i: int|
                0 <= i < front.len() && requires_as(#[trigger] front[i], x, d, with_dev);
            assert(v[i] == front[i]);
        }
        if exists|i: int| 0 <= i < v.len() && requires_as(#[trigger] v[i], x, d, with_dev) {
            let i = choose|i: int| 0 <= i < v.len() && requires_as(#[trigger] v[i], x, d, with_dev);
            if i < front.len() {
                assert(front[i] == v[i]);
            }
        }
    }
}

proof fn lemma_in_three<T>(a: Seq<T>, b: Seq<T>, c: Seq<T>, d: T)
    ensures
        (a + b + c).contains(d) <==> a.contains(d) || b.contains(d) || c.contains(d),
{
    let all = a + b + c;
    if a.contains(d) {
        let k = choose|k: int| 0 <= k < a.len() && a[k] == d;
        assert(all[k] == d);
    }
    if b.contains(d) {
        let k = choose|k: int| 0 <= k < b.len() && b[k] == d;
        assert(all[a.len() + k] == d);
    }
    if c.contains(d) {
        let k = choose|k: int| 0 <= k < c.len() && c[k] == d;
        assert(all[a.len() + b.len() + k] == d);
    }
    if all.contains(d) {
        let k = choose|k: int| 0 <= k < all.len() && all[k] == d;
        if k < a.len() {
            assert(a[k] == d);
        } else if k < a.len() + b.len() {
            assert(b[k - a.len()] == d);
        } else {
            assert(c[k - a.len() - b.len()] == d);
        }
    }
}

proof fn lemma_placed_name(s: Seq<Seq<char>>, x: Seq<char>)
    requires
        forall|i: int, j: int| 0 <= i < j < s.len() ==> text::text_lt(#[trigger] s[i], #[trigger] s[j]),
    ensures
        forall|i: int, j: int|
            0 <= i < j < placed_name(s, x).len() ==> text::text_lt(
                #[trigger] placed_name(s, x)[i],
                #[trigger] placed_name(s, x)[j],
            ),
        forall|y: Seq<char>| #[trigger]
            placed_name(s, x).contains(y) <==> s.contains(y) || y == x,
    decreases s.len(),
{
    let r = placed_name(s, x);
    if s.len() == 0 {
        assert(r[0] == x);
    } else if s[0] == x {
        assert(s[0] == x);
    } else if text::text_lt(x, s[0]) {
        assert forall|i: int, j: int| 0 <= i < j < r.len() implies text::text_lt(
            #[trigger] r[i],
            #[trigger] r[j],
        ) by {
            assert(r[j] == s[j - 1]);
            if i == 0 {
                if j > 1 {
                    assert(text::text_lt(s[0], s[j - 1]));
                    text::lemma_text_lt_transitive(x, s[0], s[j - 1]);
                }
            } else {
                assert(r[i] == s[i - 1]);
            }
        }
        assert forall|y: Seq<char>| #[trigger] r.contains(y) <==> s.contains(y) || y == x by {
            lemma_in_front(x, s, y);
        }
    } else {
        let rest = s.skip(1);
        assert forall|i: int, j: int| 0 <= i < j < rest.len() implies text::text_lt(
            #[trigger] rest[i],
            #[trigger] rest[j],
        ) by {
            assert(rest[i] == s[i + 1] && rest[j] == s[j + 1]);
        }
        lemma_placed_name(rest, x);
        let p = placed_name(rest, x);
        text::lemma_text_lt_total(x, s[0]);
        assert forall|i: int, j: int| 0 <= i < j < r.len() implies text::text_lt(
            #[trigger] r[i],
            #[trigger] r[j],
        ) by {
            assert(r[j] == p[j - 1]);
            if i == 0 {
                assert(p.contains(p[j - 1]));
                if p[j - 1] != x {
                    let k = choose|k: int| 0 <= k < rest.len() && rest[k] == p[j - 1];
                    assert(s[k + 1] == rest[k]);
                    assert(text::text_lt(s[0], s[k + 1]));
                }
            } else {
                assert(r[i] == p[i - 1]);
            }
        }
        assert forall|y: Seq<char>| #[trigger] r.contains(y) <==> s.contains(y) || y == x by {
            lemma_in_front(s[0], p, y);
            lemma_in_front(s[0], rest, y);
            assert(seq![s[0]] + rest =~= s);
        }
    }
}

proof fn lemma_in_front(x: Seq<char>, s: Seq<Seq<char>>, y: Seq<char>)
    ensures
        (seq![x] + s).contains(y) <==> y == x || s.contains(y),
{
    let all = seq![x] + s;
    assert(all[0] == x);
    if s.contains(y) {
        let k = choose|k: int| 0 <= k < s.len() && s[k] == y;
        assert(all[k + 1] == y);
    }
    if all.contains(y) {
        let k = choose|k: int| 0 <= k < all.len() && all[k] == y;
        if k > 0 {
            assert(s[k - 1] == y);
        }
    }
}

/// Sorted names rise, none stands twice, and none is lost or added.
pub proof fn law_names_are_sorted(s: Seq<Seq<char>>)
    ensures
        forall|i: int, j: int|
            0 <= i < j < sorted_names(s).len() ==> text::text_lt(
                #[trigger] sorted_names(s)[i],
                #[trigger] sorted_names(s)[j],
            ),
        forall|y: Seq<char>| #[trigger] sorted_names(s).contains(y) <==> s.contains(y),
    decreases s.len(),
{
    if s.len() > 0 {
        let front = s.drop_last();
        law_names_are_sorted(front);
        lemma_placed_name(sorted_names(front), s.last());
        assert forall|y: Seq<char>| #[trigger] sorted_names(s).contains(y) <==> s.contains(y) by {
            assert(s[s.len() - 1] == s.last());
            if front.contains(y) {
                let k = choose|k: int| 0 <= k < front.len() && front[k] == y;
                assert(s[k] == y);
            }
            if s.contains(y) {
                let k = choose|k: int| 0 <= k < s.len() && s[k] == y;
                if k < front.len() {
                    assert(front[k] == y);
                }
            }
        }
    }
}

/// A version is prohibited by the locked packages if and only if one of them
/// requires the package by a constraint that does not allow it.
pub proof fn law_what_prohibits(
    v: Seq<lock::LockedView>,
    package: Seq<char>,
    ver: Seq<char>,
    want: version::VersionView,
    with_dev: bool,
)
    ensures
        locked_faults(v, package, ver, want, with_dev).len() > 0 <==> exists|i: int|
            0 <= i < v.len() && forbids(#[trigger] v[i], package, want, with_dev),
    decreases v.len(),
{
    if v.len() > 0 {
        let front = v.drop_last();
        law_what_prohibits(front, package, ver, want, with_dev);
        assert(v[v.len() - 1] == v.last());
        if exists|i: int| 0 <= i < front.len() && forbids(#[trigger] front[i], package, want, with_dev) {
            let i = choose|i: int|
                0 <= i < front.len() && forbids(#[trigger] front[i], package, want, with_dev);
            assert(v[i] == front[i]);
        }
        if exists|i: int| 0 <= i < v.len() && forbids(#[trigger] v[i], package, want, with_dev) {
            let i = choose|i: int|
                0 <= i < v.len() && forbids(#[trigger] v[i], package, want, with_dev);
            if i < front.len() {
                assert(front[i] == v[i]);
            }
        }
    }
}

/// A locked package requires `package` by a constraint that does not allow `want`.
pub open spec fn forbids(
    p: lock::LockedView,
    package: Seq<char>,
    want: version::VersionView,
    with_dev: bool,
) -> bool {
    ||| collections::lookup(p.require, package) matches Some(c) && !constraint::satisfies(c, want)
    ||| with_dev && (collections::lookup(p.require_dev, package) matches Some(c)
        && !constraint::satisfies(c, want))
}

} // verus!
