//! Showing packages.

use crate::collections;
use crate::collections::StrMap;
use crate::collections::StrSet;
use crate::commands::depends;
use crate::commands::depends::DepKind;
use crate::commands::tree;
use crate::index;
use crate::lock;
use crate::lock::LockedPackage;
use crate::manifest::ComposerJson;
use crate::package;
use crate::repo;
use crate::repo::RemotePackageVersion;
use crate::solution;
use crate::text;
use crate::version;
use vstd::prelude::*;

verus! {

/// What is asked of packages.
#[derive(Debug, Clone)]
pub struct ShowArgs {
    pub package: Option<String>,
    /// All versions.
    pub all: bool,
    pub tree: bool,
    /// Only packages that the project itself requires.
    pub direct: bool,
    pub no_dev: bool,
    /// Where the package is installed.
    pub path: bool,
}

// ---------------------------------------------------------------------------
// One package

/// The place of the highest stable version, the last one of equals.
pub open spec fn highest_stable(v: Seq<repo::RemoteView>) -> Option<int>
    decreases v.len(),
{
    if v.len() == 0 {
        None
    } else {
        let rest = highest_stable(v.drop_last());
        let own = v.last().version;
        match rest {
            Some(i) => if own.stability is Stable && !version::version_lt(own, v[i].version) {
                Some(v.len() - 1)
            } else {
                rest
            },
            None => if own.stability is Stable {
                Some(v.len() - 1)
            } else {
                None
            },
        }
    }
}

/// The place of the version that is shown: the highest stable one, or the first.
pub open spec fn shown_version(v: Seq<repo::RemoteView>) -> int {
    match highest_stable(v) {
        Some(i) => i,
        None => 0,
    }
}

/// The version that is shown; `None` if there are no versions.
pub fn latest_shown(versions: &Vec<RemotePackageVersion>) -> (r: Option<&RemotePackageVersion>)
    ensures
        match r {
            Some(x) => versions@.len() > 0 && x@ == repo::remote_views(versions@)[shown_version(
                repo::remote_views(versions@),
            )],
            None => versions@.len() == 0,
        },
{
    let ghost all = repo::remote_views(versions@);
    let n: usize = versions.len();
    if n == 0 {
        return None;
    }
    let mut best: Option<usize> = None;
    let mut i: usize = 0;
    while i < n
        invariant
            i <= n,
            n == versions@.len(),
            all == repo::remote_views(versions@),
            match best {
                Some(b) => b < i && highest_stable(all.take(i as int)) == Some(b as int),
                None => highest_stable(all.take(i as int)) is None,
            },
        decreases n - i,
    {
        proof {
            assert(all.take(i + 1).drop_last() =~= all.take(i as int));
            assert(all.take(i + 1).last() == versions@[i as int]@);
            if best is Some {
                assert(all.take(i + 1)[best->0 as int] == versions@[best->0 as int]@);
            }
        }
        if versions[i].version.is_stable() {
            let takes = match best {
                Some(b) => !versions[i].version.lies_below(&versions[b].version),
                None => true,
            };
            if takes {
                best = Some(i);
            }
        }
        i += 1;
    }
    assert(all.take(n as int) =~= all);
    let at: usize = match best {
        Some(b) => b,
        None => 0,
    };
    assert(all[at as int] == versions@[at as int]@);
    Some(&versions[at])
}

/// The lines on requirements.
pub open spec fn requirement_lines(reqs: Seq<(Seq<char>, Seq<char>)>) -> Seq<Seq<char>> {
    if reqs.len() == 0 {
        Seq::empty()
    } else {
        seq!["requires:"@] + reqs.map_values(
            |e: (Seq<char>, Seq<char>)| "  "@ + e.0 + ": "@ + e.1,
        )
    }
}

/// The lines on a package.
pub open spec fn package_lines(
    name: Seq<char>,
    version: Seq<char>,
    kind: Option<Seq<char>>,
    description: Option<Seq<char>>,
    dist: Option<Seq<char>>,
    reqs: Seq<(Seq<char>, Seq<char>)>,
) -> Seq<Seq<char>> {
    seq![
        "name       : "@ + name,
        "version    : "@ + version,
        "type       : "@ + match kind {
            Some(k) => k,
            None => "library"@,
        },
    ] + (match description {
        Some(d) => seq!["description: "@ + d],
        None => Seq::empty(),
    }) + (match dist {
        Some(u) => seq!["dist       : "@ + u],
        None => Seq::empty(),
    }) + requirement_lines(reqs)
}

fn push_line(out: &mut Vec<String>, label: &str, value: &str)
    ensures
        text::texts(final(out)@) == text::texts(old(out)@).push(label@ + value@),
{
    let ghost before = text::texts(out@);
    out.push(text::cat(label, value));
    assert(text::texts(out@) =~= before.push(label@ + value@));
}

fn push_requirements(out: &mut Vec<String>, reqs: &StrMap<String>)
    ensures
        text::texts(final(out)@) == text::texts(old(out)@) + requirement_lines(
            collections::link_pairs(*reqs),
        ),
{
    let ghost start = text::texts(out@);
    let ghost all = collections::link_pairs(*reqs);
    let n: usize = reqs.entries.len();
    if n == 0 {
        assert(start + Seq::<Seq<char>>::empty() =~= start);
        return;
    }
    out.push(String::from_str("requires:"));
    let ghost head = start.push("requires:"@);
    assert(text::texts(out@) =~= head);
    let ghost lines = all.map_values(|e: (Seq<char>, Seq<char>)| "  "@ + e.0 + ": "@ + e.1);
    let mut i: usize = 0;
    assert(head + lines.take(0) =~= head);
    while i < n
        invariant
            i <= n,
            n == reqs.entries@.len(),
            all == collections::link_pairs(*reqs),
            lines == all.map_values(|e: (Seq<char>, Seq<char>)| "  "@ + e.0 + ": "@ + e.1),
            text::texts(out@) == head + lines.take(i as int),
        decreases n - i,
    {
        let a = text::cat3("  ", reqs.entries[i].0.as_str(), ": ");
        let line = text::cat(a.as_str(), reqs.entries[i].1.as_str());
        assert(line@ == lines[i as int]);
        let ghost before = text::texts(out@);
        out.push(line);
        assert(text::texts(out@) =~= before.push(line@));
        assert(text::texts(out@) =~= head + lines.take(i + 1));
        i += 1;
    }
    assert(head + lines.take(n as int) =~= start + requirement_lines(all));
}

fn kind_of(t: &Option<String>) -> (r: &str)
    ensures
        r@ == match text::opt_text(*t) {
            Some(k) => k,
            None => "library"@,
        },
{
    match t {
        Some(k) => k.as_str(),
        None => "library",
    }
}

/// The lines on a version that is to be had.
pub fn remote_lines(v: &RemotePackageVersion) -> (r: Vec<String>)
    ensures
        text::texts(r@) == package_lines(
            v@.name,
            v@.version.raw,
            v@.package_type,
            v@.description,
            match v@.dist {
                Some(d) => Some(d.url),
                None => None,
            },
            v@.require,
        ),
{
    let mut out: Vec<String> = Vec::new();
    assert(text::texts(out@) =~= Seq::empty());
    push_line(&mut out, "name       : ", v.name.as_str());
    push_line(&mut out, "version    : ", v.version.as_str());
    push_line(&mut out, "type       : ", kind_of(&v.package_type));
    if let Some(d) = &v.description {
        push_line(&mut out, "description: ", d.as_str());
    }
    if let Some(d) = &v.dist {
        push_line(&mut out, "dist       : ", d.url.as_str());
    }
    push_requirements(&mut out, &v.require);
    assert(text::texts(out@) =~= package_lines(
        v@.name,
        v@.version.raw,
        v@.package_type,
        v@.description,
        match v@.dist {
            Some(d) => Some(d.url),
            None => None,
        },
        v@.require,
    ));
    out
}

/// The lines on a locked package.
pub fn locked_lines(p: &LockedPackage) -> (r: Vec<String>)
    ensures
        text::texts(r@) == package_lines(
            p@.name,
            p@.version,
            p@.package_type,
            p@.description,
            None,
            p@.require,
        ),
{
    let mut out: Vec<String> = Vec::new();
    assert(text::texts(out@) =~= Seq::empty());
    push_line(&mut out, "name       : ", p.name.as_str());
    push_line(&mut out, "version    : ", p.version.as_str());
    push_line(&mut out, "type       : ", kind_of(&p.package_type));
    if let Some(d) = &p.description {
        push_line(&mut out, "description: ", d.as_str());
    }
    push_requirements(&mut out, &p.require);
    assert(text::texts(out@) =~= package_lines(
        p@.name,
        p@.version,
        p@.package_type,
        p@.description,
        None,
        p@.require,
    ));
    out
}

// ---------------------------------------------------------------------------
// Locked packages

/// The line on a locked package.
pub open spec fn listed_line(p: lock::LockedView) -> Seq<char> {
    "  "@ + p.name + "  "@ + p.version
}

/// The lines on the locked packages, or on those that the project itself
/// requires.
pub open spec fn listed_lines(v: Seq<lock::LockedView>, direct: Option<Set<Seq<char>>>) -> Seq<
    Seq<char>,
>
    decreases v.len(),
{
    if v.len() == 0 {
        Seq::empty()
    } else {
        let rest = listed_lines(v.drop_last(), direct);
        if direct matches Some(s) && !s.contains(v.last().name) {
            rest
        } else {
            rest.push(listed_line(v.last()))
        }
    }
}

/// The lines on the locked packages, or on those that the project itself
/// requires.
pub fn list_lines(packages: &Vec<&LockedPackage>, direct: &Option<StrSet>) -> (r: Vec<String>)
    ensures
        text::texts(r@) == listed_lines(
            lock::ref_views(packages@),
            match direct {
                Some(s) => Some(s@),
                None => None,
            },
        ),
{
    let ghost all = lock::ref_views(packages@);
    let ghost chosen = match direct {
        Some(s) => Some(s@),
        None => None,
    };
    let mut out: Vec<String> = Vec::new();
    let n: usize = packages.len();
    let mut i: usize = 0;
    assert(text::texts(out@) =~= Seq::empty());
    while i < n
        invariant
            i <= n,
            n == packages@.len(),
            all == lock::ref_views(packages@),
            chosen == match direct {
                Some(s) => Some(s@),
                None => None,
            },
            text::texts(out@) == listed_lines(all.take(i as int), chosen),
        decreases n - i,
    {
        let p = packages[i];
        proof {
            assert(all.take(i + 1).drop_last() =~= all.take(i as int));
            assert(all.take(i + 1).last() == p@);
        }
        let skip = match direct {
            Some(s) => !s.contains(p.name.as_str()),
            None => false,
        };
        if !skip {
            let a = text::cat3("  ", p.name.as_str(), "  ");
            let line = text::cat(a.as_str(), p.version.as_str());
            let ghost before = text::texts(out@);
            out.push(line);
            assert(text::texts(out@) =~= before.push(line@));
        }
        i += 1;
    }
    assert(all.take(n as int) =~= all);
    out
}

/// The names that a project requires, platform packages among them.
pub open spec fn direct_names(
    require: Seq<(Seq<char>, Seq<char>)>,
    require_dev: Seq<(Seq<char>, Seq<char>)>,
    with_dev: bool,
) -> Set<Seq<char>> {
    Set::new(
        |x: Seq<char>|
            collections::lookup(require, x) is Some || (with_dev && collections::lookup(
                require_dev,
                x,
            ) is Some),
    )
}

fn insert_keys(s: &mut StrSet, reqs: &StrMap<String>)
    ensures
        forall|x: Seq<char>| #[trigger]
            final(s)@.contains(x) == (old(s)@.contains(x) || collections::lookup(
                collections::link_pairs(*reqs),
                x,
            ) is Some),
{
    let ghost start = s@;
    let ghost all = collections::link_pairs(*reqs);
    let n: usize = reqs.entries.len();
    let mut i: usize = 0;
    while i < n
        invariant
            i <= n,
            n == reqs.entries@.len(),
            all == collections::link_pairs(*reqs),
            forall|x: Seq<char>| #[trigger]
                s@.contains(x) == (start.contains(x) || exists|j: int|
                    0 <= j < i && (#[trigger] all[j]).0 == x),
        decreases n - i,
    {
        let ghost before = s@;
        assert(all[i as int].0 == reqs.entries@[i as int].0@);
        s.insert(String::from_str(reqs.entries[i].0.as_str()));
        proof {
            assert forall|x: Seq<char>| #[trigger]
                s@.contains(x) == (start.contains(x) || exists|j: int|
                    0 <= j < i + 1 && (#[trigger] all[j]).0 == x) by {
                if before.contains(x) && !start.contains(x) {
                    let j = choose|j: int| 0 <= j < i && (#[trigger] all[j]).0 == x;
                    assert(all[j].0 == x);
                }
                if x == all[i as int].0 {
                    assert(all[i as int].0 == x);
                }
            }
        }
        i += 1;
    }
    proof {
        assert forall|x: Seq<char>| #[trigger]
            s@.contains(x) == (start.contains(x) || collections::lookup(all, x) is Some) by {
            lemma_lookup_some(all, x);
        }
    }
}

proof fn lemma_lookup_some(p: Seq<(Seq<char>, Seq<char>)>, x: Seq<char>)
    ensures
        collections::lookup(p, x) is Some <==> exists|j: int|
            0 <= j < p.len() && (#[trigger] p[j]).0 == x,
    decreases p.len(),
{
    if p.len() > 0 {
        lemma_lookup_some(p.skip(1), x);
        if p[0].0 != x {
            if collections::lookup(p, x) is Some {
                let j = choose|j: int| 0 <= j < p.skip(1).len() && (#[trigger] p.skip(1)[j]).0 == x;
                assert(p[j + 1].0 == x);
            }
            if exists|j: int| 0 <= j < p.len() && (#[trigger] p[j]).0 == x {
                let j = choose|j: int| 0 <= j < p.len() && (#[trigger] p[j]).0 == x;
                assert(p.skip(1)[j - 1].0 == x);
            }
        }
    }
}

/// The names that a project requires.
pub fn direct_requirements(manifest: &ComposerJson, with_dev: bool) -> (r: StrSet)
    ensures
        r@ == direct_names(manifest@.require, manifest@.require_dev, with_dev),
{
    let mut s = StrSet::new();
    insert_keys(&mut s, &manifest.require);
    if with_dev {
        insert_keys(&mut s, &manifest.require_dev);
    }
    assert(s@ =~= direct_names(manifest@.require, manifest@.require_dev, with_dev));
    s
}

// ---------------------------------------------------------------------------
// The tree of requirements

/// A requirement, its constraint and its kind.
pub type Link = (Seq<char>, Seq<char>, DepKind);

/// The requirements on packages, with one more in its place behind those with the
/// same name.
pub open spec fn placed_link(s: Seq<Link>, e: Link) -> Seq<Link>
    decreases s.len(),
{
    if s.len() == 0 || !text::text_lt(e.0, s.last().0) {
        s.push(e)
    } else {
        placed_link(s.drop_last(), e).push(s.last())
    }
}

/// Requirements with those of a list that name packages among them, by name.
pub open spec fn with_links(s: Seq<Link>, reqs: Seq<(Seq<char>, Seq<char>)>, kind: DepKind) -> Seq<
    Link,
>
    decreases reqs.len(),
{
    if reqs.len() == 0 {
        s
    } else {
        let rest = with_links(s, reqs.drop_last(), kind);
        if package::names_package(reqs.last().0) {
            placed_link(rest, (reqs.last().0, reqs.last().1, kind))
        } else {
            rest
        }
    }
}

/// The requirements of a package, by name.
pub open spec fn links_of(p: lock::LockedView, with_dev: bool) -> Seq<Link> {
    let own = with_links(Seq::empty(), p.require, DepKind::Require);
    if with_dev {
        with_links(own, p.require_dev, DepKind::RequireDev)
    } else {
        own
    }
}

/// The version of a package, or a question mark.
pub open spec fn version_or_mark(m: solution::LockedMap, name: Seq<char>) -> Seq<char> {
    match collections::lookup(m, name) {
        Some(p) => p.version,
        None => "?"@,
    }
}

/// The text of a branch.
pub open spec fn link_text(m: solution::LockedMap, e: Link) -> Seq<char> {
    e.0 + " "@ + version_or_mark(m, e.0) + " ("@ + depends::kind_word(e.2) + " "@ + e.1 + ")"@
}

/// The branches below a package.
pub open spec fn link_branches(m: solution::LockedMap, l: Seq<Link>) -> Seq<(Seq<char>, Seq<char>)> {
    l.map_values(|e: Link| (link_text(m, e), e.0))
}

/// The branches of the tree of requirements.
pub open spec fn requirement_tree(m: solution::LockedMap, with_dev: bool) -> tree::Branches {
    |name: Seq<char>| package_branches(m, with_dev, name)
}

/// The branches below a package, if it is there.
pub open spec fn package_branches(m: solution::LockedMap, with_dev: bool, name: Seq<char>) -> Seq<
    (Seq<char>, Seq<char>),
> {
    match collections::lookup(m, name) {
        Some(p) => link_branches(m, links_of(p, with_dev)),
        None => Seq::empty(),
    }
}

/// What a list of requirements consists of.
pub open spec fn link_views(v: Seq<(&str, &str, DepKind)>) -> Seq<Link> {
    v.map_values(|e: (&str, &str, DepKind)| (e.0@, e.1@, e.2))
}

proof fn lemma_placed_link(s: Seq<Link>, e: Link, i: int)
    requires
        0 <= i <= s.len(),
        i == 0 || !text::text_lt(e.0, s[i - 1].0),
        forall|j: int| i <= j < s.len() ==> text::text_lt(e.0, (#[trigger] s[j]).0),
    ensures
        placed_link(s, e) == s.insert(i, e),
    decreases s.len(),
{
    if i == s.len() {
        assert(s.push(e) =~= s.insert(i, e));
    } else {
        lemma_placed_link(s.drop_last(), e, i);
        assert(s.drop_last().insert(i, e).push(s.last()) =~= s.insert(i, e));
    }
}

fn place_link<'a>(v: &mut Vec<(&'a str, &'a str, DepKind)>, e: (&'a str, &'a str, DepKind))
    ensures
        link_views(final(v)@) == placed_link(link_views(old(v)@), (e.0@, e.1@, e.2)),
{
    let ghost before = link_views(v@);
    let mut i: usize = v.len();
    while i > 0 && text::below(e.0, v[i - 1].0)
        invariant
            i <= v@.len(),
            before == link_views(v@),
            before == link_views(old(v)@),
            forall|j: int| i <= j < before.len() ==> text::text_lt(e.0@, (#[trigger] before[j]).0),
        decreases i,
    {
        assert(before[i - 1].0 == v@[i - 1].0@);
        i -= 1;
    }
    proof {
        if i > 0 {
            assert(before[i - 1].0 == v@[i - 1].0@);
        }
        lemma_placed_link(before, (e.0@, e.1@, e.2), i as int);
    }
    v.insert(i, e);
    assert(link_views(v@) =~= before.insert(i as int, (e.0@, e.1@, e.2)));
}

fn push_links<'a>(
    v: &mut Vec<(&'a str, &'a str, DepKind)>,
    reqs: &'a StrMap<String>,
    kind: DepKind,
)
    ensures
        link_views(final(v)@) == with_links(
            link_views(old(v)@),
            collections::link_pairs(*reqs),
            kind,
        ),
{
    let ghost start = link_views(v@);
    let ghost all = collections::link_pairs(*reqs);
    let n: usize = reqs.entries.len();
    let mut i: usize = 0;
    while i < n
        invariant
            i <= n,
            n == reqs.entries@.len(),
            all == collections::link_pairs(*reqs),
            link_views(v@) == with_links(start, all.take(i as int), kind),
        decreases n - i,
    {
        let name = reqs.entries[i].0.as_str();
        let c = reqs.entries[i].1.as_str();
        proof {
            assert(all.take(i + 1).drop_last() =~= all.take(i as int));
            assert(all.take(i + 1).last() == (name@, c@));
        }
        if package::is_package_req(name) {
            place_link(v, (name, c, kind));
        }
        i += 1;
    }
    assert(all.take(n as int) =~= all);
}

fn branch_of(packages: &StrMap<LockedPackage>, e: &(&str, &str, DepKind)) -> (r: (String, String))
    ensures
        r.0@ == link_text(index::locked_map_view(*packages), (e.0@, e.1@, e.2)),
        r.1@ == e.0@,
{
    proof {
        collections::lemma_with_values(
            packages@,
            e.0@,
            arbitrary(),
            |p: LockedPackage| p@,
        );
    }
    let ver = match packages.get(e.0) {
        Some(p) => p.version.as_str(),
        None => "?",
    };
    let a = text::cat3(e.0, " ", ver);
    let b = text::cat3(" (", e.2.as_str(), " ");
    let mut out = text::cat3(a.as_str(), b.as_str(), e.1);
    out.append(")");
    assert(out@ =~= link_text(index::locked_map_view(*packages), (e.0@, e.1@, e.2)));
    (out, String::from_str(e.0))
}

fn branches_of(packages: &StrMap<LockedPackage>, p: &LockedPackage, with_dev: bool) -> (r: Vec<
    (String, String),
>)
    ensures
        tree::branch_views(r@) == link_branches(
            index::locked_map_view(*packages),
            links_of(p@, with_dev),
        ),
{
    let mut links: Vec<(&str, &str, DepKind)> = Vec::new();
    assert(link_views(links@) =~= Seq::empty());
    push_links(&mut links, &p.require, DepKind::Require);
    if with_dev {
        push_links(&mut links, &p.require_dev, DepKind::RequireDev);
    }
    let ghost m = index::locked_map_view(*packages);
    let mut out: Vec<(String, String)> = Vec::new();
    let n: usize = links.len();
    let mut i: usize = 0;
    while i < n
        invariant
            i <= n,
            n == links@.len(),
            m == index::locked_map_view(*packages),
            out@.len() == i,
            forall|j: int|
                0 <= j < i ==> {
                    let e = link_views(links@)[j];
                    &&& (#[trigger] out@[j]).0@ == link_text(m, e)
                    &&& out@[j].1@ == e.0
                },
        decreases n - i,
    {
        out.push(branch_of(packages, &links[i]));
        i += 1;
    }
    assert(tree::branch_views(out@) =~= link_branches(m, links_of(p@, with_dev)));
    out
}

/// The lines of the trees of packages.
pub open spec fn tree_lines(m: solution::LockedMap, roots: Seq<Seq<char>>, with_dev: bool) -> Seq<
    Seq<char>,
>
    decreases roots.len(),
{
    if roots.len() == 0 {
        Seq::empty()
    } else {
        tree_lines(m, roots.drop_last(), with_dev).push(
            roots.last() + " "@ + version_or_mark(m, roots.last()),
        ) + tree::tree_of(
            requirement_tree(m, with_dev),
            roots.last(),
            Seq::empty(),
            Set::empty(),
            0,
            24,
        ).0
    }
}

proof fn lemma_same_branches(
    b: Seq<(Seq<char>, Vec<(String, String)>)>,
    p: solution::LockedMap,
    m: solution::LockedMap,
    with_dev: bool,
    x: Seq<char>,
)
    requires
        b.len() == p.len(),
        forall|j: int|
            0 <= j < p.len() ==> (#[trigger] b[j]).0 == p[j].0 && tree::branch_views(b[j].1@)
                == link_branches(m, links_of(p[j].1, with_dev)),
    ensures
        (match collections::lookup(b, x) {
            Some(v) => tree::branch_views(v@),
            None => Seq::empty(),
        }) == match collections::lookup(p, x) {
            Some(l) => link_branches(m, links_of(l, with_dev)),
            None => Seq::empty(),
        },
    decreases p.len(),
{
    if p.len() > 0 {
        assert(b[0].0 == p[0].0);
        if p[0].0 != x {
            assert forall|j: int| 0 <= j < p.skip(1).len() implies (#[trigger] b.skip(1)[j]).0
                == p.skip(1)[j].0 && tree::branch_views(b.skip(1)[j].1@) == link_branches(
                m,
                links_of(p.skip(1)[j].1, with_dev),
            ) by {
                assert(b[j + 1].0 == p[j + 1].0);
            }
            lemma_same_branches(b.skip(1), p.skip(1), m, with_dev, x);
        }
    }
}

/// The lines of the trees of packages.
pub fn show_tree(packages: &StrMap<LockedPackage>, roots: &Vec<String>, with_dev: bool) -> (r: Vec<
    String,
>)
    ensures
        text::texts(r@) == tree_lines(
            index::locked_map_view(*packages),
            text::texts(roots@),
            with_dev,
        ),
{
    let ghost m = index::locked_map_view(*packages);
    let mut e: Vec<(String, Vec<(String, String)>)> = Vec::new();
    let n: usize = packages.entries.len();
    let mut i: usize = 0;
    while i < n
        invariant
            i <= n,
            n == packages.entries@.len(),
            m == index::locked_map_view(*packages),
            e@.len() == i,
            forall|j: int|
                0 <= j < i ==> (#[trigger] e@[j]).0@ == m[j].0 && tree::branch_views(e@[j].1@)
                    == link_branches(m, links_of(m[j].1, with_dev)),
        decreases n - i,
    {
        let list = branches_of(packages, &packages.entries[i].1, with_dev);
        e.push((String::from_str(packages.entries[i].0.as_str()), list));
        i += 1;
    }
    let map = StrMap { entries: e };
    proof {
        assert forall|j: int| 0 <= j < m.len() implies (#[trigger] map@[j]).0 == m[j].0
            && tree::branch_views(map@[j].1@) == link_branches(m, links_of(m[j].1, with_dev)) by {
            assert(e@[j].0@ == m[j].0);
        }
        assert forall|x: Seq<char>| #[trigger]
            tree::branches(map)(x) == requirement_tree(m, with_dev)(x) by {
            lemma_same_branches(map@, m, m, with_dev, x);
        }
        assert(tree::branches(map) =~= requirement_tree(m, with_dev));
        reveal_strlit("");
        assert(""@ =~= Seq::empty());
    }
    let ghost all = text::texts(roots@);
    let mut out: Vec<String> = Vec::new();
    let k: usize = roots.len();
    let mut j: usize = 0;
    assert(text::texts(out@) =~= Seq::empty());
    while j < k
        invariant
            j <= k,
            k == roots@.len(),
            all == text::texts(roots@),
            m == index::locked_map_view(*packages),
            ""@ == Seq::<char>::empty(),
            tree::branches(map) == requirement_tree(m, with_dev),
            text::texts(out@) == tree_lines(m, all.take(j as int), with_dev),
        decreases k - j,
    {
        let root = roots[j].as_str();
        proof {
            assert(all.take(j + 1).drop_last() =~= all.take(j as int));
            assert(all.take(j + 1).last() == root@);
            collections::lemma_with_values(
                packages@,
                root@,
                arbitrary(),
                |p: LockedPackage| p@,
            );
        }
        let ver = match packages.get(root) {
            Some(p) => p.version.as_str(),
            None => "?",
        };
        let line = text::cat3(root, " ", ver);
        let ghost before = text::texts(out@);
        out.push(line);
        assert(text::texts(out@) =~= before.push(line@));
        let mut seen = StrSet::new();
        tree::push_tree(&mut out, &map, root, "", &mut seen, 0, 24);
        j += 1;
    }
    assert(all.take(k as int) =~= all);
    out
}

/// The packages whose trees are shown: the one that is asked for, those that the
/// project requires, or all.
pub open spec fn tree_roots_of(
    focus: Option<Seq<char>>,
    required: Option<Seq<Seq<char>>>,
    locked: Seq<Seq<char>>,
) -> Seq<Seq<char>> {
    match focus {
        Some(x) => seq![x],
        None => match required {
            Some(r) => depends::sorted_names(r),
            None => locked,
        },
    }
}

/// The names of the entries of a map.
pub open spec fn map_names(m: solution::LockedMap) -> Seq<Seq<char>> {
    m.map_values(|e: (Seq<char>, lock::LockedView)| e.0)
}

/// The packages whose trees are shown.
pub fn tree_roots(
    focus: Option<&str>,
    manifest: Option<&ComposerJson>,
    packages: &StrMap<LockedPackage>,
    with_dev: bool,
) -> (r: Vec<String>)
    ensures
        text::texts(r@) == tree_roots_of(
            text::opt_view(focus),
            match manifest {
                Some(m) => Some(depends::roots_of(m@, with_dev)),
                None => None,
            },
            map_names(index::locked_map_view(*packages)),
        ),
{
    if let Some(x) = focus {
        let mut one: Vec<String> = Vec::new();
        one.push(String::from_str(x));
        assert(text::texts(one@) =~= seq![x@]);
        return one;
    }
    if let Some(m) = manifest {
        let names = depends::root_packages(m, with_dev);
        return depends::sort_names(&names);
    }
    let mut out: Vec<String> = Vec::new();
    let n: usize = packages.entries.len();
    let mut i: usize = 0;
    while i < n
        invariant
            i <= n,
            n == packages.entries@.len(),
            out@.len() == i,
            forall|j: int| 0 <= j < i ==> (#[trigger] out@[j])@ == packages.entries@[j].0@,
        decreases n - i,
    {
        out.push(String::from_str(packages.entries[i].0.as_str()));
        i += 1;
    }
    assert(text::texts(out@) =~= map_names(index::locked_map_view(*packages)));
    out
}

// ---------------------------------------------------------------------------
// Laws

/// What is shown of a package on the repositories is its highest stable version,
/// if there is a stable one.
pub proof fn law_highest_stable(v: Seq<repo::RemoteView>)
    ensures
        match highest_stable(v) {
            Some(i) => 0 <= i < v.len() && v[i].version.stability is Stable && forall|k: int|
                0 <= k < v.len() && (#[trigger] v[k]).version.stability is Stable
                    ==> !version::version_lt(v[i].version, v[k].version),
            None => forall|k: int|
                0 <= k < v.len() ==> !((#[trigger] v[k]).version.stability is Stable),
        },
    decreases v.len(),
{
    if v.len() > 0 {
        let front = v.drop_last();
        law_highest_stable(front);
        let own = v.last().version;
        assert(v[v.len() - 1] == v.last());
        assert forall|k: int| 0 <= k < front.len() implies #[trigger] v[k] == front[k] by {}
        version::law_version_order_total(own, own);
        match highest_stable(front) {
            Some(i) => {
                assert(v[i] == front[i]);
                if own.stability is Stable && !version::version_lt(own, v[i].version) {
                    assert forall|k: int|
                        0 <= k < v.len() && (#[trigger] v[k]).version.stability
                            is Stable implies !version::version_lt(own, v[k].version) by {
                        if k < front.len() {
                            assert(front[k] == v[k]);
                            version::law_version_order_total(own, v[i].version);
                            version::law_version_order_total(own, v[k].version);
                            version::law_key_orders_versions(own, v[i].version);
                            version::law_key_orders_versions(v[i].version, own);
                            version::law_key_orders_versions(own, v[k].version);
                            version::law_key_orders_versions(v[i].version, v[k].version);
                            text::lemma_seq_lt_total(
                                version::order_key(own),
                                version::order_key(v[i].version),
                            );
                            if version::version_lt(own, v[k].version) {
                                if version::version_lt(v[i].version, own) {
                                    version::law_version_order_transitive(
                                        v[i].version,
                                        own,
                                        v[k].version,
                                    );
                                }
                            }
                        }
                    }
                } else {
                    assert forall|k: int|
                        0 <= k < v.len() && (#[trigger] v[k]).version.stability
                            is Stable implies !version::version_lt(v[i].version, v[k].version) by {
                        if k < front.len() {
                            assert(front[k] == v[k]);
                        } else {
                            version::law_version_order_total(own, v[i].version);
                        }
                    }
                }
            },
            None => {
                assert forall|k: int|
                    0 <= k < v.len() && k < front.len() implies !((
                #[trigger] v[k]).version.stability is Stable) by {
                    assert(front[k] == v[k]);
                }
            },
        }
    }
}

/// A package is listed if it is locked and, where only direct ones are wanted,
/// required directly.
pub proof fn law_what_is_listed(
    v: Seq<lock::LockedView>,
    w: Seq<lock::LockedView>,
    p: lock::LockedView,
    direct: Option<Set<Seq<char>>>,
)
    ensures
        listed_lines(v + w, direct) == listed_lines(v, direct) + listed_lines(w, direct),
        listed_lines(seq![p], None) == seq!["  "@ + p.name + "  "@ + p.version],
        (direct matches Some(s) && s.contains(p.name)) ==> listed_lines(seq![p], direct)
            == seq!["  "@ + p.name + "  "@ + p.version],
        (direct matches Some(s) && !s.contains(p.name)) ==> listed_lines(seq![p], direct).len()
            == 0,
    decreases w.len(),
{
    assert(seq![p].drop_last() =~= Seq::empty());
    assert(seq![p].last() == p);
    assert(listed_lines(seq![p].drop_last(), direct) =~= Seq::empty());
    assert(listed_lines(seq![p].drop_last(), None) =~= Seq::empty());
    if w.len() > 0 {
        assert((v + w).drop_last() =~= v + w.drop_last());
        law_what_is_listed(v, w.drop_last(), p, direct);
        assert(listed_lines(v, direct) + listed_lines(w.drop_last(), direct).push(
            listed_line(w.last()),
        ) =~= (listed_lines(v, direct) + listed_lines(w.drop_last(), direct)).push(
            listed_line(w.last()),
        ));
    } else {
        assert(v + w =~= v);
        assert(listed_lines(v, direct) + listed_lines(w, direct) =~= listed_lines(v, direct));
    }
}

proof fn lemma_in_placed(s: Seq<Link>, e: Link, x: Link)
    ensures
        placed_link(s, e).contains(x) <==> s.contains(x) || x == e,
    decreases s.len(),
{
    let r = placed_link(s, e);
    if s.len() == 0 || !text::text_lt(e.0, s.last().0) {
        lemma_in_push(s, e, x);
    } else {
        let front = s.drop_last();
        lemma_in_placed(front, e, x);
        lemma_in_push(placed_link(front, e), s.last(), x);
        lemma_in_push(front, s.last(), x);
        assert(front.push(s.last()) =~= s);
    }
}

proof fn lemma_in_push(s: Seq<Link>, e: Link, x: Link)
    ensures
        s.push(e).contains(x) <==> s.contains(x) || x == e,
{
    assert(s.push(e)[s.len() as int] == e);
    if s.contains(x) {
        let k = choose|k: int| 0 <= k < s.len() && s[k] == x;
        assert(s.push(e)[k] == x);
    }
    if s.push(e).contains(x) && x != e {
        let k = choose|k: int| 0 <= k < s.push(e).len() && s.push(e)[k] == x;
        assert(s[k] == x);
    }
}

proof fn lemma_with_links(s: Seq<Link>, reqs: Seq<(Seq<char>, Seq<char>)>, kind: DepKind, x: Link)
    ensures
        with_links(s, reqs, kind).contains(x) <==> s.contains(x) || (x.2 == kind
            && package::names_package(x.0) && reqs.contains((x.0, x.1))),
    decreases reqs.len(),
{
    if reqs.len() > 0 {
        let front = reqs.drop_last();
        let e = reqs.last();
        lemma_with_links(s, front, kind, x);
        lemma_in_placed(with_links(s, front, kind), (e.0, e.1, kind), x);
        assert(reqs[reqs.len() - 1] == e);
        let y = (x.0, x.1);
        if front.contains(y) {
            let k = choose|k: int| 0 <= k < front.len() && front[k] == y;
            assert(reqs[k] == y);
        }
        if reqs.contains(y) {
            let k = choose|k: int| 0 <= k < reqs.len() && reqs[k] == y;
            if k < front.len() {
                assert(front[k] == y);
            }
        }
    }
}

/// Below a package in the tree stand its requirements on packages, those for
/// development only if they are asked for.
pub proof fn law_links_of_package(p: lock::LockedView, with_dev: bool, x: Link)
    ensures
        links_of(p, with_dev).contains(x) <==> package::names_package(x.0) && match x.2 {
            DepKind::Require => p.require.contains((x.0, x.1)),
            DepKind::RequireDev => with_dev && p.require_dev.contains((x.0, x.1)),
        },
{
    let own = with_links(Seq::empty(), p.require, DepKind::Require);
    lemma_with_links(Seq::empty(), p.require, DepKind::Require, x);
    lemma_with_links(own, p.require_dev, DepKind::RequireDev, x);
}

} // verus!
