//! The graph on which a set of packages is solved for, and what is made of a
//! solution.

use crate::collections;
use crate::collections::StrMap;
use crate::constraint;
use crate::constraint::VersionConstraint;
use crate::index;
use crate::index::IndexSource;
use crate::index::IndexedVersion;
use crate::index::PackageIndex;
use crate::lock;
use crate::lock::LockedPackage;
use crate::manifest;
use crate::package;
use crate::package::PackageId;
use crate::platform;
use crate::platform::Platform;
use crate::ranges;
use crate::releases;
use crate::text;
use crate::version;
use crate::version::ComposerVersion;
use crate::version::Stability;
use version_ranges::Ranges;
use vstd::prelude::*;

verus! {

/// What a solution is asked for.
#[derive(Debug)]
pub struct SolveRequest {
    pub root_deps: Vec<(PackageId, VersionConstraint)>,
    pub prefer_stable: bool,
    pub prefer_lowest: bool,
    pub minimum_stability: Stability,
    pub root_replace: Vec<String>,
    pub root_provide: Vec<String>,
    pub root_conflicts: Vec<(PackageId, VersionConstraint)>,
    pub platform: Platform,
    pub ignore_platform_reqs: bool,
    pub ignore_platform_req: Vec<String>,
}

// ---------------------------------------------------------------------------
// The graph

/// A version of a package with the versions of other packages that it allows.
#[derive(Debug)]
pub struct GraphVersion {
    pub version: ComposerVersion,
    pub deps: StrMap<Ranges<Vec<u128>>>,
}

/// What a version in the graph consists of.
#[verifier::ext_equal]
pub struct NodeView {
    pub version: version::VersionView,
    pub deps: Seq<(Seq<char>, Set<Seq<u128>>)>,
}

/// What a map of sets of versions consists of.
pub open spec fn dep_sets(m: StrMap<Ranges<Vec<u128>>>) -> Seq<(Seq<char>, Set<Seq<u128>>)> {
    collections::with_values(m@, |r: Ranges<Vec<u128>>| ranges::range_keys(r))
}

impl View for GraphVersion {
    type V = NodeView;

    open spec fn view(&self) -> NodeView {
        NodeView { version: self.version@, deps: dep_sets(self.deps) }
    }
}

/// What a list of versions consists of.
pub open spec fn node_views(v: Seq<GraphVersion>) -> Seq<NodeView> {
    v.map_values(|n: GraphVersion| n@)
}

/// The versions of packages by the names of the packages.
pub type GraphMap = Seq<(Seq<char>, Seq<NodeView>)>;

/// What a map of versions consists of.
pub open spec fn graph_map(m: StrMap<Vec<GraphVersion>>) -> GraphMap {
    collections::with_values(m@, |v: Vec<GraphVersion>| node_views(v@))
}

/// The graph on which a set of packages is solved for.
#[derive(Debug)]
pub struct SolverGraph {
    pub packages: StrMap<Vec<GraphVersion>>,
    pub prefer_lowest: bool,
    pub prefer_stable: bool,
}

/// The name under which the project itself stands in the graph.
pub open spec fn root_name() -> Seq<char> {
    "__root__/__root__"@
}

/// What the names of conflicts in the graph begin with.
pub open spec fn conflict_prefix() -> Seq<char> {
    "__composer_rs_conflict__/"@
}

/// The name under which a conflict stands in the graph.
pub open spec fn conflict_name(left: Seq<char>, right: Seq<char>, constraint: Seq<char>) -> Seq<
    char,
> {
    conflict_prefix() + left + "::"@ + right + "::"@ + constraint
}

/// The name under which the project itself stands in the graph.
pub fn root_package() -> (r: String)
    ensures
        r@ == root_name(),
{
    String::from_str("__root__/__root__")
}

fn conflict_dummy_name(left: &str, right: &str, constraint: &str) -> (r: String)
    ensures
        r@ == conflict_name(left@, right@, constraint@),
{
    let mut out = text::cat3("__composer_rs_conflict__/", left, "::");
    out.append(right);
    out.append("::");
    out.append(constraint);
    out
}

/// The version in which the project, and one side of a conflict, stand in the
/// graph.
pub open spec fn first_version() -> version::VersionView {
    version::release_view(1, 0, 0)
}

/// The version in which the other side of a conflict stands in the graph.
pub open spec fn second_version() -> version::VersionView {
    version::release_view(2, 0, 0)
}

/// The requirements of a list on packages other than platform packages.
pub open spec fn required_sets(reqs: Seq<(Seq<char>, Seq<char>)>) -> Seq<
    (Seq<char>, Set<Seq<u128>>),
>
    decreases reqs.len(),
{
    if reqs.len() == 0 {
        Seq::empty()
    } else {
        let rest = required_sets(reqs.drop_last());
        let (name, c) = reqs.last();
        if package::names_package(name) {
            collections::inserted(rest, name, ranges::allowed_keys(c))
        } else {
            rest
        }
    }
}

/// The requirements of the project that no package of the project itself
/// stands for.
pub open spec fn root_sets(
    reqs: Seq<(Seq<char>, Seq<char>)>,
    satisfied: Set<Seq<char>>,
) -> Seq<(Seq<char>, Set<Seq<u128>>)>
    decreases reqs.len(),
{
    if reqs.len() == 0 {
        Seq::empty()
    } else {
        let rest = root_sets(reqs.drop_last(), satisfied);
        let (name, c) = reqs.last();
        if package::is_platform_name(name) || satisfied.contains(name) {
            rest
        } else {
            collections::inserted(rest, name, ranges::allowed_keys(c))
        }
    }
}

/// The packages that the project itself stands for.
pub open spec fn root_satisfied(req: SolveRequest) -> Set<Seq<char>> {
    text::texts(req.root_replace@).to_set().union(text::texts(req.root_provide@).to_set())
}

/// The platform allows a version, or the platform is not to be asked.
pub open spec fn fits_platform(l: lock::LockedView, req: SolveRequest) -> bool {
    req.ignore_platform_reqs || !req.platform.reliable || platform::requirements_fault(
        req.platform@,
        l.require,
        text::texts(req.ignore_platform_req@),
    ) is None
}

/// A version is stable enough. Branches, and versions that are not offered by a
/// remote repository, always are.
pub open spec fn stable_enough(v: index::IndexedView, min: Stability) -> bool {
    version::stability_rank(v.version.stability) >= version::stability_rank(min) || text::starts(
        v.version.raw,
        "dev-"@,
    ) || v.source != IndexSource::Packagist
}

/// A known version comes into question.
pub open spec fn is_candidate(v: index::IndexedView, req: SolveRequest) -> bool {
    fits_platform(v.locked, req) && stable_enough(v, req.minimum_stability)
}

/// A version after those of a list that do not lie above it.
pub open spec fn placed(s: Seq<NodeView>, n: NodeView) -> Seq<NodeView>
    decreases s.len(),
{
    if s.len() == 0 {
        seq![n]
    } else if version::version_lt(n.version, s.last().version) {
        placed(s.drop_last(), n).push(s.last())
    } else {
        s.push(n)
    }
}

/// The versions of a package that come into question, from the lowest on.
pub open spec fn candidates(m: Seq<index::IndexedView>, req: SolveRequest) -> Seq<NodeView>
    decreases m.len(),
{
    if m.len() == 0 {
        Seq::empty()
    } else {
        let rest = candidates(m.drop_last(), req);
        if is_candidate(m.last(), req) {
            placed(
                rest,
                NodeView {
                    version: m.last().version,
                    deps: required_sets(m.last().locked.require),
                },
            )
        } else {
            rest
        }
    }
}

/// The graph of the packages, before conflicts are entered.
pub open spec fn requirement_graph(
    start: GraphMap,
    p: index::PackageMap,
    req: SolveRequest,
) -> GraphMap
    decreases p.len(),
{
    if p.len() == 0 {
        start
    } else {
        let rest = requirement_graph(start, p.drop_last(), req);
        let nodes = candidates(index::values_of(p.last().1), req);
        if nodes.len() > 0 {
            collections::inserted(rest, p.last().0, nodes)
        } else {
            rest
        }
    }
}

/// The graph that holds the project alone.
pub open spec fn root_graph(req: SolveRequest) -> GraphMap {
    seq![
        (
            root_name(),
            seq![
                NodeView {
                    version: first_version(),
                    deps: root_sets(manifest::dep_views(req.root_deps@), root_satisfied(req)),
                },
            ],
        ),
    ]
}

/// A version of a package excludes versions of another one.
#[verifier::ext_equal]
pub struct ConflictView {
    pub from: Seq<char>,
    pub version: version::VersionView,
    pub other: Seq<char>,
    pub constraint: Seq<char>,
}

/// The conflicts that a version declares with other than platform packages.
pub open spec fn declared_conflicts(
    name: Seq<char>,
    v: version::VersionView,
    pairs: Seq<(Seq<char>, Seq<char>)>,
) -> Seq<ConflictView>
    decreases pairs.len(),
{
    if pairs.len() == 0 {
        Seq::empty()
    } else {
        let rest = declared_conflicts(name, v, pairs.drop_last());
        let (other, constraint) = pairs.last();
        if package::names_platform(other) {
            rest
        } else {
            rest.push(ConflictView { from: name, version: v, other, constraint })
        }
    }
}

/// The conflicts that the versions of a package declare.
pub open spec fn conflicts_of(
    name: Seq<char>,
    m: Seq<index::IndexedView>,
    req: SolveRequest,
) -> Seq<ConflictView>
    decreases m.len(),
{
    if m.len() == 0 {
        Seq::empty()
    } else {
        let rest = conflicts_of(name, m.drop_last(), req);
        if is_candidate(m.last(), req) {
            rest + declared_conflicts(name, m.last().version, m.last().locked.conflict)
        } else {
            rest
        }
    }
}

/// The conflicts that the packages declare.
pub open spec fn all_conflicts(p: index::PackageMap, req: SolveRequest) -> Seq<ConflictView>
    decreases p.len(),
{
    if p.len() == 0 {
        Seq::empty()
    } else {
        all_conflicts(p.drop_last(), req) + conflicts_of(
            p.last().0,
            index::values_of(p.last().1),
            req,
        )
    }
}

/// The conflicts of the project itself.
pub open spec fn root_conflicts(pairs: Seq<(Seq<char>, Seq<char>)>) -> Seq<ConflictView>
    decreases pairs.len(),
{
    if pairs.len() == 0 {
        Seq::empty()
    } else {
        let rest = root_conflicts(pairs.drop_last());
        let (other, constraint) = pairs.last();
        if package::is_platform_name(other) {
            rest
        } else {
            rest.push(
                ConflictView { from: root_name(), version: first_version(), other, constraint },
            )
        }
    }
}

/// A graph with the versions of one package changed.
pub open spec fn changed(
    g: GraphMap,
    name: Seq<char>,
    f: spec_fn(Seq<NodeView>) -> Seq<NodeView>,
) -> GraphMap
    decreases g.len(),
{
    if g.len() == 0 {
        g
    } else if g[0].0 == name {
        seq![(name, f(g[0].1))] + g.skip(1)
    } else {
        seq![g[0]] + changed(g.skip(1), name, f)
    }
}

/// A version that in addition depends on another package.
pub open spec fn with_dep(n: NodeView, dep: Seq<char>, keys: Set<Seq<u128>>) -> NodeView {
    NodeView { version: n.version, deps: collections::inserted(n.deps, dep, keys) }
}

/// A list of versions of which one in addition depends on another package.
pub open spec fn dep_on_version(
    nodes: Seq<NodeView>,
    v: version::VersionView,
    dep: Seq<char>,
    keys: Set<Seq<u128>>,
) -> Seq<NodeView>
    decreases nodes.len(),
{
    if nodes.len() == 0 {
        nodes
    } else if nodes[0].version == v {
        seq![with_dep(nodes[0], dep, keys)] + nodes.skip(1)
    } else {
        seq![nodes[0]] + dep_on_version(nodes.skip(1), v, dep, keys)
    }
}

/// A list of versions of which those that satisfy a constraint in addition
/// depend on another package.
pub open spec fn dep_on_matching(
    nodes: Seq<NodeView>,
    c: Seq<char>,
    dep: Seq<char>,
    keys: Set<Seq<u128>>,
) -> Seq<NodeView> {
    nodes.map_values(
        |n: NodeView|
            if constraint::satisfies(c, n.version) {
                with_dep(n, dep, keys)
            } else {
                n
            },
    )
}

/// A graph that holds the two versions of a conflict.
pub open spec fn with_conflict_versions(g: GraphMap, dummy: Seq<char>) -> GraphMap {
    if collections::lookup(g, dummy) is Some {
        g
    } else {
        collections::inserted(
            g,
            dummy,
            seq![
                NodeView { version: first_version(), deps: Seq::empty() },
                NodeView { version: second_version(), deps: Seq::empty() },
            ],
        )
    }
}

/// A graph with a conflict entered: the version depends on one version of the
/// conflict, and the versions that it excludes on the other. So no solution
/// holds both, and neither package is asked for on account of the other.
pub open spec fn with_conflict(g: GraphMap, c: ConflictView) -> GraphMap {
    let dummy = conflict_name(c.from, c.other, c.constraint);
    let g1 = with_conflict_versions(g, dummy);
    let g2 = changed(
        g1,
        c.from,
        |nodes: Seq<NodeView>|
            dep_on_version(nodes, c.version, dummy, ranges::only_version(first_version())),
    );
    changed(
        g2,
        c.other,
        |nodes: Seq<NodeView>|
            dep_on_matching(nodes, c.constraint, dummy, ranges::only_version(second_version())),
    )
}

/// A graph with all conflicts entered.
pub open spec fn with_conflicts(g: GraphMap, c: Seq<ConflictView>) -> GraphMap
    decreases c.len(),
{
    if c.len() == 0 {
        g
    } else {
        with_conflict(with_conflicts(g, c.drop_last()), c.last())
    }
}

/// The conflicts that are entered into the graph.
pub open spec fn entered_conflicts(ix: index::IndexView, req: SolveRequest) -> Seq<ConflictView> {
    all_conflicts(ix.packages, req) + root_conflicts(manifest::dep_views(req.root_conflicts@))
}

/// The graph of an index and a request.
pub open spec fn solver_graph(ix: index::IndexView, req: SolveRequest) -> GraphMap {
    with_conflicts(
        requirement_graph(root_graph(req), ix.packages, req),
        entered_conflicts(ix, req),
    )
}

proof fn lemma_changed_at(
    g: GraphMap,
    name: Seq<char>,
    f: spec_fn(Seq<NodeView>) -> Seq<NodeView>,
    i: int,
)
    requires
        0 <= i < g.len(),
        g[i].0 == name,
        forall|j: int| 0 <= j < i ==> (#[trigger] g[j]).0 != name,
    ensures
        changed(g, name, f) == g.update(i, (name, f(g[i].1))),
    decreases g.len(),
{
    if i == 0 {
        assert(changed(g, name, f) =~= g.update(0, (name, f(g[0].1))));
    } else {
        assert forall|j: int| 0 <= j < i - 1 implies (#[trigger] g.skip(1)[j]).0 != name by {
            assert(g[j + 1].0 != name);
        }
        assert(g[0].0 != name);
        lemma_changed_at(g.skip(1), name, f, i - 1);
        assert(changed(g, name, f) =~= g.update(i, (name, f(g[i].1))));
    }
}

proof fn lemma_changed_absent(
    g: GraphMap,
    name: Seq<char>,
    f: spec_fn(Seq<NodeView>) -> Seq<NodeView>,
)
    requires
        forall|j: int| 0 <= j < g.len() ==> (#[trigger] g[j]).0 != name,
    ensures
        changed(g, name, f) == g,
    decreases g.len(),
{
    if g.len() > 0 {
        assert forall|j: int| 0 <= j < g.skip(1).len() implies (#[trigger] g.skip(1)[j]).0
            != name by {
            assert(g[j + 1].0 != name);
        }
        assert(g[0].0 != name);
        lemma_changed_absent(g.skip(1), name, f);
        assert(changed(g, name, f) =~= g);
    }
}

proof fn lemma_dep_at(
    nodes: Seq<NodeView>,
    v: version::VersionView,
    dep: Seq<char>,
    keys: Set<Seq<u128>>,
    j: int,
)
    requires
        0 <= j <= nodes.len(),
        j < nodes.len() ==> nodes[j].version == v,
        forall|k: int| 0 <= k < j ==> (#[trigger] nodes[k]).version != v,
    ensures
        dep_on_version(nodes, v, dep, keys) == if j < nodes.len() {
            nodes.update(j, with_dep(nodes[j], dep, keys))
        } else {
            nodes
        },
    decreases nodes.len(),
{
    if nodes.len() > 0 {
        if j == 0 {
            assert(dep_on_version(nodes, v, dep, keys) =~= nodes.update(
                0,
                with_dep(nodes[0], dep, keys),
            ));
        } else {
            assert forall|k: int| 0 <= k < j - 1 implies (#[trigger] nodes.skip(1)[k]).version
                != v by {
                assert(nodes[k + 1].version != v);
            }
            assert(nodes[0].version != v);
            lemma_dep_at(nodes.skip(1), v, dep, keys, j - 1);
            if j < nodes.len() {
                assert(dep_on_version(nodes, v, dep, keys) =~= nodes.update(
                    j,
                    with_dep(nodes[j], dep, keys),
                ));
            } else {
                assert(dep_on_version(nodes, v, dep, keys) =~= nodes);
            }
        }
    }
}

proof fn lemma_placed_at(s: Seq<NodeView>, n: NodeView, i: int)
    requires
        0 <= i <= s.len(),
        forall|j: int| i <= j < s.len() ==> version::version_lt(n.version, (#[trigger] s[j]).version),
        i > 0 ==> !version::version_lt(n.version, s[i - 1].version),
    ensures
        placed(s, n) == s.insert(i, n),
    decreases s.len(),
{
    if s.len() == 0 {
        assert(placed(s, n) =~= s.insert(i, n));
    } else if i == s.len() {
        assert(s.last() == s[i - 1]);
        assert(placed(s, n) =~= s.insert(i, n));
    } else {
        assert(s.last() == s[s.len() - 1]);
        assert forall|j: int| i <= j < s.drop_last().len() implies version::version_lt(
            n.version,
            (#[trigger] s.drop_last()[j]).version,
        ) by {
            assert(s[j] == s.drop_last()[j]);
        }
        lemma_placed_at(s.drop_last(), n, i);
        assert(placed(s, n) =~= s.insert(i, n));
    }
}

fn place_node(nodes: &mut Vec<GraphVersion>, n: GraphVersion)
    ensures
        node_views(final(nodes)@) == placed(node_views(old(nodes)@), n@),
{
    let ghost s = node_views(nodes@);
    let mut i: usize = nodes.len();
    while i > 0 && n.version.lies_below(&nodes[i - 1].version)
        invariant
            i <= nodes@.len(),
            nodes@ == old(nodes)@,
            s == node_views(nodes@),
            forall|j: int| i <= j < s.len() ==> version::version_lt(n@.version, (#[trigger] s[j]).version),
        decreases i,
    {
        assert(s[i - 1] == nodes@[i - 1]@);
        i -= 1;
    }
    proof {
        if i > 0 {
            assert(s[i - 1] == nodes@[i - 1]@);
        }
        lemma_placed_at(s, n@, i as int);
    }
    nodes.insert(i, n);
    assert(node_views(nodes@) =~= s.insert(i as int, n@));
}

fn require_sets(reqs: &StrMap<String>) -> (r: StrMap<Ranges<Vec<u128>>>)
    ensures
        dep_sets(r) == required_sets(collections::link_pairs(*reqs)),
{
    let ghost all = collections::link_pairs(*reqs);
    let mut out: StrMap<Ranges<Vec<u128>>> = StrMap::new();
    let n: usize = reqs.entries.len();
    let mut i: usize = 0;
    assert(dep_sets(out) =~= Seq::empty());
    while i < n
        invariant
            i <= n,
            n == reqs.entries@.len(),
            all == collections::link_pairs(*reqs),
            dep_sets(out) == required_sets(all.take(i as int)),
        decreases n - i,
    {
        let name = reqs.entries[i].0.as_str();
        let c = reqs.entries[i].1.as_str();
        proof {
            assert(all.take(i + 1).drop_last() =~= all.take(i as int));
            assert(all.take(i + 1).last() == (name@, c@));
        }
        if package::is_package_req(name) {
            let range = ranges::constraint_to_ranges(&VersionConstraint::new(c));
            proof {
                assert(ranges::range_keys(range) =~= ranges::allowed_keys(c@));
                collections::lemma_with_values(
                    out@,
                    name@,
                    range,
                    |r: Ranges<Vec<u128>>| ranges::range_keys(r),
                );
            }
            out.insert(String::from_str(name), range);
        }
        i += 1;
    }
    assert(all.take(n as int) =~= all);
    out
}

fn root_requirements(request: &SolveRequest) -> (r: StrMap<Ranges<Vec<u128>>>)
    ensures
        dep_sets(r) == root_sets(
            manifest::dep_views(request.root_deps@),
            root_satisfied(*request),
        ),
{
    let ghost all = manifest::dep_views(request.root_deps@);
    let ghost sat = root_satisfied(*request);
    let mut out: StrMap<Ranges<Vec<u128>>> = StrMap::new();
    let n: usize = request.root_deps.len();
    let mut i: usize = 0;
    assert(dep_sets(out) =~= Seq::empty());
    while i < n
        invariant
            i <= n,
            n == request.root_deps@.len(),
            all == manifest::dep_views(request.root_deps@),
            sat == root_satisfied(*request),
            dep_sets(out) == root_sets(all.take(i as int), sat),
        decreases n - i,
    {
        let id = &request.root_deps[i].0;
        let c = &request.root_deps[i].1;
        proof {
            assert(all.take(i + 1).drop_last() =~= all.take(i as int));
            assert(all.take(i + 1).last() == (id@, c@));
        }
        let own = collections::contains_text(&request.root_replace, id.as_str())
            || collections::contains_text(&request.root_provide, id.as_str());
        if !id.is_platform() && !own {
            let range = ranges::constraint_to_ranges(c);
            let name = String::from_str(id.as_str());
            proof {
                assert(ranges::range_keys(range) =~= ranges::allowed_keys(c@));
                collections::lemma_with_values(
                    out@,
                    name@,
                    range,
                    |r: Ranges<Vec<u128>>| ranges::range_keys(r),
                );
            }
            out.insert(name, range);
        }
        i += 1;
    }
    assert(all.take(n as int) =~= all);
    out
}

/// Whether the platform allows a version.
pub fn version_matches_platform(locked: &LockedPackage, request: &SolveRequest) -> (r: bool)
    ensures
        r == fits_platform(locked@, *request),
{
    if request.ignore_platform_reqs || !request.platform.reliable {
        return true;
    }
    platform::check_requirements_filtered(
        &request.platform,
        &locked.require,
        &request.ignore_platform_req,
    ).is_ok()
}

fn candidate(v: &IndexedVersion, request: &SolveRequest) -> (r: bool)
    ensures
        r == is_candidate(v@, *request),
{
    if !version_matches_platform(&v.locked, request) {
        return false;
    }
    v.version.stability().rank() >= request.minimum_stability.rank() || text::starts_with(
        v.version.as_str(),
        "dev-",
    ) || v.source != IndexSource::Packagist
}

/// A conflict of a version.
struct Conflict {
    from: String,
    version: ComposerVersion,
    other: String,
    constraint: VersionConstraint,
}

impl Conflict {
    spec fn model(self) -> ConflictView {
        ConflictView {
            from: self.from@,
            version: self.version@,
            other: self.other@,
            constraint: self.constraint@,
        }
    }
}

spec fn conflict_views(v: Seq<Conflict>) -> Seq<ConflictView> {
    v.map_values(|c: Conflict| c.model())
}

fn push_conflicts(out: &mut Vec<Conflict>, name: &str, v: &IndexedVersion)
    ensures
        conflict_views(final(out)@) == conflict_views(old(out)@) + declared_conflicts(
            name@,
            v@.version,
            v@.locked.conflict,
        ),
{
    let pairs = &v.locked.conflict;
    let ghost all = collections::link_pairs(*pairs);
    let ghost start = conflict_views(out@);
    let n: usize = pairs.entries.len();
    let mut i: usize = 0;
    assert(start + Seq::<ConflictView>::empty() =~= start);
    while i < n
        invariant
            i <= n,
            n == pairs.entries@.len(),
            all == collections::link_pairs(*pairs),
            conflict_views(out@) == start + declared_conflicts(
                name@,
                v@.version,
                all.take(i as int),
            ),
        decreases n - i,
    {
        let other = pairs.entries[i].0.as_str();
        let c = pairs.entries[i].1.as_str();
        proof {
            assert(all.take(i + 1).drop_last() =~= all.take(i as int));
            assert(all.take(i + 1).last() == (other@, c@));
        }
        if !package::is_platform_req(other) {
            let ghost before = out@;
            let conflict = Conflict {
                from: String::from_str(name),
                version: v.version.clone(),
                other: String::from_str(other),
                constraint: VersionConstraint::new(c),
            };
            out.push(conflict);
            proof {
                assert(conflict_views(out@) =~= conflict_views(before).push(conflict.model()));
                assert(conflict_views(out@) =~= start + declared_conflicts(
                    name@,
                    v@.version,
                    all.take(i as int),
                ).push(conflict.model()));
            }
        }
        i += 1;
    }
    assert(all.take(n as int) =~= all);
}

fn push_root_conflicts(out: &mut Vec<Conflict>, request: &SolveRequest)
    ensures
        conflict_views(final(out)@) == conflict_views(old(out)@) + root_conflicts(
            manifest::dep_views(request.root_conflicts@),
        ),
{
    let ghost all = manifest::dep_views(request.root_conflicts@);
    let ghost start = conflict_views(out@);
    let n: usize = request.root_conflicts.len();
    let mut i: usize = 0;
    assert(start + Seq::<ConflictView>::empty() =~= start);
    while i < n
        invariant
            i <= n,
            n == request.root_conflicts@.len(),
            all == manifest::dep_views(request.root_conflicts@),
            conflict_views(out@) == start + root_conflicts(all.take(i as int)),
        decreases n - i,
    {
        let id = &request.root_conflicts[i].0;
        let c = &request.root_conflicts[i].1;
        proof {
            assert(all.take(i + 1).drop_last() =~= all.take(i as int));
            assert(all.take(i + 1).last() == (id@, c@));
        }
        if !id.is_platform() {
            let ghost before = out@;
            let conflict = Conflict {
                from: root_package(),
                version: ComposerVersion::release(1, 0, 0),
                other: String::from_str(id.as_str()),
                constraint: VersionConstraint::new(c.as_str()),
            };
            out.push(conflict);
            proof {
                assert(conflict_views(out@) =~= conflict_views(before).push(conflict.model()));
                assert(conflict_views(out@) =~= start + root_conflicts(all.take(i as int)).push(
                    conflict.model(),
                ));
            }
        }
        i += 1;
    }
    assert(all.take(n as int) =~= all);
}

fn ensure_conflict_dummy(packages: &mut StrMap<Vec<GraphVersion>>, dummy: &str)
    ensures
        graph_map(*final(packages)) == with_conflict_versions(graph_map(*old(packages)), dummy@),
{
    proof {
        collections::lemma_with_values(
            packages@,
            dummy@,
            arbitrary(),
            |v: Vec<GraphVersion>| node_views(v@),
        );
    }
    if packages.contains_key(dummy) {
        return;
    }
    let one = GraphVersion { version: ComposerVersion::release(1, 0, 0), deps: StrMap::new() };
    let two = GraphVersion { version: ComposerVersion::release(2, 0, 0), deps: StrMap::new() };
    assert(dep_sets(one.deps) =~= Seq::empty());
    assert(dep_sets(two.deps) =~= Seq::empty());
    let mut nodes: Vec<GraphVersion> = Vec::new();
    nodes.push(one);
    nodes.push(two);
    proof {
        assert(node_views(nodes@) =~= seq![one@, two@]);
        collections::lemma_with_values(
            packages@,
            dummy@,
            nodes,
            |v: Vec<GraphVersion>| node_views(v@),
        );
    }
    packages.insert(String::from_str(dummy), nodes);
}

fn add_dep_on_version(
    packages: &mut StrMap<Vec<GraphVersion>>,
    package: &str,
    version: &ComposerVersion,
    dep: &str,
    range: Ranges<Vec<u128>>,
)
    ensures
        graph_map(*final(packages)) == changed(
            graph_map(*old(packages)),
            package@,
            |nodes: Seq<NodeView>|
                dep_on_version(nodes, version@, dep@, ranges::range_keys(range)),
        ),
{
    let ghost g = graph_map(*packages);
    let ghost keys = ranges::range_keys(range);
    let ghost f = |nodes: Seq<NodeView>| dep_on_version(nodes, version@, dep@, keys);
    match packages.position(package) {
        None => {
            proof {
                assert forall|j: int| 0 <= j < g.len() implies (#[trigger] g[j]).0 != package@ by {
                    assert(packages@[j].0 != package@);
                }
                lemma_changed_absent(g, package@, f);
            }
        },
        Some(i) => {
            proof {
                assert forall|j: int| 0 <= j < i implies (#[trigger] g[j]).0 != package@ by {
                    assert(packages@[j].0 != package@);
                }
                assert(g[i as int].0 == packages@[i as int].0);
                lemma_changed_at(g, package@, f, i as int);
            }
            let ghost nodes = node_views(packages.entries@[i as int].1@);
            assert(g[i as int].1 == nodes);
            let n: usize = packages.entries[i].1.len();
            let mut j: usize = 0;
            while j < n && !packages.entries[i].1[j].version.same(version)
                invariant
                    j <= n,
                    i < packages.entries@.len(),
                    *packages == *old(packages),
                    n == packages.entries@[i as int].1@.len(),
                    nodes == node_views(packages.entries@[i as int].1@),
                    forall|k: int| 0 <= k < j ==> (#[trigger] nodes[k]).version != version@,
                decreases n - j,
            {
                assert(nodes[j as int] == packages.entries@[i as int].1@[j as int]@);
                j += 1;
            }
            proof {
                if j < n {
                    assert(nodes[j as int] == packages.entries@[i as int].1@[j as int]@);
                }
                lemma_dep_at(nodes, version@, dep@, keys, j as int);
            }
            if j < n {
                proof {
                    collections::lemma_with_values(
                        packages.entries@[i as int].1@[j as int].deps@,
                        dep@,
                        range,
                        |r: Ranges<Vec<u128>>| ranges::range_keys(r),
                    );
                }
                packages.entries[i].1[j].deps.insert(String::from_str(dep), range);
                proof {
                    assert(node_views(packages.entries@[i as int].1@) =~= nodes.update(
                        j as int,
                        with_dep(nodes[j as int], dep@, keys),
                    ));
                    assert(graph_map(*packages) =~= g.update(
                        i as int,
                        (package@, f(g[i as int].1)),
                    ));
                }
            } else {
                assert(g =~= g.update(i as int, (package@, f(g[i as int].1))));
            }
        },
    }
}

fn add_dep_on_matching(
    packages: &mut StrMap<Vec<GraphVersion>>,
    package: &str,
    constraint: &VersionConstraint,
    dep: &str,
    version: &ComposerVersion,
)
    ensures
        graph_map(*final(packages)) == changed(
            graph_map(*old(packages)),
            package@,
            |nodes: Seq<NodeView>|
                dep_on_matching(nodes, constraint@, dep@, ranges::only_version(version@)),
        ),
{
    let ghost g = graph_map(*packages);
    let ghost keys = ranges::only_version(version@);
    let ghost f = |nodes: Seq<NodeView>| dep_on_matching(nodes, constraint@, dep@, keys);
    match packages.position(package) {
        None => {
            proof {
                assert forall|j: int| 0 <= j < g.len() implies (#[trigger] g[j]).0 != package@ by {
                    assert(packages@[j].0 != package@);
                }
                lemma_changed_absent(g, package@, f);
            }
        },
        Some(i) => {
            proof {
                assert forall|j: int| 0 <= j < i implies (#[trigger] g[j]).0 != package@ by {
                    assert(packages@[j].0 != package@);
                }
                assert(g[i as int].0 == packages@[i as int].0);
                lemma_changed_at(g, package@, f, i as int);
            }
            let ghost nodes = node_views(packages.entries@[i as int].1@);
            let ghost done = f(nodes);
            assert(g[i as int].1 == nodes);
            let n: usize = packages.entries[i].1.len();
            let mut j: usize = 0;
            assert(nodes =~= done.take(0) + nodes.skip(0));
            while j < n
                invariant
                    j <= n,
                    i < packages.entries@.len(),
                    packages.entries@.len() == old(packages).entries@.len(),
                    packages.entries@[i as int].0 == old(packages).entries@[i as int].0,
                    forall|x: int|
                        0 <= x < packages.entries@.len() && x != i ==> packages.entries@[x]
                            == old(packages).entries@[x],
                    n == packages.entries@[i as int].1@.len(),
                    n == nodes.len(),
                    keys == ranges::only_version(version@),
                    done == dep_on_matching(nodes, constraint@, dep@, keys),
                    node_views(packages.entries@[i as int].1@) == done.take(j as int)
                        + nodes.skip(j as int),
                decreases n - j,
            {
                let ghost here = node_views(packages.entries@[i as int].1@);
                assert(here[j as int] == packages.entries@[i as int].1@[j as int]@);
                assert(here[j as int] == nodes[j as int]);
                if constraint.matches(&packages.entries[i].1[j].version) {
                    let range = ranges::exactly(version);
                    proof {
                        collections::lemma_with_values(
                            packages.entries@[i as int].1@[j as int].deps@,
                            dep@,
                            range,
                            |r: Ranges<Vec<u128>>| ranges::range_keys(r),
                        );
                    }
                    packages.entries[i].1[j].deps.insert(String::from_str(dep), range);
                    assert(node_views(packages.entries@[i as int].1@) =~= here.update(
                        j as int,
                        with_dep(nodes[j as int], dep@, keys),
                    ));
                }
                assert(node_views(packages.entries@[i as int].1@) =~= done.take(j + 1)
                    + nodes.skip(j + 1));
                j += 1;
            }
            proof {
                assert(done.take(n as int) + nodes.skip(n as int) =~= done);
                assert(graph_map(*packages) =~= g.update(i as int, (package@, f(g[i as int].1))));
            }
        },
    }
}

fn enter_conflict(packages: &mut StrMap<Vec<GraphVersion>>, c: &Conflict)
    ensures
        graph_map(*final(packages)) == with_conflict(graph_map(*old(packages)), c.model()),
{
    let dummy = conflict_dummy_name(c.from.as_str(), c.other.as_str(), c.constraint.as_str());
    ensure_conflict_dummy(packages, dummy.as_str());
    let one = ComposerVersion::release(1, 0, 0);
    let two = ComposerVersion::release(2, 0, 0);
    let range = ranges::exactly(&one);
    let ghost m = c.model();
    let ghost g1 = graph_map(*packages);
    add_dep_on_version(packages, c.from.as_str(), &c.version, dummy.as_str(), range);
    assert(graph_map(*packages) == changed(
        g1,
        m.from,
        |nodes: Seq<NodeView>|
            dep_on_version(nodes, m.version, dummy@, ranges::only_version(first_version())),
    )) by {
        assert((|nodes: Seq<NodeView>|
            dep_on_version(nodes, c.version@, dummy@, ranges::range_keys(range)))
            =~= (|nodes: Seq<NodeView>|
            dep_on_version(nodes, m.version, dummy@, ranges::only_version(first_version()))));
    }
    let ghost g2 = graph_map(*packages);
    add_dep_on_matching(packages, c.other.as_str(), &c.constraint, dummy.as_str(), &two);
    assert(graph_map(*packages) == changed(
        g2,
        m.other,
        |nodes: Seq<NodeView>|
            dep_on_matching(
                nodes,
                m.constraint,
                dummy@,
                ranges::only_version(second_version()),
            ),
    )) by {
        assert((|nodes: Seq<NodeView>|
            dep_on_matching(nodes, c.constraint@, dummy@, ranges::only_version(two@)))
            =~= (|nodes: Seq<NodeView>|
            dep_on_matching(
                nodes,
                m.constraint,
                dummy@,
                ranges::only_version(second_version()),
            )));
    }
}

impl SolverGraph {
    /// The graph of an index and a request.
    pub fn build(index: &PackageIndex, request: &SolveRequest) -> (r: Self)
        ensures
            graph_map(r.packages) == solver_graph(index@, *request),
            r.prefer_lowest == request.prefer_lowest,
            r.prefer_stable == request.prefer_stable,
    {
        let mut packages: StrMap<Vec<GraphVersion>> = StrMap::new();
        let root = GraphVersion {
            version: ComposerVersion::release(1, 0, 0),
            deps: root_requirements(request),
        };
        let mut root_nodes: Vec<GraphVersion> = Vec::new();
        root_nodes.push(root);
        proof {
            assert(node_views(root_nodes@) =~= seq![root@]);
            assert(graph_map(packages) =~= Seq::empty());
            collections::lemma_with_values(
                packages@,
                root_name(),
                root_nodes,
                |v: Vec<GraphVersion>| node_views(v@),
            );
        }
        packages.insert(root_package(), root_nodes);
        let ghost start = graph_map(packages);
        assert(start =~= root_graph(*request));
        let ghost all = index@.packages;
        let mut conflicts: Vec<Conflict> = Vec::new();
        let names = index.package_names();
        let n: usize = names.len();
        let mut i: usize = 0;
        assert(conflict_views(conflicts@) =~= Seq::empty());
        assert(text::texts(names@).len() == index::names_of(all).len());
        while i < n
            invariant
                i <= n,
                n == names@.len(),
                n == all.len(),
                all == index@.packages,
                text::texts(names@) == index::names_of(all),
                graph_map(packages) == requirement_graph(start, all.take(i as int), *request),
                conflict_views(conflicts@) == all_conflicts(all.take(i as int), *request),
            decreases n - i,
        {
            proof {
                assert(text::texts(names@)[i as int] == names@[i as int]@);
                assert(all.take(i + 1).drop_last() =~= all.take(i as int));
                assert(all.take(i + 1).last() == all[i as int]);
                assert(all[i as int].0 == names@[i as int]@);
            }
            let versions = index.versions_at(i);
            let ghost known = index::values_of(all[i as int].1);
            let ghost before = conflict_views(conflicts@);
            let mut nodes: Vec<GraphVersion> = Vec::new();
            let k: usize = versions.len();
            let mut j: usize = 0;
            assert(node_views(nodes@) =~= Seq::empty());
            assert(before + Seq::<ConflictView>::empty() =~= before);
            while j < k
                invariant
                    j <= k,
                    k == versions@.len(),
                    i < names@.len(),
                    known == index::indexed_views(versions@),
                    node_views(nodes@) == candidates(known.take(j as int), *request),
                    conflict_views(conflicts@) == before + conflicts_of(
                        names@[i as int]@,
                        known.take(j as int),
                        *request,
                    ),
                decreases k - j,
            {
                let v = versions[j];
                proof {
                    assert(known.take(j + 1).drop_last() =~= known.take(j as int));
                    assert(known.take(j + 1).last() == v@);
                }
                if candidate(v, request) {
                    let node = GraphVersion {
                        version: v.version.clone(),
                        deps: require_sets(&v.locked.require),
                    };
                    push_conflicts(&mut conflicts, names[i].as_str(), v);
                    proof {
                        assert(conflict_views(conflicts@) =~= before + (conflicts_of(
                            names@[i as int]@,
                            known.take(j as int),
                            *request,
                        ) + declared_conflicts(names@[i as int]@, v@.version, v@.locked.conflict)));
                    }
                    place_node(&mut nodes, node);
                }
                j += 1;
            }
            assert(known.take(k as int) =~= known);
            if nodes.len() > 0 {
                proof {
                    collections::lemma_with_values(
                        packages@,
                        names@[i as int]@,
                        nodes,
                        |v: Vec<GraphVersion>| node_views(v@),
                    );
                }
                packages.insert(names[i].clone(), nodes);
            }
            i += 1;
        }
        assert(all.take(n as int) =~= all);
        push_root_conflicts(&mut conflicts, request);
        let ghost wanted = entered_conflicts(index@, *request);
        assert(conflict_views(conflicts@) == wanted);
        let ghost base = graph_map(packages);
        let m: usize = conflicts.len();
        let mut c: usize = 0;
        while c < m
            invariant
                c <= m,
                m == conflicts@.len(),
                wanted == conflict_views(conflicts@),
                graph_map(packages) == with_conflicts(base, wanted.take(c as int)),
            decreases m - c,
        {
            proof {
                assert(wanted.take(c + 1).drop_last() =~= wanted.take(c as int));
                assert(wanted.take(c + 1).last() == conflicts@[c as int].model());
            }
            enter_conflict(&mut packages, &conflicts[c]);
            c += 1;
        }
        assert(wanted.take(m as int) =~= wanted);
        SolverGraph {
            packages,
            prefer_lowest: request.prefer_lowest,
            prefer_stable: request.prefer_stable,
        }
    }
}

// ---------------------------------------------------------------------------
// Decisions

/// A version lies in the set.
pub open spec fn in_range(keys: Set<Seq<u128>>, v: version::VersionView) -> bool {
    keys.contains(ranges::as_key(version::order_key(v)))
}

/// The number of versions that lie in the set.
pub open spec fn count_in(nodes: Seq<NodeView>, keys: Set<Seq<u128>>) -> nat
    decreases nodes.len(),
{
    if nodes.len() == 0 {
        0
    } else {
        count_in(nodes.drop_last(), keys) + if in_range(keys, nodes.last().version) {
            1nat
        } else {
            0nat
        }
    }
}

/// Some stable version lies in the set.
pub open spec fn stable_in(nodes: Seq<NodeView>, keys: Set<Seq<u128>>) -> bool {
    exists|i: int|
        0 <= i < nodes.len() && in_range(keys, (#[trigger] nodes[i]).version)
            && nodes[i].version.stability is Stable
}

/// A version may be chosen: it lies in the set, and is stable where stable
/// versions are preferred and there are any.
pub open spec fn choosable(
    nodes: Seq<NodeView>,
    i: int,
    keys: Set<Seq<u128>>,
    prefer_stable: bool,
) -> bool {
    &&& 0 <= i < nodes.len()
    &&& in_range(keys, nodes[i].version)
    &&& prefer_stable && stable_in(nodes, keys) ==> nodes[i].version.stability is Stable
}

/// The version that is chosen: the highest of those that may be, or the lowest
/// where low versions are preferred. Of several at the same place it is the
/// last, or the first.
pub open spec fn is_choice(
    nodes: Seq<NodeView>,
    i: int,
    keys: Set<Seq<u128>>,
    prefer_stable: bool,
    prefer_lowest: bool,
) -> bool {
    &&& choosable(nodes, i, keys, prefer_stable)
    &&& forall|k: int|
        #![trigger nodes[k]]
        choosable(nodes, k, keys, prefer_stable) ==> if prefer_lowest {
            &&& !version::version_lt(nodes[k].version, nodes[i].version)
            &&& k < i ==> version::version_lt(nodes[i].version, nodes[k].version)
        } else {
            &&& !version::version_lt(nodes[i].version, nodes[k].version)
            &&& k > i ==> version::version_lt(nodes[k].version, nodes[i].version)
        }
}

/// The first version that is `v`.
pub open spec fn node_at(nodes: Seq<NodeView>, v: version::VersionView) -> Option<NodeView>
    decreases nodes.len(),
{
    if nodes.len() == 0 {
        None
    } else if nodes[0].version == v {
        Some(nodes[0])
    } else {
        node_at(nodes.skip(1), v)
    }
}

/// The versions of a package in the graph.
pub open spec fn nodes_of(g: GraphMap, name: Seq<char>) -> Seq<NodeView> {
    index::entry_of(g, name)
}

/// What does not lie above `b` does not lie above what does not lie below `b`.
proof fn lemma_order_chain(
    a: version::VersionView,
    b: version::VersionView,
    c: version::VersionView,
)
    requires
        !version::version_lt(b, a),
        !version::version_lt(c, b),
    ensures
        !version::version_lt(c, a),
        version::version_lt(a, b) || version::version_lt(b, c) ==> version::version_lt(a, c),
{
    version::law_version_order_total(a, b);
    version::law_version_order_total(b, c);
    version::law_version_order_total(a, c);
    version::law_key_orders_versions(a, b);
    version::law_key_orders_versions(b, c);
    version::law_key_orders_versions(a, c);
    version::law_key_orders_versions(c, a);
    if version::version_lt(a, b) && version::version_lt(b, c) {
        version::law_version_order_transitive(a, b, c);
    }
    if version::version_lt(c, a) {
        if version::version_lt(a, b) {
            version::law_version_order_transitive(c, a, b);
        }
    }
}

impl SolverGraph {
    fn nodes(&self, package: &str) -> (r: Option<&Vec<GraphVersion>>)
        ensures
            match r {
                Some(v) => collections::lookup(graph_map(self.packages), package@) == Some(
                    node_views(v@),
                ),
                None => collections::lookup(graph_map(self.packages), package@) is None,
            },
    {
        proof {
            collections::lemma_with_values(
                self.packages@,
                package@,
                arbitrary(),
                |v: Vec<GraphVersion>| node_views(v@),
            );
        }
        self.packages.get(package)
    }

    /// The number of versions of a package that lie in the set. Packages with
    /// few of them are decided first.
    pub fn count_versions(&self, package: &str, range: &Ranges<Vec<u128>>) -> (r: usize)
        ensures
            r == count_in(nodes_of(graph_map(self.packages), package@), ranges::range_keys(*range)),
    {
        let ghost keys = ranges::range_keys(*range);
        match self.nodes(package) {
            None => 0,
            Some(v) => {
                let ghost all = node_views(v@);
                let n: usize = v.len();
                let mut count: usize = 0;
                let mut i: usize = 0;
                while i < n
                    invariant
                        i <= n,
                        n == v@.len(),
                        count <= i,
                        all == node_views(v@),
                        keys == ranges::range_keys(*range),
                        count == count_in(all.take(i as int), keys),
                    decreases n - i,
                {
                    proof {
                        assert(all.take(i + 1).drop_last() =~= all.take(i as int));
                        assert(all.take(i + 1).last() == v@[i as int]@);
                    }
                    if ranges::contains_version(range, &v[i].version) {
                        count += 1;
                    }
                    i += 1;
                }
                assert(all.take(n as int) =~= all);
                count
            },
        }
    }

    /// The version of a package that is chosen from the set.
    pub fn choose_version(&self, package: &str, range: &Ranges<Vec<u128>>) -> (r: Option<
        &ComposerVersion,
    >)
        ensures
            ({
                let nodes = nodes_of(graph_map(self.packages), package@);
                let keys = ranges::range_keys(*range);
                match r {
                    Some(v) => exists|i: int|
                        #![trigger nodes[i]]
                        is_choice(nodes, i, keys, self.prefer_stable, self.prefer_lowest)
                            && nodes[i].version == v@,
                    None => forall|i: int|
                        0 <= i < nodes.len() ==> !in_range(keys, (#[trigger] nodes[i]).version),
                }
            }),
    {
        let ghost keys = ranges::range_keys(*range);
        let v = match self.nodes(package) {
            Some(v) => v,
            None => {
                return None;
            },
        };
        let ghost nodes = node_views(v@);
        let n: usize = v.len();
        let mut stable = false;
        let mut i: usize = 0;
        while i < n
            invariant
                i <= n,
                n == v@.len(),
                nodes == node_views(v@),
                keys == ranges::range_keys(*range),
                stable == exists|k: int|
                    0 <= k < i && in_range(keys, (#[trigger] nodes[k]).version)
                        && nodes[k].version.stability is Stable,
            decreases n - i,
        {
            assert(nodes[i as int] == v@[i as int]@);
            if v[i].version.is_stable() && ranges::contains_version(range, &v[i].version) {
                stable = true;
            }
            i += 1;
        }
        assert(stable == stable_in(nodes, keys));
        let only_stable = self.prefer_stable && stable;
        let lowest = self.prefer_lowest;
        let ghost ps = self.prefer_stable;
        let mut best: Option<usize> = None;
        let mut k: usize = 0;
        while k < n
            invariant
                k <= n,
                n == v@.len(),
                nodes == node_views(v@),
                keys == ranges::range_keys(*range),
                stable == stable_in(nodes, keys),
                ps == self.prefer_stable,
                lowest == self.prefer_lowest,
                only_stable == (ps && stable),
                match best {
                    Some(b) => {
                        &&& b < k
                        &&& choosable(nodes, b as int, keys, ps)
                        &&& forall|m: int|
                            #![trigger nodes[m]]
                            0 <= m < k && choosable(nodes, m, keys, ps) ==> if lowest {
                                &&& !version::version_lt(nodes[m].version, nodes[b as int].version)
                                &&& m < b ==> version::version_lt(
                                    nodes[b as int].version,
                                    nodes[m].version,
                                )
                            } else {
                                &&& !version::version_lt(nodes[b as int].version, nodes[m].version)
                                &&& m > b ==> version::version_lt(
                                    nodes[m].version,
                                    nodes[b as int].version,
                                )
                            }
                    },
                    None => forall|m: int|
                        #![trigger nodes[m]]
                        0 <= m < k ==> !choosable(nodes, m, keys, ps),
                },
            decreases n - k,
        {
            assert(nodes[k as int] == v@[k as int]@);
            if (!only_stable || v[k].version.is_stable()) && ranges::contains_version(
                range,
                &v[k].version,
            ) {
                assert(choosable(nodes, k as int, keys, ps));
                let ghost was = best;
                let better = match best {
                    Some(b) => {
                        assert(nodes[b as int] == v@[b as int]@);
                        if lowest {
                            v[k].version.lies_below(&v[b].version)
                        } else {
                            !v[k].version.lies_below(&v[b].version)
                        }
                    },
                    None => true,
                };
                if better {
                    best = Some(k);
                }
                proof {
                    let x = nodes[k as int].version;
                    version::law_version_order_total(x, x);
                    if let Some(b) = was {
                        let y = nodes[b as int].version;
                        version::law_version_order_total(x, y);
                        assert forall|m: int| #![trigger nodes[m]]
                            0 <= m < k + 1 && choosable(nodes, m, keys, ps) && better implies if lowest {
                            &&& !version::version_lt(nodes[m].version, x)
                            &&& m < k ==> version::version_lt(x, nodes[m].version)
                        } else {
                            !version::version_lt(x, nodes[m].version)
                        } by {
                            if m < k {
                                if lowest {
                                    lemma_order_chain(x, y, nodes[m].version);
                                } else {
                                    lemma_order_chain(nodes[m].version, y, x);
                                }
                            }
                        }
                    }
                }
            } else {
                assert(!choosable(nodes, k as int, keys, ps));
            }
            k += 1;
        }
        match best {
            Some(b) => {
                assert(nodes[b as int] == v@[b as int]@);
                assert(is_choice(nodes, b as int, keys, ps, lowest));
                Some(&v[b].version)
            },
            None => {
                proof {
                    assert forall|m: int| 0 <= m < nodes.len() implies !in_range(
                        keys,
                        (#[trigger] nodes[m]).version,
                    ) by {
                        assert(!choosable(nodes, m, keys, ps));
                        if in_range(keys, nodes[m].version) {
                            let s = choose|s: int|
                                0 <= s < nodes.len() && in_range(keys, (#[trigger] nodes[s]).version)
                                    && nodes[s].version.stability is Stable;
                            assert(!choosable(nodes, s, keys, ps));
                        }
                    }
                }
                None
            },
        }
    }

    /// What a version of a package depends on; nothing if the version is not
    /// in the graph.
    pub fn dependencies(&self, package: &str, version: &ComposerVersion) -> (r: Option<
        &StrMap<Ranges<Vec<u128>>>,
    >)
        ensures
            match r {
                Some(m) => node_at(nodes_of(graph_map(self.packages), package@), version@)
                    matches Some(node) && node.deps == dep_sets(*m),
                None => node_at(nodes_of(graph_map(self.packages), package@), version@) is None,
            },
    {
        match self.nodes(package) {
            None => None,
            Some(v) => {
                let ghost all = node_views(v@);
                let n: usize = v.len();
                let mut i: usize = 0;
                assert(all.skip(0) =~= all);
                while i < n
                    invariant
                        i <= n,
                        n == v@.len(),
                        all == node_views(v@),
                        all == nodes_of(graph_map(self.packages), package@),
                        node_at(all, version@) == node_at(all.skip(i as int), version@),
                    decreases n - i,
                {
                    assert(all.skip(i as int)[0] == v@[i as int]@);
                    if v[i].version.same(version) {
                        return Some(&v[i].deps);
                    }
                    assert(all.skip(i as int).skip(1) =~= all.skip(i + 1));
                    i += 1;
                }
                None
            },
        }
    }
}

// ---------------------------------------------------------------------------
// Conflicts in the graph

proof fn lemma_lookup_changed(
    g: GraphMap,
    name: Seq<char>,
    f: spec_fn(Seq<NodeView>) -> Seq<NodeView>,
    q: Seq<char>,
)
    ensures
        collections::lookup(changed(g, name, f), q) == match collections::lookup(g, q) {
            Some(nodes) => if q == name {
                Some(f(nodes))
            } else {
                Some(nodes)
            },
            None => None,
        },
    decreases g.len(),
{
    if g.len() > 0 {
        let r = changed(g, name, f);
        if g[0].0 == name {
            assert(r.skip(1) =~= g.skip(1));
        } else {
            assert(r.skip(1) =~= changed(g.skip(1), name, f));
            lemma_lookup_changed(g.skip(1), name, f, q);
        }
    }
}

proof fn lemma_node_at_version(
    nodes: Seq<NodeView>,
    v: version::VersionView,
    dep: Seq<char>,
    keys: Set<Seq<u128>>,
    u: version::VersionView,
)
    ensures
        node_at(dep_on_version(nodes, v, dep, keys), u) == match node_at(nodes, u) {
            Some(n) => if u == v {
                Some(with_dep(n, dep, keys))
            } else {
                Some(n)
            },
            None => None,
        },
    decreases nodes.len(),
{
    if nodes.len() > 0 {
        let r = dep_on_version(nodes, v, dep, keys);
        if nodes[0].version == v {
            assert(r.skip(1) =~= nodes.skip(1));
        } else {
            assert(r.skip(1) =~= dep_on_version(nodes.skip(1), v, dep, keys));
            lemma_node_at_version(nodes.skip(1), v, dep, keys, u);
        }
    }
}

proof fn lemma_node_at_matching(
    nodes: Seq<NodeView>,
    c: Seq<char>,
    dep: Seq<char>,
    keys: Set<Seq<u128>>,
    u: version::VersionView,
)
    ensures
        node_at(dep_on_matching(nodes, c, dep, keys), u) == match node_at(nodes, u) {
            Some(n) => if constraint::satisfies(c, u) {
                Some(with_dep(n, dep, keys))
            } else {
                Some(n)
            },
            None => None,
        },
    decreases nodes.len(),
{
    if nodes.len() > 0 {
        let r = dep_on_matching(nodes, c, dep, keys);
        assert(r.skip(1) =~= dep_on_matching(nodes.skip(1), c, dep, keys));
        lemma_node_at_matching(nodes.skip(1), c, dep, keys, u);
    }
}

/// A name without a colon.
pub open spec fn plain_name(s: Seq<char>) -> bool {
    !s.contains(':')
}

proof fn lemma_split_at_colons(a1: Seq<char>, b1: Seq<char>, a2: Seq<char>, b2: Seq<char>)
    requires
        plain_name(a1),
        plain_name(a2),
        a1 + "::"@ + b1 == a2 + "::"@ + b2,
    ensures
        a1 == a2,
        b1 == b2,
{
    reveal_strlit("::");
    let x = a1 + "::"@ + b1;
    let y = a2 + "::"@ + b2;
    assert(x[a1.len() as int] == ':');
    assert(y[a2.len() as int] == ':');
    if a1.len() < a2.len() {
        assert(y[a1.len() as int] == a2[a1.len() as int]);
        assert(a2.contains(':'));
    }
    if a2.len() < a1.len() {
        assert(x[a2.len() as int] == a1[a2.len() as int]);
        assert(a1.contains(':'));
    }
    assert forall|i: int| 0 <= i < a1.len() implies a1[i] == a2[i] by {
        assert(x[i] == a1[i]);
        assert(y[i] == a2[i]);
    }
    assert(a1 =~= a2);
    assert(x.len() == y.len());
    assert forall|i: int| 0 <= i < b1.len() implies b1[i] == b2[i] by {
        assert(x[a1.len() + 2 + i] == b1[i]);
        assert(y[a2.len() + 2 + i] == b2[i]);
    }
    assert(b1 =~= b2);
}

proof fn lemma_conflict_names(c: ConflictView, d: ConflictView)
    requires
        plain_name(c.from),
        plain_name(c.other),
        plain_name(d.from),
        plain_name(d.other),
        conflict_name(c.from, c.other, c.constraint) == conflict_name(
            d.from,
            d.other,
            d.constraint,
        ),
    ensures
        c.from == d.from,
        c.other == d.other,
        c.constraint == d.constraint,
{
    let p = conflict_prefix();
    let x = c.from + "::"@ + (c.other + "::"@ + c.constraint);
    let y = d.from + "::"@ + (d.other + "::"@ + d.constraint);
    let a = conflict_name(c.from, c.other, c.constraint);
    let b = conflict_name(d.from, d.other, d.constraint);
    assert(a =~= p + x);
    assert(b =~= p + y);
    assert(a.skip(p.len() as int) =~= x);
    assert(b.skip(p.len() as int) =~= y);
    lemma_split_at_colons(
        c.from,
        c.other + "::"@ + c.constraint,
        d.from,
        d.other + "::"@ + d.constraint,
    );
    lemma_split_at_colons(c.other, c.constraint, d.other, d.constraint);
}

proof fn lemma_conflict_name_colon(c: ConflictView)
    ensures
        !plain_name(conflict_name(c.from, c.other, c.constraint)),
        text::starts(conflict_name(c.from, c.other, c.constraint), conflict_prefix()),
{
    reveal_strlit("::");
    let p = conflict_prefix();
    let a = conflict_name(c.from, c.other, c.constraint);
    assert(a[p.len() + c.from.len() as int] == ':');
    assert(a.take(p.len() as int) =~= p);
}

/// The version of `from` is bound to one side of the conflict, and what it
/// excludes to the other.
spec fn conflict_bound(g: GraphMap, c: ConflictView) -> bool {
    let dummy = conflict_name(c.from, c.other, c.constraint);
    &&& node_at(nodes_of(g, c.from), c.version) matches Some(n) ==> collections::lookup(
        n.deps,
        dummy,
    ) == Some(ranges::only_version(first_version()))
    &&& forall|v: version::VersionView|
        #![trigger node_at(nodes_of(g, c.other), v)]
        constraint::satisfies(c.constraint, v) ==> (node_at(nodes_of(g, c.other), v) matches Some(
            n,
        ) ==> collections::lookup(n.deps, dummy) == Some(ranges::only_version(second_version())))
}

/// What entering a conflict does to the versions of a package.
proof fn lemma_with_conflict_nodes(
    g: GraphMap,
    d: ConflictView,
    name: Seq<char>,
    v: version::VersionView,
    q: Seq<char>,
)
    requires
        plain_name(name),
    ensures
        ({
            let dummy = conflict_name(d.from, d.other, d.constraint);
            match (
                node_at(nodes_of(g, name), v),
                node_at(nodes_of(with_conflict(g, d), name), v),
            ) {
                (None, None) => true,
                (Some(n), Some(m)) => {
                    &&& q != dummy ==> collections::lookup(m.deps, q) == collections::lookup(
                        n.deps,
                        q,
                    )
                    &&& name == d.other && constraint::satisfies(d.constraint, v)
                        ==> collections::lookup(m.deps, dummy) == Some(
                        ranges::only_version(second_version()),
                    )
                    &&& name != d.other && name == d.from && v == d.version
                        ==> collections::lookup(m.deps, dummy) == Some(
                        ranges::only_version(first_version()),
                    )
                    &&& !(name == d.other && constraint::satisfies(d.constraint, v)) && !(name
                        == d.from && v == d.version) ==> m == n
                },
                _ => false,
            }
        }),
{
    let dummy = conflict_name(d.from, d.other, d.constraint);
    lemma_conflict_name_colon(d);
    let one = ranges::only_version(first_version());
    let two = ranges::only_version(second_version());
    let g1 = with_conflict_versions(g, dummy);
    let f = |nodes: Seq<NodeView>| dep_on_version(nodes, d.version, dummy, one);
    let h = |nodes: Seq<NodeView>| dep_on_matching(nodes, d.constraint, dummy, two);
    let g2 = changed(g1, d.from, f);
    let nodes = nodes_of(g, name);
    assert(with_conflict(g, d) == changed(g2, d.other, h));
    if collections::lookup(g, dummy) is None {
        collections::law_lookup_inserted(
            g,
            dummy,
            seq![
                NodeView { version: first_version(), deps: Seq::empty() },
                NodeView { version: second_version(), deps: Seq::empty() },
            ],
            name,
        );
    }
    lemma_lookup_changed(g1, d.from, f, name);
    lemma_lookup_changed(g2, d.other, h, name);
    let nodes1 = if name == d.from {
        f(nodes)
    } else {
        nodes
    };
    lemma_node_at_version(nodes, d.version, dummy, one, v);
    lemma_node_at_matching(nodes1, d.constraint, dummy, two, v);
    if let Some(n) = node_at(nodes, v) {
        collections::law_lookup_inserted(n.deps, dummy, one, q);
        collections::law_lookup_inserted(n.deps, dummy, one, dummy);
    }
    if let Some(n) = node_at(nodes1, v) {
        collections::law_lookup_inserted(n.deps, dummy, two, q);
        collections::law_lookup_inserted(n.deps, dummy, two, dummy);
    }
}

proof fn lemma_conflict_stays_bound(g: GraphMap, c: ConflictView, d: ConflictView)
    requires
        plain_name(c.from),
        plain_name(c.other),
        plain_name(d.from),
        plain_name(d.other),
        c.from != c.other,
        conflict_bound(g, c) || c == d,
    ensures
        conflict_bound(with_conflict(g, d), c),
{
    let dummy = conflict_name(c.from, c.other, c.constraint);
    let other = conflict_name(d.from, d.other, d.constraint);
    if dummy == other {
        lemma_conflict_names(c, d);
    }
    lemma_with_conflict_nodes(g, d, c.from, c.version, dummy);
    assert forall|v: version::VersionView|
        #![trigger node_at(nodes_of(with_conflict(g, d), c.other), v)]
        constraint::satisfies(c.constraint, v) implies (node_at(
        nodes_of(with_conflict(g, d), c.other),
        v,
    ) matches Some(n) ==> collections::lookup(n.deps, dummy) == Some(
        ranges::only_version(second_version()),
    )) by {
        lemma_with_conflict_nodes(g, d, c.other, v, dummy);
        assert(conflict_bound(g, c) ==> (node_at(nodes_of(g, c.other), v) matches Some(n)
            ==> collections::lookup(n.deps, dummy) == Some(
            ranges::only_version(second_version()),
        )));
    }
}

proof fn lemma_conflicts_bound(g: GraphMap, cs: Seq<ConflictView>, i: int)
    requires
        0 <= i < cs.len(),
        cs[i].from != cs[i].other,
        forall|j: int|
            0 <= j < cs.len() ==> plain_name((#[trigger] cs[j]).from) && plain_name(cs[j].other),
    ensures
        conflict_bound(with_conflicts(g, cs), cs[i]),
    decreases cs.len(),
{
    let rest = cs.drop_last();
    let last = cs.last();
    assert(last == cs[cs.len() - 1]);
    assert forall|j: int| 0 <= j < rest.len() implies plain_name((#[trigger] rest[j]).from)
        && plain_name(rest[j].other) by {
        assert(rest[j] == cs[j]);
    }
    if i < rest.len() {
        assert(rest[i] == cs[i]);
        lemma_conflicts_bound(g, rest, i);
    }
    lemma_conflict_stays_bound(with_conflicts(g, rest), cs[i], last);
}

/// Versions of packages that together meet what each of them depends on.
pub open spec fn solves(g: GraphMap, sol: Map<Seq<char>, version::VersionView>) -> bool {
    forall|name: Seq<char>|
        #![trigger sol.contains_key(name)]
        sol.contains_key(name) ==> (node_at(nodes_of(g, name), sol[name]) matches Some(n)
            && forall|dep: Seq<char>|
            #![trigger collections::lookup(n.deps, dep)]
            collections::lookup(n.deps, dep) matches Some(keys) ==> sol.contains_key(dep)
                && in_range(keys, sol[dep]))
}

/// No solution holds a version together with one that it excludes.
pub proof fn law_conflict_is_exclusive(
    g: GraphMap,
    cs: Seq<ConflictView>,
    i: int,
    sol: Map<Seq<char>, version::VersionView>,
)
    requires
        solves(with_conflicts(g, cs), sol),
        0 <= i < cs.len(),
        cs[i].from != cs[i].other,
        forall|j: int|
            0 <= j < cs.len() ==> plain_name((#[trigger] cs[j]).from) && plain_name(cs[j].other),
    ensures
        !(sol.contains_key(cs[i].from) && sol[cs[i].from] == cs[i].version && sol.contains_key(
            cs[i].other,
        ) && constraint::satisfies(cs[i].constraint, sol[cs[i].other])),
{
    let c = cs[i];
    let graph = with_conflicts(g, cs);
    let dummy = conflict_name(c.from, c.other, c.constraint);
    lemma_conflicts_bound(g, cs, i);
    if sol.contains_key(c.from) && sol[c.from] == c.version && sol.contains_key(c.other)
        && constraint::satisfies(c.constraint, sol[c.other]) {
        let n = node_at(nodes_of(graph, c.from), c.version)->0;
        let m = node_at(nodes_of(graph, c.other), sol[c.other])->0;
        assert(collections::lookup(n.deps, dummy) == Some(ranges::only_version(first_version())));
        assert(collections::lookup(m.deps, dummy) == Some(ranges::only_version(second_version())));
        let k1 = ranges::as_key(version::order_key(first_version()));
        let k2 = ranges::as_key(version::order_key(second_version()));
        ranges::law_release_key(1, 0, 0);
        ranges::law_release_key(2, 0, 0);
        assert(k1[1] == 1u128);
        assert(k2[1] == 2u128);
    }
}

/// A conflict asks for no package: but for the conflicts themselves, a version
/// depends on what it depended on before the conflicts were entered.
pub proof fn law_conflict_asks_for_nothing(
    g: GraphMap,
    cs: Seq<ConflictView>,
    name: Seq<char>,
    v: version::VersionView,
    dep: Seq<char>,
)
    requires
        plain_name(name),
        !text::starts(dep, conflict_prefix()),
    ensures
        match (node_at(nodes_of(g, name), v), node_at(nodes_of(with_conflicts(g, cs), name), v)) {
            (None, None) => true,
            (Some(n), Some(m)) => collections::lookup(m.deps, dep) == collections::lookup(
                n.deps,
                dep,
            ),
            _ => false,
        },
    decreases cs.len(),
{
    if cs.len() > 0 {
        let rest = cs.drop_last();
        law_conflict_asks_for_nothing(g, rest, name, v, dep);
        lemma_conflict_name_colon(cs.last());
        lemma_with_conflict_nodes(with_conflicts(g, rest), cs.last(), name, v, dep);
    }
}

/// No requirement behind the one at `i` is on the same package.
pub open spec fn is_last_of_name(reqs: Seq<(Seq<char>, Seq<char>)>, i: int) -> bool {
    forall|j: int| i < j < reqs.len() ==> (#[trigger] reqs[j]).0 != reqs[i].0
}

proof fn lemma_root_set(reqs: Seq<(Seq<char>, Seq<char>)>, satisfied: Set<Seq<char>>, i: int)
    requires
        0 <= i < reqs.len(),
        is_last_of_name(reqs, i),
        !package::is_platform_name(reqs[i].0),
        !satisfied.contains(reqs[i].0),
    ensures
        collections::lookup(root_sets(reqs, satisfied), reqs[i].0) == Some(
            ranges::allowed_keys(reqs[i].1),
        ),
    decreases reqs.len(),
{
    let rest = reqs.drop_last();
    let (name, c) = reqs.last();
    if i < rest.len() {
        assert forall|j: int| i < j < rest.len() implies (#[trigger] rest[j]).0 != rest[i].0 by {
            assert(reqs[j].0 != reqs[i].0);
        }
        lemma_root_set(rest, satisfied, i);
        assert(reqs[reqs.len() - 1].0 != reqs[i].0);
    }
    collections::law_lookup_inserted(
        root_sets(rest, satisfied),
        name,
        ranges::allowed_keys(c),
        reqs[i].0,
    );
}

proof fn lemma_required_set(reqs: Seq<(Seq<char>, Seq<char>)>, i: int)
    requires
        0 <= i < reqs.len(),
        is_last_of_name(reqs, i),
        package::names_package(reqs[i].0),
    ensures
        collections::lookup(required_sets(reqs), reqs[i].0) == Some(
            ranges::allowed_keys(reqs[i].1),
        ),
    decreases reqs.len(),
{
    let rest = reqs.drop_last();
    let (name, c) = reqs.last();
    if i < rest.len() {
        assert forall|j: int| i < j < rest.len() implies (#[trigger] rest[j]).0 != rest[i].0 by {
            assert(reqs[j].0 != reqs[i].0);
        }
        lemma_required_set(rest, i);
        assert(reqs[reqs.len() - 1].0 != reqs[i].0);
    }
    collections::law_lookup_inserted(
        required_sets(rest),
        name,
        ranges::allowed_keys(c),
        reqs[i].0,
    );
}

/// A package stands in the graph as it did at the start, or with the versions of
/// it that come into question.
proof fn lemma_requirement_nodes(
    start: GraphMap,
    p: index::PackageMap,
    req: SolveRequest,
    name: Seq<char>,
)
    ensures
        nodes_of(requirement_graph(start, p, req), name) == nodes_of(start, name) || exists|i: int|
            0 <= i < p.len() && (#[trigger] p[i]).0 == name && nodes_of(
                requirement_graph(start, p, req),
                name,
            ) == candidates(index::values_of(p[i].1), req),
        (forall|i: int| 0 <= i < p.len() ==> (#[trigger] p[i]).0 != name) ==> nodes_of(
            requirement_graph(start, p, req),
            name,
        ) == nodes_of(start, name),
    decreases p.len(),
{
    if p.len() > 0 {
        let rest = p.drop_last();
        lemma_requirement_nodes(start, rest, req, name);
        let g = requirement_graph(start, rest, req);
        let nodes = candidates(index::values_of(p.last().1), req);
        assert(p.last() == p[p.len() - 1]);
        collections::law_lookup_inserted(g, p.last().0, nodes, name);
        if nodes_of(g, name) != nodes_of(start, name) {
            let i = choose|i: int|
                0 <= i < rest.len() && (#[trigger] rest[i]).0 == name && nodes_of(g, name)
                    == candidates(index::values_of(rest[i].1), req);
            assert(p[i] == rest[i]);
        }
        if forall|i: int| 0 <= i < p.len() ==> (#[trigger] p[i]).0 != name {
            assert forall|i: int| 0 <= i < rest.len() implies (#[trigger] rest[i]).0 != name by {
                assert(p[i] == rest[i]);
            }
        }
    }
}

proof fn lemma_placed_holds(s: Seq<NodeView>, n: NodeView, x: NodeView)
    requires
        placed(s, n).contains(x),
    ensures
        x == n || s.contains(x),
    decreases s.len(),
{
    let r = placed(s, n);
    let i = choose|i: int| 0 <= i < r.len() && r[i] == x;
    if s.len() > 0 {
        if version::version_lt(n.version, s.last().version) {
            let below = placed(s.drop_last(), n);
            if i < below.len() {
                assert(below[i] == x);
                lemma_placed_holds(s.drop_last(), n, x);
                if s.drop_last().contains(x) {
                    let j = choose|j: int| 0 <= j < s.drop_last().len() && s.drop_last()[j] == x;
                    assert(s[j] == x);
                }
            } else {
                assert(s[s.len() - 1] == x);
            }
        } else if i < s.len() {
            assert(s[i] == x);
        }
    }
}

/// A version in the graph is a known one that comes into question, with what it
/// requires.
proof fn lemma_candidate_known(m: Seq<index::IndexedView>, req: SolveRequest, x: NodeView) -> (j:
    int)
    requires
        candidates(m, req).contains(x),
    ensures
        0 <= j < m.len(),
        is_candidate(m[j], req),
        x == (NodeView { version: m[j].version, deps: required_sets(m[j].locked.require) }),
    decreases m.len(),
{
    if m.len() == 0 {
        assert(false);
        0
    } else {
        let rest = candidates(m.drop_last(), req);
        let n = NodeView {
            version: m.last().version,
            deps: required_sets(m.last().locked.require),
        };
        if is_candidate(m.last(), req) {
            lemma_placed_holds(rest, n, x);
        }
        if is_candidate(m.last(), req) && x == n {
            m.len() - 1
        } else {
            let j = lemma_candidate_known(m.drop_last(), req, x);
            assert(m[j] == m.drop_last()[j]);
            j
        }
    }
}

proof fn lemma_node_held(nodes: Seq<NodeView>, v: version::VersionView)
    requires
        node_at(nodes, v) is Some,
    ensures
        nodes.contains(node_at(nodes, v)->0),
        node_at(nodes, v)->0.version == v,
    decreases nodes.len(),
{
    if nodes[0].version != v {
        lemma_node_held(nodes.skip(1), v);
        let x = node_at(nodes, v)->0;
        let i = choose|i: int| 0 <= i < nodes.skip(1).len() && nodes.skip(1)[i] == x;
        assert(nodes[i + 1] == x);
    }
}

/// A solution of the graph meets every requirement of the project that the
/// project itself does not stand for. No package has the name of the project in
/// the graph.
pub proof fn law_project_requirements_are_met(
    ix: index::IndexView,
    req: SolveRequest,
    sol: Map<Seq<char>, version::VersionView>,
    i: int,
)
    requires
        solves(solver_graph(ix, req), sol),
        sol.contains_key(root_name()),
        sol[root_name()] == first_version(),
        forall|j: int|
            0 <= j < ix.packages.len() ==> (#[trigger] ix.packages[j]).0 != root_name(),
        0 <= i < req.root_deps@.len(),
        is_last_of_name(manifest::dep_views(req.root_deps@), i),
        !package::is_platform_name(manifest::dep_views(req.root_deps@)[i].0),
        !root_satisfied(req).contains(manifest::dep_views(req.root_deps@)[i].0),
        !text::starts(manifest::dep_views(req.root_deps@)[i].0, conflict_prefix()),
    ensures
        sol.contains_key(manifest::dep_views(req.root_deps@)[i].0),
        in_range(
            ranges::allowed_keys(manifest::dep_views(req.root_deps@)[i].1),
            sol[manifest::dep_views(req.root_deps@)[i].0],
        ),
{
    let reqs = manifest::dep_views(req.root_deps@);
    let dep = reqs[i].0;
    let start = root_graph(req);
    let g = requirement_graph(start, ix.packages, req);
    let cs = entered_conflicts(ix, req);
    reveal_strlit("__root__/__root__");
    assert(plain_name(root_name()));
    lemma_requirement_nodes(start, ix.packages, req, root_name());
    let root = NodeView {
        version: first_version(),
        deps: root_sets(reqs, root_satisfied(req)),
    };
    assert(collections::lookup(start, root_name()) == Some(seq![root]));
    assert(node_at(nodes_of(g, root_name()), first_version()) == Some(root));
    lemma_root_set(reqs, root_satisfied(req), i);
    law_conflict_asks_for_nothing(g, cs, root_name(), first_version(), dep);
}

/// Every package of a solution of the graph is a known version that the platform
/// allows and that is stable enough, and what it requires is in the solution, in
/// a version that the requirement allows. The project and the conflicts are no
/// packages, and no requirement has the name of a conflict.
pub proof fn law_package_requirements_are_met(
    ix: index::IndexView,
    req: SolveRequest,
    sol: Map<Seq<char>, version::VersionView>,
    name: Seq<char>,
) -> (at: (int, int))
    requires
        solves(solver_graph(ix, req), sol),
        sol.contains_key(name),
        name != root_name(),
        plain_name(name),
    ensures
        0 <= at.0 < ix.packages.len(),
        ix.packages[at.0].0 == name,
        0 <= at.1 < ix.packages[at.0].1.len(),
        ({
            let known = ix.packages[at.0].1[at.1].1;
            &&& known.version == sol[name]
            &&& is_candidate(known, req)
            &&& forall|i: int|
                0 <= i < known.locked.require.len() && is_last_of_name(known.locked.require, i)
                    && package::names_package((#[trigger] known.locked.require[i]).0)
                    && !text::starts(known.locked.require[i].0, conflict_prefix())
                    ==> sol.contains_key(known.locked.require[i].0) && in_range(
                    ranges::allowed_keys(known.locked.require[i].1),
                    sol[known.locked.require[i].0],
                )
        }),
{
    let start = root_graph(req);
    let g = requirement_graph(start, ix.packages, req);
    let cs = entered_conflicts(ix, req);
    let v = sol[name];
    reveal_strlit("__composer_rs_conflict__/");
    assert(conflict_prefix().len() > 0);
    law_conflict_asks_for_nothing(g, cs, name, v, Seq::empty());
    lemma_requirement_nodes(start, ix.packages, req, name);
    assert(start[0].0 == root_name());
    assert(collections::lookup(start.skip(1), name) is None);
    assert(collections::lookup(start, name) is None);
    let nodes = nodes_of(g, name);
    lemma_node_held(nodes, v);
    let n = node_at(nodes, v)->0;
    let p = choose|i: int|
        0 <= i < ix.packages.len() && (#[trigger] ix.packages[i]).0 == name && nodes == candidates(
            index::values_of(ix.packages[i].1),
            req,
        );
    let m = index::values_of(ix.packages[p].1);
    let j = lemma_candidate_known(m, req, n);
    let known = ix.packages[p].1[j].1;
    assert(known == m[j]);
    let reqs = known.locked.require;
    assert forall|i: int|
        0 <= i < reqs.len() && is_last_of_name(reqs, i) && package::names_package(
            (#[trigger] reqs[i]).0,
        ) && !text::starts(reqs[i].0, conflict_prefix()) implies sol.contains_key(reqs[i].0)
        && in_range(ranges::allowed_keys(reqs[i].1), sol[reqs[i].0]) by {
        lemma_required_set(reqs, i);
        law_conflict_asks_for_nothing(g, cs, name, v, reqs[i].0);
    }
    (p, j)
}

// ---------------------------------------------------------------------------
// What enters the graph

/// A version may be chosen: what it requires of a known platform is met, but for
/// what is to be ignored, and it is stable enough. Only numbered versions of a
/// remote repository are asked for their stability.
pub open spec fn admitted(v: index::IndexedView, req: SolveRequest) -> bool {
    &&& req.ignore_platform_reqs || !req.platform.reliable || forall|i: int|
        0 <= i < v.locked.require.len() && package::names_platform(
            (#[trigger] v.locked.require[i]).0,
        ) && (forall|k: int|
            0 <= k < req.ignore_platform_req@.len() ==> !platform::pattern_covers(
                (#[trigger] req.ignore_platform_req@[k])@,
                v.locked.require[i].0,
            )) ==> platform::requirement_met(
            req.platform@,
            v.locked.require[i].0,
            v.locked.require[i].1,
        )
    &&& v.source == IndexSource::Packagist && !text::starts(v.version.raw, "dev-"@)
        ==> !releases::claims_less(v.version.stability, req.minimum_stability)
}

proof fn lemma_admitted(v: index::IndexedView, req: SolveRequest)
    ensures
        is_candidate(v, req) == admitted(v, req),
{
    let patterns = text::texts(req.ignore_platform_req@);
    platform::law_no_fault_if_all_met(req.platform@, v.locked.require, patterns);
    releases::law_ranks_rise(v.version.stability, req.minimum_stability);
    assert forall|i: int| 0 <= i < v.locked.require.len() implies (forall|k: int|
        0 <= k < patterns.len() ==> !platform::pattern_covers(
            #[trigger] patterns[k],
            (#[trigger] v.locked.require[i]).0,
        )) == (forall|k: int|
        0 <= k < req.ignore_platform_req@.len() ==> !platform::pattern_covers(
            (#[trigger] req.ignore_platform_req@[k])@,
            v.locked.require[i].0,
        )) by {
        let name = v.locked.require[i].0;
        if forall|k: int|
            0 <= k < patterns.len() ==> !platform::pattern_covers(#[trigger] patterns[k], name) {
            assert forall|k: int| 0 <= k < req.ignore_platform_req@.len() implies
                !platform::pattern_covers((#[trigger] req.ignore_platform_req@[k])@, name) by {
                assert(patterns[k] == req.ignore_platform_req@[k]@);
            }
        }
        if forall|k: int|
            0 <= k < req.ignore_platform_req@.len() ==> !platform::pattern_covers(
                (#[trigger] req.ignore_platform_req@[k])@,
                name,
            ) {
            assert forall|k: int| 0 <= k < patterns.len() implies !platform::pattern_covers(
                #[trigger] patterns[k],
                name,
            ) by {
                assert(patterns[k] == req.ignore_platform_req@[k]@);
            }
        }
    }
}

proof fn lemma_placed_keeps(s: Seq<NodeView>, n: NodeView, x: NodeView)
    requires
        x == n || s.contains(x),
    ensures
        placed(s, n).contains(x),
    decreases s.len(),
{
    let r = placed(s, n);
    if s.len() == 0 {
        assert(r[0] == n);
    } else if version::version_lt(n.version, s.last().version) {
        let front = s.drop_last();
        let below = placed(front, n);
        if x == n || front.contains(x) {
            lemma_placed_keeps(front, n, x);
            let i = choose|i: int| 0 <= i < below.len() && below[i] == x;
            assert(r[i] == x);
        } else {
            let i = choose|i: int| 0 <= i < s.len() && s[i] == x;
            if i < front.len() {
                assert(front[i] == x);
            }
            assert(r[below.len() as int] == s.last());
        }
    } else {
        if x == n {
            assert(r[s.len() as int] == n);
        } else {
            let i = choose|i: int| 0 <= i < s.len() && s[i] == x;
            assert(r[i] == x);
        }
    }
}

proof fn lemma_candidate_enters(m: Seq<index::IndexedView>, req: SolveRequest, j: int)
    requires
        0 <= j < m.len(),
        is_candidate(m[j], req),
    ensures
        candidates(m, req).contains(
            NodeView { version: m[j].version, deps: required_sets(m[j].locked.require) },
        ),
    decreases m.len(),
{
    let x = NodeView { version: m[j].version, deps: required_sets(m[j].locked.require) };
    let rest = candidates(m.drop_last(), req);
    if j < m.len() - 1 {
        assert(m.drop_last()[j] == m[j]);
        lemma_candidate_enters(m.drop_last(), req, j);
    }
    if is_candidate(m.last(), req) {
        lemma_placed_keeps(
            rest,
            NodeView { version: m.last().version, deps: required_sets(m.last().locked.require) },
            x,
        );
    }
}

proof fn lemma_node_found(nodes: Seq<NodeView>, i: int)
    requires
        0 <= i < nodes.len(),
    ensures
        node_at(nodes, nodes[i].version) is Some,
    decreases nodes.len(),
{
    if i > 0 {
        assert(nodes.skip(1)[i - 1] == nodes[i]);
        lemma_node_found(nodes.skip(1), i - 1);
    }
}

proof fn lemma_package_enters(
    start: GraphMap,
    p: index::PackageMap,
    req: SolveRequest,
    i: int,
)
    requires
        0 <= i < p.len(),
        forall|j: int| 0 <= j < p.len() && j != i ==> (#[trigger] p[j]).0 != p[i].0,
        nodes_of(start, p[i].0).len() == 0,
    ensures
        nodes_of(requirement_graph(start, p, req), p[i].0) =~= candidates(
            index::values_of(p[i].1),
            req,
        ),
    decreases p.len(),
{
    let name = p[i].0;
    let rest = p.drop_last();
    let g = requirement_graph(start, rest, req);
    let nodes = candidates(index::values_of(p.last().1), req);
    collections::law_lookup_inserted(g, p.last().0, nodes, name);
    assert(p.last() == p[p.len() - 1]);
    if i < rest.len() {
        assert forall|j: int| 0 <= j < rest.len() && j != i implies (#[trigger] rest[j]).0
            != rest[i].0 by {
            assert(p[j].0 != p[i].0);
        }
        lemma_package_enters(start, rest, req, i);
        assert(p[p.len() - 1].0 != name);
    } else {
        assert forall|j: int| 0 <= j < rest.len() implies (#[trigger] rest[j]).0 != name by {
            assert(p[j].0 != p[i].0);
        }
        lemma_requirement_nodes(start, rest, req, name);
    }
}

/// A package is known under this name in this version, and may be chosen.
pub open spec fn offered(
    ix: index::IndexView,
    req: SolveRequest,
    name: Seq<char>,
    v: version::VersionView,
) -> bool {
    exists|i: int, j: int|
        #![trigger ix.packages[i].1[j]]
        0 <= i < ix.packages.len() && ix.packages[i].0 == name && 0 <= j < ix.packages[i].1.len()
            && ix.packages[i].1[j].1.version == v && admitted(ix.packages[i].1[j].1, req)
}

/// The graph holds a version of a package if and only if the version is known and
/// may be chosen: no numbered version of a remote repository that is less stable
/// than the project asks for enters it, nor one that the platform does not allow,
/// and every other version does.
pub proof fn law_what_enters_the_graph(
    ix: index::IndexView,
    req: SolveRequest,
    name: Seq<char>,
    v: version::VersionView,
)
    requires
        collections::ordered(ix.packages),
        plain_name(name),
        name != root_name(),
    ensures
        node_at(nodes_of(solver_graph(ix, req), name), v) is Some <==> offered(ix, req, name, v),
{
    let start = root_graph(req);
    let g = requirement_graph(start, ix.packages, req);
    let cs = entered_conflicts(ix, req);
    let p = ix.packages;
    reveal_strlit("__composer_rs_conflict__/");
    assert(conflict_prefix().len() > 0);
    law_conflict_asks_for_nothing(g, cs, name, v, Seq::empty());
    assert(start[0].0 == root_name());
    assert(collections::lookup(start.skip(1), name) is None);
    assert(collections::lookup(start, name) is None);
    let nodes = nodes_of(g, name);
    if node_at(nodes, v) is Some {
        lemma_requirement_nodes(start, p, req, name);
        lemma_node_held(nodes, v);
        let n = node_at(nodes, v)->0;
        let i = choose|i: int|
            0 <= i < p.len() && (#[trigger] p[i]).0 == name && nodes == candidates(
                index::values_of(p[i].1),
                req,
            );
        let m = index::values_of(p[i].1);
        let j = lemma_candidate_known(m, req, n);
        assert(p[i].1[j].1 == m[j]);
        lemma_admitted(m[j], req);
        assert(offered(ix, req, name, v));
    }
    if offered(ix, req, name, v) {
        let (i, j) = choose|i: int, j: int|
            #![trigger p[i].1[j]]
            0 <= i < p.len() && p[i].0 == name && 0 <= j < p[i].1.len() && p[i].1[j].1.version == v
                && admitted(p[i].1[j].1, req);
        let m = index::values_of(p[i].1);
        assert(m[j] == p[i].1[j].1);
        lemma_admitted(m[j], req);
        assert forall|k: int| 0 <= k < p.len() && k != i implies (#[trigger] p[k]).0 != p[i].0 by {
            if k < i {
                assert(text::text_lt(p[k].0, p[i].0));
            } else {
                assert(text::text_lt(p[i].0, p[k].0));
            }
            text::lemma_text_lt_total(p[k].0, p[i].0);
        }
        lemma_package_enters(start, p, req, i);
        lemma_candidate_enters(m, req, j);
        let x = NodeView { version: m[j].version, deps: required_sets(m[j].locked.require) };
        let k = choose|k: int| 0 <= k < nodes.len() && nodes[k] == x;
        lemma_node_found(nodes, k);
    }
}

// ---------------------------------------------------------------------------
// What is chosen

/// Of the versions in the set the highest is chosen, or the lowest where low
/// versions are preferred; where stable versions are preferred and there are any,
/// a stable one, and the highest or lowest of these.
pub proof fn law_what_is_chosen(
    nodes: Seq<NodeView>,
    i: int,
    keys: Set<Seq<u128>>,
    prefer_stable: bool,
    prefer_lowest: bool,
    k: int,
)
    requires
        is_choice(nodes, i, keys, prefer_stable, prefer_lowest),
        0 <= k < nodes.len(),
        keys.contains(ranges::as_key(version::order_key(nodes[k].version))),
    ensures
        0 <= i < nodes.len(),
        keys.contains(ranges::as_key(version::order_key(nodes[i].version))),
        prefer_stable && nodes[k].version.stability == Stability::Stable ==> nodes[i].version.stability
            == Stability::Stable,
        (!prefer_stable || nodes[k].version.stability == Stability::Stable || nodes[i].version.stability
            != Stability::Stable) && !prefer_lowest ==> !version::version_lt(
            nodes[i].version,
            nodes[k].version,
        ),
        (!prefer_stable || nodes[k].version.stability == Stability::Stable || nodes[i].version.stability
            != Stability::Stable) && prefer_lowest ==> !version::version_lt(
            nodes[k].version,
            nodes[i].version,
        ),
{
    assert(in_range(keys, nodes[k].version));
    if prefer_stable && stable_in(nodes, keys) {
        let s = choose|s: int|
            0 <= s < nodes.len() && in_range(keys, (#[trigger] nodes[s]).version)
                && nodes[s].version.stability is Stable;
        assert(nodes[i].version.stability is Stable);
    }
    if !prefer_stable || !stable_in(nodes, keys) || nodes[k].version.stability is Stable {
        assert(choosable(nodes, k, keys, prefer_stable));
    }
}

} // verus!
