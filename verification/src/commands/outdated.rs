//! Packages of which newer versions are to be had.

use crate::commands;
use crate::commands::Message;
use crate::commands::Tone;
use crate::constraint;
use crate::constraint::VersionConstraint;
use crate::error::Error;
use crate::json;
use crate::json::Json;
use crate::lock;
use crate::lock::ComposerLock;
use crate::lock::LockedPackage;
use crate::manifest::ComposerJson;
use crate::releases;
use crate::repo;
use crate::repo::RemotePackageVersion;
use crate::resolve;
use crate::text;
use crate::version;
use crate::version::ComposerVersion;
use vstd::prelude::*;

verus! {

/// What is asked of outdated packages.
#[derive(Debug, Clone)]
pub struct OutdatedArgs {
    /// Only packages that the project itself requires.
    pub direct: bool,
    /// Also packages that are up to date.
    pub all: bool,
    /// Outdated packages are an error.
    pub strict: bool,
    pub major_only: bool,
    pub minor_only: bool,
    pub format: String,
    pub no_dev: bool,
}

/// How a package stands to its newer versions.
#[derive(Debug, Clone, Copy, PartialEq, Eq, Structural)]
pub enum OutdatedKind {
    UpToDate,
    /// The constraint allows a newer version.
    SemverSafe,
    /// There is a newer version that the constraint does not allow.
    MajorOnly,
}

impl OutdatedKind {
    /// The character that marks the package.
    pub fn marker(self) -> (r: char)
        ensures
            r == match self {
                OutdatedKind::UpToDate => '=',
                OutdatedKind::SemverSafe => '!',
                OutdatedKind::MajorOnly => '~',
            },
    {
        match self {
            OutdatedKind::UpToDate => '=',
            OutdatedKind::SemverSafe => '!',
            OutdatedKind::MajorOnly => '~',
        }
    }

    /// Whether there is a newer version.
    pub fn is_outdated(self) -> (r: bool)
        ensures
            r == (self != OutdatedKind::UpToDate),
    {
        match self {
            OutdatedKind::UpToDate => false,
            OutdatedKind::SemverSafe => true,
            OutdatedKind::MajorOnly => true,
        }
    }

    /// The name of the kind.
    pub fn name(self) -> (r: &'static str)
        ensures
            r@ == kind_name(self),
    {
        match self {
            OutdatedKind::UpToDate => "up-to-date",
            OutdatedKind::SemverSafe => "semver-safe",
            OutdatedKind::MajorOnly => "major-only",
        }
    }
}

/// The name of a kind.
pub open spec fn kind_name(k: OutdatedKind) -> Seq<char> {
    match k {
        OutdatedKind::UpToDate => "up-to-date"@,
        OutdatedKind::SemverSafe => "semver-safe"@,
        OutdatedKind::MajorOnly => "major-only"@,
    }
}

/// A package, its version, and the newer ones.
#[derive(Debug, Clone)]
pub struct OutdatedRow {
    pub name: String,
    pub current: String,
    pub wanted: String,
    pub latest: String,
    pub status: OutdatedKind,
    pub description: Option<String>,
}

/// What a row consists of.
pub struct RowView {
    pub name: Seq<char>,
    pub current: Seq<char>,
    pub wanted: Seq<char>,
    pub latest: Seq<char>,
    pub status: OutdatedKind,
    pub description: Option<Seq<char>>,
}

impl View for OutdatedRow {
    type V = RowView;

    open spec fn view(&self) -> RowView {
        RowView {
            name: self.name@,
            current: self.current@,
            wanted: self.wanted@,
            latest: self.latest@,
            status: self.status,
            description: text::opt_text(self.description),
        }
    }
}

// ---------------------------------------------------------------------------
// Comparing versions

/// The version that a text tells, without any `v` in front.
pub open spec fn told_version(s: Seq<char>) -> Option<version::VersionView> {
    version::parsed(text::without_front(text::trimmed(s), 'v'))
}

/// Two texts tell the same version.
pub open spec fn tell_same(a: Seq<char>, b: Seq<char>) -> bool {
    match (told_version(a), told_version(b)) {
        (Some(x), Some(y)) => x.parts == y.parts && x.stability == y.stability && x.normalized
            == y.normalized,
        _ => text::without_front(a, 'v') == text::without_front(b, 'v'),
    }
}

/// A text tells a lower version than another one.
pub open spec fn tells_lower(a: Seq<char>, b: Seq<char>) -> bool {
    match (told_version(a), told_version(b)) {
        (Some(x), Some(y)) => version::version_lt(x, y),
        _ => text::text_lt(text::without_front(a, 'v'), text::without_front(b, 'v')),
    }
}

fn parse_ver(s: &str) -> (r: Option<ComposerVersion>)
    ensures
        match r {
            Some(v) => told_version(s@) == Some(v@),
            None => told_version(s@) is None,
        },
{
    match ComposerVersion::parse(text::trim_front_char(text::trim(s), 'v')) {
        Ok(v) => Some(v),
        Err(_) => None,
    }
}

/// Whether two texts tell the same version.
pub fn versions_equal(a: &str, b: &str) -> (r: bool)
    ensures
        r == tell_same(a@, b@),
{
    if let Some(x) = parse_ver(a) {
        if let Some(y) = parse_ver(b) {
            let p: (u64, u64, u64) = x.numeric_parts();
            let q: (u64, u64, u64) = y.numeric_parts();
            return p.0 == q.0 && p.1 == q.1 && p.2 == q.2 && x.stability() == y.stability()
                && text::same(x.normalized(), y.normalized());
        }
    }
    text::same(text::trim_front_char(a, 'v'), text::trim_front_char(b, 'v'))
}

/// Whether a text tells a lower version than another one.
pub fn version_less(a: &str, b: &str) -> (r: bool)
    ensures
        r == tells_lower(a@, b@),
{
    if let Some(x) = parse_ver(a) {
        if let Some(y) = parse_ver(b) {
            return x.lies_below(&y);
        }
    }
    text::below(text::trim_front_char(a, 'v'), text::trim_front_char(b, 'v'))
}

/// How a version stands to the one that the constraint allows and the latest one.
pub open spec fn status_of(current: Seq<char>, wanted: Seq<char>, latest: Seq<char>) -> OutdatedKind {
    if tell_same(current, latest) {
        OutdatedKind::UpToDate
    } else if tells_lower(current, wanted) {
        OutdatedKind::SemverSafe
    } else if tells_lower(wanted, latest) || tells_lower(current, latest) {
        OutdatedKind::MajorOnly
    } else {
        OutdatedKind::UpToDate
    }
}

/// How a version stands to the one that the constraint allows and the latest one.
pub fn classify_status(current: &str, wanted: &str, latest: &str) -> (r: OutdatedKind)
    ensures
        r == status_of(current@, wanted@, latest@),
{
    if versions_equal(current, latest) {
        return OutdatedKind::UpToDate;
    }
    if version_less(current, wanted) {
        return OutdatedKind::SemverSafe;
    }
    if version_less(wanted, latest) || version_less(current, latest) {
        return OutdatedKind::MajorOnly;
    }
    OutdatedKind::UpToDate
}

proof fn lemma_same_is_equal(a: Seq<char>, b: Seq<char>)
    ensures
        tell_same(a, a),
        tell_same(a, b) == tell_same(b, a),
{
}

/// A package at its latest version is up to date, whatever its constraint.
pub proof fn law_latest_is_up_to_date(version: Seq<char>, wanted: Seq<char>)
    ensures
        status_of(version, wanted, version) == OutdatedKind::UpToDate,
{
    lemma_same_is_equal(version, version);
}

// ---------------------------------------------------------------------------
// Rows

/// The later of two versions, the one that came first if neither is later.
pub open spec fn later(
    a: Option<version::VersionView>,
    b: version::VersionView,
) -> Option<version::VersionView> {
    match a {
        Some(x) => if version::version_lt(x, b) {
            Some(b)
        } else {
            Some(x)
        },
        None => Some(b),
    }
}

/// The latest stable version.
pub open spec fn latest_of(v: Seq<repo::RemoteView>) -> Option<version::VersionView>
    decreases v.len(),
{
    if v.len() == 0 {
        None
    } else {
        let rest = latest_of(v.drop_last());
        if v.last().version.stability is Stable {
            later(rest, v.last().version)
        } else {
            rest
        }
    }
}

/// The latest stable version that a constraint allows.
pub open spec fn wanted_of(v: Seq<repo::RemoteView>, constraint: Seq<char>) -> Option<
    version::VersionView,
>
    decreases v.len(),
{
    if v.len() == 0 {
        None
    } else {
        let rest = wanted_of(v.drop_last(), constraint);
        if v.last().version.stability is Stable && constraint::satisfies(
            constraint,
            v.last().version,
        ) {
            later(rest, v.last().version)
        } else {
            rest
        }
    }
}

/// The text of a version, or another one.
pub open spec fn raw_or(v: Option<version::VersionView>, other: Seq<char>) -> Seq<char> {
    match v {
        Some(x) => x.raw,
        None => other,
    }
}

/// The row of a package.
pub open spec fn row_of(
    p: lock::LockedView,
    versions: Seq<repo::RemoteView>,
    constraint: Option<Seq<char>>,
) -> RowView {
    let latest = raw_or(latest_of(versions), p.version);
    let wanted = match constraint {
        Some(c) => raw_or(wanted_of(versions, c), p.version),
        None => latest,
    };
    RowView {
        name: p.name,
        current: p.version,
        wanted,
        latest,
        status: status_of(p.version, wanted, latest),
        description: p.description,
    }
}

/// A version among those that are to be had, stable and allowed.
pub open spec fn offers(
    v: Seq<repo::RemoteView>,
    allowed: Option<Seq<char>>,
    x: version::VersionView,
) -> bool {
    exists|i: int|
        0 <= i < v.len() && (#[trigger] v[i]).version == x && x.stability == version::Stability::Stable
            && (allowed matches Some(c) ==> constraint::satisfies(c, x))
}

/// The highest of the versions that are stable and allowed, or nothing if there
/// is none.
pub open spec fn is_highest(
    v: Seq<repo::RemoteView>,
    allowed: Option<Seq<char>>,
    best: Option<version::VersionView>,
) -> bool {
    match best {
        Some(x) => offers(v, allowed, x) && forall|y: version::VersionView| #[trigger]
            offers(v, allowed, y) ==> !version::version_lt(x, y),
        None => forall|y: version::VersionView| !#[trigger] offers(v, allowed, y),
    }
}

proof fn lemma_offers_more(
    v: Seq<repo::RemoteView>,
    allowed: Option<Seq<char>>,
    y: version::VersionView,
)
    requires
        v.len() > 0,
    ensures
        offers(v, allowed, y) == (offers(v.drop_last(), allowed, y) || (v.last().version == y
            && y.stability is Stable && (allowed matches Some(c) ==> constraint::satisfies(c, y)))),
{
    let front = v.drop_last();
    if offers(v, allowed, y) {
        let i = choose|i: int|
            0 <= i < v.len() && (#[trigger] v[i]).version == y && y.stability
                == version::Stability::Stable && (allowed matches Some(c) ==> constraint::satisfies(c, y));
        if i < front.len() {
            assert(front[i] == v[i]);
        }
    }
    if offers(front, allowed, y) {
        let i = choose|i: int|
            0 <= i < front.len() && (#[trigger] front[i]).version == y && y.stability
                == version::Stability::Stable && (allowed matches Some(c) ==> constraint::satisfies(c, y));
        assert(v[i] == front[i]);
    }
    assert(v[v.len() - 1] == v.last());
}

proof fn lemma_highest_step(
    v: Seq<repo::RemoteView>,
    allowed: Option<Seq<char>>,
    rest: Option<version::VersionView>,
)
    requires
        v.len() > 0,
        is_highest(v.drop_last(), allowed, rest),
    ensures
        v.last().version.stability is Stable && (allowed matches Some(c) ==> constraint::satisfies(c, v.last().version)) ==> is_highest(
            v,
            allowed,
            later(rest, v.last().version),
        ),
        !(v.last().version.stability is Stable && (allowed matches Some(c) ==> constraint::satisfies(c, v.last().version))) ==> is_highest(
            v,
            allowed,
            rest,
        ),
{
    let last = v.last().version;
    assert forall|y: version::VersionView| #[trigger] offers(v, allowed, y) == (offers(
        v.drop_last(),
        allowed,
        y,
    ) || (last == y && y.stability is Stable && (allowed matches Some(c) ==> constraint::satisfies(c, y)))) by {
        lemma_offers_more(v, allowed, y);
    }
    if last.stability is Stable && (allowed matches Some(c) ==> constraint::satisfies(c, last)) {
        let best = later(rest, last)->0;
        assert forall|y: version::VersionView| #[trigger] offers(v, allowed, y) implies
            !version::version_lt(best, y) by {
            version::law_version_order_total(last, last);
            if let Some(x) = rest {
                if offers(v.drop_last(), allowed, y) && version::version_lt(x, last)
                    && version::version_lt(last, y) {
                    version::law_version_order_transitive(x, last, y);
                }
            }
        }
    }
}

proof fn lemma_latest_is_highest(v: Seq<repo::RemoteView>)
    ensures
        is_highest(v, None, latest_of(v)),
    decreases v.len(),
{
    if v.len() > 0 {
        lemma_latest_is_highest(v.drop_last());
        lemma_highest_step(v, None, latest_of(v.drop_last()));
    }
}

proof fn lemma_wanted_is_highest(v: Seq<repo::RemoteView>, c: Seq<char>)
    ensures
        is_highest(v, Some(c), wanted_of(v, c)),
    decreases v.len(),
{
    if v.len() > 0 {
        lemma_wanted_is_highest(v.drop_last(), c);
        lemma_highest_step(
            v,
            Some(c),
            wanted_of(v.drop_last(), c),
        );
    }
}

/// A row shows the package and its version as they are locked. As the latest
/// version it shows the highest stable one that is to be had, in whatever order
/// they come, and as the wanted version the highest stable one that the
/// constraint allows, or the latest one if there is no constraint. If there is
/// none, it shows the version that is locked.
pub proof fn law_row_shows_highest_versions(
    p: lock::LockedView,
    versions: Seq<repo::RemoteView>,
    constraint: Option<Seq<char>>,
)
    ensures
        ({
            let row = row_of(p, versions, constraint);
            &&& row.name == p.name
            &&& row.current == p.version
            &&& exists|best: Option<version::VersionView>| #[trigger]
                is_highest(versions, None, best) && row.latest == (
                match best {
                    Some(x) => x.raw,
                    None => p.version,
                })
            &&& match constraint {
                None => row.wanted == row.latest,
                Some(c) => exists|best: Option<version::VersionView>| #[trigger]
                    is_highest(
                        versions,
                        Some(c),
                        best,
                    ) && row.wanted == (match best {
                        Some(x) => x.raw,
                        None => p.version,
                    }),
            }
        }),
{
    lemma_latest_is_highest(versions);
    assert(is_highest(versions, None, latest_of(versions)));
    if let Some(c) = constraint {
        lemma_wanted_is_highest(versions, c);
        assert(is_highest(
            versions,
            Some(c),
            wanted_of(versions, c),
        ));
    }
}

/// The status of releases that rise from the locked one over the wanted one to
/// the latest one: a package at its latest release is up to date, one below the
/// wanted release can be updated, and one at the wanted release has a newer one
/// that its constraint does not allow. A leading `v` changes nothing.
pub proof fn law_status_of_releases(
    current: Seq<char>,
    wanted: Seq<char>,
    latest: Seq<char>,
    a: (u64, u64, u64),
    b: (u64, u64, u64),
    c: (u64, u64, u64),
)
    requires
        shows_release(current, a),
        shows_release(wanted, b),
        shows_release(latest, c),
        a == b || releases::comes_before(whole(a), whole(b)),
        b == c || releases::comes_before(whole(b), whole(c)),
    ensures
        status_of(current, wanted, latest) == if a == c {
            OutdatedKind::UpToDate
        } else if a != b {
            OutdatedKind::SemverSafe
        } else {
            OutdatedKind::MajorOnly
        },
        status_of("v"@ + current, wanted, latest) == status_of(current, wanted, latest),
{
    lemma_told_release(current, a);
    lemma_told_release(wanted, b);
    lemma_told_release(latest, c);
}

pub open spec fn whole(p: (u64, u64, u64)) -> (int, int, int) {
    (p.0 as int, p.1 as int, p.2 as int)
}

/// A text of three numbers with dots between them.
pub open spec fn shows_release(s: Seq<char>, p: (u64, u64, u64)) -> bool {
    s == text::decimal(p.0 as nat) + "."@ + text::decimal(p.1 as nat) + "."@ + text::decimal(
        p.2 as nat,
    )
}

proof fn lemma_told_release(s: Seq<char>, p: (u64, u64, u64))
    requires
        shows_release(s, p),
    ensures
        told_version(s) matches Some(v) && releases::is_release(v, p.0, p.1, p.2) && v.normalized
            == s,
        told_version("v"@ + s) == told_version(s),
{
    reveal_strlit("v");
    text::lemma_decimal(0);
    assert(text::is_digit(text::decimal(0)[0]));
    assert(releases::is_numeric(text::decimal(0)));
    releases::law_numbers_are_read(p.0, p.1, p.2, text::decimal(0));
    releases::lemma_release_text(p.0, p.1, p.2);
    let w = "v"@ + s;
    assert(w.last() == s.last());
    text::lemma_trimmed_same(w);
    text::lemma_trimmed_same(s);
    assert(w.skip(1) =~= s);
    assert(text::without_front(s, 'v') == s);
    assert(text::without_front(w, 'v') == text::without_front(w.skip(1), 'v'));
}

/// A later version than the one at `best`, if there is one.
fn is_later(versions: &Vec<RemotePackageVersion>, best: Option<usize>, i: usize) -> (r: bool)
    requires
        i < versions@.len(),
        best matches Some(b) ==> b < versions@.len(),
    ensures
        r == (best matches Some(b) ==> version::version_lt(
            versions@[b as int]@.version,
            versions@[i as int]@.version,
        )),
{
    match best {
        Some(b) => versions[b].version.lies_below(&versions[i].version),
        None => true,
    }
}

/// The version at a position.
pub open spec fn version_at(v: Seq<repo::RemoteView>, i: Option<usize>) -> Option<
    version::VersionView,
> {
    match i {
        Some(k) => Some(v[k as int].version),
        None => None,
    }
}

/// The row of a package, by the versions that are to be had and the constraint of
/// the project.
pub fn compute_row(
    pkg: &LockedPackage,
    versions: &Vec<RemotePackageVersion>,
    root_constraint: Option<&str>,
) -> (r: OutdatedRow)
    ensures
        r@ == row_of(pkg@, repo::remote_views(versions@), text::opt_view(root_constraint)),
{
    let ghost all = repo::remote_views(versions@);
    let constraint: Option<VersionConstraint> = match root_constraint {
        Some(c) => Some(VersionConstraint::new(c)),
        None => None,
    };
    let n: usize = versions.len();
    let mut latest: Option<usize> = None;
    let mut wanted: Option<usize> = None;
    let mut i: usize = 0;
    while i < n
        invariant
            i <= n,
            n == versions@.len(),
            all == repo::remote_views(versions@),
            latest matches Some(b) ==> b < n,
            wanted matches Some(b) ==> b < n,
            (constraint is Some) == (root_constraint is Some),
            constraint matches Some(c) ==> c@ == root_constraint->0@,
            version_at(all, latest) == latest_of(all.take(i as int)),
            root_constraint matches Some(c) ==> version_at(all, wanted) == wanted_of(
                all.take(i as int),
                c@,
            ),
            root_constraint is None ==> wanted is None,
        decreases n - i,
    {
        proof {
            assert(all.take(i + 1).drop_last() =~= all.take(i as int));
            assert(all.take(i + 1).last() == versions@[i as int]@);
            assert(all[i as int] == versions@[i as int]@);
            if latest is Some {
                assert(all[latest->0 as int] == versions@[latest->0 as int]@);
            }
            if wanted is Some {
                assert(all[wanted->0 as int] == versions@[wanted->0 as int]@);
            }
        }
        if versions[i].version.is_stable() {
            if is_later(versions, latest, i) {
                latest = Some(i);
            }
            if let Some(c) = &constraint {
                if c.matches(&versions[i].version) && is_later(versions, wanted, i) {
                    wanted = Some(i);
                }
            }
        }
        i += 1;
    }
    assert(all.take(n as int) =~= all);
    if constraint.is_none() {
        wanted = latest;
    }
    let latest_text = match latest {
        Some(b) => {
            assert(all[b as int] == versions@[b as int]@);
            String::from_str(versions[b].version.as_str())
        },
        None => String::from_str(pkg.version.as_str()),
    };
    let wanted_text = match wanted {
        Some(b) => {
            assert(all[b as int] == versions@[b as int]@);
            String::from_str(versions[b].version.as_str())
        },
        None => String::from_str(pkg.version.as_str()),
    };
    let status = classify_status(
        pkg.version.as_str(),
        wanted_text.as_str(),
        latest_text.as_str(),
    );
    OutdatedRow {
        name: String::from_str(pkg.name.as_str()),
        current: String::from_str(pkg.version.as_str()),
        wanted: wanted_text,
        latest: latest_text,
        status,
        description: lock::copy_text(&pkg.description),
    }
}

/// A package that is not outdated, or outdated in the way that is asked for.
pub open spec fn passes(status: OutdatedKind, major_only: bool, minor_only: bool) -> bool {
    status == OutdatedKind::UpToDate || major_only == minor_only || (if major_only {
        status == OutdatedKind::MajorOnly
    } else {
        status == OutdatedKind::SemverSafe
    })
}

/// A row that is shown.
pub open spec fn is_shown(status: OutdatedKind, all: bool, major_only: bool, minor_only: bool) -> bool {
    passes(status, major_only, minor_only) && (status == OutdatedKind::UpToDate ==> all
        && !major_only && !minor_only)
}

impl OutdatedRow {
    /// Whether there is a newer version.
    pub fn is_outdated(&self) -> (r: bool)
        ensures
            r == (self@.status != OutdatedKind::UpToDate),
    {
        self.status.is_outdated()
    }

    /// Whether the row is outdated in the way that is asked for, or not at all.
    pub fn matches_filter(&self, major_only: bool, minor_only: bool) -> (r: bool)
        ensures
            r == passes(self@.status, major_only, minor_only),
    {
        if !self.is_outdated() || major_only == minor_only {
            return true;
        }
        if major_only {
            self.status == OutdatedKind::MajorOnly
        } else {
            self.status == OutdatedKind::SemverSafe
        }
    }

    /// Whether the row is shown.
    pub fn is_listed(&self, args: &OutdatedArgs) -> (r: bool)
        ensures
            r == is_shown(self@.status, args.all, args.major_only, args.minor_only),
    {
        if !self.matches_filter(args.major_only, args.minor_only) {
            return false;
        }
        if !self.is_outdated() && (!args.all || args.major_only || args.minor_only) {
            return false;
        }
        true
    }

    /// The row as a JSON value.
    pub fn to_json(&self) -> (r: Json)
        ensures
            r@ == json::JsonView::Object(row_members(self@)),
    {
        let mut m: Vec<(String, Json)> = Vec::new();
        m.push((String::from_str("name"), Json::Str(String::from_str(self.name.as_str()))));
        m.push((String::from_str("current"), Json::Str(String::from_str(self.current.as_str()))));
        m.push((String::from_str("wanted"), Json::Str(String::from_str(self.wanted.as_str()))));
        m.push((String::from_str("latest"), Json::Str(String::from_str(self.latest.as_str()))));
        m.push((String::from_str("status"), Json::Str(String::from_str(self.status.name()))));
        if let Some(d) = &self.description {
            m.push((String::from_str("description"), Json::Str(String::from_str(d.as_str()))));
        }
        proof {
            json::lemma_object_view(m);
            assert(json::members(m@) =~= row_members(self@));
        }
        Json::Object(m)
    }
}

/// The members of a row.
pub open spec fn row_members(r: RowView) -> Seq<(Seq<char>, json::JsonView)> {
    let head = seq![
        ("name"@, json::JsonView::Str(r.name)),
        ("current"@, json::JsonView::Str(r.current)),
        ("wanted"@, json::JsonView::Str(r.wanted)),
        ("latest"@, json::JsonView::Str(r.latest)),
        ("status"@, json::JsonView::Str(kind_name(r.status))),
    ];
    match r.description {
        Some(d) => head.push(("description"@, json::JsonView::Str(d))),
        None => head,
    }
}

/// The constraint of the project on a package.
pub open spec fn root_constraint_of(
    require: Seq<(Seq<char>, Seq<char>)>,
    require_dev: Seq<(Seq<char>, Seq<char>)>,
    name: Seq<char>,
) -> Option<Seq<char>> {
    match crate::collections::lookup(require, name) {
        Some(c) => Some(c),
        None => crate::collections::lookup(require_dev, name),
    }
}

/// The constraint of the project on a package.
pub fn root_constraint<'a>(manifest: &'a ComposerJson, name: &str) -> (r: Option<
    &'a str,
>)
    ensures
        text::opt_view(r) == root_constraint_of(
            manifest@.require,
            manifest@.require_dev,
            name@,
        ),
{
    proof {
        crate::collections::lemma_link_lookup(manifest.require, name@);
        crate::collections::lemma_link_lookup(manifest.require_dev, name@);
    }
    match manifest.require.get(name) {
        Some(c) => Some(c.as_str()),
        None => match manifest.require_dev.get(name) {
            Some(c) => Some(c.as_str()),
            None => None,
        },
    }
}

/// What is wrong when outdated packages are an error.
pub open spec fn strict_fault(strict: bool, failures: nat, checked: nat, outdated: nat) -> Option<
    Seq<char>,
> {
    if strict && failures > 0 {
        Some(
            text::decimal(failures) + " package(s) could not be checked (--strict); checked "@
                + text::decimal(checked),
        )
    } else if strict && outdated > 0 {
        Some(text::decimal(outdated) + " outdated package(s) (--strict)"@)
    } else {
        None
    }
}

/// The number of outdated rows.
pub open spec fn count_outdated(rows: Seq<OutdatedRow>) -> nat
    decreases rows.len(),
{
    if rows.len() == 0 {
        0
    } else {
        count_outdated(rows.drop_last()) + if rows.last()@.status != OutdatedKind::UpToDate {
            1nat
        } else {
            0
        }
    }
}

/// Whether the outdated packages are an error.
pub fn outdated_outcome(
    rows: &Vec<OutdatedRow>,
    strict: bool,
    fetch_failures: usize,
    checked: usize,
) -> (r: Result<(), Error>)
    ensures
        match strict_fault(strict, fetch_failures as nat, checked as nat, count_outdated(rows@)) {
            None => r is Ok,
            Some(m) => r matches Err(Error::Other(t)) && t@ == m,
        },
{
    let n: usize = rows.len();
    let mut i: usize = 0;
    let mut outdated: usize = 0;
    while i < n
        invariant
            i <= n,
            n == rows@.len(),
            outdated <= i,
            outdated == count_outdated(rows@.take(i as int)),
        decreases n - i,
    {
        proof {
            assert(rows@.take(i + 1).drop_last() =~= rows@.take(i as int));
            assert(rows@.take(i + 1).last() == rows@[i as int]);
        }
        if rows[i].is_outdated() {
            outdated += 1;
        }
        i += 1;
    }
    assert(rows@.take(n as int) =~= rows@);
    if strict && fetch_failures > 0 {
        return Err(
            Error::Other(
                text::cat3(
                    text::usize_text(fetch_failures).as_str(),
                    " package(s) could not be checked (--strict); checked ",
                    text::usize_text(checked).as_str(),
                ),
            ),
        );
    }
    if strict && outdated > 0 {
        return Err(
            Error::Other(
                text::cat(
                    text::usize_text(outdated).as_str(),
                    " outdated package(s) (--strict)",
                ),
            ),
        );
    }
    Ok(())
}

// ---------------------------------------------------------------------------
// All packages

/// The packages that are looked at: all locked ones, or those that the project
/// itself requires.
pub open spec fn looked_at(
    v: Seq<lock::LockedView>,
    direct: bool,
    roots: Set<Seq<char>>,
) -> Seq<lock::LockedView>
    decreases v.len(),
{
    if v.len() == 0 {
        Seq::empty()
    } else {
        let rest = looked_at(v.drop_last(), direct, roots);
        if direct && !roots.contains(v.last().name) {
            rest
        } else {
            rest.push(v.last())
        }
    }
}

/// The packages that are looked at.
pub fn packages_to_check<'a>(
    args: &OutdatedArgs,
    manifest: &ComposerJson,
    lock: &'a ComposerLock,
) -> (r: Vec<&'a LockedPackage>)
    ensures
        lock::ref_views(r@) == looked_at(
            lock::to_install(lock@, !args.no_dev),
            args.direct,
            resolve::root_names(manifest@, !args.no_dev),
        ),
{
    let with_dev = !args.no_dev;
    let roots = resolve::root_requirement_names(manifest, with_dev);
    let packages = lock.packages_to_install(with_dev);
    let ghost all = lock::ref_views(packages@);
    let mut out: Vec<&'a LockedPackage> = Vec::new();
    let n: usize = packages.len();
    let mut i: usize = 0;
    assert(lock::ref_views(out@) =~= Seq::empty());
    while i < n
        invariant
            i <= n,
            n == packages@.len(),
            all == lock::ref_views(packages@),
            lock::ref_views(out@) == looked_at(all.take(i as int), args.direct, roots@),
        decreases n - i,
    {
        let p = packages[i];
        proof {
            assert(all.take(i + 1).drop_last() =~= all.take(i as int));
            assert(all.take(i + 1).last() == p@);
        }
        if !args.direct || roots.contains(p.name.as_str()) {
            let ghost before = lock::ref_views(out@);
            out.push(p);
            assert(lock::ref_views(out@) =~= before.push(p@));
        }
        i += 1;
    }
    assert(all.take(n as int) =~= all);
    out
}

/// The line of a table.
pub open spec fn table_line(
    mark: Seq<char>,
    name: Seq<char>,
    current: Seq<char>,
    wanted: Seq<char>,
    latest: Seq<char>,
) -> Seq<char> {
    text::padded(mark, 3) + " "@ + text::padded(name, 40) + " "@ + text::padded(current, 16) + " "@
        + text::padded(wanted, 16) + " "@ + text::padded(latest, 16)
}

/// The line of a table.
pub fn table_row(mark: &str, name: &str, current: &str, wanted: &str, latest: &str) -> (r: String)
    ensures
        r@ == table_line(mark@, name@, current@, wanted@, latest@),
{
    let mut out = text::pad(mark, 3);
    out.append(" ");
    out.append(text::pad(name, 40).as_str());
    out.append(" ");
    out.append(text::pad(current, 16).as_str());
    out.append(" ");
    out.append(text::pad(wanted, 16).as_str());
    out.append(" ");
    out.append(text::pad(latest, 16).as_str());
    assert(out@ =~= table_line(mark@, name@, current@, wanted@, latest@));
    out
}

/// The mark of a kind, as a text.
pub open spec fn mark_of(k: OutdatedKind) -> Seq<char> {
    match k {
        OutdatedKind::UpToDate => seq!['='],
        OutdatedKind::SemverSafe => seq!['!'],
        OutdatedKind::MajorOnly => seq!['~'],
    }
}

/// The lines on rows: a table and what its marks mean, or that there is nothing
/// to say, or that not all could be told.
pub open spec fn rows_said(rows: Seq<RowView>, failures: nat) -> Seq<(Tone, Seq<char>)> {
    if rows.len() == 0 {
        if failures == 0 {
            seq![(Tone::Info, "All packages are up to date"@)]
        } else {
            seq![(
                Tone::Warning,
                "Could not verify every package; not treating the lock as up to date"@,
            )]
        }
    } else {
        seq![(
            Tone::Plain,
            table_line(""@, "Package"@, "Current"@, "Wanted"@, "Latest"@),
        )] + rows.map_values(
            |r: RowView|
                (
                    Tone::Plain,
                    table_line(mark_of(r.status), r.name, r.current, r.wanted, r.latest),
                ),
        ) + seq![(
            Tone::Info,
            "! = semver-safe update available; ~ = major update available; = = up to date"@,
        )]
    }
}

/// What rows consist of.
pub open spec fn row_views(v: Seq<OutdatedRow>) -> Seq<RowView> {
    v.map_values(|r: OutdatedRow| r@)
}

/// The lines on rows.
pub fn describe_rows(rows: &Vec<OutdatedRow>, fetch_failures: usize) -> (r: Vec<Message>)
    ensures
        commands::said(r@) == rows_said(row_views(rows@), fetch_failures as nat),
{
    let mut out: Vec<Message> = Vec::new();
    assert(commands::said(out@) =~= Seq::empty());
    let n: usize = rows.len();
    if n == 0 {
        if fetch_failures == 0 {
            commands::say(&mut out, Tone::Info, String::from_str("All packages are up to date"));
        } else {
            commands::say(
                &mut out,
                Tone::Warning,
                String::from_str(
                    "Could not verify every package; not treating the lock as up to date",
                ),
            );
        }
        assert(commands::said(out@) =~= rows_said(row_views(rows@), fetch_failures as nat));
        return out;
    }
    commands::say(
        &mut out,
        Tone::Plain,
        table_row("", "Package", "Current", "Wanted", "Latest"),
    );
    let ghost head = commands::said(out@);
    let ghost lines = row_views(rows@).map_values(
        |r: RowView|
            (
                Tone::Plain,
                table_line(mark_of(r.status), r.name, r.current, r.wanted, r.latest),
            ),
    );
    let mut i: usize = 0;
    assert(head + lines.take(0) =~= head);
    while i < n
        invariant
            i <= n,
            n == rows@.len(),
            lines == row_views(rows@).map_values(
                |r: RowView|
                    (
                        Tone::Plain,
                        table_line(mark_of(r.status), r.name, r.current, r.wanted, r.latest),
                    ),
            ),
            commands::said(out@) == head + lines.take(i as int),
        decreases n - i,
    {
        let row = &rows[i];
        let mut mark = String::new();
        mark.push(row.status.marker());
        assert(mark@ =~= mark_of(row@.status));
        let line = table_row(
            mark.as_str(),
            row.name.as_str(),
            row.current.as_str(),
            row.wanted.as_str(),
            row.latest.as_str(),
        );
        assert(lines[i as int] == (Tone::Plain, line@));
        commands::say(&mut out, Tone::Plain, line);
        assert(commands::said(out@) =~= head + lines.take(i + 1));
        i += 1;
    }
    commands::say(
        &mut out,
        Tone::Info,
        String::from_str(
            "! = semver-safe update available; ~ = major update available; = = up to date",
        ),
    );
    assert(commands::said(out@) =~= rows_said(row_views(rows@), fetch_failures as nat));
    out
}

/// Which rows are shown: outdated ones always, unless only the other kind is
/// wanted; up-to-date ones only if all are wanted and no kind.
pub proof fn law_which_rows_are_shown(all: bool)
    ensures
        is_shown(OutdatedKind::SemverSafe, all, false, false),
        is_shown(OutdatedKind::MajorOnly, all, false, false),
        is_shown(OutdatedKind::UpToDate, all, false, false) == all,
        is_shown(OutdatedKind::MajorOnly, all, true, false),
        !is_shown(OutdatedKind::SemverSafe, all, true, false),
        is_shown(OutdatedKind::SemverSafe, all, false, true),
        !is_shown(OutdatedKind::MajorOnly, all, false, true),
        !is_shown(OutdatedKind::UpToDate, all, true, false),
        !is_shown(OutdatedKind::UpToDate, all, false, true),
{
}

/// A strict run fails if and only if something is outdated or could not be
/// checked; another run never does.
pub proof fn law_strict_runs(strict: bool, failures: nat, checked: nat, outdated: nat)
    ensures
        strict_fault(strict, failures, checked, outdated) is Some <==> strict && (failures > 0
            || outdated > 0),
{
}

} // verus!
