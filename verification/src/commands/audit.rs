//! Security advisories on locked packages.

use crate::collections;
use crate::collections::StrMap;
use crate::constraint;
use crate::constraint::VersionConstraint;
use crate::error::Error;
use crate::fields;
use crate::json;
use crate::json::Json;
use crate::lock;
use crate::lock::LockedPackage;
use crate::text;
use crate::version;
use crate::version::ComposerVersion;
use vstd::prelude::*;

verus! {

/// What is asked of an audit.
#[derive(Debug, Clone)]
pub struct AuditArgs {
    pub format: String,
    pub no_dev: bool,
}

/// The number of packages that are asked for at a time.
pub const PACKAGES_AT_A_TIME: usize = 50;

// ---------------------------------------------------------------------------
// Affected versions

/// One of the alternatives of an advisory allows a version.
pub open spec fn alternative_allows(part: Seq<char>, v: version::VersionView) -> bool {
    let p = text::trimmed(part);
    p.len() > 0 && constraint::satisfies(text::swapped(p, ',', ' '), v)
}

/// An advisory concerns a version: all of them, one that an alternative allows,
/// or one whose text stands in it.
pub open spec fn affects(affected: Seq<char>, v: version::VersionView) -> bool {
    ||| text::trimmed(affected) == "*"@
    ||| affected.len() == 0
    ||| exists|i: int|
        0 <= i < text::pieces(affected, "||"@).len() && alternative_allows(
            #[trigger] text::pieces(affected, "||"@)[i],
            v,
        )
    ||| text::occurs(affected, v.raw)
}

/// Whether an advisory concerns a version.
pub fn version_in_affected(ver: &ComposerVersion, affected: &str) -> (r: bool)
    ensures
        r == affects(affected@, ver@),
{
    if text::same(text::trim(affected), "*") || affected.unicode_len() == 0 {
        return true;
    }
    proof {
        reveal_strlit("||");
    }
    let parts = text::split(affected, "||");
    let ghost all = text::views(parts@);
    let n: usize = parts.len();
    let mut i: usize = 0;
    while i < n
        invariant
            i <= n,
            n == parts@.len(),
            all == text::views(parts@),
            all == text::pieces(affected@, "||"@),
            forall|j: int| 0 <= j < i ==> !alternative_allows(#[trigger] all[j], ver@),
        decreases n - i,
    {
        assert(all[i as int] == parts@[i as int]@);
        let part = text::trim(parts[i]);
        if part.unicode_len() > 0 {
            let c = text::replace_char(part, ',', ' ');
            if VersionConstraint::new(c.as_str()).matches(ver) {
                assert(alternative_allows(all[i as int], ver@));
                return true;
            }
        }
        i += 1;
    }
    text::contains(affected, ver.as_str())
}

// ---------------------------------------------------------------------------
// Advisories

/// A security advisory.
#[derive(Debug)]
pub struct Advisory {
    pub advisory_id: Option<String>,
    pub title: Option<String>,
    pub severity: Option<String>,
    pub cve: Option<Vec<String>>,
    pub affected_versions: Option<String>,
    pub link: Option<String>,
}

/// What an advisory consists of.
pub struct AdvisoryView {
    pub advisory_id: Option<Seq<char>>,
    pub title: Option<Seq<char>>,
    pub severity: Option<Seq<char>>,
    pub cve: Option<Seq<Seq<char>>>,
    pub affected_versions: Option<Seq<char>>,
    pub link: Option<Seq<char>>,
}

/// The texts of an optional list.
pub open spec fn opt_texts(v: Option<Vec<String>>) -> Option<Seq<Seq<char>>> {
    match v {
        Some(x) => Some(text::texts(x@)),
        None => None,
    }
}

impl View for Advisory {
    type V = AdvisoryView;

    open spec fn view(&self) -> AdvisoryView {
        AdvisoryView {
            advisory_id: text::opt_text(self.advisory_id),
            title: text::opt_text(self.title),
            severity: text::opt_text(self.severity),
            cve: opt_texts(self.cve),
            affected_versions: text::opt_text(self.affected_versions),
            link: text::opt_text(self.link),
        }
    }
}

/// What a list of advisories consists of.
pub open spec fn advisory_views(v: Seq<Advisory>) -> Seq<AdvisoryView> {
    v.map_values(|a: Advisory| a@)
}

/// An optional list of texts.
pub open spec fn opt_text_list_of(v: Option<json::JsonView>) -> Option<Option<Seq<Seq<char>>>> {
    match v {
        None => Some(None),
        Some(json::JsonView::Null) => Some(None),
        Some(json::JsonView::Array(a)) => match fields::texts_of(a) {
            Some(t) => Some(Some(t)),
            None => None,
        },
        _ => None,
    }
}

/// The members of an advisory.
pub open spec fn advisory_names() -> Seq<Seq<char>> {
    seq!["advisoryId"@, "title"@, "severity"@, "cve"@, "affectedVersions"@, "link"@]
}

/// The advisory that a JSON value tells.
pub open spec fn advisory_json(j: json::JsonView) -> Option<AdvisoryView> {
    match fields::whole_record_of(j, advisory_names()) {
        Some(r) => advisory_record(r),
        None => None,
    }
}

/// The advisory that the members of a record tell.
pub open spec fn advisory_record(j: json::JsonView) -> Option<AdvisoryView> {
    let id = fields::opt_text_of(json::get_of(j, "advisoryId"@));
    let title = fields::opt_text_of(json::get_of(j, "title"@));
    let severity = fields::opt_text_of(json::get_of(j, "severity"@));
    let cve = opt_text_list_of(json::get_of(j, "cve"@));
    let affected = fields::opt_text_of(json::get_of(j, "affectedVersions"@));
    let link = fields::opt_text_of(json::get_of(j, "link"@));
    if id is Some && title is Some && severity is Some && cve is Some
        && affected is Some && link is Some {
        Some(
            AdvisoryView {
                advisory_id: id->0,
                title: title->0,
                severity: severity->0,
                cve: cve->0,
                affected_versions: affected->0,
                link: link->0,
            },
        )
    } else {
        None
    }
}

fn read_opt_texts(j: &Json, k: &str) -> (r: Option<Option<Vec<String>>>)
    ensures
        match r {
            Some(v) => opt_text_list_of(json::get_of(j@, k@)) == Some(opt_texts(v)),
            None => opt_text_list_of(json::get_of(j@, k@)) is None,
        },
{
    match j.get(k) {
        None => Some(None),
        Some(Json::Null) => Some(None),
        Some(Json::Array(a)) => {
            proof {
                json::lemma_array_view(*a);
            }
            match fields::list_texts(a) {
                Some(v) => Some(Some(v)),
                None => None,
            }
        },
        _ => None,
    }
}

impl Advisory {
    /// The advisory that a JSON value tells.
    pub fn from_json(j: &Json) -> (r: Option<Advisory>)
        ensures
            match r {
                Some(a) => advisory_json(j@) == Some(a@),
                None => advisory_json(j@) is None,
            },
    {
        let mut names: Vec<&str> = Vec::new();
        names.push("advisoryId");
        names.push("title");
        names.push("severity");
        names.push("cve");
        names.push("affectedVersions");
        names.push("link");
        assert(text::views(names@) =~= advisory_names());
        if j.is_array() {
            let record = fields::whole_list_record(j, &names)?;
            Advisory::from_record(&record)
        } else if fields::is_object_of(j, &names) {
            Advisory::from_record(j)
        } else {
            None
        }
    }

    fn from_record(j: &Json) -> (r: Option<Advisory>)
        ensures
            match r {
                Some(a) => advisory_record(j@) == Some(a@),
                None => advisory_record(j@) is None,
            },
    {
        let advisory_id = fields::read_opt_text(j, "advisoryId")?;
        let title = fields::read_opt_text(j, "title")?;
        let severity = fields::read_opt_text(j, "severity")?;
        let cve = read_opt_texts(j, "cve")?;
        let affected_versions = fields::read_opt_text(j, "affectedVersions")?;
        let link = fields::read_opt_text(j, "link")?;
        Some(Advisory { advisory_id, title, severity, cve, affected_versions, link })
    }
}

/// The advisories of a list whose elements all are advisories.
pub open spec fn advisories_of(a: Seq<json::JsonView>) -> Option<Seq<AdvisoryView>>
    decreases a.len(),
{
    if a.len() == 0 {
        Some(Seq::empty())
    } else {
        match (advisories_of(a.drop_last()), advisory_json(a.last())) {
            (Some(rest), Some(x)) => Some(rest.push(x)),
            _ => None,
        }
    }
}

/// Advisories by the names of the packages.
pub type AdvisoryMap = Seq<(Seq<char>, Seq<AdvisoryView>)>;

/// The advisories of an object whose members all are lists of advisories.
pub open spec fn advisory_members(m: Seq<(Seq<char>, json::JsonView)>) -> Option<AdvisoryMap>
    decreases m.len(),
{
    if m.len() == 0 {
        Some(Seq::empty())
    } else {
        match (advisory_members(m.drop_last()), m.last().1) {
            (Some(rest), json::JsonView::Array(a)) => match advisories_of(a) {
                Some(v) => Some(collections::inserted(rest, m.last().0, v)),
                None => None,
            },
            _ => None,
        }
    }
}

/// The advisories that an answer tells.
pub open spec fn advisories_in(j: json::JsonView) -> Option<AdvisoryMap> {
    match fields::record_of(j, seq!["advisories"@]) {
        Some(r) => advisories_record(r),
        None => None,
    }
}

/// The advisories that the members of an answer hold.
pub open spec fn advisories_record(j: json::JsonView) -> Option<AdvisoryMap> {
    match json::get_of(j, "advisories"@) {
        None => Some(Seq::empty()),
        Some(json::JsonView::Object(m)) => advisory_members(m),
        _ => None,
    }
}

/// What a map of advisories consists of.
pub open spec fn advisory_map(m: StrMap<Vec<Advisory>>) -> AdvisoryMap {
    collections::with_values(m@, |v: Vec<Advisory>| advisory_views(v@))
}

proof fn lemma_list_fails(a: Seq<json::JsonView>, i: int)
    requires
        0 <= i <= a.len(),
        advisories_of(a.take(i)) is None,
    ensures
        advisories_of(a) is None,
    decreases a.len() - i,
{
    if i < a.len() {
        assert(a.take(i + 1).drop_last() =~= a.take(i));
        lemma_list_fails(a, i + 1);
    } else {
        assert(a.take(i) =~= a);
    }
}

proof fn lemma_members_fail(m: Seq<(Seq<char>, json::JsonView)>, i: int)
    requires
        0 <= i <= m.len(),
        advisory_members(m.take(i)) is None,
    ensures
        advisory_members(m) is None,
    decreases m.len() - i,
{
    if i < m.len() {
        assert(m.take(i + 1).drop_last() =~= m.take(i));
        lemma_members_fail(m, i + 1);
    } else {
        assert(m.take(i) =~= m);
    }
}

fn advisory_list(a: &Vec<Json>) -> (r: Option<Vec<Advisory>>)
    ensures
        match r {
            Some(v) => advisories_of(json::elements(a@)) == Some(advisory_views(v@)),
            None => advisories_of(json::elements(a@)) is None,
        },
{
    let ghost all = json::elements(a@);
    let mut out: Vec<Advisory> = Vec::new();
    let n: usize = a.len();
    let mut i: usize = 0;
    assert(advisory_views(out@) =~= Seq::empty());
    while i < n
        invariant
            i <= n,
            n == a@.len(),
            all == json::elements(a@),
            advisories_of(all.take(i as int)) == Some(advisory_views(out@)),
        decreases n - i,
    {
        proof {
            assert(all.take(i + 1).drop_last() =~= all.take(i as int));
            assert(all.take(i + 1).last() == a@[i as int]@);
        }
        match Advisory::from_json(&a[i]) {
            Some(x) => {
                let ghost before = advisory_views(out@);
                out.push(x);
                assert(advisory_views(out@) =~= before.push(x@));
            },
            None => {
                proof {
                    lemma_list_fails(all, i + 1);
                }
                return None;
            },
        }
        i += 1;
    }
    assert(all.take(n as int) =~= all);
    Some(out)
}

fn advisory_entries(m: &Vec<(String, Json)>) -> (r: Option<StrMap<Vec<Advisory>>>)
    ensures
        match r {
            Some(v) => advisory_members(json::members(m@)) == Some(advisory_map(v)),
            None => advisory_members(json::members(m@)) is None,
        },
{
    let ghost all = json::members(m@);
    let mut out: StrMap<Vec<Advisory>> = StrMap::new();
    let n: usize = m.len();
    let mut i: usize = 0;
    assert(advisory_map(out) =~= Seq::empty());
    while i < n
        invariant
            i <= n,
            n == m@.len(),
            all == json::members(m@),
            advisory_members(all.take(i as int)) == Some(advisory_map(out)),
        decreases n - i,
    {
        proof {
            assert(all.take(i + 1).drop_last() =~= all.take(i as int));
            assert(all.take(i + 1).last() == (m@[i as int].0@, m@[i as int].1@));
        }
        let list = match &m[i].1 {
            Json::Array(a) => {
                proof {
                    json::lemma_array_view(*a);
                }
                advisory_list(a)
            },
            _ => None,
        };
        match list {
            Some(v) => {
                proof {
                    collections::lemma_with_values(
                        out@,
                        m@[i as int].0@,
                        v,
                        |v: Vec<Advisory>| advisory_views(v@),
                    );
                }
                out.insert(String::from_str(m[i].0.as_str()), v);
            },
            None => {
                proof {
                    lemma_members_fail(all, i + 1);
                }
                return None;
            },
        }
        i += 1;
    }
    assert(all.take(n as int) =~= all);
    Some(out)
}

/// The advisories that an answer tells.
pub fn parse_advisories(j: &Json) -> (r: Option<StrMap<Vec<Advisory>>>)
    ensures
        match r {
            Some(m) => advisories_in(j@) == Some(advisory_map(m)),
            None => advisories_in(j@) is None,
        },
{
    let mut names: Vec<&str> = Vec::new();
    names.push("advisories");
    assert(text::views(names@) =~= seq!["advisories"@]);
    if j.is_array() {
        let record = fields::list_record(j, &names)?;
        record_advisories(&record)
    } else if fields::is_object_of(j, &names) {
        record_advisories(j)
    } else {
        None
    }
}

fn record_advisories(j: &Json) -> (r: Option<StrMap<Vec<Advisory>>>)
    ensures
        match r {
            Some(m) => advisories_record(j@) == Some(advisory_map(m)),
            None => advisories_record(j@) is None,
        },
{
    match j.get("advisories") {
        None => {
            let none: StrMap<Vec<Advisory>> = StrMap::new();
            assert(advisory_map(none) =~= Seq::empty());
            Some(none)
        },
        Some(Json::Object(m)) => {
            proof {
                json::lemma_object_view(*m);
            }
            advisory_entries(m)
        },
        _ => None,
    }
}

// ---------------------------------------------------------------------------
// Findings

/// An advisory that concerns a locked package.
#[derive(Debug, Clone)]
pub struct Finding {
    pub package: String,
    pub version: String,
    pub advisory: String,
    pub severity: String,
    pub cve: String,
    pub title: String,
    pub link: String,
}

/// What a finding consists of.
pub struct FindingView {
    pub package: Seq<char>,
    pub version: Seq<char>,
    pub advisory: Seq<char>,
    pub severity: Seq<char>,
    pub cve: Seq<char>,
    pub title: Seq<char>,
    pub link: Seq<char>,
}

impl View for Finding {
    type V = FindingView;

    open spec fn view(&self) -> FindingView {
        FindingView {
            package: self.package@,
            version: self.version@,
            advisory: self.advisory@,
            severity: self.severity@,
            cve: self.cve@,
            title: self.title@,
            link: self.link@,
        }
    }
}

/// What a list of findings consists of.
pub open spec fn finding_views(v: Seq<Finding>) -> Seq<FindingView> {
    v.map_values(|f: Finding| f@)
}

/// A text, or another one if there is none.
pub open spec fn or_text(t: Option<Seq<char>>, other: Seq<char>) -> Seq<char> {
    match t {
        Some(s) => s,
        None => other,
    }
}

/// The finding on a package.
pub open spec fn finding_of(p: lock::LockedView, a: AdvisoryView) -> FindingView {
    FindingView {
        package: p.name,
        version: p.version,
        advisory: or_text(a.advisory_id, ""@),
        severity: or_text(a.severity, "unknown"@),
        cve: match a.cve {
            Some(c) => text::joined(c, ", "@),
            None => ""@,
        },
        title: or_text(a.title, ""@),
        link: or_text(a.link, ""@),
    }
}

/// An advisory concerns a package. It does where the version of the package
/// cannot be told.
pub open spec fn concerns(p: lock::LockedView, a: AdvisoryView) -> bool {
    match version::parsed(p.version) {
        Some(v) => affects(or_text(a.affected_versions, "*"@), v),
        None => true,
    }
}

/// The findings on a package.
pub open spec fn package_findings(p: lock::LockedView, a: Seq<AdvisoryView>) -> Seq<FindingView>
    decreases a.len(),
{
    if a.len() == 0 {
        Seq::empty()
    } else {
        let rest = package_findings(p, a.drop_last());
        if concerns(p, a.last()) {
            rest.push(finding_of(p, a.last()))
        } else {
            rest
        }
    }
}

/// The findings on packages.
pub open spec fn findings_of(v: Seq<lock::LockedView>, m: AdvisoryMap) -> Seq<FindingView>
    decreases v.len(),
{
    if v.len() == 0 {
        Seq::empty()
    } else {
        findings_of(v.drop_last(), m) + match collections::lookup(m, v.last().name) {
            Some(a) => package_findings(v.last(), a),
            None => Seq::empty(),
        }
    }
}

fn text_or(t: &Option<String>, other: &str) -> (r: String)
    ensures
        r@ == or_text(text::opt_text(*t), other@),
{
    match t {
        Some(s) => String::from_str(s.as_str()),
        None => String::from_str(other),
    }
}

fn push_findings(out: &mut Vec<Finding>, pkg: &LockedPackage, advisories: &Vec<Advisory>)
    ensures
        finding_views(final(out)@) == finding_views(old(out)@) + package_findings(
            pkg@,
            advisory_views(advisories@),
        ),
{
    let ghost start = finding_views(out@);
    let ghost all = advisory_views(advisories@);
    let ver = match ComposerVersion::parse(pkg.version.as_str()) {
        Ok(v) => Some(v),
        Err(_) => None,
    };
    let n: usize = advisories.len();
    let mut i: usize = 0;
    assert(start + Seq::<FindingView>::empty() =~= start);
    while i < n
        invariant
            i <= n,
            n == advisories@.len(),
            all == advisory_views(advisories@),
            match ver {
                Some(v) => version::parsed(pkg@.version) == Some(v@),
                None => version::parsed(pkg@.version) is None,
            },
            finding_views(out@) == start + package_findings(pkg@, all.take(i as int)),
        decreases n - i,
    {
        let a = &advisories[i];
        proof {
            assert(all.take(i + 1).drop_last() =~= all.take(i as int));
            assert(all.take(i + 1).last() == a@);
        }
        let affected = text_or(&a.affected_versions, "*");
        let hit = match &ver {
            Some(v) => version_in_affected(v, affected.as_str()),
            None => true,
        };
        if hit {
            let f = Finding {
                package: String::from_str(pkg.name.as_str()),
                version: String::from_str(pkg.version.as_str()),
                advisory: text_or(&a.advisory_id, ""),
                severity: text_or(&a.severity, "unknown"),
                cve: match &a.cve {
                    Some(c) => text::join(c, ", "),
                    None => String::from_str(""),
                },
                title: text_or(&a.title, ""),
                link: text_or(&a.link, ""),
            };
            let ghost before = package_findings(pkg@, all.take(i as int));
            let ghost list = finding_views(out@);
            out.push(f);
            assert(finding_views(out@) =~= list.push(f@));
            assert(start + before.push(f@) =~= (start + before).push(f@));
        }
        i += 1;
    }
    assert(all.take(n as int) =~= all);
}

/// The findings on packages.
pub fn findings(packages: &Vec<&LockedPackage>, advisories: &StrMap<Vec<Advisory>>) -> (r: Vec<
    Finding,
>)
    ensures
        finding_views(r@) == findings_of(lock::ref_views(packages@), advisory_map(*advisories)),
{
    let ghost all = lock::ref_views(packages@);
    let ghost m = advisory_map(*advisories);
    let mut out: Vec<Finding> = Vec::new();
    let n: usize = packages.len();
    let mut i: usize = 0;
    assert(finding_views(out@) =~= Seq::empty());
    while i < n
        invariant
            i <= n,
            n == packages@.len(),
            all == lock::ref_views(packages@),
            m == advisory_map(*advisories),
            finding_views(out@) == findings_of(all.take(i as int), m),
        decreases n - i,
    {
        let p = packages[i];
        proof {
            assert(all.take(i + 1).drop_last() =~= all.take(i as int));
            assert(all.take(i + 1).last() == p@);
            collections::lemma_with_values(
                advisories@,
                p@.name,
                arbitrary(),
                |v: Vec<Advisory>| advisory_views(v@),
            );
        }
        match advisories.get(p.name.as_str()) {
            Some(a) => push_findings(&mut out, p, a),
            None => {
                assert(finding_views(out@) + Seq::<FindingView>::empty() =~= finding_views(out@));
            },
        }
        i += 1;
    }
    assert(all.take(n as int) =~= all);
    out
}

/// The members of a finding.
pub open spec fn finding_members(f: FindingView) -> Seq<(Seq<char>, json::JsonView)> {
    seq![
        ("package"@, json::JsonView::Str(f.package)),
        ("version"@, json::JsonView::Str(f.version)),
        ("advisory"@, json::JsonView::Str(f.advisory)),
        ("severity"@, json::JsonView::Str(f.severity)),
        ("cve"@, json::JsonView::Str(f.cve)),
        ("title"@, json::JsonView::Str(f.title)),
        ("link"@, json::JsonView::Str(f.link)),
    ]
}

/// The line of a table.
pub open spec fn table_line(
    package: Seq<char>,
    version: Seq<char>,
    severity: Seq<char>,
    cve: Seq<char>,
    title: Seq<char>,
) -> Seq<char> {
    text::padded(package, 32) + " "@ + text::padded(version, 12) + " "@ + text::padded(severity, 10)
        + " "@ + text::padded(cve, 20) + " "@ + title
}

/// The line of a table.
pub fn table_row(package: &str, version: &str, severity: &str, cve: &str, title: &str) -> (r: String)
    ensures
        r@ == table_line(package@, version@, severity@, cve@, title@),
{
    let mut out = text::pad(package, 32);
    out.append(" ");
    out.append(text::pad(version, 12).as_str());
    out.append(" ");
    out.append(text::pad(severity, 10).as_str());
    out.append(" ");
    out.append(text::pad(cve, 20).as_str());
    out.append(" ");
    out.append(title);
    assert(out@ =~= table_line(package@, version@, severity@, cve@, title@));
    out
}

impl Finding {
    /// The finding as a JSON value.
    pub fn to_json(&self) -> (r: Json)
        ensures
            r@ == json::JsonView::Object(finding_members(self@)),
    {
        let mut m: Vec<(String, Json)> = Vec::new();
        m.push((String::from_str("package"), fields::text_json(self.package.as_str())));
        m.push((String::from_str("version"), fields::text_json(self.version.as_str())));
        m.push((String::from_str("advisory"), fields::text_json(self.advisory.as_str())));
        m.push((String::from_str("severity"), fields::text_json(self.severity.as_str())));
        m.push((String::from_str("cve"), fields::text_json(self.cve.as_str())));
        m.push((String::from_str("title"), fields::text_json(self.title.as_str())));
        m.push((String::from_str("link"), fields::text_json(self.link.as_str())));
        proof {
            json::lemma_object_view(m);
            assert(json::members(m@) =~= finding_members(self@));
        }
        Json::Object(m)
    }

    /// The line of the finding in a table.
    pub fn line(&self) -> (r: String)
        ensures
            r@ == table_line(
                self@.package,
                self@.version,
                self@.severity,
                self@.cve,
                self@.title,
            ),
    {
        table_row(
            self.package.as_str(),
            self.version.as_str(),
            self.severity.as_str(),
            self.cve.as_str(),
            self.title.as_str(),
        )
    }
}

/// What is wrong after an audit: something was found, or some requests for
/// advisories were not answered, so that nothing can be told.
pub open spec fn audit_fault(found: nat, unanswered: nat) -> Option<Seq<char>> {
    if found > 0 {
        Some(text::decimal(found) + " security advisory(ies) found"@)
    } else if unanswered > 0 {
        Some(
            "security advisories could not be checked ("@ + text::decimal(unanswered)
                + " request(s) failed)"@,
        )
    } else {
        None
    }
}

/// Whether an audit failed.
pub fn audit_outcome(findings: &Vec<Finding>, unanswered: usize) -> (r: Result<(), Error>)
    ensures
        match audit_fault(findings@.len(), unanswered as nat) {
            None => r is Ok,
            Some(m) => r matches Err(Error::Other(t)) && t@ == m,
        },
{
    let n: usize = findings.len();
    if n > 0 {
        return Err(
            Error::Other(
                text::cat(text::usize_text(n).as_str(), " security advisory(ies) found"),
            ),
        );
    }
    if unanswered > 0 {
        return Err(
            Error::Other(
                text::cat3(
                    "security advisories could not be checked (",
                    text::usize_text(unanswered).as_str(),
                    " request(s) failed)",
                ),
            ),
        );
    }
    Ok(())
}

/// An audit succeeds only if every request was answered and nothing was found.
pub proof fn law_audit_fails_closed(found: nat, unanswered: nat)
    ensures
        audit_fault(found, unanswered) is None <==> found == 0 && unanswered == 0,
{
}

proof fn lemma_advisory_is_found(
    p: lock::LockedView,
    a: Seq<AdvisoryView>,
    j: int,
)
    requires
        0 <= j < a.len(),
        concerns(p, a[j]),
    ensures
        package_findings(p, a).contains(finding_of(p, a[j])),
    decreases a.len(),
{
    let rest = package_findings(p, a.drop_last());
    let all = package_findings(p, a);
    let f = finding_of(p, a[j]);
    if j < a.len() - 1 {
        assert(a.drop_last()[j] == a[j]);
        lemma_advisory_is_found(p, a.drop_last(), j);
        let k = choose|k: int| 0 <= k < rest.len() && rest[k] == f;
        assert(all[k] == f);
    } else {
        assert(all[all.len() - 1] == f);
    }
}

/// Every advisory that concerns a package is found.
pub proof fn law_every_advisory_is_found(
    v: Seq<lock::LockedView>,
    m: AdvisoryMap,
    i: int,
    j: int,
)
    requires
        0 <= i < v.len(),
        collections::lookup(m, v[i].name) matches Some(a) && 0 <= j < a.len() && concerns(
            v[i],
            a[j],
        ),
    ensures
        findings_of(v, m).contains(
            finding_of(v[i], collections::lookup(m, v[i].name)->0[j]),
        ),
    decreases v.len(),
{
    let rest = findings_of(v.drop_last(), m);
    let all = findings_of(v, m);
    let a = collections::lookup(m, v[i].name)->0;
    let f = finding_of(v[i], a[j]);
    if i < v.len() - 1 {
        assert(v.drop_last()[i] == v[i]);
        law_every_advisory_is_found(v.drop_last(), m, i, j);
        let k = choose|k: int| 0 <= k < rest.len() && rest[k] == f;
        assert(all[k] == f);
    } else {
        lemma_advisory_is_found(v[i], a, j);
        let own = package_findings(v[i], a);
        let k = choose|k: int| 0 <= k < own.len() && own[k] == f;
        assert(all[rest.len() + k] == f);
    }
}

// ---------------------------------------------------------------------------
// Asking for advisories

/// A URL with pairs of a key and a value at the end of its query.
pub uninterp spec fn url_with_pairs(
    url: Seq<char>,
    key: Seq<char>,
    values: Seq<Seq<char>>,
) -> Option<Seq<char>>;

/// `url::Url::parse`, and `extend_pairs` on `query_pairs_mut` of the URL: the URL
/// with the key and each value, encoded as form data, at the end of its query.
/// There is none for a text that is no URL.
#[verifier::external_body]
fn extend_query(url: &str, key: &str, values: &Vec<String>) -> (r: Option<String>)
    ensures
        text::opt_text(r) == url_with_pairs(url@, key@, text::texts(values@)),
{
    let mut parsed = url::Url::parse(url).ok()?;
    parsed.query_pairs_mut().extend_pairs(values.iter().map(|v| (key, v)));
    Some(parsed.to_string())
}

/// The URL at which the advisories on packages are asked for.
pub fn advisories_url(base: &str, names: &Vec<String>) -> (r: Result<String, Error>)
    ensures
        match url_with_pairs(base@, "packages[]"@, text::texts(names@)) {
            Some(u) => r is Ok && r->Ok_0@ == u,
            None => r matches Err(Error::Other(t)) && t@ == "invalid URL: "@ + base@,
        },
{
    match extend_query(base, "packages[]", names) {
        Some(u) => Ok(u),
        None => Err(Error::Other(text::cat("invalid URL: ", base))),
    }
}

proof fn lemma_nothing_swapped(c: Seq<char>)
    requires
        !c.contains(','),
    ensures
        text::swapped(c, ',', ' ') == c,
{
    assert(text::swapped(c, ',', ' ') =~= c) by {
        assert forall|i: int| 0 <= i < c.len() implies c[i] != ',' by {
            assert(c.contains(c[i]));
        }
    }
}

/// An advisory concerns every version that one of its alternatives allows; a list
/// with commas allows what all its clauses allow. It concerns no other version,
/// unless the text of the version stands in it. Without versions, or with `*`, it
/// concerns every version.
pub proof fn law_what_advisories_concern(a: Seq<char>, b: Seq<char>, v: version::VersionView)
    requires
        constraint::is_clause(a),
        constraint::is_clause(b),
    ensures
        affects(""@, v),
        affects("*"@, v),
        constraint::satisfies(a, v) ==> affects(a, v),
        constraint::satisfies(a, v) || constraint::satisfies(b, v) ==> affects(a + "||"@ + b, v),
        constraint::satisfies(a, v) && constraint::satisfies(b, v) ==> affects(a + ","@ + b, v),
        affects(a, v) ==> constraint::satisfies(a, v) || text::occurs(a, v.raw),
        affects(a + "||"@ + b, v) ==> constraint::satisfies(a, v) || constraint::satisfies(b, v)
            || text::occurs(a + "||"@ + b, v.raw),
        affects(a + ","@ + b, v) ==> (constraint::satisfies(a, v) && constraint::satisfies(b, v))
            || text::occurs(a + ","@ + b, v.raw),
{
    reveal_strlit("");
    reveal_strlit("*");
    reveal_strlit("||");
    reveal_strlit(",");
    text::lemma_trimmed_same("*"@);
    text::lemma_trimmed_same(a);
    text::lemma_trimmed_same(b);
    lemma_nothing_swapped(a);
    lemma_nothing_swapped(b);
    text::lemma_not_found(a, "||"@);
    assert(text::pieces(a, "||"@)[0] == a);
    constraint::law_any_allows_all(v);
    lemma_two_alternatives(a, b, v);
    lemma_comma_list(a, b, v);
}

proof fn lemma_two_alternatives(a: Seq<char>, b: Seq<char>, v: version::VersionView)
    requires
        constraint::is_clause(a),
        constraint::is_clause(b),
    ensures
        affects(a + "||"@ + b, v) == (constraint::satisfies(a, v) || constraint::satisfies(b, v)
            || text::occurs(a + "||"@ + b, v.raw)),
{
    reveal_strlit("*");
    reveal_strlit("||");
    text::lemma_trimmed_same(a);
    text::lemma_trimmed_same(b);
    lemma_nothing_swapped(a);
    lemma_nothing_swapped(b);
    let alt = a + "||"@ + b;
    text::lemma_two_pieces(a, "||"@, b);
    assert(text::pieces(alt, "||"@)[0] == a);
    assert(text::pieces(alt, "||"@)[1] == b);
    assert(alt[0] == a[0] && alt.last() == b.last());
    text::lemma_trimmed_same(alt);
}

proof fn lemma_comma_list(a: Seq<char>, b: Seq<char>, v: version::VersionView)
    requires
        constraint::is_clause(a),
        constraint::is_clause(b),
    ensures
        affects(a + ","@ + b, v) == ((constraint::satisfies(a, v) && constraint::satisfies(b, v))
            || text::occurs(a + ","@ + b, v.raw)),
{
    reveal_strlit("*");
    reveal_strlit("||");
    reveal_strlit(",");
    reveal_strlit(" ");
    let list = a + ","@ + b;
    assert(list[0] == a[0] && list.last() == b.last());
    text::lemma_trimmed_same(list);
    assert(!list.contains('|')) by {
        assert forall|i: int| 0 <= i < list.len() implies list[i] != '|' by {
            if i < a.len() {
                assert(list[i] == a[i]);
            } else if i > a.len() {
                assert(list[i] == b[i - a.len() - 1]);
            }
        }
    }
    text::lemma_not_found(list, "||"@);
    assert(text::pieces(list, "||"@)[0] == list);
    let spaced = a + " "@ + b;
    assert(text::swapped(list, ',', ' ') =~= spaced) by {
        assert forall|i: int| 0 <= i < list.len() implies text::swapped(list, ',', ' ')[i]
            == spaced[i] by {
            if i < a.len() {
                assert(list[i] == a[i]);
                assert(a.contains(a[i]));
            } else if i > a.len() {
                assert(list[i] == b[i - a.len() - 1]);
                assert(b.contains(b[i - a.len() - 1]));
            }
        }
    }
    constraint::law_all_clauses(a, b, v);
}

/// Every finding is of a package of the list and of an advisory under its name
/// that concerns its version. A version that cannot be read is taken to be
/// concerned.
pub proof fn law_findings_are_true(v: Seq<lock::LockedView>, m: AdvisoryMap, k: int)
    requires
        0 <= k < findings_of(v, m).len(),
    ensures
        exists|i: int, j: int|
            #![trigger v[i], collections::lookup(m, v[i].name)->0[j]]
            0 <= i < v.len() && (collections::lookup(m, v[i].name) matches Some(a) && 0 <= j < a.len()
                && concerns(v[i], a[j]) && findings_of(v, m)[k].package == v[i].name && findings_of(
                v,
                m,
            )[k].version == v[i].version && (a[j].title matches Some(t) ==> findings_of(
                v,
                m,
            )[k].title == t) && (a[j].severity matches Some(t) ==> findings_of(v, m)[k].severity
                == t)),
    decreases v.len(),
{
    if v.len() > 0 {
        let front = v.drop_last();
        let rest = findings_of(front, m);
        assert(v[v.len() - 1] == v.last());
        if k < rest.len() {
            law_findings_are_true(front, m, k);
            let (i, j) = choose|i: int, j: int|
                #![trigger front[i], collections::lookup(m, front[i].name)->0[j]]
                0 <= i < front.len() && (collections::lookup(m, front[i].name) matches Some(a) && 0
                    <= j < a.len() && concerns(front[i], a[j]) && rest[k].package == front[i].name
                    && rest[k].version == front[i].version && (a[j].title matches Some(t)
                    ==> rest[k].title == t) && (a[j].severity matches Some(t) ==> rest[k].severity
                    == t));
            assert(v[i] == front[i]);
            assert(collections::lookup(m, v[i].name)->0[j] == collections::lookup(
                m,
                front[i].name,
            )->0[j]);
        } else {
            let a = collections::lookup(m, v.last().name)->0;
            let j = lemma_finding_source(v.last(), a, k - rest.len());
            assert(findings_of(v, m)[k] == finding_of(v[v.len() - 1], a[j]));
            assert(collections::lookup(m, v[v.len() - 1].name)->0[j] == a[j]);
        }
    }
}

proof fn lemma_finding_source(p: lock::LockedView, a: Seq<AdvisoryView>, k: int) -> (j: int)
    requires
        0 <= k < package_findings(p, a).len(),
    ensures
        0 <= j < a.len(),
        concerns(p, a[j]),
        package_findings(p, a)[k] == finding_of(p, a[j]),
    decreases a.len(),
{
    let front = a.drop_last();
    let rest = package_findings(p, front);
    if k < rest.len() {
        let j = lemma_finding_source(p, front, k);
        assert(a[j] == front[j]);
        j
    } else {
        a.len() - 1
    }
}

/// What an advisory says is read from the members of these names.
pub proof fn law_advisories_are_read(j: json::JsonView, a: AdvisoryView)
    requires
        j is Object,
        advisory_json(j) == Some(a),
    ensures
        fields::reads_text(json::get_of(j, "advisoryId"@), a.advisory_id),
        fields::reads_text(json::get_of(j, "title"@), a.title),
        fields::reads_text(json::get_of(j, "severity"@), a.severity),
        fields::reads_text(json::get_of(j, "affectedVersions"@), a.affected_versions),
        fields::reads_text(json::get_of(j, "link"@), a.link),
        a.cve matches Some(c) ==> fields::reads_texts(json::get_of(j, "cve"@), c),
        json::get_of(j, "cve"@) is None ==> a.cve is None,
{
    fields::law_members_are_read(json::get_of(j, "advisoryId"@));
    fields::law_members_are_read(json::get_of(j, "title"@));
    fields::law_members_are_read(json::get_of(j, "severity"@));
    fields::law_members_are_read(json::get_of(j, "affectedVersions"@));
    fields::law_members_are_read(json::get_of(j, "link"@));
    fields::law_members_are_read(json::get_of(j, "cve"@));
}

/// All advisories of a list are read, one for one.
pub proof fn law_all_advisories_are_read(a: Seq<json::JsonView>)
    ensures
        advisories_of(a) matches Some(v) ==> v.len() == a.len() && forall|i: int|
            0 <= i < a.len() ==> advisory_json(#[trigger] a[i]) == Some(v[i]),
    decreases a.len(),
{
    if a.len() > 0 {
        let front = a.drop_last();
        law_all_advisories_are_read(front);
        if let Some(v) = advisories_of(a) {
            let rest = advisories_of(front)->0;
            assert forall|i: int| 0 <= i < a.len() implies advisory_json(#[trigger] a[i]) == Some(
                v[i],
            ) by {
                if i < front.len() {
                    assert(front[i] == a[i]);
                    assert(v[i] == rest[i]);
                }
            }
        }
    }
}

} // verus!
