//! Comparing installed packages with the lock file.

use crate::collections;
use crate::commands::Message;
use crate::commands::Tone;
use crate::download;
use crate::error::Error;
use crate::json;
use crate::json::Json;
use crate::lock;
use crate::lock::LockedPackage;
use crate::text;
use vstd::prelude::*;

verus! {

/// What is asked of a comparison.
#[derive(Debug, Clone)]
pub struct StatusArgs {
    pub no_dev: bool,
    /// Differences are an error.
    pub strict: bool,
}

/// How an installed package differs from the lock file.
#[derive(Debug, Clone, Copy, PartialEq, Eq, Structural)]
pub enum IssueKind {
    Missing,
    Modified,
    VersionMismatch,
    Extra,
}

/// A difference.
#[derive(Debug, Clone)]
pub struct Issue {
    pub kind: IssueKind,
    pub text: String,
}

impl View for Issue {
    type V = (IssueKind, Seq<char>);

    open spec fn view(&self) -> (IssueKind, Seq<char>) {
        (self.kind, self.text@)
    }
}

/// What differences consist of.
pub open spec fn issue_views(v: Seq<Issue>) -> Seq<(IssueKind, Seq<char>)> {
    v.map_values(|i: Issue| i@)
}

/// What was found in the place of a file.
#[derive(Debug, Clone)]
pub enum FileState {
    Absent,
    Unreadable,
    Text(String),
}

/// What was found in the place of a package.
#[derive(Debug, Clone)]
pub struct InstalledState {
    pub present: bool,
    /// It is a link.
    pub linked: bool,
    /// What the installer wrote.
    pub marker: FileState,
    /// Its `composer.json`.
    pub manifest: FileState,
    /// There is a `.git` in it.
    pub has_git: bool,
}

/// Differences with what they are.
pub type Issues = Seq<(IssueKind, Seq<char>)>;

/// A package that is installed from a local directory.
pub open spec fn is_local(p: lock::LockedView) -> bool {
    (p.dist matches Some(d) && d.dist_type == "path"@) || (p.source matches Some(s) && s.source_type
        == "path"@)
}

/// A package whose sources are checked out.
pub open spec fn has_checkout(p: lock::LockedView) -> bool {
    p.source matches Some(s) && download::is_checkout(s.source_type)
}

/// The JSON value of a text.
pub open spec fn told_json(t: Seq<char>) -> Option<json::JsonView> {
    json::json_of_bytes(vstd::utf8::encode_utf8(t))
}

/// What a marker says against a package.
pub open spec fn marker_issues(p: lock::LockedView, doc: json::JsonView) -> Issues {
    let wrong_version: Issues = match json::text_at(doc, "version"@) {
        Some(v) => if v == p.version {
            Seq::empty()
        } else {
            seq![(
                IssueKind::VersionMismatch,
                p.name + ": installed version "@ + v + " != lock "@ + p.version,
            )]
        },
        None => Seq::empty(),
    };
    let wrong_key: Issues = match json::text_at(doc, "cache_key"@) {
        Some(k) => if k == lock::cache_key_of(p) {
            Seq::empty()
        } else {
            seq![(
                IssueKind::Modified,
                p.name
                    + ": install marker cache_key mismatch (package may have been replaced)"@,
            )]
        },
        None => Seq::empty(),
    };
    wrong_version + wrong_key
}

/// What a `composer.json` says against a package.
pub open spec fn manifest_issues(p: lock::LockedView, doc: json::JsonView) -> Issues {
    let wrong_name: Issues = match json::text_at(doc, "name"@) {
        Some(n) => if n == p.name {
            Seq::empty()
        } else {
            seq![(
                IssueKind::Modified,
                p.name + ": composer.json name is `"@ + n + "` (expected "@ + p.name + ")"@,
            )]
        },
        None => Seq::empty(),
    };
    let wrong_version: Issues = match json::text_at(doc, "version"@) {
        Some(v) => if text::without_front(v, 'v') == text::without_front(p.version, 'v')
            || text::starts(p.version, "dev-"@) {
            Seq::empty()
        } else {
            seq![(
                IssueKind::VersionMismatch,
                p.name + ": composer.json version `"@ + v + "` != lock `"@ + p.version + "`"@,
            )]
        },
        None => Seq::empty(),
    };
    wrong_name + wrong_version
}

/// What the files of a package say against it. `marker` and `manifest` are the
/// JSON values of the two files, where they could be told.
pub open spec fn file_issues(
    p: lock::LockedView,
    s: InstalledState,
    marker: Option<json::JsonView>,
    manifest: Option<json::JsonView>,
) -> Issues {
    match s.marker {
        FileState::Text(_) => match marker {
            Some(doc) => marker_issues(p, doc),
            None => seq![(IssueKind::Modified, p.name + ": corrupt install marker"@)],
        },
        FileState::Unreadable => seq![(
            IssueKind::Modified,
            p.name + ": unreadable install marker"@,
        )],
        FileState::Absent => match s.manifest {
            FileState::Text(_) => match manifest {
                Some(doc) => manifest_issues(p, doc),
                None => Seq::empty(),
            },
            FileState::Unreadable => Seq::empty(),
            FileState::Absent => if s.linked {
                Seq::empty()
            } else {
                seq![(
                    IssueKind::Modified,
                    p.name + ": no composer.json and no install marker"@,
                )]
            },
        },
    }
}

/// How a package differs from what was found in its place.
pub open spec fn issues_of(
    p: lock::LockedView,
    dest: Seq<char>,
    s: InstalledState,
    marker: Option<json::JsonView>,
    manifest: Option<json::JsonView>,
) -> Issues {
    if lock::has_nothing(p) {
        Seq::empty()
    } else if is_local(p) {
        if s.present {
            Seq::empty()
        } else {
            seq![(IssueKind::Missing, p.name + ": path package missing ("@ + dest + ")"@)]
        }
    } else if !s.present {
        seq![(IssueKind::Missing, p.name + ": missing ("@ + dest + ")"@)]
    } else {
        let strange: Issues = if s.has_git && !has_checkout(p) {
            seq![(IssueKind::Modified, p.name + ": unexpected .git directory"@)]
        } else {
            Seq::empty()
        };
        file_issues(p, s, marker, manifest) + strange
    }
}

fn report(out: &mut Vec<Issue>, kind: IssueKind, message: String)
    ensures
        issue_views(final(out)@) == issue_views(old(out)@).push((kind, message@)),
{
    let ghost before = issue_views(out@);
    out.push(Issue { kind, text: message });
    assert(issue_views(out@) =~= before.push((kind, message@)));
}

fn push_marker_issues(out: &mut Vec<Issue>, p: &LockedPackage, doc: &Json)
    ensures
        issue_views(final(out)@) == issue_views(old(out)@) + marker_issues(p@, doc@),
{
    let ghost before = issue_views(out@);
    if let Some(v) = json::get_str(doc, "version") {
        if !text::same(v, p.version.as_str()) {
            let head = text::cat3(p.name.as_str(), ": installed version ", v);
            report(
                out,
                IssueKind::VersionMismatch,
                text::cat3(head.as_str(), " != lock ", p.version.as_str()),
            );
        }
    }
    if let Some(k) = json::get_str(doc, "cache_key") {
        let expected = p.cache_key();
        if !text::same(k, expected.as_str()) {
            report(
                out,
                IssueKind::Modified,
                text::cat(
                    p.name.as_str(),
                    ": install marker cache_key mismatch (package may have been replaced)",
                ),
            );
        }
    }
    assert(issue_views(out@) =~= before + marker_issues(p@, doc@));
}

fn push_manifest_issues(out: &mut Vec<Issue>, p: &LockedPackage, doc: &Json)
    ensures
        issue_views(final(out)@) == issue_views(old(out)@) + manifest_issues(p@, doc@),
{
    let ghost before = issue_views(out@);
    if let Some(n) = json::get_str(doc, "name") {
        if !text::same(n, p.name.as_str()) {
            let head = text::cat3(p.name.as_str(), ": composer.json name is `", n);
            let tail = text::cat3("` (expected ", p.name.as_str(), ")");
            let t = text::cat(head.as_str(), tail.as_str());
            assert(t@ =~= p@.name + ": composer.json name is `"@ + n@ + "` (expected "@ + p@.name
                + ")"@);
            report(out, IssueKind::Modified, t);
        }
    }
    if let Some(v) = json::get_str(doc, "version") {
        if !text::same(
            text::trim_front_char(v, 'v'),
            text::trim_front_char(p.version.as_str(), 'v'),
        ) && !text::starts_with(p.version.as_str(), "dev-") {
            let head = text::cat3(p.name.as_str(), ": composer.json version `", v);
            let tail = text::cat3("` != lock `", p.version.as_str(), "`");
            let t = text::cat(head.as_str(), tail.as_str());
            assert(t@ =~= p@.name + ": composer.json version `"@ + v@ + "` != lock `"@ + p@.version
                + "`"@);
            report(out, IssueKind::VersionMismatch, t);
        }
    }
    assert(issue_views(out@) =~= before + manifest_issues(p@, doc@));
}

fn local(p: &LockedPackage) -> (r: bool)
    ensures
        r == is_local(p@),
{
    let dist = match &p.dist {
        Some(d) => text::same(d.dist_type.as_str(), "path"),
        None => false,
    };
    let source = match &p.source {
        Some(s) => text::same(s.source_type.as_str(), "path"),
        None => false,
    };
    dist || source
}

fn checked_out(p: &LockedPackage) -> (r: bool)
    ensures
        r == has_checkout(p@),
{
    match &p.source {
        Some(s) => text::same(s.source_type.as_str(), "git") || text::same(
            s.source_type.as_str(),
            "vcs",
        ),
        None => false,
    }
}

/// How a package differs from what was found in its place, by the JSON values of
/// its two files.
pub fn compare_package(
    p: &LockedPackage,
    dest: &str,
    state: &InstalledState,
    marker: &Option<Json>,
    manifest: &Option<Json>,
) -> (r: Vec<Issue>)
    ensures
        issue_views(r@) == issues_of(
            p@,
            dest@,
            *state,
            json::opt_json(*marker),
            json::opt_json(*manifest),
        ),
{
    let mut out: Vec<Issue> = Vec::new();
    assert(issue_views(out@) =~= Seq::empty());
    if p.is_metapackage() {
        return out;
    }
    if local(p) {
        if !state.present {
            let head = text::cat3(p.name.as_str(), ": path package missing (", dest);
            report(&mut out, IssueKind::Missing, text::cat(head.as_str(), ")"));
            assert(issue_views(out@) =~= issues_of(
                p@,
                dest@,
                *state,
                json::opt_json(*marker),
                json::opt_json(*manifest),
            ));
        }
        return out;
    }
    if !state.present {
        let head = text::cat3(p.name.as_str(), ": missing (", dest);
        report(&mut out, IssueKind::Missing, text::cat(head.as_str(), ")"));
        assert(issue_views(out@) =~= issues_of(
            p@,
            dest@,
            *state,
            json::opt_json(*marker),
            json::opt_json(*manifest),
        ));
        return out;
    }
    match &state.marker {
        FileState::Text(_) => {
            match marker {
                Some(doc) => push_marker_issues(&mut out, p, doc),
                None => {
                    report(
                        &mut out,
                        IssueKind::Modified,
                        text::cat(p.name.as_str(), ": corrupt install marker"),
                    );
                },
            }
        },
        FileState::Unreadable => {
            report(
                &mut out,
                IssueKind::Modified,
                text::cat(p.name.as_str(), ": unreadable install marker"),
            );
        },
        FileState::Absent => {
            match &state.manifest {
                FileState::Text(_) => {
                    if let Some(doc) = manifest {
                        push_manifest_issues(&mut out, p, doc);
                    }
                },
                FileState::Unreadable => {},
                FileState::Absent => {
                    if !state.linked {
                        report(
                            &mut out,
                            IssueKind::Modified,
                            text::cat(
                                p.name.as_str(),
                                ": no composer.json and no install marker",
                            ),
                        );
                    }
                },
            }
        },
    }
    assert(issue_views(out@) =~= file_issues(
        p@,
        *state,
        json::opt_json(*marker),
        json::opt_json(*manifest),
    ));
    if state.has_git && !checked_out(p) {
        report(
            &mut out,
            IssueKind::Modified,
            text::cat(p.name.as_str(), ": unexpected .git directory"),
        );
    }
    assert(issue_views(out@) =~= issues_of(
        p@,
        dest@,
        *state,
        json::opt_json(*marker),
        json::opt_json(*manifest),
    ));
    out
}

/// The JSON value of a file.
pub open spec fn file_json(f: FileState) -> Option<json::JsonView> {
    match f {
        FileState::Text(t) => told_json(t@),
        _ => None,
    }
}

fn read_file(f: &FileState) -> (r: Option<Json>)
    ensures
        json::opt_json(r) == file_json(*f),
{
    match f {
        FileState::Text(t) => json::parse(t.as_str().as_bytes()),
        _ => None,
    }
}

/// How a package differs from what was found in its place.
pub fn check_package(p: &LockedPackage, dest: &str, state: &InstalledState) -> (r: Vec<Issue>)
    ensures
        issue_views(r@) == issues_of(
            p@,
            dest@,
            *state,
            file_json(state.marker),
            file_json(state.manifest),
        ),
{
    let marker = read_file(&state.marker);
    let manifest = read_file(&state.manifest);
    compare_package(p, dest, state, &marker, &manifest)
}

// ---------------------------------------------------------------------------
// Packages that are not locked

/// A directory in which packages of a vendor can be.
pub fn is_vendor_name(name: &str) -> (r: bool)
    ensures
        r == !(name@ == "bin"@ || name@ == "composer"@ || text::starts(name@, "."@)),
{
    !(text::same(name, "bin") || text::same(name, "composer") || text::starts_with(name, "."))
}

/// What is said of a package that is not locked.
pub fn extra_package(
    vendor: &str,
    name: &str,
    path: &str,
    expected: &Vec<String>,
    looks_like_package: bool,
) -> (r: Option<Issue>)
    ensures
        match r {
            Some(i) => looks_like_package && !text::texts(expected@).contains(path@) && i@ == (
                IssueKind::Extra,
                vendor@ + "/"@ + name@ + ": present in vendor but not in lock"@,
            ),
            None => !looks_like_package || text::texts(expected@).contains(path@),
        },
{
    if !looks_like_package || collections::contains_text(expected, path) {
        return None;
    }
    let full = text::cat3(vendor, "/", name);
    Some(
        Issue {
            kind: IssueKind::Extra,
            text: text::cat(full.as_str(), ": present in vendor but not in lock"),
        },
    )
}

// ---------------------------------------------------------------------------
// What is said in the end

/// The number of differences of a kind.
pub open spec fn count_of(v: Issues, kind: IssueKind) -> nat
    decreases v.len(),
{
    if v.len() == 0 {
        0
    } else {
        count_of(v.drop_last(), kind) + if v.last().0 == kind {
            1nat
        } else {
            0
        }
    }
}

fn count_kind(v: &Vec<Issue>, kind: IssueKind) -> (r: usize)
    ensures
        r == count_of(issue_views(v@), kind),
{
    let ghost all = issue_views(v@);
    let n: usize = v.len();
    let mut i: usize = 0;
    let mut count: usize = 0;
    while i < n
        invariant
            i <= n,
            n == v@.len(),
            all == issue_views(v@),
            count <= i,
            count == count_of(all.take(i as int), kind),
        decreases n - i,
    {
        proof {
            assert(all.take(i + 1).drop_last() =~= all.take(i as int));
            assert(all.take(i + 1).last() == v@[i as int]@);
        }
        if v[i].kind == kind {
            count += 1;
        }
        i += 1;
    }
    assert(all.take(n as int) =~= all);
    count
}

/// Every difference is of one kind.
pub proof fn law_counts_add_up(v: Issues)
    ensures
        count_of(v, IssueKind::Missing) + count_of(v, IssueKind::Modified) + count_of(
            v,
            IssueKind::VersionMismatch,
        ) + count_of(v, IssueKind::Extra) == v.len(),
    decreases v.len(),
{
    if v.len() > 0 {
        law_counts_add_up(v.drop_last());
    }
}

/// What is said in the end.
pub open spec fn summary_of(v: Issues) -> (Tone, Seq<char>) {
    if v.len() == 0 {
        (Tone::Success, "Vendor matches lockfile (markers + package metadata OK)"@)
    } else {
        (
            Tone::Info,
            text::decimal(v.len()) + " issue(s): missing="@ + text::decimal(
                count_of(v, IssueKind::Missing),
            ) + " modified="@ + text::decimal(count_of(v, IssueKind::Modified)) + " version="@
                + text::decimal(count_of(v, IssueKind::VersionMismatch)) + " extra="@
                + text::decimal(count_of(v, IssueKind::Extra)),
        )
    }
}

/// What is said in the end, and whether the differences are an error.
pub fn status_outcome(issues: &Vec<Issue>, strict: bool) -> (r: (Message, Result<(), Error>))
    ensures
        r.0@ == summary_of(issue_views(issues@)),
        if strict && issues@.len() > 0 {
            r.1 matches Err(Error::Other(t)) && t@ == "status found "@ + text::decimal(
                issues@.len(),
            ) + " issue(s) (--strict)"@
        } else {
            r.1 is Ok
        },
{
    let n: usize = issues.len();
    if n == 0 {
        return (
            Message {
                tone: Tone::Success,
                text: String::from_str(
                    "Vendor matches lockfile (markers + package metadata OK)",
                ),
            },
            Ok(()),
        );
    }
    let mut line = text::usize_text(n);
    line.append(" issue(s): missing=");
    line.append(text::usize_text(count_kind(issues, IssueKind::Missing)).as_str());
    line.append(" modified=");
    line.append(text::usize_text(count_kind(issues, IssueKind::Modified)).as_str());
    line.append(" version=");
    line.append(text::usize_text(count_kind(issues, IssueKind::VersionMismatch)).as_str());
    line.append(" extra=");
    line.append(text::usize_text(count_kind(issues, IssueKind::Extra)).as_str());
    let message = Message { tone: Tone::Info, text: line };
    if strict {
        let t = text::cat3("status found ", text::usize_text(n).as_str(), " issue(s) (--strict)");
        return (message, Err(Error::Other(t)));
    }
    (message, Ok(()))
}

/// A package that is there as it was locked gives no issue; one that is missing
/// gives one; a package without files gives none.
pub proof fn law_what_is_reported(
    p: lock::LockedView,
    dest: Seq<char>,
    s: InstalledState,
    marker: Option<json::JsonView>,
    manifest: Option<json::JsonView>,
)
    ensures
        (p.package_type == Some("metapackage"@) || (p.dist is None && p.source is None))
            ==> issues_of(p, dest, s, marker, manifest).len() == 0,
        (!lock::has_nothing(p) && !s.present) ==> issues_of(p, dest, s, marker, manifest).len() == 1
            && issues_of(p, dest, s, marker, manifest)[0].0 == IssueKind::Missing,
        (s.present && !s.has_git && s.marker is Text && marker is Some && json::text_at(
            marker->0,
            "version"@,
        ) == Some(p.version) && json::text_at(marker->0, "cache_key"@) == Some(
            lock::cache_key_of(p),
        )) ==> issues_of(p, dest, s, marker, manifest).len() == 0,
        (!lock::has_nothing(p) && !is_local(p) && s.present && s.marker is Text) ==> {
            let found = issues_of(p, dest, s, marker, manifest);
            &&& marker is None ==> found.len() > 0 && found[0].0 == IssueKind::Modified
            &&& (marker matches Some(doc) && json::text_at(doc, "version"@) matches Some(v) && v
                != p.version) ==> found.len() > 0 && found[0].0 == IssueKind::VersionMismatch
            &&& (marker is Some && json::text_at(marker->0, "version"@) == Some(p.version) && (
            json::text_at(marker->0, "cache_key"@) matches Some(k) && k != lock::cache_key_of(p)))
                ==> found.len() > 0 && found[0].0 == IssueKind::Modified
        },
        (!lock::has_nothing(p) && !is_local(p) && s.present && s.has_git && (p.source matches Some(
            x,
        ) ==> !download::is_checkout(x.source_type))) ==> issues_of(
            p,
            dest,
            s,
            marker,
            manifest,
        ).len() > 0 && issues_of(p, dest, s, marker, manifest).last().0 == IssueKind::Modified,
        (!lock::has_nothing(p) && !is_local(p) && s.present && s.marker is Absent && s.manifest
            is Absent && !s.linked) ==> issues_of(p, dest, s, marker, manifest).len() > 0,
{
}

} // verus!
