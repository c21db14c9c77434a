//! Downloading and installing packages.

use crate::cache::LinkResult;
use crate::collections;
use crate::collections::StrMap;
use crate::error;
use crate::error::Error;
use crate::hash;
use crate::installer_paths;
use crate::installer_paths::InstallerPaths;
use crate::json;
use crate::json::Json;
use crate::lock;
use crate::lock::LockedPackage;
use crate::package;
use crate::paths;
use crate::text;
use vstd::prelude::*;

verus! {

// ---------------------------------------------------------------------------
// Numbers

/// The number of downloads at a time on a machine with that many cores.
pub open spec fn concurrency_of(cores: int) -> int {
    if cores * 8 < 16 {
        16
    } else if cores * 8 > 128 {
        128
    } else {
        cores * 8
    }
}

/// The number of downloads at a time on a machine with that many cores.
pub fn default_concurrency(cores: usize) -> (r: usize)
    ensures
        r == concurrency_of(cores as int),
{
    if cores < 2 {
        16
    } else if cores > 16 {
        128
    } else {
        cores * 8
    }
}

/// What an install did so far. The counters wrap around.
#[derive(Debug, Clone, Copy, PartialEq, Eq, Structural)]
pub struct InstallStats {
    pub total: usize,
    pub cache_hits: usize,
    pub downloaded: usize,
    pub failed: usize,
    pub skipped: usize,
    pub bytes: u64,
    pub hardlinks: u64,
    pub copies: u64,
}

/// What an install did at some moment.
#[derive(Debug, Clone, Copy, PartialEq, Eq, Structural)]
pub struct StatsSnapshot {
    pub total: usize,
    pub cache_hits: usize,
    pub downloaded: usize,
    pub failed: usize,
    pub skipped: usize,
    pub bytes: u64,
    pub hardlinks: u64,
    pub copies: u64,
}

/// What happened in an install.
#[derive(Debug, Clone, Copy, PartialEq, Eq, Structural)]
pub enum InstallEvent {
    /// A package has nothing to install.
    Skipped,
    /// A package was in the cache.
    Hit(LinkResult),
    /// The archive of a package, with that many bytes, was there.
    Archive(u64),
    /// A package was downloaded.
    Downloaded(LinkResult),
    /// A local package was linked.
    Linked,
    /// A local package or a checkout was copied.
    Copied,
    /// A package could not be installed.
    Failed,
}

/// One more, beginning anew behind the greatest number.
pub open spec fn one_more(n: usize) -> usize {
    if n == usize::MAX {
        0
    } else {
        (n + 1) as usize
    }
}

/// A sum that begins anew behind the greatest number.
pub open spec fn wrapped_sum(a: u64, b: u64) -> u64 {
    if a + b > u64::MAX {
        (a + b - u64::MAX - 1) as u64
    } else {
        (a + b) as u64
    }
}

/// What an install did, with one more event.
pub open spec fn after_event(s: InstallStats, e: InstallEvent) -> InstallStats {
    match e {
        InstallEvent::Skipped => InstallStats { skipped: one_more(s.skipped), ..s },
        InstallEvent::Hit(l) => InstallStats {
            cache_hits: one_more(s.cache_hits),
            hardlinks: wrapped_sum(s.hardlinks, l.hardlinks),
            copies: wrapped_sum(s.copies, l.copies),
            ..s
        },
        InstallEvent::Archive(n) => InstallStats { bytes: wrapped_sum(s.bytes, n), ..s },
        InstallEvent::Downloaded(l) => InstallStats {
            downloaded: one_more(s.downloaded),
            hardlinks: wrapped_sum(s.hardlinks, l.hardlinks),
            copies: wrapped_sum(s.copies, l.copies),
            ..s
        },
        InstallEvent::Linked => InstallStats {
            cache_hits: one_more(s.cache_hits),
            hardlinks: wrapped_sum(s.hardlinks, 1),
            ..s
        },
        InstallEvent::Copied => InstallStats {
            downloaded: one_more(s.downloaded),
            copies: wrapped_sum(s.copies, 1),
            ..s
        },
        InstallEvent::Failed => InstallStats { failed: one_more(s.failed), ..s },
    }
}

fn next_usize(n: usize) -> (r: usize)
    ensures
        r == one_more(n),
{
    if n == usize::MAX {
        0
    } else {
        n + 1
    }
}

fn sum_u64(a: u64, b: u64) -> (r: u64)
    ensures
        r == wrapped_sum(a, b),
{
    if a > u64::MAX - b {
        a - (u64::MAX - b) - 1
    } else {
        a + b
    }
}

impl InstallStats {
    /// An install of that many packages.
    pub fn of(total: usize) -> (r: Self)
        ensures
            r == (InstallStats {
                total,
                cache_hits: 0,
                downloaded: 0,
                failed: 0,
                skipped: 0,
                bytes: 0,
                hardlinks: 0,
                copies: 0,
            }),
    {
        InstallStats {
            total,
            cache_hits: 0,
            downloaded: 0,
            failed: 0,
            skipped: 0,
            bytes: 0,
            hardlinks: 0,
            copies: 0,
        }
    }

    /// Counts an event.
    pub fn record(&mut self, e: InstallEvent)
        ensures
            *final(self) == after_event(*old(self), e),
    {
        match e {
            InstallEvent::Skipped => {
                self.skipped = next_usize(self.skipped);
            },
            InstallEvent::Hit(l) => {
                self.cache_hits = next_usize(self.cache_hits);
                self.hardlinks = sum_u64(self.hardlinks, l.hardlinks);
                self.copies = sum_u64(self.copies, l.copies);
            },
            InstallEvent::Archive(n) => {
                self.bytes = sum_u64(self.bytes, n);
            },
            InstallEvent::Downloaded(l) => {
                self.downloaded = next_usize(self.downloaded);
                self.hardlinks = sum_u64(self.hardlinks, l.hardlinks);
                self.copies = sum_u64(self.copies, l.copies);
            },
            InstallEvent::Linked => {
                self.cache_hits = next_usize(self.cache_hits);
                self.hardlinks = sum_u64(self.hardlinks, 1);
            },
            InstallEvent::Copied => {
                self.downloaded = next_usize(self.downloaded);
                self.copies = sum_u64(self.copies, 1);
            },
            InstallEvent::Failed => {
                self.failed = next_usize(self.failed);
            },
        }
    }

    /// What the install did so far.
    pub fn snapshot(&self) -> (r: StatsSnapshot)
        ensures
            r.total == self.total,
            r.cache_hits == self.cache_hits,
            r.downloaded == self.downloaded,
            r.failed == self.failed,
            r.skipped == self.skipped,
            r.bytes == self.bytes,
            r.hardlinks == self.hardlinks,
            r.copies == self.copies,
    {
        StatsSnapshot {
            total: self.total,
            cache_hits: self.cache_hits,
            downloaded: self.downloaded,
            failed: self.failed,
            skipped: self.skipped,
            bytes: self.bytes,
            hardlinks: self.hardlinks,
            copies: self.copies,
        }
    }
}

// ---------------------------------------------------------------------------
// What is installed, and where

/// How a package is installed.
#[derive(Debug, Clone)]
pub enum InstallPlan {
    /// From a local directory.
    Path(String),
    /// From its archive.
    Dist,
    /// From its sources.
    Vcs,
}

/// How a package is installed.
pub enum PlanView {
    Path(Seq<char>),
    Dist,
    Vcs,
    /// It has neither an archive nor sources that can be installed.
    Nothing,
}

/// Sources that are checked out.
pub open spec fn is_checkout(kind: Seq<char>) -> bool {
    kind == "git"@ || kind == "vcs"@
}

/// How a package is installed: from a local directory if it has one, else from
/// its archive or its sources, as it is preferred.
pub open spec fn plan_of(p: lock::LockedView, prefer_dist: bool) -> PlanView {
    match p.dist {
        Some(d) => if d.dist_type == "path"@ {
            PlanView::Path(d.url)
        } else if prefer_dist {
            PlanView::Dist
        } else {
            match p.source {
                Some(s) => if is_checkout(s.source_type) {
                    PlanView::Vcs
                } else {
                    PlanView::Dist
                },
                None => PlanView::Dist,
            }
        },
        None => match p.source {
            Some(s) => if s.source_type == "path"@ {
                PlanView::Path(s.url)
            } else if is_checkout(s.source_type) {
                PlanView::Vcs
            } else {
                PlanView::Nothing
            },
            None => PlanView::Nothing,
        },
    }
}

fn checked_out(kind: &str) -> (r: bool)
    ensures
        r == is_checkout(kind@),
{
    text::same(kind, "git") || text::same(kind, "vcs")
}

/// What is said of a package that cannot be installed.
pub open spec fn no_source_text(name: Seq<char>) -> Seq<char> {
    "package "@ + name + " has no dist URL and no installable source"@
}

/// How a package is installed.
pub fn install_plan(pkg: &LockedPackage, prefer_dist: bool) -> (r: Result<InstallPlan, Error>)
    ensures
        match plan_of(pkg@, prefer_dist) {
            PlanView::Path(u) => r matches Ok(InstallPlan::Path(t)) && t@ == u,
            PlanView::Dist => r matches Ok(InstallPlan::Dist),
            PlanView::Vcs => r matches Ok(InstallPlan::Vcs),
            PlanView::Nothing => r matches Err(Error::Other(t)) && t@ == no_source_text(pkg@.name),
        },
{
    match &pkg.dist {
        Some(d) => {
            if text::same(d.dist_type.as_str(), "path") {
                return Ok(InstallPlan::Path(String::from_str(d.url.as_str())));
            }
            if !prefer_dist {
                if let Some(s) = &pkg.source {
                    if checked_out(s.source_type.as_str()) {
                        return Ok(InstallPlan::Vcs);
                    }
                }
            }
            Ok(InstallPlan::Dist)
        },
        None => {
            if let Some(s) = &pkg.source {
                if text::same(s.source_type.as_str(), "path") {
                    return Ok(InstallPlan::Path(String::from_str(s.url.as_str())));
                }
                if checked_out(s.source_type.as_str()) {
                    return Ok(InstallPlan::Vcs);
                }
            }
            Err(
                Error::Other(
                    text::cat3(
                        "package ",
                        pkg.name.as_str(),
                        " has no dist URL and no installable source",
                    ),
                ),
            )
        },
    }
}

/// Every package with something to install has a plan, or sources of a kind that
/// is not known.
pub proof fn law_plan_or_strange_source(p: lock::LockedView, prefer_dist: bool)
    ensures
        plan_of(p, prefer_dist) is Nothing <==> (p.dist is None && (p.source matches Some(s) ==> !(
        s.source_type == "path"@ || is_checkout(s.source_type)))),
{
}

/// Where a package is installed, if its name is one.
pub fn package_dest(
    pkg: &LockedPackage,
    vendor_dir: &str,
    project_root: &str,
    installer_paths: &InstallerPaths,
) -> (r: Result<String, Error>)
    ensures
        match installer_paths::template_for(installer_paths@, pkg@.name, pkg@.package_type) {
            Some(t) => r is Ok && r->Ok_0@ == paths::joined_path(
                project_root@,
                installer_paths::filled(t, pkg@.name),
            ),
            None => if package::is_package_name(pkg@.name) {
                r is Ok && r->Ok_0@ == paths::joined_path(vendor_dir@, text::trimmed(pkg@.name))
            } else {
                r matches Err(Error::InvalidPackageName(t)) && t@ == text::trimmed(pkg@.name)
            },
        },
{
    let kind = match &pkg.package_type {
        Some(t) => Some(t.as_str()),
        None => None,
    };
    match installer_paths.resolve(project_root, pkg.name.as_str(), kind) {
        Some(p) => Ok(p),
        None => {
            let id = pkg.package_id()?;
            let rel = id.install_path();
            Ok(paths::join_path(vendor_dir, rel.as_str()))
        },
    }
}

/// What is said of a local package whose directory is missing.
pub fn missing_path(package: &str, source: &str) -> (r: Error)
    ensures
        r matches Error::Other(t) && t@ == "path package "@ + package@ + " source missing: "@
            + source@,
{
    let head = text::cat3("path package ", package, " source missing: ");
    Error::Other(text::cat(head.as_str(), source))
}

/// The reference of the archive, or else of the sources.
pub open spec fn reference_of(p: lock::LockedView) -> Option<Seq<char>> {
    match p.dist {
        Some(d) if d.reference is Some => d.reference,
        _ => match p.source {
            Some(s) => s.reference,
            None => None,
        },
    }
}

/// What marks a directory as that of an installed package.
pub open spec fn marker_members(p: lock::LockedView) -> Seq<(Seq<char>, json::JsonView)> {
    seq![
        ("name"@, json::JsonView::Str(p.name)),
        ("version"@, json::JsonView::Str(p.version)),
        ("cache_key"@, json::JsonView::Str(lock::cache_key_of(p))),
        (
            "reference"@,
            match reference_of(p) {
                Some(t) => json::JsonView::Str(t),
                None => json::JsonView::Null,
            },
        ),
    ]
}

/// What marks a directory as that of an installed package.
pub fn install_marker(pkg: &LockedPackage) -> (r: Json)
    ensures
        json::json_view(r) == json::JsonView::Object(marker_members(pkg@)),
{
    let mut found: Option<&str> = None;
    if let Some(d) = &pkg.dist {
        if let Some(t) = &d.reference {
            found = Some(t.as_str());
        }
    }
    if found.is_none() {
        if let Some(s) = &pkg.source {
            if let Some(t) = &s.reference {
                found = Some(t.as_str());
            }
        }
    }
    let reference = match found {
        Some(t) => Json::Str(String::from_str(t)),
        None => Json::Null,
    };
    let mut m: Vec<(String, Json)> = Vec::new();
    m.push((String::from_str("name"), Json::Str(String::from_str(pkg.name.as_str()))));
    m.push((String::from_str("version"), Json::Str(String::from_str(pkg.version.as_str()))));
    m.push((String::from_str("cache_key"), Json::Str(pkg.cache_key())));
    m.push((String::from_str("reference"), reference));
    proof {
        json::lemma_object_view(m);
        assert(json::members(m@) =~= marker_members(pkg@));
    }
    Json::Object(m)
}

/// What is said when packages could not be installed.
pub open spec fn failures_text(texts: Seq<Seq<char>>) -> Seq<char> {
    text::decimal(texts.len()) + " package(s) failed to install:\n"@ + text::joined(texts, "\n"@)
}

/// The texts of errors.
pub open spec fn error_texts(v: Seq<Error>) -> Seq<Seq<char>> {
    Seq::new(v.len(), |i: int| error::error_text(v[i]))
}

/// Whether all packages could be installed.
pub fn install_outcome(errors: &Vec<Error>) -> (r: Result<(), Error>)
    ensures
        if errors@.len() == 0 {
            r is Ok
        } else {
            r matches Err(Error::Other(t)) && t@ == failures_text(error_texts(errors@))
        },
{
    let n: usize = errors.len();
    if n == 0 {
        return Ok(());
    }
    let mut texts: Vec<String> = Vec::new();
    let mut i: usize = 0;
    while i < n
        invariant
            i <= n,
            n == errors@.len(),
            texts@.len() == i,
            forall|j: int| 0 <= j < i ==> (#[trigger] texts@[j])@ == error::error_text(errors@[j]),
        decreases n - i,
    {
        texts.push(errors[i].to_text());
        i += 1;
    }
    assert(text::texts(texts@) =~= error_texts(errors@));
    let body = text::join(&texts, "\n");
    let count = text::usize_text(n);
    Err(
        Error::Other(
            text::cat3(count.as_str(), " package(s) failed to install:\n", body.as_str()),
        ),
    )
}

/// The names of a directory besides itself and the one above it.
pub open spec fn inner(entries: Seq<(String, bool)>) -> Seq<(String, bool)> {
    entries.filter(|e: (String, bool)| e.0@ != "."@ && e.0@ != ".."@)
}

/// The directory that alone fills another one: the root of most archives.
pub fn single_root(entries: &Vec<(String, bool)>) -> (r: Option<&str>)
    ensures
        text::opt_view(r) == if inner(entries@).len() == 1 && inner(entries@)[0].1 {
            Some(inner(entries@)[0].0@)
        } else {
            None
        },
{
    let n: usize = entries.len();
    let mut i: usize = 0;
    let mut count: usize = 0;
    let mut at: usize = 0;
    let ghost f = |e: (String, bool)| e.0@ != "."@ && e.0@ != ".."@;
    while i < n
        invariant
            i <= n,
            n == entries@.len(),
            count <= i,
            f == (|e: (String, bool)| e.0@ != "."@ && e.0@ != ".."@),
            count == entries@.take(i as int).filter(f).len(),
            count > 0 ==> at < n && entries@.take(i as int).filter(f).last() == entries@[at as int],
        decreases n - i,
    {
        proof {
            reveal(Seq::filter);
            assert(entries@.take(i + 1).drop_last() =~= entries@.take(i as int));
            assert(entries@.take(i + 1).last() == entries@[i as int]);
        }
        if !text::same(entries[i].0.as_str(), ".") && !text::same(entries[i].0.as_str(), "..") {
            count += 1;
            at = i;
        }
        i += 1;
    }
    assert(entries@.take(n as int) =~= entries@);
    if count == 1 && entries[at].1 {
        Some(entries[at].0.as_str())
    } else {
        None
    }
}

// ---------------------------------------------------------------------------
// Addresses

/// The address that a mirror gives.
pub open spec fn mirror_url(m: json::JsonView) -> Option<Seq<char>> {
    match m {
        json::JsonView::Str(u) => Some(u),
        _ => json::text_at(m, "url"@),
    }
}

/// Addresses with those of mirrors behind them, none twice.
pub open spec fn with_mirrors(urls: Seq<Seq<char>>, mirrors: Seq<json::JsonView>) -> Seq<Seq<char>>
    decreases mirrors.len(),
{
    if mirrors.len() == 0 {
        urls
    } else {
        let rest = with_mirrors(urls, mirrors.drop_last());
        match mirror_url(mirrors.last()) {
            Some(u) => if rest.contains(u) {
                rest
            } else {
                rest.push(u)
            },
            None => rest,
        }
    }
}

/// The addresses of the archive of a package, in the order in which they are
/// tried.
pub open spec fn urls_of(p: lock::LockedView) -> Seq<Seq<char>> {
    match p.dist {
        Some(d) => with_mirrors(
            seq![d.url],
            match d.mirrors {
                Some(m) => m,
                None => Seq::empty(),
            },
        ),
        None => Seq::empty(),
    }
}

/// The addresses of the archive of a package: the own one, then the mirrors.
pub fn dist_urls(pkg: &LockedPackage) -> (r: Vec<String>)
    ensures
        text::texts(r@) == urls_of(pkg@),
{
    let mut urls: Vec<String> = Vec::new();
    match &pkg.dist {
        None => {
            assert(text::texts(urls@) =~= Seq::empty());
        },
        Some(d) => {
            urls.push(String::from_str(d.url.as_str()));
            assert(text::texts(urls@) =~= seq![d@.url]);
            if let Some(mirrors) = &d.mirrors {
                let ghost all = json::elements(mirrors@);
                let n: usize = mirrors.len();
                let mut i: usize = 0;
                assert(all.take(0) =~= Seq::empty());
                while i < n
                    invariant
                        i <= n,
                        n == mirrors@.len(),
                        all == json::elements(mirrors@),
                        text::texts(urls@) == with_mirrors(seq![d@.url], all.take(i as int)),
                    decreases n - i,
                {
                    let m = &mirrors[i];
                    proof {
                        assert(all.take(i + 1).drop_last() =~= all.take(i as int));
                        assert(all.take(i + 1).last() == json::json_view(*m));
                    }
                    let found: Option<&str> = match m.as_str() {
                        Some(u) => Some(u),
                        None => json::get_str(m, "url"),
                    };
                    if let Some(u) = found {
                        if !collections::contains_text(&urls, u) {
                            let ghost before = text::texts(urls@);
                            urls.push(String::from_str(u));
                            assert(text::texts(urls@) =~= before.push(u@));
                        }
                    }
                    i += 1;
                }
                assert(all.take(n as int) =~= all);
            }
        },
    }
    urls
}

proof fn lemma_mirrors(urls: Seq<Seq<char>>, mirrors: Seq<json::JsonView>)
    requires
        urls.len() > 0,
        urls.no_duplicates(),
    ensures
        with_mirrors(urls, mirrors).no_duplicates(),
        with_mirrors(urls, mirrors).len() >= urls.len(),
        with_mirrors(urls, mirrors)[0] == urls[0],
        forall|i: int|
            #![trigger mirrors[i]]
            0 <= i < mirrors.len() && mirror_url(mirrors[i]) is Some ==> with_mirrors(
                urls,
                mirrors,
            ).contains(mirror_url(mirrors[i])->0),
    decreases mirrors.len(),
{
    if mirrors.len() > 0 {
        let less = mirrors.drop_last();
        lemma_mirrors(urls, less);
        let rest = with_mirrors(urls, less);
        let all = with_mirrors(urls, mirrors);
        assert forall|x: Seq<char>| rest.contains(x) implies all.contains(x) by {
            let k = choose|k: int| 0 <= k < rest.len() && rest[k] == x;
            assert(all[k] == x);
        }
        assert forall|i: int|
            #![trigger mirrors[i]]
            0 <= i < mirrors.len() && mirror_url(mirrors[i]) is Some implies all.contains(
            mirror_url(mirrors[i])->0,
        ) by {
            if i < less.len() {
                assert(less[i] == mirrors[i]);
            } else {
                let u = mirror_url(mirrors[i])->0;
                if !rest.contains(u) {
                    assert(all[rest.len() as int] == u);
                }
            }
        }
    }
}

/// The own address of an archive is tried first, every mirror is tried, and no
/// address is tried twice.
pub proof fn law_every_address_is_tried_once(p: lock::LockedView)
    requires
        p.dist is Some,
    ensures
        urls_of(p).len() > 0,
        urls_of(p)[0] == p.dist->0.url,
        urls_of(p).no_duplicates(),
        p.dist->0.mirrors matches Some(m) ==> forall|i: int|
            #![trigger m[i]]
            0 <= i < m.len() && mirror_url(m[i]) is Some ==> urls_of(p).contains(
                mirror_url(m[i])->0,
            ),
{
    let d = p.dist->0;
    let m = match d.mirrors {
        Some(m) => m,
        None => Seq::empty(),
    };
    lemma_mirrors(seq![d.url], m);
}

/// What is said of a package without an address.
pub fn no_address(package: &str) -> (r: Error)
    ensures
        r matches Error::Other(t) && t@ == "package "@ + package@ + " has no dist URL"@,
{
    Error::Other(text::cat3("package ", package, " has no dist URL"))
}

/// The extension that the address of an archive tells.
pub open spec fn extension_of(url: Seq<char>) -> Seq<char> {
    let p = text::pieces(text::lower(url), "?"@)[0];
    if text::ends(p, ".tar.gz"@) || text::ends(p, ".tgz"@) {
        "tar.gz"@
    } else if text::ends(p, ".tar.bz2"@) {
        "tar.bz2"@
    } else if text::ends(p, ".tar.xz"@) {
        "tar.xz"@
    } else if text::ends(p, ".tar"@) {
        "tar"@
    } else {
        "zip"@
    }
}

/// The extension that the address of an archive tells.
pub fn guess_extension(url: &str) -> (r: &'static str)
    ensures
        r@ == extension_of(url@),
{
    let lower = text::to_ascii_lowercase(url);
    proof {
        reveal_strlit("?");
    }
    let parts = text::split(lower.as_str(), "?");
    assert(text::views(parts@).len() > 0);
    let p = parts[0];
    assert(p@ == text::views(parts@)[0]);
    if text::ends_with(p, ".tar.gz") || text::ends_with(p, ".tgz") {
        "tar.gz"
    } else if text::ends_with(p, ".tar.bz2") {
        "tar.bz2"
    } else if text::ends_with(p, ".tar.xz") {
        "tar.xz"
    } else if text::ends_with(p, ".tar") {
        "tar"
    } else {
        "zip"
    }
}

/// The hash of an address.
pub open spec fn hash_of_url(url: Seq<char>) -> Seq<char> {
    hash::blake3_text(vstd::utf8::encode_utf8(url))
}

/// The file of an archive.
pub open spec fn archive_of(dir: Seq<char>, url: Seq<char>) -> Seq<char> {
    paths::joined_path(dir, hash_of_url(url) + "."@ + extension_of(url))
}

/// The file of an archive.
pub fn archive_file(dir: &str, url: &str) -> (r: String)
    ensures
        r@ == archive_of(dir@, url@),
{
    let h = hash::hash_text(url);
    let name = text::cat3(h.as_str(), ".", guess_extension(url));
    paths::join_path(dir, name.as_str())
}

/// The name of an archive without its last extension.
pub open spec fn archive_stem(url: Seq<char>) -> Seq<char> {
    if extension_of(url) == "zip"@ || extension_of(url) == "tar"@ {
        hash_of_url(url)
    } else {
        hash_of_url(url) + ".tar"@
    }
}

/// The file of an archive that is not complete yet.
pub open spec fn partial_of(dir: Seq<char>, url: Seq<char>) -> Seq<char> {
    paths::joined_path(dir, archive_stem(url) + "."@ + extension_of(url) + ".partial"@)
}

/// The file of an archive that is not complete yet.
pub fn partial_file(dir: &str, url: &str) -> (r: String)
    ensures
        r@ == partial_of(dir@, url@),
{
    let h = hash::hash_text(url);
    let ext = guess_extension(url);
    let stem = if text::same(ext, "zip") || text::same(ext, "tar") {
        String::from_str(h.as_str())
    } else {
        text::cat(h.as_str(), ".tar")
    };
    let head = text::cat3(stem.as_str(), ".", ext);
    let name = text::cat(head.as_str(), ".partial");
    paths::join_path(dir, name.as_str())
}

/// How many milliseconds to wait after an attempt to download failed; `None`
/// after the last one.
pub open spec fn delay_after(attempt: u32) -> Option<u64> {
    if attempt == 1 {
        Some(200)
    } else if attempt == 2 {
        Some(400)
    } else if attempt == 3 {
        Some(800)
    } else {
        None
    }
}

/// How many milliseconds to wait after an attempt to download failed. Attempts
/// are counted from one.
pub fn retry_delay(attempt: u32) -> (r: Option<u64>)
    requires
        attempt >= 1,
    ensures
        r == delay_after(attempt),
{
    if attempt == 1 {
        Some(200)
    } else if attempt == 2 {
        Some(400)
    } else if attempt == 3 {
        Some(800)
    } else {
        None
    }
}

/// What is done next to install a package from its archive.
#[derive(Debug)]
pub enum DistAction {
    /// The package is linked from the cache.
    LinkFromCache,
    /// The archive is downloaded.
    Download(String),
    /// The archive is checked, unpacked and stored, and the package linked.
    Unpack,
    /// The package cannot be installed.
    Fail(Error),
}

/// How far the install of a package from its archive is.
#[derive(Debug)]
pub struct DistInstall {
    /// The addresses of the archive.
    pub urls: Vec<String>,
    /// How many of them were tried.
    pub tried: usize,
}

impl DistInstall {
    /// Begins to install a package: from the cache if it is there, else from its
    /// first address.
    pub fn begin(pkg: &LockedPackage, cached: bool) -> (r: (Self, DistAction))
        ensures
            text::texts(r.0.urls@) == urls_of(pkg@),
            if cached {
                r.0.tried == 0 && r.1 is LinkFromCache
            } else if urls_of(pkg@).len() > 0 {
                r.0.tried == 1 && (r.1 matches DistAction::Download(u) && u@ == urls_of(pkg@)[0])
            } else {
                r.0.tried == 0 && (r.1 matches DistAction::Fail(Error::Other(t)) && t@
                    == "package "@ + pkg@.name + " has no dist URL"@)
            },
    {
        let urls = dist_urls(pkg);
        assert(text::texts(urls@).len() == urls@.len());
        if cached {
            return (DistInstall { urls, tried: 0 }, DistAction::LinkFromCache);
        }
        if urls.len() == 0 {
            return (
                DistInstall { urls, tried: 0 },
                DistAction::Fail(no_address(pkg.name.as_str())),
            );
        }
        let first = String::from_str(urls[0].as_str());
        assert(text::texts(urls@)[0] == first@);
        (DistInstall { urls, tried: 1 }, DistAction::Download(first))
    }

    /// Goes on after a download: with the archive if it is there, else with the
    /// next address. The last failure is the error.
    pub fn after_download(&mut self, failure: Option<Error>) -> (r: DistAction)
        requires
            old(self).tried >= 1,
        ensures
            final(self).urls@ == old(self).urls@,
            match failure {
                None => final(self).tried == old(self).tried && r is Unpack,
                Some(e) => if old(self).tried < old(self).urls@.len() {
                    final(self).tried == old(self).tried + 1 && (r matches DistAction::Download(u)
                        && u@ == old(self).urls@[old(self).tried as int]@)
                } else {
                    final(self).tried == old(self).tried && r == DistAction::Fail(e)
                },
            },
    {
        match failure {
            None => DistAction::Unpack,
            Some(e) => {
                if self.tried < self.urls.len() {
                    let next = String::from_str(self.urls[self.tried].as_str());
                    self.tried = self.tried + 1;
                    DistAction::Download(next)
                } else {
                    DistAction::Fail(e)
                }
            },
        }
    }
}

/// What is said of an answer that is no success.
pub fn refused_download(url: &str, status: &str) -> (r: Error)
    ensures
        r matches Error::Download { url: u, message } && u@ == url@ && message@ == "HTTP "@
            + status@,
{
    Error::Download { url: String::from_str(url), message: text::cat("HTTP ", status) }
}

// ---------------------------------------------------------------------------
// Checksums

/// The SHA-1 digest of some bytes.
pub uninterp spec fn sha1_digest(data: Seq<u8>) -> Seq<u8>;

/// The SHA-256 digest of some bytes.
pub uninterp spec fn sha256_digest(data: Seq<u8>) -> Seq<u8>;

/// A lower case hexadecimal digit.
pub open spec fn hex_digit(n: int) -> char {
    if n < 10 {
        ('0' as int + n) as char
    } else {
        ('a' as int + n - 10) as char
    }
}

/// Bytes in lower case hexadecimal digits, two for each.
pub open spec fn hex_text(data: Seq<u8>) -> Seq<char> {
    Seq::new(
        2 * data.len(),
        |i: int|
            if i % 2 == 0 {
                hex_digit(data[i / 2] as int / 16)
            } else {
                hex_digit(data[i / 2] as int % 16)
            },
    )
}

/// `sha1::Sha1::digest`: the 20 bytes of the SHA-1 digest of the data.
#[verifier::external_body]
fn sha1_of(data: &[u8]) -> (r: Vec<u8>)
    ensures
        r@ == sha1_digest(data@),
        r@.len() == 20,
{
    <sha1::Sha1 as sha1::Digest>::digest(data).to_vec()
}

/// `sha2::Sha256::digest`: the 32 bytes of the SHA-256 digest of the data.
#[verifier::external_body]
fn sha256_of(data: &[u8]) -> (r: Vec<u8>)
    ensures
        r@ == sha256_digest(data@),
        r@.len() == 32,
{
    <sha2::Sha256 as sha2::Digest>::digest(data).to_vec()
}

/// `hex::encode`: each byte as two lower case hexadecimal digits, the high half
/// first.
#[verifier::external_body]
fn encode_hex(data: &Vec<u8>) -> (r: String)
    ensures
        r@ == hex_text(data@),
{
    hex::encode(data)
}

/// Compares a checksum with the one that was told, whatever the case of its
/// digits.
pub fn check_digest(digest: &Vec<u8>, expected: &str, package: &str) -> (r: Result<(), Error>)
    ensures
        if text::lower(hex_text(digest@)) == text::lower(expected@) {
            r is Ok
        } else {
            r matches Err(Error::ChecksumMismatch { package: p, expected: e, actual: a }) && p@
                == package@ && e@ == expected@ && a@ == hex_text(digest@)
        },
{
    let actual = encode_hex(digest);
    let a = text::to_ascii_lowercase(actual.as_str());
    let b = text::to_ascii_lowercase(expected);
    if text::same(a.as_str(), b.as_str()) {
        Ok(())
    } else {
        Err(
            Error::ChecksumMismatch {
                package: String::from_str(package),
                expected: String::from_str(expected),
                actual,
            },
        )
    }
}

/// Checks the SHA-1 checksum of the archive of a package.
pub fn verify_sha1(data: &[u8], expected: &str, package: &str) -> (r: Result<(), Error>)
    ensures
        if text::lower(hex_text(sha1_digest(data@))) == text::lower(expected@) {
            r is Ok
        } else {
            r matches Err(Error::ChecksumMismatch { package: p, expected: e, actual: a }) && p@
                == package@ && e@ == expected@ && a@ == hex_text(sha1_digest(data@))
        },
{
    check_digest(&sha1_of(data), expected, package)
}

/// Checks the SHA-256 checksum of the archive of a package.
pub fn verify_sha256(data: &[u8], expected: &str, package: &str) -> (r: Result<(), Error>)
    ensures
        if text::lower(hex_text(sha256_digest(data@))) == text::lower(expected@) {
            r is Ok
        } else {
            r matches Err(Error::ChecksumMismatch { package: p, expected: e, actual: a }) && p@
                == package@ && e@ == expected@ && a@ == hex_text(sha256_digest(data@))
        },
{
    check_digest(&sha256_of(data), expected, package)
}

/// The checksum that the archive of a package must have.
pub open spec fn told_checksum(p: lock::LockedView, verify: bool) -> Option<Seq<char>> {
    match p.dist {
        Some(d) => match d.shasum {
            Some(s) => if verify && s.len() > 0 {
                Some(s)
            } else {
                None
            },
            None => None,
        },
        None => None,
    }
}

/// The checksum that the archive of a package must have.
pub fn expected_checksum(pkg: &LockedPackage, verify: bool) -> (r: Option<&str>)
    ensures
        text::opt_view(r) == told_checksum(pkg@, verify),
{
    if !verify {
        return None;
    }
    let d = match &pkg.dist {
        Some(d) => d,
        None => return None,
    };
    match &d.shasum {
        Some(s) => if s.as_str().unicode_len() > 0 {
            Some(s.as_str())
        } else {
            None
        },
        None => None,
    }
}

/// Checks the archive of a package against the checksum that it must have.
pub fn verify_archive(pkg: &LockedPackage, data: &[u8], verify: bool) -> (r: Result<(), Error>)
    ensures
        match told_checksum(pkg@, verify) {
            None => r is Ok,
            Some(s) => if text::lower(hex_text(sha1_digest(data@))) == text::lower(s) {
                r is Ok
            } else {
                r matches Err(Error::ChecksumMismatch { package: p, expected: e, actual: a }) && p@
                    == pkg@.name && e@ == s && a@ == hex_text(sha1_digest(data@))
            },
        },
{
    match expected_checksum(pkg, verify) {
        Some(s) => verify_sha1(data, s, pkg.name.as_str()),
        None => Ok(()),
    }
}

// ---------------------------------------------------------------------------
// Checkouts

/// A hexadecimal digit.
pub open spec fn is_hex(c: char) -> bool {
    ('0' <= c <= '9') || ('a' <= c <= 'f') || ('A' <= c <= 'F')
}

/// A text of hexadecimal digits.
pub open spec fn all_hex(s: Seq<char>) -> bool {
    forall|i: int| 0 <= i < s.len() ==> is_hex(#[trigger] s[i])
}

/// A reference that can be the name of a branch or a tag, not that of a commit.
pub open spec fn names_branch(reference: Seq<char>) -> bool {
    let r = text::trimmed(reference);
    r.len() > 0 && !(7 <= r.len() <= 40 && all_hex(r))
}

fn only_hex(s: &str) -> (r: bool)
    ensures
        r == all_hex(s@),
{
    let n: usize = s.unicode_len();
    let mut i: usize = 0;
    while i < n
        invariant
            i <= n,
            n == s@.len(),
            forall|j: int| 0 <= j < i ==> is_hex(#[trigger] s@[j]),
        decreases n - i,
    {
        let c = s.get_char(i);
        if !(('0' <= c && c <= '9') || ('a' <= c && c <= 'f') || ('A' <= c && c <= 'F')) {
            assert(!is_hex(s@[i as int]));
            return false;
        }
        i += 1;
    }
    true
}

/// Whether a reference can be the name of a branch or a tag.
pub fn is_git_branch_or_tag(reference: &str) -> (r: bool)
    ensures
        r == names_branch(reference@),
{
    let r = text::trim(reference);
    let n: usize = r.unicode_len();
    if n == 0 {
        return false;
    }
    if 7 <= n && n <= 40 && only_hex(r) {
        return false;
    }
    true
}

/// The directory of a checkout in the cache.
pub open spec fn vcs_dir(cache_root: Seq<char>, url: Seq<char>, reference: Option<Seq<char>>) -> Seq<
    char,
> {
    let key = "vcs:"@ + url + "@"@ + match reference {
        Some(t) => t,
        None => "HEAD"@,
    };
    paths::joined_path(
        paths::joined_path(cache_root, "vcs"@),
        hash::blake3_text(vstd::utf8::encode_utf8(key)),
    )
}

/// The directory of a checkout in the cache.
pub fn vcs_cache_dir(cache_root: &str, url: &str, reference: Option<&str>) -> (r: String)
    ensures
        r@ == vcs_dir(cache_root@, url@, text::opt_view(reference)),
{
    let name = match reference {
        Some(t) => t,
        None => "HEAD",
    };
    let head = text::cat3("vcs:", url, "@");
    let key = text::cat(head.as_str(), name);
    let h = hash::hash_text(key.as_str());
    let dir = paths::join_path(cache_root, "vcs");
    paths::join_path(dir.as_str(), h.as_str())
}

/// A call of `git`.
#[derive(Debug, Clone, PartialEq, Eq)]
pub enum GitStep {
    Clone,
    /// The reference is checked out.
    Checkout(String),
    /// The reference is fetched, as the clone does not hold it.
    Fetch(String),
    /// What was fetched is checked out.
    CheckoutFetched(String),
}

/// The arguments of a call of `git`.
pub open spec fn git_args(
    step: GitStep,
    url: Seq<char>,
    reference: Option<Seq<char>>,
    dir: Seq<char>,
) -> Seq<Seq<char>> {
    match step {
        GitStep::Clone => match reference {
            Some(t) if names_branch(t) => seq![
                "clone"@,
                "--depth"@,
                "1"@,
                "--branch"@,
                t,
                url,
                dir,
            ],
            _ => seq!["clone"@, "--depth"@, "1"@, url, dir],
        },
        GitStep::Checkout(t) => seq!["-C"@, dir, "checkout"@, t@],
        GitStep::Fetch(t) => seq!["-C"@, dir, "fetch"@, "--depth"@, "1"@, "origin"@, t@],
        GitStep::CheckoutFetched(_) => seq!["-C"@, dir, "checkout"@, "FETCH_HEAD"@],
    }
}

fn arguments(a: &Vec<&str>) -> (r: Vec<String>)
    ensures
        text::texts(r@) == text::views(a@),
{
    let mut out: Vec<String> = Vec::new();
    let n: usize = a.len();
    let mut i: usize = 0;
    while i < n
        invariant
            i <= n,
            n == a@.len(),
            out@.len() == i,
            forall|j: int| 0 <= j < i ==> (#[trigger] out@[j])@ == a@[j]@,
        decreases n - i,
    {
        out.push(String::from_str(a[i]));
        i += 1;
    }
    assert(text::texts(out@) =~= text::views(a@));
    out
}

/// The arguments of a call of `git`.
pub fn git_arguments(step: &GitStep, url: &str, reference: Option<&str>, dir: &str) -> (r: Vec<
    String,
>)
    ensures
        text::texts(r@) == git_args(*step, url@, text::opt_view(reference), dir@),
{
    let mut a: Vec<&str> = Vec::new();
    match step {
        GitStep::Clone => {
            a.push("clone");
            a.push("--depth");
            a.push("1");
            if let Some(t) = reference {
                if is_git_branch_or_tag(t) {
                    a.push("--branch");
                    a.push(t);
                }
            }
            a.push(url);
            a.push(dir);
        },
        GitStep::Checkout(t) => {
            a.push("-C");
            a.push(dir);
            a.push("checkout");
            a.push(t.as_str());
        },
        GitStep::Fetch(t) => {
            a.push("-C");
            a.push(dir);
            a.push("fetch");
            a.push("--depth");
            a.push("1");
            a.push("origin");
            a.push(t.as_str());
        },
        GitStep::CheckoutFetched(_) => {
            a.push("-C");
            a.push(dir);
            a.push("checkout");
            a.push("FETCH_HEAD");
        },
    }
    assert(text::views(a@) =~= git_args(*step, url@, text::opt_view(reference), dir@));
    arguments(&a)
}

/// What follows on a call of `git`: another one, nothing, or an error.
pub enum GitNext {
    Done,
    Checkout(Seq<char>),
    Fetch(Seq<char>),
    CheckoutFetched(Seq<char>),
    Fault(Seq<char>),
}

/// What follows on a call of `git`.
pub open spec fn git_next(
    step: GitStep,
    success: bool,
    url: Seq<char>,
    reference: Option<Seq<char>>,
) -> GitNext {
    match step {
        GitStep::Clone => if !success {
            GitNext::Fault("git clone failed for "@ + url)
        } else {
            match reference {
                Some(t) => GitNext::Checkout(t),
                None => GitNext::Done,
            }
        },
        GitStep::Checkout(t) => if success {
            GitNext::Done
        } else {
            GitNext::Fetch(t@)
        },
        GitStep::Fetch(t) => if success {
            GitNext::CheckoutFetched(t@)
        } else {
            GitNext::Fault("git fetch "@ + t@ + " failed for "@ + url)
        },
        GitStep::CheckoutFetched(t) => if success {
            GitNext::Done
        } else {
            GitNext::Fault("git checkout "@ + t@ + " failed for "@ + url)
        },
    }
}

/// The next call of `git`, if there is one.
pub fn next_git_step(step: &GitStep, success: bool, url: &str, reference: Option<&str>) -> (r: Result<
    Option<GitStep>,
    Error,
>)
    ensures
        match git_next(*step, success, url@, text::opt_view(reference)) {
            GitNext::Done => r matches Ok(None),
            GitNext::Checkout(t) => r matches Ok(Some(GitStep::Checkout(x))) && x@ == t,
            GitNext::Fetch(t) => r matches Ok(Some(GitStep::Fetch(x))) && x@ == t,
            GitNext::CheckoutFetched(t) => r matches Ok(Some(GitStep::CheckoutFetched(x))) && x@
                == t,
            GitNext::Fault(m) => r matches Err(Error::Other(t)) && t@ == m,
        },
{
    match step {
        GitStep::Clone => {
            if !success {
                return Err(Error::Other(text::cat("git clone failed for ", url)));
            }
            match reference {
                Some(t) => Ok(Some(GitStep::Checkout(String::from_str(t)))),
                None => Ok(None),
            }
        },
        GitStep::Checkout(t) => {
            if success {
                Ok(None)
            } else {
                Ok(Some(GitStep::Fetch(String::from_str(t.as_str()))))
            }
        },
        GitStep::Fetch(t) => {
            if success {
                Ok(Some(GitStep::CheckoutFetched(String::from_str(t.as_str()))))
            } else {
                let head = text::cat3("git fetch ", t.as_str(), " failed for ");
                Err(Error::Other(text::cat(head.as_str(), url)))
            }
        },
        GitStep::CheckoutFetched(t) => {
            if success {
                Ok(None)
            } else {
                let head = text::cat3("git checkout ", t.as_str(), " failed for ");
                Err(Error::Other(text::cat(head.as_str(), url)))
            }
        },
    }
}

// ---------------------------------------------------------------------------
// Binaries

/// What came of linking the binaries of packages.
#[derive(Debug)]
pub struct BinInstallResult {
    /// The number of binaries.
    pub linked: usize,
    /// What is said of binaries that several packages provide.
    pub conflicts: Vec<String>,
}

/// The name under which a binary is linked.
pub open spec fn bin_link_name(path: Seq<char>) -> Seq<char> {
    match paths::file_name_of(path) {
        Some(n) => n,
        None => path,
    }
}

/// The name under which a binary is linked.
pub fn bin_name(path: &str) -> (r: String)
    ensures
        r@ == bin_link_name(path@),
{
    match paths::file_name(path) {
        Some(n) => n,
        None => String::from_str(path),
    }
}

/// Whether a package has binaries to link.
pub fn has_bins(pkg: &LockedPackage) -> (r: bool)
    ensures
        r == (pkg@.bin.len() > 0 && !lock::has_nothing(pkg@)),
{
    pkg.bin.len() > 0 && !pkg.is_metapackage()
}

/// The binaries that were linked, with the packages that own them.
#[derive(Debug)]
pub struct BinLinks {
    pub owners: StrMap<String>,
    pub result: BinInstallResult,
}

/// The binaries that were linked.
#[verifier::ext_equal]
pub struct BinView {
    pub owners: Seq<(Seq<char>, Seq<char>)>,
    pub linked: int,
    pub conflicts: Seq<Seq<char>>,
}

impl View for BinLinks {
    type V = BinView;

    open spec fn view(&self) -> BinView {
        BinView {
            owners: collections::link_pairs(self.owners),
            linked: self.result.linked as int,
            conflicts: text::texts(self.result.conflicts@),
        }
    }
}

/// What is said of a binary that two packages provide.
pub open spec fn conflict_text(name: Seq<char>, before: Seq<char>, package: Seq<char>) -> Seq<char> {
    "binary `"@ + name + "` conflict: was provided by "@ + before + ", overwritten by "@ + package
}

/// The binaries after one more was linked.
pub open spec fn with_bin(b: BinView, name: Seq<char>, package: Seq<char>) -> BinView {
    BinView {
        owners: collections::inserted(b.owners, name, package),
        linked: b.linked + 1,
        conflicts: match collections::lookup(b.owners, name) {
            Some(before) if before != package => b.conflicts.push(
                conflict_text(name, before, package),
            ),
            _ => b.conflicts,
        },
    }
}

impl BinLinks {
    /// No binaries.
    pub fn start() -> (r: Self)
        ensures
            r@ == (BinView { owners: Seq::empty(), linked: 0, conflicts: Seq::empty() }),
    {
        let r = BinLinks {
            owners: StrMap::new(),
            result: BinInstallResult { linked: 0, conflicts: Vec::new() },
        };
        assert(r@ =~= (BinView { owners: Seq::empty(), linked: 0, conflicts: Seq::empty() }));
        r
    }

    /// Records that a binary of a package was linked. The package that comes last
    /// owns it.
    pub fn link(&mut self, name: &str, package: &str)
        requires
            old(self)@.linked < usize::MAX,
        ensures
            final(self)@ == with_bin(old(self)@, name@, package@),
    {
        let ghost before_all = *self;
        proof {
            collections::lemma_link_lookup(self.owners, name@);
        }
        if let Some(before) = self.owners.get(name) {
            if !text::same(before.as_str(), package) {
                let head = text::cat3("binary `", name, "` conflict: was provided by ");
                let tail = text::cat3(before.as_str(), ", overwritten by ", package);
                let msg = text::cat(head.as_str(), tail.as_str());
                assert(msg@ =~= conflict_text(name@, before@, package@));
                let ghost said = text::texts(self.result.conflicts@);
                self.result.conflicts.push(msg);
                assert(text::texts(self.result.conflicts@) =~= said.push(msg@));
            }
        }
        let owner = String::from_str(package);
        proof {
            collections::lemma_with_values(self.owners@, name@, owner, |x: String| x@);
        }
        self.owners.insert(String::from_str(name), owner);
        self.result.linked = self.result.linked + 1;
        assert(self@ =~= with_bin(before_all@, name@, package@));
    }
}

// ---------------------------------------------------------------------------
// Laws

/// A package is unpacked from its archive, checked out or taken from its
/// directory only where it has one. An archive is taken before a checkout if
/// archives are preferred, else a checkout before an archive; a directory that is
/// named in place of an archive is always taken.
pub proof fn law_what_is_installed(p: lock::LockedView, prefer_dist: bool)
    ensures
        plan_of(p, prefer_dist) is Dist ==> (p.dist matches Some(d) && d.dist_type != "path"@),
        plan_of(p, prefer_dist) is Vcs ==> (p.source matches Some(s) && (s.source_type == "git"@
            || s.source_type == "vcs"@)),
        plan_of(p, prefer_dist) matches PlanView::Path(u) ==> (p.dist matches Some(d) && d.dist_type
            == "path"@ && d.url == u) || (p.dist is None && (p.source matches Some(s)
            && s.source_type == "path"@ && s.url == u)),
        (p.dist matches Some(d) && d.dist_type == "path"@) ==> plan_of(p, prefer_dist)
            == PlanView::Path(p.dist->0.url),
        (p.dist matches Some(d) && d.dist_type != "path"@) ==> plan_of(p, true) is Dist,
        (p.dist matches Some(d) ==> d.dist_type != "path"@) && (p.source matches Some(s) && (
        s.source_type == "git"@ || s.source_type == "vcs"@)) ==> plan_of(p, false) is Vcs,
        p.dist is None && (p.source matches Some(s) && (s.source_type == "git"@ || s.source_type
            == "vcs"@)) ==> plan_of(p, true) is Vcs,
        p.dist is Some && p.source is None ==> !(plan_of(p, prefer_dist) is Nothing),
{
    reveal_strlit("git");
    reveal_strlit("vcs");
    reveal_strlit("path");
    assert("git"@.len() == 3 && "vcs"@.len() == 3 && "path"@.len() == 4);
}

/// A mirror is an address, or an object that gives one under `url`. Nothing but
/// the address of the archive and its mirrors is asked.
pub proof fn law_only_told_addresses_are_tried(p: lock::LockedView, u: Seq<char>)
    requires
        urls_of(p).contains(u),
    ensures
        p.dist matches Some(d) && (d.url == u || (d.mirrors matches Some(m) && exists|i: int|
            0 <= i < m.len() && (#[trigger] m[i] == json::JsonView::Str(u) || json::get_of(
                m[i],
                "url"@,
            ) == Some(json::JsonView::Str(u))))),
{
    let d = p.dist->0;
    let m = match d.mirrors {
        Some(m) => m,
        None => Seq::empty(),
    };
    lemma_told_mirror(seq![d.url], m, u);
}

proof fn lemma_told_mirror(urls: Seq<Seq<char>>, m: Seq<json::JsonView>, u: Seq<char>)
    requires
        with_mirrors(urls, m).contains(u),
    ensures
        urls.contains(u) || exists|i: int|
            0 <= i < m.len() && (#[trigger] m[i] == json::JsonView::Str(u) || json::get_of(
                m[i],
                "url"@,
            ) == Some(json::JsonView::Str(u))),
    decreases m.len(),
{
    if m.len() > 0 {
        let front = m.drop_last();
        let rest = with_mirrors(urls, front);
        if rest.contains(u) {
            lemma_told_mirror(urls, front, u);
            if !urls.contains(u) {
                let i = choose|i: int|
                    0 <= i < front.len() && (#[trigger] front[i] == json::JsonView::Str(u)
                        || json::get_of(front[i], "url"@) == Some(json::JsonView::Str(u)));
                assert(m[i] == front[i]);
            }
        } else {
            let all = with_mirrors(urls, m);
            let k = choose|k: int| 0 <= k < all.len() && all[k] == u;
            if k < rest.len() {
                assert(rest[k] == u);
            }
            assert(mirror_url(m.last()) == Some(u));
            assert(m[m.len() - 1] == m.last());
        }
    }
}

proof fn lemma_extension(stem: Seq<char>, tail: Seq<char>)
    requires
        !stem.contains('?'),
        !tail.contains('?'),
        text::lower(tail) == tail,
    ensures
        text::pieces(text::lower(stem + tail), "?"@)[0] == text::lower(stem) + tail,
        text::ends(text::lower(stem) + tail, tail),
{
    reveal_strlit("?");
    let all = text::lower(stem + tail);
    let low = text::lower(stem) + tail;
    assert(all =~= text::lower(stem) + text::lower(tail));
    assert(!low.contains('?')) by {
        assert forall|i: int| 0 <= i < low.len() implies low[i] != '?' by {
            if i < stem.len() {
                assert(low[i] == text::lower_char(stem[i]));
            } else {
                assert(low[i] == tail[i - stem.len()]);
            }
        }
    }
    text::lemma_not_found(low, "?"@);
    assert(low.skip(low.len() - tail.len()) =~= tail);
}

proof fn lemma_last_apart(s: Seq<char>, a: Seq<char>, b: Seq<char>, k: int)
    requires
        text::ends(s, a),
        0 < k <= a.len(),
        k <= b.len(),
        a[a.len() - k] != b[b.len() - k],
    ensures
        !text::ends(s, b),
{
    if text::ends(s, b) {
        assert(s.skip(s.len() - a.len())[a.len() - k] == s[s.len() - k]);
        assert(s.skip(s.len() - b.len())[b.len() - k] == s[s.len() - k]);
    }
}

/// The kind of an archive is told by the end of its address, whatever the case of
/// its letters and whatever is asked behind a `?`. What has no known end is a
/// `zip`.
pub proof fn law_kinds_of_archives(stem: Seq<char>, query: Seq<char>)
    requires
        !stem.contains('?'),
    ensures
        extension_of(stem + ".tar.gz"@) == "tar.gz"@,
        extension_of(stem + ".tgz"@) == "tar.gz"@,
        extension_of(stem + ".tar.bz2"@) == "tar.bz2"@,
        extension_of(stem + ".tar.xz"@) == "tar.xz"@,
        extension_of(stem + ".tar"@) == "tar"@,
        extension_of(stem + ".zip"@) == "zip"@,
        extension_of(stem + "?"@ + query) == extension_of(stem),
        extension_of(text::lower(stem)) == extension_of(stem),
{
    reveal_strlit(".tar.gz");
    reveal_strlit(".tgz");
    reveal_strlit(".tar.bz2");
    reveal_strlit(".tar.xz");
    reveal_strlit(".tar");
    reveal_strlit(".zip");
    reveal_strlit("?");
    assert(text::lower(".tar.gz"@) =~= ".tar.gz"@);
    assert(text::lower(".tgz"@) =~= ".tgz"@);
    assert(text::lower(".tar.bz2"@) =~= ".tar.bz2"@);
    assert(text::lower(".tar.xz"@) =~= ".tar.xz"@);
    assert(text::lower(".tar"@) =~= ".tar"@);
    assert(text::lower(".zip"@) =~= ".zip"@);
    lemma_extension(stem, ".tar.gz"@);
    lemma_extension(stem, ".tgz"@);
    lemma_extension(stem, ".tar.bz2"@);
    lemma_extension(stem, ".tar.xz"@);
    lemma_extension(stem, ".tar"@);
    lemma_extension(stem, ".zip"@);
    let low = text::lower(stem);
    let b = low + ".tar.bz2"@;
    lemma_last_apart(b, ".tar.bz2"@, ".tar.gz"@, 1);
    lemma_last_apart(b, ".tar.bz2"@, ".tgz"@, 1);
    let x = low + ".tar.xz"@;
    lemma_last_apart(x, ".tar.xz"@, ".tar.gz"@, 2);
    lemma_last_apart(x, ".tar.xz"@, ".tgz"@, 2);
    lemma_last_apart(x, ".tar.xz"@, ".tar.bz2"@, 1);
    let t = low + ".tar"@;
    lemma_last_apart(t, ".tar"@, ".tar.gz"@, 1);
    lemma_last_apart(t, ".tar"@, ".tgz"@, 1);
    lemma_last_apart(t, ".tar"@, ".tar.bz2"@, 1);
    lemma_last_apart(t, ".tar"@, ".tar.xz"@, 1);
    let z = low + ".zip"@;
    lemma_last_apart(z, ".zip"@, ".tar.gz"@, 1);
    lemma_last_apart(z, ".zip"@, ".tgz"@, 1);
    lemma_last_apart(z, ".zip"@, ".tar.bz2"@, 1);
    lemma_last_apart(z, ".zip"@, ".tar.xz"@, 1);
    lemma_last_apart(z, ".zip"@, ".tar"@, 1);
    assert(text::lower(low) =~= low);
    assert(!low.contains('?')) by {
        assert forall|i: int| 0 <= i < low.len() implies low[i] != '?' by {
            assert(low[i] == text::lower_char(stem[i]));
        }
    }
    assert(text::lower(stem + "?"@ + query) =~= low + "?"@ + text::lower(query));
    text::lemma_piece_before(low, "?"@, text::lower(query));
    text::lemma_not_found(low, "?"@);
}

/// The number that a lower case hexadecimal digit stands for.
pub open spec fn digit_number(c: char) -> int {
    if '0' <= c <= '9' {
        c as int - '0' as int
    } else if 'a' <= c <= 'f' {
        c as int - 'a' as int + 10
    } else {
        -1
    }
}

/// The text of a digest is two lower case hexadecimal digits for each byte, which
/// stand for the byte.
pub proof fn law_hex_reads_back(data: Seq<u8>, i: int)
    requires
        0 <= i < data.len(),
    ensures
        hex_text(data).len() == 2 * data.len(),
        0 <= digit_number(hex_text(data)[2 * i]) < 16,
        0 <= digit_number(hex_text(data)[2 * i + 1]) < 16,
        16 * digit_number(hex_text(data)[2 * i]) + digit_number(hex_text(data)[2 * i + 1])
            == data[i],
{
    let n = data[i] as int;
    assert((2 * i) / 2 == i && (2 * i) % 2 == 0);
    assert((2 * i + 1) / 2 == i && (2 * i + 1) % 2 == 1);
    assert(hex_text(data)[2 * i] == hex_digit(n / 16));
    assert(hex_text(data)[2 * i + 1] == hex_digit(n % 16));
}

/// A checksum is looked at if and only if checksums are to be verified and the
/// package tells one that is not empty.
pub proof fn law_told_checksums_are_verified(p: lock::LockedView, verify: bool)
    ensures
        told_checksum(p, verify) is Some <==> verify && (p.dist matches Some(d) && (
        d.shasum matches Some(s) && s.len() > 0)),
        told_checksum(p, verify) matches Some(s) ==> p.dist->0.shasum == Some(s),
{
}

/// A download is tried again three times, each time after twice the time, and not
/// a fifth time.
pub proof fn law_retries(attempt: u32)
    requires
        attempt >= 1,
    ensures
        delay_after(attempt) is Some <==> attempt <= 3,
        delay_after(1) == Some(200u64),
        1 < attempt <= 3 ==> delay_after(attempt)->0 == 2 * delay_after((attempt - 1) as u32)->0,
{
}

/// A reference of 7 to 40 hexadecimal digits is a commit. Any other one that is
/// not empty is a branch or a tag.
pub proof fn law_commits_are_no_branches(r: Seq<char>)
    requires
        r.len() > 0,
        !text::is_space(r[0]),
        !text::is_space(r.last()),
    ensures
        names_branch(r) <==> r.len() < 7 || r.len() > 40 || exists|i: int|
            0 <= i < r.len() && !('0' <= #[trigger] r[i] <= '9' || 'a' <= r[i] <= 'f' || 'A' <= r[i]
                <= 'F'),
        !names_branch(Seq::empty()),
{
    text::lemma_trimmed_same(r);
    text::lemma_trimmed_same(Seq::empty());
    if exists|i: int|
        0 <= i < r.len() && !('0' <= #[trigger] r[i] <= '9' || 'a' <= r[i] <= 'f' || 'A' <= r[i]
            <= 'F') {
        let i = choose|i: int|
            0 <= i < r.len() && !('0' <= #[trigger] r[i] <= '9' || 'a' <= r[i] <= 'f' || 'A' <= r[i]
                <= 'F');
        assert(!is_hex(r[i]));
    }
}

/// A checkout clones the address into the directory, on the branch or tag if one
/// is asked for. What is asked for is checked out; only if that fails it is
/// fetched first. No step that failed counts as done.
pub proof fn law_checkouts(
    step: GitStep,
    success: bool,
    url: Seq<char>,
    reference: Option<Seq<char>>,
    dir: Seq<char>,
)
    ensures
        ({
            let a = git_args(GitStep::Clone, url, reference, dir);
            &&& a[0] == "clone"@
            &&& a[a.len() - 2] == url
            &&& a.last() == dir
            &&& (reference matches Some(t) && names_branch(t)) ==> exists|i: int|
                0 < i < a.len() && a[i - 1] == "--branch"@ && #[trigger] a[i] == reference->0
        }),
        git_next(step, success, url, reference) is Done ==> success,
        git_next(GitStep::Clone, true, url, reference) == match reference {
            Some(t) => GitNext::Checkout(t),
            None => GitNext::Done,
        },
        git_next(GitStep::Clone, false, url, reference) is Fault,
        step matches GitStep::Checkout(t) ==> git_next(step, success, url, reference) == if success {
            GitNext::Done
        } else {
            GitNext::Fetch(t@)
        },
        step matches GitStep::Fetch(t) ==> (success ==> git_next(step, success, url, reference)
            == GitNext::CheckoutFetched(t@)) && (!success ==> git_next(
            step,
            success,
            url,
            reference,
        ) is Fault),
        step is CheckoutFetched && !success ==> git_next(
            step,
            success,
            url,
            reference,
        ) is Fault,
{
    let a = git_args(GitStep::Clone, url, reference, dir);
    if let Some(t) = reference {
        if names_branch(t) {
            assert(a[3] == "--branch"@ && a[4] == t);
        }
    }
}

/// Every package that ends is counted once: as taken from the cache, downloaded,
/// skipped or failed.
pub proof fn law_every_end_is_counted(s: InstallStats, e: InstallEvent)
    requires
        s.cache_hits < usize::MAX,
        s.downloaded < usize::MAX,
        s.skipped < usize::MAX,
        s.failed < usize::MAX,
    ensures
        ({
            let n = after_event(s, e);
            &&& n.total == s.total
            &&& n.cache_hits + n.downloaded + n.skipped + n.failed == s.cache_hits + s.downloaded
                + s.skipped + s.failed + if e is Archive {
                0int
            } else {
                1int
            }
            &&& n.failed > s.failed <==> e is Failed
            &&& n.skipped > s.skipped <==> e is Skipped
            &&& n.cache_hits > s.cache_hits <==> e is Hit || e is Linked
            &&& e is Archive && s.bytes + e->Archive_0 <= u64::MAX ==> n.bytes == s.bytes
                + e->Archive_0
        }),
{
}

/// A program belongs to the package that linked it last. That it was taken from
/// another package is told, and nothing else is.
pub proof fn law_programs_have_owners(b: BinView, name: Seq<char>, package: Seq<char>, q: Seq<char>)
    ensures
        collections::lookup(with_bin(b, name, package).owners, q) == if q == name {
            Some(package)
        } else {
            collections::lookup(b.owners, q)
        },
        with_bin(b, name, package).linked == b.linked + 1,
        with_bin(b, name, package).conflicts.len() == b.conflicts.len() + if (collections::lookup(
            b.owners,
            name,
        ) matches Some(before) && before != package) {
            1int
        } else {
            0int
        },
{
    collections::law_lookup_inserted(b.owners, name, package, q);
}

/// Between 16 and 128 downloads run at once, eight for each core.
pub proof fn law_concurrency(cores: int)
    ensures
        16 <= concurrency_of(cores) <= 128,
        2 <= cores <= 16 ==> concurrency_of(cores) == 8 * cores,
{
}

} // verus!
