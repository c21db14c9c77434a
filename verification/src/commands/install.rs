//! Installing the packages of a project.

use crate::cache;
use crate::collections;
use crate::content_hash;
use crate::download::StatsSnapshot;
use crate::error::Error;
use crate::installer_paths;
use crate::installer_paths::InstallerPaths;
use crate::json;
use crate::lock;
use crate::lock::LockedPackage;
use crate::manifest::ComposerJson;
use crate::resolve;
use crate::resolve::ResolveOptions;
use crate::resolve::UpdateDeps;
use crate::text;
use vstd::prelude::*;

verus! {

/// What is asked of an install.
#[derive(Debug, Clone)]
pub struct InstallArgs {
    pub no_dev: bool,
    pub dry_run: bool,
    pub prefer_dist: bool,
    pub prefer_source: bool,
    pub optimize_autoloader: bool,
    pub classmap_authoritative: bool,
    pub concurrency: Option<usize>,
    pub verify_checksums: bool,
    pub ignore_platform_reqs: bool,
    pub ignore_platform_req: Vec<String>,
    pub no_autoloader: bool,
    pub no_scripts: bool,
    pub audit: bool,
}

/// What is asked of installing packages anew.
#[derive(Debug, Clone)]
pub struct ReinstallArgs {
    /// The packages; all of them if none is named.
    pub packages: Vec<String>,
    pub no_dev: bool,
    pub concurrency: Option<usize>,
    pub prefer_source: bool,
    pub verify_checksums: bool,
    pub no_autoloader: bool,
    pub no_scripts: bool,
    pub optimize_autoloader: bool,
    pub classmap_authoritative: bool,
}

/// What is said of a lock file that does not belong to the `composer.json`.
pub open spec fn mismatch_of(locked: Seq<char>, expected: Seq<char>) -> Option<Seq<char>> {
    if locked.len() > 0 && locked != expected {
        Some(
            "composer.lock content-hash mismatch (lock="@ + locked + ", computed="@ + expected
                + ") — run update"@,
        )
    } else {
        None
    }
}

/// A lock file that was made for a `composer.json` belongs to it, whatever of the
/// manifest does not bear on the packages changes.
pub proof fn law_new_lock_belongs(
    res: resolve::Resolution,
    manifest: ComposerJson,
    m: Seq<(Seq<char>, json::JsonView)>,
    later: Seq<(Seq<char>, json::JsonView)>,
)
    requires
        forall|i: int|
            0 <= i < content_hash::relevant_keys().len() ==> json::member(
                m,
                #[trigger] content_hash::relevant_keys()[i],
            ) == json::member(later, content_hash::relevant_keys()[i]),
        content_hash::platform_of(m) == content_hash::platform_of(later),
    ensures
        mismatch_of(
            resolve::lock_of(res, manifest, content_hash::hash_of(m)).content_hash,
            content_hash::hash_of(later),
        ) is None,
{
    content_hash::law_hash_ignores_the_rest(m, later);
}

/// What is said of a lock file that does not belong to the `composer.json`.
pub fn hash_mismatch(locked: &str, expected: &str) -> (r: Option<String>)
    ensures
        text::opt_text(r) == mismatch_of(locked@, expected@),
{
    if locked.unicode_len() == 0 || text::same(locked, expected) {
        return None;
    }
    let head = text::cat3("composer.lock content-hash mismatch (lock=", locked, ", computed=");
    Some(text::cat3(head.as_str(), expected, ") — run update"))
}

/// How a project is resolved that has no lock file.
pub fn install_options(manifest: &ComposerJson, args: &InstallArgs, concurrency: usize) -> (r:
    ResolveOptions)
    ensures
        r.with_dev == !args.no_dev,
        r.prefer_stable,
        !r.prefer_lowest,
        r.minimum_stability@ == match manifest@.minimum_stability {
            Some(s) => s,
            None => "stable"@,
        },
        r.concurrency == concurrency,
        r.ignore_platform_reqs == args.ignore_platform_reqs,
        text::texts(r.ignore_platform_req@) == text::texts(args.ignore_platform_req@),
        r.packages_to_update@.len() == 0,
        r.update_deps == UpdateDeps::OnlyListed,
{
    ResolveOptions {
        with_dev: !args.no_dev,
        prefer_stable: true,
        prefer_lowest: false,
        minimum_stability: String::from_str(manifest.minimum_stability()),
        concurrency,
        ignore_platform_reqs: args.ignore_platform_reqs,
        ignore_platform_req: collections::copy_texts(&args.ignore_platform_req),
        packages_to_update: Vec::new(),
        update_deps: UpdateDeps::OnlyListed,
    }
}

/// The line on a package that would be installed.
pub open spec fn planned_text(
    rules: Seq<(Seq<char>, Seq<installer_paths::MatcherView>)>,
    p: lock::LockedView,
) -> Seq<char> {
    "  - "@ + p.name + " ("@ + p.version + ") → "@ + match installer_paths::template_for(
        rules,
        p.name,
        p.package_type,
    ) {
        Some(t) => installer_paths::filled(t, p.name),
        None => "vendor/"@ + p.name,
    }
}

/// The line on a package that would be installed.
pub fn planned_line(paths: &InstallerPaths, p: &LockedPackage) -> (r: String)
    ensures
        r@ == planned_text(paths@, p@),
{
    let kind = match &p.package_type {
        Some(t) => Some(t.as_str()),
        None => None,
    };
    let dest = match paths.resolve_relative(p.name.as_str(), kind) {
        Some(d) => d,
        None => text::cat("vendor/", p.name.as_str()),
    };
    let a = text::cat3("  - ", p.name.as_str(), " (");
    let b = text::cat3(p.version.as_str(), ") → ", dest.as_str());
    let out = text::cat(a.as_str(), b.as_str());
    assert(out@ =~= planned_text(paths@, p@));
    out
}

/// What an install did.
pub open spec fn stats_text(s: StatsSnapshot) -> Seq<char> {
    "cache hits: "@ + text::decimal(s.cache_hits as nat) + "  downloads: "@ + text::decimal(
        s.downloaded as nat,
    ) + "  skipped: "@ + text::decimal(s.skipped as nat) + "  hardlinks: "@ + text::decimal(
        s.hardlinks as nat,
    ) + "  copies: "@ + text::decimal(s.copies as nat)
}

/// What an install did.
pub fn stats_line(s: &StatsSnapshot) -> (r: String)
    ensures
        r@ == stats_text(*s),
{
    let mut out = text::cat("cache hits: ", text::usize_text(s.cache_hits).as_str());
    out.append("  downloads: ");
    out.append(text::usize_text(s.downloaded).as_str());
    out.append("  skipped: ");
    out.append(text::usize_text(s.skipped).as_str());
    out.append("  hardlinks: ");
    out.append(text::u64_text(s.hardlinks).as_str());
    out.append("  copies: ");
    out.append(text::u64_text(s.copies).as_str());
    out
}

/// What an install did, with the bytes that it loaded.
pub fn stats_line_with_bytes(s: &StatsSnapshot) -> (r: String)
    ensures
        r@ == stats_text(*s) + "  bytes: "@ + cache::bytes_text(s.bytes),
{
    let line = stats_line(s);
    let bytes = cache::format_bytes(s.bytes);
    text::cat3(line.as_str(), "  bytes: ", bytes.as_str())
}

/// What is written to the vendor directory after an install.
pub open spec fn vendor_marker_text(s: StatsSnapshot) -> Seq<char> {
    "{\n  \"packages\": "@ + text::decimal(s.total as nat) + ",\n  \"cache_hits\": "@
        + text::decimal(s.cache_hits as nat) + ",\n  \"downloaded\": "@ + text::decimal(
        s.downloaded as nat,
    ) + "\n}\n"@
}

/// What is written to the vendor directory after an install.
pub fn vendor_marker(s: &StatsSnapshot) -> (r: String)
    ensures
        r@ == vendor_marker_text(*s),
{
    let mut out = text::cat("{\n  \"packages\": ", text::usize_text(s.total).as_str());
    out.append(",\n  \"cache_hits\": ");
    out.append(text::usize_text(s.cache_hits).as_str());
    out.append(",\n  \"downloaded\": ");
    out.append(text::usize_text(s.downloaded).as_str());
    out.append("\n}\n");
    out
}

// ---------------------------------------------------------------------------
// Plugins

/// The names of the packages that are plugins.
pub open spec fn plugin_names(v: Seq<lock::LockedView>) -> Seq<Seq<char>>
    decreases v.len(),
{
    if v.len() == 0 {
        Seq::empty()
    } else {
        let rest = plugin_names(v.drop_last());
        if v.last().package_type == Some("composer-plugin"@) {
            rest.push(v.last().name)
        } else {
            rest
        }
    }
}

/// What is said of packages that are plugins: that they are not run.
pub fn warn_unapproved_plugins(packages: &Vec<&LockedPackage>) -> (r: Vec<String>)
    ensures
        text::texts(r@) == if plugin_names(lock::ref_views(packages@)).len() == 0 {
            Seq::empty()
        } else {
            seq![
                "composer-plugin package(s) not executed: "@ + text::joined(
                    plugin_names(lock::ref_views(packages@)),
                    ", "@,
                ),
                "composer-rs does not run Composer plugins; config.allow-plugins has no effect."@,
            ]
        },
{
    let ghost all = lock::ref_views(packages@);
    let mut names: Vec<String> = Vec::new();
    let n: usize = packages.len();
    let mut i: usize = 0;
    assert(text::texts(names@) =~= Seq::empty());
    while i < n
        invariant
            i <= n,
            n == packages@.len(),
            all == lock::ref_views(packages@),
            text::texts(names@) == plugin_names(all.take(i as int)),
        decreases n - i,
    {
        let p = packages[i];
        proof {
            assert(all.take(i + 1).drop_last() =~= all.take(i as int));
            assert(all.take(i + 1).last() == p@);
        }
        let is_plugin = match &p.package_type {
            Some(t) => text::same(t.as_str(), "composer-plugin"),
            None => false,
        };
        if is_plugin {
            let ghost before = text::texts(names@);
            names.push(String::from_str(p.name.as_str()));
            assert(text::texts(names@) =~= before.push(p@.name));
        }
        i += 1;
    }
    assert(all.take(n as int) =~= all);
    let mut out: Vec<String> = Vec::new();
    assert(text::texts(names@).len() == names@.len());
    if names.len() == 0 {
        assert(text::texts(out@) =~= Seq::empty());
        return out;
    }
    let list = text::join(&names, ", ");
    out.push(text::cat("composer-plugin package(s) not executed: ", list.as_str()));
    out.push(
        String::from_str(
            "composer-rs does not run Composer plugins; config.allow-plugins has no effect.",
        ),
    );
    assert(text::texts(out@) =~= seq![
        "composer-plugin package(s) not executed: "@ + text::joined(plugin_names(all), ", "@),
        "composer-rs does not run Composer plugins; config.allow-plugins has no effect."@,
    ]);
    out
}

// ---------------------------------------------------------------------------
// Installing anew

/// The packages that are named.
pub open spec fn named_ones(v: Seq<lock::LockedView>, names: Seq<Seq<char>>) -> Seq<
    lock::LockedView,
>
    decreases v.len(),
{
    if v.len() == 0 {
        Seq::empty()
    } else {
        let rest = named_ones(v.drop_last(), names);
        if names.contains(v.last().name) {
            rest.push(v.last())
        } else {
            rest
        }
    }
}

/// The packages that are installed anew: all of them, or those that are named.
pub fn reinstall_targets<'a>(packages: Vec<&'a LockedPackage>, names: &Vec<String>) -> (r: Result<
    Vec<&'a LockedPackage>,
    Error,
>)
    ensures
        if names@.len() == 0 {
            r is Ok && lock::ref_views(r->Ok_0@) == lock::ref_views(packages@)
        } else if named_ones(lock::ref_views(packages@), text::texts(names@)).len() == 0 {
            r matches Err(Error::Other(t)) && t@ == "no matching packages in lock"@
        } else {
            r is Ok && lock::ref_views(r->Ok_0@) == named_ones(
                lock::ref_views(packages@),
                text::texts(names@),
            )
        },
{
    if names.len() == 0 {
        return Ok(packages);
    }
    let ghost all = lock::ref_views(packages@);
    let ghost wanted = text::texts(names@);
    let mut out: Vec<&'a LockedPackage> = Vec::new();
    let n: usize = packages.len();
    let mut i: usize = 0;
    assert(lock::ref_views(out@) =~= Seq::empty());
    while i < n
        invariant
            i <= n,
            n == packages@.len(),
            all == lock::ref_views(packages@),
            wanted == text::texts(names@),
            lock::ref_views(out@) == named_ones(all.take(i as int), wanted),
        decreases n - i,
    {
        let p = packages[i];
        proof {
            assert(all.take(i + 1).drop_last() =~= all.take(i as int));
            assert(all.take(i + 1).last() == p@);
        }
        if collections::contains_text(names, p.name.as_str()) {
            let ghost before = lock::ref_views(out@);
            out.push(p);
            assert(lock::ref_views(out@) =~= before.push(p@));
        }
        i += 1;
    }
    assert(all.take(n as int) =~= all);
    assert(lock::ref_views(out@).len() == out@.len());
    if out.len() == 0 {
        return Err(Error::Other(String::from_str("no matching packages in lock")));
    }
    Ok(out)
}

/// A lock is complained of if and only if it has a hash and that is another one.
pub proof fn law_stale_locks(locked: Seq<char>, expected: Seq<char>)
    ensures
        mismatch_of(locked, expected) is Some <==> locked.len() > 0 && locked != expected,
{
}

/// The plugins that are warned of are the packages of that type, by their names
/// and in their order; reinstalled are the packages that are named.
pub proof fn law_which_packages(
    v: Seq<lock::LockedView>,
    w: Seq<lock::LockedView>,
    p: lock::LockedView,
    names: Seq<Seq<char>>,
)
    ensures
        plugin_names(v + w) == plugin_names(v) + plugin_names(w),
        plugin_names(seq![p]) == (if p.package_type == Some("composer-plugin"@) {
            seq![p.name]
        } else {
            Seq::empty()
        }),
        named_ones(v + w, names) == named_ones(v, names) + named_ones(w, names),
        named_ones(seq![p], names) == (if names.contains(p.name) {
            seq![p]
        } else {
            Seq::empty()
        }),
    decreases w.len(),
{
    assert(seq![p].drop_last() =~= Seq::empty());
    assert(seq![p].last() == p);
    assert(plugin_names(seq![p].drop_last()) =~= Seq::empty());
    assert(named_ones(seq![p].drop_last(), names) =~= Seq::empty());
    if w.len() > 0 {
        let front = w.drop_last();
        assert((v + w).drop_last() =~= v + front);
        law_which_packages(v, front, p, names);
        assert(plugin_names(v) + plugin_names(front).push(w.last().name) =~= (plugin_names(v)
            + plugin_names(front)).push(w.last().name));
        assert(named_ones(v, names) + named_ones(front, names).push(w.last()) =~= (named_ones(
            v,
            names,
        ) + named_ones(front, names)).push(w.last()));
    } else {
        assert(v + w =~= v);
        assert(plugin_names(v) + plugin_names(w) =~= plugin_names(v));
        assert(named_ones(v, names) + named_ones(w, names) =~= named_ones(v, names));
    }
}

} // verus!
