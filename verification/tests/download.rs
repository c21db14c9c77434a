use composer_rs::archive::{
    check_entry_count, check_link_target, check_path_depth, permission_bits, safe_join,
    zip_entry_kind, ArchiveType, EntryKind, EntryPlan, Unpacking, MAX_ARCHIVE_ENTRIES,
    MAX_UNCOMPRESSED_BYTES,
};
use composer_rs::cache::{
    format_bytes, is_leftover, package_has_vendor_hardlink, prune_verdict, pruned, store_action,
    tree_step, CasCache, InstallKind, LinkResult, PruneStats, PruneVerdict, Pruned, StoreAction,
    StorePhase, TreeStep, WalkedEntry,
};
use composer_rs::collections::StrMap;
use composer_rs::download::{
    archive_file, bin_name, default_concurrency, dist_urls, git_arguments, guess_extension,
    install_marker, install_outcome, install_plan, is_git_branch_or_tag, next_git_step,
    package_dest, retry_delay, single_root, vcs_cache_dir, verify_archive, verify_sha1,
    verify_sha256, BinLinks, DistAction, DistInstall, GitStep, InstallEvent, InstallPlan,
    InstallStats,
};
use composer_rs::error::Error;
use composer_rs::installer_paths::InstallerPaths;
use composer_rs::json::Json;
use composer_rs::lock::{DistInfo, LockedPackage, SourceInfo};
use composer_rs::progress::{want_progress, InFlight};

fn pkg_with_mirrors(url: &str, mirrors: Option<Vec<Json>>) -> LockedPackage {
    LockedPackage {
        name: "acme/lib".to_string(),
        version: "1.0.0".to_string(),
        source: None,
        dist: Some(DistInfo {
            dist_type: "zip".to_string(),
            url: url.to_string(),
            reference: Some("abc".to_string()),
            shasum: None,
            mirrors,
        }),
        require: StrMap::new(),
        require_dev: StrMap::new(),
        package_type: Some("library".to_string()),
        extra: None,
        autoload: None,
        autoload_dev: None,
        notification_url: None,
        license: vec![],
        description: None,
        homepage: None,
        keywords: vec![],
        time: None,
        replace: StrMap::new(),
        provide: StrMap::new(),
        conflict: StrMap::new(),
        suggest: StrMap::new(),
        bin: vec![],
        abandoned: None,
    }
}

#[test]
fn dist_urls_primary_then_string_and_object_mirrors() {
    let pkg = pkg_with_mirrors(
        "https://primary.example/a.zip",
        Some(vec![
            Json::Str("https://mirror.example/a.zip".to_string()),
            Json::Object(vec![(
                "url".to_string(),
                Json::Str("https://mirror2.example/a.zip".to_string()),
            )]),
            Json::Str("https://primary.example/a.zip".to_string()),
        ]),
    );
    assert_eq!(
        dist_urls(&pkg),
        vec![
            "https://primary.example/a.zip",
            "https://mirror.example/a.zip",
            "https://mirror2.example/a.zip",
        ]
    );
}

#[test]
fn dist_urls_without_mirrors_is_just_primary() {
    let pkg = pkg_with_mirrors("https://primary.example/a.zip", None);
    assert_eq!(dist_urls(&pkg), vec!["https://primary.example/a.zip"]);
}

#[test]
fn safe_join_blocks_parent_segments() {
    let err = safe_join("/tmp/base", "../outside.txt").unwrap_err();
    assert!(
        err.to_text().contains("traversal"),
        "unexpected error: {err:?}"
    );
}

#[test]
fn safe_join_allows_normal_paths() {
    let out = safe_join("/tmp/base", "src/Foo.php").unwrap();
    assert!(out.starts_with("/tmp/base"));
    assert!(out.ends_with("Foo.php"));
}

#[test]
fn links_out_of_the_archive_are_refused() {
    let err = check_link_target("/out", "/out", "/etc/passwd").unwrap_err();
    let text = err.to_text();
    assert!(text.contains("absolute") || text.contains("symlink"), "{text}");
    assert!(check_link_target("/out/a", "/out", "../../x").is_err());
    assert_eq!(check_link_target("/out", "/out", "hello.txt").unwrap(), "hello.txt");
}

#[test]
fn archives_have_limits() {
    assert!(check_path_depth("a/b/c").is_ok());
    assert!(check_path_depth(&"d/".repeat(40)).is_err());
    assert!(check_entry_count(MAX_ARCHIVE_ENTRIES).is_ok());
    assert!(check_entry_count(MAX_ARCHIVE_ENTRIES + 1).is_err());
    let mut u = Unpacking::start();
    assert_eq!(
        u.plan_entry("/out", "src/A.php", EntryKind::File, 10).unwrap(),
        EntryPlan::File("/out/src/A.php".to_string())
    );
    assert_eq!(u.expanded, 10);
    assert!(u
        .plan_entry("/out", "big", EntryKind::File, MAX_UNCOMPRESSED_BYTES)
        .is_err());
    assert_eq!(zip_entry_kind("a/", true, None), EntryKind::Directory);
    assert_eq!(zip_entry_kind("a", false, Some(0o120777)), EntryKind::Link);
    assert_eq!(zip_entry_kind("a", false, Some(0o100644)), EntryKind::File);
    assert_eq!(permission_bits(0o100755), 0o755);
}

#[test]
fn archive_types_are_told_by_name_and_magic() {
    assert_eq!(ArchiveType::from_path("/x/a.tar.gz"), Some(ArchiveType::TarGz));
    assert_eq!(ArchiveType::from_filename("a.zip"), Some(ArchiveType::Zip));
    assert_eq!(ArchiveType::from_filename("a.tar.bz2"), Some(ArchiveType::TarBz2));
    assert_eq!(ArchiveType::from_filename("a.tar.xz"), Some(ArchiveType::TarXz));
    assert_eq!(ArchiveType::from_filename("a.txt"), None);
    assert_eq!(ArchiveType::detect_by_magic(b"PK\x03\x04"), ArchiveType::Zip);
    assert_eq!(ArchiveType::detect_by_magic(&[0x1f, 0x8b, 8, 0]), ArchiveType::TarGz);
}

#[test]
fn checksums_of_abc() {
    assert!(verify_sha1(b"abc", "a9993e364706816aba3e25717850c26c9cd0d89d", "p").is_ok());
    assert!(verify_sha256(
        b"abc",
        "ba7816bf8f01cfea414140de5dae2223b00361a396177a9cb410ff61f20015ad",
        "p"
    )
    .is_ok());
    let err = verify_sha1(b"abd", "a9993e364706816aba3e25717850c26c9cd0d89d", "p").unwrap_err();
    assert!(matches!(err, Error::ChecksumMismatch { package, .. } if package == "p"));
}

#[test]
fn archives_are_verified_against_the_lock() {
    let mut pkg = pkg_with_mirrors("https://e.example/a.zip", None);
    assert!(verify_archive(&pkg, b"abc", true).is_ok());
    pkg.dist.as_mut().unwrap().shasum =
        Some("a9993e364706816aba3e25717850c26c9cd0d89d".to_string());
    assert!(verify_archive(&pkg, b"abc", true).is_ok());
    assert!(verify_archive(&pkg, b"abd", true).is_err());
    assert!(verify_archive(&pkg, b"abd", false).is_ok());
}

#[test]
fn every_address_is_tried_before_giving_up() {
    let pkg = pkg_with_mirrors(
        "https://a.example/a.zip",
        Some(vec![Json::Str("https://b.example/a.zip".to_string())]),
    );
    let (_, hit) = DistInstall::begin(&pkg, true);
    assert!(matches!(hit, DistAction::LinkFromCache));
    let (mut d, first) = DistInstall::begin(&pkg, false);
    assert!(matches!(first, DistAction::Download(u) if u == "https://a.example/a.zip"));
    let second = d.after_download(Some(Error::other("502")));
    assert!(matches!(second, DistAction::Download(u) if u == "https://b.example/a.zip"));
    let last = d.after_download(Some(Error::other("503")));
    assert!(matches!(last, DistAction::Fail(e) if e.to_text() == "503"));
    let (mut d, _) = DistInstall::begin(&pkg, false);
    assert!(matches!(d.after_download(None), DistAction::Unpack));
}

#[test]
fn plans_of_installation() {
    let mut pkg = pkg_with_mirrors("https://a.example/a.zip", None);
    assert!(matches!(install_plan(&pkg, true), Ok(InstallPlan::Dist)));
    pkg.source = Some(SourceInfo {
        source_type: "git".to_string(),
        url: "https://a.example/a.git".to_string(),
        reference: Some("abc".to_string()),
    });
    assert!(matches!(install_plan(&pkg, false), Ok(InstallPlan::Vcs)));
    pkg.dist.as_mut().unwrap().dist_type = "path".to_string();
    assert!(matches!(install_plan(&pkg, true), Ok(InstallPlan::Path(_))));
    assert_eq!(
        package_dest(&pkg, "/p/vendor", "/p", &InstallerPaths::default()).unwrap(),
        "/p/vendor/acme/lib"
    );
    assert_eq!(
        install_marker(&pkg).get("name").and_then(|n| n.as_str()),
        Some("acme/lib")
    );
}

#[test]
fn git_steps_follow_each_other() {
    let url = "https://a.example/a.git";
    assert!(is_git_branch_or_tag("main"));
    assert!(!is_git_branch_or_tag("0123456789abcdef0123456789abcdef01234567"));
    let args = git_arguments(&GitStep::Clone, url, None, "/c");
    assert_eq!(args[0], "clone");
    assert!(args.contains(&url.to_string()));
    let sha = "0123456789abcdef0123456789abcdef01234567";
    let next = next_git_step(&GitStep::Clone, true, url, Some(sha)).unwrap();
    assert_eq!(next, Some(GitStep::Checkout(sha.to_string())));
    assert!(next_git_step(&GitStep::Clone, false, url, None).is_err());
    assert_ne!(
        vcs_cache_dir("/c", url, Some("a")),
        vcs_cache_dir("/c", url, Some("b"))
    );
}

#[test]
fn archives_of_different_addresses_have_different_files() {
    assert_eq!(guess_extension("https://a.example/x.tar.gz"), "tar.gz");
    let a = archive_file("/c", "https://a.example/x.zip");
    let b = archive_file("/c", "https://b.example/x.zip");
    assert_ne!(a, b);
    assert!(a.ends_with(".zip"));
}

#[test]
fn retries_wait_longer() {
    let first = retry_delay(1).unwrap();
    let second = retry_delay(2).unwrap();
    assert!(second > first);
    assert!(retry_delay(50).is_none());
}

#[test]
fn one_directory_at_the_top_is_the_root() {
    assert_eq!(single_root(&vec![("pkg-1".to_string(), true)]), Some("pkg-1"));
    assert_eq!(
        single_root(&vec![("a".to_string(), true), ("b".to_string(), true)]),
        None
    );
}

#[test]
fn installation_is_counted() {
    let mut s = InstallStats::of(3);
    s.record(InstallEvent::Skipped);
    s.record(InstallEvent::Hit(LinkResult { hardlinks: 2, copies: 1 }));
    s.record(InstallEvent::Failed);
    let r = s.snapshot();
    assert_eq!((r.total, r.skipped, r.cache_hits, r.failed), (3, 1, 1, 1));
    assert_eq!((r.hardlinks, r.copies), (2, 1));
    assert!(install_outcome(&vec![]).is_ok());
    assert!(install_outcome(&vec![Error::other("x")]).is_err());
    assert!(default_concurrency(4) >= 1);
}

#[test]
fn bins_of_one_name_conflict() {
    let mut b = BinLinks::start();
    b.link(&bin_name("bin/tool"), "acme/a");
    assert!(b.result.conflicts.is_empty());
    b.link(&bin_name("bin/tool"), "acme/b");
    assert_eq!(b.result.linked, 2);
    assert_eq!(b.result.conflicts.len(), 1);
}

#[test]
fn one_package_may_link_a_bin_again() {
    let mut b = BinLinks::start();
    b.link(&bin_name("bin/hello"), "acme/tool");
    b.link(&bin_name("bin/hello"), "acme/tool");
    assert!(b.result.conflicts.is_empty());
}

#[test]
fn entries_lie_in_shards() {
    let cas = CasCache::with_root("/c/cas");
    let hash = CasCache::key_hash("key-1");
    let place = cas.entry_path(&hash);
    assert_eq!(
        place,
        format!("/c/cas/{}/{}", hash.shard(), hash.as_str())
    );
    assert!(cas.marker_path(&hash).starts_with(&place));
    assert_eq!(cas.get("key-1", true), Some(place));
    assert_eq!(cas.get("key-1", false), None);
    assert!(cas.require_entry("key-1", false).is_err());
}

#[test]
fn stores_go_through_a_staging_place() {
    assert_eq!(store_action(StorePhase::Start, true, true), StoreAction::Finish);
    assert_eq!(store_action(StorePhase::Start, false, false), StoreAction::LockKey);
    assert_eq!(store_action(StorePhase::Staged, true, true), StoreAction::Discard);
    assert_eq!(store_action(StorePhase::Staged, false, false), StoreAction::Move);
}

#[test]
fn trees_are_linked_without_the_marker() {
    assert_eq!(tree_step("m", Some(EntryKind::File), "m", true), TreeStep::Skip);
    assert_eq!(tree_step("a", Some(EntryKind::Directory), "m", true), TreeStep::Descend);
    assert_eq!(tree_step("a", Some(EntryKind::File), "m", true), TreeStep::Place);
    assert!(InstallKind::of(true, LinkResult::default()).is_hit());
}

#[test]
fn pruning_decides_by_links() {
    let alone = vec![WalkedEntry::File { name: "hello.txt".to_string(), links: Some(1) }];
    let linked = vec![WalkedEntry::File { name: "hello.txt".to_string(), links: Some(2) }];
    assert!(!package_has_vendor_hardlink(&alone));
    assert!(package_has_vendor_hardlink(&linked));
    assert!(is_leftover("dead.staging", false));
    assert!(is_leftover("incompletehash", false));
    assert!(!is_leftover("completehash", true));
    assert_eq!(prune_verdict("h", true, true, false), PruneVerdict::Keep);
    assert_eq!(prune_verdict("h", true, false, true), PruneVerdict::Count);
    assert_eq!(prune_verdict("dead.staging", false, false, false), PruneVerdict::Leftover);
    let mut stats = PruneStats::default();
    stats.count(Pruned { leftover: false, kept: true, size: 0 });
    stats.count(Pruned { leftover: true, kept: false, size: 5 });
    stats.count(Pruned { leftover: true, kept: false, size: 7 });
    assert_eq!(stats.complete_kept, 1);
    assert_eq!(stats.leftover_removed, 2);
    assert_eq!(stats.removed(), 2);
    assert_eq!(stats.bytes_freed, 12);
}

#[test]
fn a_trial_counts_what_a_run_removes() {
    let file = |name: &str, links: u64| WalkedEntry::File {
        name: name.to_string(),
        links: Some(links),
    };
    let marker = ".composer-rs-complete";
    let found = [
        ("aa", true, vec![WalkedEntry::Other, file(marker, 1), file("a.php", 2)], 10u64),
        ("bb", true, vec![WalkedEntry::Other, file(marker, 2), file("b.php", 1)], 20),
        ("cc", false, vec![file("c.php", 3)], 30),
        ("dd.staging", true, vec![], 40),
        ("ee", true, vec![file("e.php", 1), WalkedEntry::Unreadable], 50),
    ];
    let run = |dry_run: bool| {
        let mut stats = PruneStats::default();
        let mut left = Vec::new();
        for (name, complete, entries, size) in &found {
            let used = package_has_vendor_hardlink(entries);
            let p = pruned(prune_verdict(name, *complete, used, dry_run), used, *size);
            stats.count(p);
            if !p.deleted(dry_run) {
                left.push(*name);
            }
        }
        (stats, left)
    };
    let (trial, all) = run(true);
    let (real, left) = run(false);
    assert_eq!(trial, real);
    assert_eq!(all.len(), found.len());
    assert_eq!(left, vec!["aa", "ee"]);
    assert_eq!(real.complete_scanned, 3);
    assert_eq!(real.complete_kept, 2);
    assert_eq!(real.complete_removed, 1);
    assert_eq!(real.leftover_removed, 2);
    assert_eq!(real.bytes_freed, 90);
    assert_eq!(
        pruned(PruneVerdict::Recheck, true, 7),
        Pruned { leftover: false, kept: true, size: 0 }
    );
    assert_eq!(
        pruned(PruneVerdict::Recheck, false, 7),
        Pruned { leftover: false, kept: false, size: 7 }
    );
}

#[test]
fn sizes_are_shown_in_units() {
    assert_eq!(format_bytes(0), "0 B");
    assert_eq!(format_bytes(1023), "1023 B");
    assert_eq!(format_bytes(1536), "1.50 KB");
    assert_eq!(format_bytes(5 * 1024 * 1024), "5.00 MB");
}

#[test]
fn progress_shows_what_is_under_way() {
    let mut f = InFlight::start();
    assert_eq!(f.message(), "");
    f.begin("acme/a");
    f.begin("acme/b");
    assert!(f.message().contains("acme/a"));
    f.end("acme/a");
    assert!(!f.message().contains("acme/a"));
    assert!(want_progress(false, None, true));
    assert!(!want_progress(true, None, true));
    assert!(!want_progress(false, None, false));
}
