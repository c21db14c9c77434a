use composer_rs::collections::{StrMap, StrSet};
use composer_rs::commands::install::hash_mismatch;
use composer_rs::constraint::VersionConstraint;
use composer_rs::index::PackageIndex;
use composer_rs::lock::{
    content_hash_from_composer_json, ComposerLock, DistInfo, LockedPackage,
};
use composer_rs::manifest::ComposerJson;
use composer_rs::package::PackageId;
use composer_rs::platform::Platform;
use composer_rs::repo::parse_p2_response;
use composer_rs::resolve::{
    build_locked_pins, insert_inline, packages_allowed_to_change, platform_links,
    root_requirement_names, settle_index, solve_request, Prefetch, Resolution, ResolveOptions,
    UpdateDeps,
};

fn links(pairs: &[(&str, &str)]) -> StrMap<String> {
    let mut m = StrMap::new();
    for (k, v) in pairs {
        m.insert(k.to_string(), v.to_string());
    }
    m
}

fn names(items: &[&str]) -> StrSet {
    let mut s = StrSet::new();
    for i in items {
        s.insert(i.to_string());
    }
    s
}

fn locked(name: &str, ver: &str, require: &[(&str, &str)]) -> LockedPackage {
    locked_full(name, ver, require, &[])
}

fn locked_full(
    name: &str,
    ver: &str,
    require: &[(&str, &str)],
    require_dev: &[(&str, &str)],
) -> LockedPackage {
    LockedPackage {
        name: name.to_string(),
        version: ver.to_string(),
        source: None,
        dist: Some(DistInfo {
            dist_type: "zip".to_string(),
            url: format!("https://example.com/{name}.zip"),
            reference: None,
            shasum: None,
            mirrors: None,
        }),
        require: links(require),
        require_dev: links(require_dev),
        package_type: Some("library".to_string()),
        extra: None,
        autoload: None,
        autoload_dev: None,
        notification_url: None,
        license: vec![],
        description: None,
        homepage: None,
        keywords: vec![],
        time: None,
        replace: StrMap::new(),
        provide: StrMap::new(),
        conflict: StrMap::new(),
        suggest: StrMap::new(),
        bin: vec![],
        abandoned: None,
    }
}

fn pkg(name: &str, ver: &str, provide: &[(&str, &str)]) -> LockedPackage {
    let mut p = locked(name, ver, &[]);
    p.provide = links(provide);
    p
}

#[test]
fn multiple_providers_for_virtual() {
    let mut index = PackageIndex::new();
    index.insert_locked(pkg("vendor/impl-a", "1.0.0", &[("virtual/pkg", "1.0.0")]));
    index.insert_locked(pkg("vendor/impl-b", "2.0.0", &[("virtual/pkg", "2.0.0")]));
    index.register_virtual_packages();

    assert!(index.has_package("virtual/pkg"));
    assert_eq!(index.all_versions("virtual/pkg").len(), 2);
    assert_eq!(
        index.real_provider_for("virtual/pkg", "1.0.0"),
        Some("vendor/impl-a")
    );
    assert_eq!(
        index.real_provider_for("virtual/pkg", "2.0.0"),
        Some("vendor/impl-b")
    );
}

#[test]
fn self_version_uses_provider_version() {
    let mut index = PackageIndex::new();
    let mut provider = pkg("acme/provider", "2.3.0", &[]);
    provider
        .replace
        .insert("acme/virtual".to_string(), "self.version".to_string());
    index.insert_locked(provider);
    index.register_virtual_packages();

    let versions: Vec<_> = index
        .all_versions("acme/virtual")
        .into_iter()
        .map(|iv| iv.locked.version.as_str())
        .collect();
    assert_eq!(versions, vec!["2.3.0"]);
    assert_eq!(
        index.real_provider_for("acme/virtual", "2.3.0"),
        Some("acme/provider")
    );
}

#[test]
fn only_listed_does_not_walk_deps() {
    let lock = ComposerLock {
        packages: vec![
            locked("vendor/a", "1.0.0", &[("vendor/c", "^1.0")]),
            locked("vendor/b", "1.0.0", &[]),
            locked("vendor/c", "1.0.0", &[]),
        ],
        ..Default::default()
    };
    let roots = names(&["vendor/a", "vendor/b"]);
    let mutable = packages_allowed_to_change(
        &vec!["vendor/a".to_string()],
        &lock,
        true,
        UpdateDeps::OnlyListed,
        &roots,
    );
    assert!(mutable.contains("vendor/a"));
    assert!(!mutable.contains("vendor/c"));
    assert!(!mutable.contains("vendor/b"));
}

#[test]
fn with_dependencies_walks_non_root_deps() {
    let lock = ComposerLock {
        packages: vec![
            locked("vendor/a", "1.0.0", &[("vendor/c", "^1.0")]),
            locked("vendor/b", "1.0.0", &[]),
            locked("vendor/c", "1.0.0", &[]),
        ],
        ..Default::default()
    };
    let roots = names(&["vendor/a", "vendor/b"]);
    let mutable = packages_allowed_to_change(
        &vec!["vendor/a".to_string()],
        &lock,
        true,
        UpdateDeps::WithDependencies,
        &roots,
    );
    assert!(mutable.contains("vendor/a"));
    assert!(mutable.contains("vendor/c"));
    assert!(!mutable.contains("vendor/b"));
}

#[test]
fn with_dependencies_skips_root_requirements() {
    let lock = ComposerLock {
        packages: vec![
            locked("vendor/a", "1.0.0", &[("vendor/b", "^1.0")]),
            locked("vendor/b", "1.0.0", &[]),
        ],
        ..Default::default()
    };
    let roots = names(&["vendor/a", "vendor/b"]);
    let mutable = packages_allowed_to_change(
        &vec!["vendor/a".to_string()],
        &lock,
        true,
        UpdateDeps::WithDependencies,
        &roots,
    );
    assert!(mutable.contains("vendor/a"));
    assert!(!mutable.contains("vendor/b"));
}

#[test]
fn with_all_dependencies_includes_root_requirements() {
    let lock = ComposerLock {
        packages: vec![
            locked("vendor/a", "1.0.0", &[("vendor/b", "^1.0")]),
            locked("vendor/b", "1.0.0", &[]),
        ],
        ..Default::default()
    };
    let roots = names(&["vendor/a", "vendor/b"]);
    let mutable = packages_allowed_to_change(
        &vec!["vendor/a".to_string()],
        &lock,
        true,
        UpdateDeps::WithAllDependencies,
        &roots,
    );
    assert!(mutable.contains("vendor/a"));
    assert!(mutable.contains("vendor/b"));
}

#[test]
fn with_dependencies_walks_require_dev_when_with_dev() {
    let lock = ComposerLock {
        packages: vec![locked_full(
            "vendor/a",
            "1.0.0",
            &[],
            &[("vendor/phpunit", "^10.0")],
        )],
        packages_dev: vec![locked("vendor/phpunit", "10.0.0", &[])],
        ..Default::default()
    };
    let roots = names(&["vendor/a", "vendor/phpunit"]);
    let mutable_w = packages_allowed_to_change(
        &vec!["vendor/a".to_string()],
        &lock,
        true,
        UpdateDeps::WithDependencies,
        &roots,
    );
    assert!(mutable_w.contains("vendor/a"));
    assert!(!mutable_w.contains("vendor/phpunit"));

    let mutable_w_all = packages_allowed_to_change(
        &vec!["vendor/a".to_string()],
        &lock,
        true,
        UpdateDeps::WithAllDependencies,
        &roots,
    );
    assert!(mutable_w_all.contains("vendor/phpunit"));
}

#[test]
fn with_dependencies_skips_require_dev_when_no_dev() {
    let lock = ComposerLock {
        packages: vec![locked_full(
            "vendor/a",
            "1.0.0",
            &[("vendor/c", "^1.0")],
            &[("vendor/devtool", "^1.0")],
        )],
        packages_dev: vec![locked("vendor/devtool", "1.0.0", &[])],
        ..Default::default()
    };
    let roots = names(&["vendor/a"]);
    let mutable = packages_allowed_to_change(
        &vec!["vendor/a".to_string()],
        &lock,
        false,
        UpdateDeps::WithAllDependencies,
        &roots,
    );
    assert!(mutable.contains("vendor/a"));
    assert!(mutable.contains("vendor/c"));
    assert!(!mutable.contains("vendor/devtool"));
}

#[test]
fn with_w_frees_non_root_require_dev_dep() {
    let lock = ComposerLock {
        packages: vec![
            locked_full("vendor/a", "1.0.0", &[], &[("vendor/test-util", "^1.0")]),
            locked("vendor/test-util", "1.0.0", &[]),
        ],
        ..Default::default()
    };
    let roots = names(&["vendor/a"]);
    let mutable = packages_allowed_to_change(
        &vec!["vendor/a".to_string()],
        &lock,
        true,
        UpdateDeps::WithDependencies,
        &roots,
    );
    assert!(mutable.contains("vendor/a"));
    assert!(mutable.contains("vendor/test-util"));
}

#[test]
fn pins_exclude_mutable_packages() {
    let lock = ComposerLock {
        packages: vec![
            locked("vendor/a", "1.0.0", &[]),
            locked("vendor/b", "2.0.0", &[]),
        ],
        ..Default::default()
    };
    let mutable = names(&["vendor/a"]);
    let pins = build_locked_pins(&lock, &mutable, true);
    assert_eq!(
        pins.get("vendor/b").map(|p| p.version.as_str()),
        Some("2.0.0")
    );
    assert!(!pins.contains_key("vendor/a"));
}

#[test]
fn pin_to_locked_injects_missing_version() {
    let mut index = PackageIndex::new();
    index.insert_locked(locked("vendor/b", "1.1.0", &[]));
    let mut pins = StrMap::new();
    pins.insert("vendor/b".to_string(), locked("vendor/b", "1.0.0", &[]));
    index.pin_to_locked(&pins);
    let versions: Vec<_> = index
        .all_versions("vendor/b")
        .into_iter()
        .map(|iv| iv.locked.version.as_str())
        .collect();
    assert_eq!(versions, vec!["1.0.0"]);
}

#[test]
fn prefetch_follows_requirements_and_reports_what_is_missing() {
    let roots = vec![(
        PackageId::parse("acme/a").unwrap(),
        VersionConstraint::new("*"),
    )];
    let mut index = PackageIndex::new();
    let mut fetch = Prefetch::start(&roots);
    assert_eq!(fetch.next_wave(&index), vec!["acme/a".to_string()]);
    let body = br#"{"packages":{"acme/a":[{"version":"1.0.0","require":{"php":"^8","acme/b":"^1"}}]}}"#;
    let versions = parse_p2_response("acme/a", body).unwrap();
    fetch.found(&versions);
    index.insert_remote("acme/a", versions);
    assert!(!fetch.is_done());
    assert_eq!(fetch.next_wave(&index), vec!["acme/b".to_string()]);
    fetch.not_found("acme/b");
    assert!(fetch.is_done());
    let msg = fetch.check_missing(&index).unwrap_err().to_text();
    assert!(msg.contains("acme/b"), "{msg}");
}

#[test]
fn inline_packages_enter_the_index() {
    let m = ComposerJson::from_str(
        r#"{"repositories":[{"type":"package","package":{"name":"acme/inline","version":"1.2.0"}}]}"#,
    )
    .unwrap();
    let mut index = PackageIndex::new();
    insert_inline(&mut index, &m.repositories_list());
    assert!(index.has_package("acme/inline"));
    assert!(index.get("acme/inline", "1.2.0").is_some());
}

#[test]
fn a_partial_update_pins_the_rest() {
    let lock = ComposerLock {
        packages: vec![
            locked("vendor/a", "1.0.0", &[]),
            locked("vendor/b", "1.0.0", &[]),
        ],
        ..Default::default()
    };
    let mut index = PackageIndex::new();
    for v in ["1.0.0", "1.1.0"] {
        index.insert_locked(locked("vendor/a", v, &[]));
        index.insert_locked(locked("vendor/b", v, &[]));
    }
    let options = ResolveOptions {
        packages_to_update: vec!["vendor/a".to_string()],
        ..Default::default()
    };
    let fetch = Prefetch::start(&vec![]);
    settle_index(
        &mut index,
        Some(&lock),
        &options,
        &names(&["vendor/a", "vendor/b"]),
        &fetch,
    )
    .unwrap();
    assert_eq!(index.all_versions("vendor/a").len(), 2);
    assert_eq!(index.all_versions("vendor/b").len(), 1);
}

#[test]
fn requests_carry_the_root_manifest() {
    let m = ComposerJson::from_str(
        r#"{"name":"a/b","require":{"php":"^8.1","acme/x":"^1"},"conflict":{"acme/bad":"<2"},"replace":{"acme/old":"*"}}"#,
    )
    .unwrap();
    assert!(root_requirement_names(&m, true).contains("acme/x"));
    assert!(!root_requirement_names(&m, true).contains("php"));
    assert_eq!(platform_links(&m.require).len(), 1);
    let r = solve_request(
        &m,
        &ResolveOptions::default(),
        m.prod_deps().unwrap(),
        Platform::with_php("8.2.0").unwrap(),
    );
    assert_eq!(r.root_deps.len(), 1);
    assert_eq!(r.root_conflicts.len(), 1);
    assert_eq!(r.root_replace, vec!["acme/old".to_string()]);
}

#[test]
fn development_packages_are_told_apart() {
    let mut selected = StrMap::new();
    for p in [
        locked("acme/a", "1.0.0", &[("acme/b", "*")]),
        locked("acme/b", "1.0.0", &[]),
        locked("acme/dev", "1.0.0", &[("acme/tool", "*")]),
        locked("acme/tool", "1.0.0", &[]),
    ] {
        selected.insert(p.name.clone(), p);
    }
    let prod = vec![(
        PackageId::parse("acme/a").unwrap(),
        VersionConstraint::new("*"),
    )];
    let r = Resolution::split(&selected, &prod);
    let prod_names: Vec<&str> = r.packages.iter().map(|p| p.name.as_str()).collect();
    let dev_names: Vec<&str> = r.packages_dev.iter().map(|p| p.name.as_str()).collect();
    assert_eq!(prod_names, vec!["acme/a", "acme/b"]);
    assert_eq!(dev_names, vec!["acme/dev", "acme/tool"]);
    assert_eq!(r.all_packages().len(), 4);
    let m = ComposerJson::from_str(r#"{"require":{"php":"^8.1","acme/a":"*"}}"#).unwrap();
    let bytes = br#"{"require":{"php":"^8.1","acme/a":"*"}}"#;
    let lock = r.to_lock(&m, bytes).unwrap();
    assert_eq!(lock.packages.len(), 2);
    assert_eq!(lock.packages_dev.len(), 2);
    assert_eq!(lock.content_hash.len(), 32);
    assert_eq!(lock.platform.get("php").unwrap(), "^8.1");
}

#[test]
fn a_new_lock_belongs_to_its_manifest() {
    let r = Resolution::split(&StrMap::new(), &vec![]);
    let bytes = br#"{"name":"acme/app","require":{"acme/a":"*"}}"#;
    let m = ComposerJson::from_str(r#"{"name":"acme/app","require":{"acme/a":"*"}}"#).unwrap();
    let lock = r.to_lock(&m, bytes).unwrap();
    let same = br#"{"scripts":{"x":"y"},"require":{"acme/a":"*"},"name":"acme/app"}"#;
    let expected = content_hash_from_composer_json(same).unwrap();
    assert_eq!(hash_mismatch(&lock.content_hash, &expected), None);
    let other = br#"{"name":"acme/app","require":{"acme/a":"^1.0"}}"#;
    let expected = content_hash_from_composer_json(other).unwrap();
    assert!(hash_mismatch(&lock.content_hash, &expected).is_some());
}

#[test]
fn known_versions_are_listed() {
    let mut index = PackageIndex::new();
    index.insert_locked(locked("acme/a", "1.0.0", &[]));
    index.insert_locked(locked("acme/a", "1.1.0", &[]));
    let known: Vec<&str> =
        index.versions_of("acme/a").unwrap().iter().map(|p| p.version.as_str()).collect();
    assert_eq!(known, vec!["1.0.0", "1.1.0"]);
    assert!(index.versions_of("acme/b").is_none());
}
