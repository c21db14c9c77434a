use composer_rs::collections::StrMap;
use composer_rs::commands::audit::{
    advisories_url, audit_outcome, findings, parse_advisories, version_in_affected,
};
use composer_rs::commands::bump;
use composer_rs::commands::check_platform;
use composer_rs::commands::config_cmd::{
    config_action, get_value, set_value, ConfigAction, ConfigArgs,
};
use composer_rs::commands::depends::{
    forward_deps, reverse_dependents, run_depends, run_prohibits, run_why, DepKind, DependsArgs,
    Prohibition,
};
use composer_rs::commands::dump_autoload::lock_for_autoload;
use composer_rs::commands::duration::format_duration;
use composer_rs::commands::fund::{collect_funding, fund_lines};
use composer_rs::commands::init_cmd;
use composer_rs::commands::install::{
    hash_mismatch, planned_line, reinstall_targets, stats_line, warn_unapproved_plugins,
};
use composer_rs::commands::licenses::{license_rows, license_summary, licenses_json};
use composer_rs::commands::outdated::{
    classify_status, compute_row, outdated_outcome, packages_to_check, versions_equal,
    OutdatedArgs, OutdatedKind,
};
use composer_rs::commands::remove;
use composer_rs::commands::require::{
    add_requirement, caret_for, chosen_constraint, parse_package_spec,
};
use composer_rs::commands::run_script::{
    global_skeleton, program, project_dir, script_commands, script_names, search_path,
};
use composer_rs::commands::show::{direct_requirements, list_lines, locked_lines, show_tree};
use composer_rs::commands::status::{
    check_package, extra_package, status_outcome, FileState, InstalledState, IssueKind,
};
use composer_rs::commands::update::{partial_message, UpdateArgs};
use composer_rs::commands::validate;
use composer_rs::commands::why::why_chain;
use composer_rs::commands::{global_home, project_paths, Tone};
use composer_rs::download::{InstallEvent, InstallStats};
use composer_rs::installer_paths::InstallerPaths;
use composer_rs::json;
use composer_rs::json::Json;
use composer_rs::lock::{ComposerLock, DistInfo, License, LockedPackage};
use composer_rs::manifest::ComposerJson;
use composer_rs::platform::Platform;
use composer_rs::repo::RemotePackageVersion;
use composer_rs::resolve::UpdateDeps;
use composer_rs::version::ComposerVersion;

fn links(pairs: &[(&str, &str)]) -> StrMap<String> {
    let mut m = StrMap::new();
    for (k, v) in pairs {
        m.insert(k.to_string(), v.to_string());
    }
    m
}

fn locked(name: &str, ver: &str) -> LockedPackage {
    LockedPackage {
        name: name.to_string(),
        version: ver.to_string(),
        source: None,
        dist: Some(DistInfo {
            dist_type: "zip".to_string(),
            url: format!("https://example.com/{name}.zip"),
            reference: None,
            shasum: None,
            mirrors: None,
        }),
        require: StrMap::new(),
        require_dev: StrMap::new(),
        package_type: Some("library".to_string()),
        extra: None,
        autoload: None,
        autoload_dev: None,
        notification_url: None,
        license: vec![],
        description: None,
        homepage: None,
        keywords: vec![],
        time: None,
        replace: StrMap::new(),
        provide: StrMap::new(),
        conflict: StrMap::new(),
        suggest: StrMap::new(),
        bin: vec![],
        abandoned: None,
    }
}

fn pkg(name: &str, require: &[(&str, &str)], require_dev: &[(&str, &str)]) -> LockedPackage {
    let mut p = locked(name, "1.0.0");
    p.require = links(require);
    p.require_dev = links(require_dev);
    p
}

fn remote(name: &str, ver: &str) -> RemotePackageVersion {
    RemotePackageVersion {
        name: name.to_string(),
        version: ComposerVersion::parse(ver).unwrap(),
        version_normalized: format!("{ver}.0"),
        dist: None,
        source: None,
        require: StrMap::new(),
        require_dev: StrMap::new(),
        package_type: Some("library".to_string()),
        autoload: None,
        autoload_dev: None,
        provide: StrMap::new(),
        replace: StrMap::new(),
        conflict: StrMap::new(),
        bin: vec![],
        description: None,
        license: vec![],
        abandoned: None,
        time: None,
    }
}

fn depends(package: &str) -> DependsArgs {
    DependsArgs {
        package: package.to_string(),
        version: None,
        recursive: false,
        tree: false,
        no_dev: false,
    }
}

#[test]
fn matches_caret_range_and_or() {
    let v = ComposerVersion::parse("1.2.3").unwrap();
    assert!(version_in_affected(&v, "^1.0"));
    assert!(version_in_affected(&v, ">=1.0,<1.3"));
    assert!(version_in_affected(&v, "^2.0 || ^1.2"));
    assert!(!version_in_affected(&v, "^2.0"));
}

#[test]
fn star_matches_all() {
    let v = ComposerVersion::parse("9.9.9").unwrap();
    assert!(version_in_affected(&v, "*"));
}

#[test]
fn advisory_matcher_hits_locked_vulnerable_version() {
    let v = ComposerVersion::parse("1.2.3").unwrap();
    assert!(version_in_affected(&v, "^1.0"));
    assert!(!version_in_affected(&v, "^2.0"));
}

#[test]
fn audit_fails_when_an_advisory_matches_the_lock() {
    let body = json::parse(
        br#"{ "advisories": { "acme/vuln": [ {
            "advisoryId": "PKSA-123", "title": "RCE", "severity": "high",
            "cve": ["CVE-2024-0001"], "affectedVersions": "^1.0",
            "link": "https://example.com/cve" } ] } }"#,
    )
    .unwrap();
    let advisories = parse_advisories(&body).unwrap();
    let hit = locked("acme/vuln", "1.2.3");
    let safe = locked("acme/vuln", "2.0.0");
    let found = findings(&vec![&hit], &advisories);
    assert_eq!(found.len(), 1);
    assert_eq!(found[0].cve, "CVE-2024-0001");
    assert_eq!(found[0].severity, "high");
    assert!(audit_outcome(&found, 0).is_err());
    let none = findings(&vec![&safe], &advisories);
    assert!(none.is_empty());
    assert!(audit_outcome(&none, 0).is_ok());
}

#[test]
fn audit_fails_when_nobody_answers() {
    assert!(audit_outcome(&vec![], 1).is_err());
}

#[test]
fn advisories_are_asked_by_name() {
    let url = advisories_url(
        "https://packagist.org/api/security-advisories/",
        &vec!["acme/a".to_string(), "acme/b".to_string()],
    )
    .unwrap();
    assert_eq!(
        url,
        "https://packagist.org/api/security-advisories/?packages%5B%5D=acme%2Fa&packages%5B%5D=acme%2Fb"
    );
    assert!(advisories_url("no url", &vec![]).is_err());
}

#[test]
fn reverse_includes_require_dev_when_with_dev() {
    let a = pkg("acme/a", &[], &[("acme/phpunit", "^10")]);
    let phpunit = pkg("acme/phpunit", &[], &[]);
    let pkgs = vec![&a, &phpunit];
    let rev = reverse_dependents(&pkgs, true);
    let deps = rev.get("acme/phpunit").expect("phpunit dependents");
    assert!(deps
        .iter()
        .any(|(n, _, k)| n == "acme/a" && *k == DepKind::RequireDev));
    let rev_no_dev = reverse_dependents(&pkgs, false);
    assert!(rev_no_dev.get("acme/phpunit").is_none());
}

#[test]
fn why_chain_walks_require_dev_edge() {
    let phpunit = pkg("acme/phpunit", &[], &[("acme/util", "^1")]);
    let util = pkg("acme/util", &[], &[]);
    let pkgs = vec![&phpunit, &util];
    let graph = forward_deps(&pkgs, true);
    let chain = why_chain(&["acme/phpunit".to_string()], &graph, "acme/util").unwrap();
    assert_eq!(chain, vec!["acme/phpunit", "acme/util"]);

    let graph_prod = forward_deps(&pkgs, false);
    assert!(why_chain(&["acme/phpunit".to_string()], &graph_prod, "acme/util").is_none());
}

#[test]
fn the_shortest_chain_is_shown() {
    let a = pkg("acme/a", &[("acme/b", "*"), ("acme/d", "*")], &[]);
    let b = pkg("acme/b", &[("acme/c", "*")], &[]);
    let c = pkg("acme/c", &[("acme/d", "*")], &[]);
    let d = pkg("acme/d", &[], &[]);
    let graph = forward_deps(&vec![&a, &b, &c, &d], true);
    let chain = why_chain(&["acme/a".to_string()], &graph, "acme/d").unwrap();
    assert_eq!(chain, vec!["acme/a", "acme/d"]);
}

#[test]
fn dependents_are_listed() {
    let lock = ComposerLock {
        packages: vec![
            pkg("acme/a", &[("acme/b", "^1")], &[]),
            pkg("acme/b", &[], &[]),
        ],
        ..Default::default()
    };
    let out = run_depends(&depends("acme/b"), &lock);
    assert!(out.iter().any(|m| m.text.contains("acme/a")), "{out:?}");
    let none = run_depends(&depends("acme/a"), &lock);
    assert!(!none.iter().any(|m| m.text.contains("acme/b")), "{none:?}");
    let m = ComposerJson::from_str(r#"{"require":{"acme/a":"*"}}"#).unwrap();
    let why = run_why(&depends("acme/b"), &m, &lock).unwrap();
    assert!(why.contains("acme/a"), "{why}");
    assert!(run_why(&depends("acme/zz"), &m, &lock).is_err());
}

#[test]
fn prohibiting_requirements_are_found() {
    let m = ComposerJson::from_str(r#"{"require":{"acme/b":"^1.0"}}"#).unwrap();
    let mut args = depends("acme/b");
    args.version = Some("2.0.0".to_string());
    match run_prohibits(&args, &m, None).unwrap() {
        Prohibition::Found(lines) => assert!(lines[0].contains("^1.0"), "{lines:?}"),
        other => panic!("unexpected {other:?}"),
    }
    args.version = Some("1.5.0".to_string());
    assert!(matches!(
        run_prohibits(&args, &m, None).unwrap(),
        Prohibition::AskRepositories(_)
    ));
}

#[test]
fn wanted_respects_constraint_latest_is_max_stable() {
    let pkg = locked("acme/foo", "1.0.0");
    let versions = vec![
        remote("acme/foo", "1.0.0"),
        remote("acme/foo", "1.5.0"),
        remote("acme/foo", "2.0.0"),
    ];
    let row = compute_row(&pkg, &versions, Some("^1.0"));
    assert_eq!(row.current, "1.0.0");
    assert_eq!(row.wanted, "1.5.0");
    assert_eq!(row.latest, "2.0.0");
    assert_eq!(row.status, OutdatedKind::SemverSafe);
    assert!(row.is_outdated());
}

#[test]
fn major_only_when_at_wanted_but_latest_is_major() {
    let pkg = locked("acme/foo", "1.5.0");
    let versions = vec![remote("acme/foo", "1.5.0"), remote("acme/foo", "2.0.0")];
    let row = compute_row(&pkg, &versions, Some("^1.0"));
    assert_eq!(row.status, OutdatedKind::MajorOnly);
    assert!(row.is_outdated());
}

#[test]
fn up_to_date_when_current_equals_latest() {
    let pkg = locked("acme/foo", "2.0.0");
    let versions = vec![remote("acme/foo", "2.0.0")];
    let row = compute_row(&pkg, &versions, Some("^2.0"));
    assert_eq!(row.status, OutdatedKind::UpToDate);
    assert!(!row.is_outdated());
}

#[test]
fn version_equality_ignores_v_prefix() {
    assert!(versions_equal("v1.0.0", "1.0.0"));
    assert!(versions_equal("1.2.3", "1.2.3"));
    assert!(!versions_equal("1.0.0", "1.0.1"));
}

#[test]
fn classify_strict_triggers_on_major_and_semver_safe() {
    assert!(classify_status("1.0.0", "1.5.0", "2.0.0").is_outdated());
    assert!(classify_status("1.5.0", "1.5.0", "2.0.0").is_outdated());
    assert!(!classify_status("2.0.0", "2.0.0", "2.0.0").is_outdated());
}

#[test]
fn strict_outdated_fails() {
    let pkg = locked("acme/foo", "1.0.0");
    let row = compute_row(&pkg, &vec![remote("acme/foo", "2.0.0")], None);
    let rows = vec![row];
    assert!(outdated_outcome(&rows, true, 0, 1).is_err());
    assert!(outdated_outcome(&rows, false, 0, 1).is_ok());
    let lock = ComposerLock {
        packages: vec![locked("acme/foo", "1.0.0"), locked("acme/bar", "1.0.0")],
        ..Default::default()
    };
    let m = ComposerJson::from_str(r#"{"require":{"acme/foo":"*"}}"#).unwrap();
    let args = OutdatedArgs {
        direct: true,
        all: false,
        strict: false,
        major_only: false,
        minor_only: false,
        format: "table".to_string(),
        no_dev: false,
    };
    assert_eq!(packages_to_check(&args, &m, &lock).len(), 1);
}

#[test]
fn missing_lock_reads_installed_json() {
    let installed = r#"{
                "packages": [
                    {"name":"thecodingmachine/safe","version":"2.5.0"}
                ],
                "dev": false,
                "dev-package-names": []
            }"#;
    let lock = lock_for_autoload(
        None,
        Some(installed),
        "vendor/composer/installed.json",
        &vec![("composer".to_string(), true)],
    )
    .unwrap()
    .expect("installed.json");
    assert_eq!(lock.packages.len(), 1);
    assert_eq!(lock.packages[0].name, "thecodingmachine/safe");
}

#[test]
fn missing_lock_and_installed_errors_if_vendor_populated() {
    let err = lock_for_autoload(
        None,
        None,
        "vendor/composer/installed.json",
        &vec![("thecodingmachine".to_string(), true)],
    )
    .unwrap_err();
    assert!(
        err.to_text().contains("refusing to rewrite autoload"),
        "{err:?}"
    );
}

#[test]
fn missing_lock_empty_vendor_is_root_only() {
    assert!(lock_for_autoload(
        None,
        None,
        "vendor/composer/installed.json",
        &vec![("composer".to_string(), true)],
    )
    .unwrap()
    .is_none());
}

#[test]
fn durations_are_shown_in_units() {
    assert_eq!(format_duration(61, 0), "1m 01s");
    assert_eq!(format_duration(1, 500_000_000), "1.50s");
    assert_eq!(format_duration(0, 12_000_000), "12ms");
}

#[test]
fn bumping_raises_lower_bounds() {
    let lock = ComposerLock {
        packages: vec![locked("acme/a", "1.4.2")],
        ..Default::default()
    };
    let mut m = ComposerJson::from_str(r#"{"require":{"acme/a":"^1.0","php":"^8.1"}}"#).unwrap();
    let args = bump::BumpArgs {
        dev_only: false,
        no_dev_only: false,
        dry_run: false,
    };
    let out = bump::run(&args, &mut m, &lock);
    assert!(out.save);
    assert_eq!(m.require.get("acme/a").unwrap(), "^1.4.2");
    assert_eq!(m.require.get("php").unwrap(), "^8.1");
    let again = bump::run(&args, &mut m, &lock);
    assert_eq!(m.require.get("acme/a").unwrap(), "^1.4.2");
    assert!(!again.messages.iter().any(|x| x.text.contains("acme/a")));
}

#[test]
fn platform_requirements_are_checked() {
    let m = ComposerJson::from_str(r#"{"require":{"php":">=8.1"}}"#).unwrap();
    let args = check_platform::CheckPlatformArgs {
        no_dev: false,
        lock: false,
        ignore_platform_req: vec![],
    };
    let new = Platform::with_php("8.2.0").unwrap();
    let old = Platform::with_php("7.4.0").unwrap();
    assert!(check_platform::run(&args, &new, &m, None).is_ok());
    assert!(check_platform::run(&args, &old, &m, None).is_err());
}

#[test]
fn settings_are_shown_and_changed() {
    let mut m = ComposerJson::from_str("{}").unwrap();
    set_value(&mut m, "sort-packages", "true");
    assert_eq!(
        get_value(&m, "sort-packages").unwrap().as_bool(),
        Some(true)
    );
    assert!(get_value(&m, "nothing").is_err());
    let args = ConfigArgs {
        list: false,
        global: false,
        auth: false,
        unset: true,
        key: Some("k".to_string()),
        value: None,
    };
    assert!(matches!(config_action(&args), Ok(ConfigAction::Clear(k)) if k == "k"));
    let nothing = ConfigArgs {
        list: false,
        global: false,
        auth: false,
        unset: false,
        key: None,
        value: None,
    };
    assert!(config_action(&nothing).is_err());
}

#[test]
fn funding_is_collected() {
    let funding = json::parse(
        br#"[{"type":"github","url":"https://github.com/sponsors/x"},"https://x.example"]"#,
    )
    .unwrap();
    let mut out = Vec::new();
    collect_funding("acme/a", &funding, &mut out);
    assert_eq!(out[0].url, "https://github.com/sponsors/x");
    assert_eq!(out[0].fund_type.as_deref(), Some("github"));
    assert!(fund_lines(&out).iter().any(|l| l.contains("acme/a")));
}

#[test]
fn a_new_manifest_does_not_replace_another() {
    let args = init_cmd::InitArgs {
        name: Some("acme/new".to_string()),
        description: None,
        stability: "stable".to_string(),
        force: false,
    };
    let m = init_cmd::run(&args, Some("dir"), "composer.json", false).unwrap();
    assert_eq!(m.name.as_deref(), Some("acme/new"));
    assert!(init_cmd::run(&args, Some("dir"), "composer.json", true).is_err());
}

#[test]
fn installing_reports_what_it_did() {
    assert!(hash_mismatch("aa", "bb").is_some());
    assert!(hash_mismatch("aa", "aa").is_none());
    let p = locked("acme/a", "1.0.0");
    let line = planned_line(&InstallerPaths::default(), &p);
    assert!(line.contains("acme/a") && line.contains("1.0.0"), "{line}");
    let mut stats = InstallStats::of(4);
    stats.record(InstallEvent::Skipped);
    assert!(stats_line(&stats.snapshot()).contains("skipped: 1"));
    let mut plugin = locked("acme/plugin", "1.0.0");
    plugin.package_type = Some("composer-plugin".to_string());
    assert!(warn_unapproved_plugins(&vec![&p]).is_empty());
    let warned = warn_unapproved_plugins(&vec![&p, &plugin]);
    assert!(warned.iter().any(|l| l.contains("acme/plugin")), "{warned:?}");
    assert_eq!(
        reinstall_targets(vec![&p, &plugin], &vec!["acme/a".to_string()])
            .unwrap()
            .len(),
        1
    );
    assert!(reinstall_targets(vec![&p], &vec!["acme/zz".to_string()]).is_err());
}

#[test]
fn licenses_are_counted() {
    let mut a = locked("acme/a", "1.0.0");
    a.license = vec![License::One("MIT".to_string())];
    let mut b = locked("acme/b", "1.0.0");
    b.license = vec![License::Many(vec!["MIT".to_string(), "BSD".to_string()])];
    let rows = license_rows(&vec![&a, &b]);
    let tally = license_summary(&rows);
    assert_eq!(tally.get("MIT"), Some(&1));
    assert_eq!(tally.get("MIT OR BSD"), Some(&1));
    assert!(licenses_json(&rows).get("summary").is_some());
}

#[test]
fn removed_packages_are_gone() {
    let mut m =
        ComposerJson::from_str(r#"{"require":{"acme/a":"*"},"require-dev":{"acme/b":"*"}}"#)
            .unwrap();
    remove::run(&vec!["acme/a".to_string(), "acme/b".to_string()], &mut m).unwrap();
    assert!(m.require.is_empty());
    assert!(m.require_dev.is_empty());
    assert!(remove::run(&vec!["acme/zz".to_string()], &mut m).is_err());
}

#[test]
fn required_packages_are_added() {
    assert_eq!(
        parse_package_spec("acme/a:^1.2"),
        ("acme/a".to_string(), "^1.2".to_string())
    );
    assert_eq!(parse_package_spec("acme/a").1, "*");
    assert_eq!(caret_for("1.4.2"), "^1.0");
    assert_eq!(caret_for("0.4.2"), "^0.4");
    assert_eq!(chosen_constraint("*", Some("3.1.0")), "^3.0");
    assert_eq!(chosen_constraint("*", None), "*");
    assert_eq!(chosen_constraint("^2", Some("3.0.0.0")), "^2");
    let mut m = ComposerJson::from_str("{}").unwrap();
    add_requirement(&mut m, "acme/a", "^1", false);
    add_requirement(&mut m, "acme/b", "^2", true);
    assert_eq!(m.require.get("acme/a").unwrap(), "^1");
    assert_eq!(m.require_dev.get("acme/b").unwrap(), "^2");
}

#[test]
fn scripts_and_programs() {
    let m = ComposerJson::from_str(
        r#"{"scripts":{"test":["phpunit","echo done"],"lint":"phpcs"}}"#,
    )
    .unwrap();
    assert_eq!(script_commands(&m, "test"), vec!["phpunit", "echo done"]);
    assert_eq!(script_commands(&m, "lint"), vec!["phpcs"]);
    assert_eq!(script_names(&m).len(), 2);
    assert_eq!(search_path(Some("/p/bin"), Some("/usr/bin"), ":"), "/p/bin:/usr/bin");
    assert_eq!(program("/p/bin", "tool", true), "/p/bin/tool");
    assert_eq!(program("/p/bin", "tool", false), "tool");
    assert!(global_skeleton().is_object());
    assert_eq!(project_dir(None, "acme/app"), "app");
    assert_eq!(project_dir(Some("here"), "acme/app"), "here");
}

#[test]
fn packages_are_shown() {
    let mut a = pkg("acme/a", &[("acme/b", "^1")], &[]);
    a.description = Some("The A".to_string());
    let b = pkg("acme/b", &[], &[]);
    let text = locked_lines(&a).join("\n");
    assert!(text.contains("acme/a") && text.contains("The A"), "{text}");
    let m = ComposerJson::from_str(r#"{"require":{"acme/a":"*"}}"#).unwrap();
    let direct = direct_requirements(&m, true);
    assert_eq!(list_lines(&vec![&a, &b], &Some(direct)).len(), 1);
    assert_eq!(list_lines(&vec![&a, &b], &None).len(), 2);
    let mut all = StrMap::new();
    all.insert("acme/a".to_string(), a);
    all.insert("acme/b".to_string(), b);
    let tree = show_tree(&all, &vec!["acme/a".to_string()], true);
    assert!(tree.iter().any(|l| l.contains("acme/b")), "{tree:?}");
}

#[test]
fn vendor_is_compared_with_the_lock() {
    let p = locked("acme/a", "1.0.0");
    let gone = InstalledState {
        present: false,
        linked: false,
        marker: FileState::Absent,
        manifest: FileState::Absent,
        has_git: false,
    };
    let issues = check_package(&p, "/p/vendor/acme/a", &gone);
    assert_eq!(issues.len(), 1);
    assert_eq!(issues[0].kind, IssueKind::Missing);
    let (_, strict) = status_outcome(&issues, true);
    assert!(strict.is_err());
    let (message, fine) = status_outcome(&vec![], true);
    assert!(fine.is_ok());
    assert_eq!(message.tone, Tone::Success);
    let marked = InstalledState {
        present: true,
        linked: false,
        marker: FileState::Text("{".to_string()),
        manifest: FileState::Absent,
        has_git: false,
    };
    assert_eq!(check_package(&p, "/d", &marked)[0].kind, IssueKind::Modified);
    assert!(extra_package("acme", "x", "/p/vendor/acme/x", &vec![], true).is_some());
}

#[test]
fn partial_updates_say_what_they_touch() {
    assert!(partial_message(0, UpdateDeps::OnlyListed, true).is_none());
    assert!(partial_message(2, UpdateDeps::WithDependencies, true)
        .unwrap()
        .contains('2'));
    let args = UpdateArgs::follow_up();
    assert!(args.packages.is_empty());
}

#[test]
fn manifests_are_validated() {
    let args = validate::ValidateArgs {
        no_check_lock: false,
        strict: true,
    };
    let good = ComposerJson::from_str(
        r#"{"name":"acme/app","description":"d","license":"MIT","require":{"php":"^8.1"}}"#,
    )
    .unwrap();
    let bad = ComposerJson::from_str(r#"{"name":"app","require":{"acme/a":""}}"#).unwrap();
    let (_, fine) = validate::run(&args, &good, None, "00");
    let (said, refused) = validate::run(&args, &bad, None, "00");
    assert!(refused.is_err());
    assert!(said.iter().any(|m| m.text.contains("vendor/package")), "{said:?}");
    assert!(fine.is_ok());
    let lock = ComposerLock {
        content_hash: "11".to_string(),
        ..Default::default()
    };
    let (stale, _) = validate::run(&args, &good, Some(&lock), "00");
    assert!(stale.iter().any(|m| m.tone == Tone::Warning), "{stale:?}");
}

#[test]
fn places_of_a_project() {
    let (manifest, lock) = project_paths("/p");
    assert_eq!(manifest, "/p/composer.json");
    assert_eq!(lock, "/p/composer.lock");
    assert_eq!(global_home(Some("/h"), Some("/c")), "/h");
}

#[test]
fn json_values_are_found_by_key() {
    let j = json::parse(br#"{"a":{"b":[1,"x",null,true]}}"#).unwrap();
    match j.get("a").and_then(|a| a.get("b")) {
        Some(Json::Array(v)) => {
            assert!(matches!(&v[0], Json::Number(n) if n == "1"));
            assert_eq!(v[1].as_str(), Some("x"));
            assert!(matches!(v[2], Json::Null));
            assert_eq!(v[3].as_bool(), Some(true));
        }
        other => panic!("unexpected {other:?}"),
    }
    assert!(json::parse(b"{").is_none());
}
