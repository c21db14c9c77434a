use composer_rs::content_hash::{content_hash, relevant_content};
use composer_rs::installer_paths::InstallerPaths;
use composer_rs::json;
use composer_rs::json::Json;
use composer_rs::lock::{
    content_hash_from_composer_json, ComposerLock, DistInfo, LockedPackage,
};
use composer_rs::collections::StrMap;
use composer_rs::manifest::{ComposerJson, PreferInstall};
use composer_rs::php_json;
use composer_rs::repositories::{parse_repositories, Repository};

const FIXTURE_COMPOSER_JSON: &str = r#"{
    "name": "acme/widget-tool",
    "description": "ignored for hash",
    "minimum-stability": "stable",
    "prefer-stable": true,
    "require": {
        "php": "^8.3",
        "monolog/monolog": "^3.5",
        "ext-redis": "*"
    },
    "require-dev": {
        "phpunit/phpunit": "^10.5"
    },
    "extra": {
        "branch-alias": {
            "dev-main": "1.0.x-dev"
        }
    },
    "config": {
        "platform": {
            "php": "8.3.12"
        },
        "sort-packages": true
    }
}"#;

const FIXTURE_EXPECTED_HASH: &str = "9b37bf1b84c6c80e4dae34a4a6a8c18d";

const FIXTURE_EXPECTED_ENCODED: &str = r#"{"config":{"platform":{"php":"8.3.12"}},"extra":{"branch-alias":{"dev-main":"1.0.x-dev"}},"minimum-stability":"stable","name":"acme\/widget-tool","prefer-stable":true,"require":{"php":"^8.3","monolog\/monolog":"^3.5","ext-redis":"*"},"require-dev":{"phpunit\/phpunit":"^10.5"}}"#;

fn locked(name: &str, version: &str, dist_type: &str, url: &str, reference: Option<&str>) -> LockedPackage {
    LockedPackage {
        name: name.to_string(),
        version: version.to_string(),
        source: None,
        dist: Some(DistInfo {
            dist_type: dist_type.to_string(),
            url: url.to_string(),
            reference: reference.map(|r| r.to_string()),
            shasum: None,
            mirrors: None,
        }),
        require: StrMap::new(),
        require_dev: StrMap::new(),
        package_type: Some("library".to_string()),
        extra: None,
        autoload: None,
        autoload_dev: None,
        notification_url: None,
        license: vec![],
        description: None,
        homepage: None,
        keywords: vec![],
        time: None,
        replace: StrMap::new(),
        provide: StrMap::new(),
        conflict: StrMap::new(),
        suggest: StrMap::new(),
        bin: vec![],
        abandoned: None,
    }
}

#[test]
fn fixture_hash_matches_real_php() {
    let actual = content_hash(FIXTURE_COMPOSER_JSON.as_bytes()).unwrap();
    assert_eq!(actual, FIXTURE_EXPECTED_HASH);
}

#[test]
fn fixture_encoded_bytes_match_real_php() {
    let parsed = json::parse(FIXTURE_COMPOSER_JSON.as_bytes()).unwrap();
    let obj = match parsed {
        Json::Object(m) => m,
        other => panic!("not an object: {other:?}"),
    };
    let encoded = php_json::encode(&relevant_content(&obj));
    assert_eq!(encoded, FIXTURE_EXPECTED_ENCODED);
}

#[test]
fn require_key_order_preserved_from_source() {
    let json = r#"{"require":{"symfony/console":"^6.0","php":"^8.1"}}"#;
    let hash_symfony_first = content_hash(json.as_bytes()).unwrap();

    let json_reordered = r#"{"require":{"php":"^8.1","symfony/console":"^6.0"}}"#;
    let hash_php_first = content_hash(json_reordered.as_bytes()).unwrap();

    assert_ne!(hash_symfony_first, hash_php_first);
}

#[test]
fn missing_relevant_keys_hash_empty_object() {
    let bytes = br#"{"authors": [], "description": "x"}"#;
    let h = content_hash(bytes).unwrap();
    assert_eq!(h, "99914b932bd37a50b983c5e7c90ae93b");
}

#[test]
fn config_keys_other_than_platform_are_ignored() {
    let base = br#"{"name":"a/b"}"#;
    let with_config =
        br#"{"name":"a/b","config":{"sort-packages":true,"optimize-autoloader":false}}"#;
    assert_eq!(
        content_hash(base).unwrap(),
        content_hash(with_config).unwrap()
    );
}

#[test]
fn config_platform_participates() {
    let without = br#"{"name":"a/b"}"#;
    let with = br#"{"name":"a/b","config":{"platform":{"php":"8.2.0"}}}"#;
    assert_ne!(content_hash(without).unwrap(), content_hash(with).unwrap());
}

#[test]
fn top_level_must_be_object() {
    let err = content_hash(b"[]").unwrap_err();
    assert!(err.to_text().contains("JSON object"));
}

#[test]
fn type_and_package_rules() {
    let extra = json::parse(
        br#"{
            "installer-paths": {
                "wp-content/plugins/{$name}": ["type:wordpress-plugin"],
                "custom/loc": ["acme/special"],
                "vendor-plugins/{$name}": ["wpackagist-plugin/*"]
            }
        }"#,
    )
    .unwrap();
    let paths = InstallerPaths::from_extra(Some(&extra));
    let root = "/proj";

    assert_eq!(
        paths.resolve(root, "vendor/akismet", Some("wordpress-plugin")),
        Some("/proj/wp-content/plugins/akismet".to_string())
    );
    assert_eq!(
        paths.resolve(root, "acme/special", Some("library")),
        Some("/proj/custom/loc".to_string())
    );
    assert_eq!(
        paths.resolve(root, "wpackagist-plugin/foo", Some("library")),
        Some("/proj/vendor-plugins/foo".to_string())
    );
    assert!(paths
        .resolve(root, "symfony/console", Some("library"))
        .is_none());
}

#[test]
fn parse_basic() {
    let json = r#"{
            "name": "acme/app",
            "require": {
                "php": ">=8.1",
                "symfony/console": "^6.0"
            }
        }"#;
    let m = ComposerJson::from_str(json).unwrap();
    assert_eq!(m.name.as_deref(), Some("acme/app"));
    let deps = m.prod_deps().unwrap();
    assert_eq!(deps.len(), 1);
    assert_eq!(deps[0].0.as_str(), "symfony/console");
}

#[test]
fn parse_path_and_vcs() {
    let value = json::parse(
        br#"[
            { "type": "path", "url": "../libs/foo" },
            { "type": "vcs", "url": "https://github.com/acme/bar.git" },
            { "type": "composer", "url": "https://repo.packagist.org" }
        ]"#,
    )
    .unwrap();
    let repos = parse_repositories(Some(&value));
    assert_eq!(repos.len(), 3);
    assert!(matches!(&repos[0], Repository::Path { .. }));
    assert!(matches!(&repos[1], Repository::Vcs { url } if url.contains("github")));
}

#[test]
fn manifest_settings_have_defaults() {
    let m = ComposerJson::from_str("{}").unwrap();
    assert_eq!(m.vendor_dir(), "vendor");
    assert_eq!(m.bin_dir(), "vendor/bin");
    assert_eq!(m.minimum_stability(), "stable");
    assert!(m.secure_http());
    assert!(m.packagist_enabled());
    assert_eq!(m.preferred_install(), PreferInstall::Auto);
    assert!(m.resolve_prefer_dist(true, false));
    assert!(!m.resolve_prefer_dist(false, false));
    assert!(!m.resolve_prefer_dist(false, true));
    assert!(ComposerJson::from_str("[]").is_err());
}

#[test]
fn settings_are_read_back() {
    let mut m = ComposerJson::from_str("{}").unwrap();
    m.config_set("vendor-dir", Json::Str("deps".to_string()));
    assert_eq!(m.vendor_dir(), "deps");
    m.config_unset("vendor-dir");
    assert_eq!(m.vendor_dir(), "vendor");
    assert!(m.config_get("vendor-dir").is_none());
}

#[test]
fn a_manifest_keeps_members_it_does_not_know() {
    let text = r#"{"name":"a/b","require":{"php":"^8.1"},"archive":{"exclude":["/x"]}}"#;
    let m = ComposerJson::from_str(text).unwrap();
    let again = m.to_text().unwrap();
    assert_eq!(
        again,
        "{\n  \"name\": \"a/b\",\n  \"require\": {\n    \"php\": \"^8.1\"\n  },\n  \"archive\": {\n    \"exclude\": [\n      \"/x\"\n    ]\n  }\n}\n"
    );
    let read = ComposerJson::from_str(&again).unwrap();
    assert_eq!(read.to_text().unwrap(), again);
}

#[test]
fn roundtrip_minimal() {
    let lock = ComposerLock {
        packages: vec![locked(
            "foo/bar",
            "1.0.0",
            "zip",
            "https://example.com/foo.zip",
            Some("abc"),
        )],
        ..Default::default()
    };
    let json = lock.to_text().unwrap();
    let parsed = ComposerLock::from_str(&json).unwrap();
    assert_eq!(parsed.packages[0].name, "foo/bar");
}

#[test]
fn path_symlink_from_extra() {
    let mut pkg = locked("acme/lib", "1.0.0", "path", "/tmp/lib", None);
    pkg.extra = json::parse(br#"{ "composer-rs": { "symlink": false } }"#);
    assert!(!pkg.path_symlink());
    pkg.extra = None;
    assert!(pkg.path_symlink());
}

#[test]
fn content_hash_from_composer_json_is_md5_hex() {
    let json = br#"{"require":{"symfony/console":"^6.0"}}"#;
    let hash = content_hash_from_composer_json(json).unwrap();
    assert_eq!(hash.len(), 32);
    assert!(hash.chars().all(|c| c.is_ascii_hexdigit()));
}

#[test]
fn installed_json_splits_dev_packages() {
    let json = r#"{
            "packages": [
                {
                    "name": "acme/lib",
                    "version": "1.0.0",
                    "type": "library",
                    "license": "MIT",
                    "install-path": "../acme/lib",
                    "version_normalized": "1.0.0.0"
                },
                {
                    "name": "phpunit/phpunit",
                    "version": "10.0.0",
                    "type": "library"
                }
            ],
            "dev": true,
            "dev-package-names": ["phpunit/phpunit"]
        }"#;
    let lock = ComposerLock::from_installed_json_str(json).unwrap();
    assert_eq!(lock.packages.len(), 1);
    assert_eq!(lock.packages[0].name, "acme/lib");
    assert_eq!(lock.packages_dev.len(), 1);
    assert_eq!(lock.packages_dev[0].name, "phpunit/phpunit");
    assert_eq!(lock.packages_to_install(false).len(), 1);
    assert_eq!(lock.packages_to_install(true).len(), 2);
}

#[test]
fn a_lock_is_read_back_whole() {
    let mut p = locked("foo/bar", "1.0.0", "zip", "https://example.com/foo.zip", Some("abc"));
    p.require.insert("psr/log".to_string(), "^3".to_string());
    p.bin = vec!["bin/foo".to_string()];
    p.description = Some("A \"thing\"".to_string());
    let lock = ComposerLock {
        packages: vec![p],
        content_hash: "00ff".to_string(),
        ..Default::default()
    };
    let parsed = ComposerLock::from_str(&lock.to_text().unwrap()).unwrap();
    assert_eq!(parsed.content_hash, "00ff");
    let q = parsed.find("foo/bar").unwrap();
    assert_eq!(q.require.get("psr/log").unwrap(), "^3");
    assert_eq!(q.bin, vec!["bin/foo".to_string()]);
    assert_eq!(q.description.as_deref(), Some("A \"thing\""));
    assert_eq!(q.dist_url(), Some("https://example.com/foo.zip"));
    assert!(!q.is_metapackage());
}

#[test]
fn unreadable_locks_are_errors() {
    assert!(ComposerLock::from_str("{\"packages\": 3}").is_err());
    assert!(ComposerLock::from_installed_json_str("nothing").is_err());
}

#[test]
fn php_escapes_slashes_and_quotes() {
    let j = Json::Array(vec![
        Json::Str("a/b\"c\n".to_string()),
        Json::Bool(true),
        Json::Null,
        Json::Number("12".to_string()),
    ]);
    assert_eq!(php_json::encode(&j), r#"["a\/b\"c\n",true,null,12]"#);
}

#[test]
fn numbers_that_are_none_cannot_be_written() {
    assert!(json::pretty(&Json::Number("x".to_string())).is_none());
    assert_eq!(json::pretty(&Json::Number("-12".to_string())).unwrap(), "-12");
    assert_eq!(
        json::to_file(&Json::Array(vec![Json::Null])).unwrap(),
        "[\n  null\n]\n"
    );
}

#[test]
fn plugins_are_allowed_by_name() {
    let m = ComposerJson::from_str(
        r#"{"config":{"allow-plugins":{"acme/yes":true,"acme/no":false,"acme/odd":"x"}}}"#,
    )
    .unwrap();
    let plugins = m.allow_plugins();
    assert_eq!(plugins.get("acme/yes"), Some(&true));
    assert_eq!(plugins.get("acme/no"), Some(&false));
    assert_eq!(plugins.get("acme/odd"), None);
    let all = ComposerJson::from_str(r#"{"config":{"allow-plugins":true}}"#).unwrap();
    assert_eq!(all.allow_plugins().entries.len(), 0);
}
