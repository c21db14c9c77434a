use ahash::AHashSet;
use composer_rs::collections::StrMap;
use composer_rs::constraint::{split_constraint_and_clauses, VersionConstraint};
use composer_rs::error::Error;
use composer_rs::hash::{content_hash, ContentHash};
use composer_rs::json;
use composer_rs::package::{is_package_req, is_platform_req, PackageId};
use composer_rs::platform::{
    check_requirements, check_requirements_filtered, parse_extension_versions, parse_modules,
    platform_req_ignored, Platform,
};
use composer_rs::ranges::{
    conflict_to_ranges, constraint_to_ranges, contains_version, meets_min_stability,
};
use composer_rs::text;
use composer_rs::version::{version_normalized, ComposerVersion, Stability};

fn v(s: &str) -> ComposerVersion {
    ComposerVersion::parse(s).unwrap()
}

fn admits(constraint: &str, version: &str) -> bool {
    contains_version(
        &constraint_to_ranges(&VersionConstraint::new(constraint)),
        &v(version),
    )
}

fn links(pairs: &[(&str, &str)]) -> StrMap<String> {
    let mut m = StrMap::new();
    for (k, c) in pairs {
        m.insert(k.to_string(), c.to_string());
    }
    m
}

fn names(items: &[&str]) -> AHashSet<String> {
    items.iter().map(|i| i.to_string()).collect()
}

fn php(version: &str, extensions: &[&str], reliable: bool) -> Platform {
    Platform {
        php: v(version),
        extensions: names(extensions),
        ext_versions: StrMap::new(),
        reliable,
    }
}

#[test]
fn deterministic() {
    let a = content_hash(b"hello");
    let b = content_hash(b"hello");
    assert_eq!(a, b);
    assert_eq!(a.shard().len(), 2);
}

#[test]
fn blake3_of_hello() {
    let a = ContentHash::from_bytes(b"hello");
    assert_eq!(
        a.as_str(),
        "ea8f163db38682925e4491c5e58d4bb3506ef8c14eb78a86e908c5624a67200f"
    );
    assert_eq!(a.shard(), "ea");
}

#[test]
fn parse_normal() {
    let id = PackageId::parse("symfony/console").unwrap();
    assert_eq!(id.vendor(), "symfony");
    assert_eq!(id.name(), "console");
    assert!(!id.is_platform());
}

#[test]
fn parse_platform() {
    let id = PackageId::parse("php").unwrap();
    assert!(id.is_platform());
    let ext = PackageId::parse("ext-json").unwrap();
    assert!(ext.is_platform());
}

#[test]
fn vendor_packages_are_not_platform() {
    assert!(!PackageId::parse("phpunit/phpunit").unwrap().is_platform());
    assert!(!PackageId::parse("php/foo").unwrap().is_platform());
}

#[test]
fn package_names_without_a_part_are_refused() {
    assert!(matches!(
        PackageId::parse(" /console"),
        Err(Error::InvalidPackageName(n)) if n == "/console"
    ));
    assert!(PackageId::parse("  ").is_err());
    assert!(PackageId::parse("acme/").is_err());
    assert!(is_platform_req("ext-json"));
    assert!(is_package_req("symfony/console"));
    assert!(!is_package_req("php"));
    assert_eq!(
        PackageId::new("symfony", "console").as_str(),
        "symfony/console"
    );
}

#[test]
fn composer_version_normalized_four_parts() {
    assert_eq!(version_normalized("1.2.3"), "1.2.3.0");
    assert_eq!(version_normalized("v2.0.0"), "2.0.0.0");
    assert_eq!(version_normalized("1.0"), "1.0.0.0");
    assert!(version_normalized("dev-main").contains("dev-main"));
}

#[test]
fn caret() {
    let c = VersionConstraint::new("^1.2.3");
    assert!(c.matches(&v("1.2.3")));
    assert!(c.matches(&v("1.9.0")));
    assert!(!c.matches(&v("2.0.0")));
    assert!(!c.matches(&v("1.2.2")));
}

#[test]
fn tilde() {
    let c = VersionConstraint::new("~1.2.3");
    assert!(c.matches(&v("1.2.3")));
    assert!(c.matches(&v("1.2.9")));
    assert!(!c.matches(&v("1.3.0")));
}

#[test]
fn range() {
    let c = VersionConstraint::new(">=1.0 <2.0");
    assert!(c.matches(&v("1.5.0")));
    assert!(!c.matches(&v("2.0.0")));
}

#[test]
fn or_constraint() {
    let c = VersionConstraint::new("^1.0 || ^2.0");
    assert!(c.matches(&v("1.5.0")));
    assert!(c.matches(&v("2.1.0")));
    assert!(!c.matches(&v("3.0.0")));
}

#[test]
fn ordering() {
    assert!(v("1.0.0") < v("2.0.0"));
    assert!(v("1.0.0-beta") < v("1.0.0"));
}

#[test]
fn version_parts_and_stability() {
    let a = v("v1.2.3-beta2");
    assert_eq!(a.numeric_parts(), (1, 2, 3));
    assert_eq!(a.stability(), Stability::Beta);
    assert!(!a.is_stable());
    assert_eq!(v("dev-main").stability(), Stability::Dev);
    assert!(v("3.4.5").is_stable());
    assert_eq!(ComposerVersion::release(4, 5, 6).as_str(), "4.5.6");
    assert!(v("1.0.0").order_key() < v("1.0.1").order_key());
}

#[test]
fn a_version_that_is_no_number_is_refused() {
    assert!(matches!(
        ComposerVersion::parse("not-a-version"),
        Err(Error::InvalidVersion(_))
    ));
}

#[test]
fn constraints_split_into_clauses() {
    assert_eq!(
        split_constraint_and_clauses(">=1.0, <2.0"),
        vec![">=1.0".to_string(), "<2.0".to_string()]
    );
    assert_eq!(
        split_constraint_and_clauses(">= 7.1"),
        vec![">=7.1".to_string()]
    );
}

#[test]
fn caret_contains() {
    assert!(admits("^1.2.3", "1.2.3"));
    assert!(admits("^1.2.3", "1.9.0"));
    assert!(!admits("^1.2.3", "2.0.0"));
    assert!(!admits("^1.2.3", "1.2.2"));
}

#[test]
fn or_union() {
    assert!(admits("^1.0 || ^2.0", "1.5.0"));
    assert!(admits("^1.0 || ^2.0", "2.1.0"));
    assert!(!admits("^1.0 || ^2.0", "3.0.0"));
}

#[test]
fn conflict_complement_excludes_matching_versions() {
    let r = conflict_to_ranges(&VersionConstraint::new("^1.0"));
    assert!(!contains_version(&r, &v("1.2.0")));
    assert!(contains_version(&r, &v("2.0.0")));
}

#[test]
fn spaced_ge_includes_newer_majors() {
    assert!(admits(">= 7.1", "7.1.0"));
    assert!(admits(">= 7.1", "8.5.9"));
    assert!(!admits(">= 7.1", "7.0.0"));
}

#[test]
fn hyphen_range_php_branch() {
    assert!(admits("8.1 - 8.5", "8.1.0"));
    assert!(admits("8.1 - 8.5", "8.5.9"));
    assert!(!admits("8.1 - 8.5", "8.0.0"));
    assert!(!admits("8.1 - 8.5", "8.6.0"));
}

#[test]
fn double_equals_is_exact() {
    assert!(admits("== 1.0.0", "1.0.0"));
    assert!(!admits("== 1.0.0", "2.0.0"));
}

#[test]
fn diamond_not_equal_excludes_version() {
    assert!(admits("<> 2.0.0", "1.0.0"));
    assert!(!admits("<> 2.0.0", "2.0.0"));
}

#[test]
fn unparseable_operator_does_not_fail_open() {
    assert!(!admits("== not-a-version", "1.0.0"));
    assert!(!admits("== not-a-version", "9.9.9"));
}

#[test]
fn every_operator_has_its_range() {
    assert!(admits("<= 2.0.0", "2.0.0"));
    assert!(!admits("<= 2.0.0", "2.0.1"));
    assert!(admits("< 2.0.0", "1.9.9"));
    assert!(!admits("< 2.0.0", "2.0.0"));
    assert!(admits("> 2.0.0", "2.0.1"));
    assert!(!admits("> 2.0.0", "2.0.0"));
    assert!(admits("!= 2.0.0", "2.0.1"));
    assert!(!admits("!= 2.0.0", "2.0.0"));
    assert!(admits("= 2.0.0", "2.0.0"));
    assert!(admits("2.*", "2.7.1"));
    assert!(!admits("2.*", "3.0.0"));
    assert!(admits("~1.2", "1.9.0"));
    assert!(!admits("~1.2", "2.0.0"));
    assert!(admits("~1.2.3", "1.2.9"));
    assert!(!admits("~1.2.3", "1.3.0"));
    assert!(admits("*", "0.0.1"));
    assert!(admits("^0.3.1", "0.3.9"));
    assert!(!admits("^0.3.1", "0.4.0"));
}

#[test]
fn stability_floor() {
    assert!(meets_min_stability(&v("1.0.0"), Stability::Stable));
    assert!(!meets_min_stability(&v("1.0.0-beta1"), Stability::Stable));
    assert!(meets_min_stability(&v("1.0.0-beta1"), Stability::Alpha));
    assert_eq!(Stability::parse("RC"), Stability::Rc);
}

#[test]
fn satisfies_php_constraint() {
    let platform = php("8.2.0", &["json"], true);
    assert!(platform.satisfies("php", ">=8.1"));
    assert!(!platform.satisfies("php", ">=8.3"));
    assert!(platform.satisfies("php", ">= 7.1"));
    assert!(platform.satisfies("php", ">= 8.2"));
    assert!(platform.satisfies("php", "8.1 - 8.5"));
    assert!(platform.satisfies("ext-json", "*"));
    assert!(!platform.satisfies("ext-missing", "*"));
}

#[test]
fn hyphen_php_range_accepts_patch_on_upper_minor() {
    let platform = Platform::with_php("8.5.9").unwrap();
    assert!(platform.satisfies("php", "8.1 - 8.5"));
    assert!(!platform.satisfies("php", "8.1 - 8.4"));
}

#[test]
fn unreliable_never_satisfies() {
    let platform = php("0.0.0", &[], false);
    assert!(!platform.satisfies("php", ">=7.0"));
    let req = links(&[("php", ">=8.1")]);
    assert!(check_requirements(&platform, &req).is_err());
}

#[test]
fn config_platform_override() {
    let mut platform = php("0.0.0", &[], false);
    let config =
        json::parse(br#"{ "platform": { "php": "8.1.0", "ext-json": "1" } }"#).unwrap();
    platform.apply_config_platform(Some(&config));
    assert!(platform.reliable);
    assert!(platform.satisfies("php", ">=8.1"));
    assert!(platform.satisfies("ext-json", "*"));
}

#[test]
fn config_platform_false_disables_loaded_extension() {
    let mut platform = php("8.2.0", &["json"], true);
    platform.ext_versions.insert("json".to_string(), v("8.2.0"));
    let config = json::parse(br#"{ "platform": { "ext-json": false } }"#).unwrap();
    platform.apply_config_platform(Some(&config));
    assert!(!platform.satisfies("ext-json", "*"));
}

#[test]
fn extension_version_constraint_is_checked() {
    let mut platform = php("8.2.0", &["json"], true);
    platform.ext_versions.insert("json".to_string(), v("8.2.0"));
    assert!(platform.satisfies("ext-json", ">=8.0"));
    assert!(!platform.satisfies("ext-json", ">=999"));
    platform.ext_versions = StrMap::new();
    assert!(platform.satisfies("ext-json", "*"));
    assert!(!platform.satisfies("ext-json", ">=999"));
}

#[test]
fn probe_output_is_read() {
    let (loaded, versions) = parse_extension_versions("json\t8.2.0\nredis\t5.3.7\ncore\t\n");
    assert!(loaded.contains("json"));
    assert!(loaded.contains("redis"));
    assert_eq!(versions.get("redis").unwrap().as_str(), "5.3.7");
    let modules = parse_modules("[PHP Modules]\njson\nPDO\n\n[Zend Modules]\n");
    assert!(modules.contains("json"));
    assert!(modules.contains("pdo"));
    assert!(!modules.contains("[php modules]"));
}

#[test]
fn ignored_platform_requirements_are_passed_over() {
    let platform = php("8.2.0", &[], true);
    let req = links(&[("ext-redis", "*"), ("php", ">=8.1")]);
    assert!(check_requirements(&platform, &req).is_err());
    let ignored = vec!["ext-*".to_string()];
    assert!(platform_req_ignored("ext-redis", &ignored));
    assert!(!platform_req_ignored("php", &ignored));
    assert!(check_requirements_filtered(&platform, &req, &ignored).is_ok());
}

#[test]
fn map_keeps_keys_in_order() {
    let m = links(&[("b", "2"), ("a", "1"), ("b", "3")]);
    assert_eq!(m.len(), 2);
    assert_eq!(m.entries[0].0, "a");
    assert_eq!(m.get("b").unwrap(), "3");
    let mut s = names(&["x"]);
    assert!(!s.insert("x".to_string()));
    s.remove("x");
    assert!(!s.contains("x"));
}

#[test]
fn every_error_has_its_text() {
    assert_eq!(
        Error::PackageNotFound("acme/x".to_string()).to_text(),
        "package not found: acme/x"
    );
    let e = Error::NoMatchingVersion {
        package: "acme/x".to_string(),
        constraint: "^1".to_string(),
    };
    assert!(e.to_text().contains("acme/x"));
    assert!(e.to_text().contains("^1"));
    assert!(Error::io("/a/b", "denied").to_text().contains("/a/b"));
    assert!(Error::archive("bad").to_text().contains("bad"));
    assert!(Error::download("http://x", "502").to_text().contains("502"));
    assert_eq!(Error::other("plain").to_text(), "plain");
}

#[test]
fn sets_hold_the_versions_that_satisfy_a_constraint() {
    let constraints = [
        "^1.2", "~1.2.3", "~1.2", ">=1.0 <2.0", "1.0 - 2.0", "1.2.*", "1.*", "=1.2.3", "1.2.3",
        "^1.0 || ^3.0", ">1.2.3,<=2.0.0", "^0.3", "*", "",
    ];
    let versions = [
        "0.3.0", "0.4.0", "1.0.0", "1.2.0", "1.2.3", "1.2.9", "1.3.0", "1.9.9", "2.0.0", "2.0.1",
        "3.0.0",
    ];
    for c in constraints {
        let constraint = VersionConstraint::new(c);
        let set = constraint_to_ranges(&constraint);
        for v in versions {
            let version = ComposerVersion::parse(v).unwrap();
            assert_eq!(contains_version(&set, &version), constraint.matches(&version), "{c} {v}");
        }
    }
    let two = constraint_to_ranges(&VersionConstraint::new("1.2.3"));
    assert!(contains_version(&two, &ComposerVersion::parse("1.2.3").unwrap()));
    assert!(!contains_version(&two, &ComposerVersion::parse("1.2.4").unwrap()));
}

#[test]
fn a_platform_is_made_of_a_version_and_extensions() {
    let extensions = vec!["JSON".to_string(), "mbstring".to_string()];
    let p = Platform::with_php_and_extensions("8.2.0", &extensions).unwrap();
    assert!(p.reliable);
    assert_eq!(p.php_version().as_str(), "8.2.0");
    assert!(p.extension_loaded("json", "*"));
    assert!(!p.extension_loaded("redis", "*"));
    assert!(matches!(
        Platform::with_php_and_extensions("", &extensions),
        Err(Error::InvalidVersion(_))
    ));
}

#[test]
fn alternatives_and_lists_of_clauses() {
    let clauses = ["^1.0", "~1.2", ">=1.5", "<2.0", "!=1.2.3", "1.2.*", "1.2.3", "*"];
    let versions = ["1.0.0", "1.2.3", "1.5.0", "2.0.0", "3.1.4"];
    for version in versions {
        let version = v(version);
        let m = |c: &str| VersionConstraint::new(c).matches(&version);
        for a in clauses {
            for b in clauses {
                let either = m(a) || m(b);
                assert_eq!(m(&format!("{a} || {b}")), either);
                assert_eq!(m(&format!("{a}||{b}")), either);
                assert_eq!(m(&format!("{a}|{b}")), either);
                let both = m(a) && m(b);
                assert_eq!(m(&format!("{a} {b}")), both);
                assert_eq!(m(&format!("{a},{b}")), both);
            }
        }
        assert!(m("") && m("*"));
    }
    assert!(VersionConstraint::new(">=1.5 <2.0").matches(&v("1.7.0")));
    assert!(!VersionConstraint::new(">=1.5 <2.0").matches(&v("2.0.0")));
}

#[test]
fn a_platform_section_is_applied_once() {
    let fresh = || {
        let mut p = php("8.2.0", &["json", "intl"], true);
        p.ext_versions.insert("json".to_string(), v("8.2.0"));
        p
    };
    let shown = |p: &Platform| {
        let mut loaded: Vec<&String> = p.extensions.iter().collect();
        loaded.sort();
        format!("{:?} {loaded:?} {:?} {}", p.php, p.ext_versions, p.reliable)
    };
    for text in ["{}", r#"{"platform":null}"#, r#"{"platform":[]}"#, "[]"] {
        let mut p = fresh();
        p.apply_config_platform(Some(&json::parse(text.as_bytes()).unwrap()));
        assert_eq!(shown(&p), shown(&fresh()));
    }
    let mut p = fresh();
    p.apply_config_platform(None);
    assert_eq!(shown(&p), shown(&fresh()));
    let config = json::parse(
        br#"{"platform":{"php":"8.3.1","ext-JSON":false,"ext-redis":"6.0","lib-x":"1","z":false}}"#,
    )
    .unwrap();
    p.apply_config_platform(Some(&config));
    assert!(p.reliable);
    assert!(!p.satisfies("ext-json", "*"));
    assert!(!p.satisfies("ext-Json", ">=1"));
    assert!(p.satisfies("ext-redis", "^6.0"));
    assert!(p.satisfies("ext-intl", "*"));
    assert!(p.satisfies("php", "8.3.1"));
    let once = shown(&p);
    p.apply_config_platform(Some(&config));
    assert_eq!(shown(&p), once);
    let mut p = fresh();
    let other = json::parse(br#"{"platform":{"lib-x":"1","composer-api":"2","z":false}}"#).unwrap();
    p.apply_config_platform(Some(&other));
    assert_eq!(shown(&p), shown(&fresh()));
}

#[test]
fn hashes_are_lower_case_hexadecimal() {
    let h = ContentHash::from_bytes(b"abc");
    assert_eq!(h.as_str().len(), 64);
    assert!(h.as_str().chars().all(|c| matches!(c, '0'..='9' | 'a'..='f')));
}

#[test]
fn lines_end_at_line_feeds() {
    for s in ["", "a", "a\n", "a\r\nb", "a\n\nb\r", "\r\n\r", "a\rb\n", "\n", "\r"] {
        let expected: Vec<&str> = s.lines().collect();
        assert_eq!(text::lines(s), expected, "{s:?}");
    }
}
