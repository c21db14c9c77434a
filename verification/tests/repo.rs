use composer_rs::auth::AuthStore;
use composer_rs::constraint::VersionConstraint;
use composer_rs::error::Error;
use composer_rs::json;
use composer_rs::manifest::ComposerJson;
use composer_rs::package::PackageId;
use composer_rs::repo::{
    after_best, after_search, after_versions, base_url, disk_path, find_best, is_insecure_http,
    metadata_identity, metadata_url, nothing_found, parse_p2_response, pick_best,
    repository_setups, search_results, search_url, urlencoding_minimal, Answer, Next,
};
use composer_rs::version::Stability;

#[test]
fn parse_sample_p2() {
    let sample = r#"{
            "packages": {
                "psr/log": [
                    {
                        "version": "3.0.0",
                        "version_normalized": "3.0.0.0",
                        "dist": {
                            "type": "zip",
                            "url": "https://api.github.com/repos/php-fig/log/zipball/fe5ea303b0887d5caefd3d431c3e61ad47037001",
                            "reference": "fe5ea303b0887d5caefd3d431c3e61ad47037001"
                        },
                        "require": { "php": ">=8.0.0" },
                        "type": "library",
                        "autoload": {
                            "psr-4": { "Psr\\Log\\": "src" }
                        }
                    }
                ]
            }
        }"#;
    let versions = parse_p2_response("psr/log", sample.as_bytes()).unwrap();
    assert_eq!(versions.len(), 1);
    assert_eq!(versions[0].version.raw, "3.0.0");
    assert!(versions[0].dist.is_some());
}

#[test]
fn parse_p2_preserves_dist_mirrors_string_and_object() {
    let sample = r#"{
            "packages": {
                "acme/lib": [
                    {
                        "version": "1.0.0",
                        "dist": {
                            "type": "zip",
                            "url": "https://primary.example/acme.zip",
                            "reference": "abc",
                            "mirrors": [
                                "https://mirror.example/acme.zip",
                                { "url": "https://mirror2.example/acme.zip" }
                            ]
                        }
                    }
                ]
            }
        }"#;
    let versions = parse_p2_response("acme/lib", sample.as_bytes()).unwrap();
    let dist = versions[0].dist.as_ref().expect("dist");
    let mirrors = dist.mirrors.as_ref().expect("mirrors");
    assert_eq!(mirrors.len(), 2);
    assert_eq!(mirrors[0].as_str(), Some("https://mirror.example/acme.zip"));
    assert_eq!(
        mirrors[1].get("url").and_then(|v| v.as_str()),
        Some("https://mirror2.example/acme.zip")
    );
    let locked = versions[0].to_locked();
    assert_eq!(
        format!("{:?}", locked.dist.as_ref().unwrap().mirrors),
        format!("{:?}", dist.mirrors)
    );
}

#[test]
fn parse_p2_accepts_array_scalars_used_by_gitlab() {
    let sample = r#"{
            "packages": {
                "acme/lib": [
                    {
                        "version": "1.0.0",
                        "description": ["line one", "line two"],
                        "type": ["library"],
                        "time": ["2024-01-01T00:00:00+00:00"],
                        "dist": {
                            "type": "zip",
                            "url": [
                                "https://gitlab.example/a.zip",
                                "https://gitlab.example/b.zip"
                            ],
                            "reference": ["abc"]
                        },
                        "require": { "php": [">=8.1"] },
                        "autoload": {
                            "classmap": "src/Foo.php",
                            "psr-4": { "Acme\\": ["src/", "lib/"] }
                        }
                    }
                ]
            }
        }"#;
    let versions = parse_p2_response("acme/lib", sample.as_bytes()).unwrap();
    assert_eq!(versions.len(), 1);
    assert_eq!(versions[0].description.as_deref(), Some("line one"));
    assert_eq!(versions[0].package_type.as_deref(), Some("library"));
    let dist = versions[0].dist.as_ref().expect("dist");
    assert_eq!(dist.url, "https://gitlab.example/a.zip");
    assert_eq!(dist.reference.as_deref(), Some("abc"));
    assert_eq!(
        versions[0].require.get("php").map(String::as_str),
        Some(">=8.1")
    );
    let al = versions[0].autoload.as_ref().expect("autoload");
    assert_eq!(al.classmap, vec!["src/Foo.php"]);
    assert_eq!(al.psr4.get("Acme\\").unwrap().paths(), vec!["src/", "lib/"]);
}

#[test]
fn metadata_identity_includes_origin() {
    let auth = AuthStore::default();
    let a = metadata_identity(&auth, &base_url("https://repo-a.example"), "acme/shared");
    let b = metadata_identity(&auth, &base_url("https://repo-b.example"), "acme/shared");
    assert_ne!(a, b);
    assert_ne!(disk_path("/cache", &a), disk_path("/cache", &b));
}

#[test]
fn packagist_disabled_does_not_insert_default() {
    let manifest =
        ComposerJson::from_str(r#"{"repositories":{"packagist.org":false}}"#).unwrap();
    let reg = repository_setups(&manifest).unwrap();
    assert_eq!(reg.len(), 0);
}

#[test]
fn secure_http_rejects_plaintext_composer_repo() {
    let manifest = ComposerJson::from_str(
        r#"{"repositories":[{"type":"composer","url":"http://repo.example"}]}"#,
    )
    .unwrap();
    let err = match repository_setups(&manifest) {
        Ok(_) => panic!("expected insecure HTTP to be rejected"),
        Err(e) => e.to_text(),
    };
    assert!(err.contains("insecure"), "{err}");
}

#[test]
fn secure_http_false_allows_plaintext_repo() {
    let manifest = ComposerJson::from_str(
        r#"{
                "config": {"secure-http": false},
                "repositories": {
                    "custom": {"type":"composer","url":"http://repo.example"},
                    "packagist.org": false
                }
            }"#,
    )
    .unwrap();
    let reg = repository_setups(&manifest).unwrap();
    assert_eq!(reg.len(), 1);
}

#[test]
fn packagist_is_asked_by_default() {
    let reg = repository_setups(&ComposerJson::from_str("{}").unwrap()).unwrap();
    assert_eq!(reg.len(), 1);
    assert_eq!(reg[0].base_url, "https://repo.packagist.org");
}

#[test]
fn addresses_of_metadata_and_search() {
    assert_eq!(
        metadata_url("https://r.example", "acme/lib"),
        "https://r.example/p2/acme/lib.json"
    );
    assert!(is_insecure_http("http://r.example"));
    assert!(!is_insecure_http("https://r.example"));
    assert_eq!(urlencoding_minimal("a b/c"), "a+b%2Fc");
    assert!(search_url("https://r.example", "log er", 7).contains("log+er"));
    assert!(search_url("https://r.example", "log er", 7).contains('7'));
}

#[test]
fn best_version_follows_constraint_and_stability() {
    let sample = r#"{"packages":{"acme/lib":[
        {"version":"1.0.0"},{"version":"1.4.0"},{"version":"2.0.0-beta1"},{"version":"1.9.0-alpha1"}
    ]}}"#;
    let versions = parse_p2_response("acme/lib", sample.as_bytes()).unwrap();
    let one = VersionConstraint::new("^1.0");
    let at = pick_best(&versions, &one, true, Stability::Stable).unwrap();
    assert_eq!(versions[at].version.raw, "1.4.0");
    let name = PackageId::parse("acme/lib").unwrap();
    let found = find_best(&versions, &name, &one, true, "stable").unwrap();
    assert_eq!(found.version.raw, "1.4.0");
    let none = find_best(&versions, &name, &VersionConstraint::new("^3"), true, "stable");
    assert!(matches!(none, Err(Error::NoMatchingVersion { .. })));
}

#[test]
fn repositories_are_asked_in_turn() {
    assert_eq!(after_versions(Answer::Found), Next::Take);
    assert_eq!(after_versions(Answer::NotFound), Next::Ask);
    assert_eq!(after_versions(Answer::Failed), Next::Fail);
    assert_eq!(after_best(Answer::NoMatch), Next::Ask);
    assert_eq!(after_best(Answer::Failed), Next::Fail);
    assert_eq!(after_search(Answer::Found, false), Next::Take);
    let name = PackageId::parse("acme/lib").unwrap();
    let c = VersionConstraint::new("^1");
    assert!(matches!(
        nothing_found(&name, &c, false),
        Error::PackageNotFound(_)
    ));
    assert!(matches!(
        nothing_found(&name, &c, true),
        Error::NoMatchingVersion { .. }
    ));
}

#[test]
fn search_answers_are_read() {
    let doc = json::parse(
        br#"{"results":[{"name":"acme/lib","description":"d","downloads":12,"favers":3}]}"#,
    )
    .unwrap();
    let r = search_results(&doc).unwrap();
    assert_eq!(r.len(), 1);
    assert_eq!(r[0].name, "acme/lib");
    assert_eq!(r[0].downloads, Some(12));
    assert_eq!(r[0].favers, Some(3));
}

#[test]
fn metadata_that_is_no_json_is_an_error() {
    assert!(parse_p2_response("acme/lib", b"<html>").is_err());
}

#[test]
fn requirements_on_the_platform_are_left_out() {
    let sample = r#"{"packages":{"acme/lib":[{"version":"1.0.0",
        "require":{"php":">=8.1","ext-json":"*","acme/other":"^2.0"}}]}}"#;
    let versions = parse_p2_response("acme/lib", sample.as_bytes()).unwrap();
    let required = versions[0].non_platform_requires();
    assert_eq!(required.len(), 1);
    assert_eq!(required[0].0.as_str(), "acme/other");
    assert_eq!(required[0].1.as_str(), "^2.0");
}
