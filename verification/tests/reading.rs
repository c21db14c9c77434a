use composer_rs::auth::AuthStore;
use composer_rs::commands::audit::parse_advisories;
use composer_rs::commands::update::with_new_hash;
use composer_rs::content_hash::content_hash;
use composer_rs::error::Error;
use composer_rs::json;
use composer_rs::json::Json;
use composer_rs::lock::{ComposerLock, DistInfo, LockedPackage, SourceInfo};
use composer_rs::manifest::ComposerJson;
use composer_rs::package::{AutoloadConfig, PathOrPaths};
use composer_rs::repo::{parse_p2_response, search_results};
use composer_rs::repositories::PathPackageManifest;

fn kept(text: &str) -> Json {
    json::read_kept(text.as_bytes()).unwrap()
}

fn message(text: &str) -> String {
    match serde_json::from_str::<serde_json::Value>(text) {
        Ok(v) => panic!("valid: {v}"),
        Err(e) => e.to_string(),
    }
}

#[test]
fn an_autoload_section_may_be_a_list() {
    let empty = AutoloadConfig::from_json(&kept("[]")).unwrap();
    assert!(empty.psr4.is_empty());
    assert!(empty.classmap.is_empty());
    let listed = AutoloadConfig::from_json(&kept(
        r#"[{"App\\": "src"}, {"Old_": "lib"}, ["a"], ["f.php"], ["t"]]"#,
    ))
    .unwrap();
    assert!(matches!(listed.psr4.get("App\\"), Some(PathOrPaths::One(p)) if p == "src"));
    assert!(listed.psr0.contains_key("Old_"));
    assert_eq!(listed.classmap, vec!["a".to_string()]);
    assert_eq!(listed.files, vec!["f.php".to_string()]);
    assert_eq!(listed.exclude_from_classmap, vec!["t".to_string()]);
    assert!(AutoloadConfig::from_json(&kept("[{},{},[],[],[],[]]")).is_none());
    let m = ComposerJson::from_str(r#"{"name":"a/b","autoload":[]}"#).unwrap();
    assert!(m.autoload.unwrap().files.is_empty());
}

#[test]
fn only_metadata_takes_a_single_classmap() {
    for member in ["classmap", "files", "exclude_from_classmap"] {
        let text = format!(r#"{{"{member}": "src"}}"#);
        assert!(AutoloadConfig::from_json(&kept(&text)).is_none());
    }
    let loose = AutoloadConfig::from_metadata(&kept(r#"{"classmap": "src"}"#)).unwrap();
    assert_eq!(loose.classmap, vec!["src".to_string()]);
    assert!(AutoloadConfig::from_metadata(&kept(r#"{"files": "f.php"}"#)).is_none());
    assert!(ComposerJson::from_str(r#"{"autoload":{"classmap":"src"}}"#).is_err());
    assert!(ComposerJson::from_str(r#"{"autoload":{"classmap":["src"]}}"#).is_ok());
    let p2 = br#"{"packages":{"a/b":[{"version":"1.0.0","autoload":{"classmap":"src"}}]}}"#;
    let versions = parse_p2_response("a/b", p2).unwrap();
    let autoload = versions[0].autoload.as_ref().unwrap();
    assert_eq!(autoload.classmap, vec!["src".to_string()]);
}

#[test]
fn a_lock_drops_members_it_does_not_know() {
    let lock = ComposerLock::from_str(
        r#"{"content-hash":"h","packages":[{"name":"a/b","version":"1.0.0","support":{"x":1}}]}"#,
    )
    .unwrap();
    assert_eq!(lock.packages[0].name, "a/b");
    let text = lock.to_text().unwrap();
    assert!(!text.contains("support"));
    assert!(text.contains("\"a/b\""));
}

#[test]
fn a_member_given_twice_is_refused() {
    assert!(ComposerLock::from_str(r#"{"content-hash":"a","content-hash":"b","packages":[]}"#)
        .is_err());
    assert!(ComposerLock::from_str(
        r#"{"content-hash":"h","packages":[{"name":"a/b","version":"1","version":"2"}]}"#
    )
    .is_err());
    assert!(ComposerLock::from_str(
        r#"{"content-hash":"h","packages":[{"name":"a/b","version":"1","x":1,"x":2}]}"#
    )
    .is_ok());
    assert!(ComposerJson::from_str(r#"{"name":"a/b","name":"c/d"}"#).is_err());
    assert!(AuthStore::from_str(r#"{"bearer":{},"bearer":{}}"#).is_err());
    assert!(AuthStore::from_str(
        r#"{"http-basic":{"h":{"username":"u","username":"v","password":"p"}}}"#
    )
    .is_err());
    assert!(AutoloadConfig::from_json(&kept(r#"{"files":[],"files":[]}"#)).is_none());
    assert!(DistInfo::from_json(&kept(r#"{"type":"zip","url":"u","url":"v"}"#)).is_none());
    assert!(parse_advisories(&kept(r#"{"advisories":{},"advisories":{}}"#)).is_none());
    assert!(search_results(&kept(r#"{"results":[],"results":[]}"#)).is_none());
}

#[test]
fn names_of_a_map_may_repeat() {
    let m = ComposerJson::from_str(r#"{"require":{"a/b":"^1","c/d":"^2","a/b":"^3"}}"#).unwrap();
    assert_eq!(m.require.len(), 2);
    assert_eq!(m.require.get("a/b").unwrap(), "^3");
    let m = ComposerJson::from_str(r#"{"extra":{"k":1,"k":2}}"#).unwrap();
    let again = m.to_text().unwrap();
    assert_eq!(again, "{\n  \"extra\": {\n    \"k\": 2\n  }\n}\n");
}

#[test]
fn records_may_be_lists() {
    let dist = DistInfo::from_json(&kept(r#"["zip","https://e/x.zip","abc"]"#)).unwrap();
    assert_eq!(dist.dist_type, "zip");
    assert_eq!(dist.reference.as_deref(), Some("abc"));
    assert!(dist.shasum.is_none());
    let source = SourceInfo::from_json(&kept(r#"["git","https://e/x.git","abc"]"#)).unwrap();
    assert_eq!(source.url, "https://e/x.git");
    assert!(SourceInfo::from_json(&kept(r#"["git"]"#)).is_none());
    assert!(LockedPackage::from_json(&kept(r#"["a/b","1.0.0"]"#)).is_some());
    assert!(ComposerJson::from_str("[]").is_err());
}

#[test]
fn faults_have_the_message_of_the_reader() {
    let text = "{\"packages\": [}";
    let said = message(text);
    assert!(said.contains("line 1 column 15"), "{said}");
    match ComposerLock::from_str(text) {
        Err(e) => assert!(e.to_text().ends_with(&said), "{}", e.to_text()),
        Ok(_) => panic!("read"),
    }
    match ComposerJson::from_str(text) {
        Err(e) => assert!(e.to_text().ends_with(&said), "{}", e.to_text()),
        Ok(_) => panic!("read"),
    }
    match AuthStore::from_str(text) {
        Err(e) => assert!(e.to_text().ends_with(&said), "{}", e.to_text()),
        Ok(_) => panic!("read"),
    }
    match content_hash(text.as_bytes()) {
        Err(Error::Json(m)) => assert_eq!(m, said),
        other => panic!("{other:?}"),
    }
    match parse_p2_response("a/b", text.as_bytes()) {
        Err(Error::Other(m)) => assert_eq!(m, format!("p2 parse: {said}")),
        _ => panic!("read"),
    }
    match PathPackageManifest::from_bytes("p/composer.json", text.as_bytes()) {
        Err(e) => assert!(e.to_text().ends_with(&format!("p/composer.json: {said}"))),
        Ok(_) => panic!("read"),
    }
    assert_eq!(json::read(text.as_bytes()).err(), Some(said.clone()));
    assert_eq!(json::read_kept(text.as_bytes()).err(), Some(said));
}

#[test]
fn every_member_is_kept_in_place() {
    match kept(" { \"a\" : [ 1 , -2.5e3, \"x\\n\" ] , \"b\":{} , \"a\" : null } ") {
        Json::Object(m) => {
            assert_eq!(m.len(), 3);
            assert_eq!(m[0].0, "a");
            assert!(matches!(&m[0].1, Json::Array(v) if v.len() == 3));
            assert!(matches!(&m[1].1, Json::Object(v) if v.is_empty()));
            assert_eq!(m[2].0, "a");
            assert!(matches!(m[2].1, Json::Null));
        }
        other => panic!("{other:?}"),
    }
    match json::read(br#"{"a":1,"b":2,"a":3}"#).unwrap() {
        Json::Object(m) => {
            assert_eq!(m.len(), 2);
            assert_eq!(m[0].0, "a");
            assert!(matches!(&m[0].1, Json::Number(n) if n == "3"));
        }
        other => panic!("{other:?}"),
    }
    let settled = kept(r#"{"a":{"k":1,"k":2},"a":[true]}"#).settle();
    match settled {
        Json::Object(m) => {
            assert_eq!(m.len(), 1);
            assert!(matches!(&m[0].1, Json::Array(v) if v.len() == 1));
        }
        other => panic!("{other:?}"),
    }
}

#[test]
fn a_new_hash_changes_nothing_else() {
    let text = r#"{"content-hash":"old","packages":[{"name":"a/b","version":"1.0.0"}],"prefer-stable":true}"#;
    let before = ComposerLock::from_str(text).unwrap().to_text().unwrap();
    let manifest = br#"{"require":{"a/b":"^1"}}"#;
    let lock = with_new_hash(ComposerLock::from_str(text).unwrap(), manifest).unwrap();
    let hash = content_hash(manifest).unwrap();
    assert_eq!(lock.content_hash, hash);
    assert_eq!(lock.to_text().unwrap(), before.replace("\"old\"", &format!("\"{hash}\"")));
    let again = ComposerLock::from_str(text).unwrap();
    assert!(matches!(
        with_new_hash(again, b"[]"),
        Err(Error::Manifest(m)) if m == "composer.json top level must be a JSON object"
    ));
    let again = ComposerLock::from_str(text).unwrap();
    match with_new_hash(again, b"{") {
        Err(Error::Json(m)) => assert_eq!(m, message("{")),
        _ => panic!("hashed"),
    }
}
