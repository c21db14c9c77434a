use composer_rs::autoload::{
    package_path, resolve_autoload_path, AutoloadMaps, AutoloadOptions,
};
use composer_rs::classmap::{
    add_runtime_class, class_for_path, extract_types, index_php_file, is_php_file, relative_path,
};
use composer_rs::collections::StrMap;
use composer_rs::installed::{
    generate_files, installed_json, installed_packages_json, installed_php,
    php_constraint_to_version, platform_check,
};
use composer_rs::json::Json;
use composer_rs::lock::{ComposerLock, DistInfo, LockedPackage};
use composer_rs::manifest::ComposerJson;
use composer_rs::package::AutoloadConfig;
use composer_rs::php::{autoload_classmap, autoload_files, autoload_real, autoload_static, escape_php};
use composer_rs::sorter::sort_packages_by_dependency_weight;

fn locked(name: &str, ver: &str) -> LockedPackage {
    LockedPackage {
        name: name.to_string(),
        version: ver.to_string(),
        source: None,
        dist: Some(DistInfo {
            dist_type: "zip".to_string(),
            url: format!("https://example.com/{name}.zip"),
            reference: Some("abc".to_string()),
            shasum: None,
            mirrors: None,
        }),
        require: StrMap::new(),
        require_dev: StrMap::new(),
        package_type: Some("library".to_string()),
        extra: None,
        autoload: None,
        autoload_dev: None,
        notification_url: None,
        license: vec![],
        description: None,
        homepage: None,
        keywords: vec![],
        time: None,
        replace: StrMap::new(),
        provide: StrMap::new(),
        conflict: StrMap::new(),
        suggest: StrMap::new(),
        bin: vec![],
        abandoned: None,
    }
}

fn text_at<'a>(j: &'a Json, k: &str) -> &'a str {
    j.get(k).and_then(|v| v.as_str()).unwrap_or("")
}

fn file<'a>(files: &'a Vec<(String, String)>, name: &str) -> &'a str {
    files
        .iter()
        .find(|(n, _)| n.ends_with(name))
        .map(|(_, b)| b.as_str())
        .unwrap_or_else(|| panic!("no {name}"))
}

#[test]
fn installed_json_composer2_shape() {
    let lock = ComposerLock {
        packages: vec![locked("acme/foo", "1.2.3")],
        packages_dev: vec![locked("acme/phpunit", "10.0.0")],
        ..Default::default()
    };
    let pkgs = installed_packages_json(&lock, true);
    assert_eq!(pkgs.len(), 2);
    let foo = &pkgs[0];
    assert_eq!(text_at(foo, "name"), "acme/foo");
    assert_eq!(text_at(foo, "version"), "1.2.3");
    assert_eq!(text_at(foo, "version_normalized"), "1.2.3.0");
    assert_eq!(text_at(foo, "install-path"), "../acme/foo");
    assert!(foo.get("dist").is_some());

    let doc = installed_json(Some(&lock), true);
    assert_eq!(doc.get("dev").and_then(|d| d.as_bool()), Some(true));
    assert_eq!(text_at(&doc, "plugin-api-version"), "2.6.0");
    match doc.get("dev-package-names") {
        Some(Json::Array(a)) => assert_eq!(a[0].as_str(), Some("acme/phpunit")),
        other => panic!("unexpected {other:?}"),
    }
}

#[test]
fn static_psr4_when_optimized() {
    let mut psr4 = StrMap::new();
    psr4.insert(
        "Acme\\Lib\\".to_string(),
        vec!["../acme/lib/src".to_string()],
    );
    let maps = AutoloadMaps {
        psr4,
        psr0: StrMap::new(),
        classmap_dirs: vec![],
        files: vec![],
    };
    let body = autoload_static(&maps, &StrMap::new(), true);
    assert!(body.contains("prefixDirsPsr4"));
    assert!(body.contains("prefixLengthsPsr4"));
    assert!(body.contains("Acme\\\\Lib\\\\"));
    assert!(
        body.contains("'Acme\\\\Lib\\\\' => array($vendorDir . '/acme/lib/src')"),
        "expected array-wrapped PSR-4 path, got:\n{body}"
    );
}

#[test]
fn static_psr0_nested_by_first_char() {
    let mut psr0 = StrMap::new();
    psr0.insert("Foo".to_string(), vec!["../foo/src".to_string()]);
    let maps = AutoloadMaps {
        psr4: StrMap::new(),
        psr0,
        classmap_dirs: vec![],
        files: vec![],
    };
    let body = autoload_static(&maps, &StrMap::new(), true);
    assert!(
        body.contains("'F' => array("),
        "PSR-0 must nest under first character:\n{body}"
    );
    assert!(body.contains("'Foo' => array($vendorDir . '/foo/src')"));
}

#[test]
fn files_autoload_dependencies_before_dependents_and_root_last() {
    let mut safe = locked("thecodingmachine/safe", "2.0.0");
    safe.autoload = Some(AutoloadConfig {
        files: vec!["generated/filesystem.php".to_string()],
        ..Default::default()
    });

    let mut fly = locked("rightcapital/flysystem-compress-adapter", "1.0.0");
    fly.require
        .insert("thecodingmachine/safe".to_string(), "^2".to_string());
    fly.autoload = Some(AutoloadConfig {
        files: vec!["src/bootstrap.php".to_string()],
        ..Default::default()
    });

    let lock = ComposerLock {
        packages: vec![fly, safe],
        ..Default::default()
    };

    let manifest = ComposerJson::from_str(
        r#"{ "name": "acme/app", "autoload": { "files": ["app/helpers.php"] } }"#,
    )
    .unwrap();

    let options = AutoloadOptions::default();
    let maps = AutoloadMaps::collect(&manifest, Some(&lock), options.with_dev);
    let files = generate_files(&manifest, Some(&lock), &options, &maps, &StrMap::new());
    let body = file(&files, "autoload_files.php").to_string();
    let safe_at = body
        .find("thecodingmachine/safe/generated/filesystem.php")
        .expect(&body);
    let fly_at = body
        .find("rightcapital/flysystem-compress-adapter/src/bootstrap.php")
        .expect(&body);
    let root_at = body.find("app/helpers.php").expect(&body);
    assert!(
        safe_at < fly_at,
        "Safe files must load before dependents:\n{body}"
    );
    assert!(fly_at < root_at, "root files must load last:\n{body}");
}

#[test]
fn package_sorter_puts_transitive_deps_first() {
    let mut a = locked("acme/a", "1.0.0");
    a.require.insert("acme/b".to_string(), "*".to_string());
    let mut b = locked("acme/b", "1.0.0");
    b.require.insert("acme/c".to_string(), "*".to_string());
    let c = locked("acme/c", "1.0.0");
    let pkgs = vec![&a, &b, &c];
    let sorted: Vec<&str> = sort_packages_by_dependency_weight(&pkgs)
        .into_iter()
        .map(|p| p.name.as_str())
        .collect();
    assert_eq!(sorted, vec!["acme/c", "acme/b", "acme/a"]);
}

#[test]
fn extract_types_finds_readonly_classes() {
    let php = r#"<?php
namespace SebastianBergmann;

final readonly class Version {}
"#;
    assert_eq!(
        extract_types(php),
        vec!["SebastianBergmann\\Version".to_string()]
    );
}

#[test]
fn extract_types_finds_every_kind() {
    let php = "<?php\nabstract class A {}\ninterface B {}\ntrait C {}\nenum D {}\n// class E\n";
    assert_eq!(
        extract_types(php),
        vec!["A".to_string(), "B".to_string(), "C".to_string(), "D".to_string()]
    );
    assert!(extract_types("no php").is_empty());
}

#[test]
fn classmap_includes_readonly_classmap_packages() {
    let mut pkg = locked("sebastian/version", "5.0.2");
    pkg.autoload = Some(AutoloadConfig {
        classmap: vec!["src/".to_string()],
        ..Default::default()
    });
    let lock = ComposerLock {
        packages_dev: vec![pkg],
        ..Default::default()
    };
    let manifest = ComposerJson::from_str(r#"{ "name": "acme/app" }"#).unwrap();
    let options = AutoloadOptions::default();
    let maps = AutoloadMaps::collect(&manifest, Some(&lock), options.with_dev);
    assert_eq!(maps.classmap_dirs.len(), 1);
    let mut classmap = StrMap::new();
    index_php_file(
        &mut classmap,
        "<?php\nnamespace SebastianBergmann;\n\nfinal readonly class Version {}\n",
        "../sebastian/version/src/Version.php",
    );
    let files = generate_files(&manifest, Some(&lock), &options, &maps, &classmap);
    let body = file(&files, "autoload_classmap.php");
    assert!(
        body.contains("'SebastianBergmann\\\\Version'"),
        "readonly classmap package must be indexed:\n{body}"
    );
}

#[test]
fn classmap_indexes_single_php_file_entries() {
    let mut classmap = StrMap::new();
    index_php_file(
        &mut classmap,
        "<?php\nnamespace Safe;\n\nclass DateTimeImmutable extends \\DateTimeImmutable {}\n",
        "../thecodingmachine/safe/lib/DateTimeImmutable.php",
    );
    let body = autoload_classmap(&classmap);
    assert!(
        body.contains("'Safe\\\\DateTimeImmutable'"),
        "file-level classmap entry must be indexed:\n{body}"
    );
    assert!(
        body.contains("thecodingmachine/safe/lib/DateTimeImmutable.php"),
        "{body}"
    );
}

#[test]
fn runtime_class_is_in_the_classmap() {
    let mut pkg = locked("acme/lib", "1.2.3");
    pkg.dist.as_mut().unwrap().reference = Some("deadbeef".to_string());
    let lock = ComposerLock {
        packages: vec![pkg],
        ..Default::default()
    };
    let manifest = ComposerJson::from_str(r#"{ "name": "acme/app" }"#).unwrap();
    let mut classmap = StrMap::new();
    add_runtime_class(&mut classmap);
    let body = autoload_classmap(&classmap);
    assert!(body.contains("'Composer\\\\InstalledVersions'"), "{body}");
    assert!(
        body.contains("$vendorDir . '/composer/InstalledVersions.php'"),
        "{body}"
    );
    let php = installed_php(&manifest, Some(&lock), true);
    assert!(php.contains("'acme/lib'"));
    assert!(php.contains("'pretty_version' => '1.2.3'"));
    assert!(php.contains("'dev_requirement' => false"));
    assert!(php.contains("deadbeef"));
}

#[test]
fn autoload_real_does_not_reinclude_classloader() {
    let body = autoload_real(false, false);
    assert!(
        body.contains("class_exists('Composer\\\\Autoload\\\\ClassLoader', false)"),
        "getLoader must skip ClassLoader.php when already loaded:\n{body}"
    );
    assert!(
        body.contains("require_once __DIR__ . '/ClassLoader.php'"),
        "{body}"
    );
}

#[test]
fn paths_of_classes() {
    assert!(is_php_file("src/A.php"));
    assert!(!is_php_file("src/A.txt"));
    assert_eq!(
        class_for_path("Acme\\", &vec!["Sub".to_string(), "Thing.php".to_string()]),
        "Acme\\Sub\\Thing"
    );
    let from = vec!["p".to_string(), "vendor".to_string(), "composer".to_string()];
    let to = vec!["p".to_string(), "src".to_string(), "A.php".to_string()];
    assert_eq!(relative_path(&from, &to), "../../src/A.php");
    assert_eq!(package_path("acme/lib", "./src/", false), "../acme/lib/src/");
    assert_eq!(package_path("", "src/", true), "../../src/");
    assert_eq!(
        resolve_autoload_path("/p/vendor", "../acme/lib"),
        "/p/vendor/composer/../acme/lib"
    );
}

#[test]
fn files_keep_their_order() {
    let body = autoload_files(&vec!["../b/x.php".to_string(), "../a/y.php".to_string()]);
    assert!(body.find("/b/x.php").unwrap() < body.find("/a/y.php").unwrap());
    assert_eq!(escape_php("it's\\"), "it\\'s\\\\");
}

#[test]
fn platform_check_names_the_php_version() {
    assert_eq!(php_constraint_to_version(">=8.0 ^8.1 || ^9"), "8.1");
    let manifest = ComposerJson::from_str(r#"{"require":{"php":">=8.2"}}"#).unwrap();
    let body = platform_check(&manifest, None);
    assert!(body.contains("'8.2'"), "{body}");
}
