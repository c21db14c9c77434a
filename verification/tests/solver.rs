use composer_rs::collections::StrMap;
use composer_rs::constraint::VersionConstraint;
use composer_rs::error::Error;
use composer_rs::index::PackageIndex;
use composer_rs::lock::{DistInfo, LockedPackage};
use composer_rs::package::PackageId;
use composer_rs::platform::Platform;
use composer_rs::solution::{
    normalize_solution, selected_packages, unsolvable, validate_conflicts, validate_root_conflicts,
};
use composer_rs::solver::{root_package, SolveRequest, SolverGraph};
use composer_rs::version::{ComposerVersion, Stability};
use pubgrub::{Dependencies, DependencyProvider, PackageResolutionStatistics, VersionSet};
use version_ranges::Ranges;

#[derive(Debug, Clone)]
struct Keyed {
    key: Vec<u128>,
    version: ComposerVersion,
}

impl Keyed {
    fn of(version: &ComposerVersion) -> Self {
        Keyed {
            key: version.order_key(),
            version: version.clone(),
        }
    }
}

impl std::fmt::Display for Keyed {
    fn fmt(&self, f: &mut std::fmt::Formatter<'_>) -> std::fmt::Result {
        f.write_str(self.version.as_str())
    }
}

impl PartialEq for Keyed {
    fn eq(&self, other: &Self) -> bool {
        self.key == other.key
    }
}

impl Eq for Keyed {}

impl PartialOrd for Keyed {
    fn partial_cmp(&self, other: &Self) -> Option<std::cmp::Ordering> {
        Some(self.cmp(other))
    }
}

impl Ord for Keyed {
    fn cmp(&self, other: &Self) -> std::cmp::Ordering {
        self.key.cmp(&other.key)
    }
}

#[derive(Debug, Clone, PartialEq, Eq)]
struct Keys(Ranges<Vec<u128>>);

impl std::fmt::Display for Keys {
    fn fmt(&self, f: &mut std::fmt::Formatter<'_>) -> std::fmt::Result {
        std::fmt::Debug::fmt(&self.0, f)
    }
}

impl VersionSet for Keys {
    type V = Keyed;

    fn empty() -> Self {
        Keys(Ranges::empty())
    }

    fn singleton(v: Keyed) -> Self {
        Keys(Ranges::singleton(v.key))
    }

    fn complement(&self) -> Self {
        Keys(self.0.complement())
    }

    fn intersection(&self, other: &Self) -> Self {
        Keys(self.0.intersection(&other.0))
    }

    fn contains(&self, v: &Keyed) -> bool {
        self.0.contains(&v.key)
    }
}

struct Provider(SolverGraph);

impl DependencyProvider for Provider {
    type P = String;
    type V = Keyed;
    type VS = Keys;
    type Priority = std::cmp::Reverse<usize>;
    type M = String;
    type Err = std::convert::Infallible;

    fn prioritize(
        &self,
        package: &String,
        range: &Keys,
        _: &PackageResolutionStatistics,
    ) -> Self::Priority {
        std::cmp::Reverse(self.0.count_versions(package, &range.0))
    }

    fn choose_version(&self, package: &String, range: &Keys) -> Result<Option<Keyed>, Self::Err> {
        Ok(self.0.choose_version(package, &range.0).map(Keyed::of))
    }

    fn get_dependencies(
        &self,
        package: &String,
        version: &Keyed,
    ) -> Result<Dependencies<String, Keys, String>, Self::Err> {
        let mut out = pubgrub::DependencyConstraints::default();
        if let Some(deps) = self.0.dependencies(package, &version.version) {
            for (name, range) in &deps.entries {
                out.insert(name.clone(), Keys(range.clone()));
            }
        }
        Ok(Dependencies::Available(out))
    }
}

fn solve(index: &PackageIndex, request: &SolveRequest) -> Result<StrMap<LockedPackage>, Error> {
    let provider = Provider(SolverGraph::build(index, request));
    let root = Keyed::of(&ComposerVersion::release(1, 0, 0));
    match pubgrub::resolve(&provider, root_package(), root) {
        Ok(found) => {
            let solution: Vec<(String, ComposerVersion)> =
                found.into_iter().map(|(n, v)| (n, v.version)).collect();
            selected_packages(index, &solution, &request.root_conflicts)
        }
        Err(e) => Err(unsolvable(&e.to_string())),
    }
}

fn pkg(name: &str, ver: &str, require: &[(&str, &str)]) -> LockedPackage {
    let mut req = StrMap::new();
    for (k, v) in require {
        req.insert(k.to_string(), v.to_string());
    }
    LockedPackage {
        name: name.to_string(),
        version: ver.to_string(),
        source: None,
        dist: Some(DistInfo {
            dist_type: "zip".to_string(),
            url: format!("https://example.com/{name}/{ver}.zip"),
            reference: None,
            shasum: None,
            mirrors: None,
        }),
        require: req,
        require_dev: StrMap::new(),
        package_type: Some("library".to_string()),
        extra: None,
        autoload: None,
        autoload_dev: None,
        notification_url: None,
        license: vec![],
        description: None,
        homepage: None,
        keywords: vec![],
        time: None,
        replace: StrMap::new(),
        provide: StrMap::new(),
        conflict: StrMap::new(),
        suggest: StrMap::new(),
        bin: vec![],
        abandoned: None,
    }
}

fn link(name: &str, constraint: &str) -> (PackageId, VersionConstraint) {
    (
        PackageId::parse(name).unwrap(),
        VersionConstraint::new(constraint),
    )
}

fn request(root_deps: Vec<(PackageId, VersionConstraint)>) -> SolveRequest {
    SolveRequest {
        root_deps,
        prefer_stable: true,
        prefer_lowest: false,
        minimum_stability: Stability::Stable,
        root_replace: vec![],
        root_provide: vec![],
        root_conflicts: vec![],
        platform: Platform::with_php("8.2.0").unwrap(),
        ignore_platform_reqs: false,
        ignore_platform_req: vec![],
    }
}

#[test]
fn solves_simple_diamond() {
    let mut index = PackageIndex::new();
    index.insert_locked(pkg("vendor/a", "1.0.0", &[("vendor/c", "^1.0")]));
    index.insert_locked(pkg("vendor/b", "1.0.0", &[("vendor/c", "^1.0")]));
    index.insert_locked(pkg("vendor/c", "1.0.0", &[]));
    index.insert_locked(pkg("vendor/c", "2.0.0", &[]));

    let request = request(vec![link("vendor/a", "^1.0"), link("vendor/b", "^1.0")]);
    let sol = solve(&index, &request).unwrap();
    assert_eq!(sol.get("vendor/c").unwrap().version, "1.0.0");
    assert!(sol.contains_key("vendor/a"));
    assert!(sol.contains_key("vendor/b"));
}

#[test]
fn conflict_detected() {
    let mut index = PackageIndex::new();
    index.insert_locked(pkg("vendor/a", "1.0.0", &[("vendor/c", "^1.0")]));
    index.insert_locked(pkg("vendor/b", "1.0.0", &[("vendor/c", "^2.0")]));
    index.insert_locked(pkg("vendor/c", "1.0.0", &[]));
    index.insert_locked(pkg("vendor/c", "2.0.0", &[]));

    let request = request(vec![link("vendor/a", "*"), link("vendor/b", "*")]);
    let msg = solve(&index, &request).unwrap_err().to_text();
    assert!(
        msg.contains("PubGrub") || msg.contains("could not"),
        "unexpected error: {msg}"
    );
}

#[test]
fn package_conflict_rejected() {
    let mut index = PackageIndex::new();
    let mut a = pkg("vendor/a", "1.0.0", &[]);
    a.conflict.insert("vendor/b".to_string(), "^1.0".to_string());
    index.insert_locked(a);
    index.insert_locked(pkg("vendor/b", "1.0.0", &[]));

    let request = request(vec![link("vendor/a", "*"), link("vendor/b", "*")]);
    let msg = solve(&index, &request).unwrap_err().to_text();
    assert!(
        msg.contains("conflicts with") || msg.contains("PubGrub") || msg.contains("could not"),
        "unexpected error: {msg}"
    );
}

#[test]
fn virtual_provide_satisfies_implementation_requirement() {
    let mut index = PackageIndex::new();
    let mut guzzle = pkg("guzzlehttp/guzzle", "7.9.0", &[]);
    guzzle.provide.insert(
        "psr/http-client-implementation".to_string(),
        "1.0".to_string(),
    );
    index.insert_locked(guzzle);
    index.register_virtual_packages();

    let request = request(vec![
        link("guzzlehttp/guzzle", "^7.0"),
        link("psr/http-client-implementation", "*"),
    ]);
    let raw = solve(&index, &request).unwrap();
    let sol = normalize_solution(&raw, &index);
    assert!(sol.contains_key("guzzlehttp/guzzle"));
    assert!(
        !sol.contains_key("psr/http-client-implementation"),
        "virtual name must collapse onto the provider: {sol:?}"
    );
    assert_eq!(sol.get("guzzlehttp/guzzle").unwrap().version, "7.9.0");
}

#[test]
fn solver_picks_non_conflicting_version() {
    let mut index = PackageIndex::new();
    let mut a = pkg("vendor/a", "1.0.0", &[]);
    a.conflict.insert("vendor/b".to_string(), "^1.0".to_string());
    index.insert_locked(a);
    index.insert_locked(pkg("vendor/b", "1.0.0", &[]));
    index.insert_locked(pkg("vendor/b", "2.0.0", &[]));

    let request = request(vec![link("vendor/a", "*"), link("vendor/b", "*")]);
    let sol = solve(&index, &request).unwrap();
    assert_eq!(sol.get("vendor/a").unwrap().version, "1.0.0");
    assert_eq!(
        sol.get("vendor/b").unwrap().version,
        "2.0.0",
        "solver should skip B 1.x due to A's conflict"
    );
}

#[test]
fn root_conflict_rejects_matching_version() {
    let mut index = PackageIndex::new();
    index.insert_locked(pkg("acme/bad", "1.0.0", &[]));

    let mut request = request(vec![link("acme/bad", "*")]);
    request.root_conflicts = vec![link("acme/bad", "<2.0")];
    let msg = solve(&index, &request).unwrap_err().to_text();
    assert!(
        msg.contains("conflicts") || msg.contains("PubGrub") || msg.contains("could not"),
        "unexpected error: {msg}"
    );
}

#[test]
fn conflict_does_not_force_optional_package() {
    let mut index = PackageIndex::new();
    index.insert_locked(pkg("acme/a", "1.0.0", &[("acme/b", "^1")]));
    index.insert_locked(pkg("acme/a", "2.0.0", &[]));
    index.insert_locked(pkg("acme/b", "1.0.0", &[]));
    let mut c = pkg("acme/c", "1.0.0", &[]);
    c.conflict.insert("acme/b".to_string(), "^1".to_string());
    index.insert_locked(c);

    let request = request(vec![link("acme/a", "*"), link("acme/c", "*")]);
    let sol = solve(&index, &request).unwrap();
    assert_eq!(sol.get("acme/a").unwrap().version, "2.0.0");
    assert_eq!(sol.get("acme/c").unwrap().version, "1.0.0");
    assert!(
        !sol.contains_key("acme/b"),
        "B must stay optional: {sol:?}"
    );
}

#[test]
fn lowest_versions_on_request() {
    let mut index = PackageIndex::new();
    index.insert_locked(pkg("vendor/a", "1.0.0", &[]));
    index.insert_locked(pkg("vendor/a", "1.5.0", &[]));
    let mut request = request(vec![link("vendor/a", "^1.0")]);
    assert_eq!(
        solve(&index, &request).unwrap().get("vendor/a").unwrap().version,
        "1.5.0"
    );
    request.prefer_lowest = true;
    assert_eq!(
        solve(&index, &request).unwrap().get("vendor/a").unwrap().version,
        "1.0.0"
    );
}

#[test]
fn unstable_versions_stay_out() {
    let mut index = PackageIndex::new();
    index.insert_locked(pkg("vendor/a", "1.0.0", &[]));
    index.insert_locked(pkg("vendor/a", "1.5.0-beta1", &[]));
    let request = request(vec![link("vendor/a", "^1.0")]);
    assert_eq!(
        solve(&index, &request).unwrap().get("vendor/a").unwrap().version,
        "1.0.0"
    );
}

#[test]
fn versions_for_another_platform_stay_out() {
    let mut index = PackageIndex::new();
    index.insert_locked(pkg("vendor/a", "1.0.0", &[("php", ">=8.1")]));
    index.insert_locked(pkg("vendor/a", "2.0.0", &[("php", ">=8.4")]));
    let mut request = request(vec![link("vendor/a", "*")]);
    assert_eq!(
        solve(&index, &request).unwrap().get("vendor/a").unwrap().version,
        "1.0.0"
    );
    request.ignore_platform_reqs = true;
    assert_eq!(
        solve(&index, &request).unwrap().get("vendor/a").unwrap().version,
        "2.0.0"
    );
}

#[test]
fn a_selection_with_a_conflict_is_refused() {
    let mut selected = StrMap::new();
    let mut a = pkg("vendor/a", "1.0.0", &[]);
    a.conflict.insert("vendor/b".to_string(), "^1.0".to_string());
    selected.insert("vendor/a".to_string(), a);
    selected.insert("vendor/b".to_string(), pkg("vendor/b", "1.2.0", &[]));
    let msg = validate_conflicts(&selected).unwrap_err().to_text();
    assert!(msg.contains("conflicts with"), "{msg}");
    assert!(validate_root_conflicts(&selected, &vec![link("vendor/b", "^2")]).is_ok());
    assert!(validate_root_conflicts(&selected, &vec![link("vendor/b", "^1")]).is_err());
}

#[test]
fn a_solution_outside_the_index_is_refused() {
    let index = PackageIndex::new();
    let solution = vec![(
        "vendor/x".to_string(),
        ComposerVersion::parse("1.0.0").unwrap(),
    )];
    let msg = selected_packages(&index, &solution, &vec![])
        .unwrap_err()
        .to_text();
    assert!(msg.contains("vendor/x@1.0.0"), "{msg}");
}
