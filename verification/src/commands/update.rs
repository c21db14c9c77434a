//! Updating the packages of a project.

use crate::collections;
use crate::content_hash;
use crate::error::Error;
use crate::json;
use crate::lock;
use crate::lock::ComposerLock;
use crate::lock::LockView;
use crate::manifest::ComposerJson;
use crate::resolve::ResolveOptions;
use crate::resolve::UpdateDeps;
use crate::text;
use vstd::prelude::*;

verus! {

/// What is asked of an update.
#[derive(Debug, Clone)]
pub struct UpdateArgs {
    /// The packages; all of them if none is named.
    pub packages: Vec<String>,
    pub no_dev: bool,
    pub prefer_lowest: bool,
    pub prefer_stable: bool,
    pub dry_run: bool,
    pub optimize_autoloader: bool,
    pub classmap_authoritative: bool,
    pub concurrency: Option<usize>,
    pub verify_checksums: bool,
    pub ignore_platform_reqs: bool,
    pub ignore_platform_req: Vec<String>,
    pub prefer_dist: bool,
    pub prefer_source: bool,
    pub with_dependencies: bool,
    pub with_all_dependencies: bool,
    pub no_autoloader: bool,
    pub no_scripts: bool,
    /// Only the content hash is brought up to date.
    pub lock: bool,
    pub audit: bool,
}

impl UpdateArgs {
    /// The update that follows a change of the requirements.
    pub fn follow_up() -> (r: Self)
        ensures
            r.packages@.len() == 0,
            r.prefer_stable,
            r.prefer_dist,
            r.concurrency is None,
            r.ignore_platform_req@.len() == 0,
            !(r.no_dev || r.prefer_lowest || r.dry_run || r.optimize_autoloader
                || r.classmap_authoritative || r.verify_checksums || r.ignore_platform_reqs
                || r.prefer_source || r.with_dependencies || r.with_all_dependencies
                || r.no_autoloader || r.no_scripts || r.lock || r.audit),
    {
        UpdateArgs {
            packages: Vec::new(),
            no_dev: false,
            prefer_lowest: false,
            prefer_stable: true,
            dry_run: false,
            optimize_autoloader: false,
            classmap_authoritative: false,
            concurrency: None,
            verify_checksums: false,
            ignore_platform_reqs: false,
            ignore_platform_req: Vec::new(),
            prefer_dist: true,
            prefer_source: false,
            with_dependencies: false,
            with_all_dependencies: false,
            no_autoloader: false,
            no_scripts: false,
            lock: false,
            audit: false,
        }
    }

    /// Which packages change besides the named ones.
    pub fn update_deps(&self) -> (r: UpdateDeps)
        ensures
            r == if self.with_all_dependencies {
                UpdateDeps::WithAllDependencies
            } else if self.with_dependencies {
                UpdateDeps::WithDependencies
            } else {
                UpdateDeps::OnlyListed
            },
    {
        if self.with_all_dependencies {
            UpdateDeps::WithAllDependencies
        } else if self.with_dependencies {
            UpdateDeps::WithDependencies
        } else {
            UpdateDeps::OnlyListed
        }
    }

    /// How the project is resolved.
    pub fn options(&self, manifest: &ComposerJson, concurrency: usize) -> (r: ResolveOptions)
        ensures
            r.with_dev == !self.no_dev,
            r.prefer_stable == (self.prefer_stable || manifest@.prefer_stable == Some(true)),
            r.prefer_lowest == self.prefer_lowest,
            r.minimum_stability@ == match manifest@.minimum_stability {
                Some(s) => s,
                None => "stable"@,
            },
            r.concurrency == concurrency,
            r.ignore_platform_reqs == self.ignore_platform_reqs,
            text::texts(r.ignore_platform_req@) == text::texts(self.ignore_platform_req@),
            text::texts(r.packages_to_update@) == text::texts(self.packages@),
            r.update_deps == if self.with_all_dependencies {
                UpdateDeps::WithAllDependencies
            } else if self.with_dependencies {
                UpdateDeps::WithDependencies
            } else {
                UpdateDeps::OnlyListed
            },
    {
        ResolveOptions {
            with_dev: !self.no_dev,
            prefer_stable: self.prefer_stable || manifest.prefer_stable(),
            prefer_lowest: self.prefer_lowest,
            minimum_stability: String::from_str(manifest.minimum_stability()),
            concurrency,
            ignore_platform_reqs: self.ignore_platform_reqs,
            ignore_platform_req: collections::copy_texts(&self.ignore_platform_req),
            packages_to_update: collections::copy_texts(&self.packages),
            update_deps: self.update_deps(),
        }
    }
}

/// What is said of the packages that change.
pub open spec fn scope_of(deps: UpdateDeps) -> Seq<char> {
    match deps {
        UpdateDeps::OnlyListed => "listed packages only"@,
        UpdateDeps::WithDependencies => "listed + non-root dependencies (-w)"@,
        UpdateDeps::WithAllDependencies => "listed + all dependencies (-W)"@,
    }
}

/// What is said of an update of some packages.
pub open spec fn partial_text(count: nat, deps: UpdateDeps, has_lock: bool) -> Option<Seq<char>> {
    if count == 0 {
        None
    } else if has_lock {
        Some(
            "Partial update: "@ + text::decimal(count) + " package(s) ("@ + scope_of(deps)
                + "); others pinned to lock"@,
        )
    } else {
        Some(
            "No composer.lock — cannot pin other packages; resolving full dependency tree"@,
        )
    }
}

/// What is said of an update of some packages.
pub fn partial_message(count: usize, deps: UpdateDeps, has_lock: bool) -> (r: Option<String>)
    ensures
        text::opt_text(r) == partial_text(count as nat, deps, has_lock),
{
    if count == 0 {
        return None;
    }
    if !has_lock {
        return Some(
            String::from_str(
                "No composer.lock — cannot pin other packages; resolving full dependency tree",
            ),
        );
    }
    let scope = match deps {
        UpdateDeps::OnlyListed => "listed packages only",
        UpdateDeps::WithDependencies => "listed + non-root dependencies (-w)",
        UpdateDeps::WithAllDependencies => "listed + all dependencies (-W)",
    };
    let head = text::cat3("Partial update: ", text::usize_text(count).as_str(), " package(s) (");
    Some(text::cat3(head.as_str(), scope, "); others pinned to lock"))
}

/// A lock file with the content hash of a `composer.json` and nothing else
/// changed.
pub fn with_new_hash(lock: ComposerLock, composer_json: &[u8]) -> (r: Result<ComposerLock, Error>)
    ensures
        match json::json_read(composer_json@) {
            Ok(json::JsonView::Object(m)) => r is Ok && r->Ok_0@ == (LockView {
                content_hash: content_hash::hash_of(m),
                ..lock@
            }),
            Ok(_) => r matches Err(Error::Manifest(t)) && t@
                == "composer.json top level must be a JSON object"@,
            Err(fault) => r matches Err(Error::Json(t)) && t@ == fault,
        },
{
    match lock::content_hash_from_composer_json(composer_json) {
        Ok(content_hash) => Ok(ComposerLock { content_hash, ..lock }),
        Err(fault) => Err(fault),
    }
}

} // verus!
