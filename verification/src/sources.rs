//! Packages of path and version control repositories.

use crate::collections;
use crate::collections::StrMap;
use crate::error::Error;
use crate::fields;
use crate::hash;
use crate::json;
use crate::json::Json;
use crate::lock;
use crate::lock::DistInfo;
use crate::lock::LockedPackage;
use crate::lock::SourceInfo;
use crate::package;
use crate::package::AutoloadConfig;
use crate::paths;
use crate::releases;
use crate::repositories::PathPackageManifest;
use crate::text;
use crate::version::ComposerVersion;
use vstd::prelude::*;

verus! {

// ---------------------------------------------------------------------------
// The manifest of a local package

/// What the manifest of a local package consists of.
pub struct LocalManifestView {
    pub name: Seq<char>,
    pub version: Option<Seq<char>>,
    pub package_type: Option<Seq<char>>,
    pub require: Seq<(Seq<char>, Seq<char>)>,
    pub autoload: Option<package::AutoloadView>,
    pub description: Option<Seq<char>>,
    pub bin: Seq<Seq<char>>,
    pub provide: Seq<(Seq<char>, Seq<char>)>,
    pub replace: Seq<(Seq<char>, Seq<char>)>,
    pub conflict: Seq<(Seq<char>, Seq<char>)>,
}

impl View for PathPackageManifest {
    type V = LocalManifestView;

    open spec fn view(&self) -> LocalManifestView {
        LocalManifestView {
            name: self.name@,
            version: text::opt_text(self.version),
            package_type: text::opt_text(self.package_type),
            require: collections::link_pairs(self.require),
            autoload: package::opt_autoload(self.autoload),
            description: text::opt_text(self.description),
            bin: text::texts(self.bin@),
            provide: collections::link_pairs(self.provide),
            replace: collections::link_pairs(self.replace),
            conflict: collections::link_pairs(self.conflict),
        }
    }
}

/// The members of the manifest of a local package.
pub open spec fn local_names() -> Seq<Seq<char>> {
    seq![
        "name"@,
        "version"@,
        "type"@,
        "require"@,
        "autoload"@,
        "description"@,
        "bin"@,
        "provide"@,
        "replace"@,
        "conflict"@,
    ]
}

/// The manifest that a value describes: a record with a name, none of whose
/// members has the wrong type.
pub open spec fn local_manifest_json(j: json::JsonView) -> Option<LocalManifestView> {
    match fields::record_of(j, local_names()) {
        Some(r) => local_manifest_record(r),
        None => None,
    }
}

/// The manifest that the members of a record describe.
pub open spec fn local_manifest_record(j: json::JsonView) -> Option<LocalManifestView> {
    match (
        (
            json::text_at(j, "name"@),
            fields::opt_text_of(json::get_of(j, "version"@)),
            fields::opt_text_of(json::get_of(j, "type"@)),
            fields::link_map_of(json::get_of(j, "require"@)),
            lock::opt_autoload_json(json::get_of(j, "autoload"@)),
        ),
        (
            fields::opt_text_of(json::get_of(j, "description"@)),
            fields::text_list_of(json::get_of(j, "bin"@)),
            fields::link_map_of(json::get_of(j, "provide"@)),
            fields::link_map_of(json::get_of(j, "replace"@)),
            fields::link_map_of(json::get_of(j, "conflict"@)),
        ),
    ) {
        (
            (Some(name), Some(version), Some(package_type), Some(require), Some(autoload)),
            (Some(description), Some(bin), Some(provide), Some(replace), Some(conflict)),
        ) => Some(
            LocalManifestView {
                name,
                version,
                package_type,
                require,
                autoload,
                description,
                bin,
                provide,
                replace,
                conflict,
            },
        ),
        _ => None,
    }
}

/// What is said of a manifest that cannot be read.
pub open spec fn bad_manifest_text(path: Seq<char>) -> Seq<char> {
    path + ": not a package manifest"@
}

impl PathPackageManifest {
    /// The manifest that a value describes.
    pub fn from_json(j: &Json) -> (r: Option<PathPackageManifest>)
        ensures
            match r {
                Some(m) => local_manifest_json(j@) == Some(m@),
                None => local_manifest_json(j@) is None,
            },
    {
        let mut names: Vec<&str> = Vec::new();
        names.push("name");
        names.push("version");
        names.push("type");
        names.push("require");
        names.push("autoload");
        names.push("description");
        names.push("bin");
        names.push("provide");
        names.push("replace");
        names.push("conflict");
        assert(text::views(names@) =~= local_names());
        if j.is_array() {
            let record = fields::list_record(j, &names)?;
            PathPackageManifest::from_record(&record)
        } else if fields::is_object_of(j, &names) {
            PathPackageManifest::from_record(j)
        } else {
            None
        }
    }

    fn from_record(j: &Json) -> (r: Option<PathPackageManifest>)
        ensures
            match r {
                Some(m) => local_manifest_record(j@) == Some(m@),
                None => local_manifest_record(j@) is None,
            },
    {
        let name = fields::read_text(j, "name")?;
        let version = fields::read_opt_text(j, "version")?;
        let package_type = fields::read_opt_text(j, "type")?;
        let require = fields::read_links(j, "require")?;
        let autoload = lock::read_autoload(j, "autoload")?;
        let description = fields::read_opt_text(j, "description")?;
        let bin = fields::read_text_list(j, "bin")?;
        let provide = fields::read_links(j, "provide")?;
        let replace = fields::read_links(j, "replace")?;
        let conflict = fields::read_links(j, "conflict")?;
        Some(
            PathPackageManifest {
                name,
                version,
                package_type,
                require,
                autoload,
                description,
                bin,
                provide,
                replace,
                conflict,
            },
        )
    }

    /// The manifest in the bytes of the file `path`.
    pub fn from_bytes(path: &str, bytes: &[u8]) -> (r: Result<PathPackageManifest, Error>)
        ensures
            match json::kept_read(bytes@) {
                Ok(j) => match local_manifest_json(j) {
                    Some(m) => r is Ok && r->Ok_0@ == m,
                    None => r matches Err(Error::Manifest(t)) && t@ == bad_manifest_text(path@),
                },
                Err(fault) => r matches Err(Error::Manifest(t)) && t@ == path@ + ": "@ + fault,
            },
    {
        match json::read_kept(bytes) {
            Ok(j) => match PathPackageManifest::from_json(&j) {
                Some(m) => Ok(m),
                None => Err(Error::Manifest(text::cat(path, ": not a package manifest"))),
            },
            Err(fault) => Err(Error::Manifest(text::cat3(path, ": ", fault.as_str()))),
        }
    }
}

// ---------------------------------------------------------------------------
// Local packages

/// Where a local package comes from.
#[derive(Debug, Clone, Copy, PartialEq, Eq, Structural)]
pub enum SourceKind {
    Path,
    Vcs,
}

/// A package of a path or version control repository.
#[derive(Debug)]
pub struct LocalPathPackage {
    pub name: String,
    pub version: ComposerVersion,
    pub package_type: Option<String>,
    pub require: StrMap<String>,
    pub autoload: Option<AutoloadConfig>,
    pub description: Option<String>,
    pub bin: Vec<String>,
    pub provide: StrMap<String>,
    pub replace: StrMap<String>,
    pub conflict: StrMap<String>,
    pub source_kind: SourceKind,
    /// The directory of the package, or that of its checkout.
    pub local_path: String,
    /// Whether the package is installed as a link.
    pub symlink: bool,
    pub vcs_url: Option<String>,
    pub vcs_reference: Option<String>,
}

/// The version of a package whose manifest gives none, or none that is one.
pub open spec fn local_version(v: Option<Seq<char>>) -> crate::version::VersionView {
    match v {
        Some(s) => match crate::version::parsed(s) {
            Some(x) => x,
            None => crate::version::parsed("dev-main"@)->0,
        },
        None => crate::version::parsed("dev-main"@)->0,
    }
}

/// The archive and the sources that stand for a local package.
pub open spec fn local_origin(
    kind: SourceKind,
    path: Seq<char>,
    url: Option<Seq<char>>,
    reference: Option<Seq<char>>,
) -> (Option<lock::DistView>, Option<lock::SourceView>) {
    match kind {
        SourceKind::Path => (
            Some(
                lock::DistView {
                    dist_type: "path"@,
                    url: path,
                    reference: None,
                    shasum: None,
                    mirrors: None,
                },
            ),
            Some(lock::SourceView { source_type: "path"@, url: path, reference: None }),
        ),
        SourceKind::Vcs => (
            None,
            Some(
                lock::SourceView {
                    source_type: "git"@,
                    url: match url {
                        Some(u) => u,
                        None => Seq::empty(),
                    },
                    reference,
                },
            ),
        ),
    }
}

/// The setting by which a locked package remembers how it is installed.
pub open spec fn symlink_setting(symlink: bool) -> json::JsonView {
    json::JsonView::Object(
        seq![
            (
                "composer-rs"@,
                json::JsonView::Object(seq![("symlink"@, json::JsonView::Bool(symlink))]),
            ),
        ],
    )
}

fn symlink_json(symlink: bool) -> (r: Json)
    ensures
        r@ == symlink_setting(symlink),
{
    let mut inner: Vec<(String, Json)> = Vec::new();
    inner.push((String::from_str("symlink"), Json::Bool(symlink)));
    proof {
        json::lemma_object_view(inner);
        assert(json::members(inner@) =~= seq![("symlink"@, json::JsonView::Bool(symlink))]);
    }
    let ghost inner_view = json::members(inner@);
    let mut outer: Vec<(String, Json)> = Vec::new();
    outer.push((String::from_str("composer-rs"), Json::Object(inner)));
    proof {
        json::lemma_object_view(outer);
        assert(json::members(outer@) =~= seq![
            ("composer-rs"@, json::JsonView::Object(inner_view)),
        ]);
    }
    Json::Object(outer)
}

/// A local package as a locked package.
pub open spec fn local_as_locked(p: LocalPathPackage) -> lock::LockedView {
    let origin = local_origin(
        p.source_kind,
        p.local_path@,
        text::opt_text(p.vcs_url),
        text::opt_text(p.vcs_reference),
    );
    lock::LockedView {
        name: p.name@,
        version: p.version@.raw,
        source: origin.1,
        dist: origin.0,
        require: collections::link_pairs(p.require),
        require_dev: Seq::empty(),
        package_type: text::opt_text(p.package_type),
        extra: Some(symlink_setting(p.symlink)),
        autoload: package::opt_autoload(p.autoload),
        autoload_dev: None,
        notification_url: None,
        license: Seq::empty(),
        description: text::opt_text(p.description),
        homepage: None,
        keywords: Seq::empty(),
        time: None,
        replace: collections::link_pairs(p.replace),
        provide: collections::link_pairs(p.provide),
        conflict: collections::link_pairs(p.conflict),
        suggest: Seq::empty(),
        bin: text::texts(p.bin@),
        abandoned: None,
    }
}

impl LocalPathPackage {
    /// The package as a locked package.
    pub fn to_locked(&self) -> (r: LockedPackage)
        ensures
            r@ == local_as_locked(*self),
    {
        let (dist, source) = match self.source_kind {
            SourceKind::Path => (
                Some(
                    DistInfo {
                        dist_type: String::from_str("path"),
                        url: self.local_path.clone(),
                        reference: None,
                        shasum: None,
                        mirrors: None,
                    },
                ),
                Some(
                    SourceInfo {
                        source_type: String::from_str("path"),
                        url: self.local_path.clone(),
                        reference: None,
                    },
                ),
            ),
            SourceKind::Vcs => (
                None,
                Some(
                    SourceInfo {
                        source_type: String::from_str("git"),
                        url: match &self.vcs_url {
                            Some(u) => u.clone(),
                            None => String::new(),
                        },
                        reference: lock::copy_text(&self.vcs_reference),
                    },
                ),
            ),
        };
        let r = LockedPackage {
            name: self.name.clone(),
            version: String::from_str(self.version.as_str()),
            source,
            dist,
            require: self.require.copy(),
            require_dev: StrMap::new(),
            package_type: lock::copy_text(&self.package_type),
            extra: Some(symlink_json(self.symlink)),
            autoload: package::copy_autoload(&self.autoload),
            autoload_dev: None,
            notification_url: None,
            license: Vec::new(),
            description: lock::copy_text(&self.description),
            homepage: None,
            keywords: Vec::new(),
            time: None,
            replace: self.replace.copy(),
            provide: self.provide.copy(),
            conflict: self.conflict.copy(),
            suggest: StrMap::new(),
            bin: collections::copy_texts(&self.bin),
            abandoned: None,
        };
        assert(r@.require_dev =~= Seq::empty());
        assert(r@.license =~= Seq::empty());
        assert(r@.keywords =~= Seq::empty());
        assert(r@.suggest =~= Seq::empty());
        r
    }
}

/// A local package consists of what its manifest gives and what its
/// repository adds.
pub open spec fn is_local_package(
    p: LocalPathPackage,
    m: LocalManifestView,
    kind: SourceKind,
    path: Seq<char>,
    symlink: bool,
    url: Option<Seq<char>>,
    reference: Option<Seq<char>>,
) -> bool {
    &&& p.name@ == m.name
    &&& p.version@ == local_version(m.version)
    &&& text::opt_text(p.package_type) == m.package_type
    &&& collections::link_pairs(p.require) == m.require
    &&& package::opt_autoload(p.autoload) == m.autoload
    &&& text::opt_text(p.description) == m.description
    &&& text::texts(p.bin@) == m.bin
    &&& collections::link_pairs(p.provide) == m.provide
    &&& collections::link_pairs(p.replace) == m.replace
    &&& collections::link_pairs(p.conflict) == m.conflict
    &&& p.source_kind == kind
    &&& p.local_path@ == path
    &&& p.symlink == symlink
    &&& text::opt_text(p.vcs_url) == url
    &&& text::opt_text(p.vcs_reference) == reference
}

/// `dev-main` is a version.
proof fn lemma_dev_main()
    ensures
        crate::version::parsed("dev-main"@) is Some,
{
    reveal_strlit("dev-main");
    reveal_strlit("dev-");
    reveal_strlit("v");
    reveal_strlit("V");
    let s = "dev-main"@;
    assert(text::trimmed(s) =~= s) by {
        reveal_with_fuel(text::trimmed_front, 2);
        reveal_with_fuel(text::trimmed_back, 2);
    }
    assert(text::starts(s, "dev-"@)) by {
        assert(s.take(4) =~= "dev-"@);
    }
}

fn manifest_version(v: &Option<String>) -> (r: ComposerVersion)
    ensures
        r@ == local_version(text::opt_text(*v)),
{
    if let Some(s) = v {
        if let Ok(x) = ComposerVersion::parse(s.as_str()) {
            return x;
        }
    }
    proof {
        lemma_dev_main();
    }
    match ComposerVersion::parse("dev-main") {
        Ok(x) => x,
        Err(_) => {
            assert(false);
            ComposerVersion::release(0, 0, 0)
        },
    }
}

/// The package of a path repository.
pub fn path_package(manifest: PathPackageManifest, directory: String, symlink: bool) -> (r:
    LocalPathPackage)
    ensures
        is_local_package(
            r,
            manifest@,
            SourceKind::Path,
            directory@,
            symlink,
            None,
            None,
        ),
{
    let version = manifest_version(&manifest.version);
    LocalPathPackage {
        name: manifest.name,
        version,
        package_type: manifest.package_type,
        require: manifest.require,
        autoload: manifest.autoload,
        description: manifest.description,
        bin: manifest.bin,
        provide: manifest.provide,
        replace: manifest.replace,
        conflict: manifest.conflict,
        source_kind: SourceKind::Path,
        local_path: directory,
        symlink,
        vcs_url: None,
        vcs_reference: None,
    }
}

/// The package of a version control repository, checked out at `reference`.
pub fn vcs_package(
    manifest: PathPackageManifest,
    directory: String,
    url: &str,
    reference: Option<String>,
) -> (r: LocalPathPackage)
    ensures
        is_local_package(
            r,
            manifest@,
            SourceKind::Vcs,
            directory@,
            false,
            Some(url@),
            text::opt_text(reference),
        ),
{
    let version = manifest_version(&manifest.version);
    LocalPathPackage {
        name: manifest.name,
        version,
        package_type: manifest.package_type,
        require: manifest.require,
        autoload: manifest.autoload,
        description: manifest.description,
        bin: manifest.bin,
        provide: manifest.provide,
        replace: manifest.replace,
        conflict: manifest.conflict,
        source_kind: SourceKind::Vcs,
        local_path: directory,
        symlink: false,
        vcs_url: Some(String::from_str(url)),
        vcs_reference: reference,
    }
}

/// Where the checkout of a version control repository is kept.
pub fn checkout_dir(cache_root: &str, url: &str) -> (r: String)
    ensures
        r@ == paths::joined_path(
            paths::joined_path(cache_root@, "vcs"@),
            hash::blake3_text(vstd::utf8::encode_utf8(url@)),
        ),
{
    let base = paths::join_path(cache_root, "vcs");
    let id = hash::hash_text(url);
    paths::join_path(base.as_str(), id.as_str())
}

/// What is done to have a checkout of a repository at hand.
#[derive(Debug, Clone, Copy, PartialEq, Eq, Structural)]
pub enum CheckoutStep {
    /// The checkout is there and is brought up to date.
    Fetch,
    /// Something else is in its place: it is removed, and the repository is
    /// cloned.
    Replace,
    /// The repository is cloned.
    Clone,
}

/// What is done to have a checkout at hand.
pub fn checkout_step(has_repository: bool, present: bool) -> (r: CheckoutStep)
    ensures
        has_repository ==> r == CheckoutStep::Fetch,
        !has_repository && present ==> r == CheckoutStep::Replace,
        !has_repository && !present ==> r == CheckoutStep::Clone,
{
    if has_repository {
        CheckoutStep::Fetch
    } else if present {
        CheckoutStep::Replace
    } else {
        CheckoutStep::Clone
    }
}

/// The packages of the local repositories of a project.
#[derive(Debug)]
pub struct LocalSources {
    pub path_packages: Vec<LocalPathPackage>,
    pub vcs_packages: Vec<LocalPathPackage>,
}

impl Default for LocalSources {
    fn default() -> (r: Self)
        ensures
            r.path_packages@.len() == 0,
            r.vcs_packages@.len() == 0,
    {
        LocalSources { path_packages: Vec::new(), vcs_packages: Vec::new() }
    }
}

// ---------------------------------------------------------------------------
// Laws

/// A package of a path is installed from there; one of a repository is checked
/// out with git at its reference.
pub proof fn law_where_local_packages_lie(p: LocalPathPackage)
    ensures
        local_as_locked(p).name == p.name@,
        local_as_locked(p).version == p.version@.raw,
        local_as_locked(p).require == collections::link_pairs(p.require),
        local_as_locked(p).replace == collections::link_pairs(p.replace),
        local_as_locked(p).provide == collections::link_pairs(p.provide),
        local_as_locked(p).conflict == collections::link_pairs(p.conflict),
        p.source_kind == SourceKind::Path ==> (local_as_locked(p).dist matches Some(d)
            && d.dist_type == "path"@ && d.url == p.local_path@),
        p.source_kind == SourceKind::Vcs ==> local_as_locked(p).dist is None,
        (p.source_kind == SourceKind::Vcs && p.vcs_url is Some) ==> (local_as_locked(p).source
            matches Some(s) && s.source_type == "git"@ && s.url == p.vcs_url->0@ && s.reference
            == text::opt_text(p.vcs_reference)),
{
}

/// A local package has the version of its manifest, or else that of the main
/// branch.
pub proof fn law_versions_of_local_packages(s: Seq<char>)
    ensures
        crate::version::parsed(s) matches Some(v) ==> local_version(Some(s)) == v,
        crate::version::parsed(s) is None ==> local_version(Some(s)).raw == "dev-main"@,
        local_version(None).raw == "dev-main"@,
        local_version(None).stability is Dev,
{
    reveal_strlit("main");
    reveal_strlit("dev-");
    reveal_strlit("dev-main");
    assert("dev-"@ + "main"@ =~= "dev-main"@);
    assert("main"@[0] == 'm' && "main"@.last() == 'n');
    releases::law_branches_are_read("main"@);
}

/// What the manifest of a local package says is read from the members of these
/// names.
pub proof fn law_local_manifest_is_read(j: json::JsonView, m: LocalManifestView)
    requires
        j is Object,
        local_manifest_json(j) == Some(m),
    ensures
        json::get_of(j, "name"@) == Some(json::JsonView::Str(m.name)),
        fields::reads_text(json::get_of(j, "version"@), m.version),
        fields::reads_text(json::get_of(j, "type"@), m.package_type),
        fields::reads_text(json::get_of(j, "description"@), m.description),
        fields::reads_links(json::get_of(j, "require"@), m.require),
        fields::reads_links(json::get_of(j, "provide"@), m.provide),
        fields::reads_links(json::get_of(j, "replace"@), m.replace),
        fields::reads_links(json::get_of(j, "conflict"@), m.conflict),
        fields::reads_texts(json::get_of(j, "bin"@), m.bin),
{
    fields::law_members_are_read(json::get_of(j, "version"@));
    fields::law_members_are_read(json::get_of(j, "type"@));
    fields::law_members_are_read(json::get_of(j, "description"@));
    fields::law_members_are_read(json::get_of(j, "require"@));
    fields::law_members_are_read(json::get_of(j, "provide"@));
    fields::law_members_are_read(json::get_of(j, "replace"@));
    fields::law_members_are_read(json::get_of(j, "conflict"@));
    fields::law_members_are_read(json::get_of(j, "bin"@));
}

} // verus!
