//! The `composer.json` of a project.

use crate::collections;
use crate::collections::StrMap;
use crate::constraint::VersionConstraint;
use crate::error::Error;
use crate::fields;
use crate::installer_paths::InstallerPaths;
use crate::json;
use crate::json::Json;
use crate::package;
use crate::package::AutoloadConfig;
use crate::package::PackageId;
use crate::repositories::parse_repositories;
use crate::repositories::Repository;
use crate::text;
use vstd::prelude::*;

verus! {

/// The `composer.json` of a project.
#[derive(Debug)]
pub struct ComposerJson {
    pub name: Option<String>,
    pub description: Option<String>,
    pub package_type: Option<String>,
    pub version: Option<String>,
    pub license: Option<Json>,
    pub require: StrMap<String>,
    pub require_dev: StrMap<String>,
    pub autoload: Option<AutoloadConfig>,
    pub autoload_dev: Option<AutoloadConfig>,
    pub minimum_stability: Option<String>,
    pub prefer_stable: Option<bool>,
    pub config: Option<Json>,
    pub scripts: Option<StrMap<Json>>,
    pub repositories: Option<Json>,
    pub extra: Option<Json>,
    pub replace: StrMap<String>,
    pub provide: StrMap<String>,
    pub conflict: StrMap<String>,
    pub suggest: StrMap<String>,
    pub bin: Vec<String>,
    /// Members that are kept, not read.
    pub rest: StrMap<Json>,
}

impl Default for ComposerJson {
    fn default() -> (r: Self)
        ensures
            r.name is None,
            r.description is None,
            r.package_type is None,
            r.version is None,
            r.license is None,
            r.require@.len() == 0,
            r.require_dev@.len() == 0,
            r.autoload is None,
            r.autoload_dev is None,
            r.minimum_stability is None,
            r.prefer_stable is None,
            r.config is None,
            r.scripts is None,
            r.repositories is None,
            r.extra is None,
            r.replace@.len() == 0,
            r.provide@.len() == 0,
            r.conflict@.len() == 0,
            r.suggest@.len() == 0,
            r.bin@.len() == 0,
            r.rest@.len() == 0,
    {
        ComposerJson {
            name: None,
            description: None,
            package_type: None,
            version: None,
            license: None,
            require: StrMap::new(),
            require_dev: StrMap::new(),
            autoload: None,
            autoload_dev: None,
            minimum_stability: None,
            prefer_stable: None,
            config: None,
            scripts: None,
            repositories: None,
            extra: None,
            replace: StrMap::new(),
            provide: StrMap::new(),
            conflict: StrMap::new(),
            suggest: StrMap::new(),
            bin: Vec::new(),
            rest: StrMap::new(),
        }
    }
}

// ---------------------------------------------------------------------------
// Reading and writing

/// What a `composer.json` consists of.
pub struct ManifestView {
    pub name: Option<Seq<char>>,
    pub description: Option<Seq<char>>,
    pub package_type: Option<Seq<char>>,
    pub version: Option<Seq<char>>,
    pub license: Option<json::JsonView>,
    pub require: Seq<(Seq<char>, Seq<char>)>,
    pub require_dev: Seq<(Seq<char>, Seq<char>)>,
    pub autoload: Option<package::AutoloadView>,
    pub autoload_dev: Option<package::AutoloadView>,
    pub minimum_stability: Option<Seq<char>>,
    pub prefer_stable: Option<bool>,
    pub config: Option<json::JsonView>,
    pub scripts: Option<Seq<(Seq<char>, json::JsonView)>>,
    pub repositories: Option<json::JsonView>,
    pub extra: Option<json::JsonView>,
    pub replace: Seq<(Seq<char>, Seq<char>)>,
    pub provide: Seq<(Seq<char>, Seq<char>)>,
    pub conflict: Seq<(Seq<char>, Seq<char>)>,
    pub suggest: Seq<(Seq<char>, Seq<char>)>,
    pub bin: Seq<Seq<char>>,
    pub rest: Seq<(Seq<char>, json::JsonView)>,
}

impl View for ComposerJson {
    type V = ManifestView;

    open spec fn view(&self) -> ManifestView {
        ManifestView {
            name: text::opt_text(self.name),
            description: text::opt_text(self.description),
            package_type: text::opt_text(self.package_type),
            version: text::opt_text(self.version),
            license: json::opt_json(self.license),
            require: collections::link_pairs(self.require),
            require_dev: collections::link_pairs(self.require_dev),
            autoload: package::opt_autoload(self.autoload),
            autoload_dev: package::opt_autoload(self.autoload_dev),
            minimum_stability: text::opt_text(self.minimum_stability),
            prefer_stable: self.prefer_stable,
            config: json::opt_json(self.config),
            scripts: fields::opt_value_pairs(self.scripts),
            repositories: json::opt_json(self.repositories),
            extra: json::opt_json(self.extra),
            replace: collections::link_pairs(self.replace),
            provide: collections::link_pairs(self.provide),
            conflict: collections::link_pairs(self.conflict),
            suggest: collections::link_pairs(self.suggest),
            bin: text::texts(self.bin@),
            rest: fields::value_pairs(self.rest),
        }
    }
}

/// The members of a `composer.json` that are read.
pub open spec fn known_members() -> Seq<Seq<char>> {
    seq![
        "name"@,
        "description"@,
        "type"@,
        "version"@,
        "license"@,
        "require"@,
        "require-dev"@,
        "autoload"@,
        "autoload-dev"@,
        "minimum-stability"@,
        "prefer-stable"@,
        "config"@,
        "scripts"@,
        "repositories"@,
        "extra"@,
        "replace"@,
        "provide"@,
        "conflict"@,
        "suggest"@,
        "bin"@,
    ]
}

fn known_member_list() -> (r: Vec<&'static str>)
    ensures
        text::views(r@) == known_members(),
{
    let mut r: Vec<&'static str> = Vec::new();
    r.push("name");
    r.push("description");
    r.push("type");
    r.push("version");
    r.push("license");
    r.push("require");
    r.push("require-dev");
    r.push("autoload");
    r.push("autoload-dev");
    r.push("minimum-stability");
    r.push("prefer-stable");
    r.push("config");
    r.push("scripts");
    r.push("repositories");
    r.push("extra");
    r.push("replace");
    r.push("provide");
    r.push("conflict");
    r.push("suggest");
    r.push("bin");
    assert(text::views(r@) =~= known_members());
    r
}

/// The manifest that a value describes: an object none of whose members has
/// the wrong type, and none of whose known members stands there twice.
pub open spec fn manifest_json(j: json::JsonView) -> Option<ManifestView> {
    match fields::object_of(j, known_members()) {
        Some(o) => manifest_object(o),
        None => None,
    }
}

/// The manifest that the members of an object describe.
pub open spec fn manifest_object(j: json::JsonView) -> Option<ManifestView> {
    let name = fields::opt_text_of(json::get_of(j, "name"@));
    let description = fields::opt_text_of(json::get_of(j, "description"@));
    let package_type = fields::opt_text_of(json::get_of(j, "type"@));
    let version = fields::opt_text_of(json::get_of(j, "version"@));
    let require = fields::link_map_of(json::get_of(j, "require"@));
    let require_dev = fields::link_map_of(json::get_of(j, "require-dev"@));
    let autoload = crate::lock::opt_autoload_json(json::get_of(j, "autoload"@));
    let autoload_dev = crate::lock::opt_autoload_json(json::get_of(j, "autoload-dev"@));
    let minimum = fields::opt_text_of(json::get_of(j, "minimum-stability"@));
    let prefer_stable = fields::opt_bool_of(json::get_of(j, "prefer-stable"@));
    let scripts = fields::opt_map_of(json::get_of(j, "scripts"@));
    let replace = fields::link_map_of(json::get_of(j, "replace"@));
    let provide = fields::link_map_of(json::get_of(j, "provide"@));
    let conflict = fields::link_map_of(json::get_of(j, "conflict"@));
    let suggest = fields::link_map_of(json::get_of(j, "suggest"@));
    let bin = fields::text_list_of(json::get_of(j, "bin"@));
    if j is Object && name is Some && description is Some && package_type is Some
        && version is Some && require is Some && require_dev is Some && autoload is Some
        && autoload_dev is Some && minimum is Some && prefer_stable is Some && scripts is Some
        && replace is Some && provide is Some && conflict is Some && suggest is Some
        && bin is Some {
        Some(
            ManifestView {
                name: name->0,
                description: description->0,
                package_type: package_type->0,
                version: version->0,
                license: fields::opt_value_of(json::get_of(j, "license"@)),
                require: require->0,
                require_dev: require_dev->0,
                autoload: autoload->0,
                autoload_dev: autoload_dev->0,
                minimum_stability: minimum->0,
                prefer_stable: prefer_stable->0,
                config: fields::opt_value_of(json::get_of(j, "config"@)),
                scripts: scripts->0,
                repositories: fields::opt_value_of(json::get_of(j, "repositories"@)),
                extra: fields::opt_value_of(json::get_of(j, "extra"@)),
                replace: replace->0,
                provide: provide->0,
                conflict: conflict->0,
                suggest: suggest->0,
                bin: bin->0,
                rest: fields::other_members(j->Object_0, known_members()),
            },
        )
    } else {
        None
    }
}

/// A map of values that is written only where there is one.
pub open spec fn map_member(k: Seq<char>, m: Option<Seq<(Seq<char>, json::JsonView)>>) -> Seq<
    (Seq<char>, json::JsonView),
> {
    match m {
        Some(x) => seq![(k, json::JsonView::Object(x))],
        None => Seq::empty(),
    }
}

/// A truth value that is written only where there is one.
pub open spec fn bool_member(k: Seq<char>, b: Option<bool>) -> Seq<(Seq<char>, json::JsonView)> {
    match b {
        Some(x) => seq![(k, json::JsonView::Bool(x))],
        None => Seq::empty(),
    }
}

/// The members that a manifest is written as. Empty ones are left out.
pub open spec fn manifest_members(m: ManifestView) -> Seq<(Seq<char>, json::JsonView)> {
    fields::text_member("name"@, m.name) + fields::text_member("description"@, m.description)
        + fields::text_member("type"@, m.package_type) + fields::text_member("version"@, m.version)
        + fields::value_member("license"@, m.license) + fields::object_member(
        "require"@,
        fields::link_values(m.require),
    ) + fields::object_member("require-dev"@, fields::link_values(m.require_dev))
        + fields::value_member("autoload"@, crate::lock::autoload_value(m.autoload))
        + fields::value_member("autoload-dev"@, crate::lock::autoload_value(m.autoload_dev))
        + fields::text_member("minimum-stability"@, m.minimum_stability) + bool_member(
        "prefer-stable"@,
        m.prefer_stable,
    ) + fields::value_member("config"@, m.config) + map_member("scripts"@, m.scripts)
        + fields::value_member("repositories"@, m.repositories) + fields::value_member(
        "extra"@,
        m.extra,
    ) + fields::object_member("replace"@, fields::link_values(m.replace)) + fields::object_member(
        "provide"@,
        fields::link_values(m.provide),
    ) + fields::object_member("conflict"@, fields::link_values(m.conflict))
        + fields::object_member("suggest"@, fields::link_values(m.suggest)) + fields::list_member(
        "bin"@,
        m.bin,
    ) + m.rest
}

/// The manifest that a text tells, or what is wrong with it.
pub open spec fn manifest_of_text(t: Seq<char>) -> Result<ManifestView, Seq<char>> {
    match json::kept_read(vstd::utf8::encode_utf8(t)) {
        Ok(j) => match manifest_json(j) {
            Some(m) => Ok(m),
            None => Err("not a composer.json"@),
        },
        Err(fault) => Err(fault),
    }
}

impl ComposerJson {
    /// The manifest that a value describes.
    pub fn from_json(j: &Json) -> (r: Option<ComposerJson>)
        ensures
            match r {
                Some(m) => manifest_json(j@) == Some(m@),
                None => manifest_json(j@) is None,
            },
    {
        let members = match j {
            Json::Object(m) => m,
            _ => {
                return None;
            },
        };
        proof {
            json::lemma_object_view(*members);
        }
        let known = known_member_list();
        if !fields::is_object_of(j, &known) {
            return None;
        }
        let name = fields::read_opt_text(j, "name")?;
        let description = fields::read_opt_text(j, "description")?;
        let package_type = fields::read_opt_text(j, "type")?;
        let version = fields::read_opt_text(j, "version")?;
        let license = fields::read_opt_value(j, "license");
        let require = fields::read_links(j, "require")?;
        let require_dev = fields::read_links(j, "require-dev")?;
        let autoload = crate::lock::read_autoload(j, "autoload")?;
        let autoload_dev = crate::lock::read_autoload(j, "autoload-dev")?;
        let minimum_stability = fields::read_opt_text(j, "minimum-stability")?;
        let prefer_stable = fields::read_opt_bool(j, "prefer-stable")?;
        let config = fields::read_opt_value(j, "config");
        let scripts = fields::read_opt_map(j, "scripts")?;
        let repositories = fields::read_opt_value(j, "repositories");
        let extra = fields::read_opt_value(j, "extra");
        let replace = fields::read_links(j, "replace")?;
        let provide = fields::read_links(j, "provide")?;
        let conflict = fields::read_links(j, "conflict")?;
        let suggest = fields::read_links(j, "suggest")?;
        let bin = fields::read_text_list(j, "bin")?;
        let rest = fields::read_others(members, &known);
        Some(
            ComposerJson {
                name,
                description,
                package_type,
                version,
                license,
                require,
                require_dev,
                autoload,
                autoload_dev,
                minimum_stability,
                prefer_stable,
                config,
                scripts,
                repositories,
                extra,
                replace,
                provide,
                conflict,
                suggest,
                bin,
                rest,
            },
        )
    }

    /// The manifest in a text.
    pub fn from_str(text: &str) -> (r: Result<ComposerJson, Error>)
        ensures
            match manifest_of_text(text@) {
                Ok(m) => r is Ok && r->Ok_0@ == m,
                Err(t) => r matches Err(Error::Manifest(m)) && m@ == t,
            },
    {
        match json::read_kept(text.as_bytes()) {
            Ok(j) => match ComposerJson::from_json(&j) {
                Some(m) => Ok(m),
                None => Err(Error::Manifest(String::from_str("not a composer.json"))),
            },
            Err(fault) => Err(Error::Manifest(fault)),
        }
    }

    /// The manifest as a value.
    pub fn to_json(&self) -> (r: Json)
        ensures
            r@ == json::JsonView::Object(manifest_members(self@)),
    {
        let mut out: Vec<(String, Json)> = Vec::new();
        assert(json::members(out@) =~= Seq::empty());
        fields::add_text(&mut out, "name", &self.name);
        assert(json::members(out@) =~= fields::text_member("name"@, self@.name));
        fields::add_text(&mut out, "description", &self.description);
        fields::add_text(&mut out, "type", &self.package_type);
        fields::add_text(&mut out, "version", &self.version);
        fields::add_opt(&mut out, "license", &self.license);
        fields::add_links(&mut out, "require", &self.require);
        fields::add_links(&mut out, "require-dev", &self.require_dev);
        crate::lock::add_autoload(&mut out, "autoload", &self.autoload);
        crate::lock::add_autoload(&mut out, "autoload-dev", &self.autoload_dev);
        fields::add_text(&mut out, "minimum-stability", &self.minimum_stability);
        let prefer = match self.prefer_stable {
            Some(b) => Some(Json::Bool(b)),
            None => None,
        };
        let ghost before = json::members(out@);
        fields::add_opt(&mut out, "prefer-stable", &prefer);
        assert(json::members(out@) =~= before + bool_member("prefer-stable"@, self@.prefer_stable));
        fields::add_opt(&mut out, "config", &self.config);
        let scripts = match &self.scripts {
            Some(m) => {
                let copy = fields::copy_value_map(m);
                proof {
                    json::lemma_object_view(copy.entries);
                    assert(json::members(copy.entries@) =~= fields::value_pairs(copy));
                }
                Some(Json::Object(copy.entries))
            },
            None => None,
        };
        let ghost before = json::members(out@);
        fields::add_opt(&mut out, "scripts", &scripts);
        assert(json::members(out@) =~= before + map_member("scripts"@, self@.scripts));
        fields::add_opt(&mut out, "repositories", &self.repositories);
        fields::add_opt(&mut out, "extra", &self.extra);
        fields::add_links(&mut out, "replace", &self.replace);
        fields::add_links(&mut out, "provide", &self.provide);
        fields::add_links(&mut out, "conflict", &self.conflict);
        fields::add_links(&mut out, "suggest", &self.suggest);
        fields::add_list(&mut out, "bin", &self.bin);
        fields::add_entries(&mut out, &self.rest);
        proof {
            json::lemma_object_view(out);
        }
        Json::Object(out)
    }
}

// ---------------------------------------------------------------------------
// Dependencies

/// The first name of a list that names no package.
pub open spec fn first_bad_name(reqs: Seq<(Seq<char>, Seq<char>)>) -> Option<Seq<char>>
    decreases reqs.len(),
{
    if reqs.len() == 0 {
        None
    } else if !package::is_package_name(reqs[0].0) {
        Some(text::trimmed(reqs[0].0))
    } else {
        first_bad_name(reqs.skip(1))
    }
}

/// The requirements on packages other than platform packages.
pub open spec fn package_reqs(reqs: Seq<(Seq<char>, Seq<char>)>) -> Seq<(Seq<char>, Seq<char>)>
    decreases reqs.len(),
{
    if reqs.len() == 0 {
        Seq::empty()
    } else {
        let rest = package_reqs(reqs.drop_last());
        if package::names_package(reqs.last().0) {
            rest.push((text::trimmed(reqs.last().0), reqs.last().1))
        } else {
            rest
        }
    }
}

/// What a list of dependencies consists of.
pub open spec fn dep_views(v: Seq<(PackageId, VersionConstraint)>) -> Seq<(Seq<char>, Seq<char>)> {
    v.map_values(|d: (PackageId, VersionConstraint)| (d.0@, d.1@))
}

/// The dependencies on packages other than platform packages.
pub fn parse_deps(map: &StrMap<String>) -> (r: Result<Vec<(PackageId, VersionConstraint)>, Error>)
    ensures
        match first_bad_name(collections::link_pairs(*map)) {
            None => r is Ok && dep_views(r->Ok_0@) == package_reqs(collections::link_pairs(*map)),
            Some(bad) => r matches Err(Error::InvalidPackageName(t)) && t@ == bad,
        },
{
    let ghost all = collections::link_pairs(*map);
    let mut out: Vec<(PackageId, VersionConstraint)> = Vec::new();
    let n: usize = map.entries.len();
    let mut i: usize = 0;
    assert(all.skip(0) =~= all);
    assert(dep_views(out@) =~= Seq::empty());
    while i < n
        invariant
            i <= n,
            n == map.entries@.len(),
            all == collections::link_pairs(*map),
            first_bad_name(all) == first_bad_name(all.skip(i as int)),
            dep_views(out@) == package_reqs(all.take(i as int)),
        decreases n - i,
    {
        let name = map.entries[i].0.as_str();
        let constraint = map.entries[i].1.as_str();
        proof {
            assert(all[i as int] == (name@, constraint@));
            assert(all.skip(i as int)[0] == all[i as int]);
            assert(all.skip(i as int).skip(1) =~= all.skip(i + 1));
            assert(all.take(i + 1).drop_last() =~= all.take(i as int));
            assert(all.take(i + 1).last() == all[i as int]);
        }
        match PackageId::parse(name) {
            Err(e) => {
                return Err(e);
            },
            Ok(id) => {
                if !id.is_platform() {
                    let ghost before = out@;
                    let c = VersionConstraint::new(constraint);
                    out.push((id, c));
                    assert(dep_views(out@) =~= dep_views(before).push((id@, c@)));
                }
            },
        }
        i += 1;
    }
    assert(all.take(n as int) =~= all);
    Ok(out)
}

/// Where a list of names goes wrong: at the first name that names no package.
pub open spec fn or_first(a: Option<Seq<char>>, b: Option<Seq<char>>) -> Option<Seq<char>> {
    if a is Some {
        a
    } else {
        b
    }
}

impl ComposerJson {
    /// The dependencies for production.
    pub fn prod_deps(&self) -> (r: Result<Vec<(PackageId, VersionConstraint)>, Error>)
        ensures
            match first_bad_name(collections::link_pairs(self.require)) {
                None => r is Ok && dep_views(r->Ok_0@) == package_reqs(
                    collections::link_pairs(self.require),
                ),
                Some(bad) => r matches Err(Error::InvalidPackageName(t)) && t@ == bad,
            },
    {
        parse_deps(&self.require)
    }

    /// The dependencies for development.
    pub fn dev_deps(&self) -> (r: Result<Vec<(PackageId, VersionConstraint)>, Error>)
        ensures
            match first_bad_name(collections::link_pairs(self.require_dev)) {
                None => r is Ok && dep_views(r->Ok_0@) == package_reqs(
                    collections::link_pairs(self.require_dev),
                ),
                Some(bad) => r matches Err(Error::InvalidPackageName(t)) && t@ == bad,
            },
    {
        parse_deps(&self.require_dev)
    }

    /// The dependencies, with those for development if asked for.
    pub fn all_deps(&self, with_dev: bool) -> (r: Result<
        Vec<(PackageId, VersionConstraint)>,
        Error,
    >)
        ensures
            match or_first(
                first_bad_name(collections::link_pairs(self.require)),
                if with_dev {
                    first_bad_name(collections::link_pairs(self.require_dev))
                } else {
                    None
                },
            ) {
                None => r is Ok && dep_views(r->Ok_0@) == package_reqs(
                    collections::link_pairs(self.require),
                ) + if with_dev {
                    package_reqs(collections::link_pairs(self.require_dev))
                } else {
                    Seq::empty()
                },
                Some(bad) => r matches Err(Error::InvalidPackageName(t)) && t@ == bad,
            },
    {
        let mut deps = match self.prod_deps() {
            Ok(d) => d,
            Err(e) => {
                return Err(e);
            },
        };
        let ghost prod = deps@;
        if with_dev {
            let mut dev = match self.dev_deps() {
                Ok(d) => d,
                Err(e) => {
                    return Err(e);
                },
            };
            let ghost devs = dev@;
            deps.append(&mut dev);
            assert(dep_views(deps@) =~= dep_views(prod) + dep_views(devs));
        } else {
            assert(dep_views(deps@) =~= dep_views(prod) + Seq::empty());
        }
        Ok(deps)
    }
}

// ---------------------------------------------------------------------------
// Configuration

/// A member of `config`.
pub open spec fn config_member(c: Option<json::JsonView>, k: Seq<char>) -> Option<json::JsonView> {
    match c {
        Some(j) => json::get_of(j, k),
        None => None,
    }
}

/// The vendor directory that a configuration names.
pub open spec fn vendor_dir_of(c: Option<json::JsonView>) -> Seq<char> {
    match json::opt_str_of(config_member(c, "vendor-dir"@)) {
        Some(s) => s,
        None => "vendor"@,
    }
}

/// The directory for binaries that a configuration names.
pub open spec fn bin_dir_of(c: Option<json::JsonView>) -> Seq<char> {
    match json::opt_str_of(config_member(c, "bin-dir"@)) {
        Some(s) => s,
        None => vendor_dir_of(c) + "/bin"@,
    }
}

/// How packages are to be installed.
#[derive(Debug, Clone, Copy, PartialEq, Eq, Structural)]
pub enum PreferInstall {
    Auto,
    Dist,
    Source,
}

impl Default for PreferInstall {
    fn default() -> (r: Self)
        ensures
            r == PreferInstall::Auto,
    {
        PreferInstall::Auto
    }
}

/// How a configuration wants packages to be installed.
pub open spec fn prefer_install_of(c: Option<json::JsonView>) -> PreferInstall {
    let v = match config_member(c, "preferred-install"@) {
        Some(j) => Some(j),
        None => config_member(c, "prefer-install"@),
    };
    match json::opt_str_of(v) {
        Some(s) => if s == "source"@ {
            PreferInstall::Source
        } else if s == "dist"@ {
            PreferInstall::Dist
        } else {
            PreferInstall::Auto
        },
        None => PreferInstall::Auto,
    }
}

/// Whether archives are preferred, given the flags and the configuration.
pub open spec fn prefers_dist(pref: PreferInstall, dist_flag: bool, source_flag: bool) -> bool {
    !source_flag && if dist_flag {
        pref != PreferInstall::Source
    } else {
        pref == PreferInstall::Dist
    }
}

/// Whether the platform check is wanted.
pub open spec fn wants_platform_check(c: Option<json::JsonView>) -> bool {
    match config_member(c, "platform-check"@) {
        Some(json::JsonView::Bool(b)) => b,
        Some(json::JsonView::Str(s)) => text::lower(s) != "false"@,
        _ => true,
    }
}

/// The entries of `allow-plugins` that are true or false.
pub open spec fn plugin_entries(m: Seq<(Seq<char>, json::JsonView)>) -> Seq<(Seq<char>, bool)>
    decreases m.len(),
{
    if m.len() == 0 {
        Seq::empty()
    } else {
        let rest = plugin_entries(m.drop_last());
        match m.last().1 {
            json::JsonView::Bool(b) => collections::inserted(rest, m.last().0, b),
            _ => rest,
        }
    }
}

/// Whether only encrypted connections are allowed.
pub open spec fn wants_secure_http(c: Option<json::JsonView>) -> bool {
    match config_member(c, "secure-http"@) {
        Some(json::JsonView::Bool(b)) => b,
        _ => true,
    }
}

/// Whether Packagist is in use: yes, unless it is switched off by name.
pub open spec fn uses_packagist(repos: Option<json::JsonView>) -> bool {
    match repos {
        Some(json::JsonView::Object(m)) => !exists|i: int|
            0 <= i < m.len() && crate::repositories::is_packagist_name((#[trigger] m[i]).0)
                && m[i].1 == json::JsonView::Bool(false),
        _ => true,
    }
}

/// The value under a path of keys.
pub open spec fn at_path(j: json::JsonView, parts: Seq<Seq<char>>) -> Option<json::JsonView>
    decreases parts.len(),
{
    if parts.len() == 0 {
        Some(j)
    } else {
        match json::get_of(j, parts[0]) {
            Some(next) => at_path(next, parts.skip(1)),
            None => None,
        }
    }
}

/// The members of an object; none for any other value.
pub open spec fn members_or_none(j: Option<json::JsonView>) -> Seq<(Seq<char>, json::JsonView)> {
    match j {
        Some(json::JsonView::Object(m)) => m,
        _ => Seq::empty(),
    }
}

/// The value after `v` was put under a path of keys. What stands in the way
/// and is no object gives way to one.
pub open spec fn with_path(
    j: Option<json::JsonView>,
    parts: Seq<Seq<char>>,
    v: json::JsonView,
) -> json::JsonView
    decreases parts.len(),
{
    let m = members_or_none(j);
    if parts.len() <= 1 {
        json::JsonView::Object(json::with_member(m, parts[0], v))
    } else {
        json::JsonView::Object(
            json::with_member(m, parts[0], with_path(json::member(m, parts[0]), parts.skip(1), v)),
        )
    }
}

/// What was put under a path is found there.
pub proof fn law_path_reads_back(
    j: Option<json::JsonView>,
    parts: Seq<Seq<char>>,
    v: json::JsonView,
)
    requires
        parts.len() > 0,
    ensures
        at_path(with_path(j, parts, v), parts) == Some(v),
    decreases parts.len(),
{
    let m = members_or_none(j);
    if parts.len() == 1 {
        json::lemma_member_with(m, parts[0], v, parts[0]);
        assert(at_path(v, parts.skip(1)) == Some(v));
    } else {
        let inner = with_path(json::member(m, parts[0]), parts.skip(1), v);
        json::lemma_member_with(m, parts[0], inner, parts[0]);
        law_path_reads_back(json::member(m, parts[0]), parts.skip(1), v);
    }
}

/// To set one top-level key leaves the others alone.
pub proof fn law_set_leaves_others(
    m: Seq<(Seq<char>, json::JsonView)>,
    parts: Seq<Seq<char>>,
    v: json::JsonView,
    q: Seq<char>,
)
    requires
        parts.len() > 0,
        q != parts[0],
    ensures
        json::get_of(with_path(Some(json::JsonView::Object(m)), parts, v), q) == json::member(m, q),
{
    if parts.len() == 1 {
        json::lemma_member_with(m, parts[0], v, q);
    } else {
        let inner = with_path(json::member(m, parts[0]), parts.skip(1), v);
        json::lemma_member_with(m, parts[0], inner, q);
    }
}

/// The members after the value under a path of keys was taken out.
pub open spec fn without_path(
    m: Seq<(Seq<char>, json::JsonView)>,
    parts: Seq<Seq<char>>,
) -> Seq<(Seq<char>, json::JsonView)>
    decreases parts.len(),
{
    if parts.len() <= 1 {
        json::without_member(m, parts[0])
    } else {
        match json::member(m, parts[0]) {
            Some(json::JsonView::Object(c)) => json::with_member(
                m,
                parts[0],
                json::JsonView::Object(without_path(c, parts.skip(1))),
            ),
            _ => m,
        }
    }
}

/// The value after `value` was put under the keys from `at` on.
fn set_path(cur: Option<Json>, parts: &Vec<&str>, at: usize, value: Json) -> (r: Json)
    requires
        at < parts@.len(),
    ensures
        r@ == with_path(
            json::opt_json(cur),
            text::views(parts@).skip(at as int),
            value@,
        ),
    decreases parts@.len() - at,
{
    let ghost rest = text::views(parts@).skip(at as int);
    let mut map: Vec<(String, Json)> = match cur {
        Some(Json::Object(m)) => {
            proof {
                json::lemma_object_view(m);
            }
            m
        },
        _ => Vec::new(),
    };
    let ghost m = json::members(map@);
    proof {
        if !(json::opt_json(cur) matches Some(json::JsonView::Object(_))) {
            assert(m =~= Seq::empty());
        }
    }
    assert(m == members_or_none(json::opt_json(cur)));
    assert(rest[0] == parts@[at as int]@);
    let last: bool = at == parts.len() - 1;
    match json::find_index(&map, parts[at]) {
        Some(i) => {
            let (key, old) = map.remove(i);
            let new = if last {
                value
            } else {
                assert(rest.skip(1) =~= text::views(parts@).skip(at + 1));
                set_path(Some(old), parts, at + 1, value)
            };
            map.insert(i, (key, new));
            proof {
                json::lemma_with_member_at(m, rest[0], new@);
                assert(json::members(map@) =~= m.update(i as int, (rest[0], new@)));
            }
        },
        None => {
            let new = if last {
                value
            } else {
                assert(rest.skip(1) =~= text::views(parts@).skip(at + 1));
                set_path(None, parts, at + 1, value)
            };
            map.push((String::from_str(parts[at]), new));
            proof {
                json::lemma_with_member_at(m, rest[0], new@);
                assert(json::members(map@) =~= m.push((rest[0], new@)));
            }
        },
    }
    proof {
        json::lemma_object_view(map);
    }
    Json::Object(map)
}

/// The members without the value under the keys from `at` on.
fn remove_path(map: Vec<(String, Json)>, parts: &Vec<&str>, at: usize) -> (r: Vec<(String, Json)>)
    requires
        at < parts@.len(),
    ensures
        json::members(r@) == without_path(
            json::members(map@),
            text::views(parts@).skip(at as int),
        ),
    decreases parts@.len() - at,
{
    let ghost rest = text::views(parts@).skip(at as int);
    assert(rest[0] == parts@[at as int]@);
    if at == parts.len() - 1 {
        return json::remove_member(map, parts[at]);
    }
    let mut out = map;
    let ghost m = json::members(out@);
    if let Some(i) = json::find_index(&out, parts[at]) {
        if out[i].1.is_object() {
            let (key, old) = out.remove(i);
            match old {
                Json::Object(c) => {
                    proof {
                        json::lemma_object_view(c);
                        assert(rest.skip(1) =~= text::views(parts@).skip(at + 1));
                    }
                    let inner = remove_path(c, parts, at + 1);
                    let new = Json::Object(inner);
                    proof {
                        json::lemma_object_view(inner);
                        json::lemma_with_member_at(m, rest[0], new@);
                    }
                    out.insert(i, (key, new));
                    assert(json::members(out@) =~= m.update(i as int, (rest[0], new@)));
                },
                other => {
                    out.insert(i, (key, other));
                    assert(json::members(out@) =~= m);
                },
            }
        }
    }
    out
}

/// The configuration after a key was taken out: as it stands, and where it has
/// dots also as a path.
pub open spec fn config_without(c: Option<json::JsonView>, key: Seq<char>) -> Option<
    json::JsonView,
> {
    match c {
        Some(json::JsonView::Object(m)) => {
            let once = json::without_member(m, key);
            if key.contains('.') {
                Some(json::JsonView::Object(without_path(once, text::pieces(key, "."@))))
            } else {
                Some(json::JsonView::Object(once))
            }
        },
        _ => c,
    }
}

impl ComposerJson {
    fn config_entry(&self, k: &str) -> (r: Option<&Json>)
        ensures
            match r {
                Some(j) => config_member(json::opt_json(self.config), k@) == Some(j@),
                None => config_member(json::opt_json(self.config), k@) is None,
            },
    {
        match &self.config {
            Some(c) => c.get(k),
            None => None,
        }
    }

    /// The vendor directory.
    pub fn vendor_dir(&self) -> (r: String)
        ensures
            r@ == vendor_dir_of(json::opt_json(self.config)),
    {
        match self.config_entry("vendor-dir") {
            Some(v) => match v.as_str() {
                Some(s) => String::from_str(s),
                None => String::from_str("vendor"),
            },
            None => String::from_str("vendor"),
        }
    }

    /// The directory for binaries.
    pub fn bin_dir(&self) -> (r: String)
        ensures
            r@ == bin_dir_of(json::opt_json(self.config)),
    {
        if let Some(v) = self.config_entry("bin-dir") {
            if let Some(s) = v.as_str() {
                return String::from_str(s);
            }
        }
        text::cat(self.vendor_dir().as_str(), "/bin")
    }

    /// Whether the platform check is wanted.
    pub fn platform_check_enabled(&self) -> (r: bool)
        ensures
            r == wants_platform_check(json::opt_json(self.config)),
    {
        match self.config_entry("platform-check") {
            Some(Json::Bool(b)) => *b,
            Some(Json::Str(s)) => !text::same(
                text::to_ascii_lowercase(s.as_str()).as_str(),
                "false",
            ),
            _ => true,
        }
    }

    /// How the configuration wants packages to be installed.
    pub fn preferred_install(&self) -> (r: PreferInstall)
        ensures
            r == prefer_install_of(json::opt_json(self.config)),
    {
        let v = match self.config_entry("preferred-install") {
            Some(j) => Some(j),
            None => self.config_entry("prefer-install"),
        };
        let word = match v {
            Some(j) => j.as_str(),
            None => None,
        };
        match word {
            Some(s) => if text::same(s, "source") {
                PreferInstall::Source
            } else if text::same(s, "dist") {
                PreferInstall::Dist
            } else {
                PreferInstall::Auto
            },
            None => PreferInstall::Auto,
        }
    }

    /// Whether archives are preferred, given the flags and the configuration.
    pub fn resolve_prefer_dist(&self, prefer_dist_flag: bool, prefer_source_flag: bool) -> (r: bool)
        ensures
            r == prefers_dist(
                prefer_install_of(json::opt_json(self.config)),
                prefer_dist_flag,
                prefer_source_flag,
            ),
    {
        if prefer_source_flag {
            return false;
        }
        if !prefer_dist_flag {
            return self.preferred_install() == PreferInstall::Dist;
        }
        self.preferred_install() != PreferInstall::Source
    }

    /// Which plugins are allowed.
    pub fn allow_plugins(&self) -> (r: StrMap<bool>)
        ensures
            r@ == plugin_entries(
                members_or_none(config_member(json::opt_json(self.config), "allow-plugins"@)),
            ),
    {
        let mut out: StrMap<bool> = StrMap::new();
        if let Some(Json::Object(m)) = self.config_entry("allow-plugins") {
            proof {
                json::lemma_object_view(*m);
            }
            let ghost all = json::members(m@);
            let n: usize = m.len();
            let mut i: usize = 0;
            while i < n
                invariant
                    i <= n,
                    n == m@.len(),
                    all == json::members(m@),
                    out@ == plugin_entries(all.take(i as int)),
                decreases n - i,
            {
                proof {
                    assert(all.take(i + 1).drop_last() =~= all.take(i as int));
                    assert(all.take(i + 1).last() == (m@[i as int].0@, m@[i as int].1@));
                }
                if let Some(b) = m[i].1.as_bool() {
                    out.insert(m[i].0.clone(), b);
                }
                i += 1;
            }
            assert(all.take(n as int) =~= all);
        }
        out
    }

    /// The configured value under a key with dots.
    pub fn config_get(&self, key: &str) -> (r: Option<Json>)
        ensures
            json::opt_json(r) == match json::opt_json(self.config) {
                Some(c) => at_path(c, text::pieces(key@, "."@)),
                None => None,
            },
    {
        let root = match &self.config {
            Some(c) => c,
            None => {
                return None;
            },
        };
        proof {
            reveal_strlit(".");
        }
        let parts = text::split(key, ".");
        let ghost all = text::views(parts@);
        let n: usize = parts.len();
        let mut cur: &Json = root;
        let mut i: usize = 0;
        assert(all.skip(0) =~= all);
        while i < n
            invariant
                i <= n,
                n == parts@.len(),
                all == text::views(parts@),
                all == text::pieces(key@, "."@),
                json::opt_json(self.config) == Some(root@),
                at_path(root@, all) == at_path(cur@, all.skip(i as int)),
            decreases n - i,
        {
            proof {
                assert(all.skip(i as int)[0] == parts@[i as int]@);
                assert(all.skip(i as int).skip(1) =~= all.skip(i + 1));
            }
            match cur.get(parts[i]) {
                Some(next) => {
                    cur = next;
                },
                None => {
                    return None;
                },
            }
            i += 1;
        }
        Some(cur.copy())
    }

    /// Gives a key with dots a value.
    pub fn config_set(&mut self, key: &str, value: Json)
        ensures
            json::opt_json(final(self).config) == Some(
                with_path(json::opt_json(old(self).config), text::pieces(key@, "."@), value@),
            ),
            *final(self) == (ComposerJson { config: final(self).config, ..*old(self) }),
    {
        proof {
            reveal_strlit(".");
        }
        let parts = text::split(key, ".");
        assert(text::views(parts@).skip(0) =~= text::views(parts@));
        let cur = self.config.take();
        self.config = Some(set_path(cur, &parts, 0, value));
    }

    /// Takes a key out of the configuration.
    pub fn config_unset(&mut self, key: &str)
        ensures
            json::opt_json(final(self).config) == config_without(
                json::opt_json(old(self).config),
                key@,
            ),
            *final(self) == (ComposerJson { config: final(self).config, ..*old(self) }),
    {
        let cur = self.config.take();
        match cur {
            Some(Json::Object(m)) => {
                proof {
                    json::lemma_object_view(m);
                }
                let mut once = json::remove_member(m, key);
                if text::contains_char(key, '.') {
                    proof {
                        reveal_strlit(".");
                    }
                    let parts = text::split(key, ".");
                    assert(text::views(parts@).skip(0) =~= text::views(parts@));
                    once = remove_path(once, &parts, 0);
                }
                proof {
                    json::lemma_object_view(once);
                }
                self.config = Some(Json::Object(once));
            },
            other => {
                self.config = other;
            },
        }
    }

    pub fn prefer_stable(&self) -> (r: bool)
        ensures
            r == (self.prefer_stable == Some(true)),
    {
        match self.prefer_stable {
            Some(b) => b,
            None => false,
        }
    }

    pub fn minimum_stability(&self) -> (r: &str)
        ensures
            r@ == match text::opt_text(self.minimum_stability) {
                Some(s) => s,
                None => "stable"@,
            },
    {
        match &self.minimum_stability {
            Some(s) => s.as_str(),
            None => "stable",
        }
    }

    /// The repositories besides Packagist.
    pub fn repositories_list(&self) -> (r: Vec<Repository>)
        ensures
            crate::repositories::repository_views(r@) == crate::repositories::repositories_of(
                json::opt_json(self.repositories),
            ),
    {
        match &self.repositories {
            Some(v) => parse_repositories(Some(v)),
            None => parse_repositories(None),
        }
    }

    /// Whether only encrypted connections are allowed.
    pub fn secure_http(&self) -> (r: bool)
        ensures
            r == wants_secure_http(json::opt_json(self.config)),
    {
        match self.config_entry("secure-http") {
            Some(v) => match v.as_bool() {
                Some(b) => b,
                None => true,
            },
            None => true,
        }
    }

    /// Whether Packagist is in use.
    pub fn packagist_enabled(&self) -> (r: bool)
        ensures
            r == uses_packagist(json::opt_json(self.repositories)),
    {
        if let Some(Json::Object(m)) = &self.repositories {
            proof {
                json::lemma_object_view(*m);
            }
            let ghost all = json::members(m@);
            let n: usize = m.len();
            let mut i: usize = 0;
            while i < n
                invariant
                    i <= n,
                    n == m@.len(),
                    all == json::members(m@),
                    json::opt_json(self.repositories) == Some(json::JsonView::Object(all)),
                    forall|j: int|
                        0 <= j < i ==> !(crate::repositories::is_packagist_name(
                            (#[trigger] all[j]).0,
                        ) && all[j].1 == json::JsonView::Bool(false)),
                decreases n - i,
            {
                assert(all[i as int] == (m@[i as int].0@, m@[i as int].1@));
                let k = m[i].0.as_str();
                if text::same(k, "packagist.org") || text::same(k, "packagist") {
                    if let Some(b) = m[i].1.as_bool() {
                        if !b {
                            return false;
                        }
                    }
                }
                i += 1;
            }
        }
        true
    }

    /// The rules for where packages go.
    pub fn installer_paths(&self) -> (r: InstallerPaths)
        ensures
            r@ == crate::installer_paths::rules_of(
                crate::installer_paths::path_members(json::opt_json(self.extra)),
            ),
    {
        match &self.extra {
            Some(e) => InstallerPaths::from_extra(Some(e)),
            None => InstallerPaths::from_extra(None),
        }
    }
}

// ---------------------------------------------------------------------------
// Laws on what is read

/// What a `composer.json` says is read from the members of these names.
pub proof fn law_manifest_is_read(j: json::JsonView, m: ManifestView)
    requires
        manifest_json(j) == Some(m),
    ensures
        j is Object,
        fields::reads_text(json::get_of(j, "name"@), m.name),
        fields::reads_text(json::get_of(j, "description"@), m.description),
        fields::reads_text(json::get_of(j, "type"@), m.package_type),
        fields::reads_text(json::get_of(j, "version"@), m.version),
        fields::reads_text(json::get_of(j, "minimum-stability"@), m.minimum_stability),
        m.prefer_stable == (match json::get_of(j, "prefer-stable"@) {
            Some(json::JsonView::Bool(b)) => Some(b),
            _ => None,
        }),
        fields::reads_links(json::get_of(j, "require"@), m.require),
        fields::reads_links(json::get_of(j, "require-dev"@), m.require_dev),
        fields::reads_links(json::get_of(j, "replace"@), m.replace),
        fields::reads_links(json::get_of(j, "provide"@), m.provide),
        fields::reads_links(json::get_of(j, "conflict"@), m.conflict),
        fields::reads_links(json::get_of(j, "suggest"@), m.suggest),
        fields::reads_texts(json::get_of(j, "bin"@), m.bin),
        (json::get_of(j, "config"@) matches Some(c) && c !is Null) ==> m.config == Some(
            json::settled(json::get_of(j, "config"@)->0),
        ),
        (json::get_of(j, "repositories"@) matches Some(c) && c !is Null) ==> m.repositories == Some(
            json::settled(json::get_of(j, "repositories"@)->0),
        ),
        (json::get_of(j, "extra"@) matches Some(c) && c !is Null) ==> m.extra == Some(
            json::settled(json::get_of(j, "extra"@)->0),
        ),
        (json::get_of(j, "autoload"@) matches Some(a) && a !is Null) ==> m.autoload
            == package::autoload_json(json::get_of(j, "autoload"@)->0),
        (json::get_of(j, "autoload-dev"@) matches Some(a) && a !is Null) ==> m.autoload_dev
            == package::autoload_json(json::get_of(j, "autoload-dev"@)->0),
        json::get_of(j, "autoload"@) is None ==> m.autoload is None,
        json::get_of(j, "autoload-dev"@) is None ==> m.autoload_dev is None,
        json::get_of(j, "config"@) is None ==> m.config is None,
        json::get_of(j, "repositories"@) is None ==> m.repositories is None,
        json::get_of(j, "extra"@) is None ==> m.extra is None,
{
    fields::law_members_are_read(json::get_of(j, "name"@));
    fields::law_members_are_read(json::get_of(j, "description"@));
    fields::law_members_are_read(json::get_of(j, "type"@));
    fields::law_members_are_read(json::get_of(j, "version"@));
    fields::law_members_are_read(json::get_of(j, "minimum-stability"@));
    fields::law_members_are_read(json::get_of(j, "prefer-stable"@));
    fields::law_members_are_read(json::get_of(j, "require"@));
    fields::law_members_are_read(json::get_of(j, "require-dev"@));
    fields::law_members_are_read(json::get_of(j, "replace"@));
    fields::law_members_are_read(json::get_of(j, "provide"@));
    fields::law_members_are_read(json::get_of(j, "conflict"@));
    fields::law_members_are_read(json::get_of(j, "suggest"@));
    fields::law_members_are_read(json::get_of(j, "bin"@));
}

/// The settings that are looked at, and what holds without them.
pub proof fn law_settings(c: Seq<(Seq<char>, json::JsonView)>, s: Seq<char>, b: bool)
    ensures
        ({
            let conf = Some(json::JsonView::Object(c));
            &&& vendor_dir_of(None) == "vendor"@
            &&& bin_dir_of(None) == "vendor"@ + "/bin"@
            &&& wants_secure_http(None)
            &&& wants_platform_check(None)
            &&& prefer_install_of(None) == PreferInstall::Auto
            &&& json::member(c, "vendor-dir"@) == Some(json::JsonView::Str(s)) ==> vendor_dir_of(
                conf,
            ) == s
            &&& json::member(c, "vendor-dir"@) is None ==> vendor_dir_of(conf) == "vendor"@
            &&& json::member(c, "bin-dir"@) == Some(json::JsonView::Str(s)) ==> bin_dir_of(conf)
                == s
            &&& json::member(c, "bin-dir"@) is None ==> bin_dir_of(conf) == vendor_dir_of(conf)
                + "/bin"@
            &&& json::member(c, "secure-http"@) == Some(json::JsonView::Bool(b))
                ==> wants_secure_http(conf) == b
            &&& json::member(c, "secure-http"@) is None ==> wants_secure_http(conf)
            &&& json::member(c, "platform-check"@) == Some(json::JsonView::Bool(b))
                ==> wants_platform_check(conf) == b
            &&& json::member(c, "preferred-install"@) == Some(json::JsonView::Str("source"@))
                ==> prefer_install_of(conf) == PreferInstall::Source
            &&& json::member(c, "preferred-install"@) == Some(json::JsonView::Str("dist"@))
                ==> prefer_install_of(conf) == PreferInstall::Dist
        }),
{
    reveal_strlit("source");
    reveal_strlit("dist");
    assert("source"@.len() == 6 && "dist"@.len() == 4);
}

/// Archives are preferred if the setting or the flag says so: a flag for checkouts
/// wins over everything, the setting for checkouts over the flag for archives.
pub proof fn law_what_is_preferred(pref: PreferInstall, dist_flag: bool)
    ensures
        !prefers_dist(pref, dist_flag, true),
        !prefers_dist(PreferInstall::Source, dist_flag, false),
        prefers_dist(PreferInstall::Dist, dist_flag, false),
        prefers_dist(PreferInstall::Auto, dist_flag, false) == dist_flag,
{
}

/// The requirements on packages are those whose names are no platform packages,
/// with their constraints and in their order; a list with an invalid name is
/// refused.
pub proof fn law_requirements_on_packages(reqs: Seq<(Seq<char>, Seq<char>)>, i: int)
    requires
        0 <= i < reqs.len(),
    ensures
        package::names_package(reqs[i].0) ==> package_reqs(reqs).contains(
            (text::trimmed(reqs[i].0), reqs[i].1),
        ),
        forall|k: int|
            0 <= k < package_reqs(reqs).len() ==> exists|j: int|
                0 <= j < reqs.len() && package::names_package((#[trigger] reqs[j]).0) && (
                #[trigger] package_reqs(reqs)[k]) == (text::trimmed(reqs[j].0), reqs[j].1),
        first_bad_name(reqs) is None ==> package::is_package_name(reqs[i].0),
    decreases reqs.len(),
{
    let front = reqs.drop_last();
    let rest = package_reqs(front);
    let all = package_reqs(reqs);
    assert(reqs[reqs.len() - 1] == reqs.last());
    if front.len() > 0 {
        let at = if i < front.len() {
            i
        } else {
            0
        };
        law_requirements_on_packages(front, at);
    }
    if package::names_package(reqs[i].0) {
        let e = (text::trimmed(reqs[i].0), reqs[i].1);
        if i < front.len() {
            assert(front[i] == reqs[i]);
            let k = choose|k: int| 0 <= k < rest.len() && rest[k] == e;
            assert(all[k] == e);
        } else {
            assert(all[rest.len() as int] == e);
        }
    }
    assert forall|k: int| 0 <= k < all.len() implies exists|j: int|
        0 <= j < reqs.len() && package::names_package((#[trigger] reqs[j]).0) && (#[trigger] all[k])
            == (text::trimmed(reqs[j].0), reqs[j].1) by {
        if k < rest.len() {
            assert(all[k] == rest[k]);
            let j = choose|j: int|
                0 <= j < front.len() && package::names_package((#[trigger] front[j]).0) && rest[k]
                    == (text::trimmed(front[j].0), front[j].1);
            assert(reqs[j] == front[j]);
        } else {
            assert(package::names_package(reqs[reqs.len() - 1].0));
        }
    }
    if first_bad_name(reqs) is None {
        lemma_no_bad_name(reqs, i);
    }
}

proof fn lemma_no_bad_name(reqs: Seq<(Seq<char>, Seq<char>)>, i: int)
    requires
        0 <= i < reqs.len(),
        first_bad_name(reqs) is None,
    ensures
        package::is_package_name(reqs[i].0),
    decreases reqs.len(),
{
    if i > 0 {
        assert(reqs.skip(1)[i - 1] == reqs[i]);
        lemma_no_bad_name(reqs.skip(1), i - 1);
    }
}

/// Packagist is left out if and only if it is switched off by its name.
pub proof fn law_who_uses_packagist(m: Seq<(Seq<char>, json::JsonView)>, a: Seq<json::JsonView>)
    ensures
        uses_packagist(None),
        uses_packagist(Some(json::JsonView::Array(a))),
        !uses_packagist(Some(json::JsonView::Object(m))) <==> (m.contains(
            ("packagist"@, json::JsonView::Bool(false)),
        ) || m.contains(("packagist.org"@, json::JsonView::Bool(false)))),
{
    let off = json::JsonView::Bool(false);
    if m.contains(("packagist"@, off)) {
        let i = choose|i: int| 0 <= i < m.len() && m[i] == ("packagist"@, off);
        assert(m[i].0 == "packagist"@ && m[i].1 == off);
    }
    if m.contains(("packagist.org"@, off)) {
        let i = choose|i: int| 0 <= i < m.len() && m[i] == ("packagist.org"@, off);
        assert(m[i].0 == "packagist.org"@ && m[i].1 == off);
    }
    if !uses_packagist(Some(json::JsonView::Object(m))) {
        let i = choose|i: int|
            0 <= i < m.len() && crate::repositories::is_packagist_name((#[trigger] m[i]).0)
                && m[i].1 == off;
        assert(m.contains(m[i]));
    }
}

proof fn lemma_member_index(m: Seq<(Seq<char>, json::JsonView)>, k: Seq<char>)
    ensures
        match json::member_index(m, k) {
            Some(i) => 0 <= i < m.len() && m[i].0 == k,
            None => forall|i: int| 0 <= i < m.len() ==> (#[trigger] m[i]).0 != k,
        },
    decreases m.len(),
{
    if m.len() > 0 {
        let rest = m.skip(1);
        lemma_member_index(rest, k);
        if m[0].0 != k {
            if let Some(i) = json::member_index(rest, k) {
                assert(m[i + 1] == rest[i]);
            } else {
                assert forall|i: int| 0 <= i < m.len() implies (#[trigger] m[i]).0 != k by {
                    if i > 0 {
                        assert(rest[i - 1] == m[i]);
                    }
                }
            }
        }
    }
}

/// A setting that is taken away is gone, and the others are there as before.
pub proof fn law_unset_takes_away(
    m: Seq<(Seq<char>, json::JsonView)>,
    key: Seq<char>,
    e: (Seq<char>, json::JsonView),
)
    requires
        json::distinct_names(m),
        !key.contains('.'),
    ensures
        config_without(Some(json::JsonView::Object(m)), key) matches Some(json::JsonView::Object(r))
            && (e.0 == key ==> !r.contains(e)) && (e.0 != key ==> (r.contains(e) <==> m.contains(
            e,
        ))),
        config_without(None, key) is None,
{
    lemma_member_index(m, key);
    let r = json::without_member(m, key);
    if let Some(i) = json::member_index(m, key) {
        let u = m.update(i, m.last());
        assert(r == u.drop_last());
        assert forall|a: int| 0 <= a < r.len() implies #[trigger] r[a] == (if a == i {
            m.last()
        } else {
            m[a]
        }) by {}
        if r.contains(e) {
            let a = choose|a: int| 0 <= a < r.len() && r[a] == e;
            if a == i {
                assert(m[m.len() - 1] == e);
            } else {
                assert(m[a] == e);
            }
        }
        if m.contains(e) && e.0 != key {
            let a = choose|a: int| 0 <= a < m.len() && m[a] == e;
            if a == m.len() - 1 {
                assert(r[i] == e);
            } else {
                assert(r[a] == e);
            }
        }
    } else if m.contains(e) {
        let a = choose|a: int| 0 <= a < m.len() && m[a] == e;
        assert(m[a].0 != key);
    }
}

} // verus!
