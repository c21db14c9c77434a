//! The `composer.lock` of a project.

use crate::collections;
use crate::collections::StrMap;
use crate::content_hash;
use crate::error::Error;
use crate::fields;
use crate::json;
use crate::json::Json;
use crate::package;
use crate::package::AutoloadConfig;
use crate::package::PackageId;
use crate::text;
use vstd::prelude::*;

verus! {

// ---------------------------------------------------------------------------
// Types

/// Where the archive of a package is.
#[derive(Debug)]
pub struct DistInfo {
    pub dist_type: String,
    pub url: String,
    pub reference: Option<String>,
    pub shasum: Option<String>,
    pub mirrors: Option<Vec<Json>>,
}

/// Where the sources of a package are.
#[derive(Debug)]
pub struct SourceInfo {
    pub source_type: String,
    pub url: String,
    pub reference: Option<String>,
}

/// One license or several.
#[derive(Debug)]
pub enum License {
    One(String),
    Many(Vec<String>),
}

/// A package at a fixed version.
#[derive(Debug)]
pub struct LockedPackage {
    pub name: String,
    pub version: String,
    pub source: Option<SourceInfo>,
    pub dist: Option<DistInfo>,
    pub require: StrMap<String>,
    pub require_dev: StrMap<String>,
    pub package_type: Option<String>,
    pub extra: Option<Json>,
    pub autoload: Option<AutoloadConfig>,
    pub autoload_dev: Option<AutoloadConfig>,
    pub notification_url: Option<String>,
    pub license: Vec<License>,
    pub description: Option<String>,
    pub homepage: Option<String>,
    pub keywords: Vec<String>,
    pub time: Option<String>,
    pub replace: StrMap<String>,
    pub provide: StrMap<String>,
    pub conflict: StrMap<String>,
    pub suggest: StrMap<String>,
    pub bin: Vec<String>,
    pub abandoned: Option<Json>,
}

/// The `composer.lock` of a project.
#[derive(Debug)]
pub struct ComposerLock {
    pub readme: Vec<String>,
    pub content_hash: String,
    pub packages: Vec<LockedPackage>,
    pub packages_dev: Vec<LockedPackage>,
    pub aliases: Vec<Json>,
    pub minimum_stability: String,
    pub stability_flags: StrMap<i32>,
    pub prefer_stable: bool,
    pub prefer_lowest: bool,
    pub platform: StrMap<String>,
    pub platform_dev: StrMap<String>,
    pub plugin_api_version: String,
}

// ---------------------------------------------------------------------------
// Views

/// What a `DistInfo` consists of.
pub struct DistView {
    pub dist_type: Seq<char>,
    pub url: Seq<char>,
    pub reference: Option<Seq<char>>,
    pub shasum: Option<Seq<char>>,
    pub mirrors: Option<Seq<json::JsonView>>,
}

/// What an optional list of values consists of.
pub open spec fn opt_elements(v: Option<Vec<Json>>) -> Option<Seq<json::JsonView>> {
    match v {
        Some(a) => Some(json::elements(a@)),
        None => None,
    }
}

impl View for DistInfo {
    type V = DistView;

    open spec fn view(&self) -> DistView {
        DistView {
            dist_type: self.dist_type@,
            url: self.url@,
            reference: text::opt_text(self.reference),
            shasum: text::opt_text(self.shasum),
            mirrors: opt_elements(self.mirrors),
        }
    }
}

/// What a `SourceInfo` consists of.
pub struct SourceView {
    pub source_type: Seq<char>,
    pub url: Seq<char>,
    pub reference: Option<Seq<char>>,
}

impl View for SourceInfo {
    type V = SourceView;

    open spec fn view(&self) -> SourceView {
        SourceView {
            source_type: self.source_type@,
            url: self.url@,
            reference: text::opt_text(self.reference),
        }
    }
}

/// What a license consists of.
pub enum LicenseView {
    One(Seq<char>),
    Many(Seq<Seq<char>>),
}

impl View for License {
    type V = LicenseView;

    open spec fn view(&self) -> LicenseView {
        match self {
            License::One(s) => LicenseView::One(s@),
            License::Many(v) => LicenseView::Many(text::texts(v@)),
        }
    }
}

/// What a list of licenses consists of.
pub open spec fn license_views(v: Seq<License>) -> Seq<LicenseView> {
    v.map_values(|l: License| l@)
}

/// What a locked package consists of.
pub struct LockedView {
    pub name: Seq<char>,
    pub version: Seq<char>,
    pub source: Option<SourceView>,
    pub dist: Option<DistView>,
    pub require: Seq<(Seq<char>, Seq<char>)>,
    pub require_dev: Seq<(Seq<char>, Seq<char>)>,
    pub package_type: Option<Seq<char>>,
    pub extra: Option<json::JsonView>,
    pub autoload: Option<package::AutoloadView>,
    pub autoload_dev: Option<package::AutoloadView>,
    pub notification_url: Option<Seq<char>>,
    pub license: Seq<LicenseView>,
    pub description: Option<Seq<char>>,
    pub homepage: Option<Seq<char>>,
    pub keywords: Seq<Seq<char>>,
    pub time: Option<Seq<char>>,
    pub replace: Seq<(Seq<char>, Seq<char>)>,
    pub provide: Seq<(Seq<char>, Seq<char>)>,
    pub conflict: Seq<(Seq<char>, Seq<char>)>,
    pub suggest: Seq<(Seq<char>, Seq<char>)>,
    pub bin: Seq<Seq<char>>,
    pub abandoned: Option<json::JsonView>,
}

/// What an optional source consists of.
pub open spec fn opt_source(s: Option<SourceInfo>) -> Option<SourceView> {
    match s {
        Some(x) => Some(x@),
        None => None,
    }
}

/// What an optional archive consists of.
pub open spec fn opt_dist(d: Option<DistInfo>) -> Option<DistView> {
    match d {
        Some(x) => Some(x@),
        None => None,
    }
}

impl View for LockedPackage {
    type V = LockedView;

    open spec fn view(&self) -> LockedView {
        LockedView {
            name: self.name@,
            version: self.version@,
            source: opt_source(self.source),
            dist: opt_dist(self.dist),
            require: collections::link_pairs(self.require),
            require_dev: collections::link_pairs(self.require_dev),
            package_type: text::opt_text(self.package_type),
            extra: json::opt_json(self.extra),
            autoload: package::opt_autoload(self.autoload),
            autoload_dev: package::opt_autoload(self.autoload_dev),
            notification_url: text::opt_text(self.notification_url),
            license: license_views(self.license@),
            description: text::opt_text(self.description),
            homepage: text::opt_text(self.homepage),
            keywords: text::texts(self.keywords@),
            time: text::opt_text(self.time),
            replace: collections::link_pairs(self.replace),
            provide: collections::link_pairs(self.provide),
            conflict: collections::link_pairs(self.conflict),
            suggest: collections::link_pairs(self.suggest),
            bin: text::texts(self.bin@),
            abandoned: json::opt_json(self.abandoned),
        }
    }
}

/// What a list of locked packages consists of.
pub open spec fn locked_views(v: Seq<LockedPackage>) -> Seq<LockedView> {
    v.map_values(|p: LockedPackage| p@)
}

/// What a list of references to locked packages consists of.
pub open spec fn ref_views(v: Seq<&LockedPackage>) -> Seq<LockedView> {
    v.map_values(|p: &LockedPackage| p@)
}

/// What a lock file consists of.
pub struct LockView {
    pub readme: Seq<Seq<char>>,
    pub content_hash: Seq<char>,
    pub packages: Seq<LockedView>,
    pub packages_dev: Seq<LockedView>,
    pub aliases: Seq<json::JsonView>,
    pub minimum_stability: Seq<char>,
    pub stability_flags: Seq<(Seq<char>, i32)>,
    pub prefer_stable: bool,
    pub prefer_lowest: bool,
    pub platform: Seq<(Seq<char>, Seq<char>)>,
    pub platform_dev: Seq<(Seq<char>, Seq<char>)>,
    pub plugin_api_version: Seq<char>,
}

impl View for ComposerLock {
    type V = LockView;

    open spec fn view(&self) -> LockView {
        LockView {
            readme: text::texts(self.readme@),
            content_hash: self.content_hash@,
            packages: locked_views(self.packages@),
            packages_dev: locked_views(self.packages_dev@),
            aliases: json::elements(self.aliases@),
            minimum_stability: self.minimum_stability@,
            stability_flags: self.stability_flags@,
            prefer_stable: self.prefer_stable,
            prefer_lowest: self.prefer_lowest,
            platform: collections::link_pairs(self.platform),
            platform_dev: collections::link_pairs(self.platform_dev),
            plugin_api_version: self.plugin_api_version@,
        }
    }
}

// ---------------------------------------------------------------------------
// Copies

/// A copy of an optional text.
pub fn copy_text(t: &Option<String>) -> (r: Option<String>)
    ensures
        text::opt_text(r) == text::opt_text(*t),
{
    match t {
        Some(s) => Some(s.clone()),
        None => None,
    }
}

impl DistInfo {
    /// A copy.
    pub fn copy(&self) -> (r: DistInfo)
        ensures
            r@ == self@,
    {
        DistInfo {
            dist_type: self.dist_type.clone(),
            url: self.url.clone(),
            reference: copy_text(&self.reference),
            shasum: copy_text(&self.shasum),
            mirrors: match &self.mirrors {
                Some(a) => Some(fields::copy_values(a)),
                None => None,
            },
        }
    }
}

impl SourceInfo {
    /// A copy.
    pub fn copy(&self) -> (r: SourceInfo)
        ensures
            r@ == self@,
    {
        SourceInfo {
            source_type: self.source_type.clone(),
            url: self.url.clone(),
            reference: copy_text(&self.reference),
        }
    }
}

impl License {
    /// A copy.
    pub fn copy(&self) -> (r: License)
        ensures
            r@ == self@,
    {
        match self {
            License::One(s) => License::One(s.clone()),
            License::Many(v) => License::Many(collections::copy_texts(v)),
        }
    }
}

/// A copy of a list of licenses.
pub fn copy_licenses(v: &Vec<License>) -> (r: Vec<License>)
    ensures
        license_views(r@) == license_views(v@),
{
    let n: usize = v.len();
    let mut out: Vec<License> = Vec::new();
    let mut i: usize = 0;
    while i < n
        invariant
            i <= n,
            n == v@.len(),
            out@.len() == i,
            forall|j: int| 0 <= j < i ==> (#[trigger] out@[j])@ == v@[j]@,
        decreases n - i,
    {
        out.push(v[i].copy());
        i += 1;
    }
    assert(license_views(out@) =~= license_views(v@));
    out
}

/// A copy of an optional source.
pub fn copy_source(s: &Option<SourceInfo>) -> (r: Option<SourceInfo>)
    ensures
        opt_source(r) == opt_source(*s),
{
    match s {
        Some(x) => Some(x.copy()),
        None => None,
    }
}

/// A copy of an optional archive.
pub fn copy_dist(d: &Option<DistInfo>) -> (r: Option<DistInfo>)
    ensures
        opt_dist(r) == opt_dist(*d),
{
    match d {
        Some(x) => Some(x.copy()),
        None => None,
    }
}

impl LockedPackage {
    /// A copy.
    pub fn copy(&self) -> (r: LockedPackage)
        ensures
            r@ == self@,
    {
        LockedPackage {
            name: self.name.clone(),
            version: self.version.clone(),
            source: copy_source(&self.source),
            dist: copy_dist(&self.dist),
            require: self.require.copy(),
            require_dev: self.require_dev.copy(),
            package_type: copy_text(&self.package_type),
            extra: json::copy_opt(&self.extra),
            autoload: package::copy_autoload(&self.autoload),
            autoload_dev: package::copy_autoload(&self.autoload_dev),
            notification_url: copy_text(&self.notification_url),
            license: copy_licenses(&self.license),
            description: copy_text(&self.description),
            homepage: copy_text(&self.homepage),
            keywords: collections::copy_texts(&self.keywords),
            time: copy_text(&self.time),
            replace: self.replace.copy(),
            provide: self.provide.copy(),
            conflict: self.conflict.copy(),
            suggest: self.suggest.copy(),
            bin: collections::copy_texts(&self.bin),
            abandoned: json::copy_opt(&self.abandoned),
        }
    }
}

/// A copy of a list of locked packages.
pub fn copy_locked(v: &Vec<LockedPackage>) -> (r: Vec<LockedPackage>)
    ensures
        locked_views(r@) == locked_views(v@),
{
    let n: usize = v.len();
    let mut out: Vec<LockedPackage> = Vec::new();
    let mut i: usize = 0;
    while i < n
        invariant
            i <= n,
            n == v@.len(),
            out@.len() == i,
            forall|j: int| 0 <= j < i ==> (#[trigger] out@[j])@ == v@[j]@,
        decreases n - i,
    {
        out.push(v[i].copy());
        i += 1;
    }
    assert(locked_views(out@) =~= locked_views(v@));
    out
}

// ---------------------------------------------------------------------------
// Reading

/// The members of an archive.
pub open spec fn dist_names() -> Seq<Seq<char>> {
    seq!["type"@, "url"@, "reference"@, "shasum"@, "mirrors"@]
}

/// The members of sources.
pub open spec fn source_names() -> Seq<Seq<char>> {
    seq!["type"@, "url"@, "reference"@]
}

/// The archive that a value describes.
pub open spec fn dist_json(j: json::JsonView) -> Option<DistView> {
    match fields::record_of(j, dist_names()) {
        Some(r) => dist_record(r),
        None => None,
    }
}

/// The archive that the members of a record describe.
pub open spec fn dist_record(j: json::JsonView) -> Option<DistView> {
    match (
        json::text_at(j, "type"@),
        json::text_at(j, "url"@),
        fields::opt_text_of(json::get_of(j, "reference"@)),
        fields::opt_text_of(json::get_of(j, "shasum"@)),
        opt_list_of(json::get_of(j, "mirrors"@)),
    ) {
        (Some(dist_type), Some(url), Some(reference), Some(shasum), Some(mirrors)) => Some(
            DistView { dist_type, url, reference, shasum, mirrors },
        ),
        _ => None,
    }
}

/// An optional list of values.
pub open spec fn opt_list_of(v: Option<json::JsonView>) -> Option<Option<Seq<json::JsonView>>> {
    match v {
        None => Some(None),
        Some(json::JsonView::Null) => Some(None),
        Some(json::JsonView::Array(a)) => Some(Some(json::settled_list(a))),
        _ => None,
    }
}

/// The sources that a value describes.
pub open spec fn source_json(j: json::JsonView) -> Option<SourceView> {
    match fields::record_of(j, source_names()) {
        Some(r) => source_record(r),
        None => None,
    }
}

/// The sources that the members of a record describe.
pub open spec fn source_record(j: json::JsonView) -> Option<SourceView> {
    match (
        json::text_at(j, "type"@),
        json::text_at(j, "url"@),
        fields::opt_text_of(json::get_of(j, "reference"@)),
    ) {
        (Some(source_type), Some(url), Some(reference)) => Some(
            SourceView { source_type, url, reference },
        ),
        _ => None,
    }
}

/// An optional member read by its own rule: missing and `null` stand for none.
pub open spec fn opt_dist_json(v: Option<json::JsonView>) -> Option<Option<DistView>> {
    match v {
        None => Some(None),
        Some(json::JsonView::Null) => Some(None),
        Some(j) => match dist_json(j) {
            Some(d) => Some(Some(d)),
            None => None,
        },
    }
}

/// Optional sources.
pub open spec fn opt_source_json(v: Option<json::JsonView>) -> Option<Option<SourceView>> {
    match v {
        None => Some(None),
        Some(json::JsonView::Null) => Some(None),
        Some(j) => match source_json(j) {
            Some(s) => Some(Some(s)),
            None => None,
        },
    }
}

/// An optional autoload configuration.
pub open spec fn opt_autoload_json(v: Option<json::JsonView>) -> Option<
    Option<package::AutoloadView>,
> {
    match v {
        None => Some(None),
        Some(json::JsonView::Null) => Some(None),
        Some(j) => match package::autoload_json(j) {
            Some(a) => Some(Some(a)),
            None => None,
        },
    }
}

/// The license that a value stands for.
pub open spec fn license_json(j: json::JsonView) -> Option<LicenseView> {
    match j {
        json::JsonView::Str(s) => Some(LicenseView::One(s)),
        json::JsonView::Array(a) => match fields::texts_of(a) {
            Some(t) => Some(LicenseView::Many(t)),
            None => None,
        },
        _ => None,
    }
}

/// The licenses of a list.
pub open spec fn licenses_of(a: Seq<json::JsonView>) -> Option<Seq<LicenseView>>
    decreases a.len(),
{
    if a.len() == 0 {
        Some(Seq::empty())
    } else {
        match (licenses_of(a.drop_last()), license_json(a.last())) {
            (Some(rest), Some(l)) => Some(rest.push(l)),
            _ => None,
        }
    }
}

/// A list of licenses; missing stands for an empty one.
pub open spec fn license_list_of(v: Option<json::JsonView>) -> Option<Seq<LicenseView>> {
    match v {
        None => Some(Seq::empty()),
        Some(json::JsonView::Array(a)) => licenses_of(a),
        _ => None,
    }
}

/// The members of a package entry that are read.
pub open spec fn known_members() -> Seq<Seq<char>> {
    seq![
        "name"@,
        "version"@,
        "source"@,
        "dist"@,
        "require"@,
        "require-dev"@,
        "type"@,
        "extra"@,
        "autoload"@,
        "autoload-dev"@,
        "notification-url"@,
        "license"@,
        "description"@,
        "homepage"@,
        "keywords"@,
        "time"@,
        "replace"@,
        "provide"@,
        "conflict"@,
        "suggest"@,
        "bin"@,
        "abandoned"@,
    ]
}

/// The parts of a package entry that have to have the right type.
pub struct LockedParts {
    pub name: Option<Seq<char>>,
    pub version: Option<Seq<char>>,
    pub source: Option<Option<SourceView>>,
    pub dist: Option<Option<DistView>>,
    pub require: Option<Seq<(Seq<char>, Seq<char>)>>,
    pub require_dev: Option<Seq<(Seq<char>, Seq<char>)>>,
    pub package_type: Option<Option<Seq<char>>>,
    pub autoload: Option<Option<package::AutoloadView>>,
    pub autoload_dev: Option<Option<package::AutoloadView>>,
    pub notification_url: Option<Option<Seq<char>>>,
    pub license: Option<Seq<LicenseView>>,
    pub description: Option<Option<Seq<char>>>,
    pub homepage: Option<Option<Seq<char>>>,
    pub keywords: Option<Seq<Seq<char>>>,
    pub time: Option<Option<Seq<char>>>,
    pub replace: Option<Seq<(Seq<char>, Seq<char>)>>,
    pub provide: Option<Seq<(Seq<char>, Seq<char>)>>,
    pub conflict: Option<Seq<(Seq<char>, Seq<char>)>>,
    pub suggest: Option<Seq<(Seq<char>, Seq<char>)>>,
    pub bin: Option<Seq<Seq<char>>>,
}

/// The parts of a package entry.
pub open spec fn locked_parts(j: json::JsonView) -> LockedParts {
    LockedParts {
        name: json::text_at(j, "name"@),
        version: json::text_at(j, "version"@),
        source: opt_source_json(json::get_of(j, "source"@)),
        dist: opt_dist_json(json::get_of(j, "dist"@)),
        require: fields::link_map_of(json::get_of(j, "require"@)),
        require_dev: fields::link_map_of(json::get_of(j, "require-dev"@)),
        package_type: fields::opt_text_of(json::get_of(j, "type"@)),
        autoload: opt_autoload_json(json::get_of(j, "autoload"@)),
        autoload_dev: opt_autoload_json(json::get_of(j, "autoload-dev"@)),
        notification_url: fields::opt_text_of(json::get_of(j, "notification-url"@)),
        license: license_list_of(json::get_of(j, "license"@)),
        description: fields::opt_text_of(json::get_of(j, "description"@)),
        homepage: fields::opt_text_of(json::get_of(j, "homepage"@)),
        keywords: fields::text_list_of(json::get_of(j, "keywords"@)),
        time: fields::opt_text_of(json::get_of(j, "time"@)),
        replace: fields::link_map_of(json::get_of(j, "replace"@)),
        provide: fields::link_map_of(json::get_of(j, "provide"@)),
        conflict: fields::link_map_of(json::get_of(j, "conflict"@)),
        suggest: fields::link_map_of(json::get_of(j, "suggest"@)),
        bin: fields::text_list_of(json::get_of(j, "bin"@)),
    }
}

/// Every part has the right type.
pub open spec fn parts_complete(p: LockedParts) -> bool {
    &&& p.name is Some
    &&& p.version is Some
    &&& p.source is Some
    &&& p.dist is Some
    &&& p.require is Some
    &&& p.require_dev is Some
    &&& p.package_type is Some
    &&& p.autoload is Some
    &&& p.autoload_dev is Some
    &&& p.notification_url is Some
    &&& p.license is Some
    &&& p.description is Some
    &&& p.homepage is Some
    &&& p.keywords is Some
    &&& p.time is Some
    &&& p.replace is Some
    &&& p.provide is Some
    &&& p.conflict is Some
    &&& p.suggest is Some
    &&& p.bin is Some
}

/// The package that a value describes: a record with a name and a version, none
/// of whose members has the wrong type. Other members are passed over.
pub open spec fn locked_json(j: json::JsonView) -> Option<LockedView> {
    match fields::record_of(j, known_members()) {
        Some(r) => locked_record(r),
        None => None,
    }
}

/// The package that the members of a record describe.
pub open spec fn locked_record(j: json::JsonView) -> Option<LockedView> {
    let p = locked_parts(j);
    if parts_complete(p) {
        Some(
            LockedView {
                name: p.name->0,
                version: p.version->0,
                source: p.source->0,
                dist: p.dist->0,
                require: p.require->0,
                require_dev: p.require_dev->0,
                package_type: p.package_type->0,
                extra: fields::opt_value_of(json::get_of(j, "extra"@)),
                autoload: p.autoload->0,
                autoload_dev: p.autoload_dev->0,
                notification_url: p.notification_url->0,
                license: p.license->0,
                description: p.description->0,
                homepage: p.homepage->0,
                keywords: p.keywords->0,
                time: p.time->0,
                replace: p.replace->0,
                provide: p.provide->0,
                conflict: p.conflict->0,
                suggest: p.suggest->0,
                bin: p.bin->0,
                abandoned: fields::opt_value_of(json::get_of(j, "abandoned"@)),
            },
        )
    } else {
        None
    }
}

impl DistInfo {
    /// The archive that a value describes.
    pub fn from_json(j: &Json) -> (r: Option<DistInfo>)
        ensures
            match r {
                Some(d) => dist_json(j@) == Some(d@),
                None => dist_json(j@) is None,
            },
    {
        let mut names: Vec<&str> = Vec::new();
        names.push("type");
        names.push("url");
        names.push("reference");
        names.push("shasum");
        names.push("mirrors");
        assert(text::views(names@) =~= dist_names());
        if j.is_array() {
            let record = fields::list_record(j, &names)?;
            DistInfo::from_record(&record)
        } else if fields::is_object_of(j, &names) {
            DistInfo::from_record(j)
        } else {
            None
        }
    }

    fn from_record(j: &Json) -> (r: Option<DistInfo>)
        ensures
            match r {
                Some(d) => dist_record(j@) == Some(d@),
                None => dist_record(j@) is None,
            },
    {
        let mirrors: Option<Option<Vec<Json>>> = match j.get("mirrors") {
            None => Some(None),
            Some(Json::Null) => Some(None),
            Some(Json::Array(a)) => {
                proof {
                    json::lemma_array_view(*a);
                }
                Some(Some(fields::settle_values(a)))
            },
            _ => None,
        };
        match (
            fields::read_text(j, "type"),
            fields::read_text(j, "url"),
            fields::read_opt_text(j, "reference"),
            fields::read_opt_text(j, "shasum"),
            mirrors,
        ) {
            (Some(dist_type), Some(url), Some(reference), Some(shasum), Some(mirrors)) => Some(
                DistInfo { dist_type, url, reference, shasum, mirrors },
            ),
            _ => None,
        }
    }
}

impl SourceInfo {
    /// The sources that a value describes.
    pub fn from_json(j: &Json) -> (r: Option<SourceInfo>)
        ensures
            match r {
                Some(s) => source_json(j@) == Some(s@),
                None => source_json(j@) is None,
            },
    {
        let mut names: Vec<&str> = Vec::new();
        names.push("type");
        names.push("url");
        names.push("reference");
        assert(text::views(names@) =~= source_names());
        if j.is_array() {
            let record = fields::list_record(j, &names)?;
            SourceInfo::from_record(&record)
        } else if fields::is_object_of(j, &names) {
            SourceInfo::from_record(j)
        } else {
            None
        }
    }

    fn from_record(j: &Json) -> (r: Option<SourceInfo>)
        ensures
            match r {
                Some(s) => source_record(j@) == Some(s@),
                None => source_record(j@) is None,
            },
    {
        match (
            fields::read_text(j, "type"),
            fields::read_text(j, "url"),
            fields::read_opt_text(j, "reference"),
        ) {
            (Some(source_type), Some(url), Some(reference)) => Some(
                SourceInfo { source_type, url, reference },
            ),
            _ => None,
        }
    }
}

impl License {
    /// The license that a value stands for.
    pub fn from_json(j: &Json) -> (r: Option<License>)
        ensures
            match r {
                Some(l) => license_json(j@) == Some(l@),
                None => license_json(j@) is None,
            },
    {
        match j {
            Json::Str(s) => Some(License::One(s.clone())),
            Json::Array(a) => {
                proof {
                    json::lemma_array_view(*a);
                }
                match fields::list_texts(a) {
                    Some(v) => Some(License::Many(v)),
                    None => None,
                }
            },
            _ => None,
        }
    }
}

fn read_dist(j: &Json, k: &str) -> (r: Option<Option<DistInfo>>)
    ensures
        match r {
            Some(d) => opt_dist_json(json::get_of(j@, k@)) == Some(opt_dist(d)),
            None => opt_dist_json(json::get_of(j@, k@)) is None,
        },
{
    match j.get(k) {
        None => Some(None),
        Some(Json::Null) => Some(None),
        Some(v) => match DistInfo::from_json(v) {
            Some(d) => Some(Some(d)),
            None => None,
        },
    }
}

fn read_source(j: &Json, k: &str) -> (r: Option<Option<SourceInfo>>)
    ensures
        match r {
            Some(s) => opt_source_json(json::get_of(j@, k@)) == Some(opt_source(s)),
            None => opt_source_json(json::get_of(j@, k@)) is None,
        },
{
    match j.get(k) {
        None => Some(None),
        Some(Json::Null) => Some(None),
        Some(v) => match SourceInfo::from_json(v) {
            Some(s) => Some(Some(s)),
            None => None,
        },
    }
}

/// Reads an optional autoload configuration.
pub fn read_autoload(j: &Json, k: &str) -> (r: Option<Option<AutoloadConfig>>)
    ensures
        match r {
            Some(a) => opt_autoload_json(json::get_of(j@, k@)) == Some(package::opt_autoload(a)),
            None => opt_autoload_json(json::get_of(j@, k@)) is None,
        },
{
    match j.get(k) {
        None => Some(None),
        Some(Json::Null) => Some(None),
        Some(v) => match AutoloadConfig::from_json(v) {
            Some(a) => Some(Some(a)),
            None => None,
        },
    }
}

proof fn lemma_licenses_fail(a: Seq<json::JsonView>, i: int)
    requires
        0 <= i <= a.len(),
        licenses_of(a.take(i)) is None,
    ensures
        licenses_of(a) is None,
    decreases a.len() - i,
{
    if i < a.len() {
        assert(a.take(i + 1).drop_last() =~= a.take(i));
        lemma_licenses_fail(a, i + 1);
    } else {
        assert(a.take(i) =~= a);
    }
}

fn read_licenses(j: &Json, k: &str) -> (r: Option<Vec<License>>)
    ensures
        match r {
            Some(v) => license_list_of(json::get_of(j@, k@)) == Some(license_views(v@)),
            None => license_list_of(json::get_of(j@, k@)) is None,
        },
{
    let mut out: Vec<License> = Vec::new();
    assert(license_views(out@) =~= Seq::empty());
    match j.get(k) {
        None => Some(out),
        Some(Json::Array(a)) => {
            proof {
                json::lemma_array_view(*a);
            }
            let ghost all = json::elements(a@);
            let n: usize = a.len();
            let mut i: usize = 0;
            while i < n
                invariant
                    i <= n,
                    n == a@.len(),
                    all == json::elements(a@),
                    json::get_of(j@, k@) == Some(json::JsonView::Array(all)),
                    licenses_of(all.take(i as int)) == Some(license_views(out@)),
                decreases n - i,
            {
                proof {
                    assert(all.take(i + 1).drop_last() =~= all.take(i as int));
                    assert(all.take(i + 1).last() == a@[i as int]@);
                }
                match License::from_json(&a[i]) {
                    Some(l) => {
                        let ghost before = out@;
                        out.push(l);
                        assert(license_views(out@) =~= license_views(before).push(l@));
                    },
                    None => {
                        proof {
                            lemma_licenses_fail(all, i + 1);
                        }
                        return None;
                    },
                }
                i += 1;
            }
            assert(all.take(n as int) =~= all);
            Some(out)
        },
        _ => None,
    }
}

fn known_member_list() -> (r: Vec<&'static str>)
    ensures
        text::views(r@) == known_members(),
{
    let mut r: Vec<&'static str> = Vec::new();
    r.push("name");
    r.push("version");
    r.push("source");
    r.push("dist");
    r.push("require");
    r.push("require-dev");
    r.push("type");
    r.push("extra");
    r.push("autoload");
    r.push("autoload-dev");
    r.push("notification-url");
    r.push("license");
    r.push("description");
    r.push("homepage");
    r.push("keywords");
    r.push("time");
    r.push("replace");
    r.push("provide");
    r.push("conflict");
    r.push("suggest");
    r.push("bin");
    r.push("abandoned");
    assert(text::views(r@) =~= known_members());
    r
}

impl LockedPackage {
    /// The package that a value describes.
    pub fn from_json(j: &Json) -> (r: Option<LockedPackage>)
        ensures
            match r {
                Some(p) => locked_json(j@) == Some(p@),
                None => locked_json(j@) is None,
            },
    {
        let names = known_member_list();
        if j.is_array() {
            let record = fields::list_record(j, &names)?;
            LockedPackage::from_record(&record)
        } else if fields::is_object_of(j, &names) {
            LockedPackage::from_record(j)
        } else {
            None
        }
    }

    fn from_record(j: &Json) -> (r: Option<LockedPackage>)
        ensures
            match r {
                Some(p) => locked_record(j@) == Some(p@),
                None => locked_record(j@) is None,
            },
    {
        let name = fields::read_text(j, "name")?;
        let version = fields::read_text(j, "version")?;
        let source = read_source(j, "source")?;
        let dist = read_dist(j, "dist")?;
        let require = fields::read_links(j, "require")?;
        let require_dev = fields::read_links(j, "require-dev")?;
        let package_type = fields::read_opt_text(j, "type")?;
        let extra = fields::read_opt_value(j, "extra");
        let autoload = read_autoload(j, "autoload")?;
        let autoload_dev = read_autoload(j, "autoload-dev")?;
        let notification_url = fields::read_opt_text(j, "notification-url")?;
        let license = read_licenses(j, "license")?;
        let description = fields::read_opt_text(j, "description")?;
        let homepage = fields::read_opt_text(j, "homepage")?;
        let keywords = fields::read_text_list(j, "keywords")?;
        let time = fields::read_opt_text(j, "time")?;
        let replace = fields::read_links(j, "replace")?;
        let provide = fields::read_links(j, "provide")?;
        let conflict = fields::read_links(j, "conflict")?;
        let suggest = fields::read_links(j, "suggest")?;
        let bin = fields::read_text_list(j, "bin")?;
        let abandoned = fields::read_opt_value(j, "abandoned");
        assert(parts_complete(locked_parts(j@)));
        Some(
            LockedPackage {
                name,
                version,
                source,
                dist,
                require,
                require_dev,
                package_type,
                extra,
                autoload,
                autoload_dev,
                notification_url,
                license,
                description,
                homepage,
                keywords,
                time,
                replace,
                provide,
                conflict,
                suggest,
                bin,
                abandoned,
            },
        )
    }
}

// ---------------------------------------------------------------------------
// Reading a lock file

/// The packages of a list.
pub open spec fn packages_of(a: Seq<json::JsonView>) -> Option<Seq<LockedView>>
    decreases a.len(),
{
    if a.len() == 0 {
        Some(Seq::empty())
    } else {
        match (packages_of(a.drop_last()), locked_json(a.last())) {
            (Some(rest), Some(p)) => Some(rest.push(p)),
            _ => None,
        }
    }
}

/// A list of packages; missing stands for an empty one.
pub open spec fn package_list_of(v: Option<json::JsonView>) -> Option<Seq<LockedView>> {
    match v {
        None => Some(Seq::empty()),
        Some(json::JsonView::Array(a)) => packages_of(a),
        _ => None,
    }
}

proof fn lemma_packages_fail(a: Seq<json::JsonView>, i: int)
    requires
        0 <= i <= a.len(),
        packages_of(a.take(i)) is None,
    ensures
        packages_of(a) is None,
    decreases a.len() - i,
{
    if i < a.len() {
        assert(a.take(i + 1).drop_last() =~= a.take(i));
        lemma_packages_fail(a, i + 1);
    } else {
        assert(a.take(i) =~= a);
    }
}

fn read_packages(j: &Json, k: &str) -> (r: Option<Vec<LockedPackage>>)
    ensures
        match r {
            Some(v) => package_list_of(json::get_of(j@, k@)) == Some(locked_views(v@)),
            None => package_list_of(json::get_of(j@, k@)) is None,
        },
{
    let mut out: Vec<LockedPackage> = Vec::new();
    assert(locked_views(out@) =~= Seq::empty());
    match j.get(k) {
        None => Some(out),
        Some(Json::Array(a)) => {
            proof {
                json::lemma_array_view(*a);
            }
            let ghost all = json::elements(a@);
            let n: usize = a.len();
            let mut i: usize = 0;
            while i < n
                invariant
                    i <= n,
                    n == a@.len(),
                    all == json::elements(a@),
                    json::get_of(j@, k@) == Some(json::JsonView::Array(all)),
                    packages_of(all.take(i as int)) == Some(locked_views(out@)),
                decreases n - i,
            {
                proof {
                    assert(all.take(i + 1).drop_last() =~= all.take(i as int));
                    assert(all.take(i + 1).last() == a@[i as int]@);
                }
                match LockedPackage::from_json(&a[i]) {
                    Some(p) => {
                        let ghost before = out@;
                        out.push(p);
                        assert(locked_views(out@) =~= locked_views(before).push(p@));
                    },
                    None => {
                        proof {
                            lemma_packages_fail(all, i + 1);
                        }
                        return None;
                    },
                }
                i += 1;
            }
            assert(all.take(n as int) =~= all);
            Some(out)
        },
        _ => None,
    }
}

/// The 32-bit number that a number's text stands for.
pub open spec fn i32_of(t: Seq<char>) -> Option<i32> {
    match text::without_prefix(t, "-"@) {
        Some(d) => match text::u64_of(d) {
            Some(n) => if n <= 2147483648 {
                Some((0 - n as int) as i32)
            } else {
                None
            },
            None => None,
        },
        None => match text::u64_of(t) {
            Some(n) => if n <= 2147483647 {
                Some(n as i32)
            } else {
                None
            },
            None => None,
        },
    }
}

fn parse_i32(t: &str) -> (r: Option<i32>)
    ensures
        r == i32_of(t@),
{
    match text::strip_prefix(t, "-") {
        Some(d) => match text::parse_u64(d) {
            Some(n) => if n <= 2147483648 {
                let wide: i64 = 0 - n as i64;
                Some(wide as i32)
            } else {
                None
            },
            None => None,
        },
        None => match text::parse_u64(t) {
            Some(n) => if n <= 2147483647 {
                Some(n as i32)
            } else {
                None
            },
            None => None,
        },
    }
}

/// The numbers of an object whose members are all 32-bit numbers.
pub open spec fn numbers_of(m: Seq<(Seq<char>, json::JsonView)>) -> Option<Seq<(Seq<char>, i32)>>
    decreases m.len(),
{
    if m.len() == 0 {
        Some(Seq::empty())
    } else {
        match (numbers_of(m.drop_last()), m.last().1) {
            (Some(rest), json::JsonView::Number(t)) => match i32_of(t) {
                Some(n) => Some(collections::inserted(rest, m.last().0, n)),
                None => None,
            },
            _ => None,
        }
    }
}

/// A map of numbers; missing stands for an empty one.
pub open spec fn number_map_of(v: Option<json::JsonView>) -> Option<Seq<(Seq<char>, i32)>> {
    match v {
        None => Some(Seq::empty()),
        Some(json::JsonView::Object(m)) => numbers_of(m),
        _ => None,
    }
}

proof fn lemma_numbers_fail(m: Seq<(Seq<char>, json::JsonView)>, i: int)
    requires
        0 <= i <= m.len(),
        numbers_of(m.take(i)) is None,
    ensures
        numbers_of(m) is None,
    decreases m.len() - i,
{
    if i < m.len() {
        assert(m.take(i + 1).drop_last() =~= m.take(i));
        lemma_numbers_fail(m, i + 1);
    } else {
        assert(m.take(i) =~= m);
    }
}

fn read_numbers(j: &Json, k: &str) -> (r: Option<StrMap<i32>>)
    ensures
        match r {
            Some(v) => number_map_of(json::get_of(j@, k@)) == Some(v@),
            None => number_map_of(json::get_of(j@, k@)) is None,
        },
{
    let mut out: StrMap<i32> = StrMap::new();
    match j.get(k) {
        None => Some(out),
        Some(Json::Object(m)) => {
            proof {
                json::lemma_object_view(*m);
            }
            let ghost all = json::members(m@);
            let n: usize = m.len();
            let mut i: usize = 0;
            while i < n
                invariant
                    i <= n,
                    n == m@.len(),
                    all == json::members(m@),
                    json::get_of(j@, k@) == Some(json::JsonView::Object(all)),
                    numbers_of(all.take(i as int)) == Some(out@),
                decreases n - i,
            {
                proof {
                    assert(all.take(i + 1).drop_last() =~= all.take(i as int));
                    assert(all.take(i + 1).last() == (m@[i as int].0@, m@[i as int].1@));
                }
                let number = match &m[i].1 {
                    Json::Number(t) => parse_i32(t.as_str()),
                    _ => None,
                };
                match number {
                    Some(x) => {
                        out.insert(m[i].0.clone(), x);
                    },
                    None => {
                        proof {
                            lemma_numbers_fail(all, i + 1);
                        }
                        return None;
                    },
                }
                i += 1;
            }
            assert(all.take(n as int) =~= all);
            Some(out)
        },
        _ => None,
    }
}

/// The members of a lock file.
pub open spec fn lock_names() -> Seq<Seq<char>> {
    seq![
        "_readme"@,
        "content-hash"@,
        "packages"@,
        "packages-dev"@,
        "aliases"@,
        "minimum-stability"@,
        "stability-flags"@,
        "prefer-stable"@,
        "prefer-lowest"@,
        "platform"@,
        "platform-dev"@,
        "plugin-api-version"@,
    ]
}

/// The lock file that a value describes.
pub open spec fn lock_json(j: json::JsonView) -> Option<LockView> {
    match fields::record_of(j, lock_names()) {
        Some(r) => lock_record(r),
        None => None,
    }
}

/// The lock file that the members of a record describe.
pub open spec fn lock_record(j: json::JsonView) -> Option<LockView> {
    let readme = fields::text_list_of(json::get_of(j, "_readme"@));
    let content_hash = fields::text_or(json::get_of(j, "content-hash"@), ""@);
    let packages = package_list_of(json::get_of(j, "packages"@));
    let packages_dev = package_list_of(json::get_of(j, "packages-dev"@));
    let aliases = fields::value_list_of(json::get_of(j, "aliases"@));
    let minimum = fields::text_or(json::get_of(j, "minimum-stability"@), "stable"@);
    let flags = number_map_of(json::get_of(j, "stability-flags"@));
    let prefer_stable = fields::flag_of(json::get_of(j, "prefer-stable"@));
    let prefer_lowest = fields::flag_of(json::get_of(j, "prefer-lowest"@));
    let platform = fields::link_map_of(json::get_of(j, "platform"@));
    let platform_dev = fields::link_map_of(json::get_of(j, "platform-dev"@));
    let api = fields::text_or(json::get_of(j, "plugin-api-version"@), "2.6.0"@);
    if readme is Some && content_hash is Some && packages is Some
        && packages_dev is Some && aliases is Some && minimum is Some && flags is Some
        && prefer_stable is Some && prefer_lowest is Some && platform is Some
        && platform_dev is Some && api is Some {
        Some(
            LockView {
                readme: readme->0,
                content_hash: content_hash->0,
                packages: packages->0,
                packages_dev: packages_dev->0,
                aliases: aliases->0,
                minimum_stability: minimum->0,
                stability_flags: flags->0,
                prefer_stable: prefer_stable->0,
                prefer_lowest: prefer_lowest->0,
                platform: platform->0,
                platform_dev: platform_dev->0,
                plugin_api_version: api->0,
            },
        )
    } else {
        None
    }
}

/// The texts that stand at the head of a lock file.
pub open spec fn readme_texts() -> Seq<Seq<char>> {
    seq![
        "This file locks the dependencies of your project to a known state"@,
        "Read more about it at https://getcomposer.org/doc/01-basic-usage.md#installing-dependencies"@,
        "This file is @generated automatically"@,
    ]
}

/// The lock file without packages.
pub open spec fn empty_lock() -> LockView {
    LockView {
        readme: readme_texts(),
        content_hash: Seq::empty(),
        packages: Seq::empty(),
        packages_dev: Seq::empty(),
        aliases: Seq::empty(),
        minimum_stability: "stable"@,
        stability_flags: Seq::empty(),
        prefer_stable: false,
        prefer_lowest: false,
        platform: Seq::empty(),
        platform_dev: Seq::empty(),
        plugin_api_version: "2.6.0"@,
    }
}

impl Default for ComposerLock {
    fn default() -> (r: Self)
        ensures
            r@ == empty_lock(),
    {
        let mut readme: Vec<String> = Vec::new();
        readme.push(
            String::from_str("This file locks the dependencies of your project to a known state"),
        );
        readme.push(
            String::from_str(
                "Read more about it at https://getcomposer.org/doc/01-basic-usage.md#installing-dependencies",
            ),
        );
        readme.push(String::from_str("This file is @generated automatically"));
        let r = ComposerLock {
            readme,
            content_hash: String::new(),
            packages: Vec::new(),
            packages_dev: Vec::new(),
            aliases: Vec::new(),
            minimum_stability: default_stability(),
            stability_flags: StrMap::new(),
            prefer_stable: false,
            prefer_lowest: false,
            platform: StrMap::new(),
            platform_dev: StrMap::new(),
            plugin_api_version: default_plugin_api(),
        };
        assert(r@.readme =~= readme_texts());
        assert(r@.packages =~= Seq::empty());
        assert(r@.packages_dev =~= Seq::empty());
        assert(r@.aliases =~= Seq::empty());
        assert(r@.platform =~= Seq::empty());
        assert(r@.platform_dev =~= Seq::empty());
        r
    }
}

/// The stability that counts where none is given.
pub fn default_stability() -> (r: String)
    ensures
        r@ == "stable"@,
{
    String::from_str("stable")
}

/// The plugin interface that counts where none is given.
pub fn default_plugin_api() -> (r: String)
    ensures
        r@ == "2.6.0"@,
{
    String::from_str("2.6.0")
}

impl ComposerLock {
    /// The lock file that a value describes.
    pub fn from_json(j: &Json) -> (r: Option<ComposerLock>)
        ensures
            match r {
                Some(l) => lock_json(j@) == Some(l@),
                None => lock_json(j@) is None,
            },
    {
        let mut names: Vec<&str> = Vec::new();
        names.push("_readme");
        names.push("content-hash");
        names.push("packages");
        names.push("packages-dev");
        names.push("aliases");
        names.push("minimum-stability");
        names.push("stability-flags");
        names.push("prefer-stable");
        names.push("prefer-lowest");
        names.push("platform");
        names.push("platform-dev");
        names.push("plugin-api-version");
        assert(text::views(names@) =~= lock_names());
        if j.is_array() {
            let record = fields::list_record(j, &names)?;
            ComposerLock::from_record(&record)
        } else if fields::is_object_of(j, &names) {
            ComposerLock::from_record(j)
        } else {
            None
        }
    }

    fn from_record(j: &Json) -> (r: Option<ComposerLock>)
        ensures
            match r {
                Some(l) => lock_record(j@) == Some(l@),
                None => lock_record(j@) is None,
            },
    {
        let readme = fields::read_text_list(j, "_readme")?;
        let content_hash = fields::read_text_or(j, "content-hash", "")?;
        let packages = read_packages(j, "packages")?;
        let packages_dev = read_packages(j, "packages-dev")?;
        let aliases = fields::read_value_list(j, "aliases")?;
        let minimum_stability = fields::read_text_or(j, "minimum-stability", "stable")?;
        let stability_flags = read_numbers(j, "stability-flags")?;
        let prefer_stable = fields::read_flag(j, "prefer-stable")?;
        let prefer_lowest = fields::read_flag(j, "prefer-lowest")?;
        let platform = fields::read_links(j, "platform")?;
        let platform_dev = fields::read_links(j, "platform-dev")?;
        let plugin_api_version = fields::read_text_or(j, "plugin-api-version", "2.6.0")?;
        Some(
            ComposerLock {
                readme,
                content_hash,
                packages,
                packages_dev,
                aliases,
                minimum_stability,
                stability_flags,
                prefer_stable,
                prefer_lowest,
                platform,
                platform_dev,
                plugin_api_version,
            },
        )
    }

    /// The lock file in a text.
    pub fn from_str(text: &str) -> (r: Result<ComposerLock, Error>)
        ensures
            match lock_of_text(text@) {
                Ok(l) => r is Ok && r->Ok_0@ == l,
                Err(t) => r matches Err(Error::Lockfile(m)) && m@ == t,
            },
    {
        match json::read_kept(text.as_bytes()) {
            Ok(j) => match ComposerLock::from_json(&j) {
                Some(l) => Ok(l),
                None => Err(Error::Lockfile(String::from_str("not a lock file"))),
            },
            Err(fault) => Err(Error::Lockfile(fault)),
        }
    }
}

// ---------------------------------------------------------------------------
// Packages of a lock file

impl ComposerLock {
    /// The packages to install, with those for development if asked for.
    pub fn packages_to_install(&self, with_dev: bool) -> (r: Vec<&LockedPackage>)
        ensures
            r@.unref() == if with_dev {
                self.packages@ + self.packages_dev@
            } else {
                self.packages@
            },
            ref_views(r@) == to_install(self@, with_dev),
    {
        let mut out: Vec<&LockedPackage> = Vec::new();
        let n: usize = self.packages.len();
        let mut i: usize = 0;
        while i < n
            invariant
                i <= n,
                n == self.packages@.len(),
                out@.len() == i,
                forall|j: int| 0 <= j < i ==> *(#[trigger] out@[j]) == self.packages@[j],
            decreases n - i,
        {
            out.push(&self.packages[i]);
            i += 1;
        }
        if with_dev {
            let m: usize = self.packages_dev.len();
            let mut k: usize = 0;
            while k < m
                invariant
                    k <= m,
                    m == self.packages_dev@.len(),
                    n == self.packages@.len(),
                    out@.len() == n + k,
                    forall|j: int| 0 <= j < n ==> *(#[trigger] out@[j]) == self.packages@[j],
                    forall|j: int|
                        n <= j < n + k ==> *(#[trigger] out@[j]) == self.packages_dev@[j - n],
                decreases m - k,
            {
                out.push(&self.packages_dev[k]);
                k += 1;
            }
        }
        proof {
            let all = if with_dev {
                self.packages@ + self.packages_dev@
            } else {
                self.packages@
            };
            assert(out@.unref() =~= all);
            assert forall|j: int| 0 <= j < out@.len() implies ref_views(out@)[j] == to_install(
                self@,
                with_dev,
            )[j] by {
                assert(out@.unref()[j] == all[j]);
            }
            assert(ref_views(out@) =~= to_install(self@, with_dev));
        }
        out
    }

    /// The package with the given name, first among those for production.
    pub fn find(&self, name: &str) -> (r: Option<&LockedPackage>)
        ensures
            match r {
                Some(p) => first_named(to_install(self@, true), name@) == Some(p@),
                None => first_named(to_install(self@, true), name@) is None,
            },
    {
        let all = self.packages_to_install(true);
        let ghost views = ref_views(all@);
        let n: usize = all.len();
        let mut i: usize = 0;
        assert(views.skip(0) =~= views);
        while i < n
            invariant
                i <= n,
                n == all@.len(),
                views == ref_views(all@),
                views == to_install(self@, true),
                first_named(views, name@) == first_named(views.skip(i as int), name@),
            decreases n - i,
        {
            assert(views.skip(i as int)[0] == all@[i as int]@);
            assert(views.skip(i as int).skip(1) =~= views.skip(i + 1));
            if text::same(all[i].name.as_str(), name) {
                return Some(all[i]);
            }
            i += 1;
        }
        None
    }
}

/// The packages of a lock file that are to be installed.
pub open spec fn to_install(l: LockView, with_dev: bool) -> Seq<LockedView> {
    if with_dev {
        l.packages + l.packages_dev
    } else {
        l.packages
    }
}

/// The first package of a list with the given name.
pub open spec fn first_named(v: Seq<LockedView>, name: Seq<char>) -> Option<LockedView>
    decreases v.len(),
{
    if v.len() == 0 {
        None
    } else if v[0].name == name {
        Some(v[0])
    } else {
        first_named(v.skip(1), name)
    }
}

/// The key under which a package is cached: by the checksum of its archive,
/// else by the address of its archive or sources.
pub open spec fn cache_key_of(p: LockedView) -> Seq<char> {
    match p.dist {
        Some(d) => if d.shasum is Some && (d.shasum->0).len() > 0 {
            "sha1:"@ + d.shasum->0
        } else {
            match d.reference {
                Some(r) => "dist:"@ + d.url + "@"@ + r,
                None => "dist:"@ + d.url,
            }
        },
        None => match p.source {
            Some(s) => "src:"@ + s.url + "@"@ + match s.reference {
                Some(r) => r,
                None => Seq::empty(),
            },
            None => p.name + "@"@ + p.version,
        },
    }
}

/// A package that has nothing to install.
pub open spec fn has_nothing(p: LockedView) -> bool {
    p.package_type == Some("metapackage"@) || (p.dist is None && p.source is None)
}

/// Whether a local package is linked: what `extra` says, else yes.
pub open spec fn links_path(p: LockedView) -> bool {
    match p.extra {
        Some(e) => match json::get_of(e, "composer-rs"@) {
            Some(c) => match json::get_of(c, "symlink"@) {
                Some(json::JsonView::Bool(b)) => b,
                _ => true,
            },
            None => true,
        },
        None => true,
    }
}

impl LockedPackage {
    /// The name of the package.
    pub fn package_id(&self) -> (r: Result<PackageId, Error>)
        ensures
            r is Ok <==> package::is_package_name(self@.name),
            r matches Ok(id) ==> id@ == text::trimmed(self@.name),
            r matches Err(e) ==> (e matches Error::InvalidPackageName(t) && t@ == text::trimmed(
                self@.name,
            )),
    {
        PackageId::parse(self.name.as_str())
    }

    /// The key under which the package is cached.
    pub fn cache_key(&self) -> (r: String)
        ensures
            r@ == cache_key_of(self@),
    {
        match &self.dist {
            Some(d) => {
                if let Some(s) = &d.shasum {
                    if !s.as_str().is_empty() {
                        return text::cat("sha1:", s.as_str());
                    }
                }
                let head = text::cat("dist:", d.url.as_str());
                match &d.reference {
                    Some(r) => text::cat3(head.as_str(), "@", r.as_str()),
                    None => head,
                }
            },
            None => match &self.source {
                Some(s) => {
                    let head = text::cat3("src:", s.url.as_str(), "@");
                    match &s.reference {
                        Some(r) => text::cat(head.as_str(), r.as_str()),
                        None => {
                            assert(head@ =~= head@ + Seq::<char>::empty());
                            head
                        },
                    }
                },
                None => text::cat3(self.name.as_str(), "@", self.version.as_str()),
            },
        }
    }

    /// The address of the archive.
    pub fn dist_url(&self) -> (r: Option<&str>)
        ensures
            text::opt_view(r) == match self@.dist {
                Some(d) => Some(d.url),
                None => None,
            },
    {
        match &self.dist {
            Some(d) => Some(d.url.as_str()),
            None => None,
        }
    }

    /// Whether the package has nothing to install.
    pub fn is_metapackage(&self) -> (r: bool)
        ensures
            r == has_nothing(self@),
    {
        let named = match &self.package_type {
            Some(t) => text::same(t.as_str(), "metapackage"),
            None => false,
        };
        named || (self.dist.is_none() && self.source.is_none())
    }

    /// Whether the package, if it is local, is linked.
    pub fn path_symlink(&self) -> (r: bool)
        ensures
            r == links_path(self@),
    {
        if let Some(e) = &self.extra {
            if let Some(c) = e.get("composer-rs") {
                if let Some(v) = c.get("symlink") {
                    if let Some(b) = v.as_bool() {
                        return b;
                    }
                }
            }
        }
        true
    }
}

/// The lock file that a text tells, or what is wrong with it.
pub open spec fn lock_of_text(t: Seq<char>) -> Result<LockView, Seq<char>> {
    match json::kept_read(vstd::utf8::encode_utf8(t)) {
        Ok(j) => match lock_json(j) {
            Some(l) => Ok(l),
            None => Err("not a lock file"@),
        },
        Err(fault) => Err(fault),
    }
}

/// The installed packages that a text tells, or what is wrong with it.
pub open spec fn installed_of_text(t: Seq<char>) -> Result<LockView, Seq<char>> {
    match json::json_read(vstd::utf8::encode_utf8(t)) {
        Err(fault) => Err(fault),
        Ok(j) => match installed_parts(j) {
            None => Err("installed.json must be an array or a Composer 2 object"@),
            Some((entries, dev)) => match first_bad_entry(entries, 0) {
                None => Ok(
                    LockView {
                        packages: installed_packages(entries, dev, false),
                        packages_dev: installed_packages(entries, dev, true),
                        ..empty_lock()
                    },
                ),
                Some(i) => Err(bad_entry_text(i)),
            },
        },
    }
}

/// The content hash of the bytes of a `composer.json`.
pub fn content_hash_from_composer_json(composer_json_bytes: &[u8]) -> (r: Result<String, Error>)
    ensures
        match json::json_read(composer_json_bytes@) {
            Ok(json::JsonView::Object(m)) => r is Ok && r->Ok_0@ == content_hash::hash_of(m),
            Ok(_) => r matches Err(Error::Manifest(t)) && t@
                == "composer.json top level must be a JSON object"@,
            Err(fault) => r matches Err(Error::Json(t)) && t@ == fault,
        },
        r matches Ok(h) ==> text::is_hex(h@, 32),
{
    content_hash::content_hash(composer_json_bytes)
}

// ---------------------------------------------------------------------------
// Reading `installed.json`

/// The texts of a list, elements of another type left out.
pub open spec fn some_texts(a: Seq<json::JsonView>) -> Seq<Seq<char>>
    decreases a.len(),
{
    if a.len() == 0 {
        Seq::empty()
    } else {
        let rest = some_texts(a.drop_last());
        match a.last() {
            json::JsonView::Str(s) => rest.push(s),
            _ => rest,
        }
    }
}

/// The entries of an `installed.json` and the names of those for development.
pub open spec fn installed_parts(j: json::JsonView) -> Option<
    (Seq<json::JsonView>, Seq<Seq<char>>),
> {
    match j {
        json::JsonView::Array(a) => Some((a, Seq::empty())),
        json::JsonView::Object(_) => Some(
            (
                match json::get_of(j, "packages"@) {
                    Some(json::JsonView::Array(a)) => a,
                    _ => Seq::empty(),
                },
                match json::get_of(j, "dev-package-names"@) {
                    Some(json::JsonView::Array(a)) => some_texts(a),
                    _ => Seq::empty(),
                },
            ),
        ),
        _ => None,
    }
}

/// The members with the text under `k` made a list of one.
pub open spec fn wrapped(m: Seq<(Seq<char>, json::JsonView)>, k: Seq<char>) -> Seq<
    (Seq<char>, json::JsonView),
> {
    match json::member(m, k) {
        Some(json::JsonView::Str(s)) => json::with_member(
            m,
            k,
            json::JsonView::Array(seq![json::JsonView::Str(s)]),
        ),
        _ => m,
    }
}

/// An entry of an `installed.json` as an entry of a lock file.
pub open spec fn as_lock_entry(j: json::JsonView) -> json::JsonView {
    match j {
        json::JsonView::Object(m) => {
            let bare = json::without_member(
                json::without_member(m, "version_normalized"@),
                "install-path"@,
            );
            json::JsonView::Object(
                wrapped(wrapped(wrapped(bare, "license"@), "bin"@), "keywords"@),
            )
        },
        other => other,
    }
}

/// The first entry from `i` on that is no package.
pub open spec fn first_bad_entry(a: Seq<json::JsonView>, i: int) -> Option<int>
    decreases a.len() - i,
{
    if i < 0 || i >= a.len() {
        None
    } else if locked_json(as_lock_entry(a[i])) is None {
        Some(i)
    } else {
        first_bad_entry(a, i + 1)
    }
}

/// The packages among the entries that are for development, or the others.
pub open spec fn installed_packages(
    a: Seq<json::JsonView>,
    dev: Seq<Seq<char>>,
    want_dev: bool,
) -> Seq<LockedView>
    decreases a.len(),
{
    if a.len() == 0 {
        Seq::empty()
    } else {
        let rest = installed_packages(a.drop_last(), dev, want_dev);
        match locked_json(as_lock_entry(a.last())) {
            Some(p) => if dev.contains(p.name) == want_dev {
                rest.push(p)
            } else {
                rest
            },
            None => rest,
        }
    }
}

fn wrap_string_as_array(m: Vec<(String, Json)>, k: &str) -> (r: Vec<(String, Json)>)
    ensures
        json::members(r@) == wrapped(json::members(m@), k@),
{
    let found = match json::find_member(&m, k) {
        Some(Json::Str(s)) => Some(s.clone()),
        _ => None,
    };
    match found {
        Some(s) => {
            let mut one: Vec<Json> = Vec::new();
            one.push(Json::Str(s));
            proof {
                json::lemma_array_view(one);
                assert(json::elements(one@) =~= seq![json::JsonView::Str(s@)]);
            }
            json::put_member(m, k, Json::Array(one))
        },
        None => m,
    }
}

/// The package that an entry of an `installed.json` describes.
fn locked_from_installed_entry(j: &Json) -> (r: Option<LockedPackage>)
    ensures
        match r {
            Some(p) => locked_json(as_lock_entry(j@)) == Some(p@),
            None => locked_json(as_lock_entry(j@)) is None,
        },
{
    match j.copy() {
        Json::Object(m) => {
            proof {
                json::lemma_object_view(m);
            }
            let bare = json::remove_member(m, "version_normalized");
            let bare = json::remove_member(bare, "install-path");
            let bare = wrap_string_as_array(bare, "license");
            let bare = wrap_string_as_array(bare, "bin");
            let bare = wrap_string_as_array(bare, "keywords");
            proof {
                json::lemma_object_view(bare);
            }
            LockedPackage::from_json(&Json::Object(bare))
        },
        other => LockedPackage::from_json(&other),
    }
}

fn read_some_texts(a: &Vec<Json>) -> (r: Vec<String>)
    ensures
        text::texts(r@) == some_texts(json::elements(a@)),
{
    let ghost all = json::elements(a@);
    let mut out: Vec<String> = Vec::new();
    let n: usize = a.len();
    let mut i: usize = 0;
    assert(text::texts(out@) =~= Seq::empty());
    while i < n
        invariant
            i <= n,
            n == a@.len(),
            all == json::elements(a@),
            text::texts(out@) == some_texts(all.take(i as int)),
        decreases n - i,
    {
        proof {
            assert(all.take(i + 1).drop_last() =~= all.take(i as int));
            assert(all.take(i + 1).last() == a@[i as int]@);
        }
        if let Json::Str(s) = &a[i] {
            let ghost before = out@;
            out.push(s.clone());
            assert(text::texts(out@) =~= text::texts(before).push(s@));
        }
        i += 1;
    }
    assert(all.take(n as int) =~= all);
    out
}

/// What is said of an entry that is no package.
pub open spec fn bad_entry_text(i: int) -> Seq<char> {
    "installed.json package #"@ + text::decimal(i as nat) + ": not a package"@
}

fn split_installed(entries: &Vec<Json>, dev_names: &Vec<String>) -> (r: Result<
    ComposerLock,
    Error,
>)
    ensures
        match first_bad_entry(json::elements(entries@), 0) {
            None => r is Ok && r->Ok_0@ == (LockView {
                packages: installed_packages(
                    json::elements(entries@),
                    text::texts(dev_names@),
                    false,
                ),
                packages_dev: installed_packages(
                    json::elements(entries@),
                    text::texts(dev_names@),
                    true,
                ),
                ..empty_lock()
            }),
            Some(i) => r matches Err(Error::Lockfile(m)) && m@ == bad_entry_text(i),
        },
{
    let ghost all = json::elements(entries@);
    let ghost dev = text::texts(dev_names@);
    let mut lock = ComposerLock::default();
    let n: usize = entries.len();
    let mut i: usize = 0;
    while i < n
        invariant
            i <= n,
            n == entries@.len(),
            all == json::elements(entries@),
            dev == text::texts(dev_names@),
            first_bad_entry(all, 0) == first_bad_entry(all, i as int),
            lock@ == (LockView {
                packages: installed_packages(all.take(i as int), dev, false),
                packages_dev: installed_packages(all.take(i as int), dev, true),
                ..empty_lock()
            }),
        decreases n - i,
    {
        proof {
            assert(all[i as int] == entries@[i as int]@);
            assert(all.take(i + 1).drop_last() =~= all.take(i as int));
            assert(all.take(i + 1).last() == entries@[i as int]@);
        }
        match locked_from_installed_entry(&entries[i]) {
            None => {
                let mut m = text::cat(
                    "installed.json package #",
                    text::usize_text(i).as_str(),
                );
                m.append(": not a package");
                return Err(Error::Lockfile(m));
            },
            Some(p) => {
                let ghost before = lock;
                if collections::contains_text(dev_names, p.name.as_str()) {
                    lock.packages_dev.push(p);
                    assert(lock@.packages_dev =~= before@.packages_dev.push(p@));
                } else {
                    lock.packages.push(p);
                    assert(lock@.packages =~= before@.packages.push(p@));
                }
            },
        }
        i += 1;
    }
    assert(all.take(n as int) =~= all);
    Ok(lock)
}

impl ComposerLock {
    /// The lock file that an `installed.json` amounts to.
    pub fn from_installed(j: &Json) -> (r: Result<ComposerLock, Error>)
        ensures
            match installed_parts(j@) {
                None => r matches Err(Error::Lockfile(m)) && m@
                    == "installed.json must be an array or a Composer 2 object"@,
                Some((entries, dev)) => match first_bad_entry(entries, 0) {
                    None => r is Ok && r->Ok_0@ == (LockView {
                        packages: installed_packages(entries, dev, false),
                        packages_dev: installed_packages(entries, dev, true),
                        ..empty_lock()
                    }),
                    Some(i) => r matches Err(Error::Lockfile(m)) && m@ == bad_entry_text(i),
                },
            },
    {
        let none: Vec<Json> = Vec::new();
        let no_names: Vec<String> = Vec::new();
        assert(json::elements(none@) =~= Seq::empty());
        assert(text::texts(no_names@) =~= Seq::empty());
        match j {
            Json::Array(a) => {
                proof {
                    json::lemma_array_view(*a);
                }
                split_installed(a, &no_names)
            },
            Json::Object(_) => {
                let names = match j.get("dev-package-names") {
                    Some(Json::Array(a)) => {
                        proof {
                            json::lemma_array_view(*a);
                        }
                        read_some_texts(a)
                    },
                    _ => no_names,
                };
                match j.get("packages") {
                    Some(Json::Array(a)) => {
                        proof {
                            json::lemma_array_view(*a);
                        }
                        split_installed(a, &names)
                    },
                    _ => split_installed(&none, &names),
                }
            },
            _ => Err(
                Error::Lockfile(
                    String::from_str("installed.json must be an array or a Composer 2 object"),
                ),
            ),
        }
    }

    /// The lock file that the text of an `installed.json` amounts to.
    pub fn from_installed_json_str(text: &str) -> (r: Result<ComposerLock, Error>)
        ensures
            match json::json_read(vstd::utf8::encode_utf8(text@)) {
                Err(fault) => r matches Err(Error::Lockfile(m)) && m@ == fault,
                Ok(j) => match installed_parts(j) {
                    None => r matches Err(Error::Lockfile(m)) && m@
                        == "installed.json must be an array or a Composer 2 object"@,
                    Some((entries, dev)) => match first_bad_entry(entries, 0) {
                        None => r is Ok && r->Ok_0@ == (LockView {
                            packages: installed_packages(entries, dev, false),
                            packages_dev: installed_packages(entries, dev, true),
                            ..empty_lock()
                        }),
                        Some(i) => r matches Err(Error::Lockfile(m)) && m@ == bad_entry_text(i),
                    },
                },
            },
    {
        match json::read(text.as_bytes()) {
            Ok(j) => ComposerLock::from_installed(&j),
            Err(fault) => Err(Error::Lockfile(fault)),
        }
    }
}

/// Every entry that is a package stands in exactly one of the two lists.
pub proof fn law_installed_split_is_complete(a: Seq<json::JsonView>, dev: Seq<Seq<char>>)
    requires
        first_bad_entry(a, 0) is None,
    ensures
        installed_packages(a, dev, true).len() + installed_packages(a, dev, false).len() == a.len(),
        forall|i: int|
            0 <= i < installed_packages(a, dev, true).len() ==> dev.contains(
                (#[trigger] installed_packages(a, dev, true)[i]).name,
            ),
        forall|i: int|
            0 <= i < installed_packages(a, dev, false).len() ==> !dev.contains(
                (#[trigger] installed_packages(a, dev, false)[i]).name,
            ),
{
    lemma_all_good(a, 0);
    lemma_split(a, dev);
}

proof fn lemma_all_good(a: Seq<json::JsonView>, i: int)
    requires
        0 <= i <= a.len(),
        first_bad_entry(a, i) is None,
    ensures
        forall|k: int| i <= k < a.len() ==> locked_json(as_lock_entry(#[trigger] a[k])) is Some,
    decreases a.len() - i,
{
    if i < a.len() {
        lemma_all_good(a, i + 1);
    }
}

proof fn lemma_split(a: Seq<json::JsonView>, dev: Seq<Seq<char>>)
    requires
        forall|k: int| 0 <= k < a.len() ==> locked_json(as_lock_entry(#[trigger] a[k])) is Some,
    ensures
        installed_packages(a, dev, true).len() + installed_packages(a, dev, false).len() == a.len(),
        forall|i: int|
            0 <= i < installed_packages(a, dev, true).len() ==> dev.contains(
                (#[trigger] installed_packages(a, dev, true)[i]).name,
            ),
        forall|i: int|
            0 <= i < installed_packages(a, dev, false).len() ==> !dev.contains(
                (#[trigger] installed_packages(a, dev, false)[i]).name,
            ),
    decreases a.len(),
{
    if a.len() > 0 {
        assert forall|k: int| 0 <= k < a.drop_last().len() implies locked_json(
            as_lock_entry(#[trigger] a.drop_last()[k]),
        ) is Some by {
            assert(a.drop_last()[k] == a[k]);
        }
        lemma_split(a.drop_last(), dev);
        assert(locked_json(as_lock_entry(a[a.len() - 1])) is Some);
    }
}

// ---------------------------------------------------------------------------
// Writing

/// The value that a license is written as.
pub open spec fn license_value(l: LicenseView) -> json::JsonView {
    match l {
        LicenseView::One(s) => json::JsonView::Str(s),
        LicenseView::Many(t) => json::JsonView::Array(fields::text_values(t)),
    }
}

/// The values that licenses are written as.
pub open spec fn license_values(l: Seq<LicenseView>) -> Seq<json::JsonView> {
    l.map_values(|x: LicenseView| license_value(x))
}

/// The members that sources are written as.
pub open spec fn source_members(s: SourceView) -> Seq<(Seq<char>, json::JsonView)> {
    seq![("type"@, json::JsonView::Str(s.source_type)), ("url"@, json::JsonView::Str(s.url))]
        + fields::text_member("reference"@, s.reference)
}

/// The members that an archive is written as.
pub open spec fn dist_members(d: DistView) -> Seq<(Seq<char>, json::JsonView)> {
    seq![("type"@, json::JsonView::Str(d.dist_type)), ("url"@, json::JsonView::Str(d.url))]
        + fields::text_member("reference"@, d.reference) + fields::text_member("shasum"@, d.shasum)
        + fields::value_member(
        "mirrors"@,
        match d.mirrors {
            Some(a) => Some(json::JsonView::Array(a)),
            None => None,
        },
    )
}

/// The members that a package is written as. Empty ones are left out.
pub open spec fn locked_members(p: LockedView) -> Seq<(Seq<char>, json::JsonView)> {
    seq![("name"@, json::JsonView::Str(p.name))] + seq![
        ("version"@, json::JsonView::Str(p.version)),
    ] + fields::value_member(
        "source"@,
        match p.source {
            Some(s) => Some(json::JsonView::Object(source_members(s))),
            None => None,
        },
    ) + fields::value_member(
        "dist"@,
        match p.dist {
            Some(d) => Some(json::JsonView::Object(dist_members(d))),
            None => None,
        },
    ) + fields::object_member("require"@, fields::link_values(p.require)) + fields::object_member(
        "require-dev"@,
        fields::link_values(p.require_dev),
    ) + fields::text_member("type"@, p.package_type) + fields::value_member("extra"@, p.extra)
        + fields::value_member("autoload"@, autoload_value(p.autoload)) + fields::value_member(
        "autoload-dev"@,
        autoload_value(p.autoload_dev),
    ) + fields::text_member("notification-url"@, p.notification_url) + fields::array_member(
        "license"@,
        license_values(p.license),
    ) + fields::text_member("description"@, p.description) + fields::text_member(
        "homepage"@,
        p.homepage,
    ) + fields::list_member("keywords"@, p.keywords) + fields::text_member("time"@, p.time)
        + fields::object_member("replace"@, fields::link_values(p.replace))
        + fields::object_member("provide"@, fields::link_values(p.provide))
        + fields::object_member("conflict"@, fields::link_values(p.conflict))
        + fields::object_member("suggest"@, fields::link_values(p.suggest)) + fields::list_member(
        "bin"@,
        p.bin,
    ) + fields::value_member("abandoned"@, p.abandoned)
}

/// The value that an optional autoload configuration is written as.
pub open spec fn autoload_value(a: Option<package::AutoloadView>) -> Option<json::JsonView> {
    match a {
        Some(c) => Some(json::JsonView::Object(package::autoload_members(c))),
        None => None,
    }
}

impl SourceInfo {
    /// The sources as a value.
    pub fn to_json(&self) -> (r: Json)
        ensures
            r@ == json::JsonView::Object(source_members(self@)),
    {
        let mut out: Vec<(String, Json)> = Vec::new();
        fields::add_value(&mut out, "type", Json::Str(self.source_type.clone()));
        fields::add_value(&mut out, "url", Json::Str(self.url.clone()));
        fields::add_text(&mut out, "reference", &self.reference);
        proof {
            json::lemma_object_view(out);
            assert(json::members(out@) =~= source_members(self@));
        }
        Json::Object(out)
    }
}

impl DistInfo {
    /// The archive as a value.
    pub fn to_json(&self) -> (r: Json)
        ensures
            r@ == json::JsonView::Object(dist_members(self@)),
    {
        let mut out: Vec<(String, Json)> = Vec::new();
        fields::add_value(&mut out, "type", Json::Str(self.dist_type.clone()));
        fields::add_value(&mut out, "url", Json::Str(self.url.clone()));
        fields::add_text(&mut out, "reference", &self.reference);
        fields::add_text(&mut out, "shasum", &self.shasum);
        if let Some(a) = &self.mirrors {
            let copy = fields::copy_values(a);
            proof {
                json::lemma_array_view(copy);
            }
            fields::add_value(&mut out, "mirrors", Json::Array(copy));
        }
        proof {
            json::lemma_object_view(out);
            assert(json::members(out@) =~= dist_members(self@));
        }
        Json::Object(out)
    }
}

impl License {
    /// The license as a value.
    pub fn to_json(&self) -> (r: Json)
        ensures
            r@ == license_value(self@),
    {
        match self {
            License::One(s) => Json::Str(s.clone()),
            License::Many(v) => fields::list_json(v),
        }
    }
}

fn licenses_json(v: &Vec<License>) -> (r: Vec<Json>)
    ensures
        json::elements(r@) == license_values(license_views(v@)),
{
    let n: usize = v.len();
    let mut out: Vec<Json> = Vec::new();
    let mut i: usize = 0;
    while i < n
        invariant
            i <= n,
            n == v@.len(),
            out@.len() == i,
            forall|j: int| 0 <= j < i ==> (#[trigger] out@[j])@ == license_value(v@[j]@),
        decreases n - i,
    {
        out.push(v[i].to_json());
        i += 1;
    }
    assert(json::elements(out@) =~= license_values(license_views(v@)));
    out
}

/// Adds an autoload configuration, if there is one.
pub fn add_autoload(out: &mut Vec<(String, Json)>, k: &str, a: &Option<AutoloadConfig>)
    ensures
        json::members(final(out)@) == json::members(old(out)@) + fields::value_member(
            k@,
            autoload_value(package::opt_autoload(*a)),
        ),
{
    match a {
        Some(c) => {
            fields::add_value(out, k, c.to_json());
        },
        None => {
            assert(json::members(out@) =~= json::members(out@) + Seq::empty());
        },
    }
}

impl LockedPackage {
    /// The members that the package is written as.
    pub fn to_members(&self) -> (r: Vec<(String, Json)>)
        ensures
            json::members(r@) == locked_members(self@),
    {
        let mut out: Vec<(String, Json)> = Vec::new();
        assert(json::members(out@) =~= Seq::empty());
        fields::add_value(&mut out, "name", Json::Str(self.name.clone()));
        assert(json::members(out@) =~= seq![("name"@, json::JsonView::Str(self@.name))]);
        fields::add_value(&mut out, "version", Json::Str(self.version.clone()));
        let source = match &self.source {
            Some(s) => Some(s.to_json()),
            None => None,
        };
        fields::add_opt(&mut out, "source", &source);
        let dist = match &self.dist {
            Some(d) => Some(d.to_json()),
            None => None,
        };
        fields::add_opt(&mut out, "dist", &dist);
        fields::add_links(&mut out, "require", &self.require);
        fields::add_links(&mut out, "require-dev", &self.require_dev);
        fields::add_text(&mut out, "type", &self.package_type);
        fields::add_opt(&mut out, "extra", &self.extra);
        add_autoload(&mut out, "autoload", &self.autoload);
        add_autoload(&mut out, "autoload-dev", &self.autoload_dev);
        fields::add_text(&mut out, "notification-url", &self.notification_url);
        fields::add_array(&mut out, "license", licenses_json(&self.license));
        fields::add_text(&mut out, "description", &self.description);
        fields::add_text(&mut out, "homepage", &self.homepage);
        fields::add_list(&mut out, "keywords", &self.keywords);
        fields::add_text(&mut out, "time", &self.time);
        fields::add_links(&mut out, "replace", &self.replace);
        fields::add_links(&mut out, "provide", &self.provide);
        fields::add_links(&mut out, "conflict", &self.conflict);
        fields::add_links(&mut out, "suggest", &self.suggest);
        fields::add_list(&mut out, "bin", &self.bin);
        fields::add_opt(&mut out, "abandoned", &self.abandoned);
        out
    }

    /// The package as a value.
    pub fn to_json(&self) -> (r: Json)
        ensures
            r@ == json::JsonView::Object(locked_members(self@)),
    {
        let out = self.to_members();
        proof {
            json::lemma_object_view(out);
        }
        Json::Object(out)
    }
}

/// The values that packages are written as.
pub open spec fn locked_values(v: Seq<LockedView>) -> Seq<json::JsonView> {
    v.map_values(|p: LockedView| json::JsonView::Object(locked_members(p)))
}

/// The members that numbers are written as.
pub open spec fn number_values(p: Seq<(Seq<char>, i32)>) -> Seq<(Seq<char>, json::JsonView)> {
    p.map_values(|e: (Seq<char>, i32)| (e.0, json::JsonView::Number(i32_text_of(e.1))))
}

/// The decimal text of a number.
pub open spec fn i32_text_of(n: i32) -> Seq<char> {
    if n < 0 {
        "-"@ + text::decimal((0 - n) as nat)
    } else {
        text::decimal(n as nat)
    }
}

fn i32_text(n: i32) -> (r: String)
    ensures
        r@ == i32_text_of(n),
{
    if n < 0 {
        let wide: i64 = 0 - (n as i64);
        text::cat("-", text::u64_text(wide as u64).as_str())
    } else {
        text::u64_text(n as u64)
    }
}

fn packages_json(v: &Vec<LockedPackage>) -> (r: Json)
    ensures
        r@ == json::JsonView::Array(locked_values(locked_views(v@))),
{
    let n: usize = v.len();
    let mut out: Vec<Json> = Vec::new();
    let mut i: usize = 0;
    while i < n
        invariant
            i <= n,
            n == v@.len(),
            out@.len() == i,
            forall|j: int|
                0 <= j < i ==> (#[trigger] out@[j])@ == json::JsonView::Object(
                    locked_members(v@[j]@),
                ),
        decreases n - i,
    {
        out.push(v[i].to_json());
        i += 1;
    }
    proof {
        json::lemma_array_view(out);
        assert(json::elements(out@) =~= locked_values(locked_views(v@)));
    }
    Json::Array(out)
}

fn numbers_json(m: &StrMap<i32>) -> (r: Json)
    ensures
        r@ == json::JsonView::Object(number_values(m@)),
{
    let n: usize = m.entries.len();
    let mut out: Vec<(String, Json)> = Vec::new();
    let mut i: usize = 0;
    while i < n
        invariant
            i <= n,
            n == m.entries@.len(),
            out@.len() == i,
            forall|j: int|
                0 <= j < i ==> (#[trigger] out@[j]).0@ == m.entries@[j].0@ && out@[j].1@
                    == json::JsonView::Number(i32_text_of(m.entries@[j].1)),
        decreases n - i,
    {
        out.push((m.entries[i].0.clone(), Json::Number(i32_text(m.entries[i].1))));
        i += 1;
    }
    proof {
        json::lemma_object_view(out);
        assert(json::members(out@) =~= number_values(m@));
    }
    Json::Object(out)
}

/// The members that a lock file is written as.
pub open spec fn lock_members(l: LockView) -> Seq<(Seq<char>, json::JsonView)> {
    seq![("_readme"@, json::JsonView::Array(fields::text_values(l.readme)))] + seq![
        ("content-hash"@, json::JsonView::Str(l.content_hash)),
    ] + seq![("packages"@, json::JsonView::Array(locked_values(l.packages)))] + seq![
        ("packages-dev"@, json::JsonView::Array(locked_values(l.packages_dev))),
    ] + fields::array_member("aliases"@, l.aliases) + seq![
        ("minimum-stability"@, json::JsonView::Str(l.minimum_stability)),
    ] + seq![("stability-flags"@, json::JsonView::Object(number_values(l.stability_flags)))]
        + seq![("prefer-stable"@, json::JsonView::Bool(l.prefer_stable))] + seq![
        ("prefer-lowest"@, json::JsonView::Bool(l.prefer_lowest)),
    ] + seq![("platform"@, json::JsonView::Object(fields::link_values(l.platform)))] + seq![
        ("platform-dev"@, json::JsonView::Object(fields::link_values(l.platform_dev))),
    ] + seq![("plugin-api-version"@, json::JsonView::Str(l.plugin_api_version))]
}

impl ComposerLock {
    /// The lock file as a value.
    pub fn to_json(&self) -> (r: Json)
        ensures
            r@ == json::JsonView::Object(lock_members(self@)),
    {
        let mut out: Vec<(String, Json)> = Vec::new();
        assert(json::members(out@) =~= Seq::empty());
        fields::add_value(&mut out, "_readme", fields::list_json(&self.readme));
        assert(json::members(out@) =~= seq![
            ("_readme"@, json::JsonView::Array(fields::text_values(self@.readme))),
        ]);
        fields::add_value(&mut out, "content-hash", Json::Str(self.content_hash.clone()));
        fields::add_value(&mut out, "packages", packages_json(&self.packages));
        fields::add_value(&mut out, "packages-dev", packages_json(&self.packages_dev));
        fields::add_array(&mut out, "aliases", fields::copy_values(&self.aliases));
        fields::add_value(
            &mut out,
            "minimum-stability",
            Json::Str(self.minimum_stability.clone()),
        );
        fields::add_value(&mut out, "stability-flags", numbers_json(&self.stability_flags));
        fields::add_value(&mut out, "prefer-stable", Json::Bool(self.prefer_stable));
        fields::add_value(&mut out, "prefer-lowest", Json::Bool(self.prefer_lowest));
        fields::add_value(&mut out, "platform", fields::links_json(&self.platform));
        fields::add_value(&mut out, "platform-dev", fields::links_json(&self.platform_dev));
        fields::add_value(
            &mut out,
            "plugin-api-version",
            Json::Str(self.plugin_api_version.clone()),
        );
        proof {
            json::lemma_object_view(out);
        }
        Json::Object(out)
    }
}

// ---------------------------------------------------------------------------
// Laws on what is read

/// What a lock file says of a package is read from the members of these names. A
/// package has a name and a version.
pub proof fn law_package_is_read(j: json::JsonView, p: LockedView)
    requires
        j is Object,
        locked_json(j) == Some(p),
    ensures
        json::get_of(j, "name"@) == Some(json::JsonView::Str(p.name)),
        json::get_of(j, "version"@) == Some(json::JsonView::Str(p.version)),
        fields::reads_links(json::get_of(j, "require"@), p.require),
        fields::reads_links(json::get_of(j, "require-dev"@), p.require_dev),
        fields::reads_links(json::get_of(j, "replace"@), p.replace),
        fields::reads_links(json::get_of(j, "provide"@), p.provide),
        fields::reads_links(json::get_of(j, "conflict"@), p.conflict),
        fields::reads_links(json::get_of(j, "suggest"@), p.suggest),
        fields::reads_text(json::get_of(j, "type"@), p.package_type),
        fields::reads_text(json::get_of(j, "description"@), p.description),
        fields::reads_text(json::get_of(j, "homepage"@), p.homepage),
        fields::reads_text(json::get_of(j, "time"@), p.time),
        fields::reads_text(json::get_of(j, "notification-url"@), p.notification_url),
        fields::reads_texts(json::get_of(j, "keywords"@), p.keywords),
        fields::reads_texts(json::get_of(j, "bin"@), p.bin),
        json::get_of(j, "dist"@) is None ==> p.dist is None,
        json::get_of(j, "source"@) is None ==> p.source is None,
        (json::get_of(j, "dist"@) matches Some(d) && d is Object) ==> ({
            let d = json::get_of(j, "dist"@)->0;
            p.dist matches Some(x) && json::get_of(d, "type"@) == Some(
                json::JsonView::Str(x.dist_type),
            ) && json::get_of(d, "url"@) == Some(json::JsonView::Str(x.url)) && fields::reads_text(
                json::get_of(d, "reference"@),
                x.reference,
            ) && fields::reads_text(json::get_of(d, "shasum"@), x.shasum)
        }),
        (json::get_of(j, "source"@) matches Some(s) && s is Object) ==> ({
            let s = json::get_of(j, "source"@)->0;
            p.source matches Some(x) && json::get_of(s, "type"@) == Some(
                json::JsonView::Str(x.source_type),
            ) && json::get_of(s, "url"@) == Some(json::JsonView::Str(x.url)) && fields::reads_text(
                json::get_of(s, "reference"@),
                x.reference,
            )
        }),
        (json::get_of(j, "autoload"@) matches Some(a) && a !is Null) ==> p.autoload
            == package::autoload_json(json::get_of(j, "autoload"@)->0),
{
    fields::law_members_are_read(json::get_of(j, "require"@));
    fields::law_members_are_read(json::get_of(j, "require-dev"@));
    fields::law_members_are_read(json::get_of(j, "replace"@));
    fields::law_members_are_read(json::get_of(j, "provide"@));
    fields::law_members_are_read(json::get_of(j, "conflict"@));
    fields::law_members_are_read(json::get_of(j, "suggest"@));
    fields::law_members_are_read(json::get_of(j, "type"@));
    fields::law_members_are_read(json::get_of(j, "description"@));
    fields::law_members_are_read(json::get_of(j, "homepage"@));
    fields::law_members_are_read(json::get_of(j, "time"@));
    fields::law_members_are_read(json::get_of(j, "notification-url"@));
    fields::law_members_are_read(json::get_of(j, "keywords"@));
    fields::law_members_are_read(json::get_of(j, "bin"@));
    if let Some(d) = json::get_of(j, "dist"@) {
        fields::law_members_are_read(json::get_of(d, "reference"@));
        fields::law_members_are_read(json::get_of(d, "shasum"@));
    }
    if let Some(s) = json::get_of(j, "source"@) {
        fields::law_members_are_read(json::get_of(s, "reference"@));
    }
}

/// A list of packages is read one for one.
pub open spec fn reads_packages(v: Option<json::JsonView>, p: Seq<LockedView>) -> bool {
    match v {
        Some(json::JsonView::Array(a)) => p.len() == a.len() && forall|i: int|
            0 <= i < a.len() ==> locked_json(#[trigger] a[i]) == Some(p[i]),
        _ => p.len() == 0,
    }
}

proof fn lemma_packages_read(a: Seq<json::JsonView>)
    ensures
        packages_of(a) matches Some(p) ==> p.len() == a.len() && forall|i: int|
            0 <= i < a.len() ==> locked_json(#[trigger] a[i]) == Some(p[i]),
    decreases a.len(),
{
    if a.len() > 0 {
        let front = a.drop_last();
        lemma_packages_read(front);
        if let Some(p) = packages_of(a) {
            let rest = packages_of(front)->0;
            assert forall|i: int| 0 <= i < a.len() implies locked_json(#[trigger] a[i]) == Some(
                p[i],
            ) by {
                if i < front.len() {
                    assert(front[i] == a[i]);
                    assert(p[i] == rest[i]);
                }
            }
        }
    }
}

/// What a lock file says is read from the members of these names.
pub proof fn law_lock_is_read(j: json::JsonView, l: LockView)
    requires
        j is Object,
        lock_json(j) == Some(l),
    ensures
        json::get_of(j, "content-hash"@) matches Some(h) ==> h == json::JsonView::Str(
            l.content_hash,
        ),
        reads_packages(json::get_of(j, "packages"@), l.packages),
        reads_packages(json::get_of(j, "packages-dev"@), l.packages_dev),
        json::get_of(j, "minimum-stability"@) matches Some(s) ==> s == json::JsonView::Str(
            l.minimum_stability,
        ),
        json::get_of(j, "minimum-stability"@) is None ==> l.minimum_stability == "stable"@,
        json::get_of(j, "prefer-stable"@) matches Some(b) ==> b == json::JsonView::Bool(
            l.prefer_stable,
        ),
        json::get_of(j, "prefer-stable"@) is None ==> !l.prefer_stable,
        json::get_of(j, "prefer-lowest"@) matches Some(b) ==> b == json::JsonView::Bool(
            l.prefer_lowest,
        ),
        fields::reads_links(json::get_of(j, "platform"@), l.platform),
        fields::reads_links(json::get_of(j, "platform-dev"@), l.platform_dev),
{
    fields::law_members_are_read(json::get_of(j, "platform"@));
    fields::law_members_are_read(json::get_of(j, "platform-dev"@));
    if let Some(json::JsonView::Array(a)) = json::get_of(j, "packages"@) {
        lemma_packages_read(a);
    }
    if let Some(json::JsonView::Array(a)) = json::get_of(j, "packages-dev"@) {
        lemma_packages_read(a);
    }
}

/// The packages for production are always installed, those for development only
/// in development, and no others.
pub proof fn law_what_is_to_be_installed(l: LockView, p: LockedView)
    ensures
        to_install(l, false) == l.packages,
        to_install(l, true).contains(p) <==> l.packages.contains(p) || l.packages_dev.contains(p),
{
    let all = l.packages + l.packages_dev;
    if l.packages.contains(p) {
        let i = choose|i: int| 0 <= i < l.packages.len() && l.packages[i] == p;
        assert(all[i] == p);
    }
    if l.packages_dev.contains(p) {
        let i = choose|i: int| 0 <= i < l.packages_dev.len() && l.packages_dev[i] == p;
        assert(all[l.packages.len() + i] == p);
    }
    if all.contains(p) {
        let i = choose|i: int| 0 <= i < all.len() && all[i] == p;
        if i < l.packages.len() {
            assert(l.packages[i] == p);
        } else {
            assert(l.packages_dev[i - l.packages.len()] == p);
        }
    }
}

/// A package is found by its name if and only if there is one; it is the first
/// one of that name.
pub proof fn law_found_by_name(v: Seq<LockedView>, name: Seq<char>)
    ensures
        match first_named(v, name) {
            Some(p) => exists|i: int|
                0 <= i < v.len() && #[trigger] v[i] == p && p.name == name && forall|k: int|
                    0 <= k < i ==> (#[trigger] v[k]).name != name,
            None => forall|i: int| 0 <= i < v.len() ==> (#[trigger] v[i]).name != name,
        },
    decreases v.len(),
{
    if v.len() > 0 {
        let rest = v.skip(1);
        law_found_by_name(rest, name);
        if v[0].name == name {
            assert(v[0] == v[0]);
        } else if let Some(p) = first_named(rest, name) {
            let i = choose|i: int|
                0 <= i < rest.len() && #[trigger] rest[i] == p && p.name == name && forall|k: int|
                    0 <= k < i ==> (#[trigger] rest[k]).name != name;
            assert(v[i + 1] == p);
            assert forall|k: int| 0 <= k < i + 1 implies (#[trigger] v[k]).name != name by {
                if k > 0 {
                    assert(rest[k - 1] == v[k]);
                }
            }
        } else {
            assert forall|i: int| 0 <= i < v.len() implies (#[trigger] v[i]).name != name by {
                if i > 0 {
                    assert(rest[i - 1] == v[i]);
                }
            }
        }
    }
}

/// What a package is kept under in the cache: its checksum, else the address and
/// the reference of its archive, else those of its checkout.
pub proof fn law_cache_keys(p: LockedView)
    ensures
        (p.dist matches Some(d) && d.shasum matches Some(s) && s.len() > 0) ==> cache_key_of(p)
            == "sha1:"@ + p.dist->0.shasum->0,
        (p.dist matches Some(d) && (d.shasum matches Some(s) ==> s.len() == 0)) ==> cache_key_of(p)
            == "dist:"@ + p.dist->0.url + (match p.dist->0.reference {
            Some(r) => "@"@ + r,
            None => Seq::empty(),
        }),
        (p.dist is None && p.source is Some) ==> cache_key_of(p) == "src:"@ + p.source->0.url + "@"@
            + (match p.source->0.reference {
            Some(r) => r,
            None => Seq::empty(),
        }),
{
    if let Some(d) = p.dist {
        if let Some(r) = d.reference {
            assert("dist:"@ + d.url + "@"@ + r =~= "dist:"@ + d.url + ("@"@ + r));
        } else {
            assert("dist:"@ + d.url + Seq::<char>::empty() =~= "dist:"@ + d.url);
        }
    }
}

/// A package without files is a metapackage, or has neither an archive nor a
/// checkout.
pub proof fn law_packages_without_files(p: LockedView)
    ensures
        has_nothing(p) <==> p.package_type == Some("metapackage"@) || (p.dist is None && p.source
            is None),
{
}

/// Licenses are read one for one, each a text or a list of alternatives.
pub proof fn law_licenses_are_read(a: Seq<json::JsonView>)
    ensures
        licenses_of(a) matches Some(l) ==> l.len() == a.len() && forall|i: int|
            0 <= i < a.len() ==> match #[trigger] l[i] {
                LicenseView::One(s) => a[i] == json::JsonView::Str(s),
                LicenseView::Many(t) => fields::reads_texts(Some(a[i]), t) && a[i] is Array,
            },
    decreases a.len(),
{
    if a.len() > 0 {
        let front = a.drop_last();
        law_licenses_are_read(front);
        if let Some(l) = licenses_of(a) {
            let rest = licenses_of(front)->0;
            fields::law_members_are_read(Some(a.last()));
            assert forall|i: int| 0 <= i < a.len() implies match #[trigger] l[i] {
                LicenseView::One(s) => a[i] == json::JsonView::Str(s),
                LicenseView::Many(t) => fields::reads_texts(Some(a[i]), t) && a[i] is Array,
            } by {
                if i < front.len() {
                    assert(front[i] == a[i]);
                    assert(l[i] == rest[i]);
                }
            }
        }
    }
}

/// A package of a path is linked, unless it is said not to be.
pub proof fn law_which_paths_are_linked(p: LockedView, e: json::JsonView, c: json::JsonView)
    ensures
        p.extra is None ==> links_path(p),
        (p.extra == Some(e) && json::get_of(e, "composer-rs"@) == Some(c) && json::get_of(
            c,
            "symlink"@,
        ) == Some(json::JsonView::Bool(false))) ==> !links_path(p),
        !links_path(p) ==> (p.extra matches Some(x) && json::get_of(x, "composer-rs"@) matches Some(
            y,
        ) && json::get_of(y, "symlink"@) == Some(json::JsonView::Bool(false))),
{
}

} // verus!
