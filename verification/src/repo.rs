//! Package metadata of repositories.

use crate::auth::AuthStore;
use crate::auth::HostAuth;
use crate::collections;
use crate::collections::StrMap;
use crate::constraint;
use crate::constraint::VersionConstraint;
use crate::error::Error;
use crate::hash;
use crate::json;
use crate::json::Json;
use crate::lock;
use crate::lock::DistInfo;
use crate::lock::License;
use crate::lock::LockedPackage;
use crate::lock::SourceInfo;
use crate::manifest::ComposerJson;
use crate::package;
use crate::package::AutoloadConfig;
use crate::package::PackageId;
use crate::paths;
use crate::repositories::Repository;
use crate::text;
use crate::version::ComposerVersion;
use crate::version::Stability;
use vstd::prelude::*;

verus! {

/// The time in seconds for which fetched metadata counts as fresh.
pub const METADATA_TTL_SECONDS: u64 = 600;

// ---------------------------------------------------------------------------
// Versions that a repository offers

/// One version of a package that a repository offers.
#[derive(Debug)]
pub struct RemotePackageVersion {
    pub name: String,
    pub version: ComposerVersion,
    pub version_normalized: String,
    pub dist: Option<DistInfo>,
    pub source: Option<SourceInfo>,
    pub require: StrMap<String>,
    pub require_dev: StrMap<String>,
    pub package_type: Option<String>,
    pub autoload: Option<AutoloadConfig>,
    pub autoload_dev: Option<AutoloadConfig>,
    pub provide: StrMap<String>,
    pub replace: StrMap<String>,
    pub conflict: StrMap<String>,
    pub bin: Vec<String>,
    pub description: Option<String>,
    pub license: Vec<String>,
    pub abandoned: Option<Json>,
    pub time: Option<String>,
}

/// What an offered version consists of.
pub struct RemoteView {
    pub name: Seq<char>,
    pub version: crate::version::VersionView,
    pub version_normalized: Seq<char>,
    pub dist: Option<lock::DistView>,
    pub source: Option<lock::SourceView>,
    pub require: Seq<(Seq<char>, Seq<char>)>,
    pub require_dev: Seq<(Seq<char>, Seq<char>)>,
    pub package_type: Option<Seq<char>>,
    pub autoload: Option<package::AutoloadView>,
    pub autoload_dev: Option<package::AutoloadView>,
    pub provide: Seq<(Seq<char>, Seq<char>)>,
    pub replace: Seq<(Seq<char>, Seq<char>)>,
    pub conflict: Seq<(Seq<char>, Seq<char>)>,
    pub bin: Seq<Seq<char>>,
    pub description: Option<Seq<char>>,
    pub license: Seq<Seq<char>>,
    pub abandoned: Option<json::JsonView>,
    pub time: Option<Seq<char>>,
}

impl View for RemotePackageVersion {
    type V = RemoteView;

    open spec fn view(&self) -> RemoteView {
        RemoteView {
            name: self.name@,
            version: self.version@,
            version_normalized: self.version_normalized@,
            dist: lock::opt_dist(self.dist),
            source: lock::opt_source(self.source),
            require: collections::link_pairs(self.require),
            require_dev: collections::link_pairs(self.require_dev),
            package_type: text::opt_text(self.package_type),
            autoload: package::opt_autoload(self.autoload),
            autoload_dev: package::opt_autoload(self.autoload_dev),
            provide: collections::link_pairs(self.provide),
            replace: collections::link_pairs(self.replace),
            conflict: collections::link_pairs(self.conflict),
            bin: text::texts(self.bin@),
            description: text::opt_text(self.description),
            license: text::texts(self.license@),
            abandoned: json::opt_json(self.abandoned),
            time: text::opt_text(self.time),
        }
    }
}

/// What a list of offered versions consists of.
pub open spec fn remote_views(v: Seq<RemotePackageVersion>) -> Seq<RemoteView> {
    v.map_values(|r: RemotePackageVersion| r@)
}

/// An offered version as a locked package.
pub open spec fn as_locked(r: RemoteView) -> lock::LockedView {
    lock::LockedView {
        name: r.name,
        version: r.version.raw,
        source: r.source,
        dist: r.dist,
        require: r.require,
        require_dev: r.require_dev,
        package_type: r.package_type,
        extra: None,
        autoload: r.autoload,
        autoload_dev: r.autoload_dev,
        notification_url: Some("https://packagist.org/downloads/"@),
        license: r.license.map_values(|l: Seq<char>| lock::LicenseView::One(l)),
        description: r.description,
        homepage: None,
        keywords: Seq::empty(),
        time: r.time,
        replace: r.replace,
        provide: r.provide,
        conflict: r.conflict,
        suggest: Seq::empty(),
        bin: r.bin,
        abandoned: r.abandoned,
    }
}

fn single_licenses(v: &Vec<String>) -> (r: Vec<License>)
    ensures
        lock::license_views(r@) == text::texts(v@).map_values(
            |l: Seq<char>| lock::LicenseView::One(l),
        ),
{
    let n: usize = v.len();
    let mut out: Vec<License> = Vec::new();
    let mut i: usize = 0;
    while i < n
        invariant
            i <= n,
            n == v@.len(),
            out@.len() == i,
            forall|j: int| 0 <= j < i ==> (#[trigger] out@[j])@ == lock::LicenseView::One(v@[j]@),
        decreases n - i,
    {
        out.push(License::One(v[i].clone()));
        i += 1;
    }
    assert(lock::license_views(out@) =~= text::texts(v@).map_values(
        |l: Seq<char>| lock::LicenseView::One(l),
    ));
    out
}

/// The requirements of a list on packages other than platform packages. Names
/// that name no package are left out.
pub open spec fn required_packages(reqs: Seq<(Seq<char>, Seq<char>)>) -> Seq<
    (Seq<char>, Seq<char>),
> {
    crate::manifest::package_reqs(reqs)
}

/// The requirements of a map on packages other than platform packages.
pub fn package_requirements(require: &StrMap<String>) -> (r: Vec<(PackageId, VersionConstraint)>)
    ensures
        crate::manifest::dep_views(r@) == required_packages(collections::link_pairs(*require)),
{
    let ghost all = collections::link_pairs(*require);
    let mut out: Vec<(PackageId, VersionConstraint)> = Vec::new();
    let n: usize = require.entries.len();
    let mut i: usize = 0;
    assert(crate::manifest::dep_views(out@) =~= Seq::empty());
    while i < n
        invariant
            i <= n,
            n == require.entries@.len(),
            all == collections::link_pairs(*require),
            crate::manifest::dep_views(out@) == required_packages(all.take(i as int)),
        decreases n - i,
    {
        let name = require.entries[i].0.as_str();
        let c = require.entries[i].1.as_str();
        proof {
            assert(all.take(i + 1).drop_last() =~= all.take(i as int));
            assert(all.take(i + 1).last() == (name@, c@));
        }
        if let Ok(id) = PackageId::parse(name) {
            if !id.is_platform() {
                let ghost before = out@;
                let constraint = VersionConstraint::new(c);
                out.push((id, constraint));
                assert(crate::manifest::dep_views(out@) =~= crate::manifest::dep_views(
                    before,
                ).push((id@, constraint@)));
            }
        }
        i += 1;
    }
    assert(all.take(n as int) =~= all);
    out
}

impl RemotePackageVersion {
    /// The version as a locked package.
    pub fn to_locked(&self) -> (r: LockedPackage)
        ensures
            r@ == as_locked(self@),
    {
        let r = LockedPackage {
            name: self.name.clone(),
            version: String::from_str(self.version.as_str()),
            source: lock::copy_source(&self.source),
            dist: lock::copy_dist(&self.dist),
            require: self.require.copy(),
            require_dev: self.require_dev.copy(),
            package_type: lock::copy_text(&self.package_type),
            extra: None,
            autoload: package::copy_autoload(&self.autoload),
            autoload_dev: package::copy_autoload(&self.autoload_dev),
            notification_url: Some(String::from_str("https://packagist.org/downloads/")),
            license: single_licenses(&self.license),
            description: lock::copy_text(&self.description),
            homepage: None,
            keywords: Vec::new(),
            time: lock::copy_text(&self.time),
            replace: self.replace.copy(),
            provide: self.provide.copy(),
            conflict: self.conflict.copy(),
            suggest: StrMap::new(),
            bin: collections::copy_texts(&self.bin),
            abandoned: json::copy_opt(&self.abandoned),
        };
        assert(r@.keywords =~= Seq::empty());
        assert(r@.suggest =~= Seq::empty());
        r
    }

    /// The requirements on packages other than platform packages.
    pub fn non_platform_requires(&self) -> (r: Vec<(PackageId, VersionConstraint)>)
        ensures
            crate::manifest::dep_views(r@) == required_packages(self@.require),
    {
        package_requirements(&self.require)
    }
}

// ---------------------------------------------------------------------------
// Reading metadata

/// The text of a truth value.
pub open spec fn bool_text(b: bool) -> Seq<char> {
    if b {
        "true"@
    } else {
        "false"@
    }
}

/// The text that a value stands for where a text is asked for: a scalar by its
/// text, a list by its first element that has one.
pub open spec fn scalar_text(j: json::JsonView) -> Option<Seq<char>>
    decreases j,
{
    match j {
        json::JsonView::Str(s) => if s == "__unset"@ {
            None
        } else {
            Some(s)
        },
        json::JsonView::Number(t) => Some(t),
        json::JsonView::Bool(b) => Some(bool_text(b)),
        json::JsonView::Array(a) => first_text(a),
        _ => None,
    }
}

/// The text of the first element that has one.
pub open spec fn first_text(a: Seq<json::JsonView>) -> Option<Seq<char>>
    decreases a,
{
    if a.len() == 0 {
        None
    } else {
        match first_text(a.drop_last()) {
            Some(s) => Some(s),
            None => scalar_text(a.last()),
        }
    }
}

/// The text that a value stands for.
fn json_string(value: &Json) -> (r: Option<String>)
    ensures
        text::opt_text(r) == scalar_text(value@),
    decreases value,
{
    match value {
        Json::Str(s) => if text::same(s.as_str(), "__unset") {
            None
        } else {
            Some(s.clone())
        },
        Json::Number(t) => Some(t.clone()),
        Json::Bool(b) => Some(String::from_str(if *b { "true" } else { "false" })),
        Json::Array(v) => {
            proof {
                json::lemma_array_view(*v);
            }
            let ghost all = json::elements(v@);
            let n: usize = v.len();
            let mut i: usize = 0;
            while i < n
                invariant
                    i <= n,
                    n == v@.len(),
                    *value == Json::Array(*v),
                    all == json::elements(v@),
                    value@ == json::JsonView::Array(all),
                    first_text(all.take(i as int)) is None,
                decreases n - i,
            {
                assert(decreases_to!(*value => value->Array_0));
                assert(decreases_to!(value->Array_0 => value->Array_0[i as int]));
                proof {
                    assert(all.take(i + 1).drop_last() =~= all.take(i as int));
                    assert(all.take(i + 1).last() == v@[i as int]@);
                }
                if let Some(s) = json_string(&v[i]) {
                    proof {
                        lemma_first_text_kept(all, i + 1);
                    }
                    return Some(s);
                }
                i += 1;
            }
            assert(all.take(n as int) =~= all);
            None
        },
        _ => None,
    }
}

proof fn lemma_first_text_kept(a: Seq<json::JsonView>, i: int)
    requires
        0 <= i <= a.len(),
        first_text(a.take(i)) is Some,
    ensures
        first_text(a) == first_text(a.take(i)),
    decreases a.len() - i,
{
    if i < a.len() {
        assert(a.take(i + 1).drop_last() =~= a.take(i));
        lemma_first_text_kept(a, i + 1);
    } else {
        assert(a.take(i) =~= a);
    }
}

/// The text that an optional value stands for.
pub open spec fn opt_scalar(v: Option<json::JsonView>) -> Option<Seq<char>> {
    match v {
        Some(j) => scalar_text(j),
        None => None,
    }
}

fn member_string(j: &Json, k: &str) -> (r: Option<String>)
    ensures
        text::opt_text(r) == opt_scalar(json::get_of(j@, k@)),
{
    match j.get(k) {
        Some(v) => json_string(v),
        None => None,
    }
}

/// The members of an object that stand for texts.
pub open spec fn scalar_members(m: Seq<(Seq<char>, json::JsonView)>) -> Seq<
    (Seq<char>, Seq<char>),
>
    decreases m.len(),
{
    if m.len() == 0 {
        Seq::empty()
    } else {
        let rest = scalar_members(m.drop_last());
        match scalar_text(m.last().1) {
            Some(s) => collections::inserted(rest, m.last().0, s),
            None => rest,
        }
    }
}

/// The members of an optional object that stand for texts.
pub open spec fn opt_scalar_map(v: Option<json::JsonView>) -> Seq<(Seq<char>, Seq<char>)> {
    match v {
        Some(json::JsonView::Object(m)) => scalar_members(m),
        _ => Seq::empty(),
    }
}

fn json_string_map(j: &Json, k: &str) -> (r: StrMap<String>)
    ensures
        collections::link_pairs(r) == opt_scalar_map(json::get_of(j@, k@)),
{
    let mut out: StrMap<String> = StrMap::new();
    assert(collections::link_pairs(out) =~= Seq::empty());
    if let Some(Json::Object(m)) = j.get(k) {
        proof {
            json::lemma_object_view(*m);
        }
        let ghost all = json::members(m@);
        let n: usize = m.len();
        let mut i: usize = 0;
        while i < n
            invariant
                i <= n,
                n == m@.len(),
                all == json::members(m@),
                collections::link_pairs(out) == scalar_members(all.take(i as int)),
            decreases n - i,
        {
            proof {
                assert(all.take(i + 1).drop_last() =~= all.take(i as int));
                assert(all.take(i + 1).last() == (m@[i as int].0@, m@[i as int].1@));
            }
            if let Some(s) = json_string(&m[i].1) {
                proof {
                    collections::lemma_with_values(out@, m@[i as int].0@, s, |s: String| s@);
                }
                out.insert(m[i].0.clone(), s);
            }
            i += 1;
        }
        assert(all.take(n as int) =~= all);
    }
    out
}

/// The elements of a list that stand for texts.
pub open spec fn scalar_elements(a: Seq<json::JsonView>) -> Seq<Seq<char>>
    decreases a.len(),
{
    if a.len() == 0 {
        Seq::empty()
    } else {
        let rest = scalar_elements(a.drop_last());
        match scalar_text(a.last()) {
            Some(s) => rest.push(s),
            None => rest,
        }
    }
}

/// The texts of an optional list, for which a single text may stand.
pub open spec fn opt_scalar_list(v: Option<json::JsonView>) -> Seq<Seq<char>> {
    match v {
        Some(json::JsonView::Str(s)) => seq![s],
        Some(json::JsonView::Array(a)) => scalar_elements(a),
        _ => Seq::empty(),
    }
}

fn json_string_list(j: &Json, k: &str) -> (r: Vec<String>)
    ensures
        text::texts(r@) == opt_scalar_list(json::get_of(j@, k@)),
{
    let mut out: Vec<String> = Vec::new();
    assert(text::texts(out@) =~= Seq::empty());
    match j.get(k) {
        Some(Json::Str(s)) => {
            out.push(s.clone());
            assert(text::texts(out@) =~= seq![s@]);
        },
        Some(Json::Array(v)) => {
            proof {
                json::lemma_array_view(*v);
            }
            let ghost all = json::elements(v@);
            let n: usize = v.len();
            let mut i: usize = 0;
            while i < n
                invariant
                    i <= n,
                    n == v@.len(),
                    all == json::elements(v@),
                    text::texts(out@) == scalar_elements(all.take(i as int)),
                decreases n - i,
            {
                proof {
                    assert(all.take(i + 1).drop_last() =~= all.take(i as int));
                    assert(all.take(i + 1).last() == v@[i as int]@);
                }
                if let Some(s) = json_string(&v[i]) {
                    let ghost before = out@;
                    out.push(s);
                    assert(text::texts(out@) =~= text::texts(before).push(s@));
                }
                i += 1;
            }
            assert(all.take(n as int) =~= all);
        },
        _ => {},
    }
    out
}

/// The address of an archive and the addresses behind it in a list.
pub open spec fn urls_of(v: Option<json::JsonView>) -> Option<(Seq<char>, Seq<json::JsonView>)> {
    match v {
        None => None,
        Some(json::JsonView::Array(a)) => if a.len() > 0 {
            match scalar_text(a[0]) {
                Some(u) => Some((u, a.skip(1))),
                None => None,
            }
        } else {
            None
        },
        Some(j) => match scalar_text(j) {
            Some(u) => Some((u, Seq::empty())),
            None => None,
        },
    }
}

/// The mirrors of an archive: those that are listed, then the addresses behind
/// the first.
pub open spec fn mirrors_of(
    v: Option<json::JsonView>,
    more: Seq<json::JsonView>,
) -> Option<Seq<json::JsonView>> {
    let listed = match v {
        Some(json::JsonView::Array(a)) => Some(a),
        Some(j) => Some(seq![j]),
        None => None,
    };
    if more.len() == 0 {
        listed
    } else {
        match listed {
            Some(a) => Some(a + more),
            None => Some(more),
        }
    }
}

/// The archive that metadata describes.
pub open spec fn p2_dist(j: json::JsonView) -> Option<lock::DistView> {
    match (opt_scalar(json::get_of(j, "type"@)), urls_of(json::get_of(j, "url"@))) {
        (Some(dist_type), Some((url, more))) => Some(
            lock::DistView {
                dist_type,
                url,
                reference: opt_scalar(json::get_of(j, "reference"@)),
                shasum: opt_scalar(json::get_of(j, "shasum"@)),
                mirrors: mirrors_of(json::get_of(j, "mirrors"@), more),
            },
        ),
        _ => None,
    }
}

/// The sources that metadata describes.
pub open spec fn p2_source(j: json::JsonView) -> Option<lock::SourceView> {
    match (opt_scalar(json::get_of(j, "type"@)), opt_scalar(json::get_of(j, "url"@))) {
        (Some(source_type), Some(url)) => Some(
            lock::SourceView {
                source_type,
                url,
                reference: opt_scalar(json::get_of(j, "reference"@)),
            },
        ),
        _ => None,
    }
}

fn read_urls(j: &Json) -> (r: Option<(String, Vec<Json>)>)
    ensures
        match r {
            Some((u, more)) => urls_of(json::get_of(j@, "url"@)) == Some(
                (u@, json::elements(more@)),
            ),
            None => urls_of(json::get_of(j@, "url"@)) is None,
        },
{
    let mut more: Vec<Json> = Vec::new();
    match j.get("url") {
        None => None,
        Some(Json::Array(a)) => {
            proof {
                json::lemma_array_view(*a);
            }
            let ghost all = json::elements(a@);
            let n: usize = a.len();
            if n == 0 {
                return None;
            }
            assert(all[0] == a@[0]@);
            let url = match json_string(&a[0]) {
                Some(u) => u,
                None => {
                    return None;
                },
            };
            let mut i: usize = 1;
            while i < n
                invariant
                    1 <= i <= n,
                    n == a@.len(),
                    more@.len() == i - 1,
                    forall|k: int| 0 <= k < i - 1 ==> (#[trigger] more@[k])@ == a@[k + 1]@,
                decreases n - i,
            {
                more.push(a[i].copy());
                i += 1;
            }
            assert(json::elements(more@) =~= all.skip(1));
            Some((url, more))
        },
        Some(v) => match json_string(v) {
            Some(u) => {
                assert(json::elements(more@) =~= Seq::empty());
                Some((u, more))
            },
            None => None,
        },
    }
}

/// The archive that metadata describes.
pub fn parse_p2_dist(j: &Json) -> (r: Option<DistInfo>)
    ensures
        match r {
            Some(d) => p2_dist(j@) == Some(d@),
            None => p2_dist(j@) is None,
        },
{
    let dist_type = match member_string(j, "type") {
        Some(t) => t,
        None => {
            return None;
        },
    };
    let (url, more) = match read_urls(j) {
        Some(x) => x,
        None => {
            return None;
        },
    };
    let listed: Option<Vec<Json>> = match j.get("mirrors") {
        Some(Json::Array(a)) => {
            proof {
                json::lemma_array_view(*a);
            }
            Some(crate::fields::copy_values(a))
        },
        Some(v) => {
            let mut one: Vec<Json> = Vec::new();
            one.push(v.copy());
            assert(json::elements(one@) =~= seq![v@]);
            Some(one)
        },
        None => None,
    };
    let ghost was = lock::opt_elements(listed);
    let mirrors = if more.len() == 0 {
        listed
    } else {
        match listed {
            Some(a) => {
                let mut all = a;
                let mut rest = more;
                all.append(&mut rest);
                assert(json::elements(all@) =~= json::elements(a@) + json::elements(more@));
                Some(all)
            },
            None => Some(more),
        }
    };
    Some(
        DistInfo {
            dist_type,
            url,
            reference: member_string(j, "reference"),
            shasum: member_string(j, "shasum"),
            mirrors,
        },
    )
}

/// The sources that metadata describes.
pub fn parse_p2_source(j: &Json) -> (r: Option<SourceInfo>)
    ensures
        match r {
            Some(s) => p2_source(j@) == Some(s@),
            None => p2_source(j@) is None,
        },
{
    match (member_string(j, "type"), member_string(j, "url")) {
        (Some(source_type), Some(url)) => Some(
            SourceInfo { source_type, url, reference: member_string(j, "reference") },
        ),
        _ => None,
    }
}

/// The archive of an optional member.
pub open spec fn opt_p2_dist(v: Option<json::JsonView>) -> Option<lock::DistView> {
    match v {
        Some(j) => p2_dist(j),
        None => None,
    }
}

/// The sources of an optional member.
pub open spec fn opt_p2_source(v: Option<json::JsonView>) -> Option<lock::SourceView> {
    match v {
        Some(j) => p2_source(j),
        None => None,
    }
}

/// The autoload configuration of an optional member; none if it has the wrong
/// form.
pub open spec fn opt_p2_autoload(v: Option<json::JsonView>) -> Option<package::AutoloadView> {
    match v {
        Some(j) => package::metadata_autoload(j),
        None => None,
    }
}

/// The version of `package` that an entry of the metadata describes: an object
/// with a version that is one.
pub open spec fn p2_version(package: Seq<char>, j: json::JsonView) -> Option<RemoteView> {
    match opt_scalar(json::get_of(j, "version"@)) {
        None => None,
        Some(raw) => match crate::version::parsed(raw) {
            None => None,
            Some(version) => Some(
                RemoteView {
                    name: package,
                    version,
                    version_normalized: match opt_scalar(
                        json::get_of(j, "version_normalized"@),
                    ) {
                        Some(s) => s,
                        None => Seq::empty(),
                    },
                    dist: opt_p2_dist(json::get_of(j, "dist"@)),
                    source: opt_p2_source(json::get_of(j, "source"@)),
                    require: opt_scalar_map(json::get_of(j, "require"@)),
                    require_dev: opt_scalar_map(json::get_of(j, "require-dev"@)),
                    package_type: opt_scalar(json::get_of(j, "type"@)),
                    autoload: opt_p2_autoload(json::get_of(j, "autoload"@)),
                    autoload_dev: opt_p2_autoload(json::get_of(j, "autoload-dev"@)),
                    provide: opt_scalar_map(json::get_of(j, "provide"@)),
                    replace: opt_scalar_map(json::get_of(j, "replace"@)),
                    conflict: opt_scalar_map(json::get_of(j, "conflict"@)),
                    bin: opt_scalar_list(json::get_of(j, "bin"@)),
                    description: opt_scalar(json::get_of(j, "description"@)),
                    license: opt_scalar_list(json::get_of(j, "license"@)),
                    abandoned: json::get_of(j, "abandoned"@),
                    time: opt_scalar(json::get_of(j, "time"@)),
                },
            ),
        },
    }
}

fn p2_autoload(j: &Json, k: &str) -> (r: Option<AutoloadConfig>)
    ensures
        package::opt_autoload(r) == opt_p2_autoload(json::get_of(j@, k@)),
{
    match j.get(k) {
        Some(v) => AutoloadConfig::from_metadata(v),
        None => None,
    }
}

/// The version that an entry of the metadata describes.
pub fn remote_version_from_p2(package: &str, j: &Json) -> (r: Option<RemotePackageVersion>)
    ensures
        match r {
            Some(v) => p2_version(package@, j@) == Some(v@),
            None => p2_version(package@, j@) is None,
        },
{
    let raw = match member_string(j, "version") {
        Some(s) => s,
        None => {
            return None;
        },
    };
    let version = match ComposerVersion::parse(raw.as_str()) {
        Ok(v) => v,
        Err(_) => {
            return None;
        },
    };
    let version_normalized = match member_string(j, "version_normalized") {
        Some(s) => s,
        None => String::new(),
    };
    Some(
        RemotePackageVersion {
            name: String::from_str(package),
            version,
            version_normalized,
            dist: match j.get("dist") {
                Some(d) => parse_p2_dist(d),
                None => None,
            },
            source: match j.get("source") {
                Some(s) => parse_p2_source(s),
                None => None,
            },
            require: json_string_map(j, "require"),
            require_dev: json_string_map(j, "require-dev"),
            package_type: member_string(j, "type"),
            autoload: p2_autoload(j, "autoload"),
            autoload_dev: p2_autoload(j, "autoload-dev"),
            provide: json_string_map(j, "provide"),
            replace: json_string_map(j, "replace"),
            conflict: json_string_map(j, "conflict"),
            bin: json_string_list(j, "bin"),
            description: member_string(j, "description"),
            license: json_string_list(j, "license"),
            abandoned: match j.get("abandoned") {
                Some(a) => Some(a.copy()),
                None => None,
            },
            time: member_string(j, "time"),
        },
    )
}

/// The entry of a version that is given by name: where it does not say its
/// version itself, the name says it.
pub open spec fn named_entry(k: Seq<char>, j: json::JsonView) -> json::JsonView {
    match j {
        json::JsonView::Object(m) => if json::member(m, "version"@) is Some {
            j
        } else {
            json::JsonView::Object(m.push(("version"@, json::JsonView::Str(k))))
        },
        other => other,
    }
}

/// The entries of a package: a list, or an object that is keyed by version.
pub open spec fn entry_list(j: json::JsonView) -> Seq<json::JsonView> {
    match j {
        json::JsonView::Array(a) => a,
        json::JsonView::Object(m) => m.map_values(
            |e: (Seq<char>, json::JsonView)| named_entry(e.0, e.1),
        ),
        _ => Seq::empty(),
    }
}

/// The entries for `package` in the metadata: those under its name, else those
/// of the first package.
pub open spec fn p2_entries(package: Seq<char>, j: json::JsonView) -> Seq<json::JsonView> {
    match json::get_of(j, "packages"@) {
        Some(json::JsonView::Object(m)) => match json::member(m, package) {
            Some(list) => entry_list(list),
            None => if m.len() > 0 {
                entry_list(m[0].1)
            } else {
                Seq::empty()
            },
        },
        _ => Seq::empty(),
    }
}

/// The versions that a list of entries describes.
pub open spec fn p2_versions(package: Seq<char>, a: Seq<json::JsonView>) -> Seq<RemoteView>
    decreases a.len(),
{
    if a.len() == 0 {
        Seq::empty()
    } else {
        let rest = p2_versions(package, a.drop_last());
        match p2_version(package, a.last()) {
            Some(v) => rest.push(v),
            None => rest,
        }
    }
}

fn collect_entries(list: &Json) -> (r: Vec<Json>)
    ensures
        json::elements(r@) == entry_list(list@),
{
    let mut out: Vec<Json> = Vec::new();
    match list {
        Json::Array(a) => {
            proof {
                json::lemma_array_view(*a);
            }
            return crate::fields::copy_values(a);
        },
        Json::Object(m) => {
            proof {
                json::lemma_object_view(*m);
            }
            let ghost all = json::members(m@);
            let n: usize = m.len();
            let mut i: usize = 0;
            while i < n
                invariant
                    i <= n,
                    n == m@.len(),
                    all == json::members(m@),
                    out@.len() == i,
                    forall|k: int|
                        0 <= k < i ==> (#[trigger] out@[k])@ == named_entry(all[k].0, all[k].1),
                decreases n - i,
            {
                assert(all[i as int] == (m@[i as int].0@, m@[i as int].1@));
                let entry = match m[i].1.copy() {
                    Json::Object(e) => {
                        proof {
                            json::lemma_object_view(e);
                        }
                        let mut e2 = e;
                        if json::find_member(&e2, "version").is_none() {
                            e2.push((String::from_str("version"), Json::Str(m[i].0.clone())));
                            assert(json::members(e2@) =~= json::members(e@).push(
                                ("version"@, json::JsonView::Str(m@[i as int].0@)),
                            ));
                        }
                        proof {
                            json::lemma_object_view(e2);
                        }
                        Json::Object(e2)
                    },
                    other => other,
                };
                out.push(entry);
                i += 1;
            }
            assert(json::elements(out@) =~= entry_list(list@));
        },
        _ => {
            assert(json::elements(out@) =~= entry_list(list@));
        },
    }
    out
}

/// The versions of `package` in metadata that was read.
pub fn versions_in(package: &str, doc: &Json) -> (r: Vec<RemotePackageVersion>)
    ensures
        remote_views(r@) == p2_versions(package@, p2_entries(package@, doc@)),
{
    let mut items: Vec<Json> = Vec::new();
    assert(json::elements(items@) =~= Seq::empty());
    if let Some(Json::Object(m)) = doc.get("packages") {
        proof {
            json::lemma_object_view(*m);
        }
        match json::find_member(m, package) {
            Some(list) => {
                items = collect_entries(list);
            },
            None => {
                if m.len() > 0 {
                    assert(json::members(m@)[0] == (m@[0].0@, m@[0].1@));
                    items = collect_entries(&m[0].1);
                }
            },
        }
    }
    let ghost all = json::elements(items@);
    let mut out: Vec<RemotePackageVersion> = Vec::new();
    let n: usize = items.len();
    let mut i: usize = 0;
    assert(remote_views(out@) =~= Seq::empty());
    while i < n
        invariant
            i <= n,
            n == items@.len(),
            all == json::elements(items@),
            remote_views(out@) == p2_versions(package@, all.take(i as int)),
        decreases n - i,
    {
        proof {
            assert(all.take(i + 1).drop_last() =~= all.take(i as int));
            assert(all.take(i + 1).last() == items@[i as int]@);
        }
        if let Some(v) = remote_version_from_p2(package, &items[i]) {
            let ghost before = out@;
            out.push(v);
            assert(remote_views(out@) =~= remote_views(before).push(v@));
        }
        i += 1;
    }
    assert(all.take(n as int) =~= all);
    out
}

/// The versions of `package` in the bytes of the metadata.
pub fn parse_p2_response(package: &str, body: &[u8]) -> (r: Result<
    Vec<RemotePackageVersion>,
    Error,
>)
    ensures
        match json::json_read(body@) {
            Ok(j) => r is Ok && remote_views(r->Ok_0@) == p2_versions(
                package@,
                p2_entries(package@, j),
            ),
            Err(fault) => r matches Err(Error::Other(t)) && t@ == "p2 parse: "@ + fault,
        },
{
    match json::read(body) {
        Ok(doc) => Ok(versions_in(package, &doc)),
        Err(fault) => Err(Error::Other(text::cat("p2 parse: ", fault.as_str()))),
    }
}

// ---------------------------------------------------------------------------
// Choosing a version

/// A version comes into question: it is stable enough, or the constraint speaks
/// of development, and it satisfies the constraint.
pub open spec fn in_question(
    v: crate::version::VersionView,
    constraint: Seq<char>,
    min: Stability,
) -> bool {
    (crate::version::stability_rank(v.stability) >= crate::version::stability_rank(min)
        || text::occurs(constraint, "dev"@)) && constraint::satisfies(constraint, v)
}

/// Some version of a list comes into question and is stable.
pub open spec fn any_stable(
    vs: Seq<RemoteView>,
    constraint: Seq<char>,
    min: Stability,
) -> bool {
    exists|i: int|
        0 <= i < vs.len() && in_question((#[trigger] vs[i]).version, constraint, min)
            && vs[i].version.stability is Stable
}

/// A version may be chosen: where stable ones are preferred and there are any,
/// it is one of them.
pub open spec fn eligible(
    vs: Seq<RemoteView>,
    i: int,
    constraint: Seq<char>,
    prefer_stable: bool,
    min: Stability,
) -> bool {
    &&& 0 <= i < vs.len()
    &&& in_question(vs[i].version, constraint, min)
    &&& prefer_stable && any_stable(vs, constraint, min) ==> vs[i].version.stability is Stable
}

/// The highest of the versions that may be chosen, the first of them where
/// several stand at the same place.
pub open spec fn is_best(
    vs: Seq<RemoteView>,
    i: int,
    constraint: Seq<char>,
    prefer_stable: bool,
    min: Stability,
) -> bool {
    &&& eligible(vs, i, constraint, prefer_stable, min)
    &&& forall|k: int|
        #![trigger vs[k]]
        eligible(vs, k, constraint, prefer_stable, min) ==> {
            &&& !crate::version::version_lt(vs[i].version, vs[k].version)
            &&& k < i ==> crate::version::version_lt(vs[k].version, vs[i].version)
        }
}

fn comes_in_question(v: &ComposerVersion, constraint: &VersionConstraint, min: Stability) -> (r:
    bool)
    ensures
        r == in_question(v@, constraint@, min),
{
    (v.stability().rank() >= min.rank() || text::contains(constraint.as_str(), "dev"))
        && constraint.matches(v)
}

/// The place of the best version of a list.
pub fn pick_best(
    versions: &Vec<RemotePackageVersion>,
    constraint: &VersionConstraint,
    prefer_stable: bool,
    min: Stability,
) -> (r: Option<usize>)
    ensures
        match r {
            Some(i) => is_best(remote_views(versions@), i as int, constraint@, prefer_stable, min),
            None => forall|i: int|
                0 <= i < versions@.len() ==> !in_question(
                    (#[trigger] remote_views(versions@)[i]).version,
                    constraint@,
                    min,
                ),
        },
{
    let ghost vs = remote_views(versions@);
    let ghost c = constraint@;
    let n: usize = versions.len();
    let mut stable = false;
    let mut i: usize = 0;
    while i < n
        invariant
            i <= n,
            n == versions@.len(),
            vs == remote_views(versions@),
            c == constraint@,
            stable == exists|k: int|
                0 <= k < i && in_question((#[trigger] vs[k]).version, c, min)
                    && vs[k].version.stability is Stable,
        decreases n - i,
    {
        assert(vs[i as int] == versions@[i as int]@);
        if versions[i].version.is_stable() && comes_in_question(
            &versions[i].version,
            constraint,
            min,
        ) {
            stable = true;
        }
        i += 1;
    }
    assert(stable == any_stable(vs, c, min));
    let only_stable = prefer_stable && stable;
    let mut best: Option<usize> = None;
    let mut k: usize = 0;
    while k < n
        invariant
            k <= n,
            n == versions@.len(),
            vs == remote_views(versions@),
            c == constraint@,
            stable == any_stable(vs, c, min),
            only_stable == (prefer_stable && stable),
            match best {
                Some(b) => {
                    &&& b < k
                    &&& eligible(vs, b as int, c, prefer_stable, min)
                    &&& forall|m: int|
                        #![trigger vs[m]]
                        0 <= m < k && eligible(vs, m, c, prefer_stable, min) ==> {
                            &&& !crate::version::version_lt(vs[b as int].version, vs[m].version)
                            &&& m < b ==> crate::version::version_lt(
                                vs[m].version,
                                vs[b as int].version,
                            )
                        }
                },
                None => forall|m: int|
                    #![trigger vs[m]]
                    0 <= m < k ==> !eligible(vs, m, c, prefer_stable, min),
            },
        decreases n - k,
    {
        assert(vs[k as int] == versions@[k as int]@);
        if (!only_stable || versions[k].version.is_stable()) && comes_in_question(
            &versions[k].version,
            constraint,
            min,
        ) {
            assert(eligible(vs, k as int, c, prefer_stable, min));
            let ghost was = best;
            let better = match best {
                Some(b) => versions[b].version.lies_below(&versions[k].version),
                None => true,
            };
            if better {
                best = Some(k);
            }
            proof {
                crate::version::law_version_order_total(
                    vs[k as int].version,
                    vs[k as int].version,
                );
                if let Some(b) = was {
                    assert(vs[b as int] == versions@[b as int]@);
                    assert forall|m: int| #![trigger vs[m]]
                        0 <= m < k + 1 && eligible(vs, m, c, prefer_stable, min) && better implies {
                        &&& !crate::version::version_lt(vs[k as int].version, vs[m].version)
                        &&& m < k ==> crate::version::version_lt(
                            vs[m].version,
                            vs[k as int].version,
                        )
                    } by {
                        if m < k {
                            lemma_below_chain(
                                vs[m].version,
                                vs[b as int].version,
                                vs[k as int].version,
                            );
                        }
                    }
                }
            }
        } else {
            assert(!eligible(vs, k as int, c, prefer_stable, min));
        }
        k += 1;
    }
    proof {
        if best is None {
            assert forall|m: int| 0 <= m < versions@.len() implies !in_question(
                (#[trigger] vs[m]).version,
                c,
                min,
            ) by {
                assert(!eligible(vs, m, c, prefer_stable, min));
                if in_question(vs[m].version, c, min) {
                    assert(any_stable(vs, c, min));
                    let s = choose|s: int|
                        0 <= s < vs.len() && in_question((#[trigger] vs[s]).version, c, min)
                            && vs[s].version.stability is Stable;
                    assert(eligible(vs, s, c, prefer_stable, min));
                }
            }
        }
    }
    best
}

/// What does not lie above `b` lies below everything above `b`.
proof fn lemma_below_chain(
    m: crate::version::VersionView,
    b: crate::version::VersionView,
    k: crate::version::VersionView,
)
    requires
        !crate::version::version_lt(b, m),
        crate::version::version_lt(b, k),
    ensures
        crate::version::version_lt(m, k),
        !crate::version::version_lt(k, m),
{
    crate::version::law_version_order_total(b, m);
    crate::version::law_version_order_total(m, k);
    crate::version::law_key_orders_versions(m, b);
    crate::version::law_key_orders_versions(b, k);
    crate::version::law_key_orders_versions(m, k);
    if crate::version::version_lt(m, b) {
        crate::version::law_version_order_transitive(m, b, k);
    } else {
        assert(crate::version::same_place(b, m));
    }
}

/// The best version of a list, or the error that there is none.
pub fn find_best<'a>(
    versions: &'a Vec<RemotePackageVersion>,
    name: &PackageId,
    constraint: &VersionConstraint,
    prefer_stable: bool,
    min_stability: &str,
) -> (r: Result<&'a RemotePackageVersion, Error>)
    ensures
        match r {
            Ok(v) => exists|i: int|
                #![trigger remote_views(versions@)[i]]
                is_best(
                    remote_views(versions@),
                    i,
                    constraint@,
                    prefer_stable,
                    crate::version::stability_of(min_stability@),
                ) && v@ == remote_views(versions@)[i],
            Err(e) => {
                &&& e matches Error::NoMatchingVersion { package, constraint: c } && package@
                    == name@ && c@ == constraint@
                &&& forall|i: int|
                    0 <= i < versions@.len() ==> !in_question(
                        (#[trigger] remote_views(versions@)[i]).version,
                        constraint@,
                        crate::version::stability_of(min_stability@),
                    )
            },
        },
{
    let min = parse_min_stability(min_stability);
    match pick_best(versions, constraint, prefer_stable, min) {
        Some(i) => {
            assert(remote_views(versions@)[i as int] == versions@[i as int]@);
            Ok(&versions[i])
        },
        None => Err(
            Error::NoMatchingVersion {
                package: String::from_str(name.as_str()),
                constraint: String::from_str(constraint.as_str()),
            },
        ),
    }
}

/// The stability that a setting names.
pub fn parse_min_stability(s: &str) -> (r: Stability)
    ensures
        r == crate::version::stability_of(s@),
{
    Stability::parse(s)
}

// ---------------------------------------------------------------------------
// Addresses

/// A URL that is not encrypted.
pub open spec fn is_plain_http(url: Seq<char>) -> bool {
    let t = text::trimmed(url);
    t.len() >= 7 && text::lower(t.take(7)) == "http://"@
}

/// Whether a URL is not encrypted.
pub fn is_insecure_http(url: &str) -> (r: bool)
    ensures
        r == is_plain_http(url@),
{
    let t = text::trim(url);
    if t.unicode_len() < 7 {
        return false;
    }
    let head = text::to_ascii_lowercase(t.substring_char(0, 7));
    assert(t@.subrange(0, 7) =~= t@.take(7));
    text::same(head.as_str(), "http://")
}

/// An upper case hexadecimal digit.
pub open spec fn upper_hex(n: int) -> char {
    if n < 10 {
        (48 + n) as char
    } else {
        (55 + n) as char
    }
}

/// A character that stands for itself in a query.
pub open spec fn is_unreserved(c: char) -> bool {
    ('A' <= c <= 'Z') || ('a' <= c <= 'z') || text::is_digit(c) || c == '-' || c == '_' || c == '.'
        || c == '~'
}

/// How a character stands in a query: a blank as `+`, others by the low byte of
/// their code.
pub open spec fn query_char(c: char) -> Seq<char> {
    if is_unreserved(c) {
        seq![c]
    } else if c == ' ' {
        seq!['+']
    } else {
        seq!['%', upper_hex(c as int / 16 % 16), upper_hex(c as int % 16)]
    }
}

/// A text as it stands in a query.
pub open spec fn query_text(s: Seq<char>) -> Seq<char>
    decreases s.len(),
{
    if s.len() == 0 {
        s
    } else {
        query_text(s.drop_last()) + query_char(s.last())
    }
}

fn hex_upper(n: u32) -> (r: char)
    requires
        n < 16,
    ensures
        r == upper_hex(n as int),
{
    let code: u8 = if n < 10 {
        48 + n as u8
    } else {
        55 + n as u8
    };
    code as char
}

/// A text as it stands in a query.
pub fn urlencoding_minimal(s: &str) -> (r: String)
    ensures
        r@ == query_text(s@),
{
    let mut out = String::new();
    let n: usize = s.unicode_len();
    let mut i: usize = 0;
    while i < n
        invariant
            i <= n,
            n == s@.len(),
            out@ == query_text(s@.take(i as int)),
        decreases n - i,
    {
        let c = s.get_char(i);
        let ghost before = out@;
        if ('A' <= c && c <= 'Z') || ('a' <= c && c <= 'z') || ('0' <= c && c <= '9') || c == '-'
            || c == '_' || c == '.' || c == '~' {
            out.push(c);
        } else if c == ' ' {
            out.push('+');
        } else {
            let code: u32 = c as u32;
            out.push('%');
            out.push(hex_upper(code / 16 % 16));
            out.push(hex_upper(code % 16));
        }
        proof {
            assert(s@.take(i + 1).drop_last() =~= s@.take(i as int));
            assert(out@ =~= before + query_char(c));
        }
        i += 1;
    }
    assert(s@.take(n as int) =~= s@);
    out
}

/// The base address of a repository, without slashes at its end.
pub open spec fn base_url_of(url: Seq<char>) -> Seq<char> {
    text::without_back(url, "/"@)
}

/// The base address of a repository.
pub fn base_url(url: &str) -> (r: String)
    ensures
        r@ == base_url_of(url@),
{
    proof {
        reveal_strlit("/");
    }
    String::from_str(text::trim_back(url, "/"))
}

/// The address of a package's metadata.
pub fn metadata_url(base: &str, package: &str) -> (r: String)
    ensures
        r@ == base@ + "/p2/"@ + package@ + ".json"@,
{
    let mut out = text::cat3(base, "/p2/", package);
    out.append(".json");
    out
}

/// The address at which a repository is searched. Packagist is searched at its
/// main host.
pub open spec fn search_url_of(base: Seq<char>, query: Seq<char>, limit: nat) -> Seq<char> {
    let b = base_url_of(base);
    (if text::occurs(b, "packagist.org"@) {
        "https://packagist.org"@
    } else {
        b
    }) + "/search.json?q="@ + query_text(query) + "&per_page="@ + text::decimal(limit)
}

/// The address at which a repository is searched.
pub fn search_url(base: &str, query: &str, limit: usize) -> (r: String)
    ensures
        r@ == search_url_of(base@, query@, limit as nat),
{
    let b = base_url(base);
    let host = if text::contains(b.as_str(), "packagist.org") {
        "https://packagist.org"
    } else {
        b.as_str()
    };
    let mut out = text::cat3(host, "/search.json?q=", urlencoding_minimal(query).as_str());
    out.append("&per_page=");
    out.append(text::usize_text(limit).as_str());
    out
}

// ---------------------------------------------------------------------------
// Identity of cached metadata

/// The text by which credentials enter the identity of metadata.
pub open spec fn auth_text(a: crate::auth::HostAuthView) -> Seq<char> {
    match a {
        crate::auth::HostAuthView::Basic(u, p) => "basic\0"@ + u + "\0"@ + p,
        crate::auth::HostAuthView::Bearer(t) => "bearer\0"@ + t,
        crate::auth::HostAuthView::TokenHeader(n, v) => "header\0"@ + n + "\0"@ + v,
    }
}

/// The fingerprint of the credentials for a repository.
pub open spec fn fingerprint_of(a: Option<crate::auth::HostAuthView>) -> Seq<char> {
    match a {
        None => "anon"@,
        Some(x) => hash::blake3_text(vstd::utf8::encode_utf8(auth_text(x))),
    }
}

/// The fingerprint of credentials.
pub fn auth_fingerprint(a: &Option<HostAuth>) -> (r: String)
    ensures
        r@ == fingerprint_of(crate::auth::opt_auth(*a)),
{
    match a {
        None => String::from_str("anon"),
        Some(HostAuth::Basic { username, password }) => {
            let head = text::cat3("basic\0", username.as_str(), "\0");
            let all = text::cat(head.as_str(), password.as_str());
            String::from_str(hash::hash_text(all.as_str()).as_str())
        },
        Some(HostAuth::Bearer(t)) => {
            let all = text::cat("bearer\0", t.as_str());
            String::from_str(hash::hash_text(all.as_str()).as_str())
        },
        Some(HostAuth::TokenHeader { name, value }) => {
            let head = text::cat3("header\0", *name, "\0");
            let all = text::cat(head.as_str(), value.as_str());
            String::from_str(hash::hash_text(all.as_str()).as_str())
        },
    }
}

/// The text whose hash identifies the metadata of a package: where it comes
/// from, which package it is, and with which credentials it was fetched.
pub open spec fn identity_text(base: Seq<char>, package: Seq<char>, fingerprint: Seq<char>) -> Seq<
    char,
> {
    base + "\0"@ + package + "\0"@ + fingerprint
}

/// Different repositories, packages or credentials give different texts.
pub proof fn law_identity_tells_apart(
    base1: Seq<char>,
    package1: Seq<char>,
    print1: Seq<char>,
    base2: Seq<char>,
    package2: Seq<char>,
    print2: Seq<char>,
)
    requires
        !base1.contains('\0'),
        !base2.contains('\0'),
        !package1.contains('\0'),
        !package2.contains('\0'),
        identity_text(base1, package1, print1) == identity_text(base2, package2, print2),
    ensures
        base1 == base2,
        package1 == package2,
        print1 == print2,
{
    reveal_strlit("\0");
    let rest1 = package1 + "\0"@ + print1;
    let rest2 = package2 + "\0"@ + print2;
    assert(identity_text(base1, package1, print1) =~= base1 + "\0"@ + rest1);
    assert(identity_text(base2, package2, print2) =~= base2 + "\0"@ + rest2);
    lemma_first_zero(base1, rest1, base2, rest2);
    lemma_first_zero(package1, print1, package2, print2);
}

proof fn lemma_first_zero(a1: Seq<char>, b1: Seq<char>, a2: Seq<char>, b2: Seq<char>)
    requires
        !a1.contains('\0'),
        !a2.contains('\0'),
        a1 + "\0"@ + b1 == a2 + "\0"@ + b2,
    ensures
        a1 == a2,
        b1 == b2,
{
    reveal_strlit("\0");
    let x = a1 + "\0"@ + b1;
    let y = a2 + "\0"@ + b2;
    assert(x[a1.len() as int] == '\0');
    assert(y[a2.len() as int] == '\0');
    if a1.len() < a2.len() {
        assert(y[a1.len() as int] == a2[a1.len() as int]);
        assert(a2.contains('\0'));
    }
    if a2.len() < a1.len() {
        assert(x[a2.len() as int] == a1[a2.len() as int]);
        assert(a1.contains('\0'));
    }
    assert forall|i: int| 0 <= i < a1.len() implies a1[i] == a2[i] by {
        assert(x[i] == a1[i]);
        assert(y[i] == a2[i]);
    }
    assert(a1 =~= a2);
    assert(x.len() == y.len());
    assert forall|i: int| 0 <= i < b1.len() implies b1[i] == b2[i] by {
        assert(x[a1.len() + 1 + i] == b1[i]);
        assert(y[a2.len() + 1 + i] == b2[i]);
    }
    assert(b1 =~= b2);
}

/// The identity of a package's metadata.
pub open spec fn identity_of(base: Seq<char>, package: Seq<char>, fingerprint: Seq<char>) -> Seq<
    char,
> {
    hash::blake3_text(vstd::utf8::encode_utf8(identity_text(base, package, fingerprint)))
}

/// The identity of a package's metadata.
pub fn identity(base: &str, package: &str, fingerprint: &str) -> (r: String)
    ensures
        r@ == identity_of(base@, package@, fingerprint@),
        text::is_hex(r@, 64),
{
    let mut all = text::cat3(base, "\0", package);
    all.append("\0");
    all.append(fingerprint);
    String::from_str(hash::hash_text(all.as_str()).as_str())
}

/// The identity of a package's metadata, fetched with the credentials of a
/// store.
pub fn metadata_identity(auth: &AuthStore, base: &str, package: &str) -> (r: String)
    ensures
        r@ == identity_of(
            base@,
            package@,
            fingerprint_of(
                match crate::auth::url_authority(base@) {
                    Some(a) => crate::auth::auth_for_host(*auth, crate::auth::authority_key(a)),
                    None => None,
                },
            ),
        ),
        text::is_hex(r@, 64),
{
    let found = auth.for_url(base);
    let print = auth_fingerprint(&found);
    identity(base, package, print.as_str())
}

/// Where metadata with the given identity is kept.
pub fn disk_path(metadata_dir: &str, id: &str) -> (r: String)
    requires
        id@.len() >= 2,
    ensures
        r@ == paths::joined_path(
            paths::joined_path(paths::joined_path(metadata_dir@, "p2"@), id@.take(2)),
            id@ + ".json"@,
        ),
{
    let p2 = paths::join_path(metadata_dir, "p2");
    let shard = id.substring_char(0, 2);
    assert(id@.subrange(0, 2) =~= id@.take(2));
    let dir = paths::join_path(p2.as_str(), shard);
    paths::join_path(dir.as_str(), text::cat(id, ".json").as_str())
}

// ---------------------------------------------------------------------------
// The repositories of a project

/// A repository that is asked for packages.
#[derive(Debug)]
pub struct RepositorySetup {
    pub base_url: String,
    pub secure_http: bool,
}

/// What a repository's setup consists of.
pub open spec fn setup_views(v: Seq<RepositorySetup>) -> Seq<(Seq<char>, bool)> {
    v.map_values(|s: RepositorySetup| (s.base_url@, s.secure_http))
}

/// The first repository whose address is not encrypted.
pub open spec fn first_plain(repos: Seq<crate::repositories::RepositoryView>) -> Option<Seq<char>>
    decreases repos.len(),
{
    if repos.len() == 0 {
        None
    } else {
        match repos[0] {
            crate::repositories::RepositoryView::Composer(u) => if is_plain_http(u) {
                Some(u)
            } else {
                first_plain(repos.skip(1))
            },
            _ => first_plain(repos.skip(1)),
        }
    }
}

/// The setups of the repositories that speak the protocol of Packagist.
pub open spec fn custom_setups(
    repos: Seq<crate::repositories::RepositoryView>,
    secure: bool,
) -> Seq<(Seq<char>, bool)>
    decreases repos.len(),
{
    if repos.len() == 0 {
        Seq::empty()
    } else {
        let rest = custom_setups(repos.drop_last(), secure);
        match repos.last() {
            crate::repositories::RepositoryView::Composer(u) => rest.push(
                (base_url_of(u), secure),
            ),
            _ => rest,
        }
    }
}

/// One of the repositories is Packagist.
pub open spec fn names_packagist(repos: Seq<crate::repositories::RepositoryView>) -> bool {
    exists|i: int|
        0 <= i < repos.len() && (#[trigger] repos[i]
            matches crate::repositories::RepositoryView::Composer(u) && text::occurs(
            base_url_of(u),
            "packagist.org"@,
        ))
}

/// What is said of a repository that is not encrypted.
pub open spec fn plain_repository_text(u: Seq<char>) -> Seq<char> {
    "refusing insecure repository URL `"@ + u
        + "` (set config.secure-http=false to allow HTTP)"@
}

/// The repositories that are asked for packages, in this order: those of the
/// project, then Packagist unless it is switched off or already among them.
pub open spec fn setups_of(
    repos: Seq<crate::repositories::RepositoryView>,
    secure: bool,
    packagist: bool,
) -> Seq<(Seq<char>, bool)> {
    custom_setups(repos, secure) + if packagist && !names_packagist(repos) {
        seq![("https://repo.packagist.org"@, true)]
    } else {
        Seq::empty()
    }
}

/// The repositories that are asked for the packages of a project.
pub fn repository_setups(manifest: &ComposerJson) -> (r: Result<Vec<RepositorySetup>, Error>)
    ensures
        ({
            let repos = crate::repositories::repositories_of(json::opt_json(manifest.repositories));
            let secure = crate::manifest::wants_secure_http(json::opt_json(manifest.config));
            match first_plain(repos) {
                Some(u) if secure => r matches Err(Error::Other(t)) && t@
                    == plain_repository_text(u),
                _ => r is Ok && setup_views(r->Ok_0@) == setups_of(
                    repos,
                    secure,
                    crate::manifest::uses_packagist(json::opt_json(manifest.repositories)),
                ),
            }
        }),
{
    let repos = manifest.repositories_list();
    let ghost all = crate::repositories::repository_views(repos@);
    let secure = manifest.secure_http();
    let mut out: Vec<RepositorySetup> = Vec::new();
    let mut has_packagist = false;
    let n: usize = repos.len();
    let mut i: usize = 0;
    assert(all.skip(0) =~= all);
    assert(setup_views(out@) =~= Seq::empty());
    while i < n
        invariant
            i <= n,
            n == repos@.len(),
            all == crate::repositories::repository_views(repos@),
            all == crate::repositories::repositories_of(json::opt_json(manifest.repositories)),
            secure == crate::manifest::wants_secure_http(json::opt_json(manifest.config)),
            secure ==> first_plain(all) == first_plain(all.skip(i as int)),
            setup_views(out@) == custom_setups(all.take(i as int), secure),
            has_packagist == exists|k: int|
                0 <= k < i && (#[trigger] all[k]
                    matches crate::repositories::RepositoryView::Composer(u) && text::occurs(
                    base_url_of(u),
                    "packagist.org"@,
                )),
        decreases n - i,
    {
        proof {
            assert(all[i as int] == repos@[i as int]@);
            assert(all.skip(i as int)[0] == all[i as int]);
            assert(all.skip(i as int).skip(1) =~= all.skip(i + 1));
            assert(all.take(i + 1).drop_last() =~= all.take(i as int));
            assert(all.take(i + 1).last() == all[i as int]);
        }
        if let Repository::Composer { url } = &repos[i] {
            if secure && is_insecure_http(url.as_str()) {
                let mut m = text::cat("refusing insecure repository URL `", url.as_str());
                m.append("` (set config.secure-http=false to allow HTTP)");
                return Err(Error::Other(m));
            }
            let base = base_url(url.as_str());
            if text::contains(base.as_str(), "packagist.org") {
                has_packagist = true;
            }
            let ghost before = out@;
            out.push(RepositorySetup { base_url: base, secure_http: secure });
            assert(setup_views(out@) =~= setup_views(before).push((base@, secure)));
        }
        i += 1;
    }
    assert(all.take(n as int) =~= all);
    assert(has_packagist == names_packagist(all));
    let ghost custom = setup_views(out@);
    if manifest.packagist_enabled() && !has_packagist {
        out.push(
            RepositorySetup {
                base_url: String::from_str("https://repo.packagist.org"),
                secure_http: true,
            },
        );
        assert(setup_views(out@) =~= custom + seq![("https://repo.packagist.org"@, true)]);
    } else {
        assert(setup_views(out@) =~= custom + Seq::empty());
    }
    Ok(out)
}

/// What a repository answered.
#[derive(Debug, Clone, Copy, PartialEq, Eq, Structural)]
pub enum Answer {
    /// It has what was asked for.
    Found,
    /// It knows the package but has no version of it.
    Empty,
    /// It does not know the package.
    NotFound,
    /// It has versions, none of which matches.
    NoMatch,
    /// It could not be asked.
    Failed,
}

/// What is done after an answer.
#[derive(Debug, Clone, Copy, PartialEq, Eq, Structural)]
pub enum Next {
    /// The answer is taken.
    Take,
    /// The next repository is asked.
    Ask,
    /// The search ends with the repository's error.
    Fail,
}

/// What is done after the answer to a request for versions.
pub fn after_versions(answer: Answer) -> (r: Next)
    ensures
        r == match answer {
            Answer::Found => Next::Take,
            Answer::Empty | Answer::NotFound => Next::Ask,
            Answer::NoMatch | Answer::Failed => Next::Fail,
        },
{
    match answer {
        Answer::Found => Next::Take,
        Answer::Empty => Next::Ask,
        Answer::NotFound => Next::Ask,
        Answer::NoMatch => Next::Fail,
        Answer::Failed => Next::Fail,
    }
}

/// What is done after the answer to a request for the best version.
pub fn after_best(answer: Answer) -> (r: Next)
    ensures
        r == match answer {
            Answer::Found => Next::Take,
            Answer::Empty | Answer::NotFound | Answer::NoMatch => Next::Ask,
            Answer::Failed => Next::Fail,
        },
{
    match answer {
        Answer::Found => Next::Take,
        Answer::Empty => Next::Ask,
        Answer::NotFound => Next::Ask,
        Answer::NoMatch => Next::Ask,
        Answer::Failed => Next::Fail,
    }
}

/// What is done after the answer to a search: hits are taken, and so is an
/// empty answer unless an earlier repository failed.
pub fn after_search(answer: Answer, failed_before: bool) -> (r: Next)
    ensures
        r == match answer {
            Answer::Found => Next::Take,
            Answer::Failed => Next::Ask,
            _ => if failed_before {
                Next::Ask
            } else {
                Next::Take
            },
        },
{
    match answer {
        Answer::Found => Next::Take,
        Answer::Failed => Next::Ask,
        _ => if failed_before {
            Next::Ask
        } else {
            Next::Take
        },
    }
}

/// What is said where no repository has what was asked for.
pub fn nothing_found(name: &PackageId, constraint: &VersionConstraint, some_no_match: bool) -> (r:
    Error)
    ensures
        if some_no_match {
            r matches Error::NoMatchingVersion { package, constraint: c } && package@ == name@
                && c@ == constraint@
        } else {
            r matches Error::PackageNotFound(p) && p@ == name@
        },
{
    if some_no_match {
        Error::NoMatchingVersion {
            package: String::from_str(name.as_str()),
            constraint: String::from_str(constraint.as_str()),
        }
    } else {
        Error::PackageNotFound(String::from_str(name.as_str()))
    }
}

// ---------------------------------------------------------------------------
// Search results

/// A hit of a search.
#[derive(Debug)]
pub struct SearchResult {
    pub name: String,
    pub description: Option<String>,
    pub url: Option<String>,
    pub repository: Option<String>,
    pub downloads: Option<u64>,
    pub favers: Option<u64>,
}

/// What a hit consists of.
pub struct HitView {
    pub name: Seq<char>,
    pub description: Option<Seq<char>>,
    pub url: Option<Seq<char>>,
    pub repository: Option<Seq<char>>,
    pub downloads: Option<u64>,
    pub favers: Option<u64>,
}

impl View for SearchResult {
    type V = HitView;

    open spec fn view(&self) -> HitView {
        HitView {
            name: self.name@,
            description: text::opt_text(self.description),
            url: text::opt_text(self.url),
            repository: text::opt_text(self.repository),
            downloads: self.downloads,
            favers: self.favers,
        }
    }
}

/// An optional count.
pub open spec fn opt_count_of(v: Option<json::JsonView>) -> Option<Option<u64>> {
    match v {
        None => Some(None),
        Some(json::JsonView::Null) => Some(None),
        Some(json::JsonView::Number(t)) => match text::u64_of(t) {
            Some(n) => Some(Some(n)),
            None => None,
        },
        _ => None,
    }
}

/// The members of a hit.
pub open spec fn hit_names() -> Seq<Seq<char>> {
    seq!["name"@, "description"@, "url"@, "repository"@, "downloads"@, "favers"@]
}

/// The hit that a value describes.
pub open spec fn hit_json(j: json::JsonView) -> Option<HitView> {
    match crate::fields::whole_record_of(j, hit_names()) {
        Some(r) => hit_record(r),
        None => None,
    }
}

/// The hit that the members of a record describe.
pub open spec fn hit_record(j: json::JsonView) -> Option<HitView> {
    match (
        json::text_at(j, "name"@),
        crate::fields::opt_text_of(json::get_of(j, "description"@)),
        crate::fields::opt_text_of(json::get_of(j, "url"@)),
        crate::fields::opt_text_of(json::get_of(j, "repository"@)),
        opt_count_of(json::get_of(j, "downloads"@)),
        opt_count_of(json::get_of(j, "favers"@)),
    ) {
        (
            Some(name),
            Some(description),
            Some(url),
            Some(repository),
            Some(downloads),
            Some(favers),
        ) => Some(HitView { name, description, url, repository, downloads, favers }),
        _ => None,
    }
}

fn read_count(j: &Json, k: &str) -> (r: Option<Option<u64>>)
    ensures
        r == opt_count_of(json::get_of(j@, k@)),
{
    match j.get(k) {
        None => Some(None),
        Some(Json::Null) => Some(None),
        Some(Json::Number(t)) => match text::parse_u64(t.as_str()) {
            Some(n) => Some(Some(n)),
            None => None,
        },
        _ => None,
    }
}

impl SearchResult {
    /// The hit that a value describes.
    pub fn from_json(j: &Json) -> (r: Option<SearchResult>)
        ensures
            match r {
                Some(h) => hit_json(j@) == Some(h@),
                None => hit_json(j@) is None,
            },
    {
        let mut names: Vec<&str> = Vec::new();
        names.push("name");
        names.push("description");
        names.push("url");
        names.push("repository");
        names.push("downloads");
        names.push("favers");
        assert(text::views(names@) =~= hit_names());
        if j.is_array() {
            let record = crate::fields::whole_list_record(j, &names)?;
            SearchResult::from_record(&record)
        } else if crate::fields::is_object_of(j, &names) {
            SearchResult::from_record(j)
        } else {
            None
        }
    }

    fn from_record(j: &Json) -> (r: Option<SearchResult>)
        ensures
            match r {
                Some(h) => hit_record(j@) == Some(h@),
                None => hit_record(j@) is None,
            },
    {
        let name = crate::fields::read_text(j, "name")?;
        let description = crate::fields::read_opt_text(j, "description")?;
        let url = crate::fields::read_opt_text(j, "url")?;
        let repository = crate::fields::read_opt_text(j, "repository")?;
        let downloads = read_count(j, "downloads")?;
        let favers = read_count(j, "favers")?;
        Some(SearchResult { name, description, url, repository, downloads, favers })
    }
}

/// The hits of a list; nothing if one cannot be read.
pub open spec fn hits_of(a: Seq<json::JsonView>) -> Option<Seq<HitView>>
    decreases a.len(),
{
    if a.len() == 0 {
        Some(Seq::empty())
    } else {
        match (hits_of(a.drop_last()), hit_json(a.last())) {
            (Some(rest), Some(h)) => Some(rest.push(h)),
            _ => None,
        }
    }
}

proof fn lemma_hits_fail(a: Seq<json::JsonView>, i: int)
    requires
        0 <= i <= a.len(),
        hits_of(a.take(i)) is None,
    ensures
        hits_of(a) is None,
    decreases a.len() - i,
{
    if i < a.len() {
        assert(a.take(i + 1).drop_last() =~= a.take(i));
        lemma_hits_fail(a, i + 1);
    } else {
        assert(a.take(i) =~= a);
    }
}

/// What a list of hits consists of.
pub open spec fn hit_views(v: Seq<SearchResult>) -> Seq<HitView> {
    v.map_values(|h: SearchResult| h@)
}

/// The hits of an answer to a search.
pub open spec fn results_of(j: json::JsonView) -> Option<Seq<HitView>> {
    match crate::fields::record_of(j, seq!["results"@]) {
        Some(r) => results_record(r),
        None => None,
    }
}

/// The hits that the members of an answer hold.
pub open spec fn results_record(j: json::JsonView) -> Option<Seq<HitView>> {
    match json::get_of(j, "results"@) {
        Some(json::JsonView::Array(a)) => hits_of(a),
        _ => None,
    }
}

/// The hits of an answer to a search.
pub fn search_results(doc: &Json) -> (r: Option<Vec<SearchResult>>)
    ensures
        match r {
            Some(v) => results_of(doc@) == Some(hit_views(v@)),
            None => results_of(doc@) is None,
        },
{
    let mut names: Vec<&str> = Vec::new();
    names.push("results");
    assert(text::views(names@) =~= seq!["results"@]);
    if doc.is_array() {
        let record = crate::fields::list_record(doc, &names)?;
        record_results(&record)
    } else if crate::fields::is_object_of(doc, &names) {
        record_results(doc)
    } else {
        None
    }
}

fn record_results(doc: &Json) -> (r: Option<Vec<SearchResult>>)
    ensures
        match r {
            Some(v) => results_record(doc@) == Some(hit_views(v@)),
            None => results_record(doc@) is None,
        },
{
    match doc.get("results") {
        Some(Json::Array(a)) => {
            proof {
                json::lemma_array_view(*a);
            }
            let ghost all = json::elements(a@);
            let mut out: Vec<SearchResult> = Vec::new();
            assert(hit_views(out@) =~= Seq::empty());
            let n: usize = a.len();
            let mut i: usize = 0;
            while i < n
                invariant
                    i <= n,
                    n == a@.len(),
                    all == json::elements(a@),
                    json::get_of(doc@, "results"@) == Some(json::JsonView::Array(all)),
                    hits_of(all.take(i as int)) == Some(hit_views(out@)),
                decreases n - i,
            {
                proof {
                    assert(all.take(i + 1).drop_last() =~= all.take(i as int));
                    assert(all.take(i + 1).last() == a@[i as int]@);
                }
                match SearchResult::from_json(&a[i]) {
                    Some(h) => {
                        let ghost before = out@;
                        out.push(h);
                        assert(hit_views(out@) =~= hit_views(before).push(h@));
                    },
                    None => {
                        proof {
                            lemma_hits_fail(all, i + 1);
                        }
                        return None;
                    },
                }
                i += 1;
            }
            assert(all.take(n as int) =~= all);
            Some(out)
        },
        _ => None,
    }
}

// ---------------------------------------------------------------------------
// Laws

/// A version is asked for: the constraint allows it, and it is at least as stable
/// as asked, or the constraint speaks of development versions.
pub open spec fn is_asked_for(
    v: crate::version::VersionView,
    constraint: Seq<char>,
    min: Stability,
) -> bool {
    &&& constraint::satisfies(constraint, v)
    &&& !crate::releases::claims_less(v.stability, min) || text::occurs(constraint, "dev"@)
}

/// The best version is one that is asked for, and no other that is asked for lies
/// above it. Where stable versions are preferred it is stable if a stable one is
/// asked for, and then only stable ones are compared.
pub proof fn law_best_version(
    vs: Seq<RemoteView>,
    i: int,
    k: int,
    constraint: Seq<char>,
    prefer_stable: bool,
    min: Stability,
)
    requires
        is_best(vs, i, constraint, prefer_stable, min),
        0 <= k < vs.len(),
        is_asked_for(vs[k].version, constraint, min),
    ensures
        0 <= i < vs.len(),
        is_asked_for(vs[i].version, constraint, min),
        !prefer_stable ==> !crate::version::version_lt(vs[i].version, vs[k].version),
        prefer_stable && vs[k].version.stability == Stability::Stable ==> vs[i].version.stability
            == Stability::Stable && !crate::version::version_lt(vs[i].version, vs[k].version),
        prefer_stable && vs[i].version.stability != Stability::Stable
            ==> !crate::version::version_lt(vs[i].version, vs[k].version),
{
    crate::releases::law_ranks_rise(vs[k].version.stability, min);
    crate::releases::law_ranks_rise(vs[i].version.stability, min);
    assert(in_question(vs[k].version, constraint, min));
    if prefer_stable && any_stable(vs, constraint, min) {
        assert(vs[i].version.stability is Stable);
    }
    if !prefer_stable || !any_stable(vs, constraint, min) || vs[k].version.stability is Stable {
        assert(eligible(vs, k, constraint, prefer_stable, min));
    }
}

/// An address that begins with `http://`, in any case of its letters, is insecure;
/// one that begins with `https://` is not.
pub proof fn law_insecure_addresses(rest: Seq<char>)
    requires
        rest.len() > 0 ==> !text::is_space(rest.last()),
    ensures
        is_plain_http("http://"@ + rest),
        is_plain_http("HTTP://"@ + rest),
        !is_plain_http("https://"@ + rest),
        !is_plain_http("HTTPS://"@ + rest),
{
    reveal_strlit("http://");
    reveal_strlit("HTTP://");
    reveal_strlit("https://");
    reveal_strlit("HTTPS://");
    let a = "http://"@ + rest;
    let b = "HTTP://"@ + rest;
    let c = "https://"@ + rest;
    let d = "HTTPS://"@ + rest;
    assert(rest.len() > 0 ==> a.last() == rest.last() && b.last() == rest.last() && c.last()
        == rest.last() && d.last() == rest.last());
    text::lemma_trimmed_same(a);
    text::lemma_trimmed_same(b);
    text::lemma_trimmed_same(c);
    text::lemma_trimmed_same(d);
    assert(text::lower(a.take(7)) =~= "http://"@);
    assert(text::lower(b.take(7)) =~= "http://"@);
    assert(text::lower(c.take(7))[4] == 's');
    assert(text::lower(d.take(7))[4] == 's');
}

/// In a query letters, digits and `-_.~` stand for themselves, a space is written
/// `+`, and any other ASCII character as `%` with the two upper case hexadecimal
/// digits of its code. Texts are written one behind the other.
pub proof fn law_queries(c: char, a: Seq<char>, b: Seq<char>)
    requires
        (c as int) < 128,
    ensures
        ('a' <= c <= 'z' || 'A' <= c <= 'Z' || '0' <= c <= '9' || c == '-' || c == '_' || c == '.'
            || c == '~') ==> query_char(c) == seq![c],
        query_char(' ') == seq!['+'],
        !('a' <= c <= 'z' || 'A' <= c <= 'Z' || '0' <= c <= '9' || c == '-' || c == '_' || c == '.'
            || c == '~' || c == ' ') ==> ({
            let q = query_char(c);
            &&& q.len() == 3
            &&& q[0] == '%'
            &&& upper_number(q[1]) >= 0 && upper_number(q[2]) >= 0
            &&& 16 * upper_number(q[1]) + upper_number(q[2]) == c as int
        }),
        query_text(a + b) == query_text(a) + query_text(b),
        query_text(seq![c]) == query_char(c),
    decreases b.len(),
{
    assert(seq![c].drop_last() =~= Seq::<char>::empty());
    assert(query_text(Seq::<char>::empty()) =~= Seq::<char>::empty());
    assert(seq![c].last() == c);
    assert(query_text(seq![c]) =~= query_char(c));
    if b.len() == 0 {
        assert(a + b =~= a);
        assert(query_text(a) + query_text(b) =~= query_text(a));
    } else {
        law_queries(c, a, b.drop_last());
        assert((a + b).drop_last() =~= a + b.drop_last());
        assert((a + b).last() == b.last());
        assert(query_text(a + b) =~= query_text(a) + query_text(b));
    }
}

/// The number that an upper case hexadecimal digit stands for.
pub open spec fn upper_number(c: char) -> int {
    if '0' <= c <= '9' {
        c as int - '0' as int
    } else if 'A' <= c <= 'F' {
        c as int - 'A' as int + 10
    } else {
        -1
    }
}

/// The address of a repository is taken without the slashes at its end.
pub proof fn law_base_addresses(url: Seq<char>)
    ensures
        base_url_of(url + "/"@) == base_url_of(url),
        base_url_of(url).len() > 0 ==> base_url_of(url).last() != '/',
        url.len() == 0 || url.last() != '/' ==> base_url_of(url) == url,
    decreases url.len(),
{
    reveal_strlit("/");
    let s = url + "/"@;
    assert(s.skip(s.len() - 1) =~= "/"@);
    assert(s.take(s.len() - 1) =~= url);
    if url.len() > 0 {
        assert(url.skip(url.len() - 1)[0] == url.last());
        if url.last() == '/' {
            assert(url.skip(url.len() - 1) =~= "/"@);
            law_base_addresses(url.take(url.len() - 1));
        }
    }
}

proof fn lemma_custom_setups(repos: Seq<crate::repositories::RepositoryView>, secure: bool)
    ensures
        forall|i: int|
            0 <= i < repos.len() && (#[trigger] repos[i] is Composer) ==> custom_setups(
                repos,
                secure,
            ).contains((base_url_of(repos[i]->Composer_0), secure)),
        forall|k: int|
            0 <= k < custom_setups(repos, secure).len() ==> (#[trigger] custom_setups(
                repos,
                secure,
            )[k]).1 == secure && exists|i: int|
                0 <= i < repos.len() && (#[trigger] repos[i]
                    matches crate::repositories::RepositoryView::Composer(u) && base_url_of(u)
                    == custom_setups(repos, secure)[k].0),
    decreases repos.len(),
{
    if repos.len() > 0 {
        let front = repos.drop_last();
        lemma_custom_setups(front, secure);
        let rest = custom_setups(front, secure);
        let all = custom_setups(repos, secure);
        assert(repos[repos.len() - 1] == repos.last());
        assert forall|i: int| 0 <= i < repos.len() && (#[trigger] repos[i] is Composer) implies
            all.contains((base_url_of(repos[i]->Composer_0), secure)) by {
            let e = (base_url_of(repos[i]->Composer_0), secure);
            if i < front.len() {
                assert(front[i] == repos[i]);
                assert(rest.contains(e));
                let k = choose|k: int| 0 <= k < rest.len() && rest[k] == e;
                assert(all[k] == e);
            } else {
                assert(all[rest.len() as int] == e);
            }
        }
        assert forall|k: int| 0 <= k < all.len() implies (#[trigger] all[k]).1 == secure && exists|
            i: int,
        |
            0 <= i < repos.len() && (#[trigger] repos[i]
                matches crate::repositories::RepositoryView::Composer(u) && base_url_of(u)
                == all[k].0) by {
            if k < rest.len() {
                assert(all[k] == rest[k]);
                let i = choose|i: int|
                    0 <= i < front.len() && (#[trigger] front[i]
                        matches crate::repositories::RepositoryView::Composer(u) && base_url_of(u)
                        == rest[k].0);
                assert(repos[i] == front[i]);
            }
        }
    }
}

/// The Composer repositories that a project names are asked, with its setting on
/// insecure addresses, and no others but Packagist. Packagist is asked last, unless
/// it is switched off or named.
pub proof fn law_repositories_are_asked(
    repos: Seq<crate::repositories::RepositoryView>,
    secure: bool,
    packagist: bool,
)
    ensures
        forall|i: int|
            0 <= i < repos.len() && (#[trigger] repos[i] is Composer) ==> setups_of(
                repos,
                secure,
                packagist,
            ).contains((base_url_of(repos[i]->Composer_0), secure)),
        packagist && no_packagist(repos) ==> setups_of(repos, secure, packagist).len() > 0
            && setups_of(repos, secure, packagist).last() == ("https://repo.packagist.org"@, true),
        !packagist || !no_packagist(repos) ==> setups_of(repos, secure, packagist)
            == custom_setups(repos, secure),
        forall|k: int|
            0 <= k < custom_setups(repos, secure).len() ==> (#[trigger] custom_setups(
                repos,
                secure,
            )[k]).1 == secure && exists|i: int|
                0 <= i < repos.len() && (#[trigger] repos[i]
                    matches crate::repositories::RepositoryView::Composer(u) && base_url_of(u)
                    == custom_setups(repos, secure)[k].0),
{
    lemma_custom_setups(repos, secure);
    let own = custom_setups(repos, secure);
    let all = setups_of(repos, secure, packagist);
    assert forall|i: int| 0 <= i < repos.len() && (#[trigger] repos[i] is Composer) implies
        all.contains((base_url_of(repos[i]->Composer_0), secure)) by {
        let e = (base_url_of(repos[i]->Composer_0), secure);
        assert(own.contains(e));
        let k = choose|k: int| 0 <= k < own.len() && own[k] == e;
        assert(all[k] == e);
    }
    if names_packagist(repos) {
        let i = choose|i: int|
            0 <= i < repos.len() && (#[trigger] repos[i]
                matches crate::repositories::RepositoryView::Composer(u) && text::occurs(
                base_url_of(u),
                "packagist.org"@,
            ));
        assert(repos[i] is Composer);
        assert(!no_packagist(repos));
    } else {
        assert forall|i: int| 0 <= i < repos.len() && (#[trigger] repos[i] is Composer) implies
            !text::occurs(base_url_of(repos[i]->Composer_0), "packagist.org"@) by {
            assert(repos[i] matches crate::repositories::RepositoryView::Composer(u));
        }
        assert(no_packagist(repos));
    }
    if !packagist || !no_packagist(repos) {
        assert(all =~= own);
    }
}

/// No repository of the project is Packagist.
pub open spec fn no_packagist(repos: Seq<crate::repositories::RepositoryView>) -> bool {
    forall|i: int|
        0 <= i < repos.len() && (#[trigger] repos[i] is Composer) ==> !text::occurs(
            base_url_of(repos[i]->Composer_0),
            "packagist.org"@,
        )
}

/// A project with a repository at an insecure address is refused if and only if
/// it has one.
pub proof fn law_first_insecure(repos: Seq<crate::repositories::RepositoryView>)
    ensures
        first_plain(repos) is Some <==> exists|i: int|
            0 <= i < repos.len() && (#[trigger] repos[i]
                matches crate::repositories::RepositoryView::Composer(u) && is_plain_http(u)),
    decreases repos.len(),
{
    if repos.len() > 0 {
        let rest = repos.skip(1);
        law_first_insecure(rest);
        if exists|i: int|
            0 <= i < rest.len() && (#[trigger] rest[i]
                matches crate::repositories::RepositoryView::Composer(u) && is_plain_http(u)) {
            let i = choose|i: int|
                0 <= i < rest.len() && (#[trigger] rest[i]
                    matches crate::repositories::RepositoryView::Composer(u) && is_plain_http(u));
            assert(repos[i + 1] == rest[i]);
        }
        if exists|i: int|
            0 <= i < repos.len() && (#[trigger] repos[i]
                matches crate::repositories::RepositoryView::Composer(u) && is_plain_http(u)) {
            let i = choose|i: int|
                0 <= i < repos.len() && (#[trigger] repos[i]
                    matches crate::repositories::RepositoryView::Composer(u) && is_plain_http(u));
            if i > 0 {
                assert(rest[i - 1] == repos[i]);
            }
        }
    }
}

/// A package is locked as the repository offers it.
pub proof fn law_locked_as_offered(r: RemoteView)
    ensures
        ({
            let l = as_locked(r);
            &&& l.name == r.name
            &&& l.version == r.version.raw
            &&& l.dist == r.dist
            &&& l.source == r.source
            &&& l.require == r.require
            &&& l.require_dev == r.require_dev
            &&& l.replace == r.replace
            &&& l.provide == r.provide
            &&& l.conflict == r.conflict
            &&& l.autoload == r.autoload
            &&& l.autoload_dev == r.autoload_dev
            &&& l.package_type == r.package_type
            &&& l.bin == r.bin
            &&& l.description == r.description
            &&& l.time == r.time
            &&& l.abandoned == r.abandoned
            &&& l.license.len() == r.license.len()
            &&& forall|i: int|
                0 <= i < r.license.len() ==> #[trigger] l.license[i] == lock::LicenseView::One(
                    r.license[i],
                )
        }),
{
}

proof fn lemma_scalar_lookup(m: Seq<(Seq<char>, json::JsonView)>, i: int)
    requires
        0 <= i < m.len(),
        forall|j: int| 0 <= j < m.len() && j != i ==> (#[trigger] m[j]).0 != m[i].0,
    ensures
        collections::lookup(scalar_members(m), m[i].0) == scalar_text(m[i].1),
    decreases m.len(),
{
    let front = m.drop_last();
    assert(m[m.len() - 1] == m.last());
    if let Some(s) = scalar_text(m.last().1) {
        collections::law_lookup_inserted(scalar_members(front), m.last().0, s, m[i].0);
    }
    if i < front.len() {
        assert forall|j: int| 0 <= j < front.len() && j != i implies (#[trigger] front[j]).0
            != front[i].0 by {
            assert(m[j].0 != m[i].0);
        }
        lemma_scalar_lookup(front, i);
    } else {
        assert forall|j: int| 0 <= j < front.len() implies (#[trigger] front[j]).0 != m[i].0 by {
            assert(m[j].0 != m[i].0);
        }
        lemma_scalar_none(front, m[i].0);
    }
}

proof fn lemma_scalar_none(m: Seq<(Seq<char>, json::JsonView)>, k: Seq<char>)
    requires
        forall|j: int| 0 <= j < m.len() ==> (#[trigger] m[j]).0 != k,
    ensures
        collections::lookup(scalar_members(m), k) is None,
    decreases m.len(),
{
    if m.len() > 0 {
        let front = m.drop_last();
        assert(m[m.len() - 1] == m.last());
        assert forall|j: int| 0 <= j < front.len() implies (#[trigger] front[j]).0 != k by {
            assert(m[j].0 != k);
        }
        lemma_scalar_none(front, k);
        if let Some(s) = scalar_text(m.last().1) {
            collections::law_lookup_inserted(scalar_members(front), m.last().0, s, k);
        }
    }
}

/// A member of an object that no other member has the name of.
pub open spec fn sole_member(
    j: json::JsonView,
    section: Seq<char>,
    k: Seq<char>,
    s: Seq<char>,
) -> bool {
    json::get_of(j, section) matches Some(json::JsonView::Object(m)) && exists|i: int|
        0 <= i < m.len() && #[trigger] m[i] == (k, json::JsonView::Str(s)) && forall|q: int|
            0 <= q < m.len() && q != i ==> (#[trigger] m[q]).0 != k
}

proof fn lemma_sole(j: json::JsonView, section: Seq<char>, k: Seq<char>, s: Seq<char>)
    requires
        sole_member(j, section, k, s),
        s != "__unset"@,
    ensures
        collections::lookup(opt_scalar_map(json::get_of(j, section)), k) == Some(s),
{
    let m = json::get_of(j, section)->0->Object_0;
    let i = choose|i: int|
        0 <= i < m.len() && #[trigger] m[i] == (k, json::JsonView::Str(s)) && forall|q: int|
            0 <= q < m.len() && q != i ==> (#[trigger] m[q]).0 != k;
    lemma_scalar_lookup(m, i);
}

/// What metadata says of a version is read from the members of these names: its
/// links from `require`, `require-dev`, `replace`, `provide` and `conflict`, its
/// archive and its checkout from `dist` and `source`, and the rest from members of
/// their names. Metadata without a readable version is no version.
pub proof fn law_metadata_is_read(
    package: Seq<char>,
    j: json::JsonView,
    raw: Seq<char>,
    k: Seq<char>,
    s: Seq<char>,
)
    requires
        json::get_of(j, "version"@) == Some(json::JsonView::Str(raw)),
        raw != "__unset"@,
        s != "__unset"@,
    ensures
        p2_version(package, j) is Some == (crate::version::parsed(raw) is Some),
        p2_version(package, j) matches Some(v) ==> {
            &&& v.name == package
            &&& crate::version::parsed(raw) == Some(v.version)
            &&& sole_member(j, "require"@, k, s) ==> collections::lookup(v.require, k) == Some(s)
            &&& sole_member(j, "require-dev"@, k, s) ==> collections::lookup(v.require_dev, k)
                == Some(s)
            &&& sole_member(j, "replace"@, k, s) ==> collections::lookup(v.replace, k) == Some(s)
            &&& sole_member(j, "provide"@, k, s) ==> collections::lookup(v.provide, k) == Some(s)
            &&& sole_member(j, "conflict"@, k, s) ==> collections::lookup(v.conflict, k) == Some(s)
            &&& json::get_of(j, "type"@) == Some(json::JsonView::Str(s)) ==> v.package_type == Some(
                s,
            )
            &&& json::get_of(j, "description"@) == Some(json::JsonView::Str(s)) ==> v.description
                == Some(s)
            &&& json::get_of(j, "time"@) == Some(json::JsonView::Str(s)) ==> v.time == Some(s)
            &&& json::get_of(j, "abandoned"@) == v.abandoned
            &&& (json::get_of(j, "dist"@) matches Some(d) && json::get_of(d, "type"@) == Some(
                json::JsonView::Str(s),
            ) && json::get_of(d, "url"@) == Some(json::JsonView::Str(k)) && k != "__unset"@) ==> (
            v.dist matches Some(x) && x.dist_type == s && x.url == k)
            &&& (json::get_of(j, "source"@) matches Some(d) && json::get_of(d, "type"@) == Some(
                json::JsonView::Str(s),
            ) && json::get_of(d, "url"@) == Some(json::JsonView::Str(k)) && k != "__unset"@) ==> (
            v.source matches Some(x) && x.source_type == s && x.url == k)
        },
{
    if sole_member(j, "require"@, k, s) {
        lemma_sole(j, "require"@, k, s);
    }
    if sole_member(j, "require-dev"@, k, s) {
        lemma_sole(j, "require-dev"@, k, s);
    }
    if sole_member(j, "replace"@, k, s) {
        lemma_sole(j, "replace"@, k, s);
    }
    if sole_member(j, "provide"@, k, s) {
        lemma_sole(j, "provide"@, k, s);
    }
    if sole_member(j, "conflict"@, k, s) {
        lemma_sole(j, "conflict"@, k, s);
    }
}

/// Metadata gives the versions that it lists for the package, all that can be read
/// and in its order.
pub proof fn law_metadata_lists_versions(package: Seq<char>, a: Seq<json::JsonView>, i: int)
    requires
        0 <= i < a.len(),
    ensures
        p2_version(package, a[i]) matches Some(v) ==> p2_versions(package, a).contains(v),
        p2_versions(package, a).len() <= a.len(),
        forall|k: int|
            0 <= k < p2_versions(package, a).len() ==> exists|j: int|
                0 <= j < a.len() && p2_version(package, #[trigger] a[j]) == Some(
                    #[trigger] p2_versions(package, a)[k],
                ),
    decreases a.len(),
{
    let front = a.drop_last();
    let rest = p2_versions(package, front);
    let all = p2_versions(package, a);
    assert(a[a.len() - 1] == a.last());
    if front.len() > 0 {
        let at = if i < front.len() {
            i
        } else {
            0
        };
        law_metadata_lists_versions(package, front, at);
    }
    if i < front.len() {
        assert(front[i] == a[i]);
        if let Some(v) = p2_version(package, a[i]) {
            let k = choose|k: int| 0 <= k < rest.len() && rest[k] == v;
            assert(all[k] == v);
        }
    } else if let Some(v) = p2_version(package, a[i]) {
        assert(all[rest.len() as int] == v);
    }
    assert forall|k: int| 0 <= k < all.len() implies exists|j: int|
        0 <= j < a.len() && p2_version(package, #[trigger] a[j]) == Some(#[trigger] all[k]) by {
        if k < rest.len() {
            assert(all[k] == rest[k]);
            let j = choose|j: int|
                0 <= j < front.len() && p2_version(package, #[trigger] front[j]) == Some(rest[k]);
            assert(a[j] == front[j]);
        } else {
            assert(p2_version(package, a[a.len() - 1]) == Some(all[k]));
        }
    }
}

/// What is found is read from the members of these names.
pub proof fn law_hits_are_read(j: json::JsonView, h: HitView)
    requires
        j is Object,
        hit_json(j) == Some(h),
    ensures
        json::get_of(j, "name"@) == Some(json::JsonView::Str(h.name)),
        crate::fields::reads_text(json::get_of(j, "description"@), h.description),
        crate::fields::reads_text(json::get_of(j, "url"@), h.url),
        crate::fields::reads_text(json::get_of(j, "repository"@), h.repository),
        h.downloads matches Some(n) ==> (json::get_of(j, "downloads"@) matches Some(
            json::JsonView::Number(t),
        ) && text::u64_of(t) == Some(n)),
        h.favers matches Some(n) ==> (json::get_of(j, "favers"@) matches Some(
            json::JsonView::Number(t),
        ) && text::u64_of(t) == Some(n)),
        json::get_of(j, "downloads"@) is Some && json::get_of(j, "downloads"@)->0 !is Null
            ==> h.downloads is Some,
        json::get_of(j, "favers"@) is Some && json::get_of(j, "favers"@)->0 !is Null ==> h.favers
            is Some,
{
    crate::fields::law_members_are_read(json::get_of(j, "description"@));
    crate::fields::law_members_are_read(json::get_of(j, "url"@));
    crate::fields::law_members_are_read(json::get_of(j, "repository"@));
}

/// All results are read, one for one.
pub proof fn law_all_hits_are_read(a: Seq<json::JsonView>)
    ensures
        hits_of(a) matches Some(h) ==> h.len() == a.len() && forall|i: int|
            0 <= i < a.len() ==> hit_json(#[trigger] a[i]) == Some(h[i]),
    decreases a.len(),
{
    if a.len() > 0 {
        let front = a.drop_last();
        law_all_hits_are_read(front);
        if let Some(h) = hits_of(a) {
            let rest = hits_of(front)->0;
            assert forall|i: int| 0 <= i < a.len() implies hit_json(#[trigger] a[i]) == Some(
                h[i],
            ) by {
                if i < front.len() {
                    assert(front[i] == a[i]);
                    assert(h[i] == rest[i]);
                }
            }
        }
    }
}

} // verus!
