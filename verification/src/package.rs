//! Package names and autoload metadata.

use crate::collections;
use crate::collections::StrMap;
use crate::error::Error;
use crate::fields;
use crate::json;
use crate::json::Json;
use crate::text;
use vstd::prelude::*;

verus! {

/// The name of a package: `vendor/name`, or the name of a platform package.
#[derive(Debug, Clone, PartialEq, Eq, PartialOrd, Ord, Hash)]
pub struct PackageId(String);

impl View for PackageId {
    type V = Seq<char>;

    closed spec fn view(&self) -> Seq<char> {
        self.0@
    }
}

/// A text that, without white space at its ends, names a package: it is not
/// empty, and where it has a slash something stands before and behind it.
pub open spec fn is_package_name(s: Seq<char>) -> bool {
    let t = text::trimmed(s);
    match text::parted(t, "/"@) {
        Some((vendor, name)) => vendor.len() > 0 && name.len() > 0,
        None => t.len() > 0,
    }
}

/// A name without a slash is that of a platform package (`php`, `ext-json`).
pub open spec fn is_platform_name(s: Seq<char>) -> bool {
    text::find(s, "/"@) is None
}

/// A text that names a platform package.
pub open spec fn names_platform(s: Seq<char>) -> bool {
    is_package_name(s) && is_platform_name(text::trimmed(s))
}

/// A text that names a package other than a platform package.
pub open spec fn names_package(s: Seq<char>) -> bool {
    is_package_name(s) && !is_platform_name(text::trimmed(s))
}

impl PackageId {
    /// The package `name` of `vendor`.
    pub fn new(vendor: &str, name: &str) -> (r: Self)
        ensures
            r@ == vendor@ + "/"@ + name@,
    {
        PackageId(text::cat3(vendor, "/", name))
    }

    /// The package that a text names.
    pub fn parse(s: &str) -> (r: Result<Self, Error>)
        ensures
            r is Ok <==> is_package_name(s@),
            r matches Ok(id) ==> id@ == text::trimmed(s@),
            r matches Err(e) ==> (e matches Error::InvalidPackageName(t) && t@ == text::trimmed(
                s@,
            )),
    {
        let t = text::trim(s);
        match text::split_once(t, "/") {
            None => {
                if t.is_empty() {
                    return Err(Error::InvalidPackageName(String::from_str(t)));
                }
            },
            Some((vendor, name)) => {
                if vendor.is_empty() || name.is_empty() {
                    return Err(Error::InvalidPackageName(String::from_str(t)));
                }
            },
        }
        Ok(PackageId(String::from_str(t)))
    }

    /// The text of the name.
    pub fn as_str(&self) -> (r: &str)
        ensures
            r@ == self@,
    {
        self.0.as_str()
    }

    /// What stands before the slash; the whole name where there is none.
    pub fn vendor(&self) -> (r: &str)
        ensures
            r@ == match text::parted(self@, "/"@) {
                Some((v, _)) => v,
                None => self@,
            },
    {
        match text::split_once(self.0.as_str(), "/") {
            Some((v, _)) => v,
            None => self.0.as_str(),
        }
    }

    /// What stands behind the slash; the whole name where there is none.
    pub fn name(&self) -> (r: &str)
        ensures
            r@ == match text::parted(self@, "/"@) {
                Some((_, n)) => n,
                None => self@,
            },
    {
        match text::split_once(self.0.as_str(), "/") {
            Some((_, n)) => n,
            None => self.0.as_str(),
        }
    }

    /// Whether this is a platform package.
    pub fn is_platform(&self) -> (r: bool)
        ensures
            r == is_platform_name(self@),
    {
        text::find_in(self.0.as_str(), "/").is_none()
    }

    /// The path below the vendor directory.
    pub fn install_path(&self) -> (r: String)
        ensures
            r@ == self@,
    {
        self.0.clone()
    }
}

/// Whether a text names a platform package.
pub fn is_platform_req(s: &str) -> (r: bool)
    ensures
        r == names_platform(s@),
{
    match PackageId::parse(s) {
        Ok(id) => id.is_platform(),
        Err(_) => false,
    }
}

/// Whether a text names a package other than a platform package.
pub fn is_package_req(s: &str) -> (r: bool)
    ensures
        r == names_package(s@),
{
    match PackageId::parse(s) {
        Ok(id) => !id.is_platform(),
        Err(_) => false,
    }
}

/// The vendor and the name of a package make up the package.
pub proof fn law_vendor_and_name(s: Seq<char>)
    requires
        names_package(s),
    ensures
        text::parted(text::trimmed(s), "/"@) matches Some((v, n)) && text::trimmed(s) == v + "/"@
            + n,
{
    let t = text::trimmed(s);
    text::lemma_find(t, "/"@);
    let i = text::find(t, "/"@)->0;
    assert(t =~= t.take(i) + t.subrange(i, i + "/"@.len() as int) + t.skip(i + "/"@.len()));
}

/// The kind of a package.
#[derive(Debug, Clone, Copy, PartialEq, Eq, Structural)]
pub enum PackageType {
    Library,
    Project,
    Metapackage,
    ComposerPlugin,
    Other,
}

impl Default for PackageType {
    fn default() -> (r: Self)
        ensures
            r == PackageType::Library,
    {
        PackageType::Library
    }
}

/// A path or a list of paths.
#[derive(Debug, Clone, PartialEq, Eq)]
pub enum PathOrPaths {
    One(String),
    Many(Vec<String>),
}

/// The paths of a `PathOrPaths`.
pub open spec fn paths_of(p: PathOrPaths) -> Seq<Seq<char>> {
    match p {
        PathOrPaths::One(s) => seq![s@],
        PathOrPaths::Many(v) => text::texts(v@),
    }
}

/// What a `PathOrPaths` consists of.
pub enum PathsView {
    One(Seq<char>),
    Many(Seq<Seq<char>>),
}

impl View for PathOrPaths {
    type V = PathsView;

    open spec fn view(&self) -> PathsView {
        match self {
            PathOrPaths::One(s) => PathsView::One(s@),
            PathOrPaths::Many(v) => PathsView::Many(text::texts(v@)),
        }
    }
}

/// The path or paths that a value stands for.
pub open spec fn paths_json(j: json::JsonView) -> Option<PathsView> {
    match j {
        json::JsonView::Str(s) => Some(PathsView::One(s)),
        json::JsonView::Array(a) => match fields::texts_of(a) {
            Some(t) => Some(PathsView::Many(t)),
            None => None,
        },
        _ => None,
    }
}

impl PathOrPaths {
    /// The path or paths that a value stands for.
    pub fn from_json(j: &Json) -> (r: Option<PathOrPaths>)
        ensures
            match r {
                Some(p) => paths_json(j@) == Some(p@),
                None => paths_json(j@) is None,
            },
    {
        match j {
            Json::Str(s) => Some(PathOrPaths::One(s.clone())),
            Json::Array(a) => {
                proof {
                    json::lemma_array_view(*a);
                }
                match fields::list_texts(a) {
                    Some(v) => Some(PathOrPaths::Many(v)),
                    None => None,
                }
            },
            _ => None,
        }
    }

    /// The path or paths as a value.
    pub fn to_json(&self) -> (r: Json)
        ensures
            r@ == match self@ {
                PathsView::One(s) => json::JsonView::Str(s),
                PathsView::Many(t) => json::JsonView::Array(fields::text_values(t)),
            },
    {
        match self {
            PathOrPaths::One(s) => Json::Str(s.clone()),
            PathOrPaths::Many(v) => fields::list_json(v),
        }
    }

    /// A copy.
    pub fn copy(&self) -> (r: PathOrPaths)
        ensures
            r@ == self@,
    {
        match self {
            PathOrPaths::One(s) => PathOrPaths::One(s.clone()),
            PathOrPaths::Many(v) => PathOrPaths::Many(collections::copy_texts(v)),
        }
    }
}

impl PathOrPaths {
    /// The paths.
    pub fn paths(&self) -> (r: Vec<&str>)
        ensures
            text::views(r@) == paths_of(*self),
    {
        let mut out: Vec<&str> = Vec::new();
        match self {
            PathOrPaths::One(s) => {
                out.push(s.as_str());
            },
            PathOrPaths::Many(v) => {
                let n: usize = v.len();
                let mut i: usize = 0;
                while i < n
                    invariant
                        i <= n,
                        n == v@.len(),
                        text::views(out@) == text::texts(v@).take(i as int),
                    decreases n - i,
                {
                    let ghost before = out@;
                    out.push(v[i].as_str());
                    assert(text::views(out@) =~= text::views(before).push(v@[i as int]@));
                    assert(text::texts(v@).take(i + 1) =~= text::texts(v@).take(i as int).push(
                        v@[i as int]@,
                    ));
                    i += 1;
                }
                assert(text::texts(v@).take(n as int) =~= text::texts(v@));
            },
        }
        assert(text::views(out@) =~= paths_of(*self));
        out
    }
}

/// Where the classes and files of a package are found.
#[derive(Debug, Clone)]
pub struct AutoloadConfig {
    pub psr4: StrMap<PathOrPaths>,
    pub psr0: StrMap<PathOrPaths>,
    pub classmap: Vec<String>,
    pub files: Vec<String>,
    pub exclude_from_classmap: Vec<String>,
}

/// What an autoload configuration consists of.
pub struct AutoloadView {
    pub psr4: Seq<(Seq<char>, PathsView)>,
    pub psr0: Seq<(Seq<char>, PathsView)>,
    pub classmap: Seq<Seq<char>>,
    pub files: Seq<Seq<char>>,
    pub exclude_from_classmap: Seq<Seq<char>>,
}

/// The paths of a map, as what they consist of.
pub open spec fn path_pairs(m: StrMap<PathOrPaths>) -> Seq<(Seq<char>, PathsView)> {
    collections::with_values(m@, |p: PathOrPaths| p@)
}

impl View for AutoloadConfig {
    type V = AutoloadView;

    open spec fn view(&self) -> AutoloadView {
        AutoloadView {
            psr4: path_pairs(self.psr4),
            psr0: path_pairs(self.psr0),
            classmap: text::texts(self.classmap@),
            files: text::texts(self.files@),
            exclude_from_classmap: text::texts(self.exclude_from_classmap@),
        }
    }
}

/// The empty autoload configuration.
pub open spec fn empty_autoload() -> AutoloadView {
    AutoloadView {
        psr4: Seq::empty(),
        psr0: Seq::empty(),
        classmap: Seq::empty(),
        files: Seq::empty(),
        exclude_from_classmap: Seq::empty(),
    }
}

/// What an optional autoload configuration consists of.
pub open spec fn opt_autoload(a: Option<AutoloadConfig>) -> Option<AutoloadView> {
    match a {
        Some(c) => Some(c@),
        None => None,
    }
}

impl Default for AutoloadConfig {
    fn default() -> (r: Self)
        ensures
            r@ == empty_autoload(),
    {
        let r = AutoloadConfig {
            psr4: StrMap::new(),
            psr0: StrMap::new(),
            classmap: Vec::new(),
            files: Vec::new(),
            exclude_from_classmap: Vec::new(),
        };
        assert(r@.psr4 =~= Seq::empty());
        assert(r@.psr0 =~= Seq::empty());
        assert(r@.classmap =~= Seq::empty());
        assert(r@.files =~= Seq::empty());
        assert(r@.exclude_from_classmap =~= Seq::empty());
        r
    }
}

/// The paths under each namespace of an object; nothing if one has the wrong
/// type.
pub open spec fn namespaces_of(m: Seq<(Seq<char>, json::JsonView)>) -> Option<
    Seq<(Seq<char>, PathsView)>,
>
    decreases m.len(),
{
    if m.len() == 0 {
        Some(Seq::empty())
    } else {
        match (namespaces_of(m.drop_last()), paths_json(m.last().1)) {
            (Some(rest), Some(p)) => Some(collections::inserted(rest, m.last().0, p)),
            _ => None,
        }
    }
}

/// The namespaces of a member; missing stands for none.
pub open spec fn namespace_map_of(v: Option<json::JsonView>) -> Option<
    Seq<(Seq<char>, PathsView)>,
> {
    match v {
        None => Some(Seq::empty()),
        Some(json::JsonView::Object(m)) => namespaces_of(m),
        _ => None,
    }
}

/// A list of paths, for which a single path may stand.
pub open spec fn loose_list_of(v: Option<json::JsonView>) -> Option<Seq<Seq<char>>> {
    match v {
        Some(json::JsonView::Str(s)) => Some(seq![s]),
        other => fields::text_list_of(other),
    }
}

/// The members of an autoload configuration.
pub open spec fn autoload_names() -> Seq<Seq<char>> {
    seq!["psr-4"@, "psr-0"@, "classmap"@, "files"@, "exclude_from_classmap"@]
}

/// The autoload configuration that the members of a record stand for. A single
/// path may stand for the class map if `loose`.
pub open spec fn autoload_record(j: json::JsonView, loose: bool) -> Option<AutoloadView> {
    match (
        namespace_map_of(json::get_of(j, "psr-4"@)),
        namespace_map_of(json::get_of(j, "psr-0"@)),
        if loose {
            loose_list_of(json::get_of(j, "classmap"@))
        } else {
            fields::text_list_of(json::get_of(j, "classmap"@))
        },
        fields::text_list_of(json::get_of(j, "files"@)),
        fields::text_list_of(json::get_of(j, "exclude_from_classmap"@)),
    ) {
        (Some(psr4), Some(psr0), Some(classmap), Some(files), Some(exclude)) => Some(
            AutoloadView { psr4, psr0, classmap, files, exclude_from_classmap: exclude },
        ),
        _ => None,
    }
}

/// The autoload configuration that a value stands for.
pub open spec fn autoload_json(j: json::JsonView) -> Option<AutoloadView> {
    match fields::record_of(j, autoload_names()) {
        Some(r) => autoload_record(r, false),
        None => None,
    }
}

/// The autoload configuration that a value in the metadata of a repository stands
/// for: a single path may stand for the class map.
pub open spec fn metadata_autoload(j: json::JsonView) -> Option<AutoloadView> {
    match fields::record_of(j, autoload_names()) {
        Some(r) => autoload_record(r, j is Object),
        None => None,
    }
}

proof fn lemma_namespaces_fail(m: Seq<(Seq<char>, json::JsonView)>, i: int)
    requires
        0 <= i <= m.len(),
        namespaces_of(m.take(i)) is None,
    ensures
        namespaces_of(m) is None,
    decreases m.len() - i,
{
    if i < m.len() {
        assert(m.take(i + 1).drop_last() =~= m.take(i));
        lemma_namespaces_fail(m, i + 1);
    } else {
        assert(m.take(i) =~= m);
    }
}

fn read_namespaces(j: &Json, k: &str) -> (r: Option<StrMap<PathOrPaths>>)
    ensures
        match r {
            Some(m) => namespace_map_of(json::get_of(j@, k@)) == Some(path_pairs(m)),
            None => namespace_map_of(json::get_of(j@, k@)) is None,
        },
{
    let mut out: StrMap<PathOrPaths> = StrMap::new();
    assert(path_pairs(out) =~= Seq::empty());
    match j.get(k) {
        None => Some(out),
        Some(Json::Object(m)) => {
            proof {
                json::lemma_object_view(*m);
            }
            let ghost all = json::members(m@);
            let n: usize = m.len();
            let mut i: usize = 0;
            while i < n
                invariant
                    i <= n,
                    n == m@.len(),
                    all == json::members(m@),
                    json::get_of(j@, k@) == Some(json::JsonView::Object(all)),
                    namespaces_of(all.take(i as int)) == Some(path_pairs(out)),
                decreases n - i,
            {
                proof {
                    assert(all.take(i + 1).drop_last() =~= all.take(i as int));
                    assert(all.take(i + 1).last() == (m@[i as int].0@, m@[i as int].1@));
                }
                match PathOrPaths::from_json(&m[i].1) {
                    Some(p) => {
                        proof {
                            collections::lemma_with_values(
                                out@,
                                m@[i as int].0@,
                                p,
                                |p: PathOrPaths| p@,
                            );
                        }
                        out.insert(m[i].0.clone(), p);
                    },
                    None => {
                        proof {
                            lemma_namespaces_fail(all, i + 1);
                        }
                        return None;
                    },
                }
                i += 1;
            }
            assert(all.take(n as int) =~= all);
            Some(out)
        },
        _ => None,
    }
}

fn read_loose_list(j: &Json, k: &str) -> (r: Option<Vec<String>>)
    ensures
        match r {
            Some(v) => loose_list_of(json::get_of(j@, k@)) == Some(text::texts(v@)),
            None => loose_list_of(json::get_of(j@, k@)) is None,
        },
{
    if let Some(Json::Str(s)) = j.get(k) {
        let mut one: Vec<String> = Vec::new();
        one.push(s.clone());
        assert(text::texts(one@) =~= seq![s@]);
        return Some(one);
    }
    fields::read_text_list(j, k)
}

fn copy_namespaces(m: &StrMap<PathOrPaths>) -> (r: StrMap<PathOrPaths>)
    ensures
        path_pairs(r) == path_pairs(*m),
{
    let n: usize = m.entries.len();
    let mut out: Vec<(String, PathOrPaths)> = Vec::new();
    let mut i: usize = 0;
    while i < n
        invariant
            i <= n,
            n == m.entries@.len(),
            out@.len() == i,
            forall|j: int|
                0 <= j < i ==> (#[trigger] out@[j]).0@ == m.entries@[j].0@ && out@[j].1@
                    == m.entries@[j].1@,
        decreases n - i,
    {
        out.push((m.entries[i].0.clone(), m.entries[i].1.copy()));
        i += 1;
    }
    let r = StrMap { entries: out };
    assert(path_pairs(r) =~= path_pairs(*m));
    r
}

fn autoload_name_list() -> (r: Vec<&'static str>)
    ensures
        text::views(r@) == autoload_names(),
{
    let mut r: Vec<&'static str> = Vec::new();
    r.push("psr-4");
    r.push("psr-0");
    r.push("classmap");
    r.push("files");
    r.push("exclude_from_classmap");
    assert(text::views(r@) =~= autoload_names());
    r
}

fn read_autoload_record(j: &Json, loose: bool) -> (r: Option<AutoloadConfig>)
    ensures
        match r {
            Some(a) => autoload_record(j@, loose) == Some(a@),
            None => autoload_record(j@, loose) is None,
        },
{
    let psr4 = read_namespaces(j, "psr-4");
    let psr0 = read_namespaces(j, "psr-0");
    let classmap = if loose {
        read_loose_list(j, "classmap")
    } else {
        fields::read_text_list(j, "classmap")
    };
    let files = fields::read_text_list(j, "files");
    let exclude = fields::read_text_list(j, "exclude_from_classmap");
    match (psr4, psr0, classmap, files, exclude) {
        (Some(psr4), Some(psr0), Some(classmap), Some(files), Some(exclude)) => Some(
            AutoloadConfig { psr4, psr0, classmap, files, exclude_from_classmap: exclude },
        ),
        _ => None,
    }
}

impl AutoloadConfig {
    /// The autoload configuration that a value stands for.
    pub fn from_json(j: &Json) -> (r: Option<AutoloadConfig>)
        ensures
            match r {
                Some(a) => autoload_json(j@) == Some(a@),
                None => autoload_json(j@) is None,
            },
    {
        let names = autoload_name_list();
        if j.is_array() {
            let record = fields::list_record(j, &names)?;
            read_autoload_record(&record, false)
        } else if fields::is_object_of(j, &names) {
            read_autoload_record(j, false)
        } else {
            None
        }
    }

    /// The autoload configuration that a value in the metadata of a repository
    /// stands for.
    pub fn from_metadata(j: &Json) -> (r: Option<AutoloadConfig>)
        ensures
            match r {
                Some(a) => metadata_autoload(j@) == Some(a@),
                None => metadata_autoload(j@) is None,
            },
    {
        let names = autoload_name_list();
        if j.is_array() {
            let record = fields::list_record(j, &names)?;
            read_autoload_record(&record, false)
        } else if fields::is_object_of(j, &names) {
            read_autoload_record(j, true)
        } else {
            None
        }
    }

    /// A copy.
    pub fn copy(&self) -> (r: AutoloadConfig)
        ensures
            r@ == self@,
    {
        AutoloadConfig {
            psr4: copy_namespaces(&self.psr4),
            psr0: copy_namespaces(&self.psr0),
            classmap: collections::copy_texts(&self.classmap),
            files: collections::copy_texts(&self.files),
            exclude_from_classmap: collections::copy_texts(&self.exclude_from_classmap),
        }
    }
}

/// The value that a `PathOrPaths` is written as.
pub open spec fn paths_value(p: PathsView) -> json::JsonView {
    match p {
        PathsView::One(s) => json::JsonView::Str(s),
        PathsView::Many(t) => json::JsonView::Array(fields::text_values(t)),
    }
}

/// The members that namespaces are written as.
pub open spec fn namespace_values(p: Seq<(Seq<char>, PathsView)>) -> Seq<
    (Seq<char>, json::JsonView),
> {
    p.map_values(|e: (Seq<char>, PathsView)| (e.0, paths_value(e.1)))
}

/// The members that an autoload configuration is written as: those that are
/// not empty.
pub open spec fn autoload_members(a: AutoloadView) -> Seq<(Seq<char>, json::JsonView)> {
    fields::object_member("psr-4"@, namespace_values(a.psr4)) + fields::object_member(
        "psr-0"@,
        namespace_values(a.psr0),
    ) + fields::list_member("classmap"@, a.classmap) + fields::list_member("files"@, a.files)
        + fields::list_member("exclude_from_classmap"@, a.exclude_from_classmap)
}

fn namespaces_members(m: &StrMap<PathOrPaths>) -> (r: Vec<(String, Json)>)
    ensures
        json::members(r@) == namespace_values(path_pairs(*m)),
{
    let n: usize = m.entries.len();
    let mut out: Vec<(String, Json)> = Vec::new();
    let mut i: usize = 0;
    while i < n
        invariant
            i <= n,
            n == m.entries@.len(),
            out@.len() == i,
            forall|j: int|
                0 <= j < i ==> (#[trigger] out@[j]).0@ == m.entries@[j].0@ && out@[j].1@
                    == paths_value(m.entries@[j].1@),
        decreases n - i,
    {
        out.push((m.entries[i].0.clone(), m.entries[i].1.to_json()));
        i += 1;
    }
    assert(json::members(out@) =~= namespace_values(path_pairs(*m)));
    out
}

impl AutoloadConfig {
    /// The configuration as a value.
    pub fn to_json(&self) -> (r: Json)
        ensures
            r@ == json::JsonView::Object(autoload_members(self@)),
    {
        let mut out: Vec<(String, Json)> = Vec::new();
        assert(json::members(out@) =~= Seq::empty());
        fields::add_object(&mut out, "psr-4", namespaces_members(&self.psr4));
        fields::add_object(&mut out, "psr-0", namespaces_members(&self.psr0));
        fields::add_list(&mut out, "classmap", &self.classmap);
        fields::add_list(&mut out, "files", &self.files);
        fields::add_list(&mut out, "exclude_from_classmap", &self.exclude_from_classmap);
        proof {
            json::lemma_object_view(out);
            assert(json::members(out@) =~= autoload_members(self@));
        }
        Json::Object(out)
    }
}

/// A copy of an optional autoload configuration.
pub fn copy_autoload(a: &Option<AutoloadConfig>) -> (r: Option<AutoloadConfig>)
    ensures
        opt_autoload(r) == opt_autoload(*a),
{
    match a {
        Some(c) => Some(c.copy()),
        None => None,
    }
}

/// A vendor and a name with a slash between them name a package; a word without a
/// slash names something of the platform.
pub proof fn law_names_of_packages(vendor: Seq<char>, name: Seq<char>)
    requires
        vendor.len() > 0 && name.len() > 0,
        !vendor.contains('/'),
        !text::is_space(vendor[0]) && !text::is_space(vendor.last()),
        !text::is_space(name.last()),
    ensures
        names_package(vendor + seq!['/'] + name),
        !names_platform(vendor + seq!['/'] + name),
        names_platform(vendor),
        !names_package(vendor),
        text::parted(vendor + seq!['/'] + name, "/"@) == Some((vendor, name)),
        !is_package_name(vendor + seq!['/']),
        !is_package_name(seq!['/'] + name),
{
    reveal_strlit("/");
    assert("/"@ =~= seq!['/']);
    let s = vendor + "/"@ + name;
    assert(s[0] == vendor[0] && s.last() == name.last());
    text::lemma_trimmed_same(s);
    text::lemma_piece_before(vendor, "/"@, name);
    text::lemma_first_found(vendor, "/"@, name);
    text::lemma_trimmed_same(vendor);
    text::lemma_not_found(vendor, "/"@);
    let t = vendor + "/"@ + Seq::<char>::empty();
    assert(t =~= vendor + seq!['/']);
    assert(t.last() == '/');
    text::lemma_trimmed_same(t);
    text::lemma_piece_before(vendor, "/"@, Seq::empty());
    let u = Seq::<char>::empty() + "/"@ + name;
    assert(u =~= seq!['/'] + name);
    assert(u[0] == '/' && u.last() == name.last());
    text::lemma_trimmed_same(u);
    text::lemma_piece_before(Seq::empty(), "/"@, name);
}

/// The namespaces of an object are read with their paths; of two with one name the
/// later one counts.
pub proof fn law_namespaces_are_read(m: Seq<(Seq<char>, json::JsonView)>, i: int)
    requires
        namespaces_of(m) is Some,
        0 <= i < m.len(),
        forall|q: int| i < q < m.len() ==> (#[trigger] m[q]).0 != m[i].0,
    ensures
        m[i].1 is Str || m[i].1 is Array,
        m[i].1 matches json::JsonView::Str(s) ==> collections::lookup(
            namespaces_of(m)->0,
            m[i].0,
        ) == Some(PathsView::One(s)),
        m[i].1 is Array ==> (collections::lookup(namespaces_of(m)->0, m[i].0) matches Some(
            PathsView::Many(t),
        ) && fields::reads_texts(Some(m[i].1), t)),
    decreases m.len(),
{
    let front = m.drop_last();
    let e = m.last();
    fields::law_members_are_read(Some(m[i].1));
    collections::law_lookup_inserted(
        namespaces_of(front)->0,
        e.0,
        paths_json(e.1)->0,
        m[i].0,
    );
    if i < front.len() {
        assert(front[i] == m[i]);
        assert(m[m.len() - 1].0 != m[i].0);
        assert forall|q: int| i < q < front.len() implies (#[trigger] front[q]).0 != front[i].0 by {
            assert(m[q].0 != m[i].0);
        }
        law_namespaces_are_read(front, i);
    }
}

/// What is said of autoloading is read from the members of these names.
pub proof fn law_autoload_is_read(j: json::JsonView, a: AutoloadView)
    requires
        j is Object,
        autoload_json(j) == Some(a),
    ensures
        (json::get_of(j, "psr-4"@) matches Some(m) && m is Object) ==> namespaces_of(
            json::get_of(j, "psr-4"@)->0->Object_0,
        ) == Some(a.psr4),
        (json::get_of(j, "psr-0"@) matches Some(m) && m is Object) ==> namespaces_of(
            json::get_of(j, "psr-0"@)->0->Object_0,
        ) == Some(a.psr0),
        json::get_of(j, "psr-4"@) is None ==> a.psr4.len() == 0,
        json::get_of(j, "psr-0"@) is None ==> a.psr0.len() == 0,
        fields::reads_texts(json::get_of(j, "classmap"@), a.classmap),
        fields::reads_texts(json::get_of(j, "files"@), a.files),
{
    fields::law_members_are_read(json::get_of(j, "classmap"@));
    fields::law_members_are_read(json::get_of(j, "files"@));
}

} // verus!
