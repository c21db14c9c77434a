//! What the autoloader of a project is made of.

use crate::collections;
use crate::collections::StrMap;
use crate::index;
use crate::lock;
use crate::lock::ComposerLock;
use crate::lock::LockedPackage;
use crate::manifest;
use crate::manifest::ComposerJson;
use crate::package;
use crate::package::AutoloadConfig;
use crate::package::PathOrPaths;
use crate::paths;
use crate::sorter;
use crate::text;
use vstd::prelude::*;

verus! {

/// How an autoloader is made.
#[derive(Debug, Clone, Copy, PartialEq, Eq, Structural)]
pub struct AutoloadOptions {
    pub optimize: bool,
    pub classmap_authoritative: bool,
    pub with_dev: bool,
}

impl Default for AutoloadOptions {
    fn default() -> (r: Self)
        ensures
            !r.optimize,
            !r.classmap_authoritative,
            r.with_dev,
    {
        AutoloadOptions { optimize: false, classmap_authoritative: false, with_dev: true }
    }
}

/// Lists of paths by the namespaces whose classes are found there.
pub type PathLists = Seq<(Seq<char>, Seq<Seq<char>>)>;

/// What a map of lists of paths consists of.
pub open spec fn path_lists(m: StrMap<Vec<String>>) -> PathLists {
    collections::with_values(m@, |v: Vec<String>| text::texts(v@))
}

/// Where classes and files are found, relative to `vendor/composer`.
#[derive(Debug)]
pub struct AutoloadMaps {
    pub psr4: StrMap<Vec<String>>,
    pub psr0: StrMap<Vec<String>>,
    pub classmap_dirs: Vec<String>,
    pub files: Vec<String>,
}

/// What the maps of an autoloader consist of.
#[verifier::ext_equal]
pub struct MapsView {
    pub psr4: PathLists,
    pub psr0: PathLists,
    pub classmap_dirs: Seq<Seq<char>>,
    pub files: Seq<Seq<char>>,
}

impl View for AutoloadMaps {
    type V = MapsView;

    open spec fn view(&self) -> MapsView {
        MapsView {
            psr4: path_lists(self.psr4),
            psr0: path_lists(self.psr0),
            classmap_dirs: text::texts(self.classmap_dirs@),
            files: text::texts(self.files@),
        }
    }
}

// ---------------------------------------------------------------------------
// Paths

/// A text without all leading `./`.
pub open spec fn without_dots(s: Seq<char>) -> Seq<char>
    decreases s.len(),
{
    if s.len() >= 2 && s[0] == '.' && s[1] == '/' {
        without_dots(s.skip(2))
    } else {
        s
    }
}

/// A path of a package, relative to `vendor/composer`.
pub open spec fn package_path_of(install: Seq<char>, path: Seq<char>, is_root: bool) -> Seq<char> {
    let p = without_dots(path);
    if p.len() == 0 || p == "."@ {
        if is_root {
            "../.."@
        } else {
            "../"@ + install
        }
    } else if is_root {
        "../../"@ + p
    } else {
        "../"@ + install + "/"@ + p
    }
}

fn trim_dots(s: &str) -> (r: &str)
    ensures
        r@ == without_dots(s@),
{
    let n: usize = s.unicode_len();
    let mut i: usize = 0;
    assert(s@.skip(0) =~= s@);
    while n - i >= 2 && s.get_char(i) == '.' && s.get_char(i + 1) == '/'
        invariant
            i <= n,
            n == s@.len(),
            without_dots(s@) == without_dots(s@.skip(i as int)),
        decreases n - i,
    {
        assert(s@.skip(i as int)[0] == s@[i as int]);
        assert(s@.skip(i as int)[1] == s@[i + 1]);
        assert(s@.skip(i as int).skip(2) =~= s@.skip(i + 2));
        i += 2;
    }
    proof {
        if n - i >= 2 {
            assert(s@.skip(i as int)[0] == s@[i as int]);
            assert(s@.skip(i as int)[1] == s@[i + 1]);
        }
        assert(s@.subrange(i as int, n as int) =~= s@.skip(i as int));
    }
    s.substring_char(i, n)
}

/// A path of a package, relative to `vendor/composer`.
pub fn package_path(package_install: &str, path: &str, is_root: bool) -> (r: String)
    ensures
        r@ == package_path_of(package_install@, path@, is_root),
{
    let p = trim_dots(path);
    if p.unicode_len() == 0 || text::same(p, ".") {
        if is_root {
            String::from_str("../..")
        } else {
            text::cat("../", package_install)
        }
    } else if is_root {
        text::cat("../../", p)
    } else {
        let head = text::cat3("../", package_install, "/");
        text::cat(head.as_str(), p)
    }
}

/// Where a path relative to `vendor/composer` leads.
pub fn resolve_autoload_path(vendor_dir: &str, rel_from_composer: &str) -> (r: String)
    ensures
        r@ == paths::joined_path(
            paths::joined_path(vendor_dir@, "composer"@),
            rel_from_composer@,
        ),
{
    let dir = paths::join_path(vendor_dir, "composer");
    paths::join_path(dir.as_str(), rel_from_composer)
}

// ---------------------------------------------------------------------------
// Collecting

/// The paths that stand behind a namespace.
pub open spec fn listed_paths(p: package::PathsView) -> Seq<Seq<char>> {
    match p {
        package::PathsView::One(s) => seq![s],
        package::PathsView::Many(t) => t,
    }
}

/// The lists after paths were added behind a namespace.
pub open spec fn with_paths(
    m: PathLists,
    ns: Seq<char>,
    paths: Seq<Seq<char>>,
    install: Seq<char>,
    is_root: bool,
) -> PathLists
    decreases paths.len(),
{
    if paths.len() == 0 {
        m
    } else {
        let rest = with_paths(m, ns, paths.drop_last(), install, is_root);
        collections::inserted(
            rest,
            ns,
            index::entry_of(rest, ns).push(package_path_of(install, paths.last(), is_root)),
        )
    }
}

/// The lists after the namespaces of a package were added.
pub open spec fn with_namespaces(
    m: PathLists,
    v: Seq<(Seq<char>, package::PathsView)>,
    install: Seq<char>,
    is_root: bool,
) -> PathLists
    decreases v.len(),
{
    if v.len() == 0 {
        m
    } else {
        with_paths(
            with_namespaces(m, v.drop_last(), install, is_root),
            v.last().0,
            listed_paths(v.last().1),
            install,
            is_root,
        )
    }
}

/// Paths of a package, relative to `vendor/composer`.
pub open spec fn package_paths(v: Seq<Seq<char>>, install: Seq<char>, is_root: bool) -> Seq<
    Seq<char>,
> {
    v.map_values(|p: Seq<char>| package_path_of(install, p, is_root))
}

/// The maps after the classes of a package were added.
pub open spec fn merged(
    m: MapsView,
    al: Option<package::AutoloadView>,
    install: Seq<char>,
    is_root: bool,
) -> MapsView {
    match al {
        None => m,
        Some(a) => MapsView {
            psr4: with_namespaces(m.psr4, a.psr4, install, is_root),
            psr0: with_namespaces(m.psr0, a.psr0, install, is_root),
            classmap_dirs: m.classmap_dirs + package_paths(a.classmap, install, is_root),
            files: m.files,
        },
    }
}

/// The maps after the files of a package were added.
pub open spec fn with_files(
    m: MapsView,
    al: Option<package::AutoloadView>,
    install: Seq<char>,
    is_root: bool,
) -> MapsView {
    match al {
        None => m,
        Some(a) => MapsView { files: m.files + package_paths(a.files, install, is_root), ..m },
    }
}

/// The maps after the classes of packages were added.
pub open spec fn merged_packages(m: MapsView, v: Seq<lock::LockedView>) -> MapsView
    decreases v.len(),
{
    if v.len() == 0 {
        m
    } else {
        merged(merged_packages(m, v.drop_last()), v.last().autoload, v.last().name, false)
    }
}

/// The maps after the files of packages were added.
pub open spec fn with_package_files(m: MapsView, v: Seq<lock::LockedView>) -> MapsView
    decreases v.len(),
{
    if v.len() == 0 {
        m
    } else {
        with_files(
            with_package_files(m, v.drop_last()),
            v.last().autoload,
            v.last().name,
            false,
        )
    }
}

/// The maps of nothing.
pub open spec fn empty_maps() -> MapsView {
    MapsView {
        psr4: Seq::empty(),
        psr0: Seq::empty(),
        classmap_dirs: Seq::empty(),
        files: Seq::empty(),
    }
}

/// A configuration that counts for development only.
pub open spec fn if_dev(
    al: Option<package::AutoloadView>,
    with_dev: bool,
) -> Option<package::AutoloadView> {
    if with_dev {
        al
    } else {
        None
    }
}

/// The maps of a project. The classes of the project come before those of its
/// packages, its files come last, and the files of a package come after those
/// of the packages that it builds on.
pub open spec fn project_maps(
    m: manifest::ManifestView,
    packages: Seq<lock::LockedView>,
    with_dev: bool,
) -> MapsView {
    let dev = if_dev(m.autoload_dev, with_dev);
    let own = merged(merged(empty_maps(), m.autoload, Seq::empty(), true), dev, Seq::empty(), true);
    let all = with_package_files(
        merged_packages(own, packages),
        sorter::load_order(packages).map_values(|e: sorter::Weighted| e.1),
    );
    with_files(with_files(all, m.autoload, Seq::empty(), true), dev, Seq::empty(), true)
}

fn add_namespaces(
    m: &mut StrMap<Vec<String>>,
    v: &StrMap<PathOrPaths>,
    install: &str,
    is_root: bool,
)
    ensures
        path_lists(*final(m)) == with_namespaces(
            path_lists(*old(m)),
            package::path_pairs(*v),
            install@,
            is_root,
        ),
{
    let ghost start = path_lists(*m);
    let ghost all = package::path_pairs(*v);
    let n: usize = v.entries.len();
    let mut i: usize = 0;
    while i < n
        invariant
            i <= n,
            n == v.entries@.len(),
            all == package::path_pairs(*v),
            path_lists(*m) == with_namespaces(start, all.take(i as int), install@, is_root),
        decreases n - i,
    {
        let ns = v.entries[i].0.as_str();
        let list = v.entries[i].1.paths();
        let ghost here = path_lists(*m);
        let ghost each = text::views(list@);
        proof {
            assert(all.take(i + 1).drop_last() =~= all.take(i as int));
            assert(all.take(i + 1).last() == (ns@, v.entries@[i as int].1@));
            assert(each =~= listed_paths(v.entries@[i as int].1@));
        }
        let k: usize = list.len();
        let mut j: usize = 0;
        while j < k
            invariant
                j <= k,
                k == list@.len(),
                each == text::views(list@),
                path_lists(*m) == with_paths(here, ns@, each.take(j as int), install@, is_root),
            decreases k - j,
        {
            let rel = package_path(install, list[j], is_root);
            let ghost now = path_lists(*m);
            proof {
                assert(each.take(j + 1).drop_last() =~= each.take(j as int));
                assert(each.take(j + 1).last() == list@[j as int]@);
                collections::lemma_with_values(
                    m@,
                    ns@,
                    arbitrary(),
                    |v: Vec<String>| text::texts(v@),
                );
            }
            let mut entry: Vec<String> = match m.get(ns) {
                Some(e) => collections::copy_texts(e),
                None => Vec::new(),
            };
            assert(text::texts(entry@) =~= index::entry_of(now, ns@));
            let ghost before = entry@;
            entry.push(rel);
            proof {
                assert(text::texts(entry@) =~= text::texts(before).push(rel@));
                collections::lemma_with_values(
                    m@,
                    ns@,
                    entry,
                    |v: Vec<String>| text::texts(v@),
                );
            }
            m.insert(String::from_str(ns), entry);
            j += 1;
        }
        assert(each.take(k as int) =~= each);
        i += 1;
    }
    assert(all.take(n as int) =~= all);
}

fn add_paths(out: &mut Vec<String>, v: &Vec<String>, install: &str, is_root: bool)
    ensures
        text::texts(final(out)@) == text::texts(old(out)@) + package_paths(
            text::texts(v@),
            install@,
            is_root,
        ),
{
    let ghost start = out@;
    let n: usize = v.len();
    let mut i: usize = 0;
    while i < n
        invariant
            i <= n,
            n == v@.len(),
            out@.len() == start.len() + i,
            forall|j: int| 0 <= j < start.len() ==> out@[j] == start[j],
            forall|j: int|
                0 <= j < i ==> (#[trigger] out@[start.len() + j])@ == package_path_of(
                    install@,
                    v@[j]@,
                    is_root,
                ),
        decreases n - i,
    {
        out.push(package_path(install, v[i].as_str(), is_root));
        i += 1;
    }
    proof {
        let want = text::texts(start) + package_paths(text::texts(v@), install@, is_root);
        assert(text::texts(out@).len() == want.len());
        assert forall|j: int| 0 <= j < want.len() implies text::texts(out@)[j] == want[j] by {
            if j >= start.len() {
                assert(out@[start.len() + (j - start.len())]@ == want[j]);
            }
        }
        assert(text::texts(out@) =~= want);
    }
}

impl AutoloadMaps {
    /// Adds the classes of a package.
    pub fn merge_autoload(&mut self, al: &Option<AutoloadConfig>, install: &str, is_root: bool)
        ensures
            final(self)@ == merged(old(self)@, package::opt_autoload(*al), install@, is_root),
    {
        if let Some(a) = al {
            add_namespaces(&mut self.psr4, &a.psr4, install, is_root);
            add_namespaces(&mut self.psr0, &a.psr0, install, is_root);
            add_paths(&mut self.classmap_dirs, &a.classmap, install, is_root);
        }
    }

    /// Adds the files of a package.
    pub fn append_files(&mut self, al: &Option<AutoloadConfig>, install: &str, is_root: bool)
        ensures
            final(self)@ == with_files(old(self)@, package::opt_autoload(*al), install@, is_root),
    {
        if let Some(a) = al {
            add_paths(&mut self.files, &a.files, install, is_root);
        }
    }

    /// The maps of a project.
    pub fn collect(manifest: &ComposerJson, lock: Option<&ComposerLock>, with_dev: bool) -> (r: Self)
        ensures
            r@ == project_maps(manifest@, installed_of(lock, with_dev), with_dev),
    {
        let mut maps = AutoloadMaps {
            psr4: StrMap::new(),
            psr0: StrMap::new(),
            classmap_dirs: Vec::new(),
            files: Vec::new(),
        };
        assert(maps@ =~= empty_maps());
        maps.merge_autoload(&manifest.autoload, "", true);
        if with_dev {
            maps.merge_autoload(&manifest.autoload_dev, "", true);
        }
        proof {
            reveal_strlit("");
            assert(""@ =~= Seq::<char>::empty());
        }
        let pkgs: Vec<&LockedPackage> = match lock {
            Some(l) => l.packages_to_install(with_dev),
            None => Vec::new(),
        };
        let ghost all = lock::ref_views(pkgs@);
        assert(all =~= installed_of(lock, with_dev));
        let ghost own = maps@;
        let n: usize = pkgs.len();
        let mut i: usize = 0;
        while i < n
            invariant
                i <= n,
                n == pkgs@.len(),
                all == lock::ref_views(pkgs@),
                maps@ == merged_packages(own, all.take(i as int)),
            decreases n - i,
        {
            proof {
                assert(all.take(i + 1).drop_last() =~= all.take(i as int));
                assert(all.take(i + 1).last() == pkgs@[i as int]@);
            }
            maps.merge_autoload(&pkgs[i].autoload, pkgs[i].name.as_str(), false);
            i += 1;
        }
        assert(all.take(n as int) =~= all);
        let ordered = sorter::sort_packages_by_dependency_weight(&pkgs);
        let ghost list = lock::ref_views(ordered@);
        let ghost base = maps@;
        let m: usize = ordered.len();
        let mut k: usize = 0;
        while k < m
            invariant
                k <= m,
                m == ordered@.len(),
                list == lock::ref_views(ordered@),
                maps@ == with_package_files(base, list.take(k as int)),
            decreases m - k,
        {
            proof {
                assert(list.take(k + 1).drop_last() =~= list.take(k as int));
                assert(list.take(k + 1).last() == ordered@[k as int]@);
            }
            maps.append_files(&ordered[k].autoload, ordered[k].name.as_str(), false);
            k += 1;
        }
        assert(list.take(m as int) =~= list);
        maps.append_files(&manifest.autoload, "", true);
        if with_dev {
            maps.append_files(&manifest.autoload_dev, "", true);
        }
        maps
    }
}

/// The packages that a lock file installs.
pub open spec fn installed_of(lock: Option<&ComposerLock>, with_dev: bool) -> Seq<lock::LockedView> {
    match lock {
        Some(l) => lock::to_install(l@, with_dev),
        None => Seq::empty(),
    }
}

// ---------------------------------------------------------------------------
// Laws

/// Taken from `vendor/composer`, every path of an installed package lies at or
/// below the directory `vendor/<package>`, and every path of the project at or
/// below the directory that `vendor` lies in. The empty path, `.` and `./` are
/// the directory itself, and a leading `./` says nothing.
pub proof fn law_package_paths(install: Seq<char>, path: Seq<char>)
    ensures
        package_path_of(install, ""@, false) == "../"@ + install,
        package_path_of(install, "."@, false) == "../"@ + install,
        package_path_of(install, "./"@, false) == "../"@ + install,
        package_path_of(install, ""@, true) == "../.."@,
        package_path_of(install, "."@, true) == "../.."@,
        package_path_of(install, "./"@, true) == "../.."@,
        package_path_of(install, "./"@ + path, false) == package_path_of(install, path, false),
        package_path_of(install, "./"@ + path, true) == package_path_of(install, path, true),
        package_path_of(install, path, false) == "../"@ + install || text::starts(
            package_path_of(install, path, false),
            "../"@ + install + "/"@,
        ),
        path.len() > 0 && path != "."@ && !text::starts(path, "./"@) ==> package_path_of(
            install,
            path,
            false,
        ) == "../"@ + install + "/"@ + path && package_path_of(install, path, true) == "../../"@
            + path,
{
    reveal_strlit("");
    reveal_strlit(".");
    reveal_strlit("./");
    assert(without_dots(""@) == ""@);
    assert(without_dots("."@) == "."@);
    assert("./"@.skip(2) =~= ""@);
    assert(without_dots("./"@) == without_dots(""@));
    let dotted = "./"@ + path;
    assert(dotted.skip(2) =~= path);
    assert(without_dots(dotted) == without_dots(path));
    let p = without_dots(path);
    if !(p.len() == 0 || p == "."@) {
        let head = "../"@ + install + "/"@;
        assert((head + p).take(head.len() as int) =~= head);
    }
    if path.len() > 0 && path != "."@ && !text::starts(path, "./"@) {
        if path.len() >= 2 && path[0] == '.' && path[1] == '/' {
            assert(path.take(2) =~= "./"@);
        }
        assert(p == path);
    }
}

/// A path that a namespace names.
pub open spec fn names_path(p: package::PathsView, s: Seq<char>) -> bool {
    match p {
        package::PathsView::One(x) => x == s,
        package::PathsView::Many(t) => t.contains(s),
    }
}

/// A list of namespaces names a path behind one of them.
pub open spec fn namespace_names(
    v: Seq<(Seq<char>, package::PathsView)>,
    ns: Seq<char>,
    s: Seq<char>,
) -> bool {
    exists|k: int| 0 <= k < v.len() && (#[trigger] v[k]).0 == ns && names_path(v[k].1, s)
}

/// A directory stands behind a namespace.
pub open spec fn maps_to(m: PathLists, ns: Seq<char>, dir: Seq<char>) -> bool {
    collections::lookup(m, ns) matches Some(list) && list.contains(dir)
}

proof fn lemma_pushed<T>(s: Seq<T>, e: T, x: T)
    ensures
        s.push(e).contains(x) == (s.contains(x) || e == x),
{
    if s.contains(x) {
        let i = choose|i: int| 0 <= i < s.len() && s[i] == x;
        assert(s.push(e)[i] == x);
    }
    assert(s.push(e)[s.len() as int] == e);
}

proof fn lemma_with_paths(
    m: PathLists,
    ns: Seq<char>,
    paths: Seq<Seq<char>>,
    install: Seq<char>,
    is_root: bool,
    q: Seq<char>,
    dir: Seq<char>,
)
    ensures
        maps_to(with_paths(m, ns, paths, install, is_root), q, dir) == (maps_to(m, q, dir) || (q
            == ns && exists|i: int|
            0 <= i < paths.len() && package_path_of(install, #[trigger] paths[i], is_root) == dir)),
    decreases paths.len(),
{
    if paths.len() > 0 {
        let front = paths.drop_last();
        lemma_with_paths(m, ns, front, install, is_root, q, dir);
        let rest = with_paths(m, ns, front, install, is_root);
        let list = index::entry_of(rest, ns);
        let e = package_path_of(install, paths.last(), is_root);
        collections::law_lookup_inserted(rest, ns, list.push(e), q);
        lemma_pushed(list, e, dir);
        if q == ns {
            assert(maps_to(rest, ns, dir) == list.contains(dir));
            if exists|i: int|
                0 <= i < front.len() && package_path_of(install, #[trigger] front[i], is_root)
                    == dir {
                let i = choose|i: int|
                    0 <= i < front.len() && package_path_of(install, #[trigger] front[i], is_root)
                        == dir;
                assert(paths[i] == front[i]);
            }
            if exists|i: int|
                0 <= i < paths.len() && package_path_of(install, #[trigger] paths[i], is_root)
                    == dir {
                let i = choose|i: int|
                    0 <= i < paths.len() && package_path_of(install, #[trigger] paths[i], is_root)
                        == dir;
                if i < front.len() {
                    assert(front[i] == paths[i]);
                }
            }
            assert(paths[paths.len() - 1] == paths.last());
        }
    }
}

/// The directory comes of a path that a list of namespaces names.
pub open spec fn stands_behind(
    v: Seq<(Seq<char>, package::PathsView)>,
    install: Seq<char>,
    is_root: bool,
    ns: Seq<char>,
    dir: Seq<char>,
) -> bool {
    exists|s: Seq<char>| #[trigger]
        namespace_names(v, ns, s) && package_path_of(install, s, is_root) == dir
}

proof fn lemma_with_namespaces(
    m: PathLists,
    v: Seq<(Seq<char>, package::PathsView)>,
    install: Seq<char>,
    is_root: bool,
    ns: Seq<char>,
    dir: Seq<char>,
)
    ensures
        maps_to(with_namespaces(m, v, install, is_root), ns, dir) == (maps_to(m, ns, dir)
            || stands_behind(v, install, is_root, ns, dir)),
    decreases v.len(),
{
    if v.len() > 0 {
        let front = v.drop_last();
        lemma_with_namespaces(m, front, install, is_root, ns, dir);
        let rest = with_namespaces(m, front, install, is_root);
        let paths = listed_paths(v.last().1);
        lemma_with_paths(rest, v.last().0, paths, install, is_root, ns, dir);
        assert(v[v.len() - 1] == v.last());
        if stands_behind(front, install, is_root, ns, dir) {
            let s = choose|s: Seq<char>| #[trigger]
                namespace_names(front, ns, s) && package_path_of(install, s, is_root) == dir;
            let k = choose|k: int|
                0 <= k < front.len() && (#[trigger] front[k]).0 == ns && names_path(front[k].1, s);
            assert(v[k] == front[k]);
            assert(namespace_names(v, ns, s));
        }
        if ns == v.last().0 && exists|i: int|
            0 <= i < paths.len() && package_path_of(install, #[trigger] paths[i], is_root) == dir {
            let i = choose|i: int|
                0 <= i < paths.len() && package_path_of(install, #[trigger] paths[i], is_root)
                    == dir;
            assert(names_path(v.last().1, paths[i]));
            assert(namespace_names(v, ns, paths[i]));
        }
        if stands_behind(v, install, is_root, ns, dir) {
            let s = choose|s: Seq<char>| #[trigger]
                namespace_names(v, ns, s) && package_path_of(install, s, is_root) == dir;
            let k = choose|k: int|
                0 <= k < v.len() && (#[trigger] v[k]).0 == ns && names_path(v[k].1, s);
            if k < front.len() {
                assert(front[k] == v[k]);
                assert(namespace_names(front, ns, s));
            } else {
                assert(paths.contains(s)) by {
                    if let package::PathsView::One(x) = v.last().1 {
                        assert(paths[0] == s);
                    }
                }
                let i = choose|i: int| 0 <= i < paths.len() && paths[i] == s;
                assert(package_path_of(install, paths[i], is_root) == dir);
            }
        }
    }
}

/// What a configuration adds behind namespaces, under PSR-4 or PSR-0.
pub open spec fn adds(
    al: Option<package::AutoloadView>,
    install: Seq<char>,
    is_root: bool,
    psr4: bool,
    ns: Seq<char>,
    dir: Seq<char>,
) -> bool {
    al matches Some(a) && stands_behind(
        if psr4 {
            a.psr4
        } else {
            a.psr0
        },
        install,
        is_root,
        ns,
        dir,
    )
}

pub open spec fn in_maps(m: MapsView, psr4: bool, ns: Seq<char>, dir: Seq<char>) -> bool {
    maps_to(
        if psr4 {
            m.psr4
        } else {
            m.psr0
        },
        ns,
        dir,
    )
}

proof fn lemma_merged(
    m: MapsView,
    al: Option<package::AutoloadView>,
    install: Seq<char>,
    is_root: bool,
    psr4: bool,
    ns: Seq<char>,
    dir: Seq<char>,
)
    ensures
        in_maps(merged(m, al, install, is_root), psr4, ns, dir) == (in_maps(m, psr4, ns, dir)
            || adds(al, install, is_root, psr4, ns, dir)),
{
    if let Some(a) = al {
        lemma_with_namespaces(m.psr4, a.psr4, install, is_root, ns, dir);
        lemma_with_namespaces(m.psr0, a.psr0, install, is_root, ns, dir);
    }
}

proof fn lemma_merged_packages(
    m: MapsView,
    v: Seq<lock::LockedView>,
    psr4: bool,
    ns: Seq<char>,
    dir: Seq<char>,
)
    ensures
        in_maps(merged_packages(m, v), psr4, ns, dir) == (in_maps(m, psr4, ns, dir) || exists|k: int|
            0 <= k < v.len() && adds(
                (#[trigger] v[k]).autoload,
                v[k].name,
                false,
                psr4,
                ns,
                dir,
            )),
    decreases v.len(),
{
    if v.len() > 0 {
        let front = v.drop_last();
        lemma_merged_packages(m, front, psr4, ns, dir);
        lemma_merged(
            merged_packages(m, front),
            v.last().autoload,
            v.last().name,
            false,
            psr4,
            ns,
            dir,
        );
        assert(v[v.len() - 1] == v.last());
        assert forall|k: int| 0 <= k < front.len() implies #[trigger] front[k] == v[k] by {}
        if exists|k: int|
            0 <= k < v.len() && adds((#[trigger] v[k]).autoload, v[k].name, false, psr4, ns, dir) {
            let k = choose|k: int|
                0 <= k < v.len() && adds(
                    (#[trigger] v[k]).autoload,
                    v[k].name,
                    false,
                    psr4,
                    ns,
                    dir,
                );
            if k < front.len() {
                assert(front[k] == v[k]);
            }
        }
    }
}

proof fn lemma_files_keep_maps(m: MapsView, v: Seq<lock::LockedView>)
    ensures
        with_package_files(m, v).psr4 == m.psr4,
        with_package_files(m, v).psr0 == m.psr0,
        with_package_files(m, v).classmap_dirs == m.classmap_dirs,
    decreases v.len(),
{
    if v.len() > 0 {
        lemma_files_keep_maps(m, v.drop_last());
    }
}

/// A directory stands behind a namespace, under PSR-4 and under PSR-0, if and
/// only if it comes of a path that the project, in development also its
/// development section, or one of the packages names for that namespace.
pub proof fn law_every_namespace_is_mapped(
    m: manifest::ManifestView,
    packages: Seq<lock::LockedView>,
    with_dev: bool,
    psr4: bool,
    ns: Seq<char>,
    dir: Seq<char>,
)
    ensures
        in_maps(project_maps(m, packages, with_dev), psr4, ns, dir) <==> (adds(
            m.autoload,
            Seq::empty(),
            true,
            psr4,
            ns,
            dir,
        ) || (with_dev && adds(m.autoload_dev, Seq::empty(), true, psr4, ns, dir)) || exists|k: int|
            0 <= k < packages.len() && adds(
                (#[trigger] packages[k]).autoload,
                packages[k].name,
                false,
                psr4,
                ns,
                dir,
            )),
{
    let dev = if_dev(m.autoload_dev, with_dev);
    let first = merged(empty_maps(), m.autoload, Seq::empty(), true);
    let own = merged(first, dev, Seq::empty(), true);
    lemma_merged(empty_maps(), m.autoload, Seq::empty(), true, psr4, ns, dir);
    lemma_merged(first, dev, Seq::empty(), true, psr4, ns, dir);
    lemma_merged_packages(own, packages, psr4, ns, dir);
    lemma_files_keep_maps(
        merged_packages(own, packages),
        sorter::load_order(packages).map_values(|e: sorter::Weighted| e.1),
    );
}

/// What a configuration lists, taken from `vendor/composer`.
pub open spec fn lists_dir(
    list: Seq<Seq<char>>,
    install: Seq<char>,
    is_root: bool,
    dir: Seq<char>,
) -> bool {
    exists|s: Seq<char>| #[trigger]
        list.contains(s) && package_path_of(install, s, is_root) == dir
}

proof fn lemma_joined_lists(
    a: Seq<Seq<char>>,
    list: Seq<Seq<char>>,
    install: Seq<char>,
    is_root: bool,
    dir: Seq<char>,
)
    ensures
        (a + package_paths(list, install, is_root)).contains(dir) == (a.contains(dir) || lists_dir(
            list,
            install,
            is_root,
            dir,
        )),
{
    let b = package_paths(list, install, is_root);
    let all = a + b;
    if a.contains(dir) {
        let i = choose|i: int| 0 <= i < a.len() && a[i] == dir;
        assert(all[i] == dir);
    }
    if lists_dir(list, install, is_root, dir) {
        let s = choose|s: Seq<char>| #[trigger]
            list.contains(s) && package_path_of(install, s, is_root) == dir;
        let i = choose|i: int| 0 <= i < list.len() && list[i] == s;
        assert(all[a.len() + i] == dir);
    }
    if all.contains(dir) {
        let i = choose|i: int| 0 <= i < all.len() && all[i] == dir;
        if i < a.len() {
            assert(a[i] == dir);
        } else {
            assert(list.contains(list[i - a.len()]));
        }
    }
}

/// The directories and files to be searched for classes that a configuration
/// lists.
pub open spec fn adds_classes(
    al: Option<package::AutoloadView>,
    install: Seq<char>,
    is_root: bool,
    dir: Seq<char>,
) -> bool {
    al matches Some(a) && lists_dir(a.classmap, install, is_root, dir)
}

/// The files to be loaded that a configuration lists.
pub open spec fn adds_files(
    al: Option<package::AutoloadView>,
    install: Seq<char>,
    is_root: bool,
    dir: Seq<char>,
) -> bool {
    al matches Some(a) && lists_dir(a.files, install, is_root, dir)
}

proof fn lemma_classes_merged(
    m: MapsView,
    al: Option<package::AutoloadView>,
    install: Seq<char>,
    is_root: bool,
    dir: Seq<char>,
)
    ensures
        merged(m, al, install, is_root).classmap_dirs.contains(dir) == (m.classmap_dirs.contains(
            dir,
        ) || adds_classes(al, install, is_root, dir)),
        merged(m, al, install, is_root).files == m.files,
        with_files(m, al, install, is_root).files.contains(dir) == (m.files.contains(dir)
            || adds_files(al, install, is_root, dir)),
        with_files(m, al, install, is_root).classmap_dirs == m.classmap_dirs,
{
    if let Some(a) = al {
        lemma_joined_lists(m.classmap_dirs, a.classmap, install, is_root, dir);
        lemma_joined_lists(m.files, a.files, install, is_root, dir);
    }
}

proof fn lemma_packages_merged(m: MapsView, v: Seq<lock::LockedView>, dir: Seq<char>)
    ensures
        merged_packages(m, v).files == m.files,
        merged_packages(m, v).classmap_dirs.contains(dir) == (m.classmap_dirs.contains(dir)
            || exists|k: int|
            0 <= k < v.len() && adds_classes((#[trigger] v[k]).autoload, v[k].name, false, dir)),
        with_package_files(m, v).files.contains(dir) == (m.files.contains(dir) || exists|k: int|
            0 <= k < v.len() && adds_files((#[trigger] v[k]).autoload, v[k].name, false, dir)),
    decreases v.len(),
{
    if v.len() > 0 {
        let front = v.drop_last();
        lemma_packages_merged(m, front, dir);
        lemma_classes_merged(
            merged_packages(m, front),
            v.last().autoload,
            v.last().name,
            false,
            dir,
        );
        lemma_classes_merged(
            with_package_files(m, front),
            v.last().autoload,
            v.last().name,
            false,
            dir,
        );
        assert(v[v.len() - 1] == v.last());
        if exists|k: int|
            0 <= k < front.len() && adds_classes(
                (#[trigger] front[k]).autoload,
                front[k].name,
                false,
                dir,
            ) {
            let k = choose|k: int|
                0 <= k < front.len() && adds_classes(
                    (#[trigger] front[k]).autoload,
                    front[k].name,
                    false,
                    dir,
                );
            assert(v[k] == front[k]);
        }
        if exists|k: int|
            0 <= k < v.len() && adds_classes((#[trigger] v[k]).autoload, v[k].name, false, dir) {
            let k = choose|k: int|
                0 <= k < v.len() && adds_classes((#[trigger] v[k]).autoload, v[k].name, false, dir);
            if k < front.len() {
                assert(front[k] == v[k]);
            }
        }
        if exists|k: int|
            0 <= k < front.len() && adds_files(
                (#[trigger] front[k]).autoload,
                front[k].name,
                false,
                dir,
            ) {
            let k = choose|k: int|
                0 <= k < front.len() && adds_files(
                    (#[trigger] front[k]).autoload,
                    front[k].name,
                    false,
                    dir,
                );
            assert(v[k] == front[k]);
        }
        if exists|k: int|
            0 <= k < v.len() && adds_files((#[trigger] v[k]).autoload, v[k].name, false, dir) {
            let k = choose|k: int|
                0 <= k < v.len() && adds_files((#[trigger] v[k]).autoload, v[k].name, false, dir);
            if k < front.len() {
                assert(front[k] == v[k]);
            }
        }
    }
}

/// A path is searched for classes, and a file is loaded, if and only if the
/// project, in development also its development section, or one of the packages
/// lists it.
pub proof fn law_every_listed_path_is_used(
    m: manifest::ManifestView,
    packages: Seq<lock::LockedView>,
    with_dev: bool,
    dir: Seq<char>,
)
    ensures
        project_maps(m, packages, with_dev).classmap_dirs.contains(dir) <==> (adds_classes(
            m.autoload,
            Seq::empty(),
            true,
            dir,
        ) || (with_dev && adds_classes(m.autoload_dev, Seq::empty(), true, dir)) || exists|k: int|
            0 <= k < packages.len() && adds_classes(
                (#[trigger] packages[k]).autoload,
                packages[k].name,
                false,
                dir,
            )),
        project_maps(m, packages, with_dev).files.contains(dir) <==> (adds_files(
            m.autoload,
            Seq::empty(),
            true,
            dir,
        ) || (with_dev && adds_files(m.autoload_dev, Seq::empty(), true, dir)) || exists|k: int|
            0 <= k < packages.len() && adds_files(
                (#[trigger] packages[k]).autoload,
                packages[k].name,
                false,
                dir,
            )),
{
    let none = Seq::<char>::empty();
    let dev = if_dev(m.autoload_dev, with_dev);
    let first = merged(empty_maps(), m.autoload, none, true);
    let own = merged(first, dev, none, true);
    lemma_classes_merged(empty_maps(), m.autoload, none, true, dir);
    lemma_classes_merged(first, dev, none, true, dir);
    lemma_packages_merged(own, packages, dir);
    let base = merged_packages(own, packages);
    let sorted = sorter::load_order(packages).map_values(|e: sorter::Weighted| e.1);
    lemma_packages_merged(base, sorted, dir);
    lemma_files_keep_maps(base, sorted);
    let all = with_package_files(base, sorted);
    lemma_classes_merged(all, m.autoload, none, true, dir);
    lemma_classes_merged(with_files(all, m.autoload, none, true), dev, none, true, dir);
    sorter::law_load_order_loses_nothing(packages);
    let order = sorter::load_order(packages);
    if exists|k: int|
        0 <= k < packages.len() && adds_files(
            (#[trigger] packages[k]).autoload,
            packages[k].name,
            false,
            dir,
        ) {
        let i = choose|k: int|
            0 <= k < packages.len() && adds_files(
                (#[trigger] packages[k]).autoload,
                packages[k].name,
                false,
                dir,
            );
        let k = choose|k: int| 0 <= k < order.len() && order[k].1 == packages[i];
        assert(sorted[k] == packages[i]);
    }
    if exists|k: int|
        0 <= k < sorted.len() && adds_files(
            (#[trigger] sorted[k]).autoload,
            sorted[k].name,
            false,
            dir,
        ) {
        let k = choose|k: int|
            0 <= k < sorted.len() && adds_files(
                (#[trigger] sorted[k]).autoload,
                sorted[k].name,
                false,
                dir,
            );
        assert(sorted[k] == order[k].1);
        let i = choose|i: int| 0 <= i < packages.len() && packages[i] == order[k].1;
        assert(packages[i] == sorted[k]);
    }
}

} // verus!
