//! The versions of packages that are known to the resolver.

use crate::collections;
use crate::collections::StrMap;
use crate::lock;
use crate::lock::LockedPackage;
use crate::repo;
use crate::repo::RemotePackageVersion;
use crate::sources;
use crate::sources::LocalPathPackage;
use crate::sources::SourceKind;
use crate::text;
use crate::version;
use crate::version::ComposerVersion;
use vstd::prelude::*;

verus! {

/// Where a known version comes from.
#[derive(Debug, Clone, Copy, PartialEq, Eq, Structural)]
pub enum IndexSource {
    Packagist,
    Path,
    Vcs,
    Inline,
}

/// Where the packages of a local repository come from.
pub open spec fn kind_source(k: SourceKind) -> IndexSource {
    match k {
        SourceKind::Path => IndexSource::Path,
        SourceKind::Vcs => IndexSource::Vcs,
    }
}

/// A version of a package.
#[derive(Debug)]
pub struct IndexedVersion {
    pub version: ComposerVersion,
    pub locked: LockedPackage,
    pub source: IndexSource,
    /// The package that stands behind this one, where the version is that of a
    /// virtual package.
    pub provided_by: Option<String>,
}

/// What a known version consists of.
pub struct IndexedView {
    pub version: version::VersionView,
    pub locked: lock::LockedView,
    pub source: IndexSource,
    pub provided_by: Option<Seq<char>>,
}

impl View for IndexedVersion {
    type V = IndexedView;

    open spec fn view(&self) -> IndexedView {
        IndexedView {
            version: self.version@,
            locked: self.locked@,
            source: self.source,
            provided_by: text::opt_text(self.provided_by),
        }
    }
}

impl IndexedVersion {
    /// A copy.
    pub fn copy(&self) -> (r: IndexedVersion)
        ensures
            r@ == self@,
    {
        IndexedVersion {
            version: self.version.clone(),
            locked: self.locked.copy(),
            source: self.source,
            provided_by: lock::copy_text(&self.provided_by),
        }
    }
}

/// The versions of one package by their keys.
pub type VersionMap = Seq<(Seq<char>, IndexedView)>;

/// The versions of packages by the names of the packages.
pub type PackageMap = Seq<(Seq<char>, VersionMap)>;

/// The versions that a map holds.
pub open spec fn version_map(m: StrMap<IndexedVersion>) -> VersionMap {
    collections::with_values(m@, |v: IndexedVersion| v@)
}

/// What an index consists of.
#[verifier::ext_equal]
pub struct IndexView {
    pub packages: PackageMap,
    /// The package behind a version of a virtual package.
    pub providers: Seq<(Seq<char>, Seq<(Seq<char>, Seq<char>)>)>,
    /// The packages behind a virtual package.
    pub provider_names: Seq<(Seq<char>, Seq<Seq<char>>)>,
}

/// All known versions of packages.
#[derive(Debug)]
pub struct PackageIndex {
    packages: StrMap<StrMap<IndexedVersion>>,
    virtual_providers: StrMap<StrMap<String>>,
    virtual_provider_names: StrMap<Vec<String>>,
}

impl View for PackageIndex {
    type V = IndexView;

    closed spec fn view(&self) -> IndexView {
        IndexView {
            packages: collections::with_values(
                self.packages@,
                |m: StrMap<IndexedVersion>| version_map(m),
            ),
            providers: collections::with_values(
                self.virtual_providers@,
                |m: StrMap<String>| collections::link_pairs(m),
            ),
            provider_names: collections::with_values(
                self.virtual_provider_names@,
                |v: Vec<String>| text::texts(v@),
            ),
        }
    }
}

/// The value of a key, or nothing.
pub open spec fn entry_of<V>(p: Seq<(Seq<char>, Seq<V>)>, k: Seq<char>) -> Seq<V> {
    match collections::lookup(p, k) {
        Some(v) => v,
        None => Seq::empty(),
    }
}

/// The packages after a version was entered.
pub open spec fn put_version(
    p: PackageMap,
    name: Seq<char>,
    key: Seq<char>,
    v: IndexedView,
) -> PackageMap {
    collections::inserted(p, name, collections::inserted(entry_of(p, name), key, v))
}

/// The entry of a locked package.
pub open spec fn locked_entry(l: lock::LockedView, provided_by: Option<Seq<char>>) -> IndexedView {
    IndexedView {
        version: match version::parsed(l.version) {
            Some(v) => v,
            None => version::release_view(0, 0, 0),
        },
        locked: l,
        source: IndexSource::Inline,
        provided_by,
    }
}

/// The key of a locked package. The versions of a virtual package are told
/// apart by the packages behind them.
pub open spec fn locked_key(l: lock::LockedView, provided_by: Option<Seq<char>>) -> Seq<char> {
    match provided_by {
        Some(behind) => l.version + "@"@ + behind,
        None => l.version,
    }
}

/// The packages after a locked package was entered.
pub open spec fn put_locked(
    p: PackageMap,
    l: lock::LockedView,
    provided_by: Option<Seq<char>>,
) -> PackageMap {
    put_version(p, l.name, locked_key(l, provided_by), locked_entry(l, provided_by))
}

/// The entry of a version that a repository offers.
pub open spec fn remote_entry(r: repo::RemoteView) -> IndexedView {
    IndexedView {
        version: r.version,
        locked: repo::as_locked(r),
        source: IndexSource::Packagist,
        provided_by: None,
    }
}

/// The versions of a package after those that a repository offers were entered.
pub open spec fn with_remote(m: VersionMap, v: Seq<repo::RemoteView>) -> VersionMap
    decreases v.len(),
{
    if v.len() == 0 {
        m
    } else {
        collections::inserted(
            with_remote(m, v.drop_last()),
            v.last().version.raw,
            remote_entry(v.last()),
        )
    }
}

fn copy_versions(m: &StrMap<IndexedVersion>) -> (r: StrMap<IndexedVersion>)
    ensures
        version_map(r) == version_map(*m),
{
    let mut out: Vec<(String, IndexedVersion)> = Vec::new();
    let n: usize = m.entries.len();
    let mut i: usize = 0;
    while i < n
        invariant
            i <= n,
            n == m.entries@.len(),
            out@.len() == i,
            forall|j: int|
                0 <= j < i ==> (#[trigger] out@[j]).0@ == m.entries@[j].0@ && out@[j].1@
                    == m.entries@[j].1@,
        decreases n - i,
    {
        out.push((m.entries[i].0.clone(), m.entries[i].1.copy()));
        i += 1;
    }
    let r = StrMap { entries: out };
    assert(version_map(r) =~= version_map(*m));
    r
}

impl PackageIndex {
    /// The empty index.
    pub fn new() -> (r: Self)
        ensures
            r@ == (IndexView {
                packages: Seq::empty(),
                providers: Seq::empty(),
                provider_names: Seq::empty(),
            }),
    {
        let r = PackageIndex {
            packages: StrMap::new(),
            virtual_providers: StrMap::new(),
            virtual_provider_names: StrMap::new(),
        };
        assert(r@.packages =~= Seq::empty());
        assert(r@.providers =~= Seq::empty());
        assert(r@.provider_names =~= Seq::empty());
        r
    }

    proof fn lemma_lookup(&self, name: Seq<char>)
        ensures
            collections::lookup(self@.packages, name) == match collections::lookup(
                self.packages@,
                name,
            ) {
                Some(m) => Some(version_map(m)),
                None => None,
            },
            collections::lookup(self@.providers, name) == match collections::lookup(
                self.virtual_providers@,
                name,
            ) {
                Some(m) => Some(collections::link_pairs(m)),
                None => None,
            },
            collections::lookup(self@.provider_names, name) == match collections::lookup(
                self.virtual_provider_names@,
                name,
            ) {
                Some(v) => Some(text::texts(v@)),
                None => None,
            },
    {
        collections::lemma_with_values(
            self.packages@,
            name,
            arbitrary(),
            |m: StrMap<IndexedVersion>| version_map(m),
        );
        collections::lemma_with_values(
            self.virtual_providers@,
            name,
            arbitrary(),
            |m: StrMap<String>| collections::link_pairs(m),
        );
        collections::lemma_with_values(
            self.virtual_provider_names@,
            name,
            arbitrary(),
            |v: Vec<String>| text::texts(v@),
        );
    }

    /// Whether any version of a package is known.
    pub fn has_package(&self, name: &str) -> (r: bool)
        ensures
            r == (collections::lookup(self@.packages, name@) is Some),
    {
        proof {
            self.lemma_lookup(name@);
        }
        self.packages.contains_key(name)
    }

    /// The known versions of a package as locked packages.
    pub fn versions_of(&self, name: &str) -> (r: Option<Vec<&LockedPackage>>)
        ensures
            match r {
                Some(v) => collections::lookup(self@.packages, name@) is Some && lock::ref_views(v@)
                    == entry_of(self@.packages, name@).map_values(
                    |e: (Seq<char>, IndexedView)| e.1.locked,
                ),
                None => collections::lookup(self@.packages, name@) is None,
            },
    {
        proof {
            self.lemma_lookup(name@);
        }
        match self.packages.get(name) {
            Some(m) => {
                let mut out: Vec<&LockedPackage> = Vec::new();
                let n: usize = m.entries.len();
                let mut i: usize = 0;
                while i < n
                    invariant
                        i <= n,
                        n == m.entries@.len(),
                        out@.len() == i,
                        forall|j: int|
                            0 <= j < i ==> (#[trigger] out@[j])@ == m.entries@[j].1.locked@,
                    decreases n - i,
                {
                    out.push(&m.entries[i].1.locked);
                    i += 1;
                }
                assert(lock::ref_views(out@) =~= version_map(*m).map_values(
                    |e: (Seq<char>, IndexedView)| e.1.locked,
                ));
                Some(out)
            },
            None => None,
        }
    }

    /// The known versions of a package.
    pub fn all_versions(&self, name: &str) -> (r: Vec<&IndexedVersion>)
        ensures
            indexed_views(r@) == values_of(entry_of(self@.packages, name@)),
    {
        proof {
            self.lemma_lookup(name@);
        }
        let mut out: Vec<&IndexedVersion> = Vec::new();
        match self.packages.get(name) {
            Some(m) => {
                let n: usize = m.entries.len();
                let mut i: usize = 0;
                while i < n
                    invariant
                        i <= n,
                        n == m.entries@.len(),
                        out@.len() == i,
                        forall|j: int| 0 <= j < i ==> (#[trigger] out@[j])@ == m.entries@[j].1@,
                    decreases n - i,
                {
                    out.push(&m.entries[i].1);
                    i += 1;
                }
                assert(indexed_views(out@) =~= values_of(version_map(*m)));
            },
            None => {
                assert(indexed_views(out@) =~= values_of(Seq::empty()));
            },
        }
        out
    }

    /// The known versions of the package at a place in the order of names.
    pub fn versions_at(&self, at: usize) -> (r: Vec<&IndexedVersion>)
        requires
            at < self@.packages.len(),
        ensures
            indexed_views(r@) == values_of(self@.packages[at as int].1),
    {
        let m = &self.packages.entries[at].1;
        let mut out: Vec<&IndexedVersion> = Vec::new();
        let n: usize = m.entries.len();
        let mut i: usize = 0;
        while i < n
            invariant
                i <= n,
                n == m.entries@.len(),
                out@.len() == i,
                forall|j: int| 0 <= j < i ==> (#[trigger] out@[j])@ == m.entries@[j].1@,
            decreases n - i,
        {
            out.push(&m.entries[i].1);
            i += 1;
        }
        assert(indexed_views(out@) =~= values_of(version_map(*m)));
        out
    }

    /// The version of a package with the given key.
    pub fn get(&self, name: &str, version_raw: &str) -> (r: Option<&IndexedVersion>)
        ensures
            match r {
                Some(v) => collections::lookup(entry_of(self@.packages, name@), version_raw@)
                    == Some(v@),
                None => collections::lookup(entry_of(self@.packages, name@), version_raw@) is None,
            },
    {
        proof {
            self.lemma_lookup(name@);
        }
        match self.packages.get(name) {
            Some(m) => {
                proof {
                    collections::lemma_with_values(
                        m@,
                        version_raw@,
                        arbitrary(),
                        |v: IndexedVersion| v@,
                    );
                }
                m.get(version_raw)
            },
            None => None,
        }
    }

    /// The names of the packages, in order.
    pub fn package_names(&self) -> (r: Vec<String>)
        ensures
            text::texts(r@) == names_of(self@.packages),
    {
        let mut out: Vec<String> = Vec::new();
        let n: usize = self.packages.entries.len();
        let mut i: usize = 0;
        while i < n
            invariant
                i <= n,
                n == self.packages.entries@.len(),
                out@.len() == i,
                forall|j: int|
                    0 <= j < i ==> (#[trigger] out@[j])@ == self.packages.entries@[j].0@,
            decreases n - i,
        {
            out.push(self.packages.entries[i].0.clone());
            i += 1;
        }
        assert(text::texts(out@) =~= names_of(self@.packages));
        out
    }

    fn copied(&self, name: &str) -> (r: StrMap<IndexedVersion>)
        ensures
            version_map(r) == entry_of(self@.packages, name@),
    {
        proof {
            self.lemma_lookup(name@);
        }
        match self.packages.get(name) {
            Some(m) => copy_versions(m),
            None => {
                let r: StrMap<IndexedVersion> = StrMap::new();
                assert(version_map(r) =~= Seq::empty());
                r
            },
        }
    }

    fn set_versions(&mut self, name: String, m: StrMap<IndexedVersion>)
        ensures
            final(self)@ == (IndexView {
                packages: collections::inserted(old(self)@.packages, name@, version_map(m)),
                ..old(self)@
            }),
    {
        proof {
            collections::lemma_with_values(
                self.packages@,
                name@,
                m,
                |m: StrMap<IndexedVersion>| version_map(m),
            );
        }
        self.packages.insert(name, m);
    }

    /// Enters the versions that a repository offers.
    pub fn insert_remote(&mut self, name: &str, versions: Vec<RemotePackageVersion>)
        ensures
            final(self)@ == (IndexView {
                packages: collections::inserted(
                    old(self)@.packages,
                    name@,
                    with_remote(
                        entry_of(old(self)@.packages, name@),
                        repo::remote_views(versions@),
                    ),
                ),
                ..old(self)@
            }),
    {
        let mut m = self.copied(name);
        let ghost start = version_map(m);
        let ghost all = repo::remote_views(versions@);
        let n: usize = versions.len();
        let mut i: usize = 0;
        while i < n
            invariant
                i <= n,
                n == versions@.len(),
                all == repo::remote_views(versions@),
                version_map(m) == with_remote(start, all.take(i as int)),
            decreases n - i,
        {
            let v = &versions[i];
            let entry = IndexedVersion {
                version: v.version.clone(),
                locked: v.to_locked(),
                source: IndexSource::Packagist,
                provided_by: None,
            };
            let key = String::from_str(v.version.as_str());
            proof {
                assert(all.take(i + 1).drop_last() =~= all.take(i as int));
                assert(all.take(i + 1).last() == v@);
                assert(entry@ == remote_entry(v@));
                collections::lemma_with_values(m@, key@, entry, |v: IndexedVersion| v@);
            }
            m.insert(key, entry);
            i += 1;
        }
        assert(all.take(n as int) =~= all);
        self.set_versions(String::from_str(name), m);
    }

    /// Enters a package of a local repository.
    pub fn insert_local(&mut self, pkg: &LocalPathPackage)
        ensures
            final(self)@ == (IndexView {
                packages: put_version(
                    old(self)@.packages,
                    pkg.name@,
                    pkg.version@.raw,
                    IndexedView {
                        version: pkg.version@,
                        locked: sources::local_as_locked(*pkg),
                        source: kind_source(pkg.source_kind),
                        provided_by: None,
                    },
                ),
                ..old(self)@
            }),
    {
        let mut m = self.copied(pkg.name.as_str());
        let entry = IndexedVersion {
            version: pkg.version.clone(),
            locked: pkg.to_locked(),
            source: match pkg.source_kind {
                SourceKind::Path => IndexSource::Path,
                SourceKind::Vcs => IndexSource::Vcs,
            },
            provided_by: None,
        };
        let key = String::from_str(pkg.version.as_str());
        proof {
            collections::lemma_with_values(m@, key@, entry, |v: IndexedVersion| v@);
        }
        m.insert(key, entry);
        self.set_versions(pkg.name.clone(), m);
    }

    /// Enters a locked package.
    pub fn insert_locked(&mut self, locked: LockedPackage)
        ensures
            final(self)@ == (IndexView {
                packages: put_locked(old(self)@.packages, locked@, None),
                ..old(self)@
            }),
    {
        self.insert_locked_with_provider(locked, None);
    }

    fn insert_locked_with_provider(&mut self, locked: LockedPackage, provided_by: Option<String>)
        ensures
            final(self)@ == (IndexView {
                packages: put_locked(
                    old(self)@.packages,
                    locked@,
                    text::opt_text(provided_by),
                ),
                ..old(self)@
            }),
    {
        let version = match ComposerVersion::parse(locked.version.as_str()) {
            Ok(v) => v,
            Err(_) => ComposerVersion::release(0, 0, 0),
        };
        let key = match &provided_by {
            Some(behind) => text::cat3(locked.version.as_str(), "@", behind.as_str()),
            None => locked.version.clone(),
        };
        let mut m = self.copied(locked.name.as_str());
        let name = locked.name.clone();
        let entry = IndexedVersion { version, locked, source: IndexSource::Inline, provided_by };
        proof {
            collections::lemma_with_values(m@, key@, entry, |v: IndexedVersion| v@);
        }
        m.insert(key, entry);
        self.set_versions(name, m);
    }
}

/// What a list of known versions consists of.
pub open spec fn indexed_views(v: Seq<&IndexedVersion>) -> Seq<IndexedView> {
    v.map_values(|i: &IndexedVersion| i@)
}

/// The versions of a map, in the order of their keys.
pub open spec fn values_of(m: VersionMap) -> Seq<IndexedView> {
    m.map_values(|e: (Seq<char>, IndexedView)| e.1)
}

/// The names of the packages.
pub open spec fn names_of(p: PackageMap) -> Seq<Seq<char>> {
    p.map_values(|e: (Seq<char>, VersionMap)| e.0)
}

// ---------------------------------------------------------------------------
// Virtual packages

/// The versions of a package that are no versions of a virtual package.
pub open spec fn real_versions(m: VersionMap) -> Seq<lock::LockedView>
    decreases m.len(),
{
    if m.len() == 0 {
        Seq::empty()
    } else if m.last().1.provided_by is None {
        real_versions(m.drop_last()).push(m.last().1.locked)
    } else {
        real_versions(m.drop_last())
    }
}

/// All versions that are no versions of a virtual package.
pub open spec fn all_real(p: PackageMap) -> Seq<lock::LockedView>
    decreases p.len(),
{
    if p.len() == 0 {
        Seq::empty()
    } else {
        all_real(p.drop_last()) + real_versions(p.last().1)
    }
}

/// A declaration that leaves the version open.
pub open spec fn leaves_open(t: Seq<char>) -> bool {
    t == "self.version"@ || t == "*"@ || t.len() == 0 || text::starts(t, "^"@) || text::starts(
        t,
        "~"@,
    ) || text::starts(t, ">"@) || text::starts(t, "<"@) || t.contains('|')
}

/// The version in which a package stands for a virtual one: its own where the
/// declaration leaves it open.
pub open spec fn virtual_version(declared: Seq<char>, own: Seq<char>) -> Seq<char> {
    let t = text::trimmed(declared);
    if leaves_open(t) {
        own
    } else {
        text::without_front(t, '=')
    }
}

/// The packages that a package stands for, with the declared versions.
pub open spec fn virtuals_of(l: lock::LockedView) -> Seq<(Seq<char>, Seq<char>)> {
    l.provide + l.replace
}

/// The index after a package was entered as a virtual one.
pub open spec fn with_virtual(
    ix: IndexView,
    behind: lock::LockedView,
    name: Seq<char>,
    declared: Seq<char>,
) -> IndexView {
    if name.len() == 0 || name == behind.name {
        ix
    } else {
        let version = virtual_version(declared, behind.version);
        let alias = lock::LockedView {
            name,
            version,
            provide: Seq::empty(),
            replace: Seq::empty(),
            ..behind
        };
        IndexView {
            packages: put_locked(ix.packages, alias, Some(behind.name)),
            providers: collections::inserted(
                ix.providers,
                name,
                collections::inserted(entry_of(ix.providers, name), version, behind.name),
            ),
            provider_names: collections::inserted(
                ix.provider_names,
                name,
                entry_of(ix.provider_names, name).push(behind.name),
            ),
        }
    }
}

/// The index after a package was entered for all that it stands for.
pub open spec fn with_virtuals(
    ix: IndexView,
    behind: lock::LockedView,
    v: Seq<(Seq<char>, Seq<char>)>,
) -> IndexView
    decreases v.len(),
{
    if v.len() == 0 {
        ix
    } else {
        with_virtual(with_virtuals(ix, behind, v.drop_last()), behind, v.last().0, v.last().1)
    }
}

/// The index after all packages of a list were entered for what they stand for.
pub open spec fn with_all_virtuals(ix: IndexView, behind: Seq<lock::LockedView>) -> IndexView
    decreases behind.len(),
{
    if behind.len() == 0 {
        ix
    } else {
        with_virtuals(
            with_all_virtuals(ix, behind.drop_last()),
            behind.last(),
            virtuals_of(behind.last()),
        )
    }
}

fn virtual_version_of(declared: &str, own: &str) -> (r: String)
    ensures
        r@ == virtual_version(declared@, own@),
{
    let t = text::trim(declared);
    if text::same(t, "self.version") || text::same(t, "*") || t.unicode_len() == 0
        || text::starts_with(t, "^") || text::starts_with(t, "~") || text::starts_with(t, ">")
        || text::starts_with(t, "<") || text::contains_char(t, '|') {
        String::from_str(own)
    } else {
        String::from_str(text::trim_front_char(t, '='))
    }
}

impl PackageIndex {
    fn real_packages(&self) -> (r: Vec<LockedPackage>)
        ensures
            lock::locked_views(r@) == all_real(self@.packages),
    {
        let mut out: Vec<LockedPackage> = Vec::new();
        let ghost all = self@.packages;
        let n: usize = self.packages.entries.len();
        let mut i: usize = 0;
        assert(lock::locked_views(out@) =~= Seq::empty());
        while i < n
            invariant
                i <= n,
                n == self.packages.entries@.len(),
                all == self@.packages,
                all.len() == n,
                lock::locked_views(out@) == all_real(all.take(i as int)),
            decreases n - i,
        {
            let m = &self.packages.entries[i].1;
            let ghost before = out@;
            let ghost versions = version_map(*m);
            let k: usize = m.entries.len();
            let mut j: usize = 0;
            assert(lock::locked_views(before) + Seq::<lock::LockedView>::empty()
                =~= lock::locked_views(before));
            while j < k
                invariant
                    j <= k,
                    k == m.entries@.len(),
                    versions == version_map(*m),
                    lock::locked_views(out@) == lock::locked_views(before) + real_versions(
                        versions.take(j as int),
                    ),
                decreases k - j,
            {
                proof {
                    assert(versions.take(j + 1).drop_last() =~= versions.take(j as int));
                    assert(versions.take(j + 1).last() == (
                        m.entries@[j as int].0@,
                        m.entries@[j as int].1@,
                    ));
                }
                if m.entries[j].1.provided_by.is_none() {
                    let ghost now = out@;
                    let p = m.entries[j].1.locked.copy();
                    out.push(p);
                    assert(lock::locked_views(out@) =~= lock::locked_views(now).push(p@));
                    assert(lock::locked_views(out@) =~= lock::locked_views(before) + real_versions(
                        versions.take(j as int),
                    ).push(p@));
                }
                j += 1;
            }
            proof {
                assert(versions.take(k as int) =~= versions);
                assert(all.take(i + 1).drop_last() =~= all.take(i as int));
                assert(all.take(i + 1).last().1 == versions);
            }
            i += 1;
        }
        assert(all.take(n as int) =~= all);
        out
    }

    fn enter_virtual(&mut self, behind: &LockedPackage, name: &str, declared: &str)
        ensures
            final(self)@ == with_virtual(old(self)@, behind@, name@, declared@),
    {
        if name.unicode_len() == 0 || text::same(name, behind.name.as_str()) {
            return;
        }
        let version = virtual_version_of(declared, behind.version.as_str());
        let mut alias = behind.copy();
        alias.name = String::from_str(name);
        alias.version = version.clone();
        alias.provide = StrMap::new();
        alias.replace = StrMap::new();
        assert(alias@.provide =~= Seq::empty());
        assert(alias@.replace =~= Seq::empty());
        let ghost start = self@;
        proof {
            self.lemma_lookup(name@);
        }
        let mut by_version: StrMap<String> = match self.virtual_providers.get(name) {
            Some(m) => m.copy(),
            None => StrMap::new(),
        };
        assert(collections::link_pairs(by_version) =~= entry_of(start.providers, name@));
        let real_name = behind.name.clone();
        proof {
            collections::lemma_with_values(by_version@, version@, real_name, |s: String| s@);
        }
        by_version.insert(version, real_name);
        proof {
            collections::lemma_with_values(
                self.virtual_providers@,
                name@,
                by_version,
                |m: StrMap<String>| collections::link_pairs(m),
            );
        }
        self.virtual_providers.insert(String::from_str(name), by_version);
        let mut names: Vec<String> = match self.virtual_provider_names.get(name) {
            Some(v) => collections::copy_texts(v),
            None => Vec::new(),
        };
        assert(text::texts(names@) =~= entry_of(start.provider_names, name@));
        let ghost before = names@;
        names.push(behind.name.clone());
        assert(text::texts(names@) =~= text::texts(before).push(behind.name@));
        proof {
            collections::lemma_with_values(
                self.virtual_provider_names@,
                name@,
                names,
                |v: Vec<String>| text::texts(v@),
            );
        }
        self.virtual_provider_names.insert(String::from_str(name), names);
        self.insert_locked_with_provider(alias, Some(behind.name.clone()));
    }

    fn enter_links(&mut self, behind: &LockedPackage, links: &StrMap<String>, Ghost(done): Ghost<
        Seq<(Seq<char>, Seq<char>)>,
    >, Ghost(start): Ghost<IndexView>)
        requires
            old(self)@ == with_virtuals(start, behind@, done),
        ensures
            final(self)@ == with_virtuals(start, behind@, done + collections::link_pairs(*links)),
    {
        let ghost all = collections::link_pairs(*links);
        let n: usize = links.entries.len();
        let mut i: usize = 0;
        assert(done + all.take(0) =~= done);
        while i < n
            invariant
                i <= n,
                n == links.entries@.len(),
                all == collections::link_pairs(*links),
                self@ == with_virtuals(start, behind@, done + all.take(i as int)),
            decreases n - i,
        {
            let name = links.entries[i].0.as_str();
            let declared = links.entries[i].1.as_str();
            proof {
                let next = done + all.take(i + 1);
                assert(next.drop_last() =~= done + all.take(i as int));
                assert(next.last() == (name@, declared@));
            }
            self.enter_virtual(behind, name, declared);
            i += 1;
        }
        assert(done + all.take(n as int) =~= done + all);
    }

    /// Enters the virtual packages that the packages declare to provide or to
    /// replace. Several packages may stand for the same virtual one.
    pub fn register_virtual_packages(&mut self)
        ensures
            final(self)@ == with_all_virtuals(old(self)@, all_real(old(self)@.packages)),
    {
        let behind = self.real_packages();
        let ghost start = self@;
        let ghost all = lock::locked_views(behind@);
        let n: usize = behind.len();
        let mut i: usize = 0;
        while i < n
            invariant
                i <= n,
                n == behind@.len(),
                all == lock::locked_views(behind@),
                self@ == with_all_virtuals(start, all.take(i as int)),
            decreases n - i,
        {
            let ghost here = self@;
            proof {
                assert(all.take(i + 1).drop_last() =~= all.take(i as int));
                assert(all.take(i + 1).last() == behind@[i as int]@);
            }
            let ghost none: Seq<(Seq<char>, Seq<char>)> = Seq::empty();
            self.enter_links(&behind[i], &behind[i].provide, Ghost(none), Ghost(here));
            assert(none + collections::link_pairs(behind@[i as int].provide)
                =~= collections::link_pairs(behind@[i as int].provide));
            self.enter_links(
                &behind[i],
                &behind[i].replace,
                Ghost(collections::link_pairs(behind@[i as int].provide)),
                Ghost(here),
            );
            i += 1;
        }
        assert(all.take(n as int) =~= all);
    }
}

/// The first package behind a virtual one.
pub open spec fn first_provider(ix: IndexView, name: Seq<char>) -> Option<Seq<char>> {
    match collections::lookup(ix.provider_names, name) {
        Some(v) => if v.len() > 0 {
            Some(v[0])
        } else {
            None
        },
        None => None,
    }
}

/// The first version with the given text.
pub open spec fn with_text(m: Seq<IndexedView>, raw: Seq<char>) -> Option<IndexedView>
    decreases m.len(),
{
    if m.len() == 0 {
        None
    } else if m[0].version.raw == raw || m[0].locked.version == raw {
        Some(m[0])
    } else {
        with_text(m.skip(1), raw)
    }
}

/// The package behind a version of a virtual package.
pub open spec fn provider_of(ix: IndexView, name: Seq<char>, raw: Seq<char>) -> Option<Seq<char>> {
    match collections::lookup(entry_of(ix.providers, name), raw) {
        Some(behind) => Some(behind),
        None => match with_text(values_of(entry_of(ix.packages, name)), raw) {
            Some(v) => match v.provided_by {
                Some(behind) => Some(behind),
                None => first_provider(ix, name),
            },
            None => first_provider(ix, name),
        },
    }
}

/// The highest version of a list that is none of a virtual package, the last
/// where several stand at the same place.
pub open spec fn best_real(m: Seq<IndexedView>) -> Option<IndexedView>
    decreases m.len(),
{
    if m.len() == 0 {
        None
    } else if m.last().provided_by is Some {
        best_real(m.drop_last())
    } else {
        match best_real(m.drop_last()) {
            Some(b) => if version::version_lt(m.last().version, b.version) {
                Some(b)
            } else {
                Some(m.last())
            },
            None => Some(m.last()),
        }
    }
}

/// The locked package by which a package stands for a virtual one.
pub open spec fn provider_entry(ix: IndexView, behind: Seq<char>, hint: Seq<char>) -> Option<
    lock::LockedView,
> {
    match collections::lookup(entry_of(ix.packages, behind), hint) {
        Some(v) => Some(v.locked),
        None => match best_real(values_of(entry_of(ix.packages, behind))) {
            Some(v) => Some(v.locked),
            None => None,
        },
    }
}

impl PackageIndex {
    fn first_provider_of(&self, name: &str) -> (r: Option<&str>)
        ensures
            text::opt_view(r) == first_provider(self@, name@),
    {
        proof {
            self.lemma_lookup(name@);
        }
        match self.virtual_provider_names.get(name) {
            Some(v) => if v.len() > 0 {
                assert(text::texts(v@)[0] == v@[0]@);
                Some(v[0].as_str())
            } else {
                None
            },
            None => None,
        }
    }

    /// The first package behind a virtual package; the package itself if it is
    /// no virtual one.
    pub fn real_package_name<'a>(&'a self, name: &'a str) -> (r: &'a str)
        ensures
            r@ == match first_provider(self@, name@) {
                Some(behind) => behind,
                None => name@,
            },
    {
        match self.first_provider_of(name) {
            Some(behind) => behind,
            None => name,
        }
    }

    /// The package behind a version of a virtual package.
    pub fn real_provider_for(&self, virtual_name: &str, version_raw: &str) -> (r: Option<&str>)
        ensures
            text::opt_view(r) == provider_of(self@, virtual_name@, version_raw@),
    {
        proof {
            self.lemma_lookup(virtual_name@);
        }
        if let Some(m) = self.virtual_providers.get(virtual_name) {
            proof {
                collections::lemma_link_lookup(*m, version_raw@);
            }
            if let Some(behind) = m.get(version_raw) {
                return Some(behind.as_str());
            }
        }
        let versions = self.all_versions(virtual_name);
        let ghost all = indexed_views(versions@);
        let n: usize = versions.len();
        let mut i: usize = 0;
        assert(all.skip(0) =~= all);
        while i < n
            invariant
                i <= n,
                n == versions@.len(),
                all == indexed_views(versions@),
                all == values_of(entry_of(self@.packages, virtual_name@)),
                collections::lookup(entry_of(self@.providers, virtual_name@), version_raw@) is None,
                with_text(all, version_raw@) == with_text(all.skip(i as int), version_raw@),
            decreases n - i,
        {
            let v = versions[i];
            assert(all.skip(i as int)[0] == v@);
            if text::same(v.version.as_str(), version_raw) || text::same(
                v.locked.version.as_str(),
                version_raw,
            ) {
                if let Some(behind) = &v.provided_by {
                    return Some(behind.as_str());
                }
                return self.first_provider_of(virtual_name);
            }
            assert(all.skip(i as int).skip(1) =~= all.skip(i + 1));
            i += 1;
        }
        self.first_provider_of(virtual_name)
    }

    /// The locked package by which a package stands for a virtual one: the
    /// version `hint_version` if there is one, else the highest.
    pub fn provider_locked(&self, real_name: &str, hint_version: &str) -> (r: Option<
        LockedPackage,
    >)
        ensures
            match r {
                Some(p) => provider_entry(self@, real_name@, hint_version@) == Some(p@),
                None => provider_entry(self@, real_name@, hint_version@) is None,
            },
    {
        if let Some(v) = self.get(real_name, hint_version) {
            return Some(v.locked.copy());
        }
        let versions = self.all_versions(real_name);
        let ghost all = indexed_views(versions@);
        let mut best: Option<usize> = None;
        let n: usize = versions.len();
        let mut i: usize = 0;
        while i < n
            invariant
                i <= n,
                n == versions@.len(),
                all == indexed_views(versions@),
                match best {
                    Some(b) => b < i && best_real(all.take(i as int)) == Some(all[b as int]),
                    None => best_real(all.take(i as int)) is None,
                },
            decreases n - i,
        {
            proof {
                assert(all.take(i + 1).drop_last() =~= all.take(i as int));
                assert(all.take(i + 1).last() == versions@[i as int]@);
            }
            if versions[i].provided_by.is_none() {
                let better = match best {
                    Some(b) => {
                        assert(all[b as int] == versions@[b as int]@);
                        !versions[i].version.lies_below(&versions[b].version)
                    },
                    None => true,
                };
                if better {
                    best = Some(i);
                }
            }
            i += 1;
        }
        assert(all.take(n as int) =~= all);
        match best {
            Some(b) => {
                assert(all[b as int] == versions@[b as int]@);
                Some(versions[b].locked.copy())
            },
            None => None,
        }
    }
}

// ---------------------------------------------------------------------------
// Pins

/// The versions that are none of a virtual package and have the given text.
pub open spec fn retained(m: VersionMap, want: Seq<char>) -> VersionMap
    decreases m.len(),
{
    if m.len() == 0 {
        m
    } else if m.last().1.provided_by is None && m.last().1.locked.version == want {
        retained(m.drop_last(), want).push(m.last())
    } else {
        retained(m.drop_last(), want)
    }
}

/// The packages after one of them was pinned.
pub open spec fn pinned(p: PackageMap, name: Seq<char>, l: lock::LockedView) -> PackageMap {
    let q = put_locked(p, l, None);
    match collections::lookup(q, name) {
        Some(m) => collections::inserted(q, name, retained(m, l.version)),
        None => q,
    }
}

/// The packages after all pins were set.
pub open spec fn all_pinned(p: PackageMap, pins: Seq<(Seq<char>, lock::LockedView)>) -> PackageMap
    decreases pins.len(),
{
    if pins.len() == 0 {
        p
    } else {
        pinned(all_pinned(p, pins.drop_last()), pins.last().0, pins.last().1)
    }
}

/// What a map of locked packages consists of.
pub open spec fn locked_map_view(m: StrMap<LockedPackage>) -> Seq<(Seq<char>, lock::LockedView)> {
    collections::with_values(m@, |l: LockedPackage| l@)
}

fn retain_versions(m: &StrMap<IndexedVersion>, want: &str) -> (r: StrMap<IndexedVersion>)
    ensures
        version_map(r) == retained(version_map(*m), want@),
{
    let ghost all = version_map(*m);
    let mut out: StrMap<IndexedVersion> = StrMap::new();
    let n: usize = m.entries.len();
    let mut i: usize = 0;
    assert(version_map(out) =~= retained(all.take(0), want@));
    while i < n
        invariant
            i <= n,
            n == m.entries@.len(),
            all == version_map(*m),
            version_map(out) == retained(all.take(i as int), want@),
        decreases n - i,
    {
        proof {
            assert(all.take(i + 1).drop_last() =~= all.take(i as int));
            assert(all.take(i + 1).last() == (m.entries@[i as int].0@, m.entries@[i as int].1@));
        }
        let v = &m.entries[i].1;
        if v.provided_by.is_none() && text::same(v.locked.version.as_str(), want) {
            let ghost before = out;
            out.entries.push((m.entries[i].0.clone(), v.copy()));
            assert(version_map(out) =~= version_map(before).push(
                (m.entries@[i as int].0@, v@),
            ));
        }
        i += 1;
    }
    assert(all.take(n as int) =~= all);
    out
}

impl PackageIndex {
    /// Pins packages to locked versions: each locked version is entered, so
    /// that it is there even if no repository offers it any more, and all other
    /// versions of the package are dropped.
    pub fn pin_to_locked(&mut self, pins: &StrMap<LockedPackage>)
        ensures
            final(self)@ == (IndexView {
                packages: all_pinned(old(self)@.packages, locked_map_view(*pins)),
                ..old(self)@
            }),
    {
        let ghost start = self@;
        let ghost all = locked_map_view(*pins);
        let n: usize = pins.entries.len();
        let mut i: usize = 0;
        while i < n
            invariant
                i <= n,
                n == pins.entries@.len(),
                all == locked_map_view(*pins),
                self@ == (IndexView {
                    packages: all_pinned(start.packages, all.take(i as int)),
                    ..start
                }),
            decreases n - i,
        {
            let name = pins.entries[i].0.as_str();
            let locked = &pins.entries[i].1;
            proof {
                assert(all.take(i + 1).drop_last() =~= all.take(i as int));
                assert(all.take(i + 1).last() == (name@, locked@));
            }
            self.insert_locked(locked.copy());
            proof {
                self.lemma_lookup(name@);
            }
            let kept = match self.packages.get(name) {
                Some(m) => Some(retain_versions(m, locked.version.as_str())),
                None => None,
            };
            if let Some(m) = kept {
                self.set_versions(String::from_str(name), m);
            }
            i += 1;
        }
        assert(all.take(n as int) =~= all);
    }
}

proof fn lemma_retained(m: VersionMap, want: Seq<char>)
    ensures
        forall|i: int|
            0 <= i < retained(m, want).len() ==> (#[trigger] retained(m, want)[i]).1.provided_by
                is None && retained(m, want)[i].1.locked.version == want,
    decreases m.len(),
{
    if m.len() > 0 {
        lemma_retained(m.drop_last(), want);
    }
}

proof fn lemma_retained_keeps(m: VersionMap, want: Seq<char>, k: Seq<char>)
    requires
        collections::lookup(m, k) matches Some(v) && v.provided_by is None && v.locked.version
            == want,
    ensures
        retained(m, want).len() > 0,
    decreases m.len(),
{
    if m.len() > 0 {
        if m.last().1.provided_by is None && m.last().1.locked.version == want {
        } else {
            lemma_lookup_drop(m, k);
            lemma_retained_keeps(m.drop_last(), want, k);
        }
    }
}

proof fn lemma_lookup_drop(m: VersionMap, k: Seq<char>)
    requires
        m.len() > 0,
        collections::lookup(m, k) is Some,
        collections::lookup(m, k) != Some(m.last().1),
    ensures
        collections::lookup(m.drop_last(), k) == collections::lookup(m, k),
    decreases m.len(),
{
    if m[0].0 != k {
        if m.len() == 1 {
            assert(m.skip(1) =~= Seq::empty());
        } else {
            assert(m.skip(1).drop_last() =~= m.drop_last().skip(1));
            assert(m.skip(1).last() == m.last());
            lemma_lookup_drop(m.skip(1), k);
        }
    } else {
        assert(m.len() > 1);
    }
}

/// Every version of the package is the pinned one, and there is one.
pub open spec fn holds_pin(p: PackageMap, name: Seq<char>, l: lock::LockedView) -> bool {
    collections::lookup(p, name) matches Some(m) && m.len() > 0 && forall|i: int|
        0 <= i < m.len() ==> (#[trigger] m[i]).1.provided_by is None && m[i].1.locked.version
            == l.version
}

proof fn lemma_pinned(p: PackageMap, l: lock::LockedView, other: Seq<char>)
    ensures
        holds_pin(pinned(p, l.name, l), l.name, l),
        other != l.name ==> collections::lookup(pinned(p, l.name, l), other)
            == collections::lookup(p, other),
{
    let versions = collections::inserted(
        entry_of(p, l.name),
        locked_key(l, None),
        locked_entry(l, None),
    );
    let q = put_locked(p, l, None);
    collections::law_lookup_inserted(p, l.name, versions, l.name);
    collections::law_lookup_inserted(p, l.name, versions, other);
    collections::law_lookup_inserted(
        entry_of(p, l.name),
        locked_key(l, None),
        locked_entry(l, None),
        l.version,
    );
    let kept = retained(versions, l.version);
    collections::law_lookup_inserted(q, l.name, kept, l.name);
    collections::law_lookup_inserted(q, l.name, kept, other);
    lemma_retained(versions, l.version);
    lemma_retained_keeps(versions, l.version, l.version);
}

/// A pinned package is known in the pinned version alone, whatever was known of
/// it before.
pub proof fn law_pins_hold(p: PackageMap, pins: Seq<(Seq<char>, lock::LockedView)>, i: int)
    requires
        0 <= i < pins.len(),
        forall|a: int| 0 <= a < pins.len() ==> (#[trigger] pins[a]).0 == pins[a].1.name,
        forall|a: int, b: int|
            0 <= a < b < pins.len() ==> (#[trigger] pins[a]).0 != (#[trigger] pins[b]).0,
    ensures
        holds_pin(all_pinned(p, pins), pins[i].0, pins[i].1),
    decreases pins.len(),
{
    let rest = pins.drop_last();
    lemma_pinned(all_pinned(p, rest), pins.last().1, pins[i].0);
    if i < rest.len() {
        assert(rest[i] == pins[i]);
        law_pins_hold(p, rest, i);
    }
}

/// A package that is not pinned keeps its versions.
pub proof fn law_pins_touch_nothing_else(
    p: PackageMap,
    pins: Seq<(Seq<char>, lock::LockedView)>,
    name: Seq<char>,
)
    requires
        forall|a: int| 0 <= a < pins.len() ==> (#[trigger] pins[a]).0 == pins[a].1.name,
        forall|a: int| 0 <= a < pins.len() ==> (#[trigger] pins[a]).0 != name,
    ensures
        collections::lookup(all_pinned(p, pins), name) == collections::lookup(p, name),
    decreases pins.len(),
{
    if pins.len() > 0 {
        let rest = pins.drop_last();
        lemma_pinned(all_pinned(p, rest), pins.last().1, name);
        law_pins_touch_nothing_else(p, rest, name);
    }
}

// ---------------------------------------------------------------------------
// Laws

/// A virtual package has the version that is declared for it, if that is one
/// version; otherwise it has that of the package behind it.
pub proof fn law_versions_of_virtuals(t: Seq<char>, own: Seq<char>)
    requires
        t.len() > 0 ==> !text::is_space(t[0]) && !text::is_space(t.last()),
    ensures
        (t.len() == 0 || t == "self.version"@ || t == seq!['*'] || t.contains('|')) ==> virtual_version(
            t,
            own,
        ) == own,
        (t.len() > 0 && (t[0] == '^' || t[0] == '~' || t[0] == '>' || t[0] == '<'))
            ==> virtual_version(t, own) == own,
        (t.len() > 0 && text::is_digit(t[0]) && !t.contains('|')) ==> virtual_version(t, own) == t
            && virtual_version(seq!['='] + t, own) == t,
{
    reveal_strlit("^");
    reveal_strlit("~");
    reveal_strlit(">");
    reveal_strlit("<");
    reveal_strlit("*");
    reveal_strlit("self.version");
    text::lemma_trimmed_same(t);
    assert("*"@ =~= seq!['*']);
    assert("*"@[0] == '*' && "self.version"@[0] == 's');
    if t.len() > 0 {
        lemma_first_char(t, "^"@);
        lemma_first_char(t, "~"@);
        lemma_first_char(t, ">"@);
        lemma_first_char(t, "<"@);
        let e = seq!['='] + t;
        assert(e[0] == '=' && e.last() == t.last());
        text::lemma_trimmed_same(e);
        lemma_first_char(e, "^"@);
        lemma_first_char(e, "~"@);
        lemma_first_char(e, ">"@);
        lemma_first_char(e, "<"@);
        assert(e.skip(1) =~= t);
        if text::is_digit(t[0]) && !t.contains('|') {
            if e.contains('|') {
                let i = choose|i: int| 0 <= i < e.len() && e[i] == '|';
                assert(t[i - 1] == '|');
            }
            assert(text::without_front(t, '=') == t);
            assert(text::without_front(e, '=') == text::without_front(t, '='));
        }
    }
}

proof fn lemma_first_char(t: Seq<char>, p: Seq<char>)
    requires
        t.len() > 0,
        p.len() == 1,
    ensures
        text::starts(t, p) == (t[0] == p[0]),
{
    if t[0] == p[0] {
        assert(t.take(1) =~= p);
    } else {
        assert(t.take(1)[0] == t[0]);
    }
}

/// What a package provides or replaces is known under that name afterwards, and
/// the package behind it is remembered; other names are as before.
pub proof fn law_virtuals_are_known(
    ix: IndexView,
    behind: lock::LockedView,
    name: Seq<char>,
    declared: Seq<char>,
    other: Seq<char>,
)
    requires
        name.len() > 0,
        name != behind.name,
        other != name,
    ensures
        ({
            let r = with_virtual(ix, behind, name, declared);
            let v = virtual_version(declared, behind.version);
            &&& provider_of(r, name, v) == Some(behind.name)
            &&& collections::lookup(entry_of(r.packages, name), v + "@"@ + behind.name) matches Some(
                e,
            ) && e.provided_by == Some(behind.name) && e.locked.name == name && e.locked.version
                == v && e.locked.require == behind.require && e.locked.conflict == behind.conflict
            &&& collections::lookup(r.packages, other) == collections::lookup(ix.packages, other)
            &&& collections::lookup(r.providers, other) == collections::lookup(ix.providers, other)
            &&& collections::lookup(ix.provider_names, name) is None ==> first_provider(r, name)
                == Some(behind.name)
        }),
        with_virtual(ix, behind, behind.name, declared) == ix,
        with_virtual(ix, behind, Seq::empty(), declared) == ix,
{
    let r = with_virtual(ix, behind, name, declared);
    let version = virtual_version(declared, behind.version);
    let alias = lock::LockedView {
        name,
        version,
        provide: Seq::empty(),
        replace: Seq::empty(),
        ..behind
    };
    let key = locked_key(alias, Some(behind.name));
    let entry = locked_entry(alias, Some(behind.name));
    collections::law_lookup_inserted(
        ix.packages,
        name,
        collections::inserted(entry_of(ix.packages, name), key, entry),
        name,
    );
    collections::law_lookup_inserted(
        ix.packages,
        name,
        collections::inserted(entry_of(ix.packages, name), key, entry),
        other,
    );
    collections::law_lookup_inserted(entry_of(ix.packages, name), key, entry, key);
    let w = collections::inserted(entry_of(ix.providers, name), version, behind.name);
    collections::law_lookup_inserted(ix.providers, name, w, name);
    collections::law_lookup_inserted(ix.providers, name, w, other);
    collections::law_lookup_inserted(
        entry_of(ix.providers, name),
        version,
        behind.name,
        version,
    );
    let l = entry_of(ix.provider_names, name).push(behind.name);
    collections::law_lookup_inserted(ix.provider_names, name, l, name);
}

/// Every version that a repository offers is known afterwards, as it was offered;
/// of two with one text the later one counts.
pub proof fn law_offers_are_known(m: VersionMap, v: Seq<repo::RemoteView>, i: int)
    requires
        0 <= i < v.len(),
        forall|k: int| i < k < v.len() ==> (#[trigger] v[k]).version.raw != v[i].version.raw,
    ensures
        collections::lookup(with_remote(m, v), v[i].version.raw) matches Some(e) && e.version
            == v[i].version && e.locked == repo::as_locked(v[i]) && e.source
            == IndexSource::Packagist && e.provided_by is None,
    decreases v.len(),
{
    let front = v.drop_last();
    collections::law_lookup_inserted(
        with_remote(m, front),
        v.last().version.raw,
        remote_entry(v.last()),
        v[i].version.raw,
    );
    if i < front.len() {
        assert(front[i] == v[i]);
        assert(v[v.len() - 1].version.raw != v[i].version.raw);
        assert forall|k: int| i < k < front.len() implies (#[trigger] front[k]).version.raw
            != front[i].version.raw by {
            assert(v[k].version.raw != v[i].version.raw);
        }
        law_offers_are_known(m, front, i);
    }
}

/// The best version behind a virtual package is a real one, and no real one is
/// higher.
pub proof fn law_best_real(m: Seq<IndexedView>)
    ensures
        match best_real(m) {
            Some(b) => m.contains(b) && b.provided_by is None && forall|k: int|
                0 <= k < m.len() && (#[trigger] m[k]).provided_by is None ==> !version::version_lt(
                    b.version,
                    m[k].version,
                ),
            None => forall|k: int| 0 <= k < m.len() ==> (#[trigger] m[k]).provided_by is Some,
        },
    decreases m.len(),
{
    if m.len() > 0 {
        let front = m.drop_last();
        law_best_real(front);
        let own = m.last();
        assert(m[m.len() - 1] == own);
        assert forall|k: int| 0 <= k < front.len() implies #[trigger] m[k] == front[k] by {}
        version::law_version_order_total(own.version, own.version);
        if let Some(b) = best_real(front) {
            let at = choose|at: int| 0 <= at < front.len() && front[at] == b;
            assert(m[at] == b);
            version::law_version_order_total(own.version, b.version);
            if own.provided_by is None && !version::version_lt(own.version, b.version) {
                assert forall|k: int|
                    0 <= k < m.len() && (#[trigger] m[k]).provided_by
                        is None implies !version::version_lt(own.version, m[k].version) by {
                    if k < front.len() {
                        assert(front[k] == m[k]);
                        lemma_not_above(b.version, own.version, m[k].version);
                    }
                }
            } else {
                assert forall|k: int|
                    0 <= k < m.len() && (#[trigger] m[k]).provided_by
                        is None implies !version::version_lt(b.version, m[k].version) by {
                    if k < front.len() {
                        assert(front[k] == m[k]);
                    }
                }
            }
        } else {
            assert forall|k: int|
                0 <= k < m.len() && (#[trigger] m[k]).provided_by
                    is None implies !version::version_lt(own.version, m[k].version) by {
                if k < front.len() {
                    assert(front[k].provided_by is Some);
                }
            }
            if own.provided_by is Some {
                assert forall|k: int| 0 <= k < m.len() implies (#[trigger] m[k]).provided_by
                    is Some by {
                    if k < front.len() {
                        assert(front[k].provided_by is Some);
                    }
                }
            }
        }
    }
}

proof fn lemma_not_above(b: version::VersionView, own: version::VersionView, x: version::VersionView)
    requires
        !version::version_lt(own, b),
        !version::version_lt(b, x),
    ensures
        !version::version_lt(own, x),
{
    version::law_key_orders_versions(own, b);
    version::law_key_orders_versions(b, own);
    version::law_key_orders_versions(b, x);
    version::law_key_orders_versions(own, x);
    text::lemma_seq_lt_total(version::order_key(own), version::order_key(b));
    if version::version_lt(own, x) && version::version_lt(b, own) {
        version::law_version_order_transitive(b, own, x);
    }
}

} // verus!
