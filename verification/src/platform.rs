//! The PHP platform and the requirements on it (`php`, `ext-*`, ...).

use crate::collections;
use crate::collections::StrMap;
use crate::constraint::VersionConstraint;
use crate::error::Error;
use crate::json;
use crate::json::Json;
use crate::package;
use crate::text;
use crate::version::ComposerVersion;
use ahash::AHashSet;
use vstd::prelude::*;

verus! {

/// A PHP runtime: its version and its extensions.
#[derive(Debug)]
pub struct Platform {
    pub php: ComposerVersion,
    /// The loaded extensions, in lower case.
    pub extensions: AHashSet<String>,
    /// The versions of extensions. A loaded extension without one has an
    /// unknown version.
    pub ext_versions: StrMap<ComposerVersion>,
    /// Whether the runtime was found or configured. If not, no requirement
    /// counts as met.
    pub reliable: bool,
}

/// What a platform consists of.
pub struct PlatformView {
    pub php: crate::version::VersionView,
    pub extensions: Set<Seq<char>>,
    pub ext_versions: Seq<(Seq<char>, crate::version::VersionView)>,
    pub reliable: bool,
}

/// The versions of a map, as what they consist of.
pub open spec fn version_pairs(m: StrMap<ComposerVersion>) -> Seq<
    (Seq<char>, crate::version::VersionView),
> {
    collections::with_values(m@, |v: ComposerVersion| v@)
}

impl View for Platform {
    type V = PlatformView;

    open spec fn view(&self) -> PlatformView {
        PlatformView {
            php: self.php@,
            extensions: collections::held_texts(self.extensions),
            ext_versions: version_pairs(self.ext_versions),
            reliable: self.reliable,
        }
    }
}

// ---------------------------------------------------------------------------
// Requirements

/// The constraints that only ask whether an extension is loaded.
pub open spec fn asks_loaded(c: Seq<char>) -> bool {
    c.len() == 0 || c == "*"@ || c == "0"@ || c == "1"@
}

/// An extension requirement is met: the extension is loaded, and where the
/// constraint asks for a version, its version is known and satisfies it.
pub open spec fn extension_met(p: PlatformView, ext: Seq<char>, constraint: Seq<char>) -> bool {
    let name = text::lower(ext);
    let c = text::trimmed(constraint);
    p.extensions.contains(name) && (asks_loaded(c) || match collections::lookup(
        p.ext_versions,
        name,
    ) {
        Some(v) => crate::constraint::satisfies(c, v),
        None => false,
    })
}

/// A platform requirement is met. On an unreliable platform none is.
pub open spec fn requirement_met(p: PlatformView, name: Seq<char>, constraint: Seq<char>) -> bool {
    p.reliable && if name == "php"@ || name == "hhvm"@ {
        crate::constraint::satisfies(constraint, p.php)
    } else if let Some(ext) = text::without_prefix(name, "ext-"@) {
        extension_met(p, ext, constraint)
    } else if text::starts(name, "lib-"@) || text::starts(name, "composer-"@) {
        true
    } else if text::find(name, "/"@) is None {
        crate::constraint::satisfies(constraint, p.php)
    } else {
        true
    }
}

/// Without a reliable platform no requirement is met.
pub proof fn law_unreliable_meets_nothing(p: PlatformView, name: Seq<char>, c: Seq<char>)
    requires
        !p.reliable,
    ensures
        !requirement_met(p, name, c),
{
}

impl Platform {
    /// Whether a platform requirement is met.
    pub fn satisfies(&self, name: &str, constraint: &str) -> (r: bool)
        ensures
            r == requirement_met(self@, name@, constraint@),
    {
        if !self.reliable {
            return false;
        }
        if text::same(name, "php") || text::same(name, "hhvm") {
            return VersionConstraint::new(constraint).matches(&self.php);
        }
        if let Some(ext) = text::strip_prefix(name, "ext-") {
            return self.extension_loaded(ext, constraint);
        }
        if text::starts_with(name, "lib-") || text::starts_with(name, "composer-") {
            return true;
        }
        if text::find_in(name, "/").is_none() {
            return VersionConstraint::new(constraint).matches(&self.php);
        }
        true
    }

    /// Whether an extension requirement is met.
    pub fn extension_loaded(&self, ext: &str, constraint: &str) -> (r: bool)
        ensures
            r == extension_met(self@, ext@, constraint@),
    {
        let name = text::to_ascii_lowercase(ext);
        if !collections::hashed_contains(&self.extensions, name.as_str()) {
            return false;
        }
        let c = text::trim(constraint);
        if c.is_empty() || text::same(c, "*") || text::same(c, "0") || text::same(c, "1") {
            return true;
        }
        proof {
            collections::lemma_with_values(
                self.ext_versions@,
                name@,
                self.php,
                |v: ComposerVersion| v@,
            );
        }
        match self.ext_versions.get(name.as_str()) {
            Some(v) => VersionConstraint::new(c).matches(v),
            None => false,
        }
    }

    pub fn php_version(&self) -> (r: &ComposerVersion)
        ensures
            r@ == self@.php,
    {
        &self.php
    }

    /// A reliable platform with the given PHP version and no extensions.
    pub fn with_php(php: &str) -> (r: Result<Self, Error>)
        ensures
            match crate::version::parsed(php@) {
                Some(v) => r is Ok && r->Ok_0@ == (PlatformView {
                    php: v,
                    extensions: Set::empty(),
                    ext_versions: Seq::empty(),
                    reliable: true,
                }),
                None => r matches Err(Error::InvalidVersion(t)) && t@
                    == crate::version::bad_version_text(php@),
            },
    {
        match ComposerVersion::parse(php) {
            Ok(v) => {
                let p = Platform {
                    php: v,
                    extensions: collections::hashed_new(),
                    ext_versions: StrMap::new(),
                    reliable: true,
                };
                assert(p@.ext_versions =~= Seq::empty());
                Ok(p)
            },
            Err(e) => Err(e),
        }
    }

    /// A reliable platform with the given PHP version and extensions.
    pub fn with_php_and_extensions(php: &str, extensions: &Vec<String>) -> (r: Result<Self, Error>)
        ensures
            match crate::version::parsed(php@) {
                Some(v) => r is Ok && r->Ok_0@ == (PlatformView {
                    php: v,
                    extensions: text::texts(extensions@).map_values(
                        |s: Seq<char>| text::lower(s),
                    ).to_set(),
                    ext_versions: Seq::empty(),
                    reliable: true,
                }),
                None => r matches Err(Error::InvalidVersion(t)) && t@
                    == crate::version::bad_version_text(php@),
            },
    {
        let mut p = match Platform::with_php(php) {
            Ok(p) => p,
            Err(e) => {
                return Err(e);
            },
        };
        let ghost all = text::texts(extensions@).map_values(|s: Seq<char>| text::lower(s));
        let ghost start = p@;
        let n: usize = extensions.len();
        let mut i: usize = 0;
        assert(all.take(0).to_set() =~= Set::<Seq<char>>::empty());
        while i < n
            invariant
                i <= n,
                n == extensions@.len(),
                all == text::texts(extensions@).map_values(|s: Seq<char>| text::lower(s)),
                p@ == (PlatformView { extensions: all.take(i as int).to_set(), ..start }),
            decreases n - i,
        {
            let low = text::to_ascii_lowercase(extensions[i].as_str());
            assert(all[i as int] == low@);
            collections::hashed_insert(&mut p.extensions, low);
            proof {
                assert(all.take(i + 1) =~= all.take(i as int).push(all[i as int]));
                all.take(i as int).lemma_push_to_set_commute(all[i as int]);
            }
            i += 1;
        }
        assert(all.take(n as int) =~= all);
        Ok(p)
    }
}

// ---------------------------------------------------------------------------
// Overrides

/// The platform after it was told the version `t` of `name`: `php` and `hhvm`
/// take it if it is one, an extension counts as loaded in any case.
pub open spec fn told_version(p: PlatformView, name: Seq<char>, t: Seq<char>) -> PlatformView {
    if name == "php"@ || name == "hhvm"@ {
        match crate::version::parsed(t) {
            Some(v) => PlatformView { php: v, reliable: true, ..p },
            None => p,
        }
    } else if let Some(ext) = text::without_prefix(name, "ext-"@) {
        let low = text::lower(ext);
        PlatformView {
            extensions: p.extensions.insert(low),
            ext_versions: match crate::version::parsed(t) {
                Some(v) => collections::inserted(p.ext_versions, low, v),
                None => p.ext_versions,
            },
            reliable: true,
            ..p
        }
    } else {
        p
    }
}

/// The platform without an extension.
pub open spec fn without_extension(p: PlatformView, low: Seq<char>) -> PlatformView {
    PlatformView {
        extensions: p.extensions.remove(low),
        ext_versions: collections::removed(p.ext_versions, low),
        ..p
    }
}

/// The platform after one entry of `config.platform`.
pub open spec fn overridden(p: PlatformView, name: Seq<char>, val: json::JsonView) -> PlatformView {
    match val {
        json::JsonView::Bool(false) => match text::without_prefix(name, "ext-"@) {
            Some(ext) => without_extension(p, text::lower(ext)),
            None => p,
        },
        json::JsonView::Bool(true) => match text::without_prefix(name, "ext-"@) {
            Some(ext) => PlatformView {
                extensions: p.extensions.insert(text::lower(ext)),
                reliable: true,
                ..p
            },
            None => p,
        },
        json::JsonView::Str(t) => told_version(p, name, t),
        json::JsonView::Number(t) => told_version(p, name, t),
        _ => p,
    }
}

/// The platform after all entries of `config.platform`, one after another.
pub open spec fn all_overridden(
    p: PlatformView,
    m: Seq<(Seq<char>, json::JsonView)>,
) -> PlatformView
    decreases m.len(),
{
    if m.len() == 0 {
        p
    } else {
        overridden(all_overridden(p, m.drop_last()), m.last().0, m.last().1)
    }
}

/// The entries of `config.platform`.
pub open spec fn platform_entries(config: Option<json::JsonView>) -> Seq<
    (Seq<char>, json::JsonView),
> {
    match config {
        Some(c) => match json::get_of(c, "platform"@) {
            Some(json::JsonView::Object(m)) => m,
            _ => Seq::empty(),
        },
        None => Seq::empty(),
    }
}

impl Platform {
    fn tell_version(&mut self, name: &str, t: &str)
        ensures
            final(self)@ == told_version(old(self)@, name@, t@),
    {
        if text::same(name, "php") || text::same(name, "hhvm") {
            if let Ok(v) = ComposerVersion::parse(t) {
                self.php = v;
                self.reliable = true;
            }
        } else if let Some(ext) = text::strip_prefix(name, "ext-") {
            let low = text::to_ascii_lowercase(ext);
            collections::hashed_insert(&mut self.extensions, low.clone());
            if let Ok(v) = ComposerVersion::parse(t) {
                proof {
                    collections::lemma_with_values(
                        self.ext_versions@,
                        low@,
                        v,
                        |v: ComposerVersion| v@,
                    );
                }
                self.ext_versions.insert(low, v);
            }
            self.reliable = true;
        }
    }

    fn drop_extension(&mut self, low: &str)
        ensures
            final(self)@ == without_extension(old(self)@, low@),
    {
        proof {
            collections::lemma_with_values(
                self.ext_versions@,
                low@,
                self.php,
                |v: ComposerVersion| v@,
            );
        }
        collections::hashed_remove(&mut self.extensions, low);
        self.ext_versions.remove(low);
    }

    fn override_one(&mut self, name: &str, val: &Json)
        ensures
            final(self)@ == overridden(old(self)@, name@, val@),
    {
        match val {
            Json::Bool(false) => {
                if let Some(ext) = text::strip_prefix(name, "ext-") {
                    let low = text::to_ascii_lowercase(ext);
                    self.drop_extension(low.as_str());
                }
            },
            Json::Bool(true) => {
                if let Some(ext) = text::strip_prefix(name, "ext-") {
                    collections::hashed_insert(&mut self.extensions, text::to_ascii_lowercase(ext));
                    self.reliable = true;
                }
            },
            Json::Str(t) => {
                self.tell_version(name, t.as_str());
            },
            Json::Number(t) => {
                self.tell_version(name, t.as_str());
            },
            _ => {},
        }
    }

    /// Applies the entries of `config.platform`.
    pub fn apply_config_platform(&mut self, config: Option<&Json>)
        ensures
            final(self)@ == all_overridden(
                old(self)@,
                platform_entries(
                    match config {
                        Some(c) => Some(c@),
                        None => None,
                    },
                ),
            ),
    {
        let section = match config {
            Some(c) => c.get("platform"),
            None => None,
        };
        if let Some(Json::Object(m)) = section {
            proof {
                json::lemma_object_view(*m);
            }
            let ghost all = json::members(m@);
            let n: usize = m.len();
            let mut i: usize = 0;
            while i < n
                invariant
                    i <= n,
                    n == m@.len(),
                    all == json::members(m@),
                    self@ == all_overridden(old(self)@, all.take(i as int)),
                decreases n - i,
            {
                proof {
                    assert(all.take(i + 1).drop_last() =~= all.take(i as int));
                    assert(all.take(i + 1).last() == (m@[i as int].0@, m@[i as int].1@));
                }
                self.override_one(m[i].0.as_str(), &m[i].1);
                i += 1;
            }
            assert(all.take(n as int) =~= all);
        }
    }
}

/// Without an object under `platform` the configuration changes nothing.
pub proof fn law_no_platform_section(p: PlatformView, config: Option<json::JsonView>)
    requires
        config matches Some(c) ==> !(json::get_of(c, "platform"@) matches Some(
            json::JsonView::Object(m),
        )),
    ensures
        all_overridden(p, platform_entries(config)) == p,
{
}

/// A reliable platform stays reliable.
pub proof fn law_stays_reliable(p: PlatformView, m: Seq<(Seq<char>, json::JsonView)>)
    requires
        p.reliable,
    ensures
        all_overridden(p, m).reliable,
    decreases m.len(),
{
    if m.len() > 0 {
        law_stays_reliable(p, m.drop_last());
    }
}

/// The versions of extensions stay in the order of their names.
pub proof fn law_overrides_keep_order(p: PlatformView, m: Seq<(Seq<char>, json::JsonView)>)
    requires
        collections::ordered(p.ext_versions),
    ensures
        collections::ordered(all_overridden(p, m).ext_versions),
    decreases m.len(),
{
    if m.len() > 0 {
        law_overrides_keep_order(p, m.drop_last());
        let q = all_overridden(p, m.drop_last());
        if let Some(ext) = text::without_prefix(m.last().0, "ext-"@) {
            let low = text::lower(ext);
            collections::law_removal_keeps_order(q.ext_versions, low);
            assert forall|v: crate::version::VersionView| collections::ordered(
                #[trigger] collections::inserted(q.ext_versions, low, v),
            ) by {
                collections::law_insertion_keeps_order(q.ext_versions, low, v);
            }
        }
    }
}

/// The entries either give a part of the platform its value, whatever it was,
/// or leave it as it was.
proof fn lemma_given_or_kept(
    p: PlatformView,
    q: PlatformView,
    m: Seq<(Seq<char>, json::JsonView)>,
    name: Seq<char>,
)
    ensures
        ({
            let a = all_overridden(p, m);
            let b = all_overridden(q, m);
            let va = collections::lookup(a.ext_versions, name);
            let vb = collections::lookup(b.ext_versions, name);
            &&& a.php == b.php || (a.php == p.php && b.php == q.php)
            &&& a.reliable == b.reliable || (a.reliable == p.reliable && b.reliable == q.reliable)
            &&& a.extensions.contains(name) == b.extensions.contains(name) || (
            a.extensions.contains(name) == p.extensions.contains(name) && b.extensions.contains(
                name,
            ) == q.extensions.contains(name))
            &&& va == vb || (va == collections::lookup(p.ext_versions, name) && vb
                == collections::lookup(q.ext_versions, name))
        }),
    decreases m.len(),
{
    if m.len() > 0 {
        lemma_given_or_kept(p, q, m.drop_last(), name);
        let a = all_overridden(p, m.drop_last());
        let b = all_overridden(q, m.drop_last());
        if let Some(ext) = text::without_prefix(m.last().0, "ext-"@) {
            let low = text::lower(ext);
            collections::law_lookup_removed(a.ext_versions, low, name);
            collections::law_lookup_removed(b.ext_versions, low, name);
            assert forall|v: crate::version::VersionView|
                collections::lookup(
                    #[trigger] collections::inserted(a.ext_versions, low, v),
                    name,
                ) == (
            if name == low {
                Some(v)
            } else {
                collections::lookup(a.ext_versions, name)
            }) by {
                collections::law_lookup_inserted(a.ext_versions, low, v, name);
            }
            assert forall|v: crate::version::VersionView|
                collections::lookup(
                    #[trigger] collections::inserted(b.ext_versions, low, v),
                    name,
                ) == (
            if name == low {
                Some(v)
            } else {
                collections::lookup(b.ext_versions, name)
            }) by {
                collections::law_lookup_inserted(b.ext_versions, low, v, name);
            }
        }
    }
}

/// To apply a configuration a second time changes nothing.
pub proof fn law_overrides_twice(p: PlatformView, m: Seq<(Seq<char>, json::JsonView)>)
    requires
        collections::ordered(p.ext_versions),
    ensures
        all_overridden(all_overridden(p, m), m) == all_overridden(p, m),
{
    let a = all_overridden(p, m);
    let b = all_overridden(a, m);
    law_overrides_keep_order(p, m);
    law_overrides_keep_order(a, m);
    lemma_given_or_kept(p, a, m, Seq::empty());
    assert forall|name: Seq<char>|
        a.extensions.contains(name) == b.extensions.contains(name) by {
        lemma_given_or_kept(p, a, m, name);
    }
    assert forall|name: Seq<char>| #[trigger]
        collections::lookup(a.ext_versions, name) == collections::lookup(b.ext_versions, name) by {
        lemma_given_or_kept(p, a, m, name);
    }
    collections::law_same_lookups(a.ext_versions, b.ext_versions);
    assert(a.extensions =~= b.extensions);
}

/// The entry speaks of the extension `low`, written in any case.
pub open spec fn names_extension(name: Seq<char>, low: Seq<char>) -> bool {
    text::without_prefix(name, "ext-"@) matches Some(ext) && text::lower(ext) == low
}

/// An extension set to `false` meets no requirement, unless a later entry
/// speaks of it too.
pub proof fn law_switched_off(
    p: PlatformView,
    m: Seq<(Seq<char>, json::JsonView)>,
    i: int,
    low: Seq<char>,
    required: Seq<char>,
    c: Seq<char>,
)
    requires
        0 <= i < m.len(),
        names_extension(m[i].0, low),
        m[i].1 == json::JsonView::Bool(false),
        forall|j: int| i < j < m.len() ==> !names_extension(#[trigger] m[j].0, low),
        names_extension(required, low),
    ensures
        !requirement_met(all_overridden(p, m), required, c),
{
    lemma_stays_off(p, m, i, low);
    reveal_strlit("php");
    reveal_strlit("hhvm");
    reveal_strlit("ext-");
    assert(required.take(4)[0] == 'e');
    assert(required[0] == 'e');
}

proof fn lemma_stays_off(
    p: PlatformView,
    m: Seq<(Seq<char>, json::JsonView)>,
    i: int,
    low: Seq<char>,
)
    requires
        0 <= i < m.len(),
        names_extension(m[i].0, low),
        m[i].1 == json::JsonView::Bool(false),
        forall|j: int| i < j < m.len() ==> !names_extension(#[trigger] m[j].0, low),
    ensures
        !all_overridden(p, m).extensions.contains(low),
    decreases m.len(),
{
    let front = m.drop_last();
    if i < front.len() {
        assert(front[i] == m[i]);
        assert forall|j: int| i < j < front.len() implies !names_extension(
            #[trigger] front[j].0,
            low,
        ) by {
            assert(front[j] == m[j]);
        }
        lemma_stays_off(p, front, i, low);
        assert(!names_extension(m[m.len() - 1].0, low));
    }
}

/// The names that an override can speak of.
pub open spec fn is_override(name: Seq<char>) -> bool {
    name == "php"@ || name == "hhvm"@ || text::starts(name, "ext-"@)
}

/// Entries under other names than `php`, `hhvm` and `ext-` ones change
/// nothing.
pub proof fn law_other_names(p: PlatformView, m: Seq<(Seq<char>, json::JsonView)>)
    ensures
        all_overridden(p, m) == all_overridden(
            p,
            m.filter(|e: (Seq<char>, json::JsonView)| is_override(e.0)),
        ),
        (forall|i: int| 0 <= i < m.len() ==> !is_override(#[trigger] m[i].0)) ==> all_overridden(
            p,
            m,
        ) == p,
    decreases m.len(),
{
    reveal(Seq::filter);
    if m.len() > 0 {
        let keep = |e: (Seq<char>, json::JsonView)| is_override(e.0);
        let front = m.drop_last();
        law_other_names(p, front);
        if is_override(m.last().0) {
            assert(m.filter(keep).drop_last() =~= front.filter(keep));
        }
        if forall|i: int| 0 <= i < m.len() ==> !is_override(#[trigger] m[i].0) {
            assert forall|i: int| 0 <= i < front.len() implies !is_override(
                #[trigger] front[i].0,
            ) by {
                assert(front[i] == m[i]);
            }
            assert(!is_override(m[m.len() - 1].0));
        }
    }
}

/// The platform after one environment variable: `COMPOSER_PLATFORM_EXT_<NAME>`
/// loads an extension (`1`, `true`), drops it (`0`, `false`) or gives its
/// version.
pub open spec fn env_overridden(p: PlatformView, key: Seq<char>, val: Seq<char>) -> PlatformView {
    match text::without_prefix(key, "COMPOSER_PLATFORM_EXT_"@) {
        None => p,
        Some(ext) => {
            let name = text::swapped(text::lower(ext), '_', '-');
            if val == "1"@ || text::lower(val) == "true"@ {
                PlatformView { extensions: p.extensions.insert(name), reliable: true, ..p }
            } else if val == "0"@ || text::lower(val) == "false"@ {
                without_extension(p, name)
            } else {
                match crate::version::parsed(val) {
                    Some(v) => PlatformView {
                        extensions: p.extensions.insert(name),
                        ext_versions: collections::inserted(p.ext_versions, name, v),
                        reliable: true,
                        ..p
                    },
                    None => p,
                }
            }
        },
    }
}

impl Platform {
    /// Applies one environment variable.
    pub fn apply_env(&mut self, key: &str, val: &str)
        ensures
            final(self)@ == env_overridden(old(self)@, key@, val@),
    {
        let ext = match text::strip_prefix(key, "COMPOSER_PLATFORM_EXT_") {
            Some(e) => e,
            None => {
                return;
            },
        };
        let low = text::to_ascii_lowercase(ext);
        let name = text::replace_char(low.as_str(), '_', '-');
        let word = text::to_ascii_lowercase(val);
        if text::same(val, "1") || text::same(word.as_str(), "true") {
            collections::hashed_insert(&mut self.extensions, name);
            self.reliable = true;
        } else if text::same(val, "0") || text::same(word.as_str(), "false") {
            self.drop_extension(name.as_str());
        } else if let Ok(v) = ComposerVersion::parse(val) {
            proof {
                collections::lemma_with_values(
                    self.ext_versions@,
                    name@,
                    v,
                    |v: ComposerVersion| v@,
                );
            }
            collections::hashed_insert(&mut self.extensions, name.clone());
            self.ext_versions.insert(name, v);
            self.reliable = true;
        }
    }

    /// The platform that a probe found. `forced` is a version set by hand,
    /// `probed` what the runtime printed. Without either the platform is
    /// unreliable and its version a placeholder.
    pub fn from_probe(forced: Option<&str>, probed: Option<&str>) -> (r: Result<Self, Error>)
        ensures
            match probe_version(text::opt_view(forced), text::opt_view(probed)) {
                Some((v, reliable)) => r is Ok && r->Ok_0@ == (PlatformView {
                    php: v,
                    extensions: Set::empty(),
                    ext_versions: Seq::empty(),
                    reliable,
                }),
                None => forced is Some && (r matches Err(Error::InvalidVersion(t)) && t@
                    == crate::version::bad_version_text(forced->0@)),
            },
    {
        let mut reliable = true;
        let php = match forced {
            Some(v) => match ComposerVersion::parse(v) {
                Ok(v) => v,
                Err(e) => {
                    return Err(e);
                },
            },
            None => match Platform::probed_version(probed) {
                Some(v) => v,
                None => {
                    reliable = false;
                    ComposerVersion::release(0, 0, 0)
                },
            },
        };
        let p = Platform {
            php,
            extensions: collections::hashed_new(),
            ext_versions: StrMap::new(),
            reliable,
        };
        assert(p@.ext_versions =~= Seq::empty());
        Ok(p)
    }

    /// The version that the runtime printed.
    fn probed_version(probed: Option<&str>) -> (r: Option<ComposerVersion>)
        ensures
            match r {
                Some(v) => printed_version(text::opt_view(probed)) == Some(v@),
                None => printed_version(text::opt_view(probed)) is None,
            },
    {
        match probed {
            Some(t) => match ComposerVersion::parse(t) {
                Ok(v) => Some(v),
                Err(_) => None,
            },
            None => None,
        }
    }
}

/// The version that the runtime printed.
pub open spec fn printed_version(probed: Option<Seq<char>>) -> Option<crate::version::VersionView> {
    match probed {
        Some(t) => crate::version::parsed(t),
        None => None,
    }
}

/// The version of the platform and whether it is reliable.
pub open spec fn probe_version(forced: Option<Seq<char>>, probed: Option<Seq<char>>) -> Option<
    (crate::version::VersionView, bool),
> {
    match forced {
        Some(f) => match crate::version::parsed(f) {
            Some(v) => Some((v, true)),
            None => None,
        },
        None => match printed_version(probed) {
            Some(v) => Some((v, true)),
            None => Some((crate::version::release_view(0, 0, 0), false)),
        },
    }
}

// ---------------------------------------------------------------------------
// Probing extensions

/// Extensions and their versions.
pub struct ExtensionsView {
    pub names: Set<Seq<char>>,
    pub versions: Seq<(Seq<char>, crate::version::VersionView)>,
}

/// What one line `name<TAB>version` adds. A line without a name adds nothing,
/// a version that is none is left out.
pub open spec fn with_extension_line(e: ExtensionsView, line: Seq<char>) -> ExtensionsView {
    let (head, tail) = match text::parted(line, "\t"@) {
        Some((a, b)) => (a, Some(b)),
        None => (line, None),
    };
    let name = text::lower(text::trimmed(head));
    if name.len() == 0 {
        e
    } else {
        let version = match tail {
            Some(t) => crate::version::parsed(text::trimmed(t)),
            None => None,
        };
        ExtensionsView {
            names: e.names.insert(name),
            versions: match version {
                Some(v) => collections::inserted(e.versions, name, v),
                None => e.versions,
            },
        }
    }
}

/// What a list of lines `name<TAB>version` holds.
pub open spec fn extension_lines(lines: Seq<Seq<char>>) -> ExtensionsView
    decreases lines.len(),
{
    if lines.len() == 0 {
        ExtensionsView { names: Set::empty(), versions: Seq::empty() }
    } else {
        with_extension_line(extension_lines(lines.drop_last()), lines.last())
    }
}

/// The extensions in a list of lines `name<TAB>version`.
pub fn parse_extension_versions(text: &str) -> (r: (AHashSet<String>, StrMap<ComposerVersion>))
    ensures
        (ExtensionsView { names: collections::held_texts(r.0), versions: version_pairs(r.1) }) == extension_lines(
            text::lines_of(text@),
        ),
{
    let lines = text::lines(text);
    let ghost all = text::views(lines@);
    let mut names = collections::hashed_new();
    let mut versions: StrMap<ComposerVersion> = StrMap::new();
    let n: usize = lines.len();
    let mut i: usize = 0;
    assert(version_pairs(versions) =~= Seq::empty());
    while i < n
        invariant
            i <= n,
            n == lines@.len(),
            all == text::views(lines@),
            (ExtensionsView { names: collections::held_texts(names), versions: version_pairs(versions) })
                == extension_lines(all.take(i as int)),
        decreases n - i,
    {
        let line = lines[i];
        proof {
            assert(all.take(i + 1).drop_last() =~= all.take(i as int));
            assert(all.take(i + 1).last() == line@);
        }
        let (head, tail) = match text::split_once(line, "\t") {
            Some((a, b)) => (a, Some(b)),
            None => (line, None),
        };
        let name = text::to_ascii_lowercase(text::trim(head));
        if !name.as_str().is_empty() {
            collections::hashed_insert(&mut names, name.clone());
            if let Some(t) = tail {
                if let Ok(v) = ComposerVersion::parse(text::trim(t)) {
                    proof {
                        collections::lemma_with_values(
                            versions@,
                            name@,
                            v,
                            |v: ComposerVersion| v@,
                        );
                    }
                    versions.insert(name, v);
                }
            }
        }
        i += 1;
    }
    assert(all.take(n as int) =~= all);
    (names, versions)
}

/// How far a list of modules was read: whether the section of PHP modules is
/// open, and the modules so far.
pub struct ModulesView {
    pub open: bool,
    pub names: Set<Seq<char>>,
}

/// What one line of a list of modules adds.
pub open spec fn with_module_line(m: ModulesView, line: Seq<char>, headers: bool) -> ModulesView {
    let t = text::trimmed(line);
    if t.len() == 0 {
        m
    } else if text::lower(t) == "[php modules]"@ {
        ModulesView { open: true, ..m }
    } else if text::starts(t, "["@) {
        ModulesView { open: false, ..m }
    } else if !headers || m.open {
        ModulesView { names: m.names.insert(text::lower(t)), ..m }
    } else {
        m
    }
}

/// What a list of modules holds.
pub open spec fn module_lines(lines: Seq<Seq<char>>, headers: bool) -> ModulesView
    decreases lines.len(),
{
    if lines.len() == 0 {
        ModulesView { open: false, names: Set::empty() }
    } else {
        with_module_line(module_lines(lines.drop_last(), headers), lines.last(), headers)
    }
}

/// Some line begins with a bracket.
pub open spec fn has_headers(lines: Seq<Seq<char>>) -> bool {
    exists|i: int| 0 <= i < lines.len() && text::starts(#[trigger] lines[i], "["@)
}

/// The modules in what `php -m` prints, with or without section headers.
pub fn parse_modules(text: &str) -> (r: AHashSet<String>)
    ensures
        collections::held_texts(r) == module_lines(text::lines_of(text@), has_headers(text::lines_of(text@))).names,
{
    let lines = text::lines(text);
    let ghost all = text::views(lines@);
    let n: usize = lines.len();
    let mut headers = false;
    let mut i: usize = 0;
    while i < n
        invariant
            i <= n,
            n == lines@.len(),
            all == text::views(lines@),
            headers == exists|j: int| 0 <= j < i && text::starts(#[trigger] all[j], "["@),
        decreases n - i,
    {
        assert(all[i as int] == lines@[i as int]@);
        if text::starts_with(lines[i], "[") {
            headers = true;
        }
        i += 1;
    }
    let mut names = collections::hashed_new();
    let mut open = false;
    let mut k: usize = 0;
    while k < n
        invariant
            k <= n,
            n == lines@.len(),
            all == text::views(lines@),
            (ModulesView { open, names: collections::held_texts(names) }) == module_lines(all.take(k as int), headers),
        decreases n - k,
    {
        proof {
            assert(all.take(k + 1).drop_last() =~= all.take(k as int));
            assert(all.take(k + 1).last() == lines@[k as int]@);
        }
        let t = text::trim(lines[k]);
        if !t.is_empty() {
            let low = text::to_ascii_lowercase(t);
            if text::same(low.as_str(), "[php modules]") {
                open = true;
            } else if text::starts_with(t, "[") {
                open = false;
            } else if !headers || open {
                collections::hashed_insert(&mut names, low);
            }
        }
        k += 1;
    }
    assert(all.take(n as int) =~= all);
    names
}

// ---------------------------------------------------------------------------
// Checking a list of requirements

/// A pattern covers a name: it is the name, or ends with `*` behind a prefix
/// of it. A `+` at its end counts for nothing.
pub open spec fn pattern_covers(pattern: Seq<char>, name: Seq<char>) -> bool {
    let pat = text::without_back(pattern, "+"@);
    pat == name || match text::without_suffix(pat, "*"@) {
        Some(prefix) => text::starts(name, prefix),
        None => false,
    }
}

/// Some pattern covers the name.
pub open spec fn is_ignored(name: Seq<char>, patterns: Seq<Seq<char>>) -> bool {
    exists|i: int| 0 <= i < patterns.len() && pattern_covers(#[trigger] patterns[i], name)
}

/// Whether a platform requirement is to be ignored.
pub fn platform_req_ignored(name: &str, patterns: &Vec<String>) -> (r: bool)
    ensures
        r == is_ignored(name@, text::texts(patterns@)),
{
    proof {
        reveal_strlit("+");
    }
    let n: usize = patterns.len();
    let mut i: usize = 0;
    while i < n
        invariant
            i <= n,
            n == patterns@.len(),
            "+"@.len() > 0,
            forall|j: int|
                0 <= j < i ==> !pattern_covers(#[trigger] text::texts(patterns@)[j], name@),
        decreases n - i,
    {
        assert(text::texts(patterns@)[i as int] == patterns@[i as int]@);
        let pat = text::trim_back(patterns[i].as_str(), "+");
        if text::same(pat, name) {
            return true;
        }
        if let Some(prefix) = text::strip_suffix(pat, "*") {
            if text::starts_with(name, prefix) {
                return true;
            }
        }
        i += 1;
    }
    false
}

/// A requirement that the platform has to meet.
pub open spec fn is_checked(name: Seq<char>, patterns: Seq<Seq<char>>) -> bool {
    package::names_platform(name) && !is_ignored(name, patterns)
}

/// Some requirement has to be met by the platform.
pub open spec fn any_checked(
    reqs: Seq<(Seq<char>, Seq<char>)>,
    patterns: Seq<Seq<char>>,
) -> bool {
    exists|i: int| 0 <= i < reqs.len() && is_checked((#[trigger] reqs[i]).0, patterns)
}

/// The first requirement that the platform does not meet.
pub open spec fn first_unmet(
    p: PlatformView,
    reqs: Seq<(Seq<char>, Seq<char>)>,
    patterns: Seq<Seq<char>>,
) -> Option<(Seq<char>, Seq<char>)>
    decreases reqs.len(),
{
    if reqs.len() == 0 {
        None
    } else if is_checked(reqs[0].0, patterns) && !requirement_met(p, reqs[0].0, reqs[0].1) {
        Some(reqs[0])
    } else {
        first_unmet(p, reqs.skip(1), patterns)
    }
}

/// What is said where no PHP runtime is known.
pub open spec fn no_runtime_text() -> Seq<char> {
    "PHP runtime not detected; cannot verify platform requirements (install `php` on PATH, set COMPOSER_PLATFORM_PHP, use config.platform, or pass --ignore-platform-reqs)"@
}

/// What is said of a requirement that is not met.
pub open spec fn unmet_text(req: (Seq<char>, Seq<char>), php: Seq<char>) -> Seq<char> {
    "platform requirement "@ + req.0 + " ("@ + req.1 + ") is not satisfied (PHP "@ + php
        + " detected)"@
}

/// What keeps the platform from meeting a list of requirements.
pub open spec fn requirements_fault(
    p: PlatformView,
    reqs: Seq<(Seq<char>, Seq<char>)>,
    patterns: Seq<Seq<char>>,
) -> Option<Seq<char>> {
    if !any_checked(reqs, patterns) {
        None
    } else if !p.reliable {
        Some(no_runtime_text())
    } else {
        match first_unmet(p, reqs, patterns) {
            Some(req) => Some(unmet_text(req, p.php.raw)),
            None => None,
        }
    }
}

/// Nothing keeps the platform from meeting a list of requirements if and only if
/// every requirement on the platform that no pattern covers is met.
pub proof fn law_no_fault_if_all_met(
    p: PlatformView,
    reqs: Seq<(Seq<char>, Seq<char>)>,
    patterns: Seq<Seq<char>>,
)
    ensures
        requirements_fault(p, reqs, patterns) is None <==> forall|i: int|
            0 <= i < reqs.len() && package::names_platform((#[trigger] reqs[i]).0) && (forall|k: int|
                0 <= k < patterns.len() ==> !pattern_covers(#[trigger] patterns[k], reqs[i].0))
                ==> requirement_met(p, reqs[i].0, reqs[i].1),
{
    lemma_first_unmet(p, reqs, patterns);
    assert forall|i: int| 0 <= i < reqs.len() implies is_checked((#[trigger] reqs[i]).0, patterns)
        == (package::names_platform(reqs[i].0) && (forall|k: int|
        0 <= k < patterns.len() ==> !pattern_covers(#[trigger] patterns[k], reqs[i].0))) by {}
    if !any_checked(reqs, patterns) {
    } else if !p.reliable {
        let i = choose|i: int| 0 <= i < reqs.len() && is_checked((#[trigger] reqs[i]).0, patterns);
        law_unreliable_meets_nothing(p, reqs[i].0, reqs[i].1);
    }
}

proof fn lemma_first_unmet(
    p: PlatformView,
    reqs: Seq<(Seq<char>, Seq<char>)>,
    patterns: Seq<Seq<char>>,
)
    ensures
        first_unmet(p, reqs, patterns) is None <==> forall|i: int|
            0 <= i < reqs.len() && is_checked((#[trigger] reqs[i]).0, patterns) ==> requirement_met(
                p,
                reqs[i].0,
                reqs[i].1,
            ),
        first_unmet(p, reqs, patterns) matches Some(r) ==> reqs.contains(r) && is_checked(
            r.0,
            patterns,
        ) && !requirement_met(p, r.0, r.1),
    decreases reqs.len(),
{
    if reqs.len() > 0 {
        let rest = reqs.skip(1);
        lemma_first_unmet(p, rest, patterns);
        if is_checked(reqs[0].0, patterns) && !requirement_met(p, reqs[0].0, reqs[0].1) {
            assert(reqs.contains(reqs[0]));
        } else {
            if let Some(r) = first_unmet(p, rest, patterns) {
                let k = choose|k: int| 0 <= k < rest.len() && rest[k] == r;
                assert(reqs[k + 1] == r);
            }
            if first_unmet(p, rest, patterns) is None {
                assert forall|i: int|
                    0 <= i < reqs.len() && is_checked((#[trigger] reqs[i]).0, patterns) implies
                    requirement_met(p, reqs[i].0, reqs[i].1) by {
                    if i > 0 {
                        assert(rest[i - 1] == reqs[i]);
                    }
                }
            }
        }
    }
}

/// A pattern covers the name that it is, with `*` at its end every name that
/// begins with what stands in front, and with `+` at its end what it covers
/// without. A pattern that does not end with `*` or `+` covers no other name.
pub proof fn law_patterns(pattern: Seq<char>, name: Seq<char>)
    ensures
        pattern.len() == 0 || (pattern.last() != '*' && pattern.last() != '+') ==> (pattern_covers(
            pattern,
            name,
        ) <==> pattern == name),
        pattern_covers(pattern + "*"@, pattern + name),
        pattern_covers(pattern + "*"@, name) && name != pattern + "*"@ ==> text::starts(
            name,
            pattern,
        ),
        pattern_covers(pattern + "+"@, name) == pattern_covers(pattern, name),
{
    reveal_strlit("*");
    reveal_strlit("+");
    let star = pattern + "*"@;
    if text::ends(star, "+"@) {
        assert(star.skip(star.len() - 1)[0] == '*');
    }
    assert(text::without_back(star, "+"@) == star);
    assert(star.skip(star.len() - 1) =~= "*"@);
    assert(star.take(star.len() - 1) =~= pattern);
    assert((pattern + name).take(pattern.len() as int) =~= pattern);
    let plus = pattern + "+"@;
    assert(plus.skip(plus.len() - 1) =~= "+"@);
    assert(plus.take(plus.len() - 1) =~= pattern);
    assert(text::without_back(plus, "+"@) == text::without_back(pattern, "+"@));
    if pattern.len() > 0 {
        assert(pattern.skip(pattern.len() - 1)[0] == pattern.last());
    }
    if pattern.len() == 0 || (pattern.last() != '*' && pattern.last() != '+') {
        assert(!text::ends(pattern, "+"@));
        assert(!text::ends(pattern, "*"@));
    }
}

/// What the platform is asked: `php` and `hhvm` by the version of PHP, an
/// extension whether it is loaded and which version it has, whatever the case of
/// its name, and a library or a part of Composer nothing but that there is a
/// platform.
pub proof fn law_what_the_platform_meets(p: PlatformView, ext: Seq<char>, c: Seq<char>)
    requires
        p.reliable,
    ensures
        requirement_met(p, "php"@, c) == crate::constraint::satisfies(c, p.php),
        requirement_met(p, "hhvm"@, c) == crate::constraint::satisfies(c, p.php),
        requirement_met(p, "lib-"@ + ext, c),
        requirement_met(p, "composer-"@ + ext, c),
        requirement_met(p, "ext-"@ + ext, "*"@) == p.extensions.contains(text::lower(ext)),
        !p.extensions.contains(text::lower(ext)) ==> !requirement_met(p, "ext-"@ + ext, c),
        p.extensions.contains(text::lower(ext)) ==> (collections::lookup(
            p.ext_versions,
            text::lower(ext),
        ) matches Some(v) && crate::constraint::satisfies(text::trimmed(c), v) ==> requirement_met(
            p,
            "ext-"@ + ext,
            c,
        )),
        requirement_met(p, "ext-"@ + ext, c) && text::trimmed(c).len() > 1 ==> (
        collections::lookup(p.ext_versions, text::lower(ext)) matches Some(v)
            && crate::constraint::satisfies(text::trimmed(c), v)),
{
    reveal_strlit("php");
    reveal_strlit("hhvm");
    reveal_strlit("ext-");
    reveal_strlit("lib-");
    reveal_strlit("composer-");
    reveal_strlit("*");
    reveal_strlit("0");
    reveal_strlit("1");
    let e = "ext-"@ + ext;
    assert(e[0] == 'e');
    assert(e.take(4) =~= "ext-"@);
    assert(e.skip(4) =~= ext);
    text::lemma_trimmed_same("*"@);
    let l = "lib-"@ + ext;
    assert(l[0] == 'l');
    assert(l.take(4) =~= "lib-"@);
    let k = "composer-"@ + ext;
    assert(k[0] == 'c');
    assert(k.take(9) =~= "composer-"@);
    assert(k.take(4)[0] == 'c');
}

/// Checks the platform requirements of a package.
pub fn check_requirements(platform: &Platform, require: &StrMap<String>) -> (r: Result<(), Error>)
    ensures
        match requirements_fault(platform@, collections::link_pairs(*require), Seq::empty()) {
            None => r is Ok,
            Some(m) => r matches Err(Error::Resolve(t)) && t@ == m,
        },
{
    let none: Vec<String> = Vec::new();
    assert(text::texts(none@) =~= Seq::<Seq<char>>::empty());
    check_requirements_filtered(platform, require, &none)
}

/// Checks the platform requirements of a package, but for those that a pattern
/// covers.
pub fn check_requirements_filtered(
    platform: &Platform,
    require: &StrMap<String>,
    ignore_patterns: &Vec<String>,
) -> (r: Result<(), Error>)
    ensures
        match requirements_fault(
            platform@,
            collections::link_pairs(*require),
            text::texts(ignore_patterns@),
        ) {
            None => r is Ok,
            Some(m) => r matches Err(Error::Resolve(t)) && t@ == m,
        },
{
    let ghost reqs = collections::link_pairs(*require);
    let ghost pats = text::texts(ignore_patterns@);
    let n: usize = require.entries.len();
    let mut any = false;
    let mut i: usize = 0;
    while i < n
        invariant
            i <= n,
            n == require.entries@.len(),
            reqs == collections::link_pairs(*require),
            pats == text::texts(ignore_patterns@),
            any == exists|j: int| 0 <= j < i && is_checked((#[trigger] reqs[j]).0, pats),
        decreases n - i,
    {
        let name = require.entries[i].0.as_str();
        assert(reqs[i as int].0 == name@);
        if package::is_platform_req(name) && !platform_req_ignored(name, ignore_patterns) {
            any = true;
        }
        i += 1;
    }
    assert(any == any_checked(reqs, pats));
    if !any {
        return Ok(());
    }
    if !platform.reliable {
        return Err(
            Error::Resolve(
                String::from_str(
                    "PHP runtime not detected; cannot verify platform requirements (install `php` on PATH, set COMPOSER_PLATFORM_PHP, use config.platform, or pass --ignore-platform-reqs)",
                ),
            ),
        );
    }
    let mut k: usize = 0;
    assert(reqs.skip(0) =~= reqs);
    while k < n
        invariant
            k <= n,
            n == require.entries@.len(),
            platform.reliable,
            reqs == collections::link_pairs(*require),
            pats == text::texts(ignore_patterns@),
            any_checked(reqs, pats),
            first_unmet(platform@, reqs, pats) == first_unmet(
                platform@,
                reqs.skip(k as int),
                pats,
            ),
        decreases n - k,
    {
        let name = require.entries[k].0.as_str();
        let constraint = require.entries[k].1.as_str();
        assert(reqs.skip(k as int)[0] == (name@, constraint@));
        if package::is_platform_req(name) && !platform_req_ignored(name, ignore_patterns)
            && !platform.satisfies(name, constraint) {
            let mut m = text::cat("platform requirement ", name);
            m.append(" (");
            m.append(constraint);
            m.append(") is not satisfied (PHP ");
            m.append(platform.php.as_str());
            m.append(" detected)");
            assert(m@ =~= unmet_text((name@, constraint@), platform@.php.raw));
            return Err(Error::Resolve(m));
        }
        assert(reqs.skip(k as int).skip(1) =~= reqs.skip(k + 1));
        k += 1;
    }
    Ok(())
}

/// A version that is forced counts; without one that of the runtime does, and
/// without both the platform is not reliable.
pub proof fn law_which_version_runs(forced: Seq<char>, probed: Seq<char>, other: Option<Seq<char>>)
    ensures
        crate::version::parsed(forced) matches Some(v) ==> probe_version(Some(forced), other)
            == Some((v, true)),
        crate::version::parsed(forced) is None ==> probe_version(Some(forced), other) is None,
        crate::version::parsed(probed) matches Some(v) ==> probe_version(None, Some(probed))
            == Some((v, true)),
        crate::version::parsed(probed) is None ==> (probe_version(None, Some(probed)) matches Some(
            r,
        ) && !r.1),
        probe_version(None, None) matches Some(r) && !r.1,
{
}

/// A line with a name and a version adds the extension, in lower case, with that
/// version; a line without a version adds the extension alone.
pub proof fn law_lines_of_extensions(e: ExtensionsView, name: Seq<char>, t: Seq<char>)
    requires
        name.len() > 0,
        !name.contains('\t'),
        !text::is_space(name[0]) && !text::is_space(name.last()),
        t.len() > 0 && !text::is_space(t[0]) && !text::is_space(t.last()),
    ensures
        with_extension_line(e, name).names == e.names.insert(text::lower(name)),
        with_extension_line(e, name).versions == e.versions,
        with_extension_line(e, name + seq!['\t'] + t).names == e.names.insert(text::lower(name)),
        crate::version::parsed(t) matches Some(v) ==> collections::lookup(
            with_extension_line(e, name + seq!['\t'] + t).versions,
            text::lower(name),
        ) == Some(v),
        crate::version::parsed(t) is None ==> with_extension_line(e, name + seq!['\t'] + t).versions
            == e.versions,
{
    reveal_strlit("\t");
    assert("\t"@ =~= seq!['\t']);
    text::lemma_not_found(name, "\t"@);
    text::lemma_piece_before(name, "\t"@, t);
    text::lemma_trimmed_same(name);
    text::lemma_trimmed_same(t);
    assert(text::lower(name).len() == name.len());
    if let Some(v) = crate::version::parsed(t) {
        collections::law_lookup_inserted(e.versions, text::lower(name), v, text::lower(name));
    }
}

/// A module counts if it stands in the section of PHP, or if there are no
/// sections.
pub proof fn law_lines_of_modules(m: ModulesView, line: Seq<char>, headers: bool)
    requires
        line.len() > 0,
        !text::is_space(line[0]) && !text::is_space(line.last()),
        line[0] != '[',
    ensures
        !headers || m.open ==> with_module_line(m, line, headers).names == m.names.insert(
            text::lower(line),
        ),
        headers && !m.open ==> with_module_line(m, line, headers) == m,
        with_module_line(m, line, headers).open == m.open,
        with_module_line(m, "[PHP Modules]"@, headers).open,
        with_module_line(m, "[PHP Modules]"@, headers).names == m.names,
        !with_module_line(m, "[Zend Modules]"@, headers).open,
{
    reveal_strlit("[PHP Modules]");
    reveal_strlit("[Zend Modules]");
    reveal_strlit("[php modules]");
    reveal_strlit("[");
    text::lemma_trimmed_same(line);
    text::lemma_trimmed_same("[PHP Modules]"@);
    text::lemma_trimmed_same("[Zend Modules]"@);
    assert(text::lower("[PHP Modules]"@) =~= "[php modules]"@);
    assert(text::lower("[Zend Modules]"@)[1] == 'z');
    assert(text::lower(line)[0] != '[');
    assert(line.take(1)[0] == line[0]);
    assert("[Zend Modules]"@.take(1) =~= "["@);
}

} // verus!
