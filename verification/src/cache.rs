//! The cache of packages, in which each package stands once under the hash of
//! its key.

use crate::archive::EntryKind;
use crate::error::Error;
use crate::hash;
use crate::hash::ContentHash;
use crate::paths;
use crate::text;
use vstd::prelude::*;

verus! {

/// The name of the file that marks a package as complete.
pub open spec fn marker_name() -> Seq<char> {
    ".composer-rs-complete"@
}

/// The file that marks a package as complete.
pub fn complete_marker() -> (r: &'static str)
    ensures
        r@ == marker_name(),
{
    ".composer-rs-complete"
}

// ---------------------------------------------------------------------------
// Places

/// Where the cache is: where the user wants it, below the cache directory of the
/// user, or below the current directory.
pub open spec fn root_of(wanted: Option<Seq<char>>, user_cache: Option<Seq<char>>) -> Seq<char> {
    match wanted {
        Some(p) => p,
        None => match user_cache {
            Some(d) => paths::joined_path(d, "composer-rs"@),
            None => ".composer-rs/cache"@,
        },
    }
}

/// Where the cache is.
pub fn cache_root(wanted: Option<&str>, user_cache: Option<&str>) -> (r: String)
    ensures
        r@ == root_of(text::opt_view(wanted), text::opt_view(user_cache)),
{
    match wanted {
        Some(p) => String::from_str(p),
        None => match user_cache {
            Some(d) => paths::join_path(d, "composer-rs"),
            None => String::from_str(".composer-rs/cache"),
        },
    }
}

/// Where the packages are.
pub fn cas_dir(cache_root: &str) -> (r: String)
    ensures
        r@ == paths::joined_path(cache_root@, "cas"@),
{
    paths::join_path(cache_root, "cas")
}

/// Where the archives are.
pub fn archives_dir(cache_root: &str) -> (r: String)
    ensures
        r@ == paths::joined_path(cache_root@, "archives"@),
{
    paths::join_path(cache_root, "archives")
}

/// Where the metadata of repositories are.
pub fn metadata_dir(cache_root: &str) -> (r: String)
    ensures
        r@ == paths::joined_path(cache_root@, "metadata"@),
{
    paths::join_path(cache_root, "metadata")
}

/// The packages in a cache.
#[derive(Debug, Clone)]
pub struct CasCache {
    cas_root: String,
}

impl View for CasCache {
    type V = Seq<char>;

    closed spec fn view(&self) -> Seq<char> {
        self.cas_root@
    }
}

/// The first two digits of a hash, or less.
pub open spec fn shard_of(h: Seq<char>) -> Seq<char> {
    h.take(
        if h.len() < 2 {
            h.len() as int
        } else {
            2
        },
    )
}

/// The hash of the key of a package.
pub open spec fn hash_of_key(key: Seq<char>) -> Seq<char> {
    hash::blake3_text(vstd::utf8::encode_utf8(key))
}

/// Where the package with a hash is.
pub open spec fn entry_at(root: Seq<char>, h: Seq<char>) -> Seq<char> {
    paths::joined_path(paths::joined_path(root, shard_of(h)), h)
}

/// The file that marks the package with a hash as complete.
pub open spec fn marker_at(root: Seq<char>, h: Seq<char>) -> Seq<char> {
    paths::joined_path(entry_at(root, h), marker_name())
}

impl CasCache {
    /// The packages of the cache at `cache_root`.
    pub fn new(cache_root: &str) -> (r: Self)
        ensures
            r@ == paths::joined_path(cache_root@, "cas"@),
    {
        CasCache { cas_root: cas_dir(cache_root) }
    }

    /// The packages in a directory.
    pub fn with_root(root: &str) -> (r: Self)
        ensures
            r@ == root@,
    {
        CasCache { cas_root: String::from_str(root) }
    }

    /// The directory of the packages.
    pub fn root(&self) -> (r: &str)
        ensures
            r@ == self@,
    {
        self.cas_root.as_str()
    }

    /// The hash of the key of a package.
    pub fn key_hash(key: &str) -> (r: ContentHash)
        ensures
            r@ == hash_of_key(key@),
            text::is_hex(r@, 64),
    {
        hash::hash_text(key)
    }

    /// Where the package with a hash is.
    pub fn entry_path(&self, hash: &ContentHash) -> (r: String)
        ensures
            r@ == entry_at(self@, hash@),
    {
        let dir = paths::join_path(self.cas_root.as_str(), hash.shard());
        paths::join_path(dir.as_str(), hash.as_str())
    }

    /// The file that marks the package with a hash as complete.
    pub fn marker_path(&self, hash: &ContentHash) -> (r: String)
        ensures
            r@ == marker_at(self@, hash@),
    {
        let dir = self.entry_path(hash);
        paths::join_path(dir.as_str(), complete_marker())
    }

    /// Where the package with a key is, if it is complete.
    pub fn get(&self, key: &str, complete: bool) -> (r: Option<String>)
        ensures
            text::opt_text(r) == if complete {
                Some(entry_at(self@, hash_of_key(key@)))
            } else {
                None
            },
    {
        if complete {
            Some(self.entry_path(&Self::key_hash(key)))
        } else {
            None
        }
    }

    /// Where the package with a key is, or that it is not there.
    pub fn require_entry(&self, key: &str, complete: bool) -> (r: Result<String, Error>)
        ensures
            if complete {
                r is Ok && r->Ok_0@ == entry_at(self@, hash_of_key(key@))
            } else {
                r matches Err(Error::Cache(t)) && t@ == "cache miss for key: "@ + key@
            },
    {
        match self.get(key, complete) {
            Some(p) => Ok(p),
            None => Err(Error::Cache(text::cat("cache miss for key: ", key))),
        }
    }
}

/// Two keys with different hashes have different places.
pub proof fn law_places_are_apart(root: Seq<char>, a: Seq<char>, b: Seq<char>)
    requires
        text::is_hex(a, 64),
        text::is_hex(b, 64),
        a != b,
    ensures
        entry_at(root, a) != entry_at(root, b),
{
    let x = entry_at(root, a);
    let y = entry_at(root, b);
    lemma_joined_end(paths::joined_path(root, shard_of(a)), a);
    lemma_joined_end(paths::joined_path(root, shard_of(b)), b);
    if x == y {
        assert(x.skip(x.len() - 64) == a);
        assert(y.skip(y.len() - 64) == b);
    }
}

proof fn lemma_joined_end(base: Seq<char>, rel: Seq<char>)
    ensures
        text::ends(paths::joined_path(base, rel), rel),
{
    let r = paths::joined_path(base, rel);
    assert(r.skip(r.len() - rel.len()) =~= rel);
}

/// The place beside another one that a process uses for the time being.
pub open spec fn beside(place: Seq<char>, what: Seq<char>, process: u32, moment: u128) -> Seq<char> {
    place + what + text::decimal(process as nat) + "-"@ + text::decimal(moment as nat)
}

/// The place beside another one that a process uses for the time being.
pub fn beside_path(place: &str, what: &str, process: u32, moment: u128) -> (r: String)
    ensures
        r@ == beside(place@, what@, process, moment),
{
    let head = text::cat3(place, what, text::u64_text(process as u64).as_str());
    let out = text::cat3(head.as_str(), "-", text::u128_text(moment).as_str());
    assert(out@ =~= beside(place@, what@, process, moment));
    out
}

/// Where a package is put together before it enters the cache.
pub fn staging_path(place: &str, process: u32, moment: u128) -> (r: String)
    ensures
        r@ == beside(place@, ".staging-"@, process, moment),
{
    beside_path(place, ".staging-", process, moment)
}

/// Where a package is put together before it replaces what is installed.
pub fn link_path(place: &str, process: u32, moment: u128) -> (r: String)
    ensures
        r@ == beside(place@, ".composer-rs-link-"@, process, moment),
{
    beside_path(place, ".composer-rs-link-", process, moment)
}

/// Where the package that was installed goes before it is removed.
pub fn old_path(place: &str, process: u32, moment: u128) -> (r: String)
    ensures
        r@ == beside(place@, ".composer-rs-old-"@, process, moment),
{
    beside_path(place, ".composer-rs-old-", process, moment)
}

// ---------------------------------------------------------------------------
// Storing

/// How far the storing of a package is.
#[derive(Debug, Clone, Copy, PartialEq, Eq, Structural)]
pub enum StorePhase {
    Start,
    /// No other thread stores the package.
    KeyLocked,
    /// No other process stores the package.
    FileLocked,
    /// The package is put together beside its place.
    Staged,
}

/// What is done next to store a package.
#[derive(Debug, Clone, Copy, PartialEq, Eq, Structural)]
pub enum StoreAction {
    /// The package is there: nothing is left to do.
    Finish,
    LockKey,
    LockFile,
    /// The package is put together beside its place.
    Stage,
    /// What stands in the place is removed, and the package moved there.
    Replace,
    /// What was put together is removed, and nothing is left to do.
    Discard,
    /// The package is moved to its place.
    Move,
}

/// What is done next to store a package, by whether it is complete and whether
/// its place is taken.
pub open spec fn next_action(phase: StorePhase, complete: bool, present: bool) -> StoreAction {
    match phase {
        StorePhase::Start => if complete {
            StoreAction::Finish
        } else {
            StoreAction::LockKey
        },
        StorePhase::KeyLocked => if complete {
            StoreAction::Finish
        } else {
            StoreAction::LockFile
        },
        StorePhase::FileLocked => if complete {
            StoreAction::Finish
        } else {
            StoreAction::Stage
        },
        StorePhase::Staged => if !present {
            StoreAction::Move
        } else if complete {
            StoreAction::Discard
        } else {
            StoreAction::Replace
        },
    }
}

/// What is done next to store a package.
pub fn store_action(phase: StorePhase, complete: bool, present: bool) -> (r: StoreAction)
    ensures
        r == next_action(phase, complete, present),
{
    match phase {
        StorePhase::Start => if complete {
            StoreAction::Finish
        } else {
            StoreAction::LockKey
        },
        StorePhase::KeyLocked => if complete {
            StoreAction::Finish
        } else {
            StoreAction::LockFile
        },
        StorePhase::FileLocked => if complete {
            StoreAction::Finish
        } else {
            StoreAction::Stage
        },
        StorePhase::Staged => if !present {
            StoreAction::Move
        } else if complete {
            StoreAction::Discard
        } else {
            StoreAction::Replace
        },
    }
}

/// A complete package is never replaced, and nothing is moved onto it.
pub proof fn law_complete_package_stays(phase: StorePhase)
    ensures
        next_action(phase, true, true) == StoreAction::Finish || next_action(phase, true, true)
            == StoreAction::Discard,
{
}

/// What is done with an entry of a tree that is copied or linked.
#[derive(Debug, Clone, Copy, PartialEq, Eq, Structural)]
pub enum TreeStep {
    Skip,
    Descend,
    Place,
    Relink,
}

/// What is done with an entry of a tree that is copied or linked.
pub open spec fn step_of(
    name: Seq<char>,
    kind: Option<EntryKind>,
    left_out: Seq<char>,
    links: bool,
) -> TreeStep {
    if name == left_out {
        TreeStep::Skip
    } else {
        match kind {
            Some(EntryKind::Directory) => TreeStep::Descend,
            Some(EntryKind::File) => TreeStep::Place,
            Some(EntryKind::Link) => if links {
                TreeStep::Relink
            } else {
                TreeStep::Skip
            },
            None => TreeStep::Skip,
        }
    }
}

/// What is done with an entry of a tree that is copied or linked. The entry named
/// `left_out` is left out; no entry has an empty name.
pub fn tree_step(name: &str, kind: Option<EntryKind>, left_out: &str, links: bool) -> (r: TreeStep)
    ensures
        r == step_of(name@, kind, left_out@, links),
{
    if text::same(name, left_out) {
        return TreeStep::Skip;
    }
    match kind {
        Some(EntryKind::Directory) => TreeStep::Descend,
        Some(EntryKind::File) => TreeStep::Place,
        Some(EntryKind::Link) => if links {
            TreeStep::Relink
        } else {
            TreeStep::Skip
        },
        None => TreeStep::Skip,
    }
}

/// How the files of a package came to where it is installed.
#[derive(Debug, Clone, Copy, PartialEq, Eq, Structural)]
pub struct LinkResult {
    pub hardlinks: u64,
    pub copies: u64,
}

impl Default for LinkResult {
    fn default() -> (r: Self)
        ensures
            r == (LinkResult { hardlinks: 0, copies: 0 }),
    {
        LinkResult { hardlinks: 0, copies: 0 }
    }
}

impl LinkResult {
    /// Counts a file that was linked or copied.
    pub fn count(&mut self, linked: bool)
        requires
            old(self).hardlinks < u64::MAX,
            old(self).copies < u64::MAX,
        ensures
            final(self).hardlinks == old(self).hardlinks + if linked {
                1int
            } else {
                0
            },
            final(self).copies == old(self).copies + if linked {
                0int
            } else {
                1
            },
    {
        if linked {
            self.hardlinks = self.hardlinks + 1;
        } else {
            self.copies = self.copies + 1;
        }
    }

    /// Counts the files of a directory.
    pub fn include_all(&mut self, child: LinkResult)
        requires
            old(self).hardlinks + child.hardlinks <= u64::MAX,
            old(self).copies + child.copies <= u64::MAX,
        ensures
            final(self).hardlinks == old(self).hardlinks + child.hardlinks,
            final(self).copies == old(self).copies + child.copies,
    {
        self.hardlinks = self.hardlinks + child.hardlinks;
        self.copies = self.copies + child.copies;
    }
}

/// How a package was installed.
#[derive(Debug, Clone, Copy, PartialEq, Eq, Structural)]
pub enum InstallKind {
    CacheHit { hardlinks: u64, copies: u64 },
    CacheMiss { hardlinks: u64, copies: u64 },
}

impl InstallKind {
    /// The kind of an install.
    pub fn of(hit: bool, link: LinkResult) -> (r: Self)
        ensures
            r == if hit {
                InstallKind::CacheHit { hardlinks: link.hardlinks, copies: link.copies }
            } else {
                InstallKind::CacheMiss { hardlinks: link.hardlinks, copies: link.copies }
            },
    {
        if hit {
            InstallKind::CacheHit { hardlinks: link.hardlinks, copies: link.copies }
        } else {
            InstallKind::CacheMiss { hardlinks: link.hardlinks, copies: link.copies }
        }
    }

    /// Whether the package was in the cache.
    pub fn is_hit(&self) -> (r: bool)
        ensures
            r == (self is CacheHit),
    {
        match self {
            InstallKind::CacheHit { .. } => true,
            InstallKind::CacheMiss { .. } => false,
        }
    }
}

// ---------------------------------------------------------------------------
// Pruning

/// An entry below a package of the cache.
#[derive(Debug, Clone)]
pub enum WalkedEntry {
    /// It could not be read.
    Unreadable,
    /// A file, with the number of its links if that could be read.
    File { name: String, links: Option<u64> },
    /// Anything else.
    Other,
}

/// An entry shows that its package is in use, or that this cannot be told.
pub open spec fn shows_use(e: WalkedEntry) -> bool {
    match e {
        WalkedEntry::Unreadable => true,
        WalkedEntry::File { name, links } => name@ != marker_name() && match links {
            Some(n) => n > 1,
            None => true,
        },
        WalkedEntry::Other => false,
    }
}

/// Whether an entry shows that its package is in use.
pub fn entry_in_use(e: &WalkedEntry) -> (r: bool)
    ensures
        r == shows_use(*e),
{
    match e {
        WalkedEntry::Unreadable => true,
        WalkedEntry::File { name, links } => {
            if text::same(name.as_str(), complete_marker()) {
                return false;
            }
            match links {
                Some(n) => *n > 1,
                None => true,
            }
        },
        WalkedEntry::Other => false,
    }
}

/// A package of which some entry shows that it is in use.
pub open spec fn in_use(entries: Seq<WalkedEntry>) -> bool {
    exists|i: int| 0 <= i < entries.len() && shows_use(#[trigger] entries[i])
}

/// Whether some entry shows that a package is in use.
pub fn package_has_vendor_hardlink(entries: &Vec<WalkedEntry>) -> (r: bool)
    ensures
        r == in_use(entries@),
{
    let n: usize = entries.len();
    let mut i: usize = 0;
    while i < n
        invariant
            i <= n,
            n == entries@.len(),
            forall|j: int| 0 <= j < i ==> !shows_use(#[trigger] entries@[j]),
        decreases n - i,
    {
        if entry_in_use(&entries[i]) {
            assert(shows_use(entries@[i as int]));
            return true;
        }
        i += 1;
    }
    false
}

/// What is done with a package of the cache that is looked at.
#[derive(Debug, Clone, Copy, PartialEq, Eq, Structural)]
pub enum PruneVerdict {
    /// It was never complete: it goes.
    Leftover,
    /// It is in use: it stays.
    Keep,
    /// It would go.
    Count,
    /// It goes, unless it is in use once its marker is gone.
    Recheck,
}

/// What is done with a package of the cache.
pub open spec fn verdict_of(name: Seq<char>, complete: bool, used: bool, dry_run: bool) -> PruneVerdict {
    if text::occurs(name, ".staging"@) || !complete {
        PruneVerdict::Leftover
    } else if used {
        PruneVerdict::Keep
    } else if dry_run {
        PruneVerdict::Count
    } else {
        PruneVerdict::Recheck
    }
}

/// Whether a directory of the cache is what was left of a package.
pub fn is_leftover(name: &str, complete: bool) -> (r: bool)
    ensures
        r == (text::occurs(name@, ".staging"@) || !complete),
{
    text::contains(name, ".staging") || !complete
}

/// What is done with a package of the cache.
pub fn prune_verdict(name: &str, complete: bool, used: bool, dry_run: bool) -> (r: PruneVerdict)
    ensures
        r == verdict_of(name@, complete, used, dry_run),
{
    if is_leftover(name, complete) {
        PruneVerdict::Leftover
    } else if used {
        PruneVerdict::Keep
    } else if dry_run {
        PruneVerdict::Count
    } else {
        PruneVerdict::Recheck
    }
}

/// What pruning did.
#[derive(Debug, Clone, PartialEq, Eq)]
pub struct PruneStats {
    /// Complete packages that were looked at.
    pub complete_scanned: usize,
    /// Complete packages that are in use.
    pub complete_kept: usize,
    /// Complete packages that went, or would have gone.
    pub complete_removed: usize,
    /// What was left of packages that went, or would have gone.
    pub leftover_removed: usize,
    /// The bytes of all that went, or would have gone.
    pub bytes_freed: u64,
}

impl Default for PruneStats {
    fn default() -> (r: Self)
        ensures
            r == nothing_pruned(),
    {
        PruneStats {
            complete_scanned: 0,
            complete_kept: 0,
            complete_removed: 0,
            leftover_removed: 0,
            bytes_freed: 0,
        }
    }
}

/// What pruning did when it began.
pub open spec fn nothing_pruned() -> PruneStats {
    PruneStats {
        complete_scanned: 0,
        complete_kept: 0,
        complete_removed: 0,
        leftover_removed: 0,
        bytes_freed: 0,
    }
}

/// A directory that pruning looked at: whether it was what was left of a
/// package, whether it stays, and the bytes that go with it.
#[derive(Debug, Clone, Copy, PartialEq, Eq, Structural)]
pub struct Pruned {
    pub leftover: bool,
    pub kept: bool,
    pub size: u64,
}

/// What a verdict comes to for a directory of `size` bytes; `used_again` says
/// whether it is in use once its marker is gone.
pub open spec fn pruned_by(v: PruneVerdict, used_again: bool, size: u64) -> Pruned {
    let kept = v is Keep || (v is Recheck && used_again);
    Pruned {
        leftover: v is Leftover,
        kept,
        size: if kept {
            0
        } else {
            size
        },
    }
}

/// What a verdict comes to for a directory of `size` bytes; `used_again` says
/// whether it is in use once its marker is gone.
pub fn pruned(v: PruneVerdict, used_again: bool, size: u64) -> (r: Pruned)
    ensures
        r.leftover == (v is Leftover),
        r.kept == (v is Keep || (v is Recheck && used_again)),
        r.size == if r.kept {
            0
        } else {
            size
        },
        r == pruned_by(v, used_again, size),
{
    match v {
        PruneVerdict::Leftover => Pruned { leftover: true, kept: false, size },
        PruneVerdict::Keep => Pruned { leftover: false, kept: true, size: 0 },
        PruneVerdict::Count => Pruned { leftover: false, kept: false, size },
        PruneVerdict::Recheck => if used_again {
            Pruned { leftover: false, kept: true, size: 0 }
        } else {
            Pruned { leftover: false, kept: false, size }
        },
    }
}

/// A directory is deleted. A trial run deletes none.
pub open spec fn is_deleted(p: Pruned, dry_run: bool) -> bool {
    !dry_run && !p.kept
}

impl Pruned {
    /// Whether the directory is deleted.
    pub fn deleted(&self, dry_run: bool) -> (r: bool)
        ensures
            r == is_deleted(*self, dry_run),
    {
        !dry_run && !self.kept
    }
}

/// There is room to count one more directory.
pub open spec fn room_for(s: PruneStats, p: Pruned) -> bool {
    s.complete_scanned < usize::MAX && s.complete_kept < usize::MAX && s.complete_removed
        < usize::MAX && s.leftover_removed < usize::MAX && s.bytes_freed + p.size <= u64::MAX
}

/// What pruning did, with one more directory.
pub open spec fn counted(s: PruneStats, p: Pruned) -> PruneStats {
    if p.leftover {
        PruneStats {
            leftover_removed: (s.leftover_removed + 1) as usize,
            bytes_freed: (s.bytes_freed + p.size) as u64,
            ..s
        }
    } else if p.kept {
        PruneStats {
            complete_scanned: (s.complete_scanned + 1) as usize,
            complete_kept: (s.complete_kept + 1) as usize,
            ..s
        }
    } else {
        PruneStats {
            complete_scanned: (s.complete_scanned + 1) as usize,
            complete_removed: (s.complete_removed + 1) as usize,
            bytes_freed: (s.bytes_freed + p.size) as u64,
            ..s
        }
    }
}

/// What pruning did.
pub open spec fn all_counted(p: Seq<Pruned>) -> PruneStats
    decreases p.len(),
{
    if p.len() == 0 {
        nothing_pruned()
    } else {
        counted(all_counted(p.drop_last()), p.last())
    }
}

/// There was room for every directory.
pub open spec fn all_fit(p: Seq<Pruned>) -> bool
    decreases p.len(),
{
    p.len() == 0 || (all_fit(p.drop_last()) && room_for(all_counted(p.drop_last()), p.last()))
}

/// Every complete package that pruning looked at either stayed or went.
pub proof fn law_pruned_adds_up(p: Seq<Pruned>)
    requires
        all_fit(p),
    ensures
        all_counted(p).complete_scanned == all_counted(p).complete_kept
            + all_counted(p).complete_removed,
        all_counted(p).complete_scanned + all_counted(p).leftover_removed == p.len(),
    decreases p.len(),
{
    if p.len() > 0 {
        law_pruned_adds_up(p.drop_last());
    }
}

/// A directory of the cache, as pruning finds it.
pub struct CachedDir {
    pub name: Seq<char>,
    /// It has the marker of a complete package.
    pub complete: bool,
    /// What stands below it.
    pub entries: Seq<WalkedEntry>,
    pub size: u64,
}

/// What a run that is not disturbed does with a directory: when it is looked at
/// again, nothing below it has changed but that the marker is gone.
pub open spec fn undisturbed(d: CachedDir, dry_run: bool) -> Pruned {
    pruned_by(
        verdict_of(d.name, d.complete, in_use(d.entries), dry_run),
        in_use(d.entries),
        d.size,
    )
}

/// A package is in use with its marker if and only if it is without it.
pub proof fn law_marker_shows_no_use(entries: Seq<WalkedEntry>, k: int)
    requires
        0 <= k < entries.len(),
        match entries[k] {
            WalkedEntry::File { name, links } => name@ == marker_name(),
            _ => false,
        },
    ensures
        in_use(entries.remove(k)) == in_use(entries),
{
    let rest = entries.remove(k);
    if in_use(entries) {
        let i = choose|i: int| 0 <= i < entries.len() && shows_use(#[trigger] entries[i]);
        let j = if i < k {
            i
        } else {
            i - 1
        };
        assert(rest[j] == entries[i]);
        assert(shows_use(rest[j]));
    }
    if in_use(rest) {
        let j = choose|j: int| 0 <= j < rest.len() && shows_use(#[trigger] rest[j]);
        let i = if j < k {
            j
        } else {
            j + 1
        };
        assert(rest[j] == entries[i]);
        assert(shows_use(entries[i]));
    }
}

/// What a run that is not disturbed counts.
pub open spec fn run_counts(dirs: Seq<CachedDir>, dry_run: bool) -> PruneStats {
    all_counted(dirs.map_values(|d: CachedDir| undisturbed(d, dry_run)))
}

/// A trial run deletes nothing, and counts what a run that is not disturbed
/// counts after it.
pub proof fn law_trial_tells_the_truth(dirs: Seq<CachedDir>)
    ensures
        forall|i: int|
            0 <= i < dirs.len() ==> !is_deleted(undisturbed(#[trigger] dirs[i], true), true),
        run_counts(dirs, true) == run_counts(dirs, false),
{
    assert(dirs.map_values(|d: CachedDir| undisturbed(d, true)) =~= dirs.map_values(
        |d: CachedDir| undisturbed(d, false),
    ));
}

/// Every entry could be read, and the links of every file could be counted.
pub open spec fn all_readable(entries: Seq<WalkedEntry>) -> bool {
    forall|i: int|
        0 <= i < entries.len() ==> match #[trigger] entries[i] {
            WalkedEntry::Unreadable => false,
            WalkedEntry::File { name, links } => links is Some,
            WalkedEntry::Other => true,
        }
}

/// A file other than the marker that has a second link.
pub open spec fn is_linked(e: WalkedEntry) -> bool {
    match e {
        WalkedEntry::File { name, links } => name@ != marker_name() && match links {
            Some(n) => n > 1,
            None => false,
        },
        _ => false,
    }
}

/// A file other than the marker has a second link.
pub open spec fn has_link(entries: Seq<WalkedEntry>) -> bool {
    exists|i: int| 0 <= i < entries.len() && is_linked(#[trigger] entries[i])
}

/// A run that is not disturbed leaves a complete package if and only if one of
/// its files other than the marker has a second link. Of incomplete packages and
/// of those in preparation it leaves none.
pub proof fn law_only_linked_packages_are_left(d: CachedDir)
    requires
        all_readable(d.entries),
    ensures
        d.complete && !text::occurs(d.name, ".staging"@) ==> (!is_deleted(
            undisturbed(d, false),
            false,
        ) <==> has_link(d.entries)),
        !d.complete || text::occurs(d.name, ".staging"@) ==> is_deleted(
            undisturbed(d, false),
            false,
        ),
{
    if in_use(d.entries) {
        let i = choose|i: int| 0 <= i < d.entries.len() && shows_use(#[trigger] d.entries[i]);
        assert(shows_use(d.entries[i]));
    }
    if has_link(d.entries) {
        let i = choose|i: int| 0 <= i < d.entries.len() && is_linked(#[trigger] d.entries[i]);
        assert(shows_use(d.entries[i]));
    }
}

/// A package with an entry that cannot be read, or with a file whose links
/// cannot be counted, stays if it is complete.
pub proof fn law_doubt_keeps_a_package(d: CachedDir, i: int, dry_run: bool)
    requires
        d.complete,
        !text::occurs(d.name, ".staging"@),
        0 <= i < d.entries.len(),
        match d.entries[i] {
            WalkedEntry::Unreadable => true,
            WalkedEntry::File { name, links } => name@ != marker_name() && links is None,
            WalkedEntry::Other => false,
        },
    ensures
        !is_deleted(undisturbed(d, dry_run), dry_run),
        undisturbed(d, dry_run).kept,
{
    assert(shows_use(d.entries[i]));
}

impl PruneStats {
    /// Counts a directory that pruning looked at.
    pub fn count(&mut self, p: Pruned)
        requires
            room_for(*old(self), p),
        ensures
            *final(self) == counted(*old(self), p),
    {
        if p.leftover {
            self.leftover_removed = self.leftover_removed + 1;
            self.bytes_freed = self.bytes_freed + p.size;
        } else {
            self.complete_scanned = self.complete_scanned + 1;
            if p.kept {
                self.complete_kept = self.complete_kept + 1;
            } else {
                self.complete_removed = self.complete_removed + 1;
                self.bytes_freed = self.bytes_freed + p.size;
            }
        }
    }

    /// The number of directories that went.
    pub fn removed(&self) -> (r: usize)
        requires
            self.complete_removed + self.leftover_removed <= usize::MAX,
        ensures
            r == self.complete_removed + self.leftover_removed,
    {
        self.complete_removed + self.leftover_removed
    }
}

// ---------------------------------------------------------------------------
// Numbers of bytes

/// The quotient rounded to the nearest whole number, halves to the even one.
pub open spec fn rounded(a: nat, b: nat) -> nat {
    if 2 * (a % b) > b || (2 * (a % b) == b && (a / b) % 2 == 1) {
        a / b + 1
    } else {
        a / b
    }
}

/// The distance of the numbers with 53 significant bits around a number.
pub open spec fn spacing(n: nat) -> nat
    decreases n,
{
    if n < 0x20_0000_0000_0000 {
        1
    } else {
        2 * spacing(n / 2)
    }
}

/// The number with 53 significant bits that is nearest to a number.
pub open spec fn nearest(n: nat) -> nat {
    rounded(n, spacing(n)) * spacing(n)
}

/// A quotient with two decimals.
pub open spec fn two_decimals(a: nat, b: nat) -> Seq<char> {
    let h = rounded(100 * a, b);
    text::decimal(h / 100) + seq!['.', text::digit_of(h / 10 % 10), text::digit_of(h % 10)]
}

/// A number of bytes in the unit that suits it. Beyond bytes it is taken with 53
/// significant bits.
pub open spec fn bytes_text(n: u64) -> Seq<char> {
    if n >= 0x4000_0000 {
        two_decimals(nearest(n as nat), 0x4000_0000) + " GB"@
    } else if n >= 0x10_0000 {
        two_decimals(nearest(n as nat), 0x10_0000) + " MB"@
    } else if n >= 0x400 {
        two_decimals(nearest(n as nat), 0x400) + " KB"@
    } else {
        text::decimal(n as nat) + " B"@
    }
}

proof fn lemma_spacing(n: nat)
    requires
        n <= u64::MAX,
    ensures
        1 <= spacing(n) <= 2048,
    decreases n,
{
    reveal_with_fuel(spacing, 13);
}

fn spacing_of(n: u64) -> (r: u64)
    ensures
        r == spacing(n as nat),
        1 <= r <= 2048,
    decreases n,
{
    proof {
        lemma_spacing(n as nat);
    }
    if n < 0x20_0000_0000_0000 {
        1
    } else {
        proof {
            lemma_spacing((n / 2) as nat);
        }
        2 * spacing_of(n / 2)
    }
}

/// The quotient rounded to the nearest whole number, halves to the even one.
pub fn round_quotient(a: u128, b: u128) -> (r: u128)
    requires
        0 < b < 0x8000_0000_0000_0000,
        a < 0x8000_0000_0000_0000_0000_0000_0000_0000,
    ensures
        r == rounded(a as nat, b as nat),
        r <= a + 1,
{
    let q: u128 = a / b;
    let m: u128 = a % b;
    assert(q <= a) by (nonlinear_arith)
        requires
            q == a / b,
            b > 0,
    ;
    if 2 * m > b || (2 * m == b && q % 2 == 1) {
        q + 1
    } else {
        q
    }
}

fn nearest_of(n: u64) -> (r: u128)
    ensures
        r == nearest(n as nat),
        r <= 0x1_0000_0000_0000_0000_0000,
{
    let s: u64 = spacing_of(n);
    let q: u128 = round_quotient(n as u128, s as u128);
    assert(q * s <= 0x1_0000_0000_0000_0001 * 2048) by (nonlinear_arith)
        requires
            q <= n + 1,
            n <= 0xffff_ffff_ffff_ffff,
            s <= 2048,
            q >= 0,
            s >= 0,
    ;
    q * (s as u128)
}

fn quotient_text(n: u64, unit: u128, name: &str) -> (r: String)
    requires
        0 < unit < 0x8000_0000_0000_0000,
    ensures
        r@ == two_decimals(nearest(n as nat), unit as nat) + name@,
{
    let a: u128 = nearest_of(n);
    let h: u128 = round_quotient(100 * a, unit);
    let mut out = text::u128_text(h / 100);
    let tens: u8 = (h / 10 % 10) as u8 + 48;
    let ones: u8 = (h % 10) as u8 + 48;
    out.push('.');
    out.push(tens as char);
    out.push(ones as char);
    assert(out@ =~= two_decimals(nearest(n as nat), unit as nat));
    out.append(name);
    out
}

/// A number of bytes in the unit that suits it.
pub fn format_bytes(bytes: u64) -> (r: String)
    ensures
        r@ == bytes_text(bytes),
{
    if bytes >= 0x4000_0000 {
        quotient_text(bytes, 0x4000_0000, " GB")
    } else if bytes >= 0x10_0000 {
        quotient_text(bytes, 0x10_0000, " MB")
    } else if bytes >= 0x400 {
        quotient_text(bytes, 0x400, " KB")
    } else {
        text::cat(text::u64_text(bytes).as_str(), " B")
    }
}

/// A package is staged only under both locks, put in place only after it was
/// staged, and what is complete is never replaced.
pub proof fn law_stored_in_order(phase: StorePhase, complete: bool, present: bool)
    ensures
        next_action(phase, complete, present) == StoreAction::Stage <==> phase
            == StorePhase::FileLocked && !complete,
        next_action(phase, complete, present) == StoreAction::Move <==> phase == StorePhase::Staged
            && !present,
        next_action(phase, complete, present) == StoreAction::Replace <==> phase
            == StorePhase::Staged && present && !complete,
        next_action(phase, complete, present) == StoreAction::Discard <==> phase
            == StorePhase::Staged && present && complete,
        next_action(phase, complete, present) == StoreAction::Finish <==> phase
            != StorePhase::Staged && complete,
        next_action(phase, complete, present) == StoreAction::LockKey <==> phase
            == StorePhase::Start && !complete,
{
}

/// An entry lies in a directory named by the first two digits of its hash, and its
/// marker lies inside.
pub proof fn law_where_entries_lie(root: Seq<char>, h: Seq<char>)
    requires
        root.len() > 0 && root.last() != '/',
        text::is_hex(h, 64),
    ensures
        entry_at(root, h) == root + seq!['/', h[0], h[1], '/'] + h,
        marker_at(root, h) == root + seq!['/', h[0], h[1], '/'] + h + "/.composer-rs-complete"@,
{
    reveal_strlit("/");
    reveal_strlit(".composer-rs-complete");
    reveal_strlit("/.composer-rs-complete");
    let s = shard_of(h);
    assert(s =~= seq![h[0], h[1]]);
    assert('0' <= h[0] <= '9' || 'a' <= h[0] <= 'f');
    assert('0' <= h[1] <= '9' || 'a' <= h[1] <= 'f');
    assert('0' <= h[63] <= '9' || 'a' <= h[63] <= 'f');
    assert(s[0] != '/' && h[0] != '/');
    let d = root + "/"@ + s;
    assert(d.last() == h[1]);
    assert(d + "/"@ + h =~= root + seq!['/', h[0], h[1], '/'] + h);
    let e = entry_at(root, h);
    assert(e.last() == h[63]);
    assert(e + "/"@ + ".composer-rs-complete"@ =~= e + "/.composer-rs-complete"@);
}

/// Files are placed, directories entered, links made again where links are kept,
/// and the file that is left out is never touched.
pub proof fn law_what_is_placed(name: Seq<char>, other: Seq<char>, links: bool)
    requires
        name != other,
    ensures
        step_of(name, Some(EntryKind::File), other, links) == TreeStep::Place,
        step_of(name, Some(EntryKind::Directory), other, links) == TreeStep::Descend,
        step_of(name, Some(EntryKind::Link), other, true) == TreeStep::Relink,
        step_of(name, Some(EntryKind::Link), other, false) == TreeStep::Skip,
        step_of(name, Some(EntryKind::File), name, links) == TreeStep::Skip,
        step_of(name, None, other, links) == TreeStep::Skip,
{
}

/// Rounding gives the nearest whole number.
pub proof fn law_rounding(a: nat, b: nat)
    requires
        b > 0,
    ensures
        2 * b * rounded(a, b) <= 2 * a + b,
        2 * a <= 2 * b * rounded(a, b) + b,
{
    let q = a / b;
    let r = a % b;
    assert(a == b * q + r) by {
        vstd::arithmetic::div_mod::lemma_fundamental_div_mod(a as int, b as int);
    }
    assert(0 <= r < b);
    assert(2 * b * (q + 1) == 2 * (b * q) + 2 * b) by (nonlinear_arith);
    assert(2 * b * q == 2 * (b * q)) by (nonlinear_arith);
}

/// Sizes are shown in bytes, or in the largest unit that they reach, with two
/// decimals that are rounded to the nearest.
pub proof fn law_how_sizes_are_shown(n: u64)
    requires
        n < 0x20_0000_0000_0000,
    ensures
        n < 1024 ==> bytes_text(n) == text::decimal(n as nat) + " B"@,
        1024 <= n < 1024 * 1024 ==> bytes_text(n) == two_decimals(n as nat, 1024) + " KB"@,
        1024 * 1024 <= n < 1024 * 1024 * 1024 ==> bytes_text(n) == two_decimals(
            n as nat,
            1024 * 1024,
        ) + " MB"@,
        1024 * 1024 * 1024 <= n ==> bytes_text(n) == two_decimals(n as nat, 1024 * 1024 * 1024)
            + " GB"@,
{
    assert(spacing(n as nat) == 1);
    assert(n as nat % 1 == 0 && n as nat / 1 == n);
    assert(rounded(n as nat, 1) == n);
    assert(nearest(n as nat) == n);
}

} // verus!
