//! Archives and what is unpacked from them.

use crate::error::Error;
use crate::paths;
use crate::text;
use vstd::prelude::*;

verus! {

/// The number of entries that an archive may have.
pub const MAX_ARCHIVE_ENTRIES: usize = 100_000;

/// The number of bytes that an archive may expand to.
pub const MAX_UNCOMPRESSED_BYTES: u64 = 2_147_483_648;

/// The number of names in a path of an archive.
pub const MAX_PATH_DEPTH: usize = 32;

// ---------------------------------------------------------------------------
// Kinds of archives

/// The kind of an archive.
#[derive(Debug, Clone, Copy, PartialEq, Eq, Structural)]
pub enum ArchiveType {
    Zip,
    Tar,
    TarGz,
    TarBz2,
    TarXz,
}

/// The kind that the name of an archive tells.
pub open spec fn kind_of_name(name: Seq<char>) -> Option<ArchiveType> {
    if text::ends(name, ".zip"@) {
        Some(ArchiveType::Zip)
    } else if text::ends(name, ".tar.gz"@) || text::ends(name, ".tgz"@) {
        Some(ArchiveType::TarGz)
    } else if text::ends(name, ".tar.bz2"@) || text::ends(name, ".tbz2"@) {
        Some(ArchiveType::TarBz2)
    } else if text::ends(name, ".tar.xz"@) || text::ends(name, ".txz"@) {
        Some(ArchiveType::TarXz)
    } else if text::ends(name, ".tar"@) {
        Some(ArchiveType::Tar)
    } else {
        None
    }
}

/// Bytes begin with others.
pub open spec fn begins(b: Seq<u8>, p: Seq<u8>) -> bool {
    b.len() >= p.len() && b.take(p.len() as int) == p
}

/// The kind that the first bytes of an archive tell; a zip archive if they tell
/// nothing.
pub open spec fn kind_of_bytes(b: Seq<u8>) -> ArchiveType {
    if begins(b, seq![0x50u8, 0x4bu8]) {
        ArchiveType::Zip
    } else if begins(b, seq![0x1fu8, 0x8bu8]) {
        ArchiveType::TarGz
    } else if begins(b, seq![0x42u8, 0x5au8, 0x68u8]) {
        ArchiveType::TarBz2
    } else if begins(b, seq![0xfdu8, 0x37u8, 0x7au8, 0x58u8, 0x5au8]) {
        ArchiveType::TarXz
    } else {
        ArchiveType::Zip
    }
}

impl ArchiveType {
    /// The kind that the path of an archive tells.
    pub fn from_path(path: &str) -> (r: Option<Self>)
        ensures
            r == match paths::file_name_of(path@) {
                Some(name) => kind_of_name(text::lower(name)),
                None => None,
            },
    {
        let name = paths::file_name(path)?;
        let lower = text::to_ascii_lowercase(name.as_str());
        Self::from_filename(lower.as_str())
    }

    /// The kind that the name of an archive tells.
    pub fn from_filename(name: &str) -> (r: Option<Self>)
        ensures
            r == kind_of_name(name@),
    {
        if text::ends_with(name, ".zip") {
            Some(ArchiveType::Zip)
        } else if text::ends_with(name, ".tar.gz") || text::ends_with(name, ".tgz") {
            Some(ArchiveType::TarGz)
        } else if text::ends_with(name, ".tar.bz2") || text::ends_with(name, ".tbz2") {
            Some(ArchiveType::TarBz2)
        } else if text::ends_with(name, ".tar.xz") || text::ends_with(name, ".txz") {
            Some(ArchiveType::TarXz)
        } else if text::ends_with(name, ".tar") {
            Some(ArchiveType::Tar)
        } else {
            None
        }
    }

    /// The kind that the first bytes of an archive tell.
    pub fn detect_by_magic(magic: &[u8]) -> (r: Self)
        ensures
            r == kind_of_bytes(magic@),
    {
        let n: usize = magic.len();
        let ghost b = magic@;
        if n >= 2 && magic[0] == 0x50 && magic[1] == 0x4b {
            assert(b.take(2) =~= seq![0x50u8, 0x4bu8]);
            return ArchiveType::Zip;
        }
        proof {
            if begins(b, seq![0x50u8, 0x4bu8]) {
                assert(b.take(2)[0] == b[0] && b.take(2)[1] == b[1]);
            }
        }
        if n >= 2 && magic[0] == 0x1f && magic[1] == 0x8b {
            assert(b.take(2) =~= seq![0x1fu8, 0x8bu8]);
            return ArchiveType::TarGz;
        }
        proof {
            if begins(b, seq![0x1fu8, 0x8bu8]) {
                assert(b.take(2)[0] == b[0] && b.take(2)[1] == b[1]);
            }
        }
        if n >= 3 && magic[0] == 0x42 && magic[1] == 0x5a && magic[2] == 0x68 {
            assert(b.take(3) =~= seq![0x42u8, 0x5au8, 0x68u8]);
            return ArchiveType::TarBz2;
        }
        proof {
            if begins(b, seq![0x42u8, 0x5au8, 0x68u8]) {
                assert(b.take(3)[0] == b[0] && b.take(3)[1] == b[1] && b.take(3)[2] == b[2]);
            }
        }
        if n >= 5 && magic[0] == 0xfd && magic[1] == 0x37 && magic[2] == 0x7a && magic[3] == 0x58
            && magic[4] == 0x5a {
            assert(b.take(5) =~= seq![0xfdu8, 0x37u8, 0x7au8, 0x58u8, 0x5au8]);
            return ArchiveType::TarXz;
        }
        proof {
            let x = seq![0xfdu8, 0x37u8, 0x7au8, 0x58u8, 0x5au8];
            if begins(b, x) {
                assert(b.take(5)[0] == b[0] && b.take(5)[1] == b[1] && b.take(5)[2] == b[2]
                    && b.take(5)[3] == b[3] && b.take(5)[4] == b[4]);
            }
        }
        ArchiveType::Zip
    }
}

// ---------------------------------------------------------------------------
// Paths of entries

/// A path that leads upwards somewhere.
pub open spec fn leads_up(path: Seq<char>) -> bool {
    text::pieces(path, "/"@).contains(".."@)
}

/// A path with names put behind it.
pub open spec fn below(base: Seq<char>, names: Seq<Seq<char>>) -> Seq<char>
    decreases names.len(),
{
    if names.len() == 0 {
        base
    } else {
        paths::joined_path(below(base, names.drop_last()), names.last())
    }
}

/// What is said of a path that leads upwards.
pub open spec fn traversal_text(name: Seq<char>) -> Seq<char> {
    "refusing path traversal in archive entry: "@ + name
}

/// What is said of a path that is too deep.
pub open spec fn depth_text(name: Seq<char>) -> Seq<char> {
    "refusing archive path deeper than 32: "@ + name
}

fn goes_up(path: &str) -> (r: bool)
    ensures
        r == leads_up(path@),
{
    proof {
        reveal_strlit("/");
    }
    let parts = text::split(path, "/");
    let ghost all = text::views(parts@);
    let n: usize = parts.len();
    let mut i: usize = 0;
    while i < n
        invariant
            i <= n,
            n == parts@.len(),
            all == text::views(parts@),
            all == text::pieces(path@, "/"@),
            forall|j: int| 0 <= j < i ==> all[j] != ".."@,
        decreases n - i,
    {
        assert(all[i as int] == parts@[i as int]@);
        if text::same(parts[i], "..") {
            assert(all.contains(".."@));
            return true;
        }
        i += 1;
    }
    false
}

/// Checks that a path of an archive is not too deep.
pub fn check_path_depth(name: &str) -> (r: Result<(), Error>)
    ensures
        if paths::path_names(name@).len() > MAX_PATH_DEPTH {
            r matches Err(Error::Archive(t)) && t@ == depth_text(name@)
        } else {
            r is Ok
        },
{
    let names = paths::names(name);
    assert(text::texts(names@).len() == names@.len());
    if names.len() > MAX_PATH_DEPTH {
        return Err(Error::Archive(text::cat("refusing archive path deeper than 32: ", name)));
    }
    Ok(())
}

/// Where an entry of an archive is unpacked: below `base`, or nowhere if its
/// path leads upwards.
pub fn safe_join(base: &str, name: &str) -> (r: Result<String, Error>)
    ensures
        if leads_up(name@) {
            r matches Err(Error::Archive(t)) && t@ == traversal_text(name@)
        } else {
            r is Ok && r->Ok_0@ == below(base@, paths::path_names(name@))
        },
{
    if goes_up(name) {
        return Err(
            Error::Archive(text::cat("refusing path traversal in archive entry: ", name)),
        );
    }
    let names = paths::names(name);
    let ghost all = text::texts(names@);
    let mut out = String::from_str(base);
    let n: usize = names.len();
    let mut i: usize = 0;
    while i < n
        invariant
            i <= n,
            n == names@.len(),
            all == text::texts(names@),
            out@ == below(base@, all.take(i as int)),
        decreases n - i,
    {
        proof {
            assert(all.take(i + 1).drop_last() =~= all.take(i as int));
            assert(all.take(i + 1).last() == names@[i as int]@);
        }
        out = paths::join_path(out.as_str(), names[i].as_str());
        i += 1;
    }
    assert(all.take(n as int) =~= all);
    Ok(out)
}

proof fn lemma_pieces_free(s: Seq<char>, i: int)
    requires
        0 <= i < text::pieces(s, "/"@).len(),
    ensures
        !text::pieces(s, "/"@)[i].contains('/'),
    decreases s.len(),
{
    reveal_strlit("/");
    let p = "/"@;
    text::lemma_find(s, p);
    match text::find(s, p) {
        Some(k) => {
            let head = s.take(k);
            let tail = s.skip(k + 1);
            assert(text::pieces(s, p) == seq![head] + text::pieces(tail, p));
            if i == 0 {
                if head.contains('/') {
                    let j = choose|j: int| 0 <= j < head.len() && head[j] == '/';
                    assert(s[j] == '/');
                    assert(s.subrange(j, j + 1) =~= p);
                    assert(text::occurs_at(s, p, j));
                }
            } else {
                lemma_pieces_free(tail, i - 1);
                assert(text::pieces(s, p)[i] == text::pieces(tail, p)[i - 1]);
            }
        },
        None => {
            if s.contains('/') {
                let j = choose|j: int| 0 <= j < s.len() && s[j] == '/';
                assert(s.subrange(j, j + 1) =~= p);
                assert(text::occurs_at(s, p, j));
            }
        },
    }
}

proof fn lemma_names_free(parts: Seq<Seq<char>>)
    requires
        forall|i: int| 0 <= i < parts.len() ==> !(#[trigger] parts[i]).contains('/'),
    ensures
        forall|i: int|
            0 <= i < paths::names_in(parts).len() ==> !(#[trigger] paths::names_in(
                parts,
            )[i]).contains('/') && paths::is_name(paths::names_in(parts)[i]),
    decreases parts.len(),
{
    if parts.len() > 0 {
        let rest = parts.drop_last();
        assert forall|i: int| 0 <= i < rest.len() implies !(#[trigger] rest[i]).contains('/') by {
            assert(rest[i] == parts[i]);
        }
        lemma_names_free(rest);
        let last = parts.last();
        assert(!parts[parts.len() - 1].contains('/'));
        let all = paths::names_in(parts);
        assert forall|i: int| 0 <= i < all.len() implies !(#[trigger] all[i]).contains('/')
            && paths::is_name(all[i]) by {
            if i < paths::names_in(rest).len() {
                assert(all[i] == paths::names_in(rest)[i]);
            } else {
                assert(all[i] == last);
            }
        }
    }
}

proof fn lemma_pieces_push(b: Seq<char>, n: Seq<char>)
    requires
        !n.contains('/'),
    ensures
        text::pieces(b + "/"@ + n, "/"@) == text::pieces(b, "/"@).push(n),
    decreases b.len(),
{
    reveal_strlit("/");
    let p = "/"@;
    let whole = b + p + n;
    text::lemma_find(b, p);
    match text::find(b, p) {
        Some(k) => {
            assert(whole.subrange(k, k + 1) =~= b.subrange(k, k + 1));
            assert forall|j: int| 0 <= j < k implies !text::occurs_at(whole, p, j) by {
                assert(whole.subrange(j, j + 1) =~= b.subrange(j, j + 1));
                assert(!text::occurs_at(b, p, j));
            }
            text::lemma_find_is(whole, p, k);
            lemma_pieces_push(b.skip(k + 1), n);
            assert(whole.take(k) =~= b.take(k));
            assert(whole.skip(k + 1) =~= b.skip(k + 1) + p + n);
            assert(text::pieces(whole, p) =~= text::pieces(b, p).push(n));
        },
        None => {
            let k = b.len() as int;
            assert(whole.subrange(k, k + 1) =~= p);
            assert forall|j: int| 0 <= j < k implies !text::occurs_at(whole, p, j) by {
                assert(whole.subrange(j, j + 1) =~= b.subrange(j, j + 1));
                assert(!text::occurs_at(b, p, j));
            }
            text::lemma_find_is(whole, p, k);
            assert(whole.take(k) =~= b);
            assert(whole.skip(k + 1) =~= n);
            lemma_single_piece(n);
            assert(text::pieces(whole, p) =~= text::pieces(b, p).push(n));
        },
    }
}

proof fn lemma_single_piece(n: Seq<char>)
    requires
        !n.contains('/'),
    ensures
        text::pieces(n, "/"@) == seq![n],
{
    reveal_strlit("/");
    text::lemma_find(n, "/"@);
    if text::find(n, "/"@) is Some {
        let k = text::find(n, "/"@)->0;
        assert(n.subrange(k, k + 1)[0] == n[k]);
        assert(n.contains('/'));
    }
}

proof fn lemma_name_below(b: Seq<char>, n: Seq<char>)
    requires
        !n.contains('/'),
        paths::is_name(n),
    ensures
        paths::components_of(paths::joined_path(b, n)) == paths::components_of(b).push(n),
        paths::is_rooted(paths::joined_path(b, n)) == paths::is_rooted(b),
{
    reveal_strlit("/");
    let p = "/"@;
    assert(!paths::is_rooted(n)) by {
        if n[0] == '/' {
            assert(n.contains('/'));
        }
    }
    let r = paths::joined_path(b, n);
    if b.len() == 0 {
        assert(r =~= n);
        assert(b =~= Seq::<char>::empty());
        assert(!b.contains('/'));
        lemma_single_piece(n);
        lemma_single_piece(b);
        assert(seq![n].drop_last() =~= Seq::empty());
        assert(seq![b].drop_last() =~= Seq::empty());
        reveal_with_fuel(paths::components_in, 2);
    } else if b.last() == '/' {
        let c = b.drop_last();
        let e = Seq::<char>::empty();
        assert(b =~= c + p + e);
        assert(r =~= c + p + n);
        lemma_pieces_push(c, n);
        lemma_pieces_push(c, e);
        let pc = text::pieces(c, p);
        assert(pc.push(n).drop_last() =~= pc);
        assert(pc.push(e).drop_last() =~= pc);
    } else {
        lemma_pieces_push(b, n);
        let pb = text::pieces(b, p);
        assert(pb.push(n).drop_last() =~= pb);
    }
}

proof fn lemma_below_extends(base: Seq<char>, names: Seq<Seq<char>>)
    requires
        forall|i: int|
            0 <= i < names.len() ==> !(#[trigger] names[i]).contains('/') && paths::is_name(
                names[i],
            ),
    ensures
        paths::components_of(below(base, names)) == paths::components_of(base) + names,
        paths::is_rooted(below(base, names)) == paths::is_rooted(base),
    decreases names.len(),
{
    if names.len() > 0 {
        let rest = names.drop_last();
        assert forall|i: int| 0 <= i < rest.len() implies !(#[trigger] rest[i]).contains('/')
            && paths::is_name(rest[i]) by {
            assert(rest[i] == names[i]);
        }
        lemma_below_extends(base, rest);
        assert(names.last() == names[names.len() - 1]);
        lemma_name_below(below(base, rest), names.last());
        assert(paths::components_of(base) + names =~= (paths::components_of(base) + rest).push(
            names.last(),
        ));
    } else {
        assert(paths::components_of(base) + names =~= paths::components_of(base));
    }
}

/// What is unpacked stays below the directory that it is unpacked to: its path
/// has the parts of that of the directory, and behind them nothing but the names
/// in the path of the entry.
pub proof fn law_unpacked_stays_below(base: Seq<char>, name: Seq<char>)
    ensures
        paths::components_of(below(base, paths::path_names(name))) == paths::components_of(base)
            + paths::path_names(name),
        paths::lies_under(below(base, paths::path_names(name)), base),
        forall|i: int|
            0 <= i < paths::path_names(name).len() ==> paths::is_name(
                #[trigger] paths::path_names(name)[i],
            ),
{
    let parts = text::pieces(name, "/"@);
    assert forall|i: int| 0 <= i < parts.len() implies !(#[trigger] parts[i]).contains('/') by {
        lemma_pieces_free(name, i);
    }
    lemma_names_free(parts);
    let names = paths::path_names(name);
    lemma_below_extends(base, names);
    let a = paths::components_of(base);
    assert((a + names).take(a.len() as int) =~= a);
}

// ---------------------------------------------------------------------------
// Entries

/// What is done with an entry of an archive.
#[derive(Debug, Clone, PartialEq, Eq)]
pub enum EntryPlan {
    /// A directory is made.
    Directory(String),
    /// A link is made. Its target is still to be checked.
    Link(String),
    /// A file is written.
    File(String),
}

/// What an entry of an archive is.
#[derive(Debug, Clone, Copy, PartialEq, Eq, Structural)]
pub enum EntryKind {
    Directory,
    Link,
    File,
}

/// The bits of a mode that tell what a file is say that it is a link.
pub open spec fn is_link_mode(mode: Option<u32>) -> bool {
    match mode {
        Some(m) => m & 0xf000u32 == 0xa000u32,
        None => false,
    }
}

/// Whether a mode is that of a link.
pub fn is_unix_symlink(mode: Option<u32>) -> (r: bool)
    ensures
        r == is_link_mode(mode),
{
    match mode {
        Some(m) => m & 0xf000u32 == 0xa000u32,
        None => false,
    }
}

/// What an entry of a zip archive is.
pub open spec fn zip_kind(name: Seq<char>, is_dir: bool, mode: Option<u32>) -> EntryKind {
    if is_dir || text::ends(name, "/"@) {
        EntryKind::Directory
    } else if is_link_mode(mode) {
        EntryKind::Link
    } else {
        EntryKind::File
    }
}

/// What an entry of a zip archive is.
pub fn zip_entry_kind(name: &str, is_dir: bool, mode: Option<u32>) -> (r: EntryKind)
    ensures
        r == zip_kind(name@, is_dir, mode),
{
    if is_dir || text::ends_with(name, "/") {
        EntryKind::Directory
    } else if is_unix_symlink(mode) {
        EntryKind::Link
    } else {
        EntryKind::File
    }
}

/// How far an archive has been unpacked.
#[derive(Debug, Clone, Copy, PartialEq, Eq, Structural)]
pub struct Unpacking {
    /// The number of entries that were looked at.
    pub entries: usize,
    /// The number of bytes of all files so far.
    pub expanded: u64,
}

/// The bytes of all files after one more.
pub open spec fn expanded_by(expanded: u64, size: u64) -> u64 {
    if expanded + size > u64::MAX {
        u64::MAX
    } else {
        (expanded + size) as u64
    }
}

/// What is wrong with an entry, besides the number of bytes.
pub open spec fn entry_fault(name: Seq<char>) -> Option<Seq<char>> {
    if paths::path_names(name).len() > MAX_PATH_DEPTH {
        Some(depth_text(name))
    } else if leads_up(name) {
        Some(traversal_text(name))
    } else {
        None
    }
}

/// What is said of an archive that expands too far.
pub open spec fn expands_text() -> Seq<char> {
    "archive expands beyond 2147483648 bytes"@
}

/// What is done with an entry.
pub open spec fn plan_of(kind: EntryKind, path: Seq<char>, p: EntryPlan) -> bool {
    match kind {
        EntryKind::Directory => p matches EntryPlan::Directory(t) && t@ == path,
        EntryKind::Link => p matches EntryPlan::Link(t) && t@ == path,
        EntryKind::File => p matches EntryPlan::File(t) && t@ == path,
    }
}

impl Unpacking {
    /// The beginning.
    pub fn start() -> (r: Self)
        ensures
            r.entries == 0,
            r.expanded == 0,
    {
        Unpacking { entries: 0, expanded: 0 }
    }

    /// Decides on the next entry of an archive that is unpacked to `dest`.
    pub fn plan_entry(&mut self, dest: &str, name: &str, kind: EntryKind, size: u64) -> (r: Result<
        EntryPlan,
        Error,
    >)
        ensures
            final(self).entries == old(self).entries,
            match entry_fault(name@) {
                Some(m) => {
                    &&& final(self).expanded == old(self).expanded
                    &&& r matches Err(Error::Archive(t)) && t@ == m
                },
                None => {
                    &&& final(self).expanded == if kind == EntryKind::File {
                        expanded_by(old(self).expanded, size)
                    } else {
                        old(self).expanded
                    }
                    &&& if kind == EntryKind::File && final(self).expanded
                        > MAX_UNCOMPRESSED_BYTES {
                        r matches Err(Error::Archive(t)) && t@ == expands_text()
                    } else {
                        r matches Ok(p) && plan_of(kind, below(dest@, paths::path_names(name@)), p)
                    }
                },
            },
    {
        check_path_depth(name)?;
        let path = safe_join(dest, name)?;
        match kind {
            EntryKind::Directory => Ok(EntryPlan::Directory(path)),
            EntryKind::Link => Ok(EntryPlan::Link(path)),
            EntryKind::File => {
                self.expanded =
                if size > u64::MAX - self.expanded {
                    u64::MAX
                } else {
                    self.expanded + size
                };
                if self.expanded > MAX_UNCOMPRESSED_BYTES {
                    return Err(
                        Error::Archive(
                            String::from_str("archive expands beyond 2147483648 bytes"),
                        ),
                    );
                }
                Ok(EntryPlan::File(path))
            },
        }
    }

    /// Counts an entry of an archive whose number of entries is not known
    /// beforehand.
    pub fn count_entry(&mut self) -> (r: Result<(), Error>)
        ensures
            final(self).expanded == old(self).expanded,
            if old(self).entries >= MAX_ARCHIVE_ENTRIES {
                &&& final(self).entries == old(self).entries
                &&& r matches Err(Error::Archive(t)) && t@
                    == "archive has more than 100000 entries"@
            } else {
                &&& final(self).entries == old(self).entries + 1
                &&& r is Ok
            },
    {
        if self.entries >= MAX_ARCHIVE_ENTRIES {
            return Err(
                Error::Archive(String::from_str("archive has more than 100000 entries")),
            );
        }
        self.entries = self.entries + 1;
        Ok(())
    }
}

/// Checks the number of entries of an archive.
pub fn check_entry_count(n: usize) -> (r: Result<(), Error>)
    ensures
        if n > MAX_ARCHIVE_ENTRIES {
            r matches Err(Error::Archive(t)) && t@ == "archive has "@ + text::decimal(n as nat)
                + " entries (limit 100000)"@
        } else {
            r is Ok
        },
{
    if n > MAX_ARCHIVE_ENTRIES {
        return Err(
            Error::Archive(
                text::cat3(
                    "archive has ",
                    text::usize_text(n).as_str(),
                    " entries (limit 100000)",
                ),
            ),
        );
    }
    Ok(())
}

/// The permission bits of a mode.
pub fn permission_bits(mode: u32) -> (r: u32)
    ensures
        r == mode & 0x1ffu32,
{
    mode & 0x1ffu32
}

// ---------------------------------------------------------------------------
// Links

/// What is wrong with the target of a link in the directory `parent` of an
/// archive that is unpacked to `root`.
pub open spec fn link_fault(parent: Seq<char>, root: Seq<char>, target: Seq<char>) -> Option<
    Seq<char>,
> {
    let t = text::trimmed(target);
    if t.len() == 0 {
        Some("empty symlink target"@)
    } else if paths::is_rooted(t) {
        Some("refusing absolute symlink target: "@ + t)
    } else if leads_up(t) {
        Some(traversal_text(t))
    } else if !paths::lies_under(below(parent, paths::path_names(t)), root) {
        Some("refusing symlink that escapes extract root: "@ + t)
    } else {
        None
    }
}

/// Checks the target of a link, and gives it back without white space around it.
pub fn check_link_target<'a>(parent: &str, root: &str, target: &'a str) -> (r: Result<
    &'a str,
    Error,
>)
    ensures
        match link_fault(parent@, root@, target@) {
            Some(m) => r matches Err(Error::Archive(t)) && t@ == m,
            None => r is Ok && r->Ok_0@ == text::trimmed(target@),
        },
{
    let t = text::trim(target);
    if t.unicode_len() == 0 {
        return Err(Error::archive("empty symlink target"));
    }
    if paths::is_absolute(t) {
        return Err(Error::Archive(text::cat("refusing absolute symlink target: ", t)));
    }
    let resolved = safe_join(parent, t)?;
    if !paths::is_under(resolved.as_str(), root) {
        return Err(
            Error::Archive(text::cat("refusing symlink that escapes extract root: ", t)),
        );
    }
    Ok(t)
}

/// What is said of a link without a target.
pub fn missing_link_target(name: &str) -> (r: Error)
    ensures
        r matches Error::Archive(t) && t@ == "link entry missing target: "@ + name@,
{
    Error::Archive(text::cat("link entry missing target: ", name))
}

/// Archives are told apart by the ends of their names.
pub proof fn law_kinds_by_name(stem: Seq<char>)
    ensures
        kind_of_name(stem + ".zip"@) == Some(ArchiveType::Zip),
        kind_of_name(stem + ".tar.gz"@) == Some(ArchiveType::TarGz),
        kind_of_name(stem + ".tgz"@) == Some(ArchiveType::TarGz),
        kind_of_name(stem + ".tar.bz2"@) == Some(ArchiveType::TarBz2),
        kind_of_name(stem + ".tbz2"@) == Some(ArchiveType::TarBz2),
        kind_of_name(stem + ".tar.xz"@) == Some(ArchiveType::TarXz),
        kind_of_name(stem + ".txz"@) == Some(ArchiveType::TarXz),
        kind_of_name(stem + ".tar"@) == Some(ArchiveType::Tar),
{
    reveal_strlit(".zip");
    reveal_strlit(".tar.gz");
    reveal_strlit(".tgz");
    reveal_strlit(".tar.bz2");
    reveal_strlit(".tbz2");
    reveal_strlit(".tar.xz");
    reveal_strlit(".txz");
    reveal_strlit(".tar");
    lemma_own_end(stem, ".zip"@);
    lemma_own_end(stem, ".tar.gz"@);
    lemma_own_end(stem, ".tgz"@);
    lemma_own_end(stem, ".tar.bz2"@);
    lemma_own_end(stem, ".tbz2"@);
    lemma_own_end(stem, ".tar.xz"@);
    lemma_own_end(stem, ".txz"@);
    lemma_own_end(stem, ".tar"@);
    lemma_other_ends(stem + ".tar.gz"@, 'z', 'g', '.');
    lemma_other_ends(stem + ".tgz"@, 'z', 'g', 't');
    lemma_other_ends(stem + ".tar.bz2"@, '2', 'z', 'b');
    lemma_other_ends(stem + ".tbz2"@, '2', 'z', 'b');
    lemma_other_ends(stem + ".tar.xz"@, 'z', 'x', '.');
    lemma_other_ends(stem + ".txz"@, 'z', 'x', 't');
    lemma_other_ends(stem + ".tar"@, 'r', 'a', 't');
}

proof fn lemma_own_end(stem: Seq<char>, end: Seq<char>)
    ensures
        text::ends(stem + end, end),
{
    assert((stem + end).skip((stem + end).len() - end.len()) =~= end);
}

/// Which ends a name does not have, by its last three characters.
proof fn lemma_other_ends(s: Seq<char>, last: char, before: char, third: char)
    requires
        s.len() >= 3,
        s[s.len() - 1] == last,
        s[s.len() - 2] == before,
        s[s.len() - 3] == third,
    ensures
        last != 'p' ==> !text::ends(s, ".zip"@),
        last != 'z' || before != 'g' ==> !text::ends(s, ".tar.gz"@) && !text::ends(s, ".tgz"@),
        last != '2' ==> !text::ends(s, ".tar.bz2"@) && !text::ends(s, ".tbz2"@),
        last != 'z' || before != 'x' ==> !text::ends(s, ".tar.xz"@) && !text::ends(s, ".txz"@),
        last != 'r' ==> !text::ends(s, ".tar"@),
{
    reveal_strlit(".zip");
    reveal_strlit(".tar.gz");
    reveal_strlit(".tgz");
    reveal_strlit(".tar.bz2");
    reveal_strlit(".tbz2");
    reveal_strlit(".tar.xz");
    reveal_strlit(".txz");
    reveal_strlit(".tar");
    lemma_end_chars(s, ".zip"@);
    lemma_end_chars(s, ".tar.gz"@);
    lemma_end_chars(s, ".tgz"@);
    lemma_end_chars(s, ".tar.bz2"@);
    lemma_end_chars(s, ".tbz2"@);
    lemma_end_chars(s, ".tar.xz"@);
    lemma_end_chars(s, ".txz"@);
    lemma_end_chars(s, ".tar"@);
}

proof fn lemma_end_chars(s: Seq<char>, end: Seq<char>)
    requires
        end.len() >= 2,
    ensures
        text::ends(s, end) ==> s[s.len() - 1] == end[end.len() - 1] && s[s.len() - 2] == end[end.len()
            - 2],
{
    if text::ends(s, end) {
        let t = s.skip(s.len() - end.len());
        assert(t[end.len() - 1] == s[s.len() - 1]);
        assert(t[end.len() - 2] == s[s.len() - 2]);
    }
}

/// Archives are told apart by their first bytes.
pub proof fn law_kinds_by_bytes(rest: Seq<u8>)
    ensures
        kind_of_bytes(seq![0x50u8, 0x4bu8] + rest) == ArchiveType::Zip,
        kind_of_bytes(seq![0x1fu8, 0x8bu8] + rest) == ArchiveType::TarGz,
        kind_of_bytes(seq![0x42u8, 0x5au8, 0x68u8] + rest) == ArchiveType::TarBz2,
        kind_of_bytes(seq![0xfdu8, 0x37u8, 0x7au8, 0x58u8, 0x5au8] + rest) == ArchiveType::TarXz,
{
    let z = seq![0x50u8, 0x4bu8];
    let g = seq![0x1fu8, 0x8bu8];
    let b = seq![0x42u8, 0x5au8, 0x68u8];
    let x = seq![0xfdu8, 0x37u8, 0x7au8, 0x58u8, 0x5au8];
    assert((z + rest).take(2) =~= z);
    assert((g + rest).take(2) =~= g);
    assert((b + rest).take(3) =~= b);
    assert((x + rest).take(5) =~= x);
    assert((g + rest).take(2)[0] == 0x1fu8);
    assert((b + rest).take(2)[0] == 0x42u8);
    assert((x + rest).take(2)[0] == 0xfdu8);
    assert((x + rest).take(3)[0] == 0xfdu8);
}

/// A link is accepted if and only if its target is relative, does not lead up, and
/// lies below the root.
pub proof fn law_which_links_are_accepted(parent: Seq<char>, root: Seq<char>, t: Seq<char>)
    requires
        t.len() > 0 && !text::is_space(t[0]) && !text::is_space(t.last()),
    ensures
        t[0] == '/' ==> link_fault(parent, root, t) is Some,
        text::pieces(t, "/"@).contains(".."@) ==> link_fault(parent, root, t) is Some,
        (t[0] != '/' && !text::pieces(t, "/"@).contains(".."@) && paths::lies_under(parent, root))
            ==> link_fault(parent, root, t) is None,
{
    text::lemma_trimmed_same(t);
    law_unpacked_stays_below(parent, t);
    let a = paths::components_of(parent);
    let b = paths::components_of(root);
    let c = paths::components_of(below(parent, paths::path_names(t)));
    if paths::lies_under(parent, root) {
        assert(c.take(b.len() as int) =~= a.take(b.len() as int));
    }
}

} // verus!
