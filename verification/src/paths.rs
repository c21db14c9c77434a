//! Paths as texts with `/` between their parts.

use crate::text;
use vstd::prelude::*;

verus! {

/// A path that begins at the root.
pub open spec fn is_rooted(p: Seq<char>) -> bool {
    p.len() > 0 && p[0] == '/'
}

/// `rel` below `base`; a rooted `rel` stays as it is.
pub open spec fn joined_path(base: Seq<char>, rel: Seq<char>) -> Seq<char> {
    if is_rooted(rel) {
        rel
    } else if base.len() == 0 || base.last() == '/' {
        base + rel
    } else {
        base + "/"@ + rel
    }
}

/// Whether a path begins at the root.
pub fn is_absolute(p: &str) -> (r: bool)
    ensures
        r == is_rooted(p@),
{
    p.unicode_len() > 0 && p.get_char(0) == '/'
}

/// `rel` below `base`.
pub fn join_path(base: &str, rel: &str) -> (r: String)
    ensures
        r@ == joined_path(base@, rel@),
{
    if is_absolute(rel) {
        return String::from_str(rel);
    }
    let n: usize = base.unicode_len();
    if n == 0 || base.get_char(n - 1) == '/' {
        text::cat(base, rel)
    } else {
        text::cat3(base, "/", rel)
    }
}

/// The text behind the last slash of a path.
pub open spec fn after_last_slash(p: Seq<char>) -> Seq<char> {
    text::pieces(p, "/"@).last()
}

/// The text behind the last slash of a path.
pub fn last_part(p: &str) -> (r: &str)
    ensures
        r@ == after_last_slash(p@),
{
    proof {
        reveal_strlit("/");
    }
    let parts = text::split(p, "/");
    assert(text::views(parts@).last() == parts@.last()@);
    parts[parts.len() - 1]
}

/// A part of a path that names something.
pub open spec fn is_name(part: Seq<char>) -> bool {
    part.len() > 0 && part != "."@ && part != ".."@
}

/// The parts that name something.
pub open spec fn names_in(parts: Seq<Seq<char>>) -> Seq<Seq<char>>
    decreases parts.len(),
{
    if parts.len() == 0 {
        Seq::empty()
    } else {
        let rest = names_in(parts.drop_last());
        if is_name(parts.last()) {
            rest.push(parts.last())
        } else {
            rest
        }
    }
}

/// The names in a path.
pub open spec fn path_names(path: Seq<char>) -> Seq<Seq<char>> {
    names_in(text::pieces(path, "/"@))
}

/// The parts of a path that count: all but empty ones, and dots only in front.
pub open spec fn components_in(parts: Seq<Seq<char>>) -> Seq<Seq<char>>
    decreases parts.len(),
{
    if parts.len() == 0 {
        Seq::empty()
    } else {
        let rest = components_in(parts.drop_last());
        if parts.last().len() > 0 && (parts.last() != "."@ || parts.len() == 1) {
            rest.push(parts.last())
        } else {
            rest
        }
    }
}

/// The parts of a path that count.
pub open spec fn components_of(path: Seq<char>) -> Seq<Seq<char>> {
    components_in(text::pieces(path, "/"@))
}

/// The names in a path.
pub fn names(path: &str) -> (r: Vec<String>)
    ensures
        text::texts(r@) == path_names(path@),
{
    proof {
        reveal_strlit("/");
    }
    let parts = text::split(path, "/");
    let ghost all = text::views(parts@);
    let mut out: Vec<String> = Vec::new();
    let n: usize = parts.len();
    let mut i: usize = 0;
    assert(text::texts(out@) =~= Seq::empty());
    while i < n
        invariant
            i <= n,
            n == parts@.len(),
            all == text::views(parts@),
            text::texts(out@) == names_in(all.take(i as int)),
        decreases n - i,
    {
        let part = parts[i];
        proof {
            assert(all.take(i + 1).drop_last() =~= all.take(i as int));
            assert(all.take(i + 1).last() == part@);
        }
        if part.unicode_len() > 0 && !text::same(part, ".") && !text::same(part, "..") {
            let ghost before = text::texts(out@);
            let copy = String::from_str(part);
            out.push(copy);
            assert(text::texts(out@) =~= before.push(part@));
        }
        i += 1;
    }
    assert(all.take(n as int) =~= all);
    out
}

/// The parts of a path that count.
pub fn components(path: &str) -> (r: Vec<String>)
    ensures
        text::texts(r@) == components_of(path@),
{
    proof {
        reveal_strlit("/");
    }
    let parts = text::split(path, "/");
    let ghost all = text::views(parts@);
    let mut out: Vec<String> = Vec::new();
    let n: usize = parts.len();
    let mut i: usize = 0;
    assert(text::texts(out@) =~= Seq::empty());
    while i < n
        invariant
            i <= n,
            n == parts@.len(),
            all == text::views(parts@),
            text::texts(out@) == components_in(all.take(i as int)),
        decreases n - i,
    {
        let part = parts[i];
        proof {
            assert(all.take(i + 1).drop_last() =~= all.take(i as int));
            assert(all.take(i + 1).last() == part@);
        }
        if part.unicode_len() > 0 && (i == 0 || !text::same(part, ".")) {
            let ghost before = text::texts(out@);
            let copy = String::from_str(part);
            out.push(copy);
            assert(text::texts(out@) =~= before.push(part@));
        }
        i += 1;
    }
    assert(all.take(n as int) =~= all);
    out
}

/// The name of the file that a path leads to.
pub open spec fn file_name_of(path: Seq<char>) -> Option<Seq<char>> {
    let c = components_of(path);
    if c.len() > 0 && is_name(c.last()) {
        Some(c.last())
    } else {
        None
    }
}

/// The name of the file that a path leads to.
pub fn file_name(path: &str) -> (r: Option<String>)
    ensures
        text::opt_text(r) == file_name_of(path@),
{
    let mut c = components(path);
    let ghost all = text::texts(c@);
    let last = c.pop()?;
    assert(all.last() == last@);
    if last.as_str().unicode_len() > 0 && !text::same(last.as_str(), ".") && !text::same(
        last.as_str(),
        "..",
    ) {
        Some(last)
    } else {
        None
    }
}

/// A path lies below another one, or is the same.
pub open spec fn lies_under(path: Seq<char>, root: Seq<char>) -> bool {
    let a = components_of(path);
    let b = components_of(root);
    is_rooted(path) == is_rooted(root) && a.len() >= b.len() && a.take(b.len() as int) == b
}

/// Whether a path lies below another one, or is the same.
pub fn is_under(path: &str, root: &str) -> (r: bool)
    ensures
        r == lies_under(path@, root@),
{
    let a = components(path);
    let b = components(root);
    let ghost x = text::texts(a@);
    let ghost y = text::texts(b@);
    if is_absolute(path) != is_absolute(root) || a.len() < b.len() {
        return false;
    }
    let n: usize = b.len();
    let mut i: usize = 0;
    while i < n
        invariant
            i <= n,
            n == b@.len(),
            n <= a@.len(),
            x == text::texts(a@),
            y == text::texts(b@),
            x == components_of(path@),
            y == components_of(root@),
            forall|j: int| 0 <= j < i ==> x[j] == y[j],
        decreases n - i,
    {
        assert(x[i as int] == a@[i as int]@);
        assert(y[i as int] == b@[i as int]@);
        if !text::same(a[i].as_str(), b[i].as_str()) {
            assert(x.take(n as int)[i as int] != y[i as int]);
            return false;
        }
        i += 1;
    }
    assert(x.take(n as int) =~= y);
    true
}

/// A rooted path stands for itself; another one stands behind the base and one
/// slash.
pub proof fn law_joined_paths(base: Seq<char>, rel: Seq<char>)
    ensures
        (rel.len() > 0 && rel[0] == '/') ==> joined_path(base, rel) == rel,
        base.len() == 0 ==> joined_path(base, rel) == rel,
        (rel.len() > 0 && rel[0] != '/' && base.len() > 0 && base.last() != '/') ==> joined_path(
            base,
            rel,
        ) == base + seq!['/'] + rel,
        (rel.len() > 0 && rel[0] != '/') ==> joined_path(base.push('/'), rel) == base + seq!['/']
            + rel,
{
    reveal_strlit("/");
    assert("/"@ =~= seq!['/']);
    assert(base.push('/') =~= base + seq!['/']);
    assert(Seq::<char>::empty() + rel =~= rel);
    if base.len() == 0 {
        assert(base + rel =~= rel);
    }
}

/// The names in a path are its parts between slashes, but for the empty ones, `.`
/// and `..`, in their order.
pub proof fn law_names_in_path(parts: Seq<Seq<char>>, more: Seq<Seq<char>>, part: Seq<char>)
    ensures
        names_in(parts + more) == names_in(parts) + names_in(more),
        names_in(seq![part]) == (if part.len() == 0 || part == seq!['.'] || part == seq!['.', '.'] {
            Seq::empty()
        } else {
            seq![part]
        }),
    decreases more.len(),
{
    reveal_strlit(".");
    reveal_strlit("..");
    assert("."@ =~= seq!['.'] && ".."@ =~= seq!['.', '.']);
    assert(seq![part].drop_last() =~= Seq::empty());
    assert(seq![part].last() == part);
    assert(names_in(seq![part].drop_last()) =~= Seq::empty());
    assert(names_in(seq![part]) =~= if is_name(part) {
        seq![part]
    } else {
        Seq::empty()
    });
    assert(part == "."@ <==> part == seq!['.']);
    assert(part == ".."@ <==> part == seq!['.', '.']);
    if more.len() > 0 {
        assert((parts + more).drop_last() =~= parts + more.drop_last());
        law_names_in_path(parts, more.drop_last(), part);
        assert(names_in(parts) + names_in(more.drop_last()).push(more.last()) =~= (names_in(parts)
            + names_in(more.drop_last())).push(more.last()));
    } else {
        assert(parts + more =~= parts);
        assert(names_in(parts) + names_in(more) =~= names_in(parts));
    }
}

} // verus!
