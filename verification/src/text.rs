//! Operations on strings, stated over their sequences of characters.
//!
//! A string is modelled by its characters. Positions in this module count
//! characters, not bytes.

use vstd::prelude::*;

verus! {

/// `String::push` appends one character at the end.
pub assume_specification[ String::push ](s: &mut String, c: char)
    ensures
        final(s)@ == old(s)@.push(c),
;

// ---------------------------------------------------------------------------
// Views of lists of strings

/// The characters of each string of a list.
pub open spec fn texts(v: Seq<String>) -> Seq<Seq<char>> {
    v.map_values(|s: String| s@)
}

/// The characters of each string slice of a list.
pub open spec fn views(v: Seq<&str>) -> Seq<Seq<char>> {
    v.map_values(|s: &str| s@)
}

/// The characters of an optional string.
pub open spec fn opt_text(o: Option<String>) -> Option<Seq<char>> {
    match o {
        Some(s) => Some(s@),
        None => None,
    }
}

/// The characters of an optional string slice.
pub open spec fn opt_view(o: Option<&str>) -> Option<Seq<char>> {
    match o {
        Some(s) => Some(s@),
        None => None,
    }
}

// ---------------------------------------------------------------------------
// Prefixes, suffixes, occurrences

/// `p` is a prefix of `s`.
pub open spec fn starts(s: Seq<char>, p: Seq<char>) -> bool {
    p.len() <= s.len() && s.take(p.len() as int) == p
}

/// `p` is a suffix of `s`.
pub open spec fn ends(s: Seq<char>, p: Seq<char>) -> bool {
    p.len() <= s.len() && s.skip(s.len() - p.len()) == p
}

/// `p` stands in `s` at position `i`.
pub open spec fn occurs_at(s: Seq<char>, p: Seq<char>, i: int) -> bool {
    0 <= i && i + p.len() <= s.len() && s.subrange(i, i + p.len()) == p
}

/// `p` stands somewhere in `s`.
pub open spec fn occurs(s: Seq<char>, p: Seq<char>) -> bool {
    exists|i: int| occurs_at(s, p, i)
}

/// `i` is the first position of `p` in `s`.
pub open spec fn first_at(s: Seq<char>, p: Seq<char>, i: int) -> bool {
    occurs_at(s, p, i) && forall|j: int| 0 <= j < i ==> !occurs_at(s, p, j)
}

/// The first position of `p` in `s`.
pub open spec fn find(s: Seq<char>, p: Seq<char>) -> Option<int> {
    if occurs(s, p) {
        Some(choose|i: int| first_at(s, p, i))
    } else {
        None
    }
}

pub proof fn lemma_find_is(s: Seq<char>, p: Seq<char>, i: int)
    requires
        first_at(s, p, i),
    ensures
        find(s, p) == Some(i),
{
    let k = choose|k: int| first_at(s, p, k);
    assert(first_at(s, p, k));
    if k < i {
        assert(!occurs_at(s, p, k));
    } else if i < k {
        assert(!occurs_at(s, p, i));
    }
}

proof fn lemma_least(s: Seq<char>, p: Seq<char>, i: int)
    requires
        occurs_at(s, p, i),
    ensures
        exists|k: int| first_at(s, p, k),
    decreases i,
{
    if !first_at(s, p, i) {
        let j = choose|j: int| 0 <= j < i && occurs_at(s, p, j);
        lemma_least(s, p, j);
    }
}

/// The position that `find` gives is the first one.
pub proof fn lemma_find(s: Seq<char>, p: Seq<char>)
    ensures
        match find(s, p) {
            Some(i) => first_at(s, p, i),
            None => !occurs(s, p),
        },
{
    if occurs(s, p) {
        let i = choose|i: int| occurs_at(s, p, i);
        lemma_least(s, p, i);
    }
}

/// Whether two strings hold the same characters.
pub fn same(a: &str, b: &str) -> (r: bool)
    ensures
        r == (a@ == b@),
{
    let n: usize = a.unicode_len();
    if n != b.unicode_len() {
        return false;
    }
    let mut i: usize = 0;
    while i < n
        invariant
            i <= n,
            n == a@.len(),
            n == b@.len(),
            forall|j: int| 0 <= j < i ==> a@[j] == b@[j],
        decreases n - i,
    {
        if a.get_char(i) != b.get_char(i) {
            return false;
        }
        i += 1;
    }
    assert(a@ =~= b@);
    true
}

/// Whether `p` stands in `s` at position `at`.
fn stands_at(s: &str, p: &str, at: usize) -> (r: bool)
    ensures
        r == occurs_at(s@, p@, at as int),
{
    let n: usize = s.unicode_len();
    let m: usize = p.unicode_len();
    if m > n || at > n - m {
        return false;
    }
    let mut i: usize = 0;
    while i < m
        invariant
            i <= m,
            m == p@.len(),
            n == s@.len(),
            m <= n,
            at <= n - m,
            forall|j: int| 0 <= j < i ==> s@[at + j] == p@[j],
        decreases m - i,
    {
        if s.get_char(at + i) != p.get_char(i) {
            assert(s@.subrange(at as int, at + m)[i as int] != p@[i as int]);
            return false;
        }
        i += 1;
    }
    assert(s@.subrange(at as int, at + m) =~= p@);
    true
}

/// Whether `s` begins with `p`.
pub fn starts_with(s: &str, p: &str) -> (r: bool)
    ensures
        r == starts(s@, p@),
{
    assert(p@.len() <= s@.len() ==> s@.take(p@.len() as int) == s@.subrange(0, 0 + p@.len() as int));
    stands_at(s, p, 0)
}

/// Whether `s` ends with `p`.
pub fn ends_with(s: &str, p: &str) -> (r: bool)
    ensures
        r == ends(s@, p@),
{
    let n: usize = s.unicode_len();
    let m: usize = p.unicode_len();
    if m > n {
        return false;
    }
    assert(s@.skip(n - m) =~= s@.subrange(n - m, n - m + m));
    stands_at(s, p, n - m)
}

/// The first position of `p` in `s`.
pub fn find_in(s: &str, p: &str) -> (r: Option<usize>)
    ensures
        match r {
            Some(i) => find(s@, p@) == Some(i as int) && first_at(s@, p@, i as int),
            None => find(s@, p@) is None,
        },
{
    let n: usize = s.unicode_len();
    let mut i: usize = 0;
    while i <= n
        invariant
            i <= n + 1,
            n == s@.len(),
            forall|j: int| 0 <= j < i ==> !occurs_at(s@, p@, j),
        decreases n + 1 - i,
    {
        if stands_at(s, p, i) {
            proof {
                lemma_find_is(s@, p@, i as int);
            }
            return Some(i);
        }
        if i == n {
            assert forall|j: int| !occurs_at(s@, p@, j) by {
                if occurs_at(s@, p@, j) {
                    assert(j <= n);
                }
            }
            return None;
        }
        i += 1;
    }
    None
}

/// Whether `p` stands somewhere in `s`.
pub fn contains(s: &str, p: &str) -> (r: bool)
    ensures
        r == occurs(s@, p@),
{
    let found = find_in(s, p);
    proof {
        lemma_find(s@, p@);
    }
    found.is_some()
}

/// Whether the character `c` stands in `s`.
pub fn contains_char(s: &str, c: char) -> (r: bool)
    ensures
        r == s@.contains(c),
{
    let n: usize = s.unicode_len();
    let mut i: usize = 0;
    while i < n
        invariant
            i <= n,
            n == s@.len(),
            forall|j: int| 0 <= j < i ==> s@[j] != c,
        decreases n - i,
    {
        if s.get_char(i) == c {
            return true;
        }
        i += 1;
    }
    false
}

/// What is left of `s` when the prefix `p` is taken off, if `p` is one.
pub open spec fn without_prefix(s: Seq<char>, p: Seq<char>) -> Option<Seq<char>> {
    if starts(s, p) {
        Some(s.skip(p.len() as int))
    } else {
        None
    }
}

/// What is left of `s` when the suffix `p` is taken off, if `p` is one.
pub open spec fn without_suffix(s: Seq<char>, p: Seq<char>) -> Option<Seq<char>> {
    if ends(s, p) {
        Some(s.take(s.len() - p.len()))
    } else {
        None
    }
}

/// `s` without the prefix `p`.
pub fn strip_prefix<'a>(s: &'a str, p: &str) -> (r: Option<&'a str>)
    ensures
        opt_view(r) == without_prefix(s@, p@),
{
    if starts_with(s, p) {
        Some(s.substring_char(p.unicode_len(), s.unicode_len()))
    } else {
        None
    }
}

/// `s` without the suffix `p`.
pub fn strip_suffix<'a>(s: &'a str, p: &str) -> (r: Option<&'a str>)
    ensures
        opt_view(r) == without_suffix(s@, p@),
{
    if ends_with(s, p) {
        Some(s.substring_char(0, s.unicode_len() - p.unicode_len()))
    } else {
        None
    }
}

// ---------------------------------------------------------------------------
// Splitting and joining

/// The pieces of `s` between the occurrences of `p`, found from the left.
pub open spec fn pieces(s: Seq<char>, p: Seq<char>) -> Seq<Seq<char>>
    decreases s.len(),
{
    match find(s, p) {
        Some(i) => if p.len() > 0 && 0 <= i && i + p.len() <= s.len() {
            seq![s.take(i)] + pieces(s.skip(i + p.len()), p)
        } else {
            seq![s]
        },
        None => seq![s],
    }
}

proof fn lemma_one_piece(s: Seq<char>, p: Seq<char>)
    requires
        p.len() > 0,
        !s.contains(p[0]),
    ensures
        pieces(s, p) == seq![s],
{
    if occurs(s, p) {
        let i = choose|i: int| occurs_at(s, p, i);
        assert(s.subrange(i, i + p.len())[0] == p[0]);
        assert(s[i] == p[0]);
    }
}

/// A text in front of `p` that does not hold its first character ends at the
/// first `p`.
pub proof fn lemma_first_found(a: Seq<char>, p: Seq<char>, b: Seq<char>)
    requires
        p.len() > 0,
        !a.contains(p[0]),
    ensures
        occurs(a + p + b, p),
        find(a + p + b, p) == Some(a.len() as int),
{
    let s = a + p + b;
    let n = a.len() as int;
    assert(s.subrange(n, n + p.len()) =~= p);
    assert(occurs_at(s, p, n));
    assert forall|j: int| 0 <= j < n implies !occurs_at(s, p, j) by {
        if occurs_at(s, p, j) {
            assert(s.subrange(j, j + p.len())[0] == p[0]);
            assert(a[j] == p[0]);
        }
    }
    lemma_find_is(s, p, n);
}

/// Two texts that do not hold the first character of `p` are the pieces of
/// what they make with `p` between them.
pub proof fn lemma_two_pieces(a: Seq<char>, p: Seq<char>, b: Seq<char>)
    requires
        p.len() > 0,
        !a.contains(p[0]),
        !b.contains(p[0]),
    ensures
        occurs(a + p + b, p),
        pieces(a + p + b, p) == seq![a, b],
{
    lemma_first_found(a, p, b);
    lemma_piece_before(a, p, b);
    lemma_one_piece(b, p);
    lemma_pair(a, b);
}

proof fn lemma_pair(a: Seq<char>, b: Seq<char>)
    ensures
        seq![a] + seq![b] == seq![a, b],
{
    assert(seq![a] + seq![b] =~= seq![a, b]);
}

proof fn lemma_next_piece(s: Seq<char>, p: Seq<char>, i: int)
    requires
        p.len() > 0,
        0 <= i,
        i + p.len() <= s.len(),
        find(s, p) == Some(i),
    ensures
        pieces(s, p) == seq![s.take(i)] + pieces(s.skip(i + p.len()), p),
{
}

/// A text that does not hold the first character of `p` does not hold `p`.
pub proof fn lemma_not_found(s: Seq<char>, p: Seq<char>)
    requires
        p.len() > 0,
        !s.contains(p[0]),
    ensures
        !occurs(s, p),
        find(s, p) is None,
        parted(s, p) is None,
        pieces(s, p) == seq![s],
{
    if occurs(s, p) {
        let i = choose|i: int| occurs_at(s, p, i);
        assert(s.subrange(i, i + p.len())[0] == p[0]);
        assert(s[i] == p[0]);
    }
}

/// What stands in front of the first `p` is the first piece.
pub proof fn lemma_piece_before(a: Seq<char>, p: Seq<char>, b: Seq<char>)
    requires
        p.len() > 0,
        !a.contains(p[0]),
    ensures
        pieces(a + p + b, p) == seq![a] + pieces(b, p),
        parted(a + p + b, p) == Some((a, b)),
{
    lemma_first_found(a, p, b);
    lemma_parts(a, p, b);
    lemma_next_piece(a + p + b, p, a.len() as int);
}

proof fn lemma_parts(a: Seq<char>, p: Seq<char>, b: Seq<char>)
    ensures
        (a + p + b).take(a.len() as int) == a,
        (a + p + b).skip(a.len() as int + p.len()) == b,
{
    assert((a + p + b).take(a.len() as int) =~= a);
    assert((a + p + b).skip(a.len() as int + p.len()) =~= b);
}

/// The parts of `s` before and after the first `p`.
pub open spec fn parted(s: Seq<char>, p: Seq<char>) -> Option<(Seq<char>, Seq<char>)> {
    match find(s, p) {
        Some(i) => Some((s.take(i), s.skip(i + p.len()))),
        None => None,
    }
}

/// The pieces of `s` between the occurrences of `p`.
pub fn split<'a>(s: &'a str, p: &str) -> (r: Vec<&'a str>)
    requires
        p@.len() > 0,
    ensures
        views(r@) == pieces(s@, p@),
        r@.len() > 0,
{
    let mut out: Vec<&'a str> = Vec::new();
    let mut rest: &'a str = s;
    loop
        invariant
            p@.len() > 0,
            views(out@) + pieces(rest@, p@) == pieces(s@, p@),
        decreases rest@.len(),
    {
        match find_in(rest, p) {
            None => {
                out.push(rest);
                assert(views(out@) =~= pieces(s@, p@));
                return out;
            },
            Some(i) => {
                let ghost before = views(out@);
                let head = rest.substring_char(0, i);
                let n: usize = rest.unicode_len();
                let m: usize = p.unicode_len();
                let tail = rest.substring_char(i + m, n);
                out.push(head);
                assert(views(out@) =~= before.push(head@));
                assert(pieces(rest@, p@) =~= seq![head@] + pieces(tail@, p@));
                assert(before.push(head@) + pieces(tail@, p@) =~= before + (seq![head@] + pieces(
                    tail@,
                    p@,
                )));
                rest = tail;
            },
        }
    }
}

/// The parts of `s` before and after the first `p`.
pub fn split_once<'a>(s: &'a str, p: &str) -> (r: Option<(&'a str, &'a str)>)
    ensures
        match r {
            Some((a, b)) => parted(s@, p@) == Some((a@, b@)),
            None => parted(s@, p@) is None,
        },
{
    match find_in(s, p) {
        Some(i) => {
            let n: usize = s.unicode_len();
            let m: usize = p.unicode_len();
            Some((s.substring_char(0, i), s.substring_char(i + m, n)))
        },
        None => None,
    }
}

/// The strings of a list with `sep` between them.
pub open spec fn joined(parts: Seq<Seq<char>>, sep: Seq<char>) -> Seq<char>
    decreases parts.len(),
{
    if parts.len() == 0 {
        Seq::empty()
    } else if parts.len() == 1 {
        parts[0]
    } else {
        joined(parts.drop_last(), sep) + sep + parts.last()
    }
}

/// The strings of a list with `sep` between them.
pub fn join(parts: &Vec<String>, sep: &str) -> (r: String)
    ensures
        r@ == joined(texts(parts@), sep@),
{
    let mut out = String::new();
    let n: usize = parts.len();
    let mut i: usize = 0;
    while i < n
        invariant
            i <= n,
            n == parts@.len(),
            out@ == joined(texts(parts@).take(i as int), sep@),
        decreases n - i,
    {
        let ghost before = texts(parts@).take(i as int);
        if i > 0 {
            out.append(sep);
        }
        out.append(parts[i].as_str());
        proof {
            let now = texts(parts@).take(i + 1);
            assert(now.drop_last() =~= before);
            assert(now.last() == parts@[i as int]@);
            if i == 0 {
                assert(before.len() == 0);
                assert(Seq::<char>::empty() + parts@[0]@ =~= parts@[0]@);
            }
        }
        i += 1;
    }
    assert(texts(parts@).take(n as int) =~= texts(parts@));
    out
}

/// The string slices of a list with `sep` between them.
pub fn join_views(parts: &Vec<&str>, sep: &str) -> (r: String)
    ensures
        r@ == joined(views(parts@), sep@),
{
    let mut out = String::new();
    let n: usize = parts.len();
    let mut i: usize = 0;
    while i < n
        invariant
            i <= n,
            n == parts@.len(),
            out@ == joined(views(parts@).take(i as int), sep@),
        decreases n - i,
    {
        let ghost before = views(parts@).take(i as int);
        if i > 0 {
            out.append(sep);
        }
        out.append(parts[i]);
        proof {
            let now = views(parts@).take(i + 1);
            assert(now.drop_last() =~= before);
            assert(now.last() == parts@[i as int]@);
            if i == 0 {
                assert(before.len() == 0);
                assert(Seq::<char>::empty() + parts@[0]@ =~= parts@[0]@);
            }
        }
        i += 1;
    }
    assert(views(parts@).take(n as int) =~= views(parts@));
    out
}

/// `s` with each `p`, found from the left, replaced by `t`.
pub open spec fn replaced(s: Seq<char>, p: Seq<char>, t: Seq<char>) -> Seq<char> {
    joined(pieces(s, p), t)
}

/// `s` with each `p` replaced by `t`.
pub fn replace(s: &str, p: &str, t: &str) -> (r: String)
    requires
        p@.len() > 0,
    ensures
        r@ == replaced(s@, p@, t@),
{
    let parts = split(s, p);
    join_views(&parts, t)
}

/// Two strings, one behind the other.
pub fn cat(a: &str, b: &str) -> (r: String)
    ensures
        r@ == a@ + b@,
{
    let mut out = String::from_str(a);
    out.append(b);
    out
}

/// Three strings, one behind the other.
pub fn cat3(a: &str, b: &str, c: &str) -> (r: String)
    ensures
        r@ == a@ + b@ + c@,
{
    let mut out = String::from_str(a);
    out.append(b);
    out.append(c);
    out
}

/// How often the character `c` stands in `s`.
pub open spec fn count_of(s: Seq<char>, c: char) -> nat
    decreases s.len(),
{
    if s.len() == 0 {
        0
    } else {
        count_of(s.drop_last(), c) + if s.last() == c {
            1nat
        } else {
            0nat
        }
    }
}

/// How often the character `c` stands in `s`.
pub fn count_char(s: &str, c: char) -> (r: usize)
    ensures
        r == count_of(s@, c),
        r <= s@.len(),
{
    let n: usize = s.unicode_len();
    let mut i: usize = 0;
    let mut k: usize = 0;
    while i < n
        invariant
            i <= n,
            n == s@.len(),
            k <= i,
            k == count_of(s@.take(i as int), c),
        decreases n - i,
    {
        assert(s@.take(i + 1).drop_last() =~= s@.take(i as int));
        if s.get_char(i) == c {
            k += 1;
        }
        i += 1;
    }
    assert(s@.take(n as int) =~= s@);
    k
}

/// `n` blanks.
pub open spec fn blanks(n: nat) -> Seq<char> {
    Seq::new(n, |i: int| ' ')
}

/// A text with blanks behind it, so that it has at least `width` characters.
pub open spec fn padded(s: Seq<char>, width: nat) -> Seq<char> {
    if s.len() < width {
        s + blanks((width - s.len()) as nat)
    } else {
        s
    }
}

/// A text with blanks behind it, so that it has at least `width` characters.
pub fn pad(s: &str, width: usize) -> (r: String)
    ensures
        r@ == padded(s@, width as nat),
{
    let mut out = String::from_str(s);
    let n: usize = s.unicode_len();
    let mut i: usize = n;
    assert(s@ + blanks(0) =~= s@);
    while i < width
        invariant
            n == s@.len(),
            n <= i,
            i <= width || i == n,
            out@ == s@ + blanks((i - n) as nat),
        decreases width - i,
    {
        let ghost before = out@;
        out.push(' ');
        assert(out@ =~= s@ + blanks((i + 1 - n) as nat));
        i += 1;
    }
    out
}

// ---------------------------------------------------------------------------
// White space and trimming

/// The characters with the Unicode property `White_Space`.
pub open spec fn is_space(c: char) -> bool {
    ||| '\u{9}' <= c <= '\u{d}'
    ||| c == ' '
    ||| c == '\u{85}'
    ||| c == '\u{a0}'
    ||| c == '\u{1680}'
    ||| '\u{2000}' <= c <= '\u{200a}'
    ||| c == '\u{2028}'
    ||| c == '\u{2029}'
    ||| c == '\u{202f}'
    ||| c == '\u{205f}'
    ||| c == '\u{3000}'
}

/// Whether `c` has the Unicode property `White_Space`.
pub fn space(c: char) -> (r: bool)
    ensures
        r == is_space(c),
{
    ('\u{9}' <= c && c <= '\u{d}') || c == ' ' || c == '\u{85}' || c == '\u{a0}' || c
        == '\u{1680}' || ('\u{2000}' <= c && c <= '\u{200a}') || c == '\u{2028}' || c
        == '\u{2029}' || c == '\u{202f}' || c == '\u{205f}' || c == '\u{3000}'
}

/// `s` without the white space at its front.
pub open spec fn trimmed_front(s: Seq<char>) -> Seq<char>
    decreases s.len(),
{
    if s.len() > 0 && is_space(s[0]) {
        trimmed_front(s.skip(1))
    } else {
        s
    }
}

/// `s` without the white space at its back.
pub open spec fn trimmed_back(s: Seq<char>) -> Seq<char>
    decreases s.len(),
{
    if s.len() > 0 && is_space(s.last()) {
        trimmed_back(s.drop_last())
    } else {
        s
    }
}

/// `s` without the white space at both ends.
pub open spec fn trimmed(s: Seq<char>) -> Seq<char> {
    trimmed_back(trimmed_front(s))
}

/// A text that neither begins nor ends with white space.
pub proof fn lemma_trimmed_same(s: Seq<char>)
    requires
        s.len() > 0 ==> !is_space(s[0]) && !is_space(s.last()),
    ensures
        trimmed(s) == s,
{
    assert(trimmed_front(s) == s);
}

/// `s` without the white space at its front.
pub fn trim_start(s: &str) -> (r: &str)
    ensures
        r@ == trimmed_front(s@),
{
    let n: usize = s.unicode_len();
    let mut i: usize = 0;
    assert(s@.skip(0) =~= s@);
    while i < n && space(s.get_char(i))
        invariant
            i <= n,
            n == s@.len(),
            trimmed_front(s@) == trimmed_front(s@.skip(i as int)),
        decreases n - i,
    {
        assert(s@.skip(i as int).skip(1) =~= s@.skip(i + 1));
        i += 1;
    }
    assert(s@.skip(i as int) =~= s@.subrange(i as int, n as int));
    s.substring_char(i, n)
}

/// `s` without the white space at its back.
pub fn trim_end(s: &str) -> (r: &str)
    ensures
        r@ == trimmed_back(s@),
{
    let mut n: usize = s.unicode_len();
    assert(s@.take(n as int) =~= s@);
    while n > 0 && space(s.get_char(n - 1))
        invariant
            n <= s@.len(),
            trimmed_back(s@) == trimmed_back(s@.take(n as int)),
        decreases n,
    {
        assert(s@.take(n as int).drop_last() =~= s@.take(n - 1));
        n -= 1;
    }
    assert(s@.take(n as int) =~= s@.subrange(0, n as int));
    s.substring_char(0, n)
}

/// `s` without the white space at both ends.
pub fn trim(s: &str) -> (r: &str)
    ensures
        r@ == trimmed(s@),
{
    trim_end(trim_start(s))
}

/// `s` without the characters `c` at its front.
pub open spec fn without_front(s: Seq<char>, c: char) -> Seq<char>
    decreases s.len(),
{
    if s.len() > 0 && s[0] == c {
        without_front(s.skip(1), c)
    } else {
        s
    }
}

/// `s` without the characters `c` at its front.
pub fn trim_front_char(s: &str, c: char) -> (r: &str)
    ensures
        r@ == without_front(s@, c),
{
    let n: usize = s.unicode_len();
    let mut i: usize = 0;
    assert(s@.skip(0) =~= s@);
    while i < n && s.get_char(i) == c
        invariant
            i <= n,
            n == s@.len(),
            without_front(s@, c) == without_front(s@.skip(i as int), c),
        decreases n - i,
    {
        assert(s@.skip(i as int).skip(1) =~= s@.skip(i + 1));
        i += 1;
    }
    assert(s@.skip(i as int) =~= s@.subrange(i as int, n as int));
    s.substring_char(i, n)
}

/// `s` without the occurrences of `p` at its back.
pub open spec fn without_back(s: Seq<char>, p: Seq<char>) -> Seq<char>
    decreases s.len(),
{
    if p.len() > 0 && ends(s, p) {
        without_back(s.take(s.len() - p.len()), p)
    } else {
        s
    }
}

/// `s` without the occurrences of `p` at its back.
pub fn trim_back<'a>(s: &'a str, p: &str) -> (r: &'a str)
    requires
        p@.len() > 0,
    ensures
        r@ == without_back(s@, p@),
{
    let mut rest: &'a str = s;
    while ends_with(rest, p)
        invariant
            p@.len() > 0,
            without_back(s@, p@) == without_back(rest@, p@),
        decreases rest@.len(),
    {
        let keep: usize = rest.unicode_len() - p.unicode_len();
        rest = rest.substring_char(0, keep);
    }
    rest
}

/// The ASCII white space characters.
pub open spec fn is_ascii_space(c: char) -> bool {
    c == ' ' || c == '\t' || c == '\n' || c == '\u{c}' || c == '\r'
}

/// The characters that end a word: ASCII white space, or all white space.
pub open spec fn is_break(c: char, ascii: bool) -> bool {
    if ascii {
        is_ascii_space(c)
    } else {
        is_space(c)
    }
}

/// Whether `c` ends a word.
fn breaks(c: char, ascii: bool) -> (r: bool)
    ensures
        r == is_break(c, ascii),
{
    if ascii {
        c == ' ' || c == '\t' || c == '\n' || c == '\u{c}' || c == '\r'
    } else {
        space(c)
    }
}

/// `s` without the characters at its front that end words.
pub open spec fn after_breaks(s: Seq<char>, ascii: bool) -> Seq<char>
    decreases s.len(),
{
    if s.len() > 0 && is_break(s[0], ascii) {
        after_breaks(s.skip(1), ascii)
    } else {
        s
    }
}

/// The number of characters before the first one that ends a word.
pub open spec fn word_len(s: Seq<char>, ascii: bool) -> int
    decreases s.len(),
{
    if s.len() == 0 || is_break(s[0], ascii) {
        0
    } else {
        1 + word_len(s.skip(1), ascii)
    }
}

proof fn lemma_word_len(s: Seq<char>, ascii: bool)
    ensures
        0 <= word_len(s, ascii) <= s.len(),
        s.len() > 0 && !is_break(s[0], ascii) ==> word_len(s, ascii) > 0,
    decreases s.len(),
{
    if s.len() > 0 && !is_break(s[0], ascii) {
        lemma_word_len(s.skip(1), ascii);
    }
}

proof fn lemma_after_breaks(s: Seq<char>, ascii: bool)
    ensures
        after_breaks(s, ascii).len() <= s.len(),
        after_breaks(s, ascii).len() > 0 ==> !is_break(after_breaks(s, ascii)[0], ascii),
    decreases s.len(),
{
    if s.len() > 0 && is_break(s[0], ascii) {
        lemma_after_breaks(s.skip(1), ascii);
    }
}

/// The maximal pieces of `s` without a character that ends a word.
pub open spec fn words(s: Seq<char>, ascii: bool) -> Seq<Seq<char>>
    decreases s.len(),
    via words_decreases
{
    let t = after_breaks(s, ascii);
    if t.len() == 0 {
        Seq::empty()
    } else {
        seq![t.take(word_len(t, ascii))] + words(t.skip(word_len(t, ascii)), ascii)
    }
}

#[via_fn]
proof fn words_decreases(s: Seq<char>, ascii: bool) {
    lemma_after_breaks(s, ascii);
    lemma_word_len(after_breaks(s, ascii), ascii);
}

/// No character of `s` ends a word.
pub open spec fn is_word(s: Seq<char>, ascii: bool) -> bool {
    forall|i: int| 0 <= i < s.len() ==> !is_break(#[trigger] s[i], ascii)
}

proof fn lemma_word_ends(a: Seq<char>, rest: Seq<char>, ascii: bool)
    requires
        is_word(a, ascii),
        rest.len() == 0 || is_break(rest[0], ascii),
    ensures
        word_len(a + rest, ascii) == a.len(),
    decreases a.len(),
{
    if a.len() == 0 {
        assert(a + rest =~= rest);
    } else {
        let t = a + rest;
        assert(t[0] == a[0]);
        assert(t.skip(1) =~= a.skip(1) + rest);
        assert forall|i: int| 0 <= i < a.skip(1).len() implies !is_break(
            #[trigger] a.skip(1)[i],
            ascii,
        ) by {
            assert(a.skip(1)[i] == a[i + 1]);
        }
        lemma_word_ends(a.skip(1), rest, ascii);
    }
}

/// A text of one word.
pub proof fn lemma_one_word(a: Seq<char>, ascii: bool)
    requires
        a.len() > 0,
        is_word(a, ascii),
    ensures
        words(a, ascii) == seq![a],
{
    assert(after_breaks(a, ascii) == a);
    lemma_word_ends(a, Seq::empty(), ascii);
    assert(a + Seq::<char>::empty() =~= a);
    assert(a.take(a.len() as int) =~= a);
    assert(a.skip(a.len() as int) =~= Seq::<char>::empty());
    assert(words(Seq::<char>::empty(), ascii) == Seq::<Seq<char>>::empty());
    assert(words(a, ascii) =~= seq![a]);
}

/// A word in front of a space is the first word.
pub proof fn lemma_word_before(a: Seq<char>, rest: Seq<char>, ascii: bool)
    requires
        a.len() > 0,
        is_word(a, ascii),
    ensures
        words(a + seq![' '] + rest, ascii) == seq![a] + words(rest, ascii),
{
    let s = a + seq![' '] + rest;
    let tail = seq![' '] + rest;
    assert(s =~= a + tail);
    assert(s[0] == a[0]);
    assert(after_breaks(s, ascii) == s);
    lemma_word_ends(a, tail, ascii);
    assert(s.take(a.len() as int) =~= a);
    assert(s.skip(a.len() as int) =~= tail);
    assert(tail.skip(1) =~= rest);
    assert(after_breaks(tail, ascii) == after_breaks(rest, ascii));
    assert(words(tail, ascii) == words(rest, ascii));
}

/// A text of two words with a space between them.
pub proof fn lemma_two_words(a: Seq<char>, b: Seq<char>, ascii: bool)
    requires
        a.len() > 0,
        b.len() > 0,
        is_word(a, ascii),
        is_word(b, ascii),
    ensures
        words(a + seq![' '] + b, ascii) == seq![a, b],
{
    let s = a + seq![' '] + b;
    let rest = seq![' '] + b;
    assert(s =~= a + rest);
    assert(s[0] == a[0]);
    assert(after_breaks(s, ascii) == s);
    lemma_word_ends(a, rest, ascii);
    assert(s.take(a.len() as int) =~= a);
    assert(s.skip(a.len() as int) =~= rest);
    assert(rest.skip(1) =~= b);
    assert(after_breaks(b, ascii) == b);
    assert(after_breaks(rest, ascii) == b);
    lemma_one_word(b, ascii);
    assert(words(rest, ascii) == words(b, ascii));
    assert(words(s, ascii) =~= seq![a, b]);
}

/// `s` without the characters at its front that end words.
fn skip_breaks(s: &str, ascii: bool) -> (r: &str)
    ensures
        r@ == after_breaks(s@, ascii),
{
    let n: usize = s.unicode_len();
    let mut i: usize = 0;
    assert(s@.skip(0) =~= s@);
    while i < n && breaks(s.get_char(i), ascii)
        invariant
            i <= n,
            n == s@.len(),
            after_breaks(s@, ascii) == after_breaks(s@.skip(i as int), ascii),
        decreases n - i,
    {
        assert(s@.skip(i as int).skip(1) =~= s@.skip(i + 1));
        i += 1;
    }
    assert(s@.skip(i as int) =~= s@.subrange(i as int, n as int));
    s.substring_char(i, n)
}

/// The maximal pieces of `s` without a character that ends a word.
fn split_words<'a>(s: &'a str, ascii: bool) -> (r: Vec<&'a str>)
    ensures
        views(r@) == words(s@, ascii),
{
    let mut out: Vec<&'a str> = Vec::new();
    let mut rest: &'a str = skip_breaks(s, ascii);
    proof {
        lemma_breaks_twice(s@, ascii);
        assert(views(out@) + words(rest@, ascii) =~= words(s@, ascii));
    }
    while !rest.is_empty()
        invariant
            views(out@) + words(rest@, ascii) == words(s@, ascii),
            after_breaks(rest@, ascii) == rest@,
        decreases rest@.len(),
    {
        let n: usize = rest.unicode_len();
        let mut k: usize = 0;
        assert(rest@.skip(0) =~= rest@);
        while k < n && !breaks(rest.get_char(k), ascii)
            invariant
                k <= n,
                n == rest@.len(),
                word_len(rest@, ascii) == k + word_len(rest@.skip(k as int), ascii),
            decreases n - k,
        {
            assert(rest@.skip(k as int).skip(1) =~= rest@.skip(k + 1));
            k += 1;
        }
        proof {
            lemma_after_breaks(rest@, ascii);
            lemma_word_len(rest@, ascii);
        }
        assert(word_len(rest@, ascii) == k);
        let ghost before = views(out@);
        let head = rest.substring_char(0, k);
        let tail = rest.substring_char(k, n);
        out.push(head);
        let next = skip_breaks(tail, ascii);
        proof {
            assert(views(out@) =~= before.push(head@));
            assert(rest@.take(k as int) =~= head@);
            assert(rest@.skip(k as int) =~= tail@);
            assert(words(rest@, ascii) =~= seq![head@] + words(tail@, ascii));
            lemma_breaks_twice(tail@, ascii);
            lemma_after_breaks(tail@, ascii);
            assert(before.push(head@) + words(next@, ascii) =~= before + (seq![head@] + words(
                next@,
                ascii,
            )));
        }
        rest = next;
    }
    assert(views(out@) =~= words(s@, ascii));
    out
}

proof fn lemma_breaks_twice(s: Seq<char>, ascii: bool)
    ensures
        after_breaks(after_breaks(s, ascii), ascii) == after_breaks(s, ascii),
        words(after_breaks(s, ascii), ascii) == words(s, ascii),
    decreases s.len(),
{
    if s.len() > 0 && is_break(s[0], ascii) {
        lemma_breaks_twice(s.skip(1), ascii);
    }
}

/// The pieces of `s` between white space.
pub fn split_whitespace<'a>(s: &'a str) -> (r: Vec<&'a str>)
    ensures
        views(r@) == words(s@, false),
{
    split_words(s, false)
}

/// The pieces of `s` between ASCII white space.
pub fn split_ascii_whitespace<'a>(s: &'a str) -> (r: Vec<&'a str>)
    ensures
        views(r@) == words(s@, true),
{
    split_words(s, true)
}

/// A line without the carriage return at its end.
pub open spec fn line_text(s: Seq<char>) -> Seq<char> {
    if s.len() > 0 && s.last() == '\r' {
        s.drop_last()
    } else {
        s
    }
}

/// The lines of `s`: the pieces that line feeds end, each without a carriage
/// return at its end, and what stands behind the last line feed, as it is. If
/// nothing does, a last line feed starts no further line.
pub open spec fn lines_of(s: Seq<char>) -> Seq<Seq<char>> {
    let all = pieces(s, seq!['\n']);
    let ended = all.drop_last().map_values(|l: Seq<char>| line_text(l));
    if all.last().len() == 0 {
        ended
    } else {
        ended.push(all.last())
    }
}

/// The lines of `s`.
pub fn lines<'a>(s: &'a str) -> (r: Vec<&'a str>)
    ensures
        views(r@) == lines_of(s@),
{
    proof {
        reveal_strlit("\n");
    }
    assert("\n"@ =~= seq!['\n']);
    let all = split(s, "\n");
    let n: usize = all.len() - 1;
    let ghost found = pieces(s@, seq!['\n']);
    assert(found == views(all@));
    let mut out: Vec<&'a str> = Vec::new();
    let mut i: usize = 0;
    while i < n
        invariant
            i <= n,
            n < all@.len(),
            found == views(all@),
            out@.len() == i,
            forall|j: int| 0 <= j < i ==> (#[trigger] out@[j])@ == line_text(found[j]),
        decreases n - i,
    {
        let line = all[i];
        let len: usize = line.unicode_len();
        assert(found[i as int] == line@);
        if len > 0 && line.get_char(len - 1) == '\r' {
            out.push(line.substring_char(0, len - 1));
            assert(line@.drop_last() =~= line@.subrange(0, len - 1));
        } else {
            out.push(line);
        }
        i += 1;
    }
    let last = all[n];
    assert(found.last() == last@);
    assert(views(out@) =~= found.drop_last().map_values(|l: Seq<char>| line_text(l)));
    if !last.is_empty() {
        let ghost ended = out@;
        out.push(last);
        assert(views(out@) =~= views(ended).push(last@));
    }
    out
}

// ---------------------------------------------------------------------------
// Letters

/// The ASCII lower case of a character.
pub open spec fn lower_char(c: char) -> char {
    if 'A' <= c <= 'Z' {
        ((c as u32) + 32) as char
    } else {
        c
    }
}

/// The ASCII lower case of a string.
pub open spec fn lower(s: Seq<char>) -> Seq<char> {
    s.map_values(|c: char| lower_char(c))
}

/// The ASCII lower case of a character.
fn to_lower(c: char) -> (r: char)
    ensures
        r == lower_char(c),
{
    if 'A' <= c && c <= 'Z' {
        let code: u8 = c as u8;
        let low: u8 = code + 32;
        low as char
    } else {
        c
    }
}

/// The ASCII lower case of a string.
pub fn to_ascii_lowercase(s: &str) -> (r: String)
    ensures
        r@ == lower(s@),
{
    let mut out = String::new();
    let n: usize = s.unicode_len();
    let mut i: usize = 0;
    while i < n
        invariant
            i <= n,
            n == s@.len(),
            out@ == lower(s@).take(i as int),
        decreases n - i,
    {
        out.push(to_lower(s.get_char(i)));
        assert(out@ =~= lower(s@).take(i + 1));
        i += 1;
    }
    assert(lower(s@).take(n as int) =~= lower(s@));
    out
}

/// `s` with each `a` replaced by `b`.
pub open spec fn swapped(s: Seq<char>, a: char, b: char) -> Seq<char> {
    s.map_values(|c: char| if c == a { b } else { c })
}

/// `s` with each `a` replaced by `b`.
pub fn replace_char(s: &str, a: char, b: char) -> (r: String)
    ensures
        r@ == swapped(s@, a, b),
{
    let mut out = String::new();
    let n: usize = s.unicode_len();
    let mut i: usize = 0;
    while i < n
        invariant
            i <= n,
            n == s@.len(),
            out@ == swapped(s@, a, b).take(i as int),
        decreases n - i,
    {
        let c = s.get_char(i);
        out.push(if c == a { b } else { c });
        assert(out@ =~= swapped(s@, a, b).take(i + 1));
        i += 1;
    }
    assert(swapped(s@, a, b).take(n as int) =~= swapped(s@, a, b));
    out
}

// ---------------------------------------------------------------------------
// Numbers

/// A text of `n` lower case hexadecimal digits.
pub open spec fn is_hex(s: Seq<char>, n: nat) -> bool {
    s.len() == n && forall|i: int|
        0 <= i < s.len() ==> '0' <= #[trigger] s[i] <= '9' || 'a' <= s[i] <= 'f'
}

/// An ASCII digit.
pub open spec fn is_digit(c: char) -> bool {
    '0' <= c <= '9'
}

/// The value of an ASCII digit; zero for any other character.
pub open spec fn digit_value(c: char) -> nat {
    if is_digit(c) {
        ((c as u32) - 48) as nat
    } else {
        0
    }
}

/// The number that a sequence of decimal digits stands for.
pub open spec fn digits_value(s: Seq<char>) -> nat
    decreases s.len(),
{
    if s.len() == 0 {
        0
    } else {
        digits_value(s.drop_last()) * 10 + digit_value(s.last())
    }
}

/// Every character is an ASCII digit.
pub open spec fn all_digits(s: Seq<char>) -> bool {
    forall|i: int| 0 <= i < s.len() ==> is_digit(#[trigger] s[i])
}

/// The digits of an unsigned number: what follows a leading `+`, if there is one.
pub open spec fn unsigned_digits(s: Seq<char>) -> Seq<char> {
    if s.len() > 0 && s[0] == '+' {
        s.skip(1)
    } else {
        s
    }
}

/// The 64-bit number written in `s`: decimal digits after an optional `+`.
pub open spec fn u64_of(s: Seq<char>) -> Option<u64> {
    let d = unsigned_digits(s);
    if d.len() > 0 && all_digits(d) && digits_value(d) <= u64::MAX {
        Some(digits_value(d) as u64)
    } else {
        None
    }
}

proof fn lemma_digits_grow(s: Seq<char>, i: int)
    requires
        0 <= i <= s.len(),
    ensures
        digits_value(s.take(i)) <= digits_value(s),
    decreases s.len() - i,
{
    if i == s.len() {
        assert(s.take(i) =~= s);
    } else {
        lemma_digits_grow(s, i + 1);
        assert(s.take(i + 1).drop_last() =~= s.take(i));
    }
}

/// The 64-bit number written in `s`.
pub fn parse_u64(s: &str) -> (r: Option<u64>)
    ensures
        r == u64_of(s@),
{
    let n: usize = s.unicode_len();
    let mut start: usize = 0;
    if n > 0 && s.get_char(0) == '+' {
        start = 1;
    }
    let ghost d = unsigned_digits(s@);
    assert(d =~= s@.skip(start as int));
    if start == n {
        return None;
    }
    let mut acc: u64 = 0;
    let mut i: usize = start;
    assert(d.take(0).len() == 0);
    while i < n
        invariant
            start <= i <= n,
            n == s@.len(),
            d == s@.skip(start as int),
            d == unsigned_digits(s@),
            acc == digits_value(d.take(i - start)),
            forall|j: int| 0 <= j < i - start ==> is_digit(#[trigger] d[j]),
        decreases n - i,
    {
        let c = s.get_char(i);
        assert(d[i - start] == c);
        if !('0' <= c && c <= '9') {
            assert(!is_digit(d[i - start]));
            return None;
        }
        let v: u64 = (c as u64) - 48;
        proof {
            assert(d.take(i - start + 1).drop_last() =~= d.take(i - start));
            assert(d.take(i - start + 1).last() == c);
            lemma_digits_grow(d, i - start + 1);
            assert(digits_value(d.take(i - start + 1)) == acc * 10 + v);
        }
        if acc > (u64::MAX - v) / 10 {
            return None;
        }
        acc = acc * 10 + v;
        i += 1;
    }
    assert(d.take(n - start) =~= d);
    Some(acc)
}

/// The digit that stands for a number below ten.
pub open spec fn digit_of(n: nat) -> char {
    ((n % 10) as u32 + 48) as char
}

/// The decimal digits of a number, without leading zeros.
pub open spec fn decimal(n: nat) -> Seq<char>
    decreases n,
{
    if n < 10 {
        seq![digit_of(n)]
    } else {
        decimal(n / 10).push(digit_of(n))
    }
}

/// The decimal digits of a number.
pub fn u64_text(n: u64) -> (r: String)
    ensures
        r@ == decimal(n as nat),
    decreases n,
{
    let d: u8 = (n % 10) as u8 + 48;
    let mut out = if n < 10 {
        String::new()
    } else {
        u64_text(n / 10)
    };
    out.push(d as char);
    assert(out@ =~= decimal(n as nat));
    out
}

/// The decimal digits of a number.
pub fn u128_text(n: u128) -> (r: String)
    ensures
        r@ == decimal(n as nat),
    decreases n,
{
    let d: u8 = (n % 10) as u8 + 48;
    let mut out = if n < 10 {
        String::new()
    } else {
        u128_text(n / 10)
    };
    out.push(d as char);
    assert(out@ =~= decimal(n as nat));
    out
}

/// The decimal digits of a number.
pub fn usize_text(n: usize) -> (r: String)
    ensures
        r@ == decimal(n as nat),
{
    u64_text(n as u64)
}

/// A decimal text reads back as the number that it was made from.
pub proof fn law_decimal_reads_back(n: u64)
    ensures
        u64_of(decimal(n as nat)) == Some(n),
{
    lemma_decimal(n as nat);
    let d = decimal(n as nat);
    assert(is_digit(d[0]));
    assert(unsigned_digits(d) == d);
}

/// What the decimal text of a number holds.
pub proof fn lemma_decimal(n: nat)
    ensures
        decimal(n).len() > 0,
        all_digits(decimal(n)),
        digits_value(decimal(n)) == n,
    decreases n,
{
    let c = digit_of(n);
    assert(is_digit(c) && digit_value(c) == n % 10);
    if n < 10 {
        assert(decimal(n).drop_last().len() == 0);
        assert(digits_value(decimal(n).drop_last()) == 0);
        assert(decimal(n).last() == c);
    } else {
        lemma_decimal(n / 10);
        assert(decimal(n).drop_last() =~= decimal(n / 10));
        assert(decimal(n).last() == c);
    }
}

// ---------------------------------------------------------------------------
// Order

/// Lexicographic order on sequences of integers.
pub open spec fn seq_lt(a: Seq<int>, b: Seq<int>) -> bool
    decreases a.len(),
{
    if b.len() == 0 {
        false
    } else if a.len() == 0 {
        true
    } else if a[0] != b[0] {
        a[0] < b[0]
    } else {
        seq_lt(a.skip(1), b.skip(1))
    }
}

/// Nothing lies below itself.
pub proof fn lemma_seq_lt_irreflexive(a: Seq<int>)
    ensures
        !seq_lt(a, a),
    decreases a.len(),
{
    if a.len() > 0 {
        lemma_seq_lt_irreflexive(a.skip(1));
    }
}

/// Of two different sequences one lies below the other.
pub proof fn lemma_seq_lt_total(a: Seq<int>, b: Seq<int>)
    ensures
        a == b || seq_lt(a, b) || seq_lt(b, a),
        !(seq_lt(a, b) && seq_lt(b, a)),
        a == b ==> !seq_lt(a, b),
    decreases a.len(),
{
    if a.len() == 0 || b.len() == 0 {
        if a.len() == 0 && b.len() == 0 {
            assert(a =~= b);
        }
    } else if a[0] == b[0] {
        lemma_seq_lt_total(a.skip(1), b.skip(1));
        if a.skip(1) == b.skip(1) {
            assert(a =~= seq![a[0]] + a.skip(1));
            assert(b =~= seq![b[0]] + b.skip(1));
        }
    }
}

/// The order is transitive.
pub proof fn lemma_seq_lt_transitive(a: Seq<int>, b: Seq<int>, c: Seq<int>)
    requires
        seq_lt(a, b),
        seq_lt(b, c),
    ensures
        seq_lt(a, c),
    decreases a.len(),
{
    if a.len() > 0 && a[0] == b[0] && b[0] == c[0] {
        lemma_seq_lt_transitive(a.skip(1), b.skip(1), c.skip(1));
    }
}

/// The code points of a string.
pub open spec fn codes(s: Seq<char>) -> Seq<int> {
    s.map_values(|c: char| c as int)
}

/// The order of strings by code points, which is also that of their bytes.
pub open spec fn text_lt(a: Seq<char>, b: Seq<char>) -> bool {
    seq_lt(codes(a), codes(b))
}

pub proof fn lemma_codes_injective(a: Seq<char>, b: Seq<char>)
    requires
        codes(a) == codes(b),
    ensures
        a == b,
{
    assert(codes(a).len() == a.len());
    assert(codes(b).len() == b.len());
    assert forall|i: int| 0 <= i < a.len() implies a[i] == b[i] by {
        assert(codes(a)[i] == a[i] as int);
        assert(codes(b)[i] == b[i] as int);
    }
    assert(a =~= b);
}

/// Of two different strings one lies below the other.
pub proof fn lemma_text_lt_total(a: Seq<char>, b: Seq<char>)
    ensures
        a == b || text_lt(a, b) || text_lt(b, a),
        !(text_lt(a, b) && text_lt(b, a)),
        a == b ==> !text_lt(a, b),
{
    lemma_seq_lt_total(codes(a), codes(b));
    if codes(a) == codes(b) {
        lemma_codes_injective(a, b);
    }
}

/// The order of strings is transitive.
pub proof fn lemma_text_lt_transitive(a: Seq<char>, b: Seq<char>, c: Seq<char>)
    requires
        text_lt(a, b),
        text_lt(b, c),
    ensures
        text_lt(a, c),
{
    lemma_seq_lt_transitive(codes(a), codes(b), codes(c));
}

/// Whether `a` lies below `b`.
pub fn below(a: &str, b: &str) -> (r: bool)
    ensures
        r == text_lt(a@, b@),
{
    let n: usize = a.unicode_len();
    let m: usize = b.unicode_len();
    let mut i: usize = 0;
    assert(codes(a@).skip(0) =~= codes(a@));
    assert(codes(b@).skip(0) =~= codes(b@));
    while i < n && i < m
        invariant
            i <= n,
            i <= m,
            n == a@.len(),
            m == b@.len(),
            text_lt(a@, b@) == seq_lt(codes(a@).skip(i as int), codes(b@).skip(i as int)),
        decreases n - i,
    {
        let x = a.get_char(i);
        let y = b.get_char(i);
        assert(codes(a@).skip(i as int)[0] == x as int);
        assert(codes(b@).skip(i as int)[0] == y as int);
        if x != y {
            return x < y;
        }
        assert(codes(a@).skip(i as int).skip(1) =~= codes(a@).skip(i + 1));
        assert(codes(b@).skip(i as int).skip(1) =~= codes(b@).skip(i + 1));
        i += 1;
    }
    i < m
}

// ---------------------------------------------------------------------------
// Laws

/// Parts are joined in their order with the separator between them.
pub proof fn law_joined(v: Seq<Seq<char>>, x: Seq<char>, sep: Seq<char>)
    ensures
        joined(Seq::empty(), sep).len() == 0,
        joined(seq![x], sep) == x,
        v.len() > 0 ==> joined(v.push(x), sep) == joined(v, sep) + sep + x,
{
    assert(v.push(x).drop_last() =~= v);
    assert(v.push(x).last() == x);
}

/// A text is what its pieces are with the separator between them.
pub proof fn law_pieces_make_the_text(s: Seq<char>, p: Seq<char>)
    ensures
        joined(pieces(s, p), p) == s,
    decreases s.len(),
{
    lemma_find(s, p);
    match find(s, p) {
        Some(i) => {
            if p.len() > 0 && 0 <= i && i + p.len() <= s.len() {
                let rest = s.skip(i + p.len());
                law_pieces_make_the_text(rest, p);
                assert(pieces(rest, p).len() > 0);
                lemma_joined_front(s.take(i), pieces(rest, p), p);
                assert(s.subrange(i, i + p.len()) == p);
                assert(s.take(i) + s.subrange(i, i + p.len()) + rest =~= s);
            }
        },
        None => {},
    }
}

proof fn lemma_joined_front(a: Seq<char>, v: Seq<Seq<char>>, sep: Seq<char>)
    requires
        v.len() > 0,
    ensures
        joined(seq![a] + v, sep) == a + sep + joined(v, sep),
    decreases v.len(),
{
    let all = seq![a] + v;
    assert(all.last() == v.last());
    if v.len() == 1 {
        assert(all.drop_last() =~= seq![a]);
        assert(joined(seq![a], sep) == seq![a][0]);
        assert(v.last() == v[0]);
    } else {
        let front = v.drop_last();
        assert(all.drop_last() =~= seq![a] + front);
        lemma_joined_front(a, front, sep);
        assert(a + sep + joined(front, sep) + sep + v.last() =~= a + sep + (joined(front, sep) + sep
            + v.last()));
    }
}

/// Lower case changes the letters from `A` to `Z` and nothing else.
pub proof fn law_lower(s: Seq<char>, i: int)
    requires
        0 <= i < s.len(),
    ensures
        lower(s).len() == s.len(),
        'A' <= s[i] <= 'Z' ==> lower(s)[i] as int == s[i] as int + ('a' as int - 'A' as int),
        !('A' <= s[i] <= 'Z') ==> lower(s)[i] == s[i],
{
}

/// A prefix that is put in front can be taken away again, as can a suffix.
pub proof fn law_prefixes(s: Seq<char>, p: Seq<char>)
    ensures
        without_prefix(p + s, p) == Some(s),
        without_suffix(s + p, p) == Some(s),
        without_prefix(s, p) matches Some(t) ==> s == p + t,
        without_suffix(s, p) matches Some(t) ==> s == t + p,
{
    assert((p + s).take(p.len() as int) =~= p);
    assert((p + s).skip(p.len() as int) =~= s);
    assert((s + p).skip((s + p).len() - p.len()) =~= p);
    assert((s + p).take((s + p).len() - p.len()) =~= s);
    if starts(s, p) {
        assert(s =~= s.take(p.len() as int) + s.skip(p.len() as int));
    }
    if ends(s, p) {
        assert(s =~= s.take(s.len() - p.len()) + s.skip(s.len() - p.len()));
    }
}

/// What stands once in a text is replaced there.
pub proof fn lemma_replaced_once(a: Seq<char>, p: Seq<char>, b: Seq<char>, t: Seq<char>)
    requires
        p.len() > 0,
        !a.contains(p[0]),
        !b.contains(p[0]),
    ensures
        replaced(a + p + b, p, t) == a + t + b,
{
    lemma_two_pieces(a, p, b);
    lemma_two_joined(a, b, t);
}

proof fn lemma_two_joined(a: Seq<char>, b: Seq<char>, t: Seq<char>)
    ensures
        joined(seq![a, b], t) == a + t + b,
{
    law_joined(seq![a], b, t);
    assert(seq![a].push(b) =~= seq![a, b]);
    law_joined(seq![a], a, t);
}

/// A text without the first character of `p` stays as it is.
pub proof fn lemma_nothing_replaced(s: Seq<char>, p: Seq<char>, t: Seq<char>)
    requires
        p.len() > 0,
        !s.contains(p[0]),
    ensures
        replaced(s, p, t) == s,
{
    lemma_not_found(s, p);
    law_joined(seq![s], s, t);
}

} // verus!
