//! Laws on versions and constraints as they are written down in numbers.

use crate::constraint;
use crate::text;
use crate::version;
use crate::version::Stability;
use crate::version::VersionView;
use vstd::prelude::*;

verus! {

// ---------------------------------------------------------------------------
// Texts of numbers

/// A text of digits and dots that begins and ends with a digit.
pub open spec fn is_numeric(s: Seq<char>) -> bool {
    &&& s.len() > 0
    &&& text::is_digit(s[0])
    &&& text::is_digit(s.last())
    &&& forall|i: int| 0 <= i < s.len() ==> text::is_digit(#[trigger] s[i]) || s[i] == '.'
}

proof fn lemma_digits(n: nat)
    ensures
        is_numeric(text::decimal(n)),
        !text::decimal(n).contains('.'),
        version::leading_digits(text::decimal(n)) == text::decimal(n),
        n <= u64::MAX ==> text::u64_of(text::decimal(n)) == Some(n as u64),
{
    text::lemma_decimal(n);
    let d = text::decimal(n);
    assert(text::is_digit(d[0]) && text::is_digit(d[d.len() - 1]));
    lemma_all_leading(d);
    if n <= u64::MAX {
        text::law_decimal_reads_back(n as u64);
    }
}

proof fn lemma_all_leading(d: Seq<char>)
    requires
        text::all_digits(d),
    ensures
        version::leading_digits(d) == d,
    decreases d.len(),
{
    if d.len() > 0 {
        assert forall|i: int| 0 <= i < d.skip(1).len() implies text::is_digit(
            #[trigger] d.skip(1)[i],
        ) by {
            assert(d.skip(1)[i] == d[i + 1]);
        }
        lemma_all_leading(d.skip(1));
        assert(seq![d[0]] + d.skip(1) =~= d);
    } else {
        assert(version::leading_digits(d) =~= d);
    }
}

proof fn lemma_joined_numeric(a: Seq<char>, b: Seq<char>)
    requires
        is_numeric(a),
        is_numeric(b),
    ensures
        is_numeric(a + "."@ + b),
{
    reveal_strlit(".");
    let s = a + "."@ + b;
    assert(s[0] == a[0]);
    assert(s.last() == b.last());
    assert forall|i: int| 0 <= i < s.len() implies text::is_digit(#[trigger] s[i]) || s[i] == '.' by {
        if i < a.len() {
            assert(s[i] == a[i]);
        } else if i > a.len() {
            assert(s[i] == b[i - a.len() - 1]);
        }
    }
}

/// A text of digits and dots holds no other character.
proof fn lemma_no_letter(s: Seq<char>, c: char)
    requires
        is_numeric(s),
        !text::is_digit(c),
        c != '.',
    ensures
        !s.contains(c),
{
    if s.contains(c) {
        let i = choose|i: int| 0 <= i < s.len() && s[i] == c;
        assert(text::is_digit(s[i]) || s[i] == '.');
    }
}

proof fn lemma_no_marker(s: Seq<char>, m: Seq<char>)
    requires
        is_numeric(s),
        m.len() > 0,
        !text::is_digit(m[0]),
        m[0] != '.',
    ensures
        version::marker_at(s, m) is None,
        text::parted(s, m) is None,
        !text::occurs(s, m),
{
    lemma_no_letter(s, m[0]);
    text::lemma_not_found(s, m);
}

proof fn lemma_numeric_bare(s: Seq<char>)
    requires
        is_numeric(s),
    ensures
        text::trimmed(s) == s,
        text::without_front(s, 'v') == s,
        version::without_v(s) == s,
        !version::is_branch(s),
        version::prerelease_of(s) == (s, None::<Seq<char>>),
{
    reveal_strlit("dev-");
    reveal_strlit("-dev");
    reveal_strlit("v");
    reveal_strlit("-");
    reveal_strlit("RC");
    reveal_strlit("rc");
    reveal_strlit("alpha");
    reveal_strlit("ALPHA");
    reveal_strlit("beta");
    reveal_strlit("BETA");
    reveal_strlit("a");
    reveal_strlit("b");
    text::lemma_trimmed_same(s);
    if text::starts(s, "dev-"@) {
        assert(s.take(4)[0] == 'd');
    }
    if text::ends(s, "-dev"@) {
        assert(s.skip(s.len() - 4)[3] == 'v');
        assert(s[s.len() - 1] == 'v');
    }
    if text::starts(s, "v"@) {
        assert(s.take(1)[0] == 'v');
    }
    lemma_no_marker(s, "-"@);
    lemma_no_marker(s, "RC"@);
    lemma_no_marker(s, "rc"@);
    lemma_no_marker(s, "alpha"@);
    lemma_no_marker(s, "ALPHA"@);
    lemma_no_marker(s, "beta"@);
    lemma_no_marker(s, "BETA"@);
    lemma_no_marker(s, "a"@);
    lemma_no_marker(s, "b"@);
}

proof fn lemma_numbers(a: u64, b: u64, c: u64, more: Seq<char>)
    requires
        is_numeric(more),
    ensures
        ({
            let one = text::decimal(a as nat);
            let two = one + "."@ + text::decimal(b as nat);
            let three = two + "."@ + text::decimal(c as nat);
            let four = three + "."@ + more;
            &&& is_numeric(one) && version::numeric_parts_of(one) == Some((a, 0u64, 0u64))
            &&& is_numeric(two) && version::numeric_parts_of(two) == Some((a, b, 0u64))
            &&& is_numeric(three) && version::numeric_parts_of(three) == Some((a, b, c))
            &&& is_numeric(four) && version::numeric_parts_of(four) == Some((a, b, c))
        }),
{
    let (x, y, z) = (text::decimal(a as nat), text::decimal(b as nat), text::decimal(c as nat));
    lemma_digits(a as nat);
    lemma_digits(b as nat);
    lemma_digits(c as nat);
    lemma_joined_numeric(x, y);
    lemma_joined_numeric(x + "."@ + y, z);
    lemma_joined_numeric(x + "."@ + y + "."@ + z, more);
    lemma_number_pieces(x, y, z, more);
    lemma_parts_by_pieces(x, seq![x], a, b, c);
    lemma_parts_by_pieces(x + "."@ + y, seq![x, y], a, b, c);
    lemma_parts_by_pieces(x + "."@ + y + "."@ + z, seq![x, y, z], a, b, c);
    lemma_parts_by_pieces(
        x + "."@ + y + "."@ + z + "."@ + more,
        seq![x, y, z] + text::pieces(more, "."@),
        a,
        b,
        c,
    );
}

proof fn lemma_parts_by_pieces(s: Seq<char>, p: Seq<Seq<char>>, a: u64, b: u64, c: u64)
    requires
        text::pieces(s, "."@) == p,
        p.len() > 0,
        p[0] == text::decimal(a as nat),
        p.len() > 1 ==> p[1] == text::decimal(b as nat),
        p.len() > 2 ==> p[2] == text::decimal(c as nat),
    ensures
        version::numeric_parts_of(s) == Some(
            (
                a,
                if p.len() > 1 {
                    b
                } else {
                    0
                },
                if p.len() > 2 {
                    c
                } else {
                    0
                },
            ),
        ),
{
    lemma_digits(a as nat);
    lemma_digits(b as nat);
    lemma_digits(c as nat);
}

proof fn lemma_number_pieces(x: Seq<char>, y: Seq<char>, z: Seq<char>, more: Seq<char>)
    requires
        !x.contains('.'),
        !y.contains('.'),
        !z.contains('.'),
    ensures
        text::pieces(x, "."@) == seq![x],
        text::pieces(x + "."@ + y, "."@) == seq![x, y],
        text::pieces(x + "."@ + y + "."@ + z, "."@) == seq![x, y, z],
        text::pieces(x + "."@ + y + "."@ + z + "."@ + more, "."@) == seq![x, y, z] + text::pieces(
            more,
            "."@,
        ),
{
    reveal_strlit(".");
    lemma_two_numbers(x, y);
    text::lemma_not_found(x, "."@);
    lemma_three_numbers(x, y, z);
    lemma_with_more(x, y, z, more);
}

proof fn lemma_two_numbers(x: Seq<char>, y: Seq<char>)
    requires
        !x.contains('.'),
        !y.contains('.'),
    ensures
        text::pieces(x + "."@ + y, "."@) == seq![x, y],
{
    reveal_strlit(".");
    text::lemma_not_found(y, "."@);
    text::lemma_piece_before(x, "."@, y);
    assert(seq![x] + seq![y] =~= seq![x, y]);
}

proof fn lemma_with_more(x: Seq<char>, y: Seq<char>, z: Seq<char>, more: Seq<char>)
    requires
        !x.contains('.'),
        !y.contains('.'),
        !z.contains('.'),
    ensures
        text::pieces(x + "."@ + y + "."@ + z + "."@ + more, "."@) == seq![x, y, z] + text::pieces(
            more,
            "."@,
        ),
{
    reveal_strlit(".");
    let tail = z + "."@ + more;
    assert(x + "."@ + y + "."@ + z + "."@ + more =~= x + "."@ + (y + "."@ + tail));
    text::lemma_piece_before(x, "."@, y + "."@ + tail);
    text::lemma_piece_before(y, "."@, tail);
    text::lemma_piece_before(z, "."@, more);
    let rest = text::pieces(more, "."@);
    assert(seq![x] + (seq![y] + (seq![z] + rest)) =~= seq![x, y, z] + rest);
}

/// Three numbers with dots between them are a text of digits and dots.
pub proof fn lemma_release_text(a: u64, b: u64, c: u64)
    ensures
        is_numeric(
            text::decimal(a as nat) + "."@ + text::decimal(b as nat) + "."@ + text::decimal(
                c as nat,
            ),
        ),
{
    lemma_digits(0);
    lemma_numbers(a, b, c, text::decimal(0));
}

/// What texts of numbers hold between their dots.
pub proof fn lemma_number_parts(a: u64, b: u64, c: u64)
    ensures
        ({
            let (x, y, z) = (
                text::decimal(a as nat),
                text::decimal(b as nat),
                text::decimal(c as nat),
            );
            &&& text::u64_of(x) == Some(a)
            &&& text::u64_of(y) == Some(b)
            &&& text::u64_of(z) == Some(c)
            &&& is_numeric(x + "."@ + y)
            &&& text::pieces(x + "."@ + y + "."@ + z, "."@) == seq![x, y, z]
        }),
{
    let (x, y, z) = (text::decimal(a as nat), text::decimal(b as nat), text::decimal(c as nat));
    lemma_digits(a as nat);
    lemma_digits(b as nat);
    lemma_digits(c as nat);
    assert(is_numeric(x + "."@ + y)) by {
        lemma_digits(0);
        lemma_numbers(a, b, c, text::decimal(0));
    }
    lemma_three_numbers(x, y, z);
}

proof fn lemma_three_numbers(x: Seq<char>, y: Seq<char>, z: Seq<char>)
    requires
        !x.contains('.'),
        !y.contains('.'),
        !z.contains('.'),
    ensures
        text::pieces(x + "."@ + y + "."@ + z, "."@) == seq![x, y, z],
{
    reveal_strlit(".");
    lemma_two_numbers(y, z);
    assert(x + "."@ + y + "."@ + z =~= x + "."@ + (y + "."@ + z));
    text::lemma_piece_before(x, "."@, y + "."@ + z);
    assert(seq![x] + seq![y, z] =~= seq![x, y, z]);
}

// ---------------------------------------------------------------------------
// Reading versions

/// A version with the given numbers and no label.
pub open spec fn is_release(v: VersionView, a: u64, b: u64, c: u64) -> bool {
    v.parts == (a, b, c) && v.stability == Stability::Stable && v.pre is None
}

/// Three numbers with dots between them are the release with these numbers. What
/// a release shows reads back as the release. A leading `v` and white space
/// around change nothing but the text, numbers that are missing are zero, and
/// numbers behind the third one do not count.
pub proof fn law_numbers_are_read(a: u64, b: u64, c: u64, more: Seq<char>)
    requires
        is_numeric(more),
    ensures
        ({
            let one = text::decimal(a as nat);
            let two = one + "."@ + text::decimal(b as nat);
            let three = two + "."@ + text::decimal(c as nat);
            let four = three + "."@ + more;
            &&& version::parsed(one) matches Some(v) && is_release(v, a, 0, 0) && v.raw == one
            &&& version::parsed(two) matches Some(v) && is_release(v, a, b, 0) && v.raw == two
            &&& version::parsed(three) matches Some(v) && is_release(v, a, b, c) && v.raw == three
                && v.normalized == three
            &&& version::parsed(four) matches Some(v) && is_release(v, a, b, c) && v.raw == four
            &&& version::parsed("v"@ + three) matches Some(v) && is_release(v, a, b, c) && v.raw
                == "v"@ + three && v.normalized == three
            &&& version::parsed(" "@ + three + " "@) == version::parsed(three)
            &&& version::release_view(a, b, c).raw == three
            &&& version::parsed(version::release_view(a, b, c).raw) == Some(
                version::release_view(a, b, c),
            )
        }),
{
    let one = text::decimal(a as nat);
    let two = one + "."@ + text::decimal(b as nat);
    let three = two + "."@ + text::decimal(c as nat);
    let four = three + "."@ + more;
    lemma_numbers(a, b, c, more);
    lemma_plain(one, (a, 0, 0));
    lemma_plain(two, (a, b, 0));
    lemma_plain(three, (a, b, c));
    lemma_plain(four, (a, b, c));
    lemma_dressed(three, (a, b, c));
}

proof fn lemma_plain(s: Seq<char>, p: (u64, u64, u64))
    requires
        is_numeric(s),
        version::numeric_parts_of(s) == Some(p),
    ensures
        version::parsed(s) == Some(
            VersionView {
                raw: s,
                normalized: s,
                stability: Stability::Stable,
                parts: p,
                pre: None,
            },
        ),
{
    lemma_numeric_bare(s);
}

proof fn lemma_dressed(s: Seq<char>, p: (u64, u64, u64))
    requires
        is_numeric(s),
        version::numeric_parts_of(s) == Some(p),
    ensures
        version::parsed("v"@ + s) == Some(
            VersionView {
                raw: "v"@ + s,
                normalized: s,
                stability: Stability::Stable,
                parts: p,
                pre: None,
            },
        ),
        version::parsed(" "@ + s + " "@) == version::parsed(s),
{
    lemma_numeric_bare(s);
    reveal_strlit("v");
    reveal_strlit(" ");
    reveal_strlit("dev-");
    reveal_strlit("-dev");
    let w = "v"@ + s;
    assert(w.last() == s.last());
    text::lemma_trimmed_same(w);
    if text::starts(w, "dev-"@) {
        assert(w.take(4)[0] == 'd');
    }
    if text::ends(w, "-dev"@) {
        assert(w.skip(w.len() - 4)[3] == 'v');
        assert(w[w.len() - 1] == 'v');
    }
    assert(w.take(1) =~= "v"@);
    assert(w.skip(1) =~= s);
    let t = " "@ + s + " "@;
    assert(t.skip(1) =~= s + " "@);
    assert(text::trimmed_front(s + " "@) == s + " "@);
    assert(text::trimmed_front(t) == s + " "@);
    assert((s + " "@).drop_last() =~= s);
    assert(text::trimmed_back(s + " "@) == text::trimmed_back(s));
    assert(text::trimmed(t) == s);
}

/// A label behind a hyphen makes a pre-release with the same numbers, as stable
/// as the label says.
pub proof fn law_label_behind_hyphen(num: Seq<char>, label: Seq<char>)
    requires
        is_numeric(num),
        label.len() > 0,
        !text::is_space(label.last()),
        !text::ends("-"@ + label, "-dev"@),
    ensures
        version::parsed(num + "-"@ + label) is Some == (version::parsed(num) is Some),
        version::parsed(num) matches Some(r) ==> version::parsed(num + "-"@ + label) == Some(
            VersionView {
                raw: num + "-"@ + label,
                normalized: num + "-"@ + label,
                stability: version::stability_of(label),
                parts: r.parts,
                pre: Some(label),
            },
        ),
{
    reveal_strlit("-");
    reveal_strlit("v");
    reveal_strlit("dev-");
    reveal_strlit("-dev");
    let s = num + "-"@ + label;
    assert(s[0] == num[0]);
    assert(s.last() == label.last());
    text::lemma_trimmed_same(s);
    lemma_numeric_bare(num);
    lemma_no_letter(num, '-');
    text::lemma_piece_before(num, "-"@, label);
    if text::starts(s, "dev-"@) {
        assert(s.take(4)[0] == 'd');
    }
    if text::starts(s, "v"@) {
        assert(s.take(1)[0] == 'v');
    }
    if text::ends(s, "-dev"@) {
        let t = "-"@ + label;
        assert(s =~= num + t);
        if t.len() >= 4 {
            assert(s.skip(s.len() - 4) =~= t.skip(t.len() - 4));
        } else {
            assert(s.skip(s.len() - 4)[4 - t.len()] == '-');
            assert("-dev"@[4 - t.len()] == '-');
        }
    }
}

/// The markers that begin a label without a hyphen.
pub open spec fn is_marker(m: Seq<char>) -> bool {
    ||| m == "RC"@
    ||| m == "rc"@
    ||| m == "alpha"@
    ||| m == "ALPHA"@
    ||| m == "beta"@
    ||| m == "BETA"@
    ||| m == "a"@
    ||| m == "b"@
}

/// Wherever the first character of `other` stands in `m`, its second one does
/// not follow.
spec fn apart(m: Seq<char>, other: Seq<char>) -> bool {
    &&& other.len() > 0
    &&& !text::is_digit(other[0])
    &&& other[0] != '.'
    &&& forall|i: int|
        0 <= i < m.len() && #[trigger] m[i] == other[0] ==> other.len() > 1 && (i + 1 < m.len()
            ==> m[i + 1] != other[1]) && (i + 1 == m.len() ==> !text::is_digit(other[1]))
}

proof fn lemma_other_marker(num: Seq<char>, m: Seq<char>, t: Seq<char>, other: Seq<char>)
    requires
        is_numeric(num),
        text::all_digits(t),
        apart(m, other),
    ensures
        version::marker_at(num + m + t, other) is None,
{
    let s = num + m + t;
    let n = num.len() as int;
    if text::occurs(s, other) {
        let i = choose|i: int| text::occurs_at(s, other, i);
        let w = s.subrange(i, i + other.len());
        assert(w[0] == other[0]);
        assert(s[i] == other[0]);
        if i < n {
            assert(num[i] == other[0]);
        } else if i < n + m.len() {
            assert(m[i - n] == other[0]);
            assert(w[1] == other[1]);
            assert(s[i + 1] == other[1]);
            if i + 1 < n + m.len() {
                assert(m[i - n + 1] == other[1]);
            } else {
                assert(t[i + 1 - n - m.len()] == other[1]);
            }
        } else {
            assert(t[i - n - m.len()] == other[0]);
        }
    }
}

proof fn lemma_own_marker(num: Seq<char>, m: Seq<char>, t: Seq<char>)
    requires
        is_numeric(num),
        m.len() > 0,
        !text::is_digit(m[0]),
        m[0] != '.',
    ensures
        version::marker_at(num + m + t, m) == Some(num.len() as int),
        (num + m + t).take(num.len() as int) == num,
        (num + m + t).skip(num.len() as int) == m + t,
{
    lemma_no_letter(num, m[0]);
    text::lemma_first_found(num, m, t);
    let s = num + m + t;
    assert(s[num.len() - 1] == num.last());
    assert(s.take(num.len() as int) =~= num);
    assert(s.skip(num.len() as int) =~= m + t);
}

spec fn is_plain_marker(m: Seq<char>) -> bool {
    &&& m.len() > 0
    &&& forall|i: int| 0 <= i < m.len() ==> 'A' <= #[trigger] m[i] <= 'z' && m[i] != 'v'
}

proof fn lemma_upper_rc()
    ensures
        is_plain_marker("RC"@),
{
    reveal_strlit("RC");
}

proof fn lemma_lower_rc()
    ensures
        is_plain_marker("rc"@),
        apart("rc"@, "RC"@),
{
    reveal_strlit("RC");
    reveal_strlit("rc");
}

proof fn lemma_lower_alpha()
    ensures
        is_plain_marker("alpha"@),
        apart("alpha"@, "RC"@),
        apart("alpha"@, "rc"@),
{
    reveal_strlit("RC");
    reveal_strlit("rc");
    reveal_strlit("alpha");
}

proof fn lemma_upper_alpha()
    ensures
        is_plain_marker("ALPHA"@),
        apart("ALPHA"@, "RC"@),
        apart("ALPHA"@, "rc"@),
        apart("ALPHA"@, "alpha"@),
{
    reveal_strlit("RC");
    reveal_strlit("rc");
    reveal_strlit("alpha");
    reveal_strlit("ALPHA");
}

proof fn lemma_lower_beta()
    ensures
        is_plain_marker("beta"@),
        apart("beta"@, "RC"@),
        apart("beta"@, "rc"@),
        apart("beta"@, "alpha"@),
        apart("beta"@, "ALPHA"@),
{
    reveal_strlit("RC");
    reveal_strlit("rc");
    reveal_strlit("alpha");
    reveal_strlit("ALPHA");
    reveal_strlit("beta");
}

proof fn lemma_upper_beta()
    ensures
        is_plain_marker("BETA"@),
        apart("BETA"@, "RC"@),
        apart("BETA"@, "rc"@),
        apart("BETA"@, "alpha"@),
        apart("BETA"@, "ALPHA"@),
        apart("BETA"@, "beta"@),
{
    reveal_strlit("RC");
    reveal_strlit("rc");
    reveal_strlit("alpha");
    reveal_strlit("ALPHA");
    reveal_strlit("beta");
    reveal_strlit("BETA");
}

proof fn lemma_lone_a()
    ensures
        is_plain_marker("a"@),
        apart("a"@, "RC"@),
        apart("a"@, "rc"@),
        apart("a"@, "alpha"@),
        apart("a"@, "ALPHA"@),
        apart("a"@, "beta"@),
        apart("a"@, "BETA"@),
{
    reveal_strlit("RC");
    reveal_strlit("rc");
    reveal_strlit("alpha");
    reveal_strlit("ALPHA");
    reveal_strlit("beta");
    reveal_strlit("BETA");
    reveal_strlit("a");
}

proof fn lemma_lone_b()
    ensures
        is_plain_marker("b"@),
        apart("b"@, "RC"@),
        apart("b"@, "rc"@),
        apart("b"@, "alpha"@),
        apart("b"@, "ALPHA"@),
        apart("b"@, "beta"@),
        apart("b"@, "BETA"@),
        apart("b"@, "a"@),
{
    reveal_strlit("RC");
    reveal_strlit("rc");
    reveal_strlit("alpha");
    reveal_strlit("ALPHA");
    reveal_strlit("beta");
    reveal_strlit("BETA");
    reveal_strlit("a");
    reveal_strlit("b");
}

proof fn lemma_label_found(num: Seq<char>, m: Seq<char>, t: Seq<char>)
    requires
        is_numeric(num),
        is_marker(m),
        text::all_digits(t),
    ensures
        version::label_at(num + m + t) == Some(num.len() as int),
        (num + m + t).take(num.len() as int) == num,
        (num + m + t).skip(num.len() as int) == m + t,
        is_plain_marker(m),
{
    if m == "RC"@ {
        lemma_upper_rc();
        lemma_own_marker(num, m, t);
    } else if m == "rc"@ {
        lemma_lower_rc();
        lemma_own_marker(num, m, t);
        lemma_other_marker(num, m, t, "RC"@);
    } else if m == "alpha"@ {
        lemma_lower_alpha();
        lemma_own_marker(num, m, t);
        lemma_other_marker(num, m, t, "RC"@);
        lemma_other_marker(num, m, t, "rc"@);
    } else if m == "ALPHA"@ {
        lemma_upper_alpha();
        lemma_own_marker(num, m, t);
        lemma_other_marker(num, m, t, "RC"@);
        lemma_other_marker(num, m, t, "rc"@);
        lemma_other_marker(num, m, t, "alpha"@);
    } else if m == "beta"@ {
        lemma_lower_beta();
        lemma_own_marker(num, m, t);
        lemma_other_marker(num, m, t, "RC"@);
        lemma_other_marker(num, m, t, "rc"@);
        lemma_other_marker(num, m, t, "alpha"@);
        lemma_other_marker(num, m, t, "ALPHA"@);
    } else if m == "BETA"@ {
        lemma_upper_beta();
        lemma_own_marker(num, m, t);
        lemma_other_marker(num, m, t, "RC"@);
        lemma_other_marker(num, m, t, "rc"@);
        lemma_other_marker(num, m, t, "alpha"@);
        lemma_other_marker(num, m, t, "ALPHA"@);
        lemma_other_marker(num, m, t, "beta"@);
    } else if m == "a"@ {
        lemma_lone_a();
        lemma_own_marker(num, m, t);
        lemma_other_marker(num, m, t, "RC"@);
        lemma_other_marker(num, m, t, "rc"@);
        lemma_other_marker(num, m, t, "alpha"@);
        lemma_other_marker(num, m, t, "ALPHA"@);
        lemma_other_marker(num, m, t, "beta"@);
        lemma_other_marker(num, m, t, "BETA"@);
    } else if m == "b"@ {
        lemma_lone_b();
        lemma_own_marker(num, m, t);
        lemma_other_marker(num, m, t, "RC"@);
        lemma_other_marker(num, m, t, "rc"@);
        lemma_other_marker(num, m, t, "alpha"@);
        lemma_other_marker(num, m, t, "ALPHA"@);
        lemma_other_marker(num, m, t, "beta"@);
        lemma_other_marker(num, m, t, "BETA"@);
        lemma_other_marker(num, m, t, "a"@);
    }
}

/// A marker directly behind the numbers, with or without a number of its own,
/// makes a pre-release as well.
pub proof fn law_label_behind_digit(num: Seq<char>, m: Seq<char>, t: Seq<char>)
    requires
        is_numeric(num),
        is_marker(m),
        text::all_digits(t),
    ensures
        version::parsed(num) matches Some(r) ==> version::parsed(num + m + t) == Some(
            VersionView {
                raw: num + m + t,
                normalized: num + m + t,
                stability: version::stability_of(m + t),
                parts: r.parts,
                pre: Some(m + t),
            },
        ),
{
    reveal_strlit("-");
    reveal_strlit("v");
    reveal_strlit("dev-");
    reveal_strlit("-dev");
    let s = num + m + t;
    lemma_label_found(num, m, t);
    lemma_numeric_bare(num);
    assert(s[0] == num[0]);
    assert(t.len() > 0 ==> s.last() == t[t.len() - 1]);
    assert(t.len() == 0 ==> s.last() == m[m.len() - 1]);
    text::lemma_trimmed_same(s);
    assert(!s.contains('-')) by {
        assert forall|i: int| 0 <= i < s.len() implies s[i] != '-' by {
            if i < num.len() {
                assert(s[i] == num[i]);
            } else if i < num.len() + m.len() {
                assert(s[i] == m[i - num.len()]);
            } else {
                assert(s[i] == t[i - num.len() - m.len()]);
            }
        }
    }
    text::lemma_not_found(s, "-"@);
    if text::starts(s, "dev-"@) {
        assert(s.take(4)[0] == 'd');
    }
    if text::starts(s, "v"@) {
        assert(s.take(1)[0] == 'v');
    }
    if text::ends(s, "-dev"@) {
        assert(s.skip(s.len() - 4)[0] == '-');
        assert(s[s.len() - 4] == '-');
    }
}

/// Texts that begin with `dev-` or end with `-dev` are branches.
pub proof fn law_branches_are_read(x: Seq<char>)
    requires
        x.len() > 0,
        !text::is_space(x[0]),
        !text::is_space(x.last()),
    ensures
        version::parsed("dev-"@ + x) matches Some(v) && v.stability == Stability::Dev && v.raw
            == "dev-"@ + x && v.normalized == "dev-"@ + x,
        version::parsed(x + "-dev"@) matches Some(v) && v.stability == Stability::Dev && v.raw == x
            + "-dev"@,
{
    reveal_strlit("dev-");
    reveal_strlit("-dev");
    let s = "dev-"@ + x;
    assert(s.last() == x.last());
    text::lemma_trimmed_same(s);
    assert(s.take(4) =~= "dev-"@);
    let t = x + "-dev"@;
    assert(t[0] == x[0]);
    text::lemma_trimmed_same(t);
    assert(t.skip(t.len() - 4) =~= "-dev"@);
}

/// The stability that a label names, whatever the case of its letters and
/// whatever follows: `dev`, `alpha` or `a` with more, `beta` or `b` with more,
/// and `rc`. Labels that begin with another letter name a stable release.
pub proof fn law_labels_name_stabilities(t: Seq<char>)
    ensures
        version::stability_of("dev"@ + t) == Stability::Dev,
        version::stability_of("alpha"@ + t) == Stability::Alpha,
        version::stability_of("beta"@ + t) == Stability::Beta,
        version::stability_of("rc"@ + t) == Stability::Rc,
        version::stability_of("RC"@ + t) == Stability::Rc,
        t.len() > 0 ==> version::stability_of("a"@ + t) == Stability::Alpha,
        t.len() > 0 ==> version::stability_of("b"@ + t) == Stability::Beta,
        version::stability_of("a"@) == Stability::Stable,
        version::stability_of("b"@) == Stability::Stable,
        version::stability_of(text::lower(t)) == version::stability_of(t),
        t.len() == 0 || (text::lower(t)[0] != 'd' && text::lower(t)[0] != 'a' && text::lower(t)[0]
            != 'b' && text::lower(t)[0] != 'r') ==> version::stability_of(t) == Stability::Stable,
{
    reveal_strlit("dev");
    reveal_strlit("alpha");
    reveal_strlit("beta");
    reveal_strlit("rc");
    reveal_strlit("RC");
    reveal_strlit("a");
    reveal_strlit("b");
    lemma_head("dev"@, "dev"@, t);
    lemma_head("alpha"@, "alpha"@, t);
    lemma_head("beta"@, "beta"@, t);
    lemma_head("rc"@, "rc"@, t);
    lemma_head("RC"@, "rc"@, t);
    lemma_head("a"@, "a"@, t);
    lemma_head("b"@, "b"@, t);
    lemma_head("a"@, "a"@, Seq::empty());
    lemma_head("b"@, "b"@, Seq::empty());
    assert("a"@ + Seq::<char>::empty() =~= "a"@);
    assert("b"@ + Seq::<char>::empty() =~= "b"@);
    assert(text::lower(text::lower(t)) =~= text::lower(t));
    lemma_first_letter(text::lower("dev"@ + t));
    lemma_first_letter(text::lower("alpha"@ + t));
    lemma_first_letter(text::lower("beta"@ + t));
    lemma_first_letter(text::lower("rc"@ + t));
    lemma_first_letter(text::lower("RC"@ + t));
    lemma_first_letter(text::lower("a"@ + t));
    lemma_first_letter(text::lower("b"@ + t));
    lemma_first_letter(text::lower("a"@));
    lemma_first_letter(text::lower("b"@));
    lemma_first_letter(text::lower(t));
}

proof fn lemma_head(m: Seq<char>, low: Seq<char>, t: Seq<char>)
    requires
        text::lower(m) =~= low,
    ensures
        text::lower(m + t) == low + text::lower(t),
        text::starts(text::lower(m + t), low),
{
    assert(text::lower(m + t) =~= low + text::lower(t));
    assert(text::lower(m + t).take(low.len() as int) =~= low);
}

proof fn lemma_first_letter(low: Seq<char>)
    ensures
        low.len() == 0 || low[0] != 'd' ==> !text::starts(low, "dev"@),
        low.len() == 0 || low[0] != 'a' ==> !text::starts(low, "alpha"@) && !text::starts(
            low,
            "a"@,
        ),
        low.len() == 0 || low[0] != 'b' ==> !text::starts(low, "beta"@) && !text::starts(
            low,
            "b"@,
        ),
        low.len() == 0 || low[0] != 'r' ==> !text::starts(low, "rc"@),
        text::starts(low, "alpha"@) ==> text::starts(low, "a"@),
        low.len() == 1 ==> !text::starts(low, "alpha"@) && !text::starts(low, "beta"@)
            && !text::starts(low, "rc"@) && !text::starts(low, "dev"@),
{
    reveal_strlit("dev");
    reveal_strlit("alpha");
    reveal_strlit("beta");
    reveal_strlit("rc");
    reveal_strlit("a");
    reveal_strlit("b");
    if low.len() > 0 {
        assert(low.take(1)[0] == low[0]);
        if low.len() >= 2 {
            assert(low.take(2)[0] == low[0]);
        }
        if low.len() >= 3 {
            assert(low.take(3)[0] == low[0]);
        }
        if low.len() >= 4 {
            assert(low.take(4)[0] == low[0]);
        }
        if low.len() >= 5 {
            assert(low.take(5)[0] == low[0]);
            if text::starts(low, "alpha"@) {
                assert(low.take(1) =~= "a"@);
            }
        }
    }
}

// ---------------------------------------------------------------------------
// The order of versions

/// Three numbers come before three others.
pub open spec fn comes_before(x: (int, int, int), y: (int, int, int)) -> bool {
    ||| x.0 < y.0
    ||| x.0 == y.0 && x.1 < y.1
    ||| x.0 == y.0 && x.1 == y.1 && x.2 < y.2
}

/// The numbers of a version.
pub open spec fn numbers(v: VersionView) -> (int, int, int) {
    (v.parts.0 as int, v.parts.1 as int, v.parts.2 as int)
}

/// A stability that claims less than another one.
pub open spec fn claims_less(s: Stability, t: Stability) -> bool {
    match t {
        Stability::Dev => false,
        Stability::Alpha => s is Dev,
        Stability::Beta => s is Dev || s is Alpha,
        Stability::Rc => s is Dev || s is Alpha || s is Beta,
        Stability::Stable => s !is Stable,
    }
}

/// The ranks of stabilities rise from `dev` over `alpha`, `beta` and `RC` to
/// `stable`.
pub proof fn law_ranks_rise(s: Stability, t: Stability)
    ensures
        claims_less(s, t) <==> version::stability_rank(s) < version::stability_rank(t),
        s == t <==> version::stability_rank(s) == version::stability_rank(t),
{
}

/// Versions that are no branches are ordered by their numbers first, then by
/// what stability they claim, then by their labels.
pub proof fn law_numbers_order_versions(v: VersionView, w: VersionView)
    requires
        v.stability !is Dev,
        w.stability !is Dev,
    ensures
        comes_before(numbers(v), numbers(w)) ==> version::version_lt(v, w) && !version::version_lt(
            w,
            v,
        ),
        v.parts == w.parts && claims_less(v.stability, w.stability) ==> version::version_lt(v, w)
            && !version::version_lt(w, v),
        v.parts == w.parts && v.stability == w.stability ==> (version::version_lt(v, w) <==> (
        w.pre matches Some(y) && (v.pre matches Some(x) ==> text::text_lt(x, y)))),
{
}

/// Releases that are read are ordered as their numbers are.
pub proof fn law_releases_are_ordered(a: u64, b: u64, c: u64, x: u64, y: u64, z: u64)
    ensures
        ({
            let v = version::parsed(
                text::decimal(a as nat) + "."@ + text::decimal(b as nat) + "."@ + text::decimal(
                    c as nat,
                ),
            );
            let w = version::parsed(
                text::decimal(x as nat) + "."@ + text::decimal(y as nat) + "."@ + text::decimal(
                    z as nat,
                ),
            );
            v is Some && w is Some && (version::version_lt(v->0, w->0) <==> comes_before(
                (a as int, b as int, c as int),
                (x as int, y as int, z as int),
            ))
        }),
{
    lemma_digits(0);
    law_numbers_are_read(a, b, c, text::decimal(0));
    law_numbers_are_read(x, y, z, text::decimal(0));
}

// ---------------------------------------------------------------------------
// Bounds

/// A release or a pre-release, no branch.
pub open spec fn is_numbered(v: VersionView) -> bool {
    v.stability !is Dev && (v.stability is Stable ==> v.pre is None)
}

/// A version lies below the release with the given numbers: its numbers do, or
/// it is a pre-release of it.
pub open spec fn lies_before(v: VersionView, x: (int, int, int)) -> bool {
    comes_before(numbers(v), x) || (numbers(v) == x && v.stability !is Stable)
}

/// The operators in front of a version.
pub open spec fn is_bound(op: Seq<char>) -> bool {
    ||| op.len() == 0
    ||| op == ">="@
    ||| op == "<="@
    ||| op == "!="@
    ||| op == ">"@
    ||| op == "<"@
    ||| op == "="@
    ||| op == "^"@
    ||| op == "~"@
}

spec fn is_sign(c: char) -> bool {
    c == '>' || c == '<' || c == '!' || c == '=' || c == '^' || c == '~'
}

proof fn lemma_signs(op: Seq<char>)
    requires
        is_bound(op),
    ensures
        forall|i: int| 0 <= i < op.len() ==> is_sign(#[trigger] op[i]),
{
    reveal_strlit(">=");
    reveal_strlit("<=");
    reveal_strlit("!=");
    reveal_strlit(">");
    reveal_strlit("<");
    reveal_strlit("=");
    reveal_strlit("^");
    reveal_strlit("~");
}

proof fn lemma_no_operator(c: Seq<char>)
    requires
        c.len() > 0,
        text::is_digit(c.last()) || c.last() == '*' || c.last() == 'x',
    ensures
        !constraint::is_operator(c),
{
    reveal_strlit(">=");
    reveal_strlit("<=");
    reveal_strlit("!=");
    reveal_strlit("==");
    reveal_strlit("<>");
    reveal_strlit(">");
    reveal_strlit("<");
    reveal_strlit("=");
    reveal_strlit("^");
    reveal_strlit("~");
}

/// The characters of a clause that is made of signs, digits and dots, and may end
/// with a wildcard.
spec fn is_simple(c: Seq<char>) -> bool {
    &&& c.len() > 0
    &&& text::is_digit(c.last()) || c.last() == '*' || c.last() == 'x'
    &&& forall|i: int|
        0 <= i < c.len() ==> is_sign(#[trigger] c[i]) || text::is_digit(c[i]) || c[i] == '.' || c[i]
            == '*' || c[i] == 'x'
}

proof fn lemma_simple_clause(c: Seq<char>, v: VersionView)
    requires
        is_simple(c),
    ensures
        constraint::is_clause(c),
        text::trimmed(c) == c,
        constraint::without_flag(c) == c,
        constraint::clause_hyphen(c) is None,
        constraint::satisfies(c, v) == constraint::satisfies_clause(c, v),
{
    reveal_strlit("@");
    reveal_strlit(" - ");
    lemma_no_operator(c);
    assert(!c.contains(',') && !c.contains('|') && !c.contains('@') && !c.contains(' '));
    constraint::lemma_clause_alone(c, v);
    text::lemma_not_found(c, "@"@);
    text::lemma_not_found(c, " - "@);
}

proof fn lemma_bound_clause(op: Seq<char>, num: Seq<char>, v: VersionView)
    requires
        is_bound(op),
        is_numeric(num),
    ensures
        is_simple(op + num),
        constraint::without_flag(op + num) == op + num,
        constraint::clause_hyphen(op + num) is None,
        text::trimmed(op + num) == op + num,
        !text::ends(op + num, ".*"@),
        !text::ends(op + num, ".x"@),
        op + num != "*"@,
        constraint::bound_of(num) == version::parsed(num),
        constraint::satisfies(op + num, v) == constraint::satisfies_clause(op + num, v),
{
    reveal_strlit(".*");
    reveal_strlit(".x");
    reveal_strlit("*");
    let c = op + num;
    lemma_signs(op);
    assert(c.last() == num.last());
    assert forall|i: int| 0 <= i < c.len() implies is_sign(#[trigger] c[i]) || text::is_digit(c[i])
        || c[i] == '.' by {
        if i < op.len() {
            assert(c[i] == op[i]);
        } else {
            assert(c[i] == num[i - op.len()]);
        }
    }
    lemma_simple_clause(c, v);
    lemma_numeric_bare(num);
    if text::ends(c, ".*"@) {
        assert(c.skip(c.len() - 2)[1] == '*');
    }
    if text::ends(c, ".x"@) {
        assert(c.skip(c.len() - 2)[1] == 'x');
    }
}

/// What a clause begins with, by its first two characters.
proof fn lemma_prefixes(c: Seq<char>)
    requires
        c.len() > 0,
    ensures
        text::starts(c, "^"@) == (c[0] == '^'),
        text::starts(c, "~"@) == (c[0] == '~'),
        text::starts(c, ">"@) == (c[0] == '>'),
        text::starts(c, "<"@) == (c[0] == '<'),
        text::starts(c, "="@) == (c[0] == '='),
        text::starts(c, ">="@) == (c.len() > 1 && c[0] == '>' && c[1] == '='),
        text::starts(c, "<="@) == (c.len() > 1 && c[0] == '<' && c[1] == '='),
        text::starts(c, "!="@) == (c.len() > 1 && c[0] == '!' && c[1] == '='),
        "^"@.len() == 1 && "~"@.len() == 1 && ">"@.len() == 1 && "<"@.len() == 1 && "="@.len() == 1,
        ">="@.len() == 2 && "<="@.len() == 2 && "!="@.len() == 2,
{
    reveal_strlit(">=");
    reveal_strlit("<=");
    reveal_strlit("!=");
    reveal_strlit(">");
    reveal_strlit("<");
    reveal_strlit("=");
    reveal_strlit("^");
    reveal_strlit("~");
    let one = c.take(1);
    assert(one[0] == c[0]);
    assert(c[0] == '^' ==> one =~= "^"@);
    assert(c[0] == '~' ==> one =~= "~"@);
    assert(c[0] == '>' ==> one =~= ">"@);
    assert(c[0] == '<' ==> one =~= "<"@);
    assert(c[0] == '=' ==> one =~= "="@);
    if c.len() > 1 {
        let two = c.take(2);
        assert(two[0] == c[0] && two[1] == c[1]);
        assert(c[0] == '>' && c[1] == '=' ==> two =~= ">="@);
        assert(c[0] == '<' && c[1] == '=' ==> two =~= "<="@);
        assert(c[0] == '!' && c[1] == '=' ==> two =~= "!="@);
    }
}

/// What each operator asks of a version, over the bound behind it.
proof fn lemma_operators(num: Seq<char>, v: VersionView)
    requires
        is_numeric(num),
        version::parsed(num) is Some,
    ensures
        ({
            let r = version::parsed(num)->0;
            let same = v.parts == r.parts && v.stability == r.stability;
            &&& constraint::satisfies(">="@ + num, v) == version::version_le(r, v)
            &&& constraint::satisfies("<="@ + num, v) == version::version_le(v, r)
            &&& constraint::satisfies(">"@ + num, v) == version::version_lt(r, v)
            &&& constraint::satisfies("<"@ + num, v) == version::version_lt(v, r)
            &&& constraint::satisfies("!="@ + num, v) == !same
            &&& constraint::satisfies("="@ + num, v) == same
            &&& constraint::satisfies(num, v) == same
            &&& constraint::satisfies("^"@ + num, v) == (version::version_le(r, v)
                && constraint::below_release(v, constraint::caret_top(r.parts)))
            &&& constraint::satisfies("~"@ + num, v) == (version::version_le(r, v)
                && constraint::below_release(v, constraint::tilde_top(r.parts, num)))
        }),
{
    lemma_operator(">="@, num, v);
    lemma_operator("<="@, num, v);
    lemma_operator("!="@, num, v);
    lemma_operator(">"@, num, v);
    lemma_operator("<"@, num, v);
    lemma_operator("="@, num, v);
    lemma_operator("^"@, num, v);
    lemma_operator("~"@, num, v);
    lemma_operator(Seq::empty(), num, v);
    assert(Seq::<char>::empty() + num =~= num);
    lemma_prefixes(num);
    lemma_prefixes(">="@ + num);
    lemma_prefixes("<="@ + num);
    lemma_prefixes("!="@ + num);
    lemma_prefixes(">"@ + num);
    lemma_prefixes("<"@ + num);
    lemma_prefixes("="@ + num);
    lemma_prefixes("^"@ + num);
    lemma_prefixes("~"@ + num);
    reveal_strlit(">=");
    reveal_strlit("<=");
    reveal_strlit("!=");
    reveal_strlit(">");
    reveal_strlit("<");
    reveal_strlit("=");
    reveal_strlit("^");
    reveal_strlit("~");
}

proof fn lemma_operator(op: Seq<char>, num: Seq<char>, v: VersionView)
    requires
        is_bound(op),
        is_numeric(num),
        version::parsed(num) is Some,
    ensures
        (op + num).skip(op.len() as int) == num,
        (op + num).len() > 0,
        constraint::bound_of(num) == version::parsed(num),
        constraint::satisfies(op + num, v) == constraint::satisfies_clause(op + num, v),
        text::trimmed(op + num) == op + num,
        op + num != "*"@,
        constraint::without_flag(op + num) == op + num,
        constraint::clause_hyphen(op + num) is None,
        !text::ends(op + num, ".*"@),
        !text::ends(op + num, ".x"@),
{
    lemma_bound_clause(op, num, v);
    assert((op + num).skip(op.len() as int) =~= num);
}

proof fn lemma_against_release(v: VersionView, r: VersionView)
    requires
        is_numbered(v),
        r.stability is Stable,
        r.pre is None,
    ensures
        version::version_lt(v, r) == lies_before(v, numbers(r)),
        version::version_lt(r, v) == (!lies_before(v, numbers(r)) && numbers(v) != numbers(r)),
        v.parts == r.parts <==> numbers(v) == numbers(r),
{
}

/// What a bound asks of releases and pre-releases: `>=` that the version does not
/// lie below it, `<` that it does, `>` and `<=` the opposites of `<=` and `>`,
/// a version alone and `=` that it is the same release, `!=` that it is not.
pub proof fn law_bounds(num: Seq<char>, r: VersionView, v: VersionView)
    requires
        is_numeric(num),
        version::parsed(num) == Some(r),
        is_numbered(v),
    ensures
        ({
            let n = numbers(r);
            let same = numbers(v) == n && v.stability is Stable;
            &&& constraint::satisfies(">="@ + num, v) == !lies_before(v, n)
            &&& constraint::satisfies("<"@ + num, v) == lies_before(v, n)
            &&& constraint::satisfies(">"@ + num, v) == (!lies_before(v, n) && numbers(v) != n)
            &&& constraint::satisfies("<="@ + num, v) == (lies_before(v, n) || numbers(v) == n)
            &&& constraint::satisfies("="@ + num, v) == same
            &&& constraint::satisfies(num, v) == same
            &&& constraint::satisfies("!="@ + num, v) == !same
        }),
{
    lemma_numeric_bare(num);
    lemma_operators(num, v);
    lemma_against_release(v, r);
}

/// `^` allows what does not lie below its bound and does not change the first
/// number that is not zero.
pub proof fn law_caret(num: Seq<char>, r: VersionView, v: VersionView)
    requires
        is_numeric(num),
        version::parsed(num) == Some(r),
        is_numbered(v),
    ensures
        ({
            let n = numbers(r);
            let top = if n.0 > 0 {
                (n.0 + 1, 0int, 0int)
            } else if n.1 > 0 {
                (0int, n.1 + 1, 0int)
            } else {
                (0int, 0int, n.2 + 1)
            };
            constraint::satisfies("^"@ + num, v) == (!lies_before(v, n) && lies_before(v, top))
        }),
{
    lemma_numeric_bare(num);
    lemma_operators(num, v);
    lemma_against_release(v, r);
}

/// `~` allows what does not lie below its bound and below the next minor release
/// where it names three numbers, else below the next major one.
pub proof fn law_tilde(a: u64, b: u64, c: u64, v: VersionView)
    requires
        is_numbered(v),
    ensures
        ({
            let one = text::decimal(a as nat);
            let two = one + "."@ + text::decimal(b as nat);
            let three = two + "."@ + text::decimal(c as nat);
            let (x, y, z) = (a as int, b as int, c as int);
            &&& constraint::satisfies("~"@ + one, v) == (!lies_before(v, (x, 0, 0)) && lies_before(
                v,
                (x + 1, 0, 0),
            ))
            &&& constraint::satisfies("~"@ + two, v) == (!lies_before(v, (x, y, 0)) && lies_before(
                v,
                (x + 1, 0, 0),
            ))
            &&& constraint::satisfies("~"@ + three, v) == (!lies_before(v, (x, y, z))
                && lies_before(v, (x, y + 1, 0)))
        }),
{
    let one = text::decimal(a as nat);
    let two = one + "."@ + text::decimal(b as nat);
    let three = two + "."@ + text::decimal(c as nat);
    lemma_digits(0);
    law_numbers_are_read(a, b, c, text::decimal(0));
    lemma_numbers(a, b, c, text::decimal(0));
    lemma_dots(a, b, c);
    lemma_numeric_bare(one);
    lemma_numeric_bare(two);
    lemma_numeric_bare(three);
    lemma_operators(one, v);
    lemma_operators(two, v);
    lemma_operators(three, v);
    lemma_against_release(v, version::parsed(one)->0);
    lemma_against_release(v, version::parsed(two)->0);
    lemma_against_release(v, version::parsed(three)->0);
}

proof fn lemma_count_joined(a: Seq<char>, b: Seq<char>, c: char)
    ensures
        text::count_of(a + b, c) == text::count_of(a, c) + text::count_of(b, c),
    decreases b.len(),
{
    if b.len() == 0 {
        assert(a + b =~= a);
    } else {
        lemma_count_joined(a, b.drop_last(), c);
        assert((a + b).drop_last() =~= a + b.drop_last());
        assert((a + b).last() == b.last());
    }
}

proof fn lemma_count_none(a: Seq<char>, c: char)
    requires
        !a.contains(c),
    ensures
        text::count_of(a, c) == 0,
    decreases a.len(),
{
    if a.len() > 0 {
        assert(a[a.len() - 1] != c);
        assert(!a.drop_last().contains(c)) by {
            if a.drop_last().contains(c) {
                let i = choose|i: int| 0 <= i < a.drop_last().len() && a.drop_last()[i] == c;
                assert(a[i] == c);
            }
        }
        lemma_count_none(a.drop_last(), c);
    }
}

proof fn lemma_dots(a: u64, b: u64, c: u64)
    ensures
        ({
            let one = text::decimal(a as nat);
            let two = one + "."@ + text::decimal(b as nat);
            let three = two + "."@ + text::decimal(c as nat);
            &&& text::count_of(one, '.') == 0
            &&& text::count_of(two, '.') == 1
            &&& text::count_of(three, '.') == 2
        }),
{
    reveal_strlit(".");
    let (x, y, z) = (text::decimal(a as nat), text::decimal(b as nat), text::decimal(c as nat));
    lemma_digits(a as nat);
    lemma_digits(b as nat);
    lemma_digits(c as nat);
    lemma_count_none(x, '.');
    lemma_count_none(y, '.');
    lemma_count_none(z, '.');
    assert(text::count_of("."@, '.') == 1) by {
        assert("."@.drop_last() =~= Seq::<char>::empty());
        assert("."@.last() == '.');
        assert(text::count_of(Seq::<char>::empty(), '.') == 0);
    }
    lemma_count_joined(x, "."@, '.');
    lemma_count_joined(x + "."@, y, '.');
    lemma_count_joined(x + "."@ + y, "."@, '.');
    lemma_count_joined(x + "."@ + y + "."@, z, '.');
}

/// A branch lies below every number: it satisfies `<`, `<=` and `!=`, and none of
/// the other bounds.
pub proof fn law_branches_and_bounds(num: Seq<char>, v: VersionView)
    requires
        is_numeric(num),
        version::parsed(num) is Some,
        v.stability is Dev,
    ensures
        constraint::satisfies("<"@ + num, v),
        constraint::satisfies("<="@ + num, v),
        constraint::satisfies("!="@ + num, v),
        !constraint::satisfies(">="@ + num, v),
        !constraint::satisfies(">"@ + num, v),
        !constraint::satisfies("="@ + num, v),
        !constraint::satisfies(num, v),
        !constraint::satisfies("^"@ + num, v),
        !constraint::satisfies("~"@ + num, v),
{
    lemma_numeric_bare(num);
    lemma_operators(num, v);
}

// ---------------------------------------------------------------------------
// Wildcards, ranges, operators that stand apart

proof fn lemma_wildcard_prefix(num: Seq<char>, tail: Seq<char>)
    requires
        is_numeric(num),
        tail == ".*"@ || tail == ".x"@,
    ensures
        constraint::wildcard_prefix(num + tail) == num,
        text::ends(num + tail, tail),
        is_simple(num + tail),
        text::is_digit((num + tail)[0]),
{
    reveal_strlit(".*");
    reveal_strlit(".x");
    let c = num + tail;
    assert(c.skip(c.len() - 2) =~= tail);
    assert(c.take(c.len() - 2) =~= num);
    if text::ends(num, ".*"@) {
        assert(num.skip(num.len() - 2)[1] == '*');
    }
    if text::ends(num, ".x"@) {
        assert(num.skip(num.len() - 2)[1] == 'x');
    }
    if tail == ".x"@ {
        if text::ends(c, ".*"@) {
            assert(c.skip(c.len() - 2)[1] == 'x');
        }
        assert(text::without_back(c, ".*"@) == c);
        assert(text::without_back(c, ".x"@) == text::without_back(num, ".x"@));
    } else {
        assert(text::without_back(c, ".*"@) == text::without_back(num, ".*"@));
    }
    assert(text::without_back(num, ".*"@) == num);
    assert(text::without_back(num, ".x"@) == num);
    assert(text::without_front(num, 'v') == num);
    assert(c[0] == num[0]);
    assert(c.last() == tail[1]);
    assert forall|i: int| 0 <= i < c.len() implies is_sign(#[trigger] c[i]) || text::is_digit(c[i])
        || c[i] == '.' || c[i] == '*' || c[i] == 'x' by {
        if i < num.len() {
            assert(c[i] == num[i]);
        } else {
            assert(c[i] == tail[i - num.len()]);
        }
    }
}

/// `a.*` and `a.x` allow the versions whose first number is `a`, `a.b.*` and
/// `a.b.x` those whose first two numbers are `a` and `b`.
pub proof fn law_wildcards(a: u64, b: u64, v: VersionView, tail: Seq<char>)
    requires
        tail == ".*"@ || tail == ".x"@,
    ensures
        ({
            let one = text::decimal(a as nat);
            let two = one + "."@ + text::decimal(b as nat);
            &&& constraint::satisfies(one + tail, v) <==> v.parts.0 == a
            &&& constraint::satisfies(two + tail, v) <==> v.parts.0 == a && v.parts.1 == b
        }),
{
    let x = text::decimal(a as nat);
    let y = text::decimal(b as nat);
    lemma_digits(a as nat);
    lemma_digits(b as nat);
    lemma_joined_numeric(x, y);
    lemma_number_pieces(x, y, y, y);
    lemma_wildcard_clause(x, tail, v);
    lemma_wildcard_clause(x + "."@ + y, tail, v);
    lemma_in_wildcard(x + tail, seq![x], v);
    lemma_in_wildcard(x + "."@ + y + tail, seq![x, y], v);
}

proof fn lemma_wildcard_clause(num: Seq<char>, tail: Seq<char>, v: VersionView)
    requires
        is_numeric(num),
        tail == ".*"@ || tail == ".x"@,
    ensures
        constraint::satisfies(num + tail, v) == constraint::in_wildcard(v, num + tail),
        constraint::wildcard_prefix(num + tail) == num,
{
    reveal_strlit("*");
    lemma_wildcard_prefix(num, tail);
    lemma_simple_clause(num + tail, v);
    lemma_prefixes(num + tail);
}

proof fn lemma_in_wildcard(c: Seq<char>, p: Seq<Seq<char>>, v: VersionView)
    requires
        text::pieces(constraint::wildcard_prefix(c), "."@) == p,
        1 <= p.len() <= 2,
    ensures
        constraint::in_wildcard(v, c) == (v.parts.0 == version::or_zero(text::u64_of(p[0])) && (
        p.len() == 2 ==> v.parts.1 == version::or_zero(text::u64_of(p[1])))),
{
}

/// An operator that stands apart from its version means what it means with it.
pub proof fn law_operator_apart(op: Seq<char>, num: Seq<char>, v: VersionView)
    requires
        op == ">="@ || op == "<="@ || op == "!="@ || op == ">"@ || op == "<"@ || op == "="@ || op
            == "^"@ || op == "~"@,
        is_numeric(num),
    ensures
        constraint::satisfies(op + " "@ + num, v) == constraint::satisfies(op + num, v),
{
    reveal_strlit(" ");
    reveal_strlit("*");
    reveal_strlit("||");
    lemma_signs(op);
    lemma_bound_clause(op, num, v);
    assert(op.len() > 0) by {
        reveal_strlit(">=");
        reveal_strlit("<=");
        reveal_strlit("!=");
        reveal_strlit(">");
        reveal_strlit("<");
        reveal_strlit("=");
        reveal_strlit("^");
        reveal_strlit("~");
    }
    let s = op + " "@ + num;
    assert(" "@ =~= seq![' ']);
    assert(s[0] == op[0] && s.last() == num.last());
    text::lemma_trimmed_same(s);
    text::lemma_trimmed_same(op);
    lemma_numeric_bare(num);
    assert(text::is_word(op, true));
    assert(text::is_word(num, true));
    text::lemma_two_words(op, num, true);
    let w = text::words(s, true).map_values(|w: Seq<char>| text::trimmed(w));
    assert(w =~= seq![op, num]);
    assert(w.skip(2) =~= Seq::<Seq<char>>::empty());
    assert(constraint::grouped(w.skip(2)) =~= Seq::<Seq<char>>::empty());
    assert(constraint::grouped(w) =~= seq![op + num]);
    assert forall|i: int| 0 <= i < s.len() implies s[i] != ',' && s[i] != '|' by {
        if i < op.len() {
            assert(s[i] == op[i]);
        } else if i > op.len() {
            assert(s[i] == num[i - op.len() - 1]);
        }
    }
    assert(!s.contains(',') && !s.contains('|'));
    text::lemma_not_found(s, "||"@);
    assert(constraint::clauses_of(s) == seq![op + num]);
    assert(constraint::clauses_of(s)[0] == op + num);
}

proof fn lemma_range_clause(a: Seq<char>, b: Seq<char>, v: VersionView)
    requires
        is_numeric(a),
        is_numeric(b),
    ensures
        constraint::satisfies(a + " - "@ + b, v) == constraint::satisfies_clause(a + " - "@ + b, v),
        text::trimmed(a + " - "@ + b) == a + " - "@ + b,
        constraint::without_flag(a + " - "@ + b) == a + " - "@ + b,
        text::parted(a + " - "@ + b, " - "@) == Some((a, b)),
        a + " - "@ + b != "*"@,
{
    reveal_strlit(" - ");
    reveal_strlit("-");
    reveal_strlit("*");
    reveal_strlit("||");
    reveal_strlit("@");
    let s = a + " - "@ + b;
    assert(s[0] == a[0] && s.last() == b.last());
    text::lemma_trimmed_same(s);
    lemma_numeric_bare(a);
    lemma_numeric_bare(b);
    text::lemma_trimmed_same("-"@);
    let tail = "-"@ + seq![' '] + b;
    assert(s =~= a + seq![' '] + tail);
    assert(text::is_word(a, true));
    assert(text::is_word(b, true));
    assert(text::is_word("-"@, true));
    text::lemma_word_before(a, tail, true);
    text::lemma_two_words("-"@, b, true);
    let w = text::words(s, true).map_values(|w: Seq<char>| text::trimmed(w));
    assert(w =~= seq![a, "-"@, b]);
    assert(w.skip(3) =~= Seq::<Seq<char>>::empty());
    assert(constraint::grouped(w.skip(3)) =~= Seq::<Seq<char>>::empty());
    lemma_no_operator(a);
    assert(constraint::grouped(w) =~= seq![s]);
    assert forall|i: int| 0 <= i < s.len() implies s[i] != ',' && s[i] != '|' && s[i] != '@' by {
        if i < a.len() {
            assert(s[i] == a[i]);
        } else if i >= a.len() + 3 {
            assert(s[i] == b[i - a.len() - 3]);
        }
    }
    assert(!s.contains(',') && !s.contains('|') && !s.contains('@'));
    text::lemma_not_found(s, "||"@);
    text::lemma_not_found(s, "@"@);
    assert(constraint::clauses_of(s) == seq![s]);
    assert(constraint::clauses_of(s)[0] == s);
    lemma_no_letter(a, ' ');
    text::lemma_piece_before(a, " - "@, b);
}

/// A range `a - b` begins with its first version. It ends with its second one, if
/// that has three numbers; else it holds everything that begins with the numbers
/// of the second one.
pub proof fn law_ranges(
    num: Seq<char>,
    r: VersionView,
    a: u64,
    b: u64,
    c: u64,
    v: VersionView,
)
    requires
        is_numeric(num),
        version::parsed(num) == Some(r),
        is_numbered(v),
    ensures
        ({
            let one = text::decimal(a as nat);
            let two = one + "."@ + text::decimal(b as nat);
            let three = two + "."@ + text::decimal(c as nat);
            let (x, y, z) = (a as int, b as int, c as int);
            let from = !lies_before(v, numbers(r));
            &&& constraint::satisfies(num + " - "@ + one, v) == (from && lies_before(
                v,
                (x + 1, 0, 0),
            ))
            &&& constraint::satisfies(num + " - "@ + two, v) == (from && lies_before(
                v,
                (x, y + 1, 0),
            ))
            &&& constraint::satisfies(num + " - "@ + three, v) == (from && (lies_before(
                v,
                (x, y, z),
            ) || numbers(v) == (x, y, z)))
        }),
{
    let one = text::decimal(a as nat);
    let two = one + "."@ + text::decimal(b as nat);
    let three = two + "."@ + text::decimal(c as nat);
    lemma_digits(0);
    law_numbers_are_read(a, b, c, text::decimal(0));
    lemma_numbers(a, b, c, text::decimal(0));
    lemma_dots(a, b, c);
    lemma_range_clause(num, one, v);
    lemma_range_clause(num, two, v);
    lemma_range_clause(num, three, v);
    lemma_numeric_bare(num);
    lemma_numeric_bare(one);
    lemma_numeric_bare(two);
    lemma_numeric_bare(three);
    lemma_against_release(v, r);
    lemma_against_release(v, version::parsed(one)->0);
    lemma_against_release(v, version::parsed(two)->0);
    lemma_against_release(v, version::parsed(three)->0);
}

/// A stability flag behind a clause changes nothing of what the clause allows.
pub proof fn law_flags(op: Seq<char>, num: Seq<char>, flag: Seq<char>, v: VersionView)
    requires
        is_bound(op),
        is_numeric(num),
        flag.len() > 0,
        forall|i: int| 0 <= i < flag.len() ==> 'a' <= #[trigger] flag[i] <= 'z',
    ensures
        constraint::satisfies(op + num + "@"@ + flag, v) == constraint::satisfies(op + num, v),
{
    reveal_strlit("@");
    reveal_strlit("*");
    reveal_strlit(" - ");
    lemma_signs(op);
    lemma_bound_clause(op, num, v);
    let c = op + num;
    let s = c + "@"@ + flag;
    assert forall|i: int| 0 <= i < s.len() implies s[i] != ',' && s[i] != '|' && s[i] != ' '
        && !text::is_space(s[i]) by {
        if i < c.len() {
            assert(s[i] == c[i]);
        } else if i > c.len() {
            assert(s[i] == flag[i - c.len() - 1]);
        }
    }
    assert(s[c.len() as int] == '@');
    assert(!constraint::is_operator(s)) by {
        reveal_strlit(">=");
        reveal_strlit("<=");
        reveal_strlit("!=");
        reveal_strlit("==");
        reveal_strlit("<>");
        reveal_strlit(">");
        reveal_strlit("<");
        reveal_strlit("=");
        reveal_strlit("^");
        reveal_strlit("~");
        assert(s.last() == flag.last());
    }
    assert(!s.contains(',') && !s.contains('|'));
    constraint::lemma_clause_alone(s, v);
    assert(!c.contains('@'));
    text::lemma_piece_before(c, "@"@, flag);
    assert(constraint::without_flag(s) == c);
    assert(constraint::without_flag(c) == c);
}

} // verus!
