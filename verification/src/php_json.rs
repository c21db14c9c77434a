//! JSON as PHP's `json_encode` writes it without flags: compact, with slashes
//! escaped and everything outside ASCII written as `\u` escapes.

use crate::json;
use crate::json::Json;
use vstd::prelude::*;

verus! {

/// A hexadecimal digit.
pub open spec fn hex_digit(n: int) -> char {
    if n < 10 {
        (48 + n) as char
    } else {
        (87 + n) as char
    }
}

/// `\u` with the four hexadecimal digits of a number below 65536.
pub open spec fn unicode_escape(n: int) -> Seq<char> {
    seq![
        '\\',
        'u',
        hex_digit(n / 4096 % 16),
        hex_digit(n / 256 % 16),
        hex_digit(n / 16 % 16),
        hex_digit(n % 16),
    ]
}

/// How a character stands in a string. Above U+FFFF it is written as the two
/// halves of a surrogate pair.
pub open spec fn escaped_char(c: char) -> Seq<char> {
    let n = c as int;
    if c == '"' {
        seq!['\\', '"']
    } else if c == '\\' {
        seq!['\\', '\\']
    } else if c == '/' {
        seq!['\\', '/']
    } else if n == 8 {
        seq!['\\', 'b']
    } else if n == 12 {
        seq!['\\', 'f']
    } else if c == '\n' {
        seq!['\\', 'n']
    } else if c == '\r' {
        seq!['\\', 'r']
    } else if c == '\t' {
        seq!['\\', 't']
    } else if n < 32 {
        unicode_escape(n)
    } else if n < 128 {
        seq![c]
    } else if n < 65536 {
        unicode_escape(n)
    } else {
        unicode_escape(0xd800 + (n - 0x10000) / 1024) + unicode_escape(
            0xdc00 + (n - 0x10000) % 1024,
        )
    }
}

/// The characters of a string, escaped.
pub open spec fn escaped(s: Seq<char>) -> Seq<char>
    decreases s.len(),
{
    if s.len() == 0 {
        s
    } else {
        escaped(s.drop_last()) + escaped_char(s.last())
    }
}

/// A string in its quotes.
pub open spec fn quoted(s: Seq<char>) -> Seq<char> {
    "\""@ + escaped(s) + "\""@
}

/// The text of a value.
pub open spec fn encoded(j: json::JsonView) -> Seq<char>
    decreases j,
{
    match j {
        json::JsonView::Null => "null"@,
        json::JsonView::Bool(b) => if b {
            "true"@
        } else {
            "false"@
        },
        json::JsonView::Number(t) => t,
        json::JsonView::Str(t) => quoted(t),
        json::JsonView::Array(a) => "["@ + encoded_items(a) + "]"@,
        json::JsonView::Object(m) => "{"@ + encoded_members(m) + "}"@,
    }
}

/// The texts of an array's elements with commas between them.
pub open spec fn encoded_items(a: Seq<json::JsonView>) -> Seq<char>
    decreases a,
{
    if a.len() == 0 {
        Seq::empty()
    } else if a.len() == 1 {
        encoded(a[0])
    } else {
        encoded_items(a.drop_last()) + ","@ + encoded(a.last())
    }
}

/// The texts of an object's members with commas between them.
pub open spec fn encoded_members(m: Seq<(Seq<char>, json::JsonView)>) -> Seq<char>
    decreases m,
{
    if m.len() == 0 {
        Seq::empty()
    } else if m.len() == 1 {
        quoted(m[0].0) + ":"@ + encoded(m[0].1)
    } else {
        encoded_members(m.drop_last()) + ","@ + (quoted(m.last().0) + ":"@ + encoded(m.last().1))
    }
}

fn hex_of(n: u32) -> (r: char)
    requires
        n < 16,
    ensures
        r == hex_digit(n as int),
{
    let code: u8 = if n < 10 {
        48 + n as u8
    } else {
        87 + n as u8
    };
    code as char
}

fn push_unicode(out: &mut String, n: u32)
    requires
        n < 65536,
    ensures
        final(out)@ == old(out)@ + unicode_escape(n as int),
{
    let ghost before = out@;
    out.push('\\');
    out.push('u');
    out.push(hex_of(n / 4096 % 16));
    out.push(hex_of(n / 256 % 16));
    out.push(hex_of(n / 16 % 16));
    out.push(hex_of(n % 16));
    assert(out@ =~= before + unicode_escape(n as int));
}

fn push_pair(out: &mut String, c: char)
    ensures
        final(out)@ == old(out)@ + seq!['\\', c],
{
    let ghost before = out@;
    out.push('\\');
    out.push(c);
    assert(out@ =~= before + seq!['\\', c]);
}

fn push_escaped(out: &mut String, c: char)
    ensures
        final(out)@ == old(out)@ + escaped_char(c),
{
    let n: u32 = c as u32;
    if c == '"' || c == '\\' || c == '/' {
        push_pair(out, c);
    } else if n == 8 {
        push_pair(out, 'b');
    } else if n == 12 {
        push_pair(out, 'f');
    } else if c == '\n' {
        push_pair(out, 'n');
    } else if c == '\r' {
        push_pair(out, 'r');
    } else if c == '\t' {
        push_pair(out, 't');
    } else if n < 32 {
        push_unicode(out, n);
    } else if n < 128 {
        let ghost before = out@;
        out.push(c);
        assert(out@ =~= before + seq![c]);
    } else if n < 65536 {
        push_unicode(out, n);
    } else {
        let ghost before = out@;
        let rest: u32 = n - 0x10000;
        push_unicode(out, 0xd800 + rest / 1024);
        push_unicode(out, 0xdc00 + rest % 1024);
        assert(out@ =~= before + (unicode_escape(0xd800 + (n - 0x10000) / 1024) + unicode_escape(
            0xdc00 + (n - 0x10000) % 1024,
        )));
    }
}

/// A string in its quotes.
fn quote(s: &str) -> (r: String)
    ensures
        r@ == quoted(s@),
{
    let mut out = String::from_str("\"");
    let n: usize = s.unicode_len();
    let mut i: usize = 0;
    assert("\""@ + escaped(s@.take(0)) =~= "\""@);
    while i < n
        invariant
            i <= n,
            n == s@.len(),
            out@ == "\""@ + escaped(s@.take(i as int)),
        decreases n - i,
    {
        let ghost before = out@;
        push_escaped(&mut out, s.get_char(i));
        proof {
            assert(s@.take(i + 1).drop_last() =~= s@.take(i as int));
            assert(out@ =~= "\""@ + escaped(s@.take(i + 1)));
        }
        i += 1;
    }
    assert(s@.take(n as int) =~= s@);
    out.append("\"");
    out
}

/// The text of a value.
pub fn encode(j: &Json) -> (r: String)
    ensures
        r@ == encoded(j@),
    decreases j,
{
    match j {
        Json::Null => String::from_str("null"),
        Json::Bool(b) => String::from_str(if *b { "true" } else { "false" }),
        Json::Number(t) => t.clone(),
        Json::Str(t) => quote(t.as_str()),
        Json::Array(v) => {
            let ghost all = json::elements(v@);
            let n: usize = v.len();
            let mut items = String::new();
            let mut i: usize = 0;
            while i < n
                invariant
                    i <= n,
                    n == v@.len(),
                    *j == Json::Array(*v),
                    all == json::elements(v@),
                    items@ == encoded_items(all.take(i as int)),
                decreases n - i,
            {
                assert(decreases_to!(*j => j->Array_0));
                assert(decreases_to!(j->Array_0 => j->Array_0[i as int]));
                if i > 0 {
                    items.append(",");
                }
                let one = encode(&v[i]);
                items.append(one.as_str());
                proof {
                    let now = all.take(i + 1);
                    assert(now.drop_last() =~= all.take(i as int));
                    assert(now.last() == v@[i as int]@);
                    if i == 0 {
                        assert(now[0] == v@[0]@);
                        assert(items@ =~= one@);
                    }
                }
                i += 1;
            }
            proof {
                assert(all.take(n as int) =~= all);
                json::lemma_array_view(*v);
            }
            let mut out = String::from_str("[");
            out.append(items.as_str());
            out.append("]");
            out
        },
        Json::Object(v) => {
            let ghost all = json::members(v@);
            let n: usize = v.len();
            let mut items = String::new();
            let mut i: usize = 0;
            while i < n
                invariant
                    i <= n,
                    n == v@.len(),
                    *j == Json::Object(*v),
                    all == json::members(v@),
                    items@ == encoded_members(all.take(i as int)),
                decreases n - i,
            {
                assert(decreases_to!(*j => j->Object_0));
                assert(decreases_to!(j->Object_0 => j->Object_0[i as int]));
                assert(decreases_to!(j->Object_0[i as int] => j->Object_0[i as int].1));
                if i > 0 {
                    items.append(",");
                }
                let ghost before = items@;
                let key = quote(v[i].0.as_str());
                let one = encode(&v[i].1);
                items.append(key.as_str());
                items.append(":");
                items.append(one.as_str());
                proof {
                    let now = all.take(i + 1);
                    assert(now.drop_last() =~= all.take(i as int));
                    assert(now.last() == (v@[i as int].0@, v@[i as int].1@));
                    assert(items@ =~= before + (key@ + ":"@ + one@));
                    if i == 0 {
                        assert(now[0] == now.last());
                        assert(items@ =~= key@ + ":"@ + one@);
                    }
                }
                i += 1;
            }
            proof {
                assert(all.take(n as int) =~= all);
                json::lemma_object_view(*v);
            }
            let mut out = String::from_str("{");
            out.append(items.as_str());
            out.append("}");
            out
        },
    }
}

// ---------------------------------------------------------------------------
// Laws

/// What a lower-case hexadecimal digit counts.
pub open spec fn digit_value(c: char) -> int {
    if '0' <= c <= '9' {
        c as int - '0' as int
    } else {
        c as int - 'a' as int + 10
    }
}

/// The text at `at` is `\u` and four lower-case hexadecimal digits that count `n`.
pub open spec fn escapes(s: Seq<char>, at: int, n: int) -> bool {
    &&& at + 6 <= s.len()
    &&& s[at] == '\\'
    &&& s[at + 1] == 'u'
    &&& forall|i: int|
        at + 2 <= i < at + 6 ==> '0' <= #[trigger] s[i] <= '9' || 'a' <= s[i] <= 'f'
    &&& n == digit_value(s[at + 2]) * 4096 + digit_value(s[at + 3]) * 256 + digit_value(s[at + 4])
        * 16 + digit_value(s[at + 5])
}

proof fn lemma_four_digits(n: int)
    requires
        0 <= n < 65536,
    ensures
        0 <= n / 4096 < 16,
        n / 4096 % 16 == n / 4096,
        n == n / 4096 * 4096 + n / 256 % 16 * 256 + n / 16 % 16 * 16 + n % 16,
{
    let x = n / 16;
    let y = x / 16;
    assert(n == x * 16 + n % 16);
    assert(x == y * 16 + x % 16);
    assert(y == y / 16 * 16 + y % 16);
    assert(n / 256 == y);
    assert(n / 4096 == y / 16);
}

proof fn lemma_escape_counts(n: int)
    requires
        0 <= n < 65536,
    ensures
        unicode_escape(n).len() == 6,
        escapes(unicode_escape(n), 0, n),
{
    let s = unicode_escape(n);
    let a = n / 4096;
    let b = n / 256 % 16;
    let c = n / 16 % 16;
    let d = n % 16;
    lemma_four_digits(n);
    lemma_digit(a);
    lemma_digit(b);
    lemma_digit(c);
    lemma_digit(d);
    assert(s[2] == hex_digit(a) && s[3] == hex_digit(b) && s[4] == hex_digit(c) && s[5]
        == hex_digit(d));
    assert forall|i: int| 2 <= i < 6 implies '0' <= #[trigger] s[i] <= '9' || 'a' <= s[i]
        <= 'f' by {
        assert(i == 2 || i == 3 || i == 4 || i == 5);
    }
}

proof fn lemma_digit(n: int)
    requires
        0 <= n < 16,
    ensures
        digit_value(hex_digit(n)) == n,
        '0' <= hex_digit(n) <= '9' || 'a' <= hex_digit(n) <= 'f',
{
}

/// How one character is written: quotes, backslashes and slashes behind a
/// backslash, the usual short forms for control characters, every other printable
/// ASCII character as it is, and what is left by its code.
pub proof fn law_how_characters_are_written(c: char)
    ensures
        c == '"' ==> escaped_char(c) == seq!['\\', '"'],
        c == '\\' ==> escaped_char(c) == seq!['\\', '\\'],
        c == '/' ==> escaped_char(c) == seq!['\\', '/'],
        c == '\n' ==> escaped_char(c) == seq!['\\', 'n'],
        c == '\r' ==> escaped_char(c) == seq!['\\', 'r'],
        c == '\t' ==> escaped_char(c) == seq!['\\', 't'],
        c as int == 8 ==> escaped_char(c) == seq!['\\', 'b'],
        c as int == 12 ==> escaped_char(c) == seq!['\\', 'f'],
        (' ' <= c && c as int <= 127 && c != '"' && c != '\\' && c != '/') ==> escaped_char(c)
            == seq![c],
        ((c as int) < 8 || c as int == 11 || 14 <= c as int <= 31 || 128 <= c as int <= 65535) ==> (
        escaped_char(c).len() == 6 && escapes(escaped_char(c), 0, c as int)),
        c as int >= 65536 ==> exists|high: int, low: int|
            0xd800 <= high < 0xdc00 && 0xdc00 <= low < 0xe000 && c as int == 65536 + (high - 0xd800)
                * 1024 + (low - 0xdc00) && escaped_char(c).len() == 12 && #[trigger] escapes(
                escaped_char(c),
                0,
                high,
            ) && #[trigger] escapes(escaped_char(c), 6, low),
{
    let n = c as int;
    if n < 65536 {
        lemma_escape_counts(n);
    } else {
        let high = 0xd800 + (n - 0x10000) / 1024;
        let low = 0xdc00 + (n - 0x10000) % 1024;
        assert(n <= 0x10ffff);
        lemma_escape_counts(high);
        lemma_escape_counts(low);
        let s = escaped_char(c);
        let a = unicode_escape(high);
        let b = unicode_escape(low);
        assert(s == a + b);
        assert forall|i: int| 0 <= i < 6 implies s[i] == a[i] && #[trigger] s[i + 6] == b[i] by {}
        assert(s[0] == a[0] && s[1] == a[1] && s[2] == a[2] && s[3] == a[3] && s[4] == a[4] && s[5]
            == a[5]);
        assert(s[6] == b[0] && s[7] == b[1] && s[8] == b[2] && s[9] == b[3] && s[10] == b[4]
            && s[11] == b[5]);
        assert(escapes(s, 0, high));
        assert(escapes(s, 6, low));
    }
}

proof fn lemma_escaped_joined(a: Seq<char>, b: Seq<char>)
    ensures
        escaped(a + b) == escaped(a) + escaped(b),
    decreases b.len(),
{
    if b.len() > 0 {
        assert((a + b).drop_last() =~= a + b.drop_last());
        lemma_escaped_joined(a, b.drop_last());
        assert(escaped(a) + escaped(b.drop_last()) + escaped_char(b.last()) =~= escaped(a) + (
        escaped(b.drop_last()) + escaped_char(b.last())));
    } else {
        assert(a + b =~= a);
        assert(escaped(a) + escaped(b) =~= escaped(a));
    }
}

/// A text is written between quotes, character by character.
pub proof fn law_how_texts_are_written(s: Seq<char>, a: Seq<char>, b: Seq<char>, c: char)
    ensures
        encoded(json::JsonView::Str(s)).len() == escaped(s).len() + 2,
        encoded(json::JsonView::Str(s))[0] == '"',
        encoded(json::JsonView::Str(s)).last() == '"',
        encoded(json::JsonView::Str(s)).subrange(1, (escaped(s).len() + 1) as int) == escaped(s),
        escaped(Seq::empty()).len() == 0,
        escaped(a + b) == escaped(a) + escaped(b),
        escaped(seq![c]) == escaped_char(c),
{
    reveal_strlit("\"");
    let e = encoded(json::JsonView::Str(s));
    assert(e == "\""@ + escaped(s) + "\""@);
    assert("\""@.len() == 1 && "\""@[0] == '"');
    assert(e.subrange(1, (escaped(s).len() + 1) as int) =~= escaped(s));
    lemma_escaped_joined(a, b);
    assert(seq![c].drop_last() =~= Seq::empty());
    assert(seq![c].last() == c);
    assert(escaped(Seq::<char>::empty()) + escaped_char(c) =~= escaped_char(c));
}

/// Lists and objects are written without blanks, with commas between their
/// elements and colons behind the names.
pub proof fn law_how_values_are_written(
    a: Seq<json::JsonView>,
    m: Seq<(Seq<char>, json::JsonView)>,
    k: Seq<char>,
    j: json::JsonView,
)
    ensures
        encoded(json::JsonView::Null) == "null"@,
        encoded(json::JsonView::Bool(true)) == "true"@,
        encoded(json::JsonView::Bool(false)) == "false"@,
        encoded(json::JsonView::Array(Seq::empty())) == seq!['[', ']'],
        encoded(json::JsonView::Object(Seq::empty())) == seq!['{', '}'],
        encoded(json::JsonView::Array(seq![j])) == seq!['['] + encoded(j) + seq![']'],
        encoded(json::JsonView::Object(seq![(k, j)])) == seq!['{'] + encoded(json::JsonView::Str(k))
            + seq![':'] + encoded(j) + seq!['}'],
        a.len() > 0 ==> encoded(json::JsonView::Array(a.push(j))) == encoded(
            json::JsonView::Array(a),
        ).drop_last() + seq![','] + encoded(j) + seq![']'],
        m.len() > 0 ==> encoded(json::JsonView::Object(m.push((k, j)))) == encoded(
            json::JsonView::Object(m),
        ).drop_last() + seq![','] + encoded(json::JsonView::Str(k)) + seq![':'] + encoded(j)
            + seq!['}'],
{
    reveal_strlit("[");
    reveal_strlit("]");
    reveal_strlit("{");
    reveal_strlit("}");
    reveal_strlit(",");
    reveal_strlit(":");
    let e = encoded(j);
    let q = encoded(json::JsonView::Str(k));
    assert(q == quoted(k));
    assert("["@ =~= seq!['['] && "]"@ =~= seq![']'] && "{"@ =~= seq!['{'] && "}"@ =~= seq!['}']
        && ","@ =~= seq![','] && ":"@ =~= seq![':']);
    assert(encoded(json::JsonView::Array(Seq::empty())) =~= seq!['[', ']']);
    assert(encoded(json::JsonView::Object(Seq::empty())) =~= seq!['{', '}']);
    assert(seq![j][0] == j);
    assert(encoded_items(seq![j]) == e);
    assert(seq![(k, j)][0] == (k, j));
    assert(encoded_members(seq![(k, j)]) == q + ":"@ + e);
    assert(seq!['{'] + (q + seq![':'] + e) + seq!['}'] =~= seq!['{'] + q + seq![':'] + e
        + seq!['}']);
    if a.len() > 0 {
        let p = a.push(j);
        assert(p.drop_last() =~= a);
        assert(p.last() == j);
        let i = encoded_items(a);
        assert((seq!['['] + i + seq![']']).drop_last() =~= seq!['['] + i);
        assert(encoded_items(p) == i + ","@ + e);
        assert(seq!['['] + (i + seq![','] + e) + seq![']'] =~= seq!['['] + i + seq![','] + e
            + seq![']']);
    }
    if m.len() > 0 {
        let p = m.push((k, j));
        assert(p.drop_last() =~= m);
        assert(p.last() == (k, j));
        let i = encoded_members(m);
        assert((seq!['{'] + i + seq!['}']).drop_last() =~= seq!['{'] + i);
        assert(encoded_members(p) == i + ","@ + (q + ":"@ + e));
        assert(seq!['{'] + (i + seq![','] + (q + seq![':'] + e)) + seq!['}'] =~= seq!['{'] + i
            + seq![','] + q + seq![':'] + e + seq!['}']);
    }
}

} // verus!
