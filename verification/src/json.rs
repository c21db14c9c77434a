//! JSON values.

use crate::text;
use vstd::prelude::*;

verus! {

/// A JSON value. A number is held as its text; the members of an object keep
/// the order in which they were written.
#[derive(Debug)]
pub enum Json {
    Null,
    Bool(bool),
    Number(String),
    Str(String),
    Array(Vec<Json>),
    Object(Vec<(String, Json)>),
}

/// What a JSON value consists of.
pub enum JsonView {
    Null,
    Bool(bool),
    Number(Seq<char>),
    Str(Seq<char>),
    Array(Seq<JsonView>),
    Object(Seq<(Seq<char>, JsonView)>),
}

/// What a JSON value consists of.
pub open spec fn json_view(j: Json) -> JsonView
    decreases j,
{
    match j {
        Json::Null => JsonView::Null,
        Json::Bool(b) => JsonView::Bool(b),
        Json::Number(s) => JsonView::Number(s@),
        Json::Str(s) => JsonView::Str(s@),
        Json::Array(v) => JsonView::Array(
            Seq::new(
                v@.len(),
                |i: int|
                    if 0 <= i < v@.len() {
                        json_view(v@[i])
                    } else {
                        JsonView::Null
                    },
            ),
        ),
        Json::Object(v) => JsonView::Object(
            Seq::new(
                v@.len(),
                |i: int|
                    if 0 <= i < v@.len() {
                        (v@[i].0@, json_view(v@[i].1))
                    } else {
                        (Seq::empty(), JsonView::Null)
                    },
            ),
        ),
    }
}

impl View for Json {
    type V = JsonView;

    open spec fn view(&self) -> JsonView {
        json_view(*self)
    }
}

/// The members of an object.
pub open spec fn members(v: Seq<(String, Json)>) -> Seq<(Seq<char>, JsonView)> {
    v.map_values(|m: (String, Json)| (m.0@, m.1@))
}

/// The elements of an array.
pub open spec fn elements(v: Seq<Json>) -> Seq<JsonView> {
    v.map_values(|j: Json| j@)
}

pub proof fn lemma_object_view(v: Vec<(String, Json)>)
    ensures
        json_view(Json::Object(v)) == JsonView::Object(members(v@)),
{
    assert(json_view(Json::Object(v))->Object_0 =~= members(v@));
}

pub proof fn lemma_array_view(v: Vec<Json>)
    ensures
        json_view(Json::Array(v)) == JsonView::Array(elements(v@)),
{
    assert(json_view(Json::Array(v))->Array_0 =~= elements(v@));
}

// ---------------------------------------------------------------------------
// Parsing

/// The value that a text in JSON stands for, or what is wrong with the text.
pub uninterp spec fn json_read(bytes: Seq<u8>) -> Result<JsonView, Seq<char>>;

/// The value that a text in JSON stands for.
pub open spec fn json_of_bytes(bytes: Seq<u8>) -> Option<JsonView> {
    match json_read(bytes) {
        Ok(j) => Some(j),
        Err(_) => None,
    }
}

/// What a value of `serde_json` consists of.
pub uninterp spec fn value_tree(v: serde_json::Value) -> JsonView;

/// `serde_json::Value`, a JSON value.
#[verifier::external_type_specification]
#[verifier::external_body]
pub struct ExJsonValue(serde_json::Value);

/// `serde_json::from_slice`: the value that the bytes stand for, or, if they are
/// no JSON text, the message of the error.
#[verifier::external_body]
fn parse_value(bytes: &[u8]) -> (r: Result<serde_json::Value, String>)
    ensures
        match r {
            Ok(v) => json_read(bytes@) == Ok::<JsonView, Seq<char>>(value_tree(v)),
            Err(t) => json_read(bytes@) == Err::<JsonView, Seq<char>>(t@),
        },
{
    serde_json::from_slice(bytes).map_err(|e: serde_json::Error| e.to_string())
}

/// The variants of a `serde_json::Value`, one for one. A number is taken by the
/// text that `serde_json` prints for it.
#[verifier::external_body]
fn tree_of(value: serde_json::Value) -> (r: Json)
    ensures
        r@ == value_tree(value),
{
    match value {
        serde_json::Value::Null => Json::Null,
        serde_json::Value::Bool(b) => Json::Bool(b),
        serde_json::Value::Number(n) => Json::Number(n.to_string()),
        serde_json::Value::String(s) => Json::Str(s),
        serde_json::Value::Array(a) => Json::Array(a.into_iter().map(tree_of).collect()),
        serde_json::Value::Object(m) => Json::Object(
            m.into_iter().map(|(k, v)| (k, tree_of(v))).collect(),
        ),
    }
}

/// The value that a text in JSON stands for, or what is wrong with the text.
pub fn read(bytes: &[u8]) -> (r: Result<Json, String>)
    ensures
        match r {
            Ok(j) => json_read(bytes@) == Ok::<JsonView, Seq<char>>(j@),
            Err(t) => json_read(bytes@) == Err::<JsonView, Seq<char>>(t@),
        },
{
    match parse_value(bytes) {
        Ok(v) => Ok(tree_of(v)),
        Err(t) => Err(t),
    }
}

/// The value that a text in JSON stands for.
pub fn parse(bytes: &[u8]) -> (r: Option<Json>)
    ensures
        match r {
            Some(j) => json_of_bytes(bytes@) == Some(j@),
            None => json_of_bytes(bytes@) is None,
        },
{
    match read(bytes) {
        Ok(j) => Some(j),
        Err(_) => None,
    }
}

// ---------------------------------------------------------------------------
// Reading with every member kept
//
// A `serde_json::Value` holds one member for each name. Here an object keeps all
// its members, so that a name that stands there twice is seen.

/// The value that the bytes begin with, and how many bytes it takes.
pub uninterp spec fn leading_value(bytes: Seq<u8>) -> Option<(JsonView, nat)>;

/// `serde_json::StreamDeserializer`: the first value of the bytes, and its
/// `byte_offset`, which is the number of bytes up to the end of the value. There
/// is none if the bytes do not begin with a value.
#[verifier::external_body]
fn first_value(bytes: &[u8]) -> (r: Option<(serde_json::Value, usize)>)
    ensures
        match r {
            Some((v, n)) => leading_value(bytes@) == Some((value_tree(v), n as nat)) && n
                <= bytes@.len(),
            None => leading_value(bytes@) is None,
        },
{
    let mut values = serde_json::Deserializer::from_slice(bytes).into_iter();
    let first = values.next()?.ok()?;
    Some((first, values.byte_offset()))
}

/// White space between the parts of a text.
pub open spec fn is_space(b: u8) -> bool {
    b == 32 || b == 10 || b == 13 || b == 9
}

/// The first position from `i` on that holds no white space.
pub open spec fn past_space(b: Seq<u8>, i: int) -> int
    decreases b.len() - i,
{
    if 0 <= i < b.len() && is_space(b[i]) {
        past_space(b, i + 1)
    } else {
        i
    }
}

/// The byte behind white space from `i` on is `c`.
pub open spec fn goes_on_with(b: Seq<u8>, i: int, c: u8) -> bool {
    0 <= past_space(b, i) < b.len() && b[past_space(b, i)] == c
}

/// The value at `i` that is no container, and the position behind it.
pub open spec fn simple_value(b: Seq<u8>, i: int) -> Option<(JsonView, int)> {
    match leading_value(b.subrange(i, b.len() as int)) {
        Some((v, n)) => Some((v, i + n)),
        None => None,
    }
}

/// The name of a member that begins at `i`, and the position behind its colon.
pub open spec fn name_at(b: Seq<u8>, i: int) -> Option<(Seq<char>, int)> {
    let s = past_space(b, i);
    match simple_value(b, s) {
        Some((JsonView::Str(k), e)) => if goes_on_with(b, e, 58) {
            Some((k, past_space(b, e) + 1))
        } else {
            None
        },
        _ => None,
    }
}

/// The value that begins at `i`, with all members of its objects, and the
/// position behind it.
pub open spec fn kept_value(b: Seq<u8>, i: int) -> Option<(JsonView, int)>
    decreases b.len() - i, 1int,
{
    let s = past_space(b, i);
    if !(0 <= i <= s < b.len()) {
        None
    } else if b[s] == 123 {
        if goes_on_with(b, s + 1, 125) {
            Some((JsonView::Object(Seq::empty()), past_space(b, s + 1) + 1))
        } else {
            match kept_members(b, s + 1, Seq::empty()) {
                Some((m, e)) => Some((JsonView::Object(m), e)),
                None => None,
            }
        }
    } else if b[s] == 91 {
        if goes_on_with(b, s + 1, 93) {
            Some((JsonView::Array(Seq::empty()), past_space(b, s + 1) + 1))
        } else {
            match kept_elements(b, s + 1, Seq::empty()) {
                Some((a, e)) => Some((JsonView::Array(a), e)),
                None => None,
            }
        }
    } else {
        simple_value(b, s)
    }
}

/// The members of an object behind those that were read, from `i` on, and the
/// position behind the object.
pub open spec fn kept_members(
    b: Seq<u8>,
    i: int,
    m: Seq<(Seq<char>, JsonView)>,
) -> Option<(Seq<(Seq<char>, JsonView)>, int)>
    decreases b.len() - i, 0int,
{
    match name_at(b, i) {
        Some((k, p)) => if !(0 <= i < p <= b.len()) {
            None
        } else {
            match kept_value(b, p) {
                Some((v, e)) => {
                    let s = past_space(b, e);
                    if !(i < s < b.len()) {
                        None
                    } else if b[s] == 44 {
                        kept_members(b, s + 1, m.push((k, v)))
                    } else if b[s] == 125 {
                        Some((m.push((k, v)), s + 1))
                    } else {
                        None
                    }
                },
                None => None,
            }
        },
        None => None,
    }
}

/// The elements of an array behind those that were read, from `i` on, and the
/// position behind the array.
pub open spec fn kept_elements(b: Seq<u8>, i: int, a: Seq<JsonView>) -> Option<
    (Seq<JsonView>, int),
>
    decreases b.len() - i, 2int,
{
    if !(0 <= i <= b.len()) {
        None
    } else {
        match kept_value(b, i) {
            Some((v, e)) => {
                let s = past_space(b, e);
                if !(i <= s < b.len()) {
                    None
                } else if b[s] == 44 {
                    kept_elements(b, s + 1, a.push(v))
                } else if b[s] == 93 {
                    Some((a.push(v), s + 1))
                } else {
                    None
                }
            },
            None => None,
        }
    }
}

/// The value that a text in JSON stands for, with all members of its objects, or
/// what is wrong with the text.
pub open spec fn kept_read(bytes: Seq<u8>) -> Result<JsonView, Seq<char>> {
    match json_read(bytes) {
        Ok(j) => match kept_value(bytes, 0) {
            Some((k, _)) => Ok(k),
            None => Ok(j),
        },
        Err(t) => Err(t),
    }
}

/// The value that a text in JSON stands for, with all members of its objects.
pub open spec fn kept_of_bytes(bytes: Seq<u8>) -> Option<JsonView> {
    match kept_read(bytes) {
        Ok(j) => Some(j),
        Err(_) => None,
    }
}

fn skip_space(b: &[u8], i: usize) -> (r: usize)
    requires
        i <= b@.len(),
    ensures
        r == past_space(b@, i as int),
        i <= r <= b@.len(),
{
    let mut k: usize = i;
    while k < b.len() && (b[k] == 32 || b[k] == 10 || b[k] == 13 || b[k] == 9)
        invariant
            i <= k <= b@.len(),
            past_space(b@, i as int) == past_space(b@, k as int),
        decreases b@.len() - k,
    {
        k += 1;
    }
    k
}

fn read_simple(b: &[u8], i: usize) -> (r: Option<(Json, usize)>)
    requires
        i <= b@.len(),
    ensures
        match r {
            Some((j, e)) => simple_value(b@, i as int) == Some((j@, e as int)) && i <= e
                <= b@.len(),
            None => simple_value(b@, i as int) is None,
        },
{
    let rest = vstd::slice::slice_subrange(b, i, b.len());
    match first_value(rest) {
        Some((v, n)) => Some((tree_of(v), i + n)),
        None => None,
    }
}

fn read_name(b: &[u8], i: usize) -> (r: Option<(String, usize)>)
    requires
        i <= b@.len(),
    ensures
        match r {
            Some((k, p)) => name_at(b@, i as int) == Some((k@, p as int)) && p <= b@.len(),
            None => name_at(b@, i as int) is None,
        },
{
    let s = skip_space(b, i);
    match read_simple(b, s) {
        Some((Json::Str(k), e)) => {
            let c = skip_space(b, e);
            if c < b.len() && b[c] == 58 {
                Some((k, c + 1))
            } else {
                None
            }
        },
        _ => None,
    }
}

fn read_kept_at(b: &[u8], i: usize) -> (r: Option<(Json, usize)>)
    requires
        i <= b@.len(),
    ensures
        match r {
            Some((j, e)) => kept_value(b@, i as int) == Some((j@, e as int)) && e <= b@.len(),
            None => kept_value(b@, i as int) is None,
        },
    decreases b@.len() - i,
{
    let s = skip_space(b, i);
    if s >= b.len() {
        return None;
    }
    if b[s] == 123 {
        let mut m: Vec<(String, Json)> = Vec::new();
        assert(members(m@) =~= Seq::empty());
        let first = skip_space(b, s + 1);
        if first < b.len() && b[first] == 125 {
            proof {
                lemma_object_view(m);
            }
            return Some((Json::Object(m), first + 1));
        }
        let mut p: usize = s + 1;
        loop
            invariant
                i <= s < p <= b@.len(),
                i as int <= s as int,
                s == past_space(b@, i as int),
                b@[s as int] == 123,
                !goes_on_with(b@, s + 1, 125),
                kept_members(b@, s + 1, Seq::empty()) == kept_members(
                    b@,
                    p as int,
                    members(m@),
                ),
            decreases b@.len() - p,
        {
            let (k, v) = match read_name(b, p) {
                Some(x) => x,
                None => {
                    return None;
                },
            };
            if v <= p {
                return None;
            }
            let (value, e) = match read_kept_at(b, v) {
                Some(x) => x,
                None => {
                    return None;
                },
            };
            let c = skip_space(b, e);
            if c <= p || c >= b.len() {
                return None;
            }
            let ghost before = members(m@);
            let last: bool = b[c] == 125;
            if !last && b[c] != 44 {
                return None;
            }
            m.push((k, value));
            assert(members(m@) =~= before.push((k@, value@)));
            if last {
                proof {
                    lemma_object_view(m);
                }
                return Some((Json::Object(m), c + 1));
            }
            p = c + 1;
        }
    }
    if b[s] == 91 {
        let mut a: Vec<Json> = Vec::new();
        assert(elements(a@) =~= Seq::empty());
        let first = skip_space(b, s + 1);
        if first < b.len() && b[first] == 93 {
            proof {
                lemma_array_view(a);
            }
            return Some((Json::Array(a), first + 1));
        }
        let mut p: usize = s + 1;
        loop
            invariant
                i <= s < p <= b@.len(),
                s == past_space(b@, i as int),
                b@[s as int] == 91,
                !goes_on_with(b@, s + 1, 93),
                kept_elements(b@, s + 1, Seq::empty()) == kept_elements(
                    b@,
                    p as int,
                    elements(a@),
                ),
            decreases b@.len() - p,
        {
            let (value, e) = match read_kept_at(b, p) {
                Some(x) => x,
                None => {
                    return None;
                },
            };
            let c = skip_space(b, e);
            if c < p || c >= b.len() {
                return None;
            }
            let ghost before = elements(a@);
            let last: bool = b[c] == 93;
            if !last && b[c] != 44 {
                return None;
            }
            a.push(value);
            assert(elements(a@) =~= before.push(value@));
            if last {
                proof {
                    lemma_array_view(a);
                }
                return Some((Json::Array(a), c + 1));
            }
            p = c + 1;
        }
    }
    read_simple(b, s)
}

/// The value that a text in JSON stands for, with all members of its objects, or
/// what is wrong with the text.
pub fn read_kept(bytes: &[u8]) -> (r: Result<Json, String>)
    ensures
        match r {
            Ok(j) => kept_read(bytes@) == Ok::<JsonView, Seq<char>>(j@),
            Err(t) => kept_read(bytes@) == Err::<JsonView, Seq<char>>(t@),
        },
{
    match read(bytes) {
        Ok(j) => match read_kept_at(bytes, 0) {
            Some((k, _)) => Ok(k),
            None => Ok(j),
        },
        Err(t) => Err(t),
    }
}

// ---------------------------------------------------------------------------
// Printing

/// The decimal text of an integer.
pub open spec fn integer_text(n: int) -> Seq<char> {
    if n < 0 {
        "-"@ + text::decimal((0 - n) as nat)
    } else {
        text::decimal(n as nat)
    }
}

/// A number's text stands for an integer that 64 bits hold, signed or not.
pub open spec fn is_integer(t: Seq<char>) -> bool {
    exists|n: int| i64::MIN <= n <= u64::MAX && t == #[trigger] integer_text(n)
}

/// A value in which every number is an integer, every object has different
/// names, and containers lie at most `d` deep in each other.
pub open spec fn plain(j: JsonView, d: nat) -> bool
    decreases d,
{
    match j {
        JsonView::Null => true,
        JsonView::Bool(_) => true,
        JsonView::Number(t) => is_integer(t),
        JsonView::Str(_) => true,
        JsonView::Array(a) => d > 0 && forall|i: int|
            0 <= i < a.len() ==> plain(#[trigger] a[i], (d - 1) as nat),
        JsonView::Object(m) => d > 0 && (forall|i: int|
            0 <= i < m.len() ==> plain((#[trigger] m[i]).1, (d - 1) as nat)) && (forall|i: int, j: int|
            0 <= i < j < m.len() ==> #[trigger] m[i].0 != #[trigger] m[j].0),
    }
}

/// How deep the containers of a text may lie in each other to be read.
pub const MAX_DEPTH: usize = 127;

/// What `serde_json` holds for a value: its numbers are read from their texts
/// and printed anew. Nothing if a number's text is none.
pub uninterp spec fn held_as(j: JsonView) -> Option<JsonView>;

/// The text over several lines that `serde_json` prints for a value.
pub uninterp spec fn pretty_of(j: JsonView) -> Seq<char>;

/// The variants of `serde_json::Value` for a value, one for one. A number goes
/// through `serde_json::Number`'s `from_str`, which takes an integer of 64 bits
/// as it is. Nothing is said of what it makes of other numbers.
#[verifier::external_body]
fn value_of(j: &Json) -> (r: Option<serde_json::Value>)
    ensures
        match r {
            Some(v) => held_as(j@) == Some(value_tree(v)),
            None => held_as(j@) is None,
        },
        plain(j@, MAX_DEPTH as nat) ==> r is Some && value_tree(r->0) == j@,
{
    match j {
        Json::Null => Some(serde_json::Value::Null),
        Json::Bool(b) => Some(serde_json::Value::Bool(*b)),
        Json::Number(t) => t.parse().ok().map(serde_json::Value::Number),
        Json::Str(s) => Some(serde_json::Value::String(s.clone())),
        Json::Array(a) => a.iter().map(value_of).collect::<Option<_>>().map(serde_json::Value::Array),
        Json::Object(m) => m.iter().map(
            |(k, v)| value_of(v).map(|x| (k.clone(), x)),
        ).collect::<Option<_>>().map(serde_json::Value::Object),
    }
}

/// `serde_json::to_string_pretty`, which does not fail on a value: the text of
/// the value. It is read back, also with a line break behind it, where the
/// numbers are integers, no name stands twice in an object and the containers are
/// not too deep for the reader: as one value, and member by member, for each
/// member is printed once and followed by a comma or the end of its container.
#[verifier::external_body]
fn print_value(v: &serde_json::Value) -> (r: String)
    ensures
        r@ == pretty_of(value_tree(*v)),
        plain(value_tree(*v), MAX_DEPTH as nat) ==> json_of_bytes(vstd::utf8::encode_utf8(r@))
            == Some(value_tree(*v)) && kept_of_bytes(vstd::utf8::encode_utf8(r@)) == Some(value_tree(*v)),
        plain(value_tree(*v), MAX_DEPTH as nat) ==> json_of_bytes(
            vstd::utf8::encode_utf8(r@.push('\n')),
        ) == Some(value_tree(*v)) && kept_of_bytes(vstd::utf8::encode_utf8(r@.push('\n'))) == Some(value_tree(*v)),
{
    serde_json::to_string_pretty(v).unwrap()
}

/// The text of a file that holds a value: a line break ends it.
pub open spec fn file_text(j: JsonView) -> Seq<char> {
    let t = pretty_of(j);
    if text::ends(t, "\n"@) {
        t
    } else {
        t.push('\n')
    }
}

/// The text over several lines that stands for a value; nothing if one of its
/// numbers is none.
pub fn pretty(j: &Json) -> (r: Option<String>)
    ensures
        match r {
            Some(t) => held_as(j@) matches Some(v) && t@ == pretty_of(v),
            None => held_as(j@) is None,
        },
        plain(j@, MAX_DEPTH as nat) ==> (r matches Some(t) && json_of_bytes(
            vstd::utf8::encode_utf8(t@),
        ) == Some(j@) && kept_of_bytes(vstd::utf8::encode_utf8(t@)) == Some(j@)),
{
    match value_of(j) {
        Some(v) => Some(print_value(&v)),
        None => None,
    }
}

/// The text of a file that holds a value; nothing if one of its numbers is
/// none. What was written is read back.
pub fn to_file(j: &Json) -> (r: Option<String>)
    ensures
        match r {
            Some(t) => held_as(j@) matches Some(v) && t@ == file_text(v),
            None => held_as(j@) is None,
        },
        plain(j@, MAX_DEPTH as nat) ==> (r matches Some(t) && json_of_bytes(
            vstd::utf8::encode_utf8(t@),
        ) == Some(j@) && kept_of_bytes(vstd::utf8::encode_utf8(t@)) == Some(j@)),
{
    match value_of(j) {
        Some(v) => {
            let mut t = print_value(&v);
            if !text::ends_with(t.as_str(), "\n") {
                t.push('\n');
            }
            Some(t)
        },
        None => None,
    }
}

// ---------------------------------------------------------------------------
// Reading

/// The first member with the name `k`.
pub open spec fn member(m: Seq<(Seq<char>, JsonView)>, k: Seq<char>) -> Option<JsonView> {
    crate::collections::lookup(m, k)
}

/// The member `k` of an object; nothing for any other value.
pub open spec fn get_of(j: JsonView, k: Seq<char>) -> Option<JsonView> {
    match j {
        JsonView::Object(m) => member(m, k),
        _ => None,
    }
}

/// The text of a string; nothing for any other value.
pub open spec fn str_of(j: JsonView) -> Option<Seq<char>> {
    match j {
        JsonView::Str(s) => Some(s),
        _ => None,
    }
}

/// The text of an optional string.
pub open spec fn opt_str_of(j: Option<JsonView>) -> Option<Seq<char>> {
    match j {
        Some(v) => str_of(v),
        None => None,
    }
}

/// The first member of a list with the name `k`.
pub fn find_member<'a>(v: &'a Vec<(String, Json)>, k: &str) -> (r: Option<&'a Json>)
    ensures
        match r {
            Some(j) => member(members(v@), k@) == Some(j@),
            None => member(members(v@), k@) is None,
        },
{
    let n: usize = v.len();
    let mut i: usize = 0;
    let ghost m = members(v@);
    assert(m.skip(0) =~= m);
    while i < n
        invariant
            i <= n,
            n == v@.len(),
            m == members(v@),
            member(m, k@) == member(m.skip(i as int), k@),
        decreases n - i,
    {
        assert(m.skip(i as int)[0] == (v@[i as int].0@, v@[i as int].1@));
        if text::same(v[i].0.as_str(), k) {
            return Some(&v[i].1);
        }
        assert(m.skip(i as int).skip(1) =~= m.skip(i + 1));
        i += 1;
    }
    None
}

impl Json {
    /// The member `k` of an object.
    pub fn get(&self, k: &str) -> (r: Option<&Json>)
        ensures
            match r {
                Some(j) => get_of(self@, k@) == Some(j@),
                None => get_of(self@, k@) is None,
            },
    {
        match self {
            Json::Object(v) => {
                proof {
                    lemma_object_view(*v);
                }
                find_member(v, k)
            },
            _ => None,
        }
    }

    /// The text of a string.
    pub fn as_str(&self) -> (r: Option<&str>)
        ensures
            text::opt_view(r) == str_of(self@),
    {
        match self {
            Json::Str(s) => Some(s.as_str()),
            _ => None,
        }
    }

    /// The truth value of a boolean.
    pub fn as_bool(&self) -> (r: Option<bool>)
        ensures
            r == match self@ {
                JsonView::Bool(b) => Some(b),
                _ => None,
            },
    {
        match self {
            Json::Bool(b) => Some(*b),
            _ => None,
        }
    }

    pub fn is_array(&self) -> (r: bool)
        ensures
            r == (self@ is Array),
    {
        match self {
            Json::Array(_) => true,
            _ => false,
        }
    }

    pub fn is_object(&self) -> (r: bool)
        ensures
            r == (self@ is Object),
    {
        match self {
            Json::Object(_) => true,
            _ => false,
        }
    }

    /// A copy of the value.
    pub fn copy(&self) -> (r: Json)
        ensures
            r@ == self@,
        decreases self,
    {
        match self {
            Json::Null => Json::Null,
            Json::Bool(b) => Json::Bool(*b),
            Json::Number(s) => Json::Number(s.clone()),
            Json::Str(s) => Json::Str(s.clone()),
            Json::Array(v) => {
                let n: usize = v.len();
                let mut out: Vec<Json> = Vec::new();
                let mut i: usize = 0;
                while i < n
                    invariant
                        i <= n,
                        n == v@.len(),
                        *self == Json::Array(*v),
                        out@.len() == i,
                        forall|j: int| 0 <= j < i ==> (#[trigger] out@[j])@ == v@[j]@,
                    decreases n - i,
                {
                    assert(decreases_to!(*self => self->Array_0));
                    assert(decreases_to!(self->Array_0 => self->Array_0[i as int]));
                    out.push(v[i].copy());
                    i += 1;
                }
                proof {
                    lemma_array_view(*v);
                    lemma_array_view(out);
                    assert(elements(out@) =~= elements(v@));
                }
                Json::Array(out)
            },
            Json::Object(v) => {
                let n: usize = v.len();
                let mut out: Vec<(String, Json)> = Vec::new();
                let mut i: usize = 0;
                while i < n
                    invariant
                        i <= n,
                        n == v@.len(),
                        *self == Json::Object(*v),
                        out@.len() == i,
                        forall|j: int|
                            0 <= j < i ==> (#[trigger] out@[j]).0@ == v@[j].0@ && out@[j].1@
                                == v@[j].1@,
                    decreases n - i,
                {
                    assert(decreases_to!(*self => self->Object_0));
                    assert(decreases_to!(self->Object_0 => self->Object_0[i as int]));
                    assert(decreases_to!(self->Object_0[i as int] => self->Object_0[i as int].1));
                    out.push((v[i].0.clone(), v[i].1.copy()));
                    i += 1;
                }
                proof {
                    lemma_object_view(*v);
                    lemma_object_view(out);
                    assert(members(out@) =~= members(v@));
                }
                Json::Object(out)
            },
        }
    }
}

// ---------------------------------------------------------------------------
// Changing the members of an object

/// The members after `k` was given the value `v`: in its place, or behind all
/// others.
pub open spec fn with_member(
    m: Seq<(Seq<char>, JsonView)>,
    k: Seq<char>,
    v: JsonView,
) -> Seq<(Seq<char>, JsonView)>
    decreases m.len(),
{
    if m.len() == 0 {
        seq![(k, v)]
    } else if m[0].0 == k {
        seq![(k, v)] + m.skip(1)
    } else {
        seq![m[0]] + with_member(m.skip(1), k, v)
    }
}

pub proof fn lemma_member_with(
    m: Seq<(Seq<char>, JsonView)>,
    k: Seq<char>,
    v: JsonView,
    q: Seq<char>,
)
    ensures
        member(with_member(m, k, v), q) == if q == k {
            Some(v)
        } else {
            member(m, q)
        },
    decreases m.len(),
{
    let r = with_member(m, k, v);
    if m.len() == 0 {
        assert(r.skip(1) =~= m);
    } else if m[0].0 == k {
        assert(r.skip(1) =~= m.skip(1));
    } else {
        assert(r.skip(1) =~= with_member(m.skip(1), k, v));
        lemma_member_with(m.skip(1), k, v, q);
    }
}

/// The position of a member.
pub open spec fn member_index(m: Seq<(Seq<char>, JsonView)>, k: Seq<char>) -> Option<int>
    decreases m.len(),
{
    if m.len() == 0 {
        None
    } else if m[0].0 == k {
        Some(0)
    } else {
        match member_index(m.skip(1), k) {
            Some(i) => Some(i + 1),
            None => None,
        }
    }
}

/// The members without `k`, in whose place the last one comes.
pub open spec fn without_member(
    m: Seq<(Seq<char>, JsonView)>,
    k: Seq<char>,
) -> Seq<(Seq<char>, JsonView)> {
    match member_index(m, k) {
        Some(i) => m.update(i, m.last()).drop_last(),
        None => m,
    }
}

/// The position of a member.
pub fn find_index(v: &Vec<(String, Json)>, k: &str) -> (r: Option<usize>)
    ensures
        match r {
            Some(i) => i < v@.len() && member_index(members(v@), k@) == Some(i as int)
                && v@[i as int].0@ == k@ && member(members(v@), k@) == Some(
                v@[i as int].1@,
            ),
            None => member_index(members(v@), k@) is None && member(
                members(v@),
                k@,
            ) is None,
        },
{
    let ghost m = members(v@);
    let n: usize = v.len();
    let mut i: usize = 0;
    assert(m.skip(0) =~= m);
    while i < n
        invariant
            i <= n,
            n == v@.len(),
            m == members(v@),
            member(m, k@) == member(m.skip(i as int), k@),
            member_index(m, k@) == match member_index(m.skip(i as int), k@) {
                Some(j) => Some(j + i),
                None => None,
            },
        decreases n - i,
    {
        assert(m.skip(i as int)[0] == (v@[i as int].0@, v@[i as int].1@));
        assert(m.skip(i as int).skip(1) =~= m.skip(i + 1));
        if text::same(v[i].0.as_str(), k) {
            return Some(i);
        }
        i += 1;
    }
    None
}

pub proof fn lemma_with_member_at(
    m: Seq<(Seq<char>, JsonView)>,
    k: Seq<char>,
    v: JsonView,
)
    ensures
        with_member(m, k, v) == match member_index(m, k) {
            Some(i) => m.update(i, (k, v)),
            None => m.push((k, v)),
        },
        member_index(m, k) matches Some(i) ==> 0 <= i < m.len(),
    decreases m.len(),
{
    if m.len() == 0 {
        assert(with_member(m, k, v) =~= m.push((k, v)));
    } else if m[0].0 == k {
        assert(with_member(m, k, v) =~= m.update(0, (k, v)));
    } else {
        lemma_with_member_at(m.skip(1), k, v);
        match member_index(m.skip(1), k) {
            Some(i) => {
                assert(with_member(m, k, v) =~= m.update(i + 1, (k, v)));
            },
            None => {
                assert(with_member(m, k, v) =~= m.push((k, v)));
            },
        }
    }
}

/// The members without `k`.
pub fn remove_member(map: Vec<(String, Json)>, k: &str) -> (r: Vec<(String, Json)>)
    ensures
        members(r@) == without_member(members(map@), k@),
{
    let mut out = map;
    if let Some(i) = find_index(&out, k) {
        let ghost m = members(out@);
        let _ = out.swap_remove(i);
        assert(members(out@) =~= m.update(i as int, m.last()).drop_last());
    }
    out
}

/// The members after `k` was given the value `v`.
pub fn put_member(map: Vec<(String, Json)>, k: &str, v: Json) -> (r: Vec<(String, Json)>)
    ensures
        members(r@) == with_member(members(map@), k@, v@),
{
    let mut out = map;
    let ghost m = members(out@);
    proof {
        lemma_with_member_at(m, k@, v@);
    }
    match find_index(&out, k) {
        Some(i) => {
            out.set(i, (String::from_str(k), v));
            assert(members(out@) =~= m.update(i as int, (k@, v@)));
        },
        None => {
            out.push((String::from_str(k), v));
            assert(members(out@) =~= m.push((k@, v@)));
        },
    }
    out
}

// ---------------------------------------------------------------------------
// One member for each name

/// The members with one for each name: a later value takes the place of an
/// earlier one.
pub open spec fn merged(m: Seq<(Seq<char>, JsonView)>) -> Seq<(Seq<char>, JsonView)>
    decreases m.len(),
{
    if m.len() == 0 {
        m
    } else {
        with_member(merged(m.drop_last()), m.last().0, m.last().1)
    }
}

/// A value with one member for each name in all its objects.
pub open spec fn settled(j: JsonView) -> JsonView
    decreases j,
{
    match j {
        JsonView::Array(a) => JsonView::Array(settled_list(a)),
        JsonView::Object(m) => JsonView::Object(merged(settled_members(m))),
        other => other,
    }
}

/// The elements of a list, each with one member for each name.
pub open spec fn settled_list(a: Seq<JsonView>) -> Seq<JsonView>
    decreases a,
{
    if a.len() == 0 {
        a
    } else {
        settled_list(a.drop_last()).push(settled(a[a.len() - 1]))
    }
}

/// The members of an object, each with one member for each name.
pub open spec fn settled_members(m: Seq<(Seq<char>, JsonView)>) -> Seq<(Seq<char>, JsonView)>
    decreases m,
{
    if m.len() == 0 {
        m
    } else {
        settled_members(m.drop_last()).push((m[m.len() - 1].0, settled(m[m.len() - 1].1)))
    }
}

pub proof fn lemma_settled_list(a: Seq<JsonView>)
    ensures
        settled_list(a).len() == a.len(),
        forall|i: int| 0 <= i < a.len() ==> #[trigger] settled_list(a)[i] == settled(a[i]),
    decreases a.len(),
{
    if a.len() > 0 {
        lemma_settled_list(a.drop_last());
    }
}

pub proof fn lemma_settled_members(m: Seq<(Seq<char>, JsonView)>)
    ensures
        settled_members(m).len() == m.len(),
        forall|i: int|
            0 <= i < m.len() ==> #[trigger] settled_members(m)[i] == (m[i].0, settled(m[i].1)),
    decreases m.len(),
{
    if m.len() > 0 {
        lemma_settled_members(m.drop_last());
    }
}

/// No name stands twice.
pub open spec fn distinct_names(m: Seq<(Seq<char>, JsonView)>) -> bool {
    forall|i: int, j: int| 0 <= i < j < m.len() ==> (#[trigger] m[i]).0 != (#[trigger] m[j]).0
}

/// Members of which no name stands twice stay as they are.
pub proof fn lemma_merged_distinct(m: Seq<(Seq<char>, JsonView)>)
    requires
        distinct_names(m),
    ensures
        merged(m) == m,
    decreases m.len(),
{
    if m.len() > 0 {
        let rest = m.drop_last();
        assert forall|i: int, j: int| 0 <= i < j < rest.len() implies (#[trigger] rest[i]).0 != (
        #[trigger] rest[j]).0 by {
            assert(m[i].0 != m[j].0);
        }
        lemma_merged_distinct(rest);
        let (k, v) = m.last();
        lemma_with_member_at(rest, k, v);
        lemma_index_holds(rest, k);
        if let Some(i) = member_index(rest, k) {
            assert(m[i].0 != m[m.len() - 1].0);
        }
        assert(merged(m) =~= m);
    }
}

proof fn lemma_index_holds(m: Seq<(Seq<char>, JsonView)>, k: Seq<char>)
    ensures
        match member_index(m, k) {
            Some(i) => 0 <= i < m.len() && m[i].0 == k,
            None => forall|i: int| 0 <= i < m.len() ==> (#[trigger] m[i]).0 != k,
        },
    decreases m.len(),
{
    if m.len() > 0 {
        lemma_index_holds(m.skip(1), k);
        if member_index(m, k) is None {
            assert forall|i: int| 0 <= i < m.len() implies (#[trigger] m[i]).0 != k by {
                if i > 0 {
                    assert(m.skip(1)[i - 1].0 != k);
                }
            }
        }
    }
}

/// Merged members have different names, and each is one of the members.
pub proof fn lemma_merged(m: Seq<(Seq<char>, JsonView)>)
    ensures
        distinct_names(merged(m)),
        forall|i: int|
            0 <= i < merged(m).len() ==> exists|j: int|
                0 <= j < m.len() && #[trigger] m[j] == #[trigger] merged(m)[i],
    decreases m.len(),
{
    if m.len() > 0 {
        let rest = merged(m.drop_last());
        let (k, v) = m.last();
        lemma_merged(m.drop_last());
        lemma_with_member_at(rest, k, v);
        lemma_index_holds(rest, k);
        let r = merged(m);
        assert forall|i: int| 0 <= i < r.len() implies exists|j: int|
            0 <= j < m.len() && #[trigger] m[j] == #[trigger] r[i] by {
            if i < rest.len() && member_index(rest, k) != Some(i) {
                assert(r[i] == rest[i]);
                let j = choose|j: int|
                    0 <= j < m.drop_last().len() && #[trigger] m.drop_last()[j] == rest[i];
                assert(m[j] == r[i]);
            } else {
                assert(m[m.len() - 1] == r[i]);
            }
        }
        assert forall|i: int, j: int| 0 <= i < j < r.len() implies (#[trigger] r[i]).0 != (
        #[trigger] r[j]).0 by {
            if j < rest.len() {
                assert(rest[i].0 != rest[j].0);
            } else {
                assert(rest[i].0 != k);
            }
        }
    }
}

/// To settle a value twice is to settle it once.
pub proof fn lemma_settled_twice(j: JsonView)
    ensures
        settled(settled(j)) == settled(j),
    decreases j,
{
    match j {
        JsonView::Array(a) => {
            lemma_settled_list(a);
            lemma_settled_list(settled_list(a));
            assert forall|i: int| 0 <= i < a.len() implies settled(
                #[trigger] settled_list(a)[i],
            ) == settled_list(a)[i] by {
                assert(decreases_to!(j => a));
                assert(decreases_to!(a => a[i]));
                lemma_settled_twice(a[i]);
            }
            assert(settled_list(settled_list(a)) =~= settled_list(a));
        },
        JsonView::Object(m) => {
            let s = settled_members(m);
            let r = merged(s);
            lemma_settled_members(m);
            lemma_settled_members(r);
            assert forall|i: int| 0 <= i < m.len() implies settled((#[trigger] s[i]).1) == s[i].1 by {
                assert(decreases_to!(j => m));
                assert(decreases_to!(m => m[i]));
                assert(decreases_to!(m[i] => m[i].1));
                lemma_settled_twice(m[i].1);
            }
            lemma_merged(s);
            assert forall|i: int| 0 <= i < r.len() implies settled_members(r)[i] == r[i] by {
                let q = choose|q: int| 0 <= q < s.len() && #[trigger] s[q] == r[i];
                assert(settled(s[q].1) == s[q].1);
            }
            assert(settled_members(r) =~= r);
            lemma_merged_distinct(r);
        },
        _ => {},
    }
}

impl Json {
    /// A copy of the value with one member for each name in all its objects.
    pub fn settle(&self) -> (r: Json)
        ensures
            r@ == settled(self@),
        decreases self,
    {
        match self {
            Json::Null => Json::Null,
            Json::Bool(b) => Json::Bool(*b),
            Json::Number(s) => Json::Number(s.clone()),
            Json::Str(s) => Json::Str(s.clone()),
            Json::Array(v) => {
                let n: usize = v.len();
                let mut out: Vec<Json> = Vec::new();
                let mut i: usize = 0;
                while i < n
                    invariant
                        i <= n,
                        n == v@.len(),
                        *self == Json::Array(*v),
                        out@.len() == i,
                        forall|j: int| 0 <= j < i ==> (#[trigger] out@[j])@ == settled(v@[j]@),
                    decreases n - i,
                {
                    assert(decreases_to!(*self => self->Array_0));
                    assert(decreases_to!(self->Array_0 => self->Array_0[i as int]));
                    out.push(v[i].settle());
                    i += 1;
                }
                proof {
                    lemma_array_view(*v);
                    lemma_array_view(out);
                    lemma_settled_list(elements(v@));
                    assert(elements(out@) =~= settled_list(elements(v@)));
                }
                Json::Array(out)
            },
            Json::Object(v) => {
                let n: usize = v.len();
                let ghost all = settled_members(members(v@));
                proof {
                    lemma_settled_members(members(v@));
                }
                let mut out: Vec<(String, Json)> = Vec::new();
                let mut i: usize = 0;
                assert(members(out@) =~= merged(all.take(0)));
                while i < n
                    invariant
                        i <= n,
                        n == v@.len(),
                        *self == Json::Object(*v),
                        all.len() == n,
                        forall|j: int|
                            0 <= j < n ==> #[trigger] all[j] == (v@[j].0@, settled(v@[j].1@)),
                        members(out@) == merged(all.take(i as int)),
                    decreases n - i,
                {
                    assert(decreases_to!(*self => self->Object_0));
                    assert(decreases_to!(self->Object_0 => self->Object_0[i as int]));
                    assert(decreases_to!(self->Object_0[i as int] => self->Object_0[i as int].1));
                    let value = v[i].1.settle();
                    proof {
                        assert(all.take(i + 1).drop_last() =~= all.take(i as int));
                        assert(all.take(i + 1).last() == (v@[i as int].0@, value@));
                    }
                    out = put_member(out, v[i].0.as_str(), value);
                    i += 1;
                }
                proof {
                    assert(all.take(n as int) =~= all);
                    lemma_object_view(*v);
                    lemma_object_view(out);
                }
                Json::Object(out)
            },
        }
    }
}

/// The text of the member `k`, where it is a string.
pub open spec fn text_at(j: JsonView, k: Seq<char>) -> Option<Seq<char>> {
    opt_str_of(get_of(j, k))
}

/// The text of the member `k`, where it is a string.
pub fn get_str<'a>(j: &'a Json, k: &str) -> (r: Option<&'a str>)
    ensures
        text::opt_view(r) == text_at(j@, k@),
{
    match j.get(k) {
        Some(v) => v.as_str(),
        None => None,
    }
}

/// A copy of an optional value.
pub fn copy_opt(j: &Option<Json>) -> (r: Option<Json>)
    ensures
        opt_json(r) == opt_json(*j),
{
    match j {
        Some(v) => Some(v.copy()),
        None => None,
    }
}

/// What an optional value consists of.
pub open spec fn opt_json(j: Option<Json>) -> Option<JsonView> {
    match j {
        Some(v) => Some(v@),
        None => None,
    }
}

} // verus!
