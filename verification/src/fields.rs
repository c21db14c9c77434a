//! Typed reading and writing of the members of JSON objects.
//!
//! A reader gives nothing where a member has the wrong type. A missing member
//! is an error only where it is required.

use crate::collections;
use crate::collections::StrMap;
use crate::json;
use crate::json::Json;
use crate::text;
use vstd::prelude::*;

verus! {

// ---------------------------------------------------------------------------
// Records

/// One of the names stands twice among the members.
pub open spec fn repeats(m: Seq<(Seq<char>, json::JsonView)>, names: Seq<Seq<char>>) -> bool {
    exists|i: int, j: int|
        0 <= i < j < m.len() && (#[trigger] m[i]).0 == (#[trigger] m[j]).0 && names.contains(m[i].0)
}

/// An object none of whose known members stands there twice.
pub open spec fn object_of(j: json::JsonView, names: Seq<Seq<char>>) -> Option<json::JsonView> {
    match j {
        json::JsonView::Object(m) => if repeats(m, names) {
            None
        } else {
            Some(j)
        },
        _ => None,
    }
}

/// The members that the elements of a list stand for, in the order of the names.
pub open spec fn listed(a: Seq<json::JsonView>, names: Seq<Seq<char>>) -> Seq<
    (Seq<char>, json::JsonView),
> {
    Seq::new(a.len(), |i: int| (names[i], a[i]))
}

/// A record: an object none of whose known members stands there twice, or a list
/// of the first of its members without their names.
pub open spec fn record_of(j: json::JsonView, names: Seq<Seq<char>>) -> Option<json::JsonView> {
    match j {
        json::JsonView::Array(a) => if a.len() <= names.len() {
            Some(json::JsonView::Object(listed(a, names)))
        } else {
            None
        },
        _ => object_of(j, names),
    }
}

/// A record of which a list has to hold all members.
pub open spec fn whole_record_of(j: json::JsonView, names: Seq<Seq<char>>) -> Option<
    json::JsonView,
> {
    if j is Array && j->Array_0.len() < names.len() {
        None
    } else {
        record_of(j, names)
    }
}

/// Whether one of the names stands twice among the members.
fn any_repeats(m: &Vec<(String, Json)>, names: &Vec<&str>) -> (r: bool)
    ensures
        r == repeats(json::members(m@), text::views(names@)),
{
    let ghost all = json::members(m@);
    let ghost known = text::views(names@);
    let n: usize = m.len();
    let mut i: usize = 0;
    while i < n
        invariant
            i <= n,
            n == m@.len(),
            all == json::members(m@),
            known == text::views(names@),
            forall|a: int, b: int|
                0 <= a < b < n && a < i && known.contains(all[a].0) ==> (#[trigger] all[a]).0 != (
                #[trigger] all[b]).0,
        decreases n - i,
    {
        assert(all[i as int].0 == m@[i as int].0@);
        if is_known(names, m[i].0.as_str()) {
            let mut k: usize = i + 1;
            while k < n
                invariant
                    i < k <= n,
                    n == m@.len(),
                    all == json::members(m@),
                    known == text::views(names@),
                    known.contains(all[i as int].0),
                    forall|b: int| i < b < k ==> all[i as int].0 != (#[trigger] all[b]).0,
                decreases n - k,
            {
                assert(all[k as int].0 == m@[k as int].0@);
                assert(all[i as int].0 == m@[i as int].0@);
                if text::same(m[i].0.as_str(), m[k].0.as_str()) {
                    return true;
                }
                k += 1;
            }
        }
        i += 1;
    }
    false
}

fn name_elements(a: &Vec<Json>, names: &Vec<&str>) -> (r: Json)
    requires
        a@.len() <= names@.len(),
    ensures
        r@ == json::JsonView::Object(listed(json::elements(a@), text::views(names@))),
{
    let n: usize = a.len();
    let mut out: Vec<(String, Json)> = Vec::new();
    let mut i: usize = 0;
    while i < n
        invariant
            i <= n,
            n == a@.len(),
            n <= names@.len(),
            out@.len() == i,
            forall|j: int|
                0 <= j < i ==> (#[trigger] out@[j]).0@ == names@[j]@ && out@[j].1@ == a@[j]@,
        decreases n - i,
    {
        out.push((String::from_str(names[i]), a[i].copy()));
        i += 1;
    }
    proof {
        json::lemma_object_view(out);
        assert(json::members(out@) =~= listed(json::elements(a@), text::views(names@)));
    }
    Json::Object(out)
}

/// Whether a value is an object none of whose known members stands there twice.
pub fn is_object_of(j: &Json, names: &Vec<&str>) -> (r: bool)
    ensures
        r == (object_of(j@, text::views(names@)) is Some),
{
    match j {
        Json::Object(m) => {
            proof {
                json::lemma_object_view(*m);
            }
            !any_repeats(m, names)
        },
        _ => false,
    }
}

/// A list as the record that it stands for; nothing if it is too long, or the
/// value is no list.
pub fn list_record(j: &Json, names: &Vec<&str>) -> (r: Option<Json>)
    ensures
        match r {
            Some(o) => j@ is Array && record_of(j@, text::views(names@)) == Some(o@),
            None => j@ is Array ==> record_of(j@, text::views(names@)) is None,
        },
{
    match j {
        Json::Array(a) => {
            proof {
                json::lemma_array_view(*a);
            }
            if a.len() <= names.len() {
                Some(name_elements(a, names))
            } else {
                None
            }
        },
        _ => None,
    }
}

/// A list as the record that it stands for; nothing if it does not hold all
/// members, or the value is no list.
pub fn whole_list_record(j: &Json, names: &Vec<&str>) -> (r: Option<Json>)
    ensures
        match r {
            Some(o) => j@ is Array && whole_record_of(j@, text::views(names@)) == Some(o@),
            None => j@ is Array ==> whole_record_of(j@, text::views(names@)) is None,
        },
{
    match j {
        Json::Array(a) => {
            proof {
                json::lemma_array_view(*a);
            }
            if a.len() == names.len() {
                Some(name_elements(a, names))
            } else {
                None
            }
        },
        _ => None,
    }
}

// ---------------------------------------------------------------------------
// Optional texts and truth values

/// An optional text: missing and `null` stand for none.
pub open spec fn opt_text_of(v: Option<json::JsonView>) -> Option<Option<Seq<char>>> {
    match v {
        None => Some(None),
        Some(json::JsonView::Null) => Some(None),
        Some(json::JsonView::Str(s)) => Some(Some(s)),
        _ => None,
    }
}

/// An optional truth value.
pub open spec fn opt_bool_of(v: Option<json::JsonView>) -> Option<Option<bool>> {
    match v {
        None => Some(None),
        Some(json::JsonView::Null) => Some(None),
        Some(json::JsonView::Bool(b)) => Some(Some(b)),
        _ => None,
    }
}

/// A value of any type: missing and `null` stand for none.
pub open spec fn opt_value_of(v: Option<json::JsonView>) -> Option<json::JsonView> {
    match v {
        Some(json::JsonView::Null) => None,
        Some(j) => Some(json::settled(j)),
        None => None,
    }
}

/// Reads a required text.
pub fn read_text(j: &Json, k: &str) -> (r: Option<String>)
    ensures
        text::opt_text(r) == json::text_at(j@, k@),
{
    match json::get_str(j, k) {
        Some(s) => Some(String::from_str(s)),
        None => None,
    }
}

/// Reads an optional text.
pub fn read_opt_text(j: &Json, k: &str) -> (r: Option<Option<String>>)
    ensures
        match r {
            Some(t) => opt_text_of(json::get_of(j@, k@)) == Some(text::opt_text(t)),
            None => opt_text_of(json::get_of(j@, k@)) is None,
        },
{
    match j.get(k) {
        None => Some(None),
        Some(Json::Null) => Some(None),
        Some(Json::Str(s)) => Some(Some(s.clone())),
        _ => None,
    }
}

/// Reads a text that has a default.
pub open spec fn text_or(v: Option<json::JsonView>, default: Seq<char>) -> Option<Seq<char>> {
    match v {
        None => Some(default),
        Some(json::JsonView::Str(s)) => Some(s),
        _ => None,
    }
}

/// Reads a text that has a default.
pub fn read_text_or(j: &Json, k: &str, default: &str) -> (r: Option<String>)
    ensures
        text::opt_text(r) == text_or(json::get_of(j@, k@), default@),
{
    match j.get(k) {
        None => Some(String::from_str(default)),
        Some(Json::Str(s)) => Some(s.clone()),
        _ => None,
    }
}

/// Reads an optional truth value.
pub fn read_opt_bool(j: &Json, k: &str) -> (r: Option<Option<bool>>)
    ensures
        r == opt_bool_of(json::get_of(j@, k@)),
{
    match j.get(k) {
        None => Some(None),
        Some(Json::Null) => Some(None),
        Some(Json::Bool(b)) => Some(Some(*b)),
        _ => None,
    }
}

/// A truth value that is false where it is missing.
pub open spec fn flag_of(v: Option<json::JsonView>) -> Option<bool> {
    match v {
        None => Some(false),
        Some(json::JsonView::Bool(b)) => Some(b),
        _ => None,
    }
}

/// Reads a truth value that is false where it is missing.
pub fn read_flag(j: &Json, k: &str) -> (r: Option<bool>)
    ensures
        r == flag_of(json::get_of(j@, k@)),
{
    match j.get(k) {
        None => Some(false),
        Some(Json::Bool(b)) => Some(*b),
        _ => None,
    }
}

/// Reads a value of any type.
pub fn read_opt_value(j: &Json, k: &str) -> (r: Option<Json>)
    ensures
        json::opt_json(r) == opt_value_of(json::get_of(j@, k@)),
{
    match j.get(k) {
        None => None,
        Some(Json::Null) => None,
        Some(v) => Some(v.settle()),
    }
}

// ---------------------------------------------------------------------------
// Lists

/// The texts of a list whose elements are all texts.
pub open spec fn texts_of(a: Seq<json::JsonView>) -> Option<Seq<Seq<char>>>
    decreases a.len(),
{
    if a.len() == 0 {
        Some(Seq::empty())
    } else {
        match (texts_of(a.drop_last()), a.last()) {
            (Some(rest), json::JsonView::Str(s)) => Some(rest.push(s)),
            _ => None,
        }
    }
}

/// A list of texts; missing stands for an empty one.
pub open spec fn text_list_of(v: Option<json::JsonView>) -> Option<Seq<Seq<char>>> {
    match v {
        None => Some(Seq::empty()),
        Some(json::JsonView::Array(a)) => texts_of(a),
        _ => None,
    }
}

proof fn lemma_texts_fail(a: Seq<json::JsonView>, i: int)
    requires
        0 <= i <= a.len(),
        texts_of(a.take(i)) is None,
    ensures
        texts_of(a) is None,
    decreases a.len() - i,
{
    if i < a.len() {
        assert(a.take(i + 1).drop_last() =~= a.take(i));
        lemma_texts_fail(a, i + 1);
    } else {
        assert(a.take(i) =~= a);
    }
}

/// The texts of a list.
pub fn list_texts(a: &Vec<Json>) -> (r: Option<Vec<String>>)
    ensures
        match r {
            Some(v) => texts_of(json::elements(a@)) == Some(text::texts(v@)),
            None => texts_of(json::elements(a@)) is None,
        },
{
    let ghost all = json::elements(a@);
    let mut out: Vec<String> = Vec::new();
    let n: usize = a.len();
    let mut i: usize = 0;
    assert(text::texts(out@) =~= Seq::empty());
    while i < n
        invariant
            i <= n,
            n == a@.len(),
            all == json::elements(a@),
            texts_of(all.take(i as int)) == Some(text::texts(out@)),
        decreases n - i,
    {
        proof {
            assert(all.take(i + 1).drop_last() =~= all.take(i as int));
            assert(all.take(i + 1).last() == a@[i as int]@);
        }
        match &a[i] {
            Json::Str(s) => {
                let ghost before = out@;
                out.push(s.clone());
                assert(text::texts(out@) =~= text::texts(before).push(s@));
            },
            _ => {
                proof {
                    lemma_texts_fail(all, i + 1);
                }
                return None;
            },
        }
        i += 1;
    }
    assert(all.take(n as int) =~= all);
    Some(out)
}

/// Reads a list of texts.
pub fn read_text_list(j: &Json, k: &str) -> (r: Option<Vec<String>>)
    ensures
        match r {
            Some(v) => text_list_of(json::get_of(j@, k@)) == Some(text::texts(v@)),
            None => text_list_of(json::get_of(j@, k@)) is None,
        },
{
    match j.get(k) {
        None => {
            let none: Vec<String> = Vec::new();
            assert(text::texts(none@) =~= Seq::empty());
            Some(none)
        },
        Some(Json::Array(a)) => {
            proof {
                json::lemma_array_view(*a);
            }
            list_texts(a)
        },
        _ => None,
    }
}

/// A list of values; missing stands for an empty one.
pub open spec fn value_list_of(v: Option<json::JsonView>) -> Option<Seq<json::JsonView>> {
    match v {
        None => Some(Seq::empty()),
        Some(json::JsonView::Array(a)) => Some(json::settled_list(a)),
        _ => None,
    }
}

/// A copy of a list of values, with one member for each name.
pub fn settle_values(a: &Vec<Json>) -> (r: Vec<Json>)
    ensures
        json::elements(r@) == json::settled_list(json::elements(a@)),
{
    let n: usize = a.len();
    let mut out: Vec<Json> = Vec::new();
    let mut i: usize = 0;
    while i < n
        invariant
            i <= n,
            n == a@.len(),
            out@.len() == i,
            forall|j: int| 0 <= j < i ==> (#[trigger] out@[j])@ == json::settled(a@[j]@),
        decreases n - i,
    {
        out.push(a[i].settle());
        i += 1;
    }
    proof {
        json::lemma_settled_list(json::elements(a@));
        assert(json::elements(out@) =~= json::settled_list(json::elements(a@)));
    }
    out
}

/// A copy of a list of values.
pub fn copy_values(a: &Vec<Json>) -> (r: Vec<Json>)
    ensures
        json::elements(r@) == json::elements(a@),
{
    let n: usize = a.len();
    let mut out: Vec<Json> = Vec::new();
    let mut i: usize = 0;
    while i < n
        invariant
            i <= n,
            n == a@.len(),
            out@.len() == i,
            forall|j: int| 0 <= j < i ==> (#[trigger] out@[j])@ == a@[j]@,
        decreases n - i,
    {
        out.push(a[i].copy());
        i += 1;
    }
    assert(json::elements(out@) =~= json::elements(a@));
    out
}

/// Reads a list of values.
pub fn read_value_list(j: &Json, k: &str) -> (r: Option<Vec<Json>>)
    ensures
        match r {
            Some(v) => value_list_of(json::get_of(j@, k@)) == Some(json::elements(v@)),
            None => value_list_of(json::get_of(j@, k@)) is None,
        },
{
    match j.get(k) {
        None => {
            let none: Vec<Json> = Vec::new();
            assert(json::elements(none@) =~= Seq::empty());
            Some(none)
        },
        Some(Json::Array(a)) => {
            proof {
                json::lemma_array_view(*a);
            }
            Some(settle_values(a))
        },
        _ => None,
    }
}

// ---------------------------------------------------------------------------
// Maps

/// The entries of an object whose members are all texts, ordered by key.
pub open spec fn links_of(m: Seq<(Seq<char>, json::JsonView)>) -> Option<
    Seq<(Seq<char>, Seq<char>)>,
>
    decreases m.len(),
{
    if m.len() == 0 {
        Some(Seq::empty())
    } else {
        match (links_of(m.drop_last()), m.last().1) {
            (Some(rest), json::JsonView::Str(s)) => Some(
                collections::inserted(rest, m.last().0, s),
            ),
            _ => None,
        }
    }
}

/// A map of texts; missing stands for an empty one.
pub open spec fn link_map_of(v: Option<json::JsonView>) -> Option<Seq<(Seq<char>, Seq<char>)>> {
    match v {
        None => Some(Seq::empty()),
        Some(json::JsonView::Object(m)) => links_of(m),
        _ => None,
    }
}

proof fn lemma_links_fail(m: Seq<(Seq<char>, json::JsonView)>, i: int)
    requires
        0 <= i <= m.len(),
        links_of(m.take(i)) is None,
    ensures
        links_of(m) is None,
    decreases m.len() - i,
{
    if i < m.len() {
        assert(m.take(i + 1).drop_last() =~= m.take(i));
        lemma_links_fail(m, i + 1);
    } else {
        assert(m.take(i) =~= m);
    }
}

/// The entries of an object whose members are all texts.
pub fn object_links(m: &Vec<(String, Json)>) -> (r: Option<StrMap<String>>)
    ensures
        match r {
            Some(v) => links_of(json::members(m@)) == Some(collections::link_pairs(v)),
            None => links_of(json::members(m@)) is None,
        },
{
    let ghost all = json::members(m@);
    let mut out: StrMap<String> = StrMap::new();
    let n: usize = m.len();
    let mut i: usize = 0;
    assert(collections::link_pairs(out) =~= Seq::empty());
    while i < n
        invariant
            i <= n,
            n == m@.len(),
            all == json::members(m@),
            links_of(all.take(i as int)) == Some(collections::link_pairs(out)),
        decreases n - i,
    {
        proof {
            assert(all.take(i + 1).drop_last() =~= all.take(i as int));
            assert(all.take(i + 1).last() == (m@[i as int].0@, m@[i as int].1@));
        }
        match &m[i].1 {
            Json::Str(s) => {
                proof {
                    collections::lemma_with_values(out@, m@[i as int].0@, *s, |s: String| s@);
                }
                out.insert(m[i].0.clone(), s.clone());
            },
            _ => {
                proof {
                    lemma_links_fail(all, i + 1);
                }
                return None;
            },
        }
        i += 1;
    }
    assert(all.take(n as int) =~= all);
    Some(out)
}

/// Reads a map of texts.
pub fn read_links(j: &Json, k: &str) -> (r: Option<StrMap<String>>)
    ensures
        match r {
            Some(v) => link_map_of(json::get_of(j@, k@)) == Some(collections::link_pairs(v)),
            None => link_map_of(json::get_of(j@, k@)) is None,
        },
{
    match j.get(k) {
        None => {
            let none: StrMap<String> = StrMap::new();
            assert(collections::link_pairs(none) =~= Seq::empty());
            Some(none)
        },
        Some(Json::Object(m)) => {
            proof {
                json::lemma_object_view(*m);
            }
            object_links(m)
        },
        _ => None,
    }
}

/// The members of an object under other names than those given, ordered by
/// name.
pub open spec fn other_members(
    m: Seq<(Seq<char>, json::JsonView)>,
    known: Seq<Seq<char>>,
) -> Seq<(Seq<char>, json::JsonView)>
    decreases m.len(),
{
    if m.len() == 0 {
        Seq::empty()
    } else {
        let rest = other_members(m.drop_last(), known);
        if known.contains(m.last().0) {
            rest
        } else {
            collections::inserted(rest, m.last().0, json::settled(m.last().1))
        }
    }
}

/// The values of a map of JSON values.
pub open spec fn value_pairs(m: StrMap<Json>) -> Seq<(Seq<char>, json::JsonView)> {
    collections::with_values(m@, |j: Json| j@)
}

/// Whether a list holds a text.
fn is_known(known: &Vec<&str>, s: &str) -> (r: bool)
    ensures
        r == text::views(known@).contains(s@),
{
    let n: usize = known.len();
    let mut i: usize = 0;
    while i < n
        invariant
            i <= n,
            n == known@.len(),
            forall|j: int| 0 <= j < i ==> text::views(known@)[j] != s@,
        decreases n - i,
    {
        assert(text::views(known@)[i as int] == known@[i as int]@);
        if text::same(known[i], s) {
            return true;
        }
        i += 1;
    }
    false
}

/// The members of an object under other names than those given.
pub fn read_others(m: &Vec<(String, Json)>, known: &Vec<&str>) -> (r: StrMap<Json>)
    ensures
        value_pairs(r) == other_members(json::members(m@), text::views(known@)),
{
    let ghost all = json::members(m@);
    let mut out: StrMap<Json> = StrMap::new();
    let n: usize = m.len();
    let mut i: usize = 0;
    assert(value_pairs(out) =~= Seq::empty());
    while i < n
        invariant
            i <= n,
            n == m@.len(),
            all == json::members(m@),
            value_pairs(out) == other_members(all.take(i as int), text::views(known@)),
        decreases n - i,
    {
        proof {
            assert(all.take(i + 1).drop_last() =~= all.take(i as int));
            assert(all.take(i + 1).last() == (m@[i as int].0@, m@[i as int].1@));
        }
        if !is_known(known, m[i].0.as_str()) {
            let copy = m[i].1.settle();
            proof {
                collections::lemma_with_values(out@, m@[i as int].0@, copy, |j: Json| j@);
            }
            out.insert(m[i].0.clone(), copy);
        }
        i += 1;
    }
    assert(all.take(n as int) =~= all);
    out
}

/// A copy of a map of JSON values.
pub fn copy_value_map(m: &StrMap<Json>) -> (r: StrMap<Json>)
    ensures
        value_pairs(r) == value_pairs(*m),
{
    let n: usize = m.entries.len();
    let mut out: Vec<(String, Json)> = Vec::new();
    let mut i: usize = 0;
    while i < n
        invariant
            i <= n,
            n == m.entries@.len(),
            out@.len() == i,
            forall|j: int|
                0 <= j < i ==> (#[trigger] out@[j]).0@ == m.entries@[j].0@ && out@[j].1@
                    == m.entries@[j].1@,
        decreases n - i,
    {
        out.push((m.entries[i].0.clone(), m.entries[i].1.copy()));
        i += 1;
    }
    let r = StrMap { entries: out };
    assert(value_pairs(r) =~= value_pairs(*m));
    r
}

// ---------------------------------------------------------------------------
// Writing

/// A text as a value.
pub fn text_json(s: &str) -> (r: Json)
    ensures
        r@ == json::JsonView::Str(s@),
{
    Json::Str(String::from_str(s))
}

/// The texts of a list as values.
pub open spec fn text_values(t: Seq<Seq<char>>) -> Seq<json::JsonView> {
    t.map_values(|s: Seq<char>| json::JsonView::Str(s))
}

/// A list of texts as a value.
pub fn list_json(v: &Vec<String>) -> (r: Json)
    ensures
        r@ == json::JsonView::Array(text_values(text::texts(v@))),
{
    let n: usize = v.len();
    let mut out: Vec<Json> = Vec::new();
    let mut i: usize = 0;
    while i < n
        invariant
            i <= n,
            n == v@.len(),
            out@.len() == i,
            forall|j: int| 0 <= j < i ==> (#[trigger] out@[j])@ == json::JsonView::Str(v@[j]@),
        decreases n - i,
    {
        out.push(Json::Str(v[i].clone()));
        i += 1;
    }
    proof {
        json::lemma_array_view(out);
        assert(json::elements(out@) =~= text_values(text::texts(v@)));
    }
    Json::Array(out)
}

/// The entries of a map of texts as members.
pub open spec fn link_values(p: Seq<(Seq<char>, Seq<char>)>) -> Seq<(Seq<char>, json::JsonView)> {
    p.map_values(|e: (Seq<char>, Seq<char>)| (e.0, json::JsonView::Str(e.1)))
}

/// A map of texts as a value.
pub fn links_json(m: &StrMap<String>) -> (r: Json)
    ensures
        r@ == json::JsonView::Object(link_values(collections::link_pairs(*m))),
{
    let n: usize = m.entries.len();
    let mut out: Vec<(String, Json)> = Vec::new();
    let mut i: usize = 0;
    while i < n
        invariant
            i <= n,
            n == m.entries@.len(),
            out@.len() == i,
            forall|j: int|
                0 <= j < i ==> (#[trigger] out@[j]).0@ == m.entries@[j].0@ && out@[j].1@
                    == json::JsonView::Str(m.entries@[j].1@),
        decreases n - i,
    {
        out.push((m.entries[i].0.clone(), Json::Str(m.entries[i].1.clone())));
        i += 1;
    }
    proof {
        json::lemma_object_view(out);
        assert(json::members(out@) =~= link_values(collections::link_pairs(*m)));
    }
    Json::Object(out)
}

/// A member that is written only where it is not empty.
pub open spec fn object_member(
    k: Seq<char>,
    m: Seq<(Seq<char>, json::JsonView)>,
) -> Seq<(Seq<char>, json::JsonView)> {
    if m.len() == 0 {
        Seq::empty()
    } else {
        seq![(k, json::JsonView::Object(m))]
    }
}

/// A list of texts that is written only where it is not empty.
pub open spec fn list_member(k: Seq<char>, t: Seq<Seq<char>>) -> Seq<(Seq<char>, json::JsonView)> {
    if t.len() == 0 {
        Seq::empty()
    } else {
        seq![(k, json::JsonView::Array(text_values(t)))]
    }
}

/// A value that is written only where there is one.
pub open spec fn value_member(k: Seq<char>, v: Option<json::JsonView>) -> Seq<
    (Seq<char>, json::JsonView),
> {
    match v {
        Some(j) => seq![(k, j)],
        None => Seq::empty(),
    }
}

/// A text that is written only where there is one.
pub open spec fn text_member(k: Seq<char>, t: Option<Seq<char>>) -> Seq<
    (Seq<char>, json::JsonView),
> {
    match t {
        Some(s) => seq![(k, json::JsonView::Str(s))],
        None => Seq::empty(),
    }
}

/// Adds a member.
pub fn add_value(out: &mut Vec<(String, Json)>, k: &str, v: Json)
    ensures
        json::members(final(out)@) == json::members(old(out)@) + seq![(k@, v@)],
{
    let ghost before = json::members(out@);
    out.push((String::from_str(k), v));
    assert(json::members(out@) =~= before + seq![(k@, v@)]);
}

/// Adds an object that is not empty.
pub fn add_object(out: &mut Vec<(String, Json)>, k: &str, m: Vec<(String, Json)>)
    ensures
        json::members(final(out)@) == json::members(old(out)@) + object_member(
            k@,
            json::members(m@),
        ),
{
    if m.len() > 0 {
        proof {
            json::lemma_object_view(m);
        }
        add_value(out, k, Json::Object(m));
    } else {
        assert(json::members(out@) =~= json::members(out@) + Seq::empty());
    }
}

/// Adds a list of texts that is not empty.
pub fn add_list(out: &mut Vec<(String, Json)>, k: &str, v: &Vec<String>)
    ensures
        json::members(final(out)@) == json::members(old(out)@) + list_member(
            k@,
            text::texts(v@),
        ),
{
    if v.len() > 0 {
        add_value(out, k, list_json(v));
    } else {
        assert(json::members(out@) =~= json::members(out@) + Seq::empty());
    }
}

/// Adds a map of texts that is not empty.
pub fn add_links(out: &mut Vec<(String, Json)>, k: &str, m: &StrMap<String>)
    ensures
        json::members(final(out)@) == json::members(old(out)@) + object_member(
            k@,
            link_values(collections::link_pairs(*m)),
        ),
{
    if m.entries.len() > 0 {
        add_value(out, k, links_json(m));
    } else {
        assert(json::members(out@) =~= json::members(out@) + Seq::empty());
    }
}

/// Adds a text, if there is one.
pub fn add_text(out: &mut Vec<(String, Json)>, k: &str, t: &Option<String>)
    ensures
        json::members(final(out)@) == json::members(old(out)@) + text_member(
            k@,
            text::opt_text(*t),
        ),
{
    match t {
        Some(s) => {
            add_value(out, k, Json::Str(s.clone()));
        },
        None => {
            assert(json::members(out@) =~= json::members(out@) + Seq::empty());
        },
    }
}

/// Adds a value, if there is one.
pub fn add_opt(out: &mut Vec<(String, Json)>, k: &str, v: &Option<Json>)
    ensures
        json::members(final(out)@) == json::members(old(out)@) + value_member(
            k@,
            json::opt_json(*v),
        ),
{
    match v {
        Some(j) => {
            add_value(out, k, j.copy());
        },
        None => {
            assert(json::members(out@) =~= json::members(out@) + Seq::empty());
        },
    }
}

/// Adds the entries of a map.
pub fn add_entries(out: &mut Vec<(String, Json)>, m: &StrMap<Json>)
    ensures
        json::members(final(out)@) == json::members(old(out)@) + value_pairs(*m),
{
    let ghost start = json::members(out@);
    let ghost all = value_pairs(*m);
    let n: usize = m.entries.len();
    let mut i: usize = 0;
    assert(start + all.take(0) =~= start);
    while i < n
        invariant
            i <= n,
            n == m.entries@.len(),
            all == value_pairs(*m),
            json::members(out@) == start + all.take(i as int),
        decreases n - i,
    {
        add_value(out, m.entries[i].0.as_str(), m.entries[i].1.copy());
        proof {
            assert(all[i as int] == (m.entries@[i as int].0@, m.entries@[i as int].1@));
            assert(start + all.take(i as int) + seq![all[i as int]] =~= start + all.take(i + 1));
        }
        i += 1;
    }
    assert(all.take(n as int) =~= all);
}

/// All members of an object, ordered by name.
pub open spec fn sorted_members(m: Seq<(Seq<char>, json::JsonView)>) -> Seq<
    (Seq<char>, json::JsonView),
> {
    other_members(m, Seq::empty())
}

/// An optional object as a map.
pub open spec fn opt_map_of(v: Option<json::JsonView>) -> Option<
    Option<Seq<(Seq<char>, json::JsonView)>>,
> {
    match v {
        None => Some(None),
        Some(json::JsonView::Null) => Some(None),
        Some(json::JsonView::Object(m)) => Some(Some(sorted_members(m))),
        _ => None,
    }
}

/// The values of an optional map.
pub open spec fn opt_value_pairs(m: Option<StrMap<Json>>) -> Option<
    Seq<(Seq<char>, json::JsonView)>,
> {
    match m {
        Some(x) => Some(value_pairs(x)),
        None => None,
    }
}

/// Reads an optional object as a map.
pub fn read_opt_map(j: &Json, k: &str) -> (r: Option<Option<StrMap<Json>>>)
    ensures
        match r {
            Some(m) => opt_map_of(json::get_of(j@, k@)) == Some(opt_value_pairs(m)),
            None => opt_map_of(json::get_of(j@, k@)) is None,
        },
{
    match j.get(k) {
        None => Some(None),
        Some(Json::Null) => Some(None),
        Some(Json::Object(m)) => {
            proof {
                json::lemma_object_view(*m);
            }
            let none: Vec<&str> = Vec::new();
            assert(text::views(none@) =~= Seq::<Seq<char>>::empty());
            Some(Some(read_others(m, &none)))
        },
        _ => None,
    }
}

/// Adds an array that is not empty.
pub fn add_array(out: &mut Vec<(String, Json)>, k: &str, a: Vec<Json>)
    ensures
        json::members(final(out)@) == json::members(old(out)@) + array_member(
            k@,
            json::elements(a@),
        ),
{
    if a.len() > 0 {
        proof {
            json::lemma_array_view(a);
        }
        add_value(out, k, Json::Array(a));
    } else {
        assert(json::members(out@) =~= json::members(out@) + Seq::empty());
    }
}

/// A list that is written only where it is not empty.
pub open spec fn array_member(k: Seq<char>, a: Seq<json::JsonView>) -> Seq<
    (Seq<char>, json::JsonView),
> {
    if a.len() == 0 {
        Seq::empty()
    } else {
        seq![(k, json::JsonView::Array(a))]
    }
}

// ---------------------------------------------------------------------------
// Laws

/// A text is read as it is; what is missing or `null` is none.
pub open spec fn reads_text(v: Option<json::JsonView>, t: Option<Seq<char>>) -> bool {
    match v {
        Some(json::JsonView::Str(s)) => t == Some(s),
        _ => t is None,
    }
}

/// A list of texts is read element by element.
pub open spec fn reads_texts(v: Option<json::JsonView>, t: Seq<Seq<char>>) -> bool {
    match v {
        Some(json::JsonView::Array(a)) => t.len() == a.len() && forall|i: int|
            0 <= i < a.len() ==> #[trigger] a[i] == json::JsonView::Str(t[i]),
        _ => t.len() == 0,
    }
}

/// An object of texts is read member by member; of members with one name the last
/// one counts.
pub open spec fn reads_links(v: Option<json::JsonView>, p: Seq<(Seq<char>, Seq<char>)>) -> bool {
    match v {
        Some(json::JsonView::Object(m)) => {
            &&& forall|i: int|
                0 <= i < m.len() && (forall|q: int| i < q < m.len() ==> (#[trigger] m[q]).0
                    != m[i].0) ==> (#[trigger] m[i]).1 is Str && collections::lookup(p, m[i].0)
                    == Some(m[i].1->Str_0)
            &&& forall|k: Seq<char>| #[trigger]
                collections::lookup(p, k) is Some ==> exists|i: int|
                    0 <= i < m.len() && (#[trigger] m[i]).0 == k
        },
        _ => p.len() == 0,
    }
}

proof fn lemma_texts_read(a: Seq<json::JsonView>)
    ensures
        texts_of(a) matches Some(t) ==> t.len() == a.len() && forall|i: int|
            0 <= i < a.len() ==> #[trigger] a[i] == json::JsonView::Str(t[i]),
        texts_of(a) is None ==> exists|i: int| 0 <= i < a.len() && !(#[trigger] a[i] is Str),
    decreases a.len(),
{
    if a.len() > 0 {
        let front = a.drop_last();
        lemma_texts_read(front);
        assert(a[a.len() - 1] == a.last());
        if let Some(t) = texts_of(a) {
            let rest = texts_of(front)->0;
            assert forall|i: int| 0 <= i < a.len() implies #[trigger] a[i] == json::JsonView::Str(
                t[i],
            ) by {
                if i < front.len() {
                    assert(front[i] == a[i]);
                    assert(t[i] == rest[i]);
                }
            }
        } else if texts_of(front) is None {
            let i = choose|i: int| 0 <= i < front.len() && !(#[trigger] front[i] is Str);
            assert(a[i] == front[i]);
        }
    }
}

proof fn lemma_links_read(m: Seq<(Seq<char>, json::JsonView)>)
    ensures
        links_of(m) matches Some(p) ==> reads_links(Some(json::JsonView::Object(m)), p),
        links_of(m) is None ==> exists|i: int| 0 <= i < m.len() && !((#[trigger] m[i]).1 is Str),
    decreases m.len(),
{
    if m.len() > 0 {
        let front = m.drop_last();
        lemma_links_read(front);
        let e = m.last();
        assert(m[m.len() - 1] == e);
        if let Some(p) = links_of(m) {
            let rest = links_of(front)->0;
            let s = e.1->Str_0;
            assert forall|i: int|
                0 <= i < m.len() && (forall|q: int| i < q < m.len() ==> (#[trigger] m[q]).0
                    != m[i].0) implies (#[trigger] m[i]).1 is Str && collections::lookup(p, m[i].0)
                == Some(m[i].1->Str_0) by {
                collections::law_lookup_inserted(rest, e.0, s, m[i].0);
                if i < front.len() {
                    assert(front[i] == m[i]);
                    assert(m[m.len() - 1].0 != m[i].0);
                    assert forall|q: int| i < q < front.len() implies (#[trigger] front[q]).0
                        != front[i].0 by {
                        assert(m[q].0 != m[i].0);
                    }
                }
            }
            assert forall|k: Seq<char>| #[trigger] collections::lookup(p, k) is Some implies exists|
                i: int,
            |
                0 <= i < m.len() && (#[trigger] m[i]).0 == k by {
                collections::law_lookup_inserted(rest, e.0, s, k);
                if k != e.0 {
                    assert(collections::lookup(rest, k) is Some);
                    let i = choose|i: int| 0 <= i < front.len() && (#[trigger] front[i]).0 == k;
                    assert(m[i] == front[i]);
                }
            }
        } else if links_of(front) is None {
            let i = choose|i: int| 0 <= i < front.len() && !((#[trigger] front[i]).1 is Str);
            assert(m[i] == front[i]);
        }
    }
}

/// What is read from a member is what stands there.
pub proof fn law_members_are_read(v: Option<json::JsonView>)
    ensures
        opt_text_of(v) matches Some(t) ==> reads_text(v, t),
        text_list_of(v) matches Some(t) ==> reads_texts(v, t),
        link_map_of(v) matches Some(p) ==> reads_links(v, p),
        opt_bool_of(v) matches Some(b) ==> b == (match v {
            Some(json::JsonView::Bool(x)) => Some(x),
            _ => None,
        }),
{
    if let Some(json::JsonView::Array(a)) = v {
        lemma_texts_read(a);
    }
    if let Some(json::JsonView::Object(m)) = v {
        lemma_links_read(m);
    }
}

} // verus!
