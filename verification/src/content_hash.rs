//! The `content-hash` of a `composer.json`.

use crate::collections;
use crate::collections::StrMap;
use crate::error::Error;
use crate::json;
use crate::json::Json;
use crate::php_json;
use crate::text;
use vstd::prelude::*;

verus! {

/// The lower case hexadecimal text of the MD5 hash of `data`.
pub uninterp spec fn md5_text(data: Seq<u8>) -> Seq<char>;

/// `md5::compute`, its 16 bytes written as 32 lower case hexadecimal digits.
#[verifier::external_body]
fn md5_hex(data: &[u8]) -> (r: String)
    ensures
        r@ == md5_text(data@),
        text::is_hex(r@, 32),
{
    format!("{:x}", md5::compute(data))
}

/// The keys whose values count, besides `config.platform`.
pub open spec fn relevant_keys() -> Seq<Seq<char>> {
    seq![
        "name"@,
        "version"@,
        "require"@,
        "require-dev"@,
        "conflict"@,
        "replace"@,
        "provide"@,
        "minimum-stability"@,
        "prefer-stable"@,
        "repositories"@,
        "extra"@,
    ]
}

fn relevant_key_list() -> (r: Vec<&'static str>)
    ensures
        text::views(r@) == relevant_keys(),
{
    let mut r: Vec<&'static str> = Vec::new();
    r.push("name");
    r.push("version");
    r.push("require");
    r.push("require-dev");
    r.push("conflict");
    r.push("replace");
    r.push("provide");
    r.push("minimum-stability");
    r.push("prefer-stable");
    r.push("repositories");
    r.push("extra");
    assert(text::views(r@) =~= relevant_keys());
    r
}

/// The members of `obj` under the given keys, ordered by key.
pub open spec fn picked(
    obj: Seq<(Seq<char>, json::JsonView)>,
    keys: Seq<Seq<char>>,
) -> Seq<(Seq<char>, json::JsonView)>
    decreases keys.len(),
{
    if keys.len() == 0 {
        Seq::empty()
    } else {
        let rest = picked(obj, keys.drop_last());
        match json::member(obj, keys.last()) {
            Some(v) => collections::inserted(rest, keys.last(), v),
            None => rest,
        }
    }
}

/// The value of `config.platform`.
pub open spec fn platform_of(obj: Seq<(Seq<char>, json::JsonView)>) -> Option<json::JsonView> {
    match json::member(obj, "config"@) {
        Some(c) => json::get_of(c, "platform"@),
        None => None,
    }
}

/// What counts of a `composer.json`: the relevant members, and of `config`
/// only `platform`, ordered by key.
pub open spec fn relevant(obj: Seq<(Seq<char>, json::JsonView)>) -> Seq<
    (Seq<char>, json::JsonView),
> {
    let base = picked(obj, relevant_keys());
    match platform_of(obj) {
        Some(p) => collections::inserted(
            base,
            "config"@,
            json::JsonView::Object(seq![("platform"@, p)]),
        ),
        None => base,
    }
}

/// The values of a map of JSON values.
pub open spec fn json_pairs(m: StrMap<Json>) -> Seq<(Seq<char>, json::JsonView)> {
    collections::with_values(m@, |j: Json| j@)
}

/// What counts of a `composer.json`.
pub fn relevant_content(obj: &Vec<(String, Json)>) -> (r: Json)
    ensures
        r@ == json::JsonView::Object(relevant(json::members(obj@))),
{
    let keys = relevant_key_list();
    let ghost all = text::views(keys@);
    let ghost m = json::members(obj@);
    let mut out: StrMap<Json> = StrMap::new();
    let n: usize = keys.len();
    let mut i: usize = 0;
    assert(json_pairs(out) =~= Seq::empty());
    while i < n
        invariant
            i <= n,
            n == keys@.len(),
            all == text::views(keys@),
            m == json::members(obj@),
            json_pairs(out) == picked(m, all.take(i as int)),
        decreases n - i,
    {
        proof {
            assert(all.take(i + 1).drop_last() =~= all.take(i as int));
            assert(all.take(i + 1).last() == keys@[i as int]@);
        }
        if let Some(v) = json::find_member(obj, keys[i]) {
            let copy = v.copy();
            proof {
                collections::lemma_with_values(out@, keys@[i as int]@, copy, |j: Json| j@);
            }
            out.insert(String::from_str(keys[i]), copy);
        }
        i += 1;
    }
    assert(all.take(n as int) =~= all);
    if let Some(config) = json::find_member(obj, "config") {
        if let Some(p) = config.get("platform") {
            let mut inner: Vec<(String, Json)> = Vec::new();
            inner.push((String::from_str("platform"), p.copy()));
            let sub = Json::Object(inner);
            proof {
                json::lemma_object_view(inner);
                assert(json::members(inner@) =~= seq![("platform"@, p@)]);
                collections::lemma_with_values(out@, "config"@, sub, |j: Json| j@);
            }
            out.insert(String::from_str("config"), sub);
        }
    }
    proof {
        json::lemma_object_view(out.entries);
        assert(json::members(out.entries@) =~= json_pairs(out));
    }
    Json::Object(out.entries)
}

/// The hash of what counts of a `composer.json`.
pub open spec fn hash_of(obj: Seq<(Seq<char>, json::JsonView)>) -> Seq<char> {
    md5_text(
        vstd::utf8::encode_utf8(php_json::encoded(json::JsonView::Object(relevant(obj)))),
    )
}

/// The hash of what counts of a `composer.json` that was read.
pub fn content_hash_of(doc: &Json) -> (r: Result<String, Error>)
    ensures
        match doc@ {
            json::JsonView::Object(m) => r is Ok && r->Ok_0@ == hash_of(m),
            _ => r matches Err(Error::Manifest(t)) && t@
                == "composer.json top level must be a JSON object"@,
        },
        r matches Ok(h) ==> text::is_hex(h@, 32),
{
    match doc {
        Json::Object(obj) => {
            proof {
                json::lemma_object_view(*obj);
            }
            let content = relevant_content(obj);
            let encoded = php_json::encode(&content);
            Ok(md5_hex(encoded.as_str().as_bytes()))
        },
        _ => Err(
            Error::Manifest(String::from_str("composer.json top level must be a JSON object")),
        ),
    }
}

/// The content hash of the bytes of a `composer.json`.
pub fn content_hash(composer_json_bytes: &[u8]) -> (r: Result<String, Error>)
    ensures
        match json::json_read(composer_json_bytes@) {
            Ok(json::JsonView::Object(m)) => r is Ok && r->Ok_0@ == hash_of(m),
            Ok(_) => r matches Err(Error::Manifest(t)) && t@
                == "composer.json top level must be a JSON object"@,
            Err(fault) => r matches Err(Error::Json(t)) && t@ == fault,
        },
        r matches Ok(h) ==> text::is_hex(h@, 32),
{
    match json::read(composer_json_bytes) {
        Ok(doc) => content_hash_of(&doc),
        Err(fault) => Err(Error::Json(fault)),
    }
}

// ---------------------------------------------------------------------------
// Laws

proof fn lemma_picked_ordered(obj: Seq<(Seq<char>, json::JsonView)>, keys: Seq<Seq<char>>)
    ensures
        collections::ordered(picked(obj, keys)),
    decreases keys.len(),
{
    if keys.len() > 0 {
        lemma_picked_ordered(obj, keys.drop_last());
        if let Some(v) = json::member(obj, keys.last()) {
            collections::law_insertion_keeps_order(picked(obj, keys.drop_last()), keys.last(), v);
        }
    }
}

/// What counts is ordered by key.
pub proof fn law_relevant_is_ordered(obj: Seq<(Seq<char>, json::JsonView)>)
    ensures
        collections::ordered(relevant(obj)),
{
    lemma_picked_ordered(obj, relevant_keys());
    if let Some(p) = platform_of(obj) {
        collections::law_insertion_keeps_order(
            picked(obj, relevant_keys()),
            "config"@,
            json::JsonView::Object(seq![("platform"@, p)]),
        );
    }
}

proof fn lemma_picked_same(
    a: Seq<(Seq<char>, json::JsonView)>,
    b: Seq<(Seq<char>, json::JsonView)>,
    keys: Seq<Seq<char>>,
)
    requires
        forall|i: int|
            0 <= i < keys.len() ==> json::member(a, #[trigger] keys[i]) == json::member(b, keys[i]),
    ensures
        picked(a, keys) == picked(b, keys),
    decreases keys.len(),
{
    if keys.len() > 0 {
        assert forall|i: int| 0 <= i < keys.drop_last().len() implies json::member(
            a,
            #[trigger] keys.drop_last()[i],
        ) == json::member(b, keys.drop_last()[i]) by {
            assert(keys.drop_last()[i] == keys[i]);
        }
        lemma_picked_same(a, b, keys.drop_last());
        assert(json::member(a, keys[keys.len() - 1]) == json::member(b, keys[keys.len() - 1]));
    }
}

/// The hash depends on nothing but the relevant members and `config.platform`:
/// neither other members nor the order of the members count.
pub proof fn law_hash_ignores_the_rest(
    a: Seq<(Seq<char>, json::JsonView)>,
    b: Seq<(Seq<char>, json::JsonView)>,
)
    requires
        forall|i: int|
            0 <= i < relevant_keys().len() ==> json::member(a, #[trigger] relevant_keys()[i])
                == json::member(b, relevant_keys()[i]),
        platform_of(a) == platform_of(b),
    ensures
        hash_of(a) == hash_of(b),
{
    lemma_picked_same(a, b, relevant_keys());
}

proof fn lemma_picked_lookup(
    obj: Seq<(Seq<char>, json::JsonView)>,
    keys: Seq<Seq<char>>,
    k: Seq<char>,
)
    ensures
        collections::lookup(picked(obj, keys), k) == if keys.contains(k) {
            json::member(obj, k)
        } else {
            None
        },
    decreases keys.len(),
{
    if keys.len() > 0 {
        let front = keys.drop_last();
        lemma_picked_lookup(obj, front, k);
        assert(keys =~= front.push(keys.last()));
        assert(keys.contains(k) == (front.contains(k) || keys.last() == k)) by {
            if front.contains(k) {
                let i = choose|i: int| 0 <= i < front.len() && front[i] == k;
                assert(keys[i] == k);
            }
            if keys.last() == k {
                assert(keys[keys.len() - 1] == k);
            }
            if keys.contains(k) && keys.last() != k {
                let i = choose|i: int| 0 <= i < keys.len() && keys[i] == k;
                assert(front[i] == k);
            }
        }
        if let Some(v) = json::member(obj, keys.last()) {
            collections::law_lookup_inserted(picked(obj, front), keys.last(), v, k);
        }
    }
}

proof fn lemma_relevant_lookup(obj: Seq<(Seq<char>, json::JsonView)>, k: Seq<char>)
    ensures
        k != "config"@ ==> collections::lookup(relevant(obj), k) == if relevant_keys().contains(k) {
            json::member(obj, k)
        } else {
            None
        },
{
    lemma_picked_lookup(obj, relevant_keys(), k);
    if let Some(p) = platform_of(obj) {
        collections::law_lookup_inserted(
            picked(obj, relevant_keys()),
            "config"@,
            json::JsonView::Object(seq![("platform"@, p)]),
            k,
        );
    }
}

/// The keys whose members are hashed as they are.
pub open spec fn hashed_whole(k: Seq<char>) -> bool {
    ||| k == "name"@
    ||| k == "version"@
    ||| k == "require"@
    ||| k == "require-dev"@
    ||| k == "conflict"@
    ||| k == "replace"@
    ||| k == "provide"@
    ||| k == "minimum-stability"@
    ||| k == "prefer-stable"@
    ||| k == "repositories"@
    ||| k == "extra"@
}

proof fn lemma_config_is_apart()
    ensures
        forall|k: Seq<char>| #[trigger] hashed_whole(k) ==> k != "config"@,
        forall|k: Seq<char>| #[trigger] relevant_keys().contains(k) == hashed_whole(k),
{
    reveal_strlit("config");
    reveal_strlit("name");
    reveal_strlit("version");
    reveal_strlit("require");
    reveal_strlit("require-dev");
    reveal_strlit("conflict");
    reveal_strlit("replace");
    reveal_strlit("provide");
    reveal_strlit("minimum-stability");
    reveal_strlit("prefer-stable");
    reveal_strlit("repositories");
    reveal_strlit("extra");
    assert("config"@[3] == 'f');
    assert("config"@.len() == 6);
    let keys = relevant_keys();
    assert(keys[0] == "name"@);
    assert(keys[1] == "version"@);
    assert(keys[2] == "require"@);
    assert(keys[3] == "require-dev"@);
    assert(keys[4] == "conflict"@);
    assert(keys[5] == "replace"@);
    assert(keys[6] == "provide"@);
    assert(keys[7] == "minimum-stability"@);
    assert(keys[8] == "prefer-stable"@);
    assert(keys[9] == "repositories"@);
    assert(keys[10] == "extra"@);
    assert forall|k: Seq<char>| #[trigger] keys.contains(k) == hashed_whole(k) by {
        if keys.contains(k) {
            let i = choose|i: int| 0 <= i < keys.len() && keys[i] == k;
            assert(keys[i] == k);
        }
    }
}

/// What a `composer.json` says of itself, its links, its stability, its
/// repositories and its extra settings is hashed as it stands there, member by
/// member. Of `config` only `platform` is hashed, and nothing else is.
pub proof fn law_what_is_hashed(obj: Seq<(Seq<char>, json::JsonView)>, k: Seq<char>)
    ensures
        hashed_whole(k) ==> collections::lookup(relevant(obj), k) == json::member(obj, k),
        !hashed_whole(k) && k != "config"@ ==> collections::lookup(relevant(obj), k) is None,
        k == "config"@ ==> collections::lookup(relevant(obj), k) == match json::member(
            obj,
            "config"@,
        ) {
            Some(json::JsonView::Object(c)) => match json::member(c, "platform"@) {
                Some(p) => Some(json::JsonView::Object(seq![("platform"@, p)])),
                None => None,
            },
            _ => None,
        },
{
    lemma_config_is_apart();
    lemma_relevant_lookup(obj, k);
    lemma_picked_lookup(obj, relevant_keys(), k);
    assert(relevant_keys().contains(k) == hashed_whole(k));
    if let Some(p) = platform_of(obj) {
        collections::law_lookup_inserted(
            picked(obj, relevant_keys()),
            "config"@,
            json::JsonView::Object(seq![("platform"@, p)]),
            k,
        );
    }
}

/// Two objects have the same hash if they agree on the hashed members and on
/// `config.platform`, whatever else they hold and whatever the order of their
/// members.
pub proof fn law_same_content_same_hash(
    a: Seq<(Seq<char>, json::JsonView)>,
    b: Seq<(Seq<char>, json::JsonView)>,
)
    requires
        forall|k: Seq<char>| #[trigger] hashed_whole(k) ==> json::member(a, k) == json::member(b, k),
        json::member(a, "config"@) == json::member(b, "config"@),
    ensures
        hash_of(a) == hash_of(b),
{
    lemma_config_is_apart();
    assert forall|i: int| 0 <= i < relevant_keys().len() implies json::member(
        a,
        #[trigger] relevant_keys()[i],
    ) == json::member(b, relevant_keys()[i]) by {
        assert(relevant_keys().contains(relevant_keys()[i]));
        assert(hashed_whole(relevant_keys()[i]));
    }
    lemma_picked_same(a, b, relevant_keys());
}

} // verus!
