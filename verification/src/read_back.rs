//! What was written is read back: packages, lock files and manifests.

use crate::collections;
use crate::error::Error;
use crate::fields;
use crate::json;
use crate::json::JsonView;
use crate::lock;
use crate::lock::ComposerLock;
use crate::manifest;
use crate::manifest::ComposerJson;
use crate::package;
use crate::text;
use vstd::prelude::*;

verus! {

// ---------------------------------------------------------------------------
// Lists of members

proof fn lemma_lookup_sum<V>(a: Seq<(Seq<char>, V)>, b: Seq<(Seq<char>, V)>, k: Seq<char>)
    ensures
        collections::lookup(a + b, k) == match collections::lookup(a, k) {
            Some(v) => Some(v),
            None => collections::lookup(b, k),
        },
    decreases a.len(),
{
    if a.len() == 0 {
        assert(a + b =~= b);
    } else {
        assert((a + b)[0] == a[0]);
        assert((a + b).skip(1) =~= a.skip(1) + b);
        lemma_lookup_sum(a.skip(1), b, k);
    }
}

proof fn lemma_lookup_absent<V>(p: Seq<(Seq<char>, V)>, k: Seq<char>)
    requires
        forall|i: int| 0 <= i < p.len() ==> (#[trigger] p[i]).0 != k,
    ensures
        collections::lookup(p, k) is None,
    decreases p.len(),
{
    if p.len() > 0 {
        assert(p[0].0 != k);
        assert forall|i: int| 0 <= i < p.skip(1).len() implies (#[trigger] p.skip(1)[i]).0
            != k by {
            assert(p[i + 1].0 != k);
        }
        lemma_lookup_absent(p.skip(1), k);
    }
}

proof fn lemma_inserted_behind<V>(p: Seq<(Seq<char>, V)>, k: Seq<char>, v: V)
    requires
        forall|i: int| 0 <= i < p.len() ==> text::text_lt((#[trigger] p[i]).0, k),
    ensures
        collections::inserted(p, k, v) == p.push((k, v)),
    decreases p.len(),
{
    if p.len() == 0 {
        assert(p.push((k, v)) =~= seq![(k, v)]);
    } else {
        text::lemma_text_lt_total(p[0].0, k);
        assert(text::text_lt(p[0].0, k));
        assert forall|i: int| 0 <= i < p.skip(1).len() implies text::text_lt(
            (#[trigger] p.skip(1)[i]).0,
            k,
        ) by {
            assert(text::text_lt(p[i + 1].0, k));
        }
        lemma_inserted_behind(p.skip(1), k, v);
        assert(seq![p[0]] + p.skip(1).push((k, v)) =~= p.push((k, v)));
    }
}

proof fn lemma_inserted_last<V>(p: Seq<(Seq<char>, V)>)
    requires
        collections::ordered(p),
        p.len() > 0,
    ensures
        collections::ordered(p.drop_last()),
        collections::inserted(p.drop_last(), p.last().0, p.last().1) == p,
{
    let rest = p.drop_last();
    assert forall|i: int, j: int| 0 <= i < j < rest.len() implies text::text_lt(
        #[trigger] rest[i].0,
        #[trigger] rest[j].0,
    ) by {
        assert(text::text_lt(p[i].0, p[j].0));
    }
    assert forall|i: int| 0 <= i < rest.len() implies text::text_lt(
        (#[trigger] rest[i]).0,
        p.last().0,
    ) by {
        assert(text::text_lt(p[i].0, p[p.len() - 1].0));
    }
    lemma_inserted_behind(rest, p.last().0, p.last().1);
    assert(rest.push((p.last().0, p.last().1)) =~= p);
}

// ---------------------------------------------------------------------------
// Values

proof fn lemma_texts(t: Seq<Seq<char>>)
    ensures
        fields::texts_of(fields::text_values(t)) == Some(t),
    decreases t.len(),
{
    let v = fields::text_values(t);
    if t.len() > 0 {
        lemma_texts(t.drop_last());
        assert(v.drop_last() =~= fields::text_values(t.drop_last()));
        assert(v.last() == JsonView::Str(t.last()));
        assert(t.drop_last().push(t.last()) =~= t);
    } else {
        assert(t =~= Seq::empty());
    }
}

proof fn lemma_links(p: Seq<(Seq<char>, Seq<char>)>)
    requires
        collections::ordered(p),
    ensures
        fields::links_of(fields::link_values(p)) == Some(p),
    decreases p.len(),
{
    let v = fields::link_values(p);
    if p.len() > 0 {
        lemma_inserted_last(p);
        lemma_links(p.drop_last());
        assert(v.drop_last() =~= fields::link_values(p.drop_last()));
        assert(v.last() == (p.last().0, JsonView::Str(p.last().1)));
    } else {
        assert(p =~= Seq::empty());
    }
}

proof fn lemma_namespaces(p: Seq<(Seq<char>, package::PathsView)>)
    requires
        collections::ordered(p),
    ensures
        package::namespaces_of(package::namespace_values(p)) == Some(p),
    decreases p.len(),
{
    let v = package::namespace_values(p);
    if p.len() > 0 {
        lemma_inserted_last(p);
        lemma_namespaces(p.drop_last());
        assert(v.drop_last() =~= package::namespace_values(p.drop_last()));
        assert(v.last() == (p.last().0, package::paths_value(p.last().1)));
        match p.last().1 {
            package::PathsView::One(s) => {},
            package::PathsView::Many(t) => {
                lemma_texts(t);
            },
        }
        assert(package::paths_json(package::paths_value(p.last().1)) == Some(p.last().1));
    } else {
        assert(p =~= Seq::empty());
    }
}

proof fn lemma_licenses(l: Seq<lock::LicenseView>)
    ensures
        lock::licenses_of(lock::license_values(l)) == Some(l),
    decreases l.len(),
{
    let v = lock::license_values(l);
    if l.len() > 0 {
        lemma_licenses(l.drop_last());
        assert(v.drop_last() =~= lock::license_values(l.drop_last()));
        assert(v.last() == lock::license_value(l.last()));
        match l.last() {
            lock::LicenseView::One(s) => {},
            lock::LicenseView::Many(t) => {
                lemma_texts(t);
            },
        }
        assert(l.drop_last().push(l.last()) =~= l);
    } else {
        assert(l =~= Seq::empty());
    }
}

proof fn lemma_number(n: i32)
    ensures
        lock::i32_of(lock::i32_text_of(n)) == Some(n),
{
    reveal_strlit("-");
    let t = lock::i32_text_of(n);
    if n < 0 {
        let d = text::decimal((0 - n) as nat);
        text::law_decimal_reads_back((0 - n) as u64);
        assert(text::starts(t, "-"@)) by {
            assert(t.take(1) =~= "-"@);
        }
        assert(t.skip(1) =~= d);
        assert(text::without_prefix(t, "-"@) == Some(d));
    } else {
        text::law_decimal_reads_back(n as u64);
        text::lemma_decimal(n as nat);
        assert(!text::starts(t, "-"@)) by {
            if text::starts(t, "-"@) {
                assert(t.take(1)[0] == t[0]);
                assert(text::is_digit(t[0]));
            }
        }
    }
}

proof fn lemma_numbers(p: Seq<(Seq<char>, i32)>)
    requires
        collections::ordered(p),
    ensures
        lock::numbers_of(lock::number_values(p)) == Some(p),
    decreases p.len(),
{
    let v = lock::number_values(p);
    if p.len() > 0 {
        lemma_inserted_last(p);
        lemma_numbers(p.drop_last());
        assert(v.drop_last() =~= lock::number_values(p.drop_last()));
        assert(v.last() == (p.last().0, JsonView::Number(lock::i32_text_of(p.last().1))));
        lemma_number(p.last().1);
    } else {
        assert(p =~= Seq::empty());
    }
}

// ---------------------------------------------------------------------------
// Records

/// The first `n` members of a record: those that have a value.
pub open spec fn written(keys: Seq<Seq<char>>, values: Seq<Option<JsonView>>, n: nat) -> Seq<
    (Seq<char>, JsonView),
>
    decreases n,
{
    if n == 0 {
        Seq::empty()
    } else {
        written(keys, values, (n - 1) as nat) + fields::value_member(keys[n - 1], values[n - 1])
    }
}

proof fn lemma_written_absent(
    keys: Seq<Seq<char>>,
    values: Seq<Option<JsonView>>,
    n: nat,
    k: Seq<char>,
)
    requires
        n <= keys.len(),
        forall|i: int| 0 <= i < n ==> #[trigger] keys[i] != k,
    ensures
        collections::lookup(written(keys, values, n), k) is None,
    decreases n,
{
    if n > 0 {
        lemma_written_absent(keys, values, (n - 1) as nat, k);
        let last = fields::value_member(keys[n - 1], values[n - 1]);
        lemma_lookup_absent(last, k);
        lemma_lookup_sum(written(keys, values, (n - 1) as nat), last, k);
    }
}

proof fn lemma_written(keys: Seq<Seq<char>>, values: Seq<Option<JsonView>>, n: nat, i: int)
    requires
        n <= keys.len(),
        0 <= i < n,
        keys.no_duplicates(),
    ensures
        collections::lookup(written(keys, values, n), keys[i]) == values[i],
    decreases n,
{
    let rest = written(keys, values, (n - 1) as nat);
    let last = fields::value_member(keys[n - 1], values[n - 1]);
    lemma_lookup_sum(rest, last, keys[i]);
    if i == n - 1 {
        lemma_written_absent(keys, values, (n - 1) as nat, keys[i]);
    } else {
        lemma_written(keys, values, (n - 1) as nat, i);
        lemma_lookup_absent(last, keys[i]);
    }
}

/// A record is read back member by member; members under other names stay
/// behind it.
proof fn lemma_record(
    keys: Seq<Seq<char>>,
    values: Seq<Option<JsonView>>,
    others: Seq<(Seq<char>, JsonView)>,
)
    requires
        keys.no_duplicates(),
        forall|i: int| 0 <= i < others.len() ==> !keys.contains((#[trigger] others[i]).0),
    ensures
        forall|i: int|
            0 <= i < keys.len() ==> collections::lookup(
                written(keys, values, keys.len()) + others,
                #[trigger] keys[i],
            ) == values[i],
{
    let all = written(keys, values, keys.len());
    assert forall|i: int| 0 <= i < keys.len() implies collections::lookup(
        all + others,
        #[trigger] keys[i],
    ) == values[i] by {
        lemma_written(keys, values, keys.len(), i);
        lemma_lookup_sum(all, others, keys[i]);
        assert forall|j: int| 0 <= j < others.len() implies (#[trigger] others[j]).0
            != keys[i] by {
            assert(!keys.contains(others[j].0));
            assert(keys.contains(keys[i]));
        }
        lemma_lookup_absent(others, keys[i]);
    }
}

proof fn lemma_written_names(keys: Seq<Seq<char>>, values: Seq<Option<JsonView>>, n: nat)
    requires
        n <= keys.len(),
        keys.no_duplicates(),
    ensures
        json::distinct_names(written(keys, values, n)),
        forall|a: int|
            0 <= a < written(keys, values, n).len() ==> exists|i: int|
                0 <= i < n && #[trigger] keys[i] == (#[trigger] written(keys, values, n)[a]).0,
    decreases n,
{
    if n > 0 {
        let rest = written(keys, values, (n - 1) as nat);
        let all = written(keys, values, n);
        lemma_written_names(keys, values, (n - 1) as nat);
        assert forall|a: int| 0 <= a < all.len() implies exists|i: int|
            0 <= i < n && #[trigger] keys[i] == (#[trigger] all[a]).0 by {
            if a < rest.len() {
                assert(all[a] == rest[a]);
                let i = choose|i: int| 0 <= i < n - 1 && #[trigger] keys[i] == rest[a].0;
                assert(keys[i] == all[a].0);
            } else {
                assert(keys[n - 1] == all[a].0);
            }
        }
        assert forall|a: int, b: int| 0 <= a < b < all.len() implies (#[trigger] all[a]).0 != (
        #[trigger] all[b]).0 by {
            assert(all[a] == rest[a]);
            if b < rest.len() {
                assert(all[b] == rest[b]);
            } else {
                let i = choose|i: int| 0 <= i < n - 1 && #[trigger] keys[i] == rest[a].0;
                assert(keys[i] != keys[n - 1]);
            }
        }
    }
}

/// No known name stands twice in a record that was written.
proof fn lemma_no_repeats(
    keys: Seq<Seq<char>>,
    values: Seq<Option<JsonView>>,
    others: Seq<(Seq<char>, JsonView)>,
)
    requires
        keys.no_duplicates(),
        forall|i: int| 0 <= i < others.len() ==> !keys.contains((#[trigger] others[i]).0),
    ensures
        !fields::repeats(written(keys, values, keys.len()) + others, keys),
{
    let w = written(keys, values, keys.len());
    let m = w + others;
    lemma_written_names(keys, values, keys.len());
    if fields::repeats(m, keys) {
        let (i, j) = choose|i: int, j: int|
            0 <= i < j < m.len() && (#[trigger] m[i]).0 == (#[trigger] m[j]).0 && keys.contains(
                m[i].0,
            );
        if j >= w.len() {
            assert(m[j] == others[j - w.len()]);
            assert(!keys.contains(others[j - w.len()].0));
        } else {
            assert(m[i] == w[i] && m[j] == w[j]);
        }
    }
}

proof fn lemma_written_known(
    keys: Seq<Seq<char>>,
    values: Seq<Option<JsonView>>,
    n: nat,
    known: Seq<Seq<char>>,
)
    requires
        n <= keys.len(),
        forall|i: int| 0 <= i < n ==> known.contains(#[trigger] keys[i]),
    ensures
        fields::other_members(written(keys, values, n), known) == Seq::<
            (Seq<char>, JsonView),
        >::empty(),
    decreases n,
{
    if n > 0 {
        lemma_written_known(keys, values, (n - 1) as nat, known);
        let rest = written(keys, values, (n - 1) as nat);
        let all = written(keys, values, n);
        match values[n - 1] {
            Some(v) => {
                assert(all.drop_last() =~= rest);
                assert(all.last() == (keys[n - 1], v));
            },
            None => {
                assert(all =~= rest);
            },
        }
    }
}

/// Each member has one member for each name in all its objects.
pub open spec fn all_settled(m: Seq<(Seq<char>, JsonView)>) -> bool {
    forall|i: int| 0 <= i < m.len() ==> json::settled((#[trigger] m[i]).1) == m[i].1
}

/// The members under other names are read back in their order.
proof fn lemma_others(
    all: Seq<(Seq<char>, JsonView)>,
    others: Seq<(Seq<char>, JsonView)>,
    known: Seq<Seq<char>>,
)
    requires
        fields::other_members(all, known) == Seq::<(Seq<char>, JsonView)>::empty(),
        collections::ordered(others),
        forall|i: int| 0 <= i < others.len() ==> !known.contains((#[trigger] others[i]).0),
        all_settled(others),
    ensures
        fields::other_members(all + others, known) == others,
    decreases others.len(),
{
    if others.len() == 0 {
        assert(all + others =~= all);
        assert(others =~= Seq::empty());
    } else {
        let rest = others.drop_last();
        lemma_inserted_last(others);
        assert forall|i: int| 0 <= i < rest.len() implies !known.contains(
            (#[trigger] rest[i]).0,
        ) by {
            assert(!known.contains(others[i].0));
        }
        assert(all_settled(rest)) by {
            assert forall|i: int| 0 <= i < rest.len() implies json::settled((#[trigger] rest[i]).1)
                == rest[i].1 by {
                assert(json::settled(others[i].1) == others[i].1);
            }
        }
        assert(json::settled(others[others.len() - 1].1) == others[others.len() - 1].1);
        lemma_others(all, rest, known);
        assert((all + others).drop_last() =~= all + rest);
        assert((all + others).last() == others.last());
        assert(!known.contains(others[others.len() - 1].0));
    }
}

/// Names that have different places in a numbering are different.
proof fn lemma_numbered(keys: Seq<Seq<char>>, place: spec_fn(Seq<char>) -> int)
    requires
        forall|i: int| 0 <= i < keys.len() ==> place(#[trigger] keys[i]) == i,
    ensures
        keys.no_duplicates(),
{
    assert forall|i: int, j: int| 0 <= i < keys.len() && 0 <= j < keys.len() && i != j implies
        keys[i] != keys[j] by {
        assert(place(keys[i]) == i && place(keys[j]) == j);
    }
}

// ---------------------------------------------------------------------------
// Archives, sources and autoload configurations

proof fn lemma_source(s: lock::SourceView)
    ensures
        lock::source_json(JsonView::Object(lock::source_members(s))) == Some(s),
{
    reveal_strlit("type");
    reveal_strlit("url");
    reveal_strlit("reference");
    let keys = seq!["type"@, "url"@, "reference"@];
    let values = seq![
        Some(JsonView::Str(s.source_type)),
        Some(JsonView::Str(s.url)),
        opt_str(s.reference),
    ];
    assert(keys[0] == "type"@ && keys[1] == "url"@ && keys[2] == "reference"@);
    assert(keys[0].len() == 4 && keys[1].len() == 3 && keys[2].len() == 9);
    assert(keys.no_duplicates());
    reveal_with_fuel(written, 4);
    let none: Seq<(Seq<char>, JsonView)> = Seq::empty();
    assert(written(keys, values, 3) + none =~= lock::source_members(s));
    assert(keys =~= lock::source_names());
    lemma_record(keys, values, none);
    lemma_no_repeats(keys, values, none);
}

/// The mirrors of an archive have one member for each name in all their objects.
pub open spec fn dist_valid(d: lock::DistView) -> bool {
    d.mirrors matches Some(a) ==> json::settled_list(a) == a
}

proof fn lemma_dist(d: lock::DistView)
    requires
        dist_valid(d),
    ensures
        lock::dist_json(JsonView::Object(lock::dist_members(d))) == Some(d),
{
    reveal_strlit("type");
    reveal_strlit("url");
    reveal_strlit("reference");
    reveal_strlit("shasum");
    reveal_strlit("mirrors");
    let keys = seq!["type"@, "url"@, "reference"@, "shasum"@, "mirrors"@];
    let values = seq![
        Some(JsonView::Str(d.dist_type)),
        Some(JsonView::Str(d.url)),
        opt_str(d.reference),
        opt_str(d.shasum),
        match d.mirrors {
            Some(a) => Some(JsonView::Array(a)),
            None => None,
        },
    ];
    assert(keys[0] == "type"@ && keys[1] == "url"@ && keys[2] == "reference"@);
    assert(keys[3] == "shasum"@ && keys[4] == "mirrors"@);
    assert(keys[0].len() == 4 && keys[1].len() == 3 && keys[2].len() == 9);
    assert(keys[3].len() == 6 && keys[4].len() == 7);
    assert(keys.no_duplicates());
    reveal_with_fuel(written, 6);
    let none: Seq<(Seq<char>, JsonView)> = Seq::empty();
    assert(written(keys, values, 5) + none =~= lock::dist_members(d));
    assert(keys =~= lock::dist_names());
    lemma_record(keys, values, none);
    lemma_no_repeats(keys, values, none);
}

/// A text as a value.
pub open spec fn opt_str(t: Option<Seq<char>>) -> Option<JsonView> {
    match t {
        Some(s) => Some(JsonView::Str(s)),
        None => None,
    }
}

/// An object as a value, where it is not empty.
pub open spec fn opt_object(m: Seq<(Seq<char>, JsonView)>) -> Option<JsonView> {
    if m.len() == 0 {
        None
    } else {
        Some(JsonView::Object(m))
    }
}

/// A list as a value, where it is not empty.
pub open spec fn opt_array(a: Seq<JsonView>) -> Option<JsonView> {
    if a.len() == 0 {
        None
    } else {
        Some(JsonView::Array(a))
    }
}

proof fn lemma_link_member(p: Seq<(Seq<char>, Seq<char>)>)
    requires
        collections::ordered(p),
    ensures
        fields::link_map_of(opt_object(fields::link_values(p))) == Some(p),
{
    lemma_links(p);
    if p.len() == 0 {
        assert(p =~= Seq::empty());
    }
}

proof fn lemma_list_member(t: Seq<Seq<char>>)
    ensures
        fields::text_list_of(opt_array(fields::text_values(t))) == Some(t),
{
    lemma_texts(t);
    if t.len() == 0 {
        assert(t =~= Seq::empty());
    }
}

/// The maps of an autoload configuration are ordered by key.
pub open spec fn autoload_valid(a: package::AutoloadView) -> bool {
    collections::ordered(a.psr4) && collections::ordered(a.psr0)
}

/// An autoload configuration that was written is read back.
pub proof fn law_autoload_is_read_back(a: package::AutoloadView)
    requires
        autoload_valid(a),
    ensures
        package::autoload_json(JsonView::Object(package::autoload_members(a))) == Some(a),
{
    reveal_strlit("psr-4");
    reveal_strlit("psr-0");
    reveal_strlit("classmap");
    reveal_strlit("files");
    reveal_strlit("exclude_from_classmap");
    let keys = seq!["psr-4"@, "psr-0"@, "classmap"@, "files"@, "exclude_from_classmap"@];
    let values = seq![
        opt_object(package::namespace_values(a.psr4)),
        opt_object(package::namespace_values(a.psr0)),
        opt_array(fields::text_values(a.classmap)),
        opt_array(fields::text_values(a.files)),
        opt_array(fields::text_values(a.exclude_from_classmap)),
    ];
    assert(keys[0] == "psr-4"@ && keys[1] == "psr-0"@ && keys[2] == "classmap"@);
    assert(keys[3] == "files"@ && keys[4] == "exclude_from_classmap"@);
    assert(keys[0][4] == '4' && keys[1][4] == '0' && keys[3][4] == 's');
    assert(keys[0].len() == 5 && keys[1].len() == 5 && keys[2].len() == 8);
    assert(keys[3].len() == 5 && keys[4].len() == 21);
    assert(keys.no_duplicates());
    reveal_with_fuel(written, 6);
    let none: Seq<(Seq<char>, JsonView)> = Seq::empty();
    assert(written(keys, values, 5) + none =~= package::autoload_members(a));
    assert(keys =~= package::autoload_names());
    lemma_record(keys, values, none);
    lemma_no_repeats(keys, values, none);
    lemma_namespaces(a.psr4);
    lemma_namespaces(a.psr0);
    lemma_list_member(a.classmap);
    lemma_list_member(a.files);
    lemma_list_member(a.exclude_from_classmap);
    if a.psr4.len() == 0 {
        assert(a.psr4 =~= Seq::empty());
    }
    if a.psr0.len() == 0 {
        assert(a.psr0 =~= Seq::empty());
    }
}

// ---------------------------------------------------------------------------
// Names

/// The members of a package entry have different names.
proof fn lemma_package_names()
    ensures
        lock::known_members().no_duplicates(),
        lock::known_members().len() == 22,
        lock::known_members()[0] == "name"@,
        lock::known_members()[1] == "version"@,
        lock::known_members()[2] == "source"@,
        lock::known_members()[3] == "dist"@,
        lock::known_members()[4] == "require"@,
        lock::known_members()[5] == "require-dev"@,
        lock::known_members()[6] == "type"@,
        lock::known_members()[7] == "extra"@,
        lock::known_members()[8] == "autoload"@,
        lock::known_members()[9] == "autoload-dev"@,
        lock::known_members()[10] == "notification-url"@,
        lock::known_members()[11] == "license"@,
        lock::known_members()[12] == "description"@,
        lock::known_members()[13] == "homepage"@,
        lock::known_members()[14] == "keywords"@,
        lock::known_members()[15] == "time"@,
        lock::known_members()[16] == "replace"@,
        lock::known_members()[17] == "provide"@,
        lock::known_members()[18] == "conflict"@,
        lock::known_members()[19] == "suggest"@,
        lock::known_members()[20] == "bin"@,
        lock::known_members()[21] == "abandoned"@,
{
    let keys = lock::known_members();
    reveal_strlit("name");
    reveal_strlit("version");
    reveal_strlit("source");
    reveal_strlit("dist");
    reveal_strlit("require");
    reveal_strlit("require-dev");
    reveal_strlit("type");
    reveal_strlit("extra");
    reveal_strlit("autoload");
    reveal_strlit("autoload-dev");
    reveal_strlit("notification-url");
    reveal_strlit("license");
    reveal_strlit("description");
    reveal_strlit("homepage");
    reveal_strlit("keywords");
    reveal_strlit("time");
    reveal_strlit("replace");
    reveal_strlit("provide");
    reveal_strlit("conflict");
    reveal_strlit("suggest");
    reveal_strlit("bin");
    reveal_strlit("abandoned");
    assert(keys[0].len() == 4 && keys[0][0] == 'n' && keys[0][2] == 'm');
    assert(keys[1].len() == 7 && keys[1][0] == 'v' && keys[1][2] == 'r');
    assert(keys[2].len() == 6 && keys[2][0] == 's' && keys[2][2] == 'u');
    assert(keys[3].len() == 4 && keys[3][0] == 'd' && keys[3][2] == 's');
    assert(keys[4].len() == 7 && keys[4][0] == 'r' && keys[4][2] == 'q');
    assert(keys[5].len() == 11 && keys[5][0] == 'r' && keys[5][2] == 'q');
    assert(keys[6].len() == 4 && keys[6][0] == 't' && keys[6][2] == 'p');
    assert(keys[7].len() == 5 && keys[7][0] == 'e' && keys[7][2] == 't');
    assert(keys[8].len() == 8 && keys[8][0] == 'a' && keys[8][2] == 't');
    assert(keys[9].len() == 12 && keys[9][0] == 'a' && keys[9][2] == 't');
    assert(keys[10].len() == 16 && keys[10][0] == 'n' && keys[10][2] == 't');
    assert(keys[11].len() == 7 && keys[11][0] == 'l' && keys[11][2] == 'c');
    assert(keys[12].len() == 11 && keys[12][0] == 'd' && keys[12][2] == 's');
    assert(keys[13].len() == 8 && keys[13][0] == 'h' && keys[13][2] == 'm');
    assert(keys[14].len() == 8 && keys[14][0] == 'k' && keys[14][2] == 'y');
    assert(keys[15].len() == 4 && keys[15][0] == 't' && keys[15][2] == 'm');
    assert(keys[16].len() == 7 && keys[16][0] == 'r' && keys[16][2] == 'p');
    assert(keys[17].len() == 7 && keys[17][0] == 'p' && keys[17][2] == 'o');
    assert(keys[18].len() == 8 && keys[18][0] == 'c' && keys[18][2] == 'n');
    assert(keys[19].len() == 7 && keys[19][0] == 's' && keys[19][2] == 'g');
    assert(keys[20].len() == 3 && keys[20][0] == 'b' && keys[20][2] == 'n');
    assert(keys[21].len() == 9 && keys[21][0] == 'a' && keys[21][2] == 'a');
    let place = |k: Seq<char>|
        if k == "name"@ {
            0int
        } else if k == "version"@ {
            1int
        } else if k == "source"@ {
            2int
        } else if k == "dist"@ {
            3int
        } else if k == "require"@ {
            4int
        } else if k == "require-dev"@ {
            5int
        } else if k == "type"@ {
            6int
        } else if k == "extra"@ {
            7int
        } else if k == "autoload"@ {
            8int
        } else if k == "autoload-dev"@ {
            9int
        } else if k == "notification-url"@ {
            10int
        } else if k == "license"@ {
            11int
        } else if k == "description"@ {
            12int
        } else if k == "homepage"@ {
            13int
        } else if k == "keywords"@ {
            14int
        } else if k == "time"@ {
            15int
        } else if k == "replace"@ {
            16int
        } else if k == "provide"@ {
            17int
        } else if k == "conflict"@ {
            18int
        } else if k == "suggest"@ {
            19int
        } else if k == "bin"@ {
            20int
        } else if k == "abandoned"@ {
            21int
        } else {
            22int
        };
    assert(place(keys[0]) == 0);
    assert(place(keys[1]) == 1);
    assert(place(keys[2]) == 2);
    assert(place(keys[3]) == 3);
    assert(place(keys[4]) == 4);
    assert(place(keys[5]) == 5);
    assert(place(keys[6]) == 6);
    assert(place(keys[7]) == 7);
    assert(place(keys[8]) == 8);
    assert(place(keys[9]) == 9);
    assert(place(keys[10]) == 10);
    assert(place(keys[11]) == 11);
    assert(place(keys[12]) == 12);
    assert(place(keys[13]) == 13);
    assert(place(keys[14]) == 14);
    assert(place(keys[15]) == 15);
    assert(place(keys[16]) == 16);
    assert(place(keys[17]) == 17);
    assert(place(keys[18]) == 18);
    assert(place(keys[19]) == 19);
    assert(place(keys[20]) == 20);
    assert(place(keys[21]) == 21);
    lemma_numbered(keys, place);
}

/// The members of a manifest have different names.
proof fn lemma_manifest_names()
    ensures
        manifest::known_members().no_duplicates(),
        manifest::known_members().len() == 20,
        manifest::known_members()[0] == "name"@,
        manifest::known_members()[1] == "description"@,
        manifest::known_members()[2] == "type"@,
        manifest::known_members()[3] == "version"@,
        manifest::known_members()[4] == "license"@,
        manifest::known_members()[5] == "require"@,
        manifest::known_members()[6] == "require-dev"@,
        manifest::known_members()[7] == "autoload"@,
        manifest::known_members()[8] == "autoload-dev"@,
        manifest::known_members()[9] == "minimum-stability"@,
        manifest::known_members()[10] == "prefer-stable"@,
        manifest::known_members()[11] == "config"@,
        manifest::known_members()[12] == "scripts"@,
        manifest::known_members()[13] == "repositories"@,
        manifest::known_members()[14] == "extra"@,
        manifest::known_members()[15] == "replace"@,
        manifest::known_members()[16] == "provide"@,
        manifest::known_members()[17] == "conflict"@,
        manifest::known_members()[18] == "suggest"@,
        manifest::known_members()[19] == "bin"@,
{
    let keys = manifest::known_members();
    reveal_strlit("name");
    reveal_strlit("description");
    reveal_strlit("type");
    reveal_strlit("version");
    reveal_strlit("license");
    reveal_strlit("require");
    reveal_strlit("require-dev");
    reveal_strlit("autoload");
    reveal_strlit("autoload-dev");
    reveal_strlit("minimum-stability");
    reveal_strlit("prefer-stable");
    reveal_strlit("config");
    reveal_strlit("scripts");
    reveal_strlit("repositories");
    reveal_strlit("extra");
    reveal_strlit("replace");
    reveal_strlit("provide");
    reveal_strlit("conflict");
    reveal_strlit("suggest");
    reveal_strlit("bin");
    assert(keys[0].len() == 4 && keys[0][0] == 'n' && keys[0][2] == 'm');
    assert(keys[1].len() == 11 && keys[1][0] == 'd' && keys[1][2] == 's');
    assert(keys[2].len() == 4 && keys[2][0] == 't' && keys[2][2] == 'p');
    assert(keys[3].len() == 7 && keys[3][0] == 'v' && keys[3][2] == 'r');
    assert(keys[4].len() == 7 && keys[4][0] == 'l' && keys[4][2] == 'c');
    assert(keys[5].len() == 7 && keys[5][0] == 'r' && keys[5][2] == 'q');
    assert(keys[6].len() == 11 && keys[6][0] == 'r' && keys[6][2] == 'q');
    assert(keys[7].len() == 8 && keys[7][0] == 'a' && keys[7][2] == 't');
    assert(keys[8].len() == 12 && keys[8][0] == 'a' && keys[8][2] == 't');
    assert(keys[9].len() == 17 && keys[9][0] == 'm' && keys[9][2] == 'n');
    assert(keys[10].len() == 13 && keys[10][0] == 'p' && keys[10][2] == 'e');
    assert(keys[11].len() == 6 && keys[11][0] == 'c' && keys[11][2] == 'n');
    assert(keys[12].len() == 7 && keys[12][0] == 's' && keys[12][2] == 'r');
    assert(keys[13].len() == 12 && keys[13][0] == 'r' && keys[13][2] == 'p');
    assert(keys[14].len() == 5 && keys[14][0] == 'e' && keys[14][2] == 't');
    assert(keys[15].len() == 7 && keys[15][0] == 'r' && keys[15][2] == 'p');
    assert(keys[16].len() == 7 && keys[16][0] == 'p' && keys[16][2] == 'o');
    assert(keys[17].len() == 8 && keys[17][0] == 'c' && keys[17][2] == 'n');
    assert(keys[18].len() == 7 && keys[18][0] == 's' && keys[18][2] == 'g');
    assert(keys[19].len() == 3 && keys[19][0] == 'b' && keys[19][2] == 'n');
    let place = |k: Seq<char>|
        if k == "name"@ {
            0int
        } else if k == "description"@ {
            1int
        } else if k == "type"@ {
            2int
        } else if k == "version"@ {
            3int
        } else if k == "license"@ {
            4int
        } else if k == "require"@ {
            5int
        } else if k == "require-dev"@ {
            6int
        } else if k == "autoload"@ {
            7int
        } else if k == "autoload-dev"@ {
            8int
        } else if k == "minimum-stability"@ {
            9int
        } else if k == "prefer-stable"@ {
            10int
        } else if k == "config"@ {
            11int
        } else if k == "scripts"@ {
            12int
        } else if k == "repositories"@ {
            13int
        } else if k == "extra"@ {
            14int
        } else if k == "replace"@ {
            15int
        } else if k == "provide"@ {
            16int
        } else if k == "conflict"@ {
            17int
        } else if k == "suggest"@ {
            18int
        } else if k == "bin"@ {
            19int
        } else {
            20int
        };
    assert(place(keys[0]) == 0);
    assert(place(keys[1]) == 1);
    assert(place(keys[2]) == 2);
    assert(place(keys[3]) == 3);
    assert(place(keys[4]) == 4);
    assert(place(keys[5]) == 5);
    assert(place(keys[6]) == 6);
    assert(place(keys[7]) == 7);
    assert(place(keys[8]) == 8);
    assert(place(keys[9]) == 9);
    assert(place(keys[10]) == 10);
    assert(place(keys[11]) == 11);
    assert(place(keys[12]) == 12);
    assert(place(keys[13]) == 13);
    assert(place(keys[14]) == 14);
    assert(place(keys[15]) == 15);
    assert(place(keys[16]) == 16);
    assert(place(keys[17]) == 17);
    assert(place(keys[18]) == 18);
    assert(place(keys[19]) == 19);
    lemma_numbered(keys, place);
}

/// The members of a lock file have different names.
proof fn lemma_lock_names()
    ensures
        lock::lock_names().no_duplicates(),
        lock::lock_names().len() == 12,
        lock::lock_names()[0] == "_readme"@,
        lock::lock_names()[1] == "content-hash"@,
        lock::lock_names()[2] == "packages"@,
        lock::lock_names()[3] == "packages-dev"@,
        lock::lock_names()[4] == "aliases"@,
        lock::lock_names()[5] == "minimum-stability"@,
        lock::lock_names()[6] == "stability-flags"@,
        lock::lock_names()[7] == "prefer-stable"@,
        lock::lock_names()[8] == "prefer-lowest"@,
        lock::lock_names()[9] == "platform"@,
        lock::lock_names()[10] == "platform-dev"@,
        lock::lock_names()[11] == "plugin-api-version"@,
{
    let keys = lock::lock_names();
    reveal_strlit("_readme");
    reveal_strlit("content-hash");
    reveal_strlit("packages");
    reveal_strlit("packages-dev");
    reveal_strlit("aliases");
    reveal_strlit("minimum-stability");
    reveal_strlit("stability-flags");
    reveal_strlit("prefer-stable");
    reveal_strlit("prefer-lowest");
    reveal_strlit("platform");
    reveal_strlit("platform-dev");
    reveal_strlit("plugin-api-version");
    assert(keys[0].len() == 7 && keys[0][0] == '_' && keys[0][2] == 'e');
    assert(keys[1].len() == 12 && keys[1][0] == 'c' && keys[1][2] == 'n');
    assert(keys[2].len() == 8 && keys[2][0] == 'p' && keys[2][2] == 'c');
    assert(keys[3].len() == 12 && keys[3][0] == 'p' && keys[3][2] == 'c');
    assert(keys[4].len() == 7 && keys[4][0] == 'a' && keys[4][2] == 'i');
    assert(keys[5].len() == 17 && keys[5][0] == 'm' && keys[5][2] == 'n');
    assert(keys[6].len() == 15 && keys[6][0] == 's' && keys[6][2] == 'a');
    assert(keys[7].len() == 13 && keys[7][0] == 'p' && keys[7][2] == 'e');
    assert(keys[8].len() == 13 && keys[8][0] == 'p' && keys[8][2] == 'e');
    assert(keys[9].len() == 8 && keys[9][0] == 'p' && keys[9][2] == 'a');
    assert(keys[10].len() == 12 && keys[10][0] == 'p' && keys[10][2] == 'a');
    assert(keys[11].len() == 18 && keys[11][0] == 'p' && keys[11][2] == 'u');
    assert(keys[7][7] == 's' && keys[8][7] == 'l');
    let place = |k: Seq<char>|
        if k == "_readme"@ {
            0int
        } else if k == "content-hash"@ {
            1int
        } else if k == "packages"@ {
            2int
        } else if k == "packages-dev"@ {
            3int
        } else if k == "aliases"@ {
            4int
        } else if k == "minimum-stability"@ {
            5int
        } else if k == "stability-flags"@ {
            6int
        } else if k == "prefer-stable"@ {
            7int
        } else if k == "prefer-lowest"@ {
            8int
        } else if k == "platform"@ {
            9int
        } else if k == "platform-dev"@ {
            10int
        } else if k == "plugin-api-version"@ {
            11int
        } else {
            12int
        };
    assert(place(keys[0]) == 0);
    assert(place(keys[1]) == 1);
    assert(place(keys[2]) == 2);
    assert(place(keys[3]) == 3);
    assert(place(keys[4]) == 4);
    assert(place(keys[5]) == 5);
    assert(place(keys[6]) == 6);
    assert(place(keys[7]) == 7);
    assert(place(keys[8]) == 8);
    assert(place(keys[9]) == 9);
    assert(place(keys[10]) == 10);
    assert(place(keys[11]) == 11);
    lemma_numbered(keys, place);
}

// ---------------------------------------------------------------------------
// Packages and lock files

/// A value that is read as it is: not `null`, which would be read as nothing, and
/// with one member for each name in all its objects.
pub open spec fn reads_back(v: Option<JsonView>) -> bool {
    v matches Some(j) ==> !(j is Null) && json::settled(j) == j
}

/// The maps of a package are ordered by key, and its values of any type are read
/// as they are.
pub open spec fn package_valid(p: lock::LockedView) -> bool {
    &&& collections::ordered(p.require)
    &&& collections::ordered(p.require_dev)
    &&& collections::ordered(p.replace)
    &&& collections::ordered(p.provide)
    &&& collections::ordered(p.conflict)
    &&& collections::ordered(p.suggest)
    &&& p.autoload matches Some(a) ==> autoload_valid(a)
    &&& p.autoload_dev matches Some(a) ==> autoload_valid(a)
    &&& reads_back(p.extra)
    &&& reads_back(p.abandoned)
    &&& p.dist matches Some(d) ==> dist_valid(d)
}

/// The values of the members of a package entry.
pub open spec fn package_values(p: lock::LockedView) -> Seq<Option<JsonView>> {
    seq![
        Some(JsonView::Str(p.name)),
        Some(JsonView::Str(p.version)),
        match p.source {
            Some(s) => Some(JsonView::Object(lock::source_members(s))),
            None => None,
        },
        match p.dist {
            Some(d) => Some(JsonView::Object(lock::dist_members(d))),
            None => None,
        },
        opt_object(fields::link_values(p.require)),
        opt_object(fields::link_values(p.require_dev)),
        opt_str(p.package_type),
        p.extra,
        lock::autoload_value(p.autoload),
        lock::autoload_value(p.autoload_dev),
        opt_str(p.notification_url),
        opt_array(lock::license_values(p.license)),
        opt_str(p.description),
        opt_str(p.homepage),
        opt_array(fields::text_values(p.keywords)),
        opt_str(p.time),
        opt_object(fields::link_values(p.replace)),
        opt_object(fields::link_values(p.provide)),
        opt_object(fields::link_values(p.conflict)),
        opt_object(fields::link_values(p.suggest)),
        opt_array(fields::text_values(p.bin)),
        p.abandoned,
    ]
}

proof fn lemma_package_written(p: lock::LockedView)
    ensures
        lock::locked_members(p) == written(lock::known_members(), package_values(p), 22),
{
    lemma_package_names();
    let keys = lock::known_members();
    let values = package_values(p);
    reveal_with_fuel(written, 23);
    lemma_member_forms();
    assert(written(keys, values, 1) =~= seq![(keys[0], JsonView::Str(p.name))]);
}

/// Each way of writing a member is that of a value that may be missing.
proof fn lemma_member_forms()
    ensures
        forall|k: Seq<char>, t: Option<Seq<char>>| #[trigger]
            fields::text_member(k, t) == fields::value_member(k, opt_str(t)),
        forall|k: Seq<char>, m: Seq<(Seq<char>, JsonView)>| #[trigger]
            fields::object_member(k, m) == fields::value_member(k, opt_object(m)),
        forall|k: Seq<char>, a: Seq<JsonView>| #[trigger]
            fields::array_member(k, a) == fields::value_member(k, opt_array(a)),
        forall|k: Seq<char>, t: Seq<Seq<char>>| #[trigger]
            fields::list_member(k, t) == fields::value_member(
                k,
                opt_array(fields::text_values(t)),
            ),
{
}

/// A package that was written is read back.
pub proof fn law_package_is_read_back(p: lock::LockedView)
    requires
        package_valid(p),
    ensures
        lock::locked_json(JsonView::Object(lock::locked_members(p))) == Some(p),
{
    let keys = lock::known_members();
    let values = package_values(p);
    let m = lock::locked_members(p);
    let j = JsonView::Object(m);
    lemma_package_names();
    lemma_package_written(p);
    let none: Seq<(Seq<char>, JsonView)> = Seq::empty();
    assert(m + none =~= m);
    lemma_record(keys, values, none);
    lemma_no_repeats(keys, values, none);
    assert forall|i: int| 0 <= i < 22 implies json::get_of(j, #[trigger] keys[i]) == values[i] by {
    }
    if let Some(s) = p.source {
        lemma_source(s);
    }
    if let Some(d) = p.dist {
        lemma_dist(d);
    }
    lemma_link_member(p.require);
    lemma_link_member(p.require_dev);
    lemma_link_member(p.replace);
    lemma_link_member(p.provide);
    lemma_link_member(p.conflict);
    lemma_link_member(p.suggest);
    lemma_list_member(p.keywords);
    lemma_list_member(p.bin);
    if let Some(a) = p.autoload {
        law_autoload_is_read_back(a);
    }
    if let Some(a) = p.autoload_dev {
        law_autoload_is_read_back(a);
    }
    lemma_licenses(p.license);
    if p.license.len() == 0 {
        assert(p.license =~= Seq::empty());
    }
    assert(lock::license_list_of(opt_array(lock::license_values(p.license))) == Some(p.license));
    assert(keys[0] == "name"@ && keys[1] == "version"@ && keys[2] == "source"@);
    assert(keys[3] == "dist"@ && keys[4] == "require"@ && keys[5] == "require-dev"@);
    assert(keys[6] == "type"@ && keys[7] == "extra"@ && keys[8] == "autoload"@);
    assert(keys[9] == "autoload-dev"@ && keys[10] == "notification-url"@);
    assert(keys[11] == "license"@ && keys[12] == "description"@ && keys[13] == "homepage"@);
    assert(keys[14] == "keywords"@ && keys[15] == "time"@ && keys[16] == "replace"@);
    assert(keys[17] == "provide"@ && keys[18] == "conflict"@ && keys[19] == "suggest"@);
    assert(keys[20] == "bin"@ && keys[21] == "abandoned"@);
    assert(lock::parts_complete(lock::locked_parts(j)));
}

proof fn lemma_packages(v: Seq<lock::LockedView>)
    requires
        forall|i: int| 0 <= i < v.len() ==> package_valid(#[trigger] v[i]),
    ensures
        lock::packages_of(lock::locked_values(v)) == Some(v),
    decreases v.len(),
{
    let a = lock::locked_values(v);
    if v.len() > 0 {
        assert forall|i: int| 0 <= i < v.drop_last().len() implies package_valid(
            #[trigger] v.drop_last()[i],
        ) by {
            assert(package_valid(v[i]));
        }
        lemma_packages(v.drop_last());
        assert(a.drop_last() =~= lock::locked_values(v.drop_last()));
        assert(a.last() == JsonView::Object(lock::locked_members(v.last())));
        assert(package_valid(v[v.len() - 1]));
        law_package_is_read_back(v.last());
        assert(v.drop_last().push(v.last()) =~= v);
    } else {
        assert(v =~= Seq::empty());
    }
}

/// The maps of a lock file are ordered by key, its packages are valid, and its
/// aliases have one member for each name in all their objects.
pub open spec fn lock_valid(l: lock::LockView) -> bool {
    &&& forall|i: int| 0 <= i < l.packages.len() ==> package_valid(#[trigger] l.packages[i])
    &&& forall|i: int| 0 <= i < l.packages_dev.len() ==> package_valid(#[trigger] l.packages_dev[i])
    &&& json::settled_list(l.aliases) == l.aliases
    &&& collections::ordered(l.stability_flags)
    &&& collections::ordered(l.platform)
    &&& collections::ordered(l.platform_dev)
}

/// The values of the members of a lock file.
pub open spec fn lock_values(l: lock::LockView) -> Seq<Option<JsonView>> {
    seq![
        Some(JsonView::Array(fields::text_values(l.readme))),
        Some(JsonView::Str(l.content_hash)),
        Some(JsonView::Array(lock::locked_values(l.packages))),
        Some(JsonView::Array(lock::locked_values(l.packages_dev))),
        opt_array(l.aliases),
        Some(JsonView::Str(l.minimum_stability)),
        Some(JsonView::Object(lock::number_values(l.stability_flags))),
        Some(JsonView::Bool(l.prefer_stable)),
        Some(JsonView::Bool(l.prefer_lowest)),
        Some(JsonView::Object(fields::link_values(l.platform))),
        Some(JsonView::Object(fields::link_values(l.platform_dev))),
        Some(JsonView::Str(l.plugin_api_version)),
    ]
}

/// A lock file that was written is read back.
pub proof fn law_lock_is_read_back(l: lock::LockView)
    requires
        lock_valid(l),
    ensures
        lock::lock_json(JsonView::Object(lock::lock_members(l))) == Some(l),
{
    let keys = lock::lock_names();
    let values = lock_values(l);
    let m = lock::lock_members(l);
    let j = JsonView::Object(m);
    let none: Seq<(Seq<char>, JsonView)> = Seq::empty();
    lemma_lock_names();
    assert(m =~= written(keys, values, 12) + none) by {
        reveal_with_fuel(written, 13);
        lemma_member_forms();
        assert(written(keys, values, 1) =~= seq![
            (keys[0], JsonView::Array(fields::text_values(l.readme))),
        ]);
    }
    lemma_record(keys, values, none);
    lemma_no_repeats(keys, values, none);
    assert forall|i: int| 0 <= i < 12 implies json::get_of(j, #[trigger] keys[i]) == values[i] by {
    }
    lemma_texts(l.readme);
    lemma_packages(l.packages);
    lemma_packages(l.packages_dev);
    if l.aliases.len() == 0 {
        assert(l.aliases =~= Seq::empty());
    }
    lemma_numbers(l.stability_flags);
    lemma_links(l.platform);
    lemma_links(l.platform_dev);
    assert(keys[0] == "_readme"@ && keys[1] == "content-hash"@ && keys[2] == "packages"@);
    assert(keys[3] == "packages-dev"@ && keys[4] == "aliases"@);
    assert(keys[5] == "minimum-stability"@ && keys[6] == "stability-flags"@);
    assert(keys[7] == "prefer-stable"@ && keys[8] == "prefer-lowest"@);
    assert(keys[9] == "platform"@ && keys[10] == "platform-dev"@);
    assert(keys[11] == "plugin-api-version"@);
}

// ---------------------------------------------------------------------------
// Manifests

/// The maps of a manifest are ordered by key, its other members are not among
/// those that are read, and its values of any type are read as they are.
pub open spec fn manifest_valid(m: manifest::ManifestView) -> bool {
    &&& collections::ordered(m.require)
    &&& collections::ordered(m.require_dev)
    &&& collections::ordered(m.replace)
    &&& collections::ordered(m.provide)
    &&& collections::ordered(m.conflict)
    &&& collections::ordered(m.suggest)
    &&& m.autoload matches Some(a) ==> autoload_valid(a)
    &&& m.autoload_dev matches Some(a) ==> autoload_valid(a)
    &&& m.scripts matches Some(s) ==> collections::ordered(s) && all_settled(s)
    &&& reads_back(m.license)
    &&& reads_back(m.config)
    &&& reads_back(m.repositories)
    &&& reads_back(m.extra)
    &&& collections::ordered(m.rest)
    &&& all_settled(m.rest)
    &&& forall|i: int|
        0 <= i < m.rest.len() ==> !manifest::known_members().contains((#[trigger] m.rest[i]).0)
}

/// A truth value as a value.
pub open spec fn opt_bool(b: Option<bool>) -> Option<JsonView> {
    match b {
        Some(x) => Some(JsonView::Bool(x)),
        None => None,
    }
}

/// A map as a value.
pub open spec fn opt_map(m: Option<Seq<(Seq<char>, JsonView)>>) -> Option<JsonView> {
    match m {
        Some(x) => Some(JsonView::Object(x)),
        None => None,
    }
}

/// The values of the members of a manifest.
pub open spec fn manifest_values(m: manifest::ManifestView) -> Seq<Option<JsonView>> {
    seq![
        opt_str(m.name),
        opt_str(m.description),
        opt_str(m.package_type),
        opt_str(m.version),
        m.license,
        opt_object(fields::link_values(m.require)),
        opt_object(fields::link_values(m.require_dev)),
        lock::autoload_value(m.autoload),
        lock::autoload_value(m.autoload_dev),
        opt_str(m.minimum_stability),
        opt_bool(m.prefer_stable),
        m.config,
        opt_map(m.scripts),
        m.repositories,
        m.extra,
        opt_object(fields::link_values(m.replace)),
        opt_object(fields::link_values(m.provide)),
        opt_object(fields::link_values(m.conflict)),
        opt_object(fields::link_values(m.suggest)),
        opt_array(fields::text_values(m.bin)),
    ]
}

proof fn lemma_manifest_written(m: manifest::ManifestView)
    ensures
        manifest::manifest_members(m) == written(
            manifest::known_members(),
            manifest_values(m),
            20,
        ) + m.rest,
{
    lemma_manifest_names();
    let keys = manifest::known_members();
    let values = manifest_values(m);
    reveal_with_fuel(written, 21);
    lemma_member_forms();
    assert(manifest::bool_member("prefer-stable"@, m.prefer_stable) =~= fields::value_member(
        keys[10],
        values[10],
    ));
    assert(manifest::map_member("scripts"@, m.scripts) =~= fields::value_member(
        keys[12],
        values[12],
    ));
    assert(written(keys, values, 1) =~= fields::text_member("name"@, m.name));
}

proof fn lemma_sorted(p: Seq<(Seq<char>, JsonView)>)
    requires
        collections::ordered(p),
        all_settled(p),
    ensures
        fields::sorted_members(p) == p,
{
    let none: Seq<(Seq<char>, JsonView)> = Seq::empty();
    lemma_others(none, p, Seq::empty());
    assert(none + p =~= p);
}

proof fn lemma_manifest_read(m: manifest::ManifestView)
    requires
        manifest_valid(m),
    ensures
        ({
            let j = JsonView::Object(manifest::manifest_members(m));
            &&& json::get_of(j, "name"@) == opt_str(m.name)
            &&& json::get_of(j, "description"@) == opt_str(m.description)
            &&& json::get_of(j, "type"@) == opt_str(m.package_type)
            &&& json::get_of(j, "version"@) == opt_str(m.version)
            &&& json::get_of(j, "license"@) == m.license
            &&& json::get_of(j, "require"@) == opt_object(fields::link_values(m.require))
            &&& json::get_of(j, "require-dev"@) == opt_object(fields::link_values(m.require_dev))
            &&& json::get_of(j, "autoload"@) == lock::autoload_value(m.autoload)
            &&& json::get_of(j, "autoload-dev"@) == lock::autoload_value(m.autoload_dev)
            &&& json::get_of(j, "minimum-stability"@) == opt_str(m.minimum_stability)
            &&& json::get_of(j, "prefer-stable"@) == opt_bool(m.prefer_stable)
            &&& json::get_of(j, "config"@) == m.config
            &&& json::get_of(j, "scripts"@) == opt_map(m.scripts)
            &&& json::get_of(j, "repositories"@) == m.repositories
            &&& json::get_of(j, "extra"@) == m.extra
            &&& json::get_of(j, "replace"@) == opt_object(fields::link_values(m.replace))
            &&& json::get_of(j, "provide"@) == opt_object(fields::link_values(m.provide))
            &&& json::get_of(j, "conflict"@) == opt_object(fields::link_values(m.conflict))
            &&& json::get_of(j, "suggest"@) == opt_object(fields::link_values(m.suggest))
            &&& json::get_of(j, "bin"@) == opt_array(fields::text_values(m.bin))
        }),
        fields::other_members(manifest::manifest_members(m), manifest::known_members()) == m.rest,
        !fields::repeats(manifest::manifest_members(m), manifest::known_members()),
{
    let keys = manifest::known_members();
    let values = manifest_values(m);
    lemma_manifest_names();
    lemma_manifest_written(m);
    lemma_record(keys, values, m.rest);
    lemma_no_repeats(keys, values, m.rest);
    assert forall|i: int| 0 <= i < 20 implies keys.contains(#[trigger] keys[i]) by {
    }
    lemma_written_known(keys, values, 20, keys);
    lemma_others(written(keys, values, 20), m.rest, keys);
    assert(keys[0] == "name"@ && keys[1] == "description"@ && keys[2] == "type"@);
    assert(keys[3] == "version"@ && keys[4] == "license"@ && keys[5] == "require"@);
    assert(keys[6] == "require-dev"@ && keys[7] == "autoload"@ && keys[8] == "autoload-dev"@);
    assert(keys[9] == "minimum-stability"@ && keys[10] == "prefer-stable"@);
    assert(keys[11] == "config"@ && keys[12] == "scripts"@ && keys[13] == "repositories"@);
    assert(keys[14] == "extra"@ && keys[15] == "replace"@ && keys[16] == "provide"@);
    assert(keys[17] == "conflict"@ && keys[18] == "suggest"@ && keys[19] == "bin"@);
}

/// A manifest that was written is read back, with the members that it does
/// not know.
#[verifier::rlimit(60)]
pub proof fn law_manifest_is_read_back(m: manifest::ManifestView)
    requires
        manifest_valid(m),
    ensures
        manifest::manifest_json(JsonView::Object(manifest::manifest_members(m))) == Some(m),
{
    lemma_manifest_read(m);
    lemma_link_member(m.require);
    lemma_link_member(m.require_dev);
    lemma_link_member(m.replace);
    lemma_link_member(m.provide);
    lemma_link_member(m.conflict);
    lemma_link_member(m.suggest);
    lemma_list_member(m.bin);
    if let Some(a) = m.autoload {
        law_autoload_is_read_back(a);
    }
    if let Some(a) = m.autoload_dev {
        law_autoload_is_read_back(a);
    }
    if let Some(s) = m.scripts {
        lemma_sorted(s);
    }
    let j = JsonView::Object(manifest::manifest_members(m));
    assert(fields::object_of(j, manifest::known_members()) == Some(j));
    assert(fields::opt_value_of(m.license) == m.license);
    assert(fields::opt_value_of(m.config) == m.config);
    assert(fields::opt_value_of(m.repositories) == m.repositories);
    assert(fields::opt_value_of(m.extra) == m.extra);
    assert(fields::opt_map_of(opt_map(m.scripts)) == Some(m.scripts));
}

// ---------------------------------------------------------------------------
// What is read is valid

proof fn lemma_read_links(m: Seq<(Seq<char>, JsonView)>)
    ensures
        fields::links_of(m) matches Some(p) ==> collections::ordered(p),
    decreases m.len(),
{
    if m.len() > 0 {
        lemma_read_links(m.drop_last());
        match (fields::links_of(m.drop_last()), m.last().1) {
            (Some(rest), JsonView::Str(s)) => {
                collections::law_insertion_keeps_order(rest, m.last().0, s);
            },
            _ => {},
        }
    }
}

proof fn lemma_read_link_map(v: Option<JsonView>)
    ensures
        fields::link_map_of(v) matches Some(p) ==> collections::ordered(p),
{
    if let Some(JsonView::Object(m)) = v {
        lemma_read_links(m);
    }
}

proof fn lemma_read_namespaces(m: Seq<(Seq<char>, JsonView)>)
    ensures
        package::namespaces_of(m) matches Some(p) ==> collections::ordered(p),
    decreases m.len(),
{
    if m.len() > 0 {
        lemma_read_namespaces(m.drop_last());
        match (package::namespaces_of(m.drop_last()), package::paths_json(m.last().1)) {
            (Some(rest), Some(p)) => {
                collections::law_insertion_keeps_order(rest, m.last().0, p);
            },
            _ => {},
        }
    }
}

proof fn lemma_read_numbers(m: Seq<(Seq<char>, JsonView)>)
    ensures
        lock::numbers_of(m) matches Some(p) ==> collections::ordered(p),
    decreases m.len(),
{
    if m.len() > 0 {
        lemma_read_numbers(m.drop_last());
        match (lock::numbers_of(m.drop_last()), m.last().1) {
            (Some(rest), JsonView::Number(t)) => {
                if let Some(n) = lock::i32_of(t) {
                    collections::law_insertion_keeps_order(rest, m.last().0, n);
                }
            },
            _ => {},
        }
    }
}

proof fn lemma_inserted_settled(p: Seq<(Seq<char>, JsonView)>, k: Seq<char>, v: JsonView)
    requires
        all_settled(p),
        json::settled(v) == v,
    ensures
        all_settled(collections::inserted(p, k, v)),
    decreases p.len(),
{
    if p.len() > 0 {
        let rest = p.skip(1);
        assert forall|i: int| 0 <= i < rest.len() implies json::settled((#[trigger] rest[i]).1)
            == rest[i].1 by {
            assert(json::settled(p[i + 1].1) == p[i + 1].1);
        }
        lemma_inserted_settled(rest, k, v);
        let all = collections::inserted(p, k, v);
        let more = collections::inserted(rest, k, v);
        assert forall|i: int| 0 <= i < all.len() implies json::settled((#[trigger] all[i]).1)
            == all[i].1 by {
            assert(json::settled(p[0].1) == p[0].1);
            if p[0].0 == k {
                if i > 0 {
                    assert(all[i] == p[i]);
                }
            } else if text::text_lt(k, p[0].0) {
                if i > 0 {
                    assert(all[i] == p[i - 1]);
                }
            } else if i > 0 {
                assert(all[i] == more[i - 1]);
            }
        }
    }
}

proof fn lemma_read_value(v: Option<JsonView>)
    ensures
        reads_back(fields::opt_value_of(v)),
{
    if let Some(j) = v {
        json::lemma_settled_twice(j);
    }
}

proof fn lemma_read_list(a: Seq<JsonView>)
    ensures
        json::settled_list(json::settled_list(a)) == json::settled_list(a),
{
    json::lemma_settled_twice(JsonView::Array(a));
}

proof fn lemma_read_dist(v: Option<JsonView>)
    ensures
        lock::opt_dist_json(v) matches Some(Some(d)) ==> dist_valid(d),
{
    if let Some(j) = v {
        if let Some(r) = fields::record_of(j, lock::dist_names()) {
            if let Some(JsonView::Array(a)) = json::get_of(r, "mirrors"@) {
                lemma_read_list(a);
            }
        }
    }
}

proof fn lemma_read_others(m: Seq<(Seq<char>, JsonView)>, known: Seq<Seq<char>>)
    ensures
        collections::ordered(fields::other_members(m, known)),
        forall|i: int|
            0 <= i < fields::other_members(m, known).len() ==> !known.contains(
                (#[trigger] fields::other_members(m, known)[i]).0,
            ),
        all_settled(fields::other_members(m, known)),
    decreases m.len(),
{
    if m.len() > 0 {
        let rest = fields::other_members(m.drop_last(), known);
        lemma_read_others(m.drop_last(), known);
        if !known.contains(m.last().0) {
            let v = json::settled(m.last().1);
            let all = collections::inserted(rest, m.last().0, v);
            collections::law_insertion_keeps_order(rest, m.last().0, v);
            collections::lemma_inserted_keys(rest, m.last().0, v);
            json::lemma_settled_twice(m.last().1);
            lemma_inserted_settled(rest, m.last().0, v);
            assert forall|i: int| 0 <= i < all.len() implies !known.contains(
                (#[trigger] all[i]).0,
            ) by {
                if all[i].0 != m.last().0 {
                    let at = choose|at: int| 0 <= at < rest.len() && rest[at].0 == all[i].0;
                    assert(!known.contains(rest[at].0));
                }
            }
        }
    }
}

proof fn lemma_read_autoload(v: Option<JsonView>)
    ensures
        lock::opt_autoload_json(v) matches Some(Some(a)) ==> autoload_valid(a),
{
    if let Some(j) = v {
        if let Some(r) = fields::record_of(j, package::autoload_names()) {
            if let Some(JsonView::Object(m)) = json::get_of(r, "psr-4"@) {
                lemma_read_namespaces(m);
            }
            if let Some(JsonView::Object(m)) = json::get_of(r, "psr-0"@) {
                lemma_read_namespaces(m);
            }
        }
    }
}

/// A package that was read is valid, so that it is read back once written.
pub proof fn law_read_package_is_valid(j: JsonView)
    ensures
        lock::locked_json(j) matches Some(p) ==> package_valid(p) && lock::locked_json(
            JsonView::Object(lock::locked_members(p)),
        ) == Some(p),
{
    if let Some(r) = fields::record_of(j, lock::known_members()) {
        lemma_read_link_map(json::get_of(r, "require"@));
        lemma_read_link_map(json::get_of(r, "require-dev"@));
        lemma_read_link_map(json::get_of(r, "replace"@));
        lemma_read_link_map(json::get_of(r, "provide"@));
        lemma_read_link_map(json::get_of(r, "conflict"@));
        lemma_read_link_map(json::get_of(r, "suggest"@));
        lemma_read_autoload(json::get_of(r, "autoload"@));
        lemma_read_autoload(json::get_of(r, "autoload-dev"@));
        lemma_read_dist(json::get_of(r, "dist"@));
        lemma_read_value(json::get_of(r, "extra"@));
        lemma_read_value(json::get_of(r, "abandoned"@));
    }
    if let Some(p) = lock::locked_json(j) {
        law_package_is_read_back(p);
    }
}

proof fn lemma_read_packages(a: Seq<JsonView>)
    ensures
        lock::packages_of(a) matches Some(v) ==> forall|i: int|
            0 <= i < v.len() ==> package_valid(#[trigger] v[i]),
    decreases a.len(),
{
    if a.len() > 0 {
        lemma_read_packages(a.drop_last());
        law_read_package_is_valid(a.last());
    }
}

/// A lock file that was read is valid, so that it is read back once written.
pub proof fn law_read_lock_is_valid(j: JsonView)
    ensures
        lock::lock_json(j) matches Some(l) ==> lock_valid(l) && lock::lock_json(
            JsonView::Object(lock::lock_members(l)),
        ) == Some(l),
{
    if let Some(r) = fields::record_of(j, lock::lock_names()) {
        if let Some(JsonView::Array(a)) = json::get_of(r, "packages"@) {
            lemma_read_packages(a);
        }
        if let Some(JsonView::Array(a)) = json::get_of(r, "packages-dev"@) {
            lemma_read_packages(a);
        }
        if let Some(JsonView::Array(a)) = json::get_of(r, "aliases"@) {
            lemma_read_list(a);
        }
        if let Some(JsonView::Object(m)) = json::get_of(r, "stability-flags"@) {
            lemma_read_numbers(m);
        }
        lemma_read_link_map(json::get_of(r, "platform"@));
        lemma_read_link_map(json::get_of(r, "platform-dev"@));
    }
    if let Some(l) = lock::lock_json(j) {
        law_lock_is_read_back(l);
    }
}

/// A manifest that was read is valid, so that it is read back once written.
pub proof fn law_read_manifest_is_valid(j: JsonView)
    ensures
        manifest::manifest_json(j) matches Some(m) ==> manifest_valid(m)
            && manifest::manifest_json(JsonView::Object(manifest::manifest_members(m))) == Some(m),
{
    lemma_read_link_map(json::get_of(j, "require"@));
    lemma_read_link_map(json::get_of(j, "require-dev"@));
    lemma_read_link_map(json::get_of(j, "replace"@));
    lemma_read_link_map(json::get_of(j, "provide"@));
    lemma_read_link_map(json::get_of(j, "conflict"@));
    lemma_read_link_map(json::get_of(j, "suggest"@));
    lemma_read_autoload(json::get_of(j, "autoload"@));
    lemma_read_autoload(json::get_of(j, "autoload-dev"@));
    if let Some(JsonView::Object(m)) = json::get_of(j, "scripts"@) {
        lemma_read_others(m, Seq::empty());
    }
    if let JsonView::Object(m) = j {
        lemma_read_others(m, manifest::known_members());
    }
    lemma_read_value(json::get_of(j, "license"@));
    lemma_read_value(json::get_of(j, "config"@));
    lemma_read_value(json::get_of(j, "repositories"@));
    lemma_read_value(json::get_of(j, "extra"@));
    if let Some(m) = manifest::manifest_json(j) {
        law_manifest_is_read_back(m);
    }
}

// ---------------------------------------------------------------------------
// Files

/// A value that can be written: it is read back as it is.
pub open spec fn writable(m: Seq<(Seq<char>, JsonView)>) -> bool {
    json::plain(JsonView::Object(m), json::MAX_DEPTH as nat)
}

impl ComposerLock {
    /// The text of the file that holds the lock file. From it a valid lock
    /// file is read back.
    pub fn to_text(&self) -> (r: Result<String, Error>)
        ensures
            match json::held_as(JsonView::Object(lock::lock_members(self@))) {
                Some(v) => r matches Ok(t) && t@ == json::file_text(v),
                None => r matches Err(Error::Json(m)) && m@ == "invalid number"@,
            },
            lock_valid(self@) && writable(lock::lock_members(self@)) ==> (r matches Ok(t)
                && lock::lock_of_text(t@) == Ok::<_, Seq<char>>(self@)),
    {
        proof {
            if lock_valid(self@) {
                law_lock_is_read_back(self@);
            }
        }
        match json::to_file(&self.to_json()) {
            Some(t) => Ok(t),
            None => Err(Error::Json(String::from_str("invalid number"))),
        }
    }
}

impl ComposerJson {
    /// The text of the file that holds the manifest. From it a valid manifest
    /// is read back.
    pub fn to_text(&self) -> (r: Result<String, Error>)
        ensures
            match json::held_as(JsonView::Object(manifest::manifest_members(self@))) {
                Some(v) => r matches Ok(t) && t@ == json::file_text(v),
                None => r matches Err(Error::Json(m)) && m@ == "invalid number"@,
            },
            manifest_valid(self@) && writable(manifest::manifest_members(self@)) ==> (r matches Ok(
                t,
            ) && manifest::manifest_of_text(t@) == Ok::<_, Seq<char>>(self@)),
    {
        proof {
            if manifest_valid(self@) {
                law_manifest_is_read_back(self@);
            }
        }
        match json::to_file(&self.to_json()) {
            Some(t) => Ok(t),
            None => Err(Error::Json(String::from_str("invalid number"))),
        }
    }
}

} // verus!
