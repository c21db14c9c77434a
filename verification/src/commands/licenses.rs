//! The licenses of locked packages.

use crate::collections;
use crate::collections::StrMap;
use crate::fields;
use crate::json;
use crate::json::Json;
use crate::lock;
use crate::lock::License;
use crate::lock::LockedPackage;
use crate::text;
use vstd::prelude::*;

verus! {

/// What is asked of licenses.
#[derive(Debug, Clone)]
pub struct LicensesArgs {
    pub format: String,
    pub no_dev: bool,
}

/// A package and its licenses.
#[derive(Debug, Clone)]
pub struct LicenseRow {
    pub name: String,
    pub licenses: Vec<String>,
}

impl View for LicenseRow {
    type V = (Seq<char>, Seq<Seq<char>>);

    open spec fn view(&self) -> (Seq<char>, Seq<Seq<char>>) {
        (self.name@, text::texts(self.licenses@))
    }
}

/// What rows consist of.
pub open spec fn row_views(v: Seq<LicenseRow>) -> Seq<(Seq<char>, Seq<Seq<char>>)> {
    v.map_values(|r: LicenseRow| r@)
}

/// The text of a license.
pub open spec fn license_text(l: lock::LicenseView) -> Seq<char> {
    match l {
        lock::LicenseView::One(s) => s,
        lock::LicenseView::Many(v) => text::joined(v, " OR "@),
    }
}

/// The licenses of a package, as they are shown.
pub open spec fn shown_licenses(p: lock::LockedView) -> Seq<Seq<char>> {
    if p.license.len() == 0 {
        seq!["none"@]
    } else {
        p.license.map_values(|l: lock::LicenseView| license_text(l))
    }
}

/// The rows of packages.
pub open spec fn rows_of(v: Seq<lock::LockedView>) -> Seq<(Seq<char>, Seq<Seq<char>>)> {
    v.map_values(|p: lock::LockedView| (p.name, shown_licenses(p)))
}

fn package_licenses(p: &LockedPackage) -> (r: Vec<String>)
    ensures
        text::texts(r@) == shown_licenses(p@),
{
    let mut out: Vec<String> = Vec::new();
    let n: usize = p.license.len();
    if n == 0 {
        out.push(String::from_str("none"));
        assert(text::texts(out@) =~= seq!["none"@]);
        return out;
    }
    let mut i: usize = 0;
    while i < n
        invariant
            i <= n,
            n == p.license@.len(),
            out@.len() == i,
            forall|j: int|
                0 <= j < i ==> (#[trigger] out@[j])@ == license_text(p.license@[j]@),
        decreases n - i,
    {
        let t = match &p.license[i] {
            License::One(s) => String::from_str(s.as_str()),
            License::Many(v) => text::join(v, " OR "),
        };
        out.push(t);
        i += 1;
    }
    assert(text::texts(out@) =~= shown_licenses(p@));
    out
}

/// The licenses of packages.
pub fn license_rows(packages: &Vec<&LockedPackage>) -> (r: Vec<LicenseRow>)
    ensures
        row_views(r@) == rows_of(lock::ref_views(packages@)),
{
    let mut out: Vec<LicenseRow> = Vec::new();
    let n: usize = packages.len();
    let mut i: usize = 0;
    while i < n
        invariant
            i <= n,
            n == packages@.len(),
            out@.len() == i,
            forall|j: int|
                0 <= j < i ==> (#[trigger] out@[j])@ == (
                    packages@[j]@.name,
                    shown_licenses(packages@[j]@),
                ),
        decreases n - i,
    {
        let p = packages[i];
        out.push(
            LicenseRow { name: String::from_str(p.name.as_str()), licenses: package_licenses(p) },
        );
        i += 1;
    }
    assert(row_views(out@) =~= rows_of(lock::ref_views(packages@)));
    out
}

/// All licenses of rows.
pub open spec fn all_licenses(rows: Seq<(Seq<char>, Seq<Seq<char>>)>) -> Seq<Seq<char>>
    decreases rows.len(),
{
    if rows.len() == 0 {
        Seq::empty()
    } else {
        all_licenses(rows.drop_last()) + rows.last().1
    }
}

/// How often each license occurs.
pub open spec fn tally(l: Seq<Seq<char>>) -> Seq<(Seq<char>, usize)>
    decreases l.len(),
{
    if l.len() == 0 {
        Seq::empty()
    } else {
        let rest = tally(l.drop_last());
        collections::inserted(
            rest,
            l.last(),
            match collections::lookup(rest, l.last()) {
                Some(n) => (n + 1) as usize,
                None => 1usize,
            },
        )
    }
}

/// The number of times that a license occurs.
pub open spec fn occurrences(l: Seq<Seq<char>>, x: Seq<char>) -> nat
    decreases l.len(),
{
    if l.len() == 0 {
        0
    } else {
        occurrences(l.drop_last(), x) + if l.last() == x {
            1nat
        } else {
            0
        }
    }
}

/// The tally tells how often each license occurs.
pub proof fn law_tally_counts(l: Seq<Seq<char>>, x: Seq<char>)
    requires
        l.len() <= usize::MAX,
    ensures
        collections::lookup(tally(l), x) == if occurrences(l, x) == 0 {
            None
        } else {
            Some(occurrences(l, x) as usize)
        },
        occurrences(l, x) <= l.len(),
    decreases l.len(),
{
    if l.len() > 0 {
        let rest = tally(l.drop_last());
        law_tally_counts(l.drop_last(), x);
        law_tally_counts(l.drop_last(), l.last());
        let n = match collections::lookup(rest, l.last()) {
            Some(n) => (n + 1) as usize,
            None => 1usize,
        };
        collections::law_lookup_inserted(rest, l.last(), n, x);
    }
}

fn flat_licenses(rows: &Vec<LicenseRow>) -> (r: Vec<String>)
    ensures
        text::texts(r@) == all_licenses(row_views(rows@)),
{
    let ghost all = row_views(rows@);
    let mut out: Vec<String> = Vec::new();
    let n: usize = rows.len();
    let mut i: usize = 0;
    assert(text::texts(out@) =~= Seq::empty());
    while i < n
        invariant
            i <= n,
            n == rows@.len(),
            all == row_views(rows@),
            text::texts(out@) == all_licenses(all.take(i as int)),
        decreases n - i,
    {
        let list = &rows[i].licenses;
        let ghost start = text::texts(out@);
        proof {
            assert(all.take(i + 1).drop_last() =~= all.take(i as int));
            assert(all.take(i + 1).last() == rows@[i as int]@);
        }
        let m: usize = list.len();
        let mut j: usize = 0;
        while j < m
            invariant
                j <= m,
                m == list@.len(),
                text::texts(out@) == start + text::texts(list@).take(j as int),
            decreases m - j,
        {
            let ghost before = text::texts(out@);
            out.push(String::from_str(list[j].as_str()));
            assert(text::texts(out@) =~= before.push(list@[j as int]@));
            assert(text::texts(out@) =~= start + text::texts(list@).take(j + 1));
            j += 1;
        }
        assert(text::texts(list@).take(m as int) =~= text::texts(list@));
        i += 1;
    }
    assert(all.take(n as int) =~= all);
    out
}

/// How often each license occurs.
pub fn license_summary(rows: &Vec<LicenseRow>) -> (r: StrMap<usize>)
    ensures
        r@ == tally(all_licenses(row_views(rows@))),
{
    let flat = flat_licenses(rows);
    let ghost all = text::texts(flat@);
    let mut m: StrMap<usize> = StrMap::new();
    let n: usize = flat.len();
    let mut i: usize = 0;
    while i < n
        invariant
            i <= n,
            n == flat@.len(),
            all == text::texts(flat@),
            m@ == tally(all.take(i as int)),
        decreases n - i,
    {
        let x = flat[i].as_str();
        proof {
            assert(all.take(i + 1).drop_last() =~= all.take(i as int));
            assert(all.take(i + 1).last() == x@);
            law_tally_counts(all.take(i as int), x@);
        }
        let count: usize = match m.get(x) {
            Some(c) => *c + 1,
            None => 1,
        };
        m.insert(String::from_str(x), count);
        i += 1;
    }
    assert(all.take(n as int) =~= all);
    m
}

/// The lines on packages.
pub open spec fn row_line(r: (Seq<char>, Seq<Seq<char>>)) -> Seq<char> {
    r.0 + ": "@ + text::joined(r.1, ", "@)
}

impl LicenseRow {
    /// The line on the package.
    pub fn line(&self) -> (r: String)
        ensures
            r@ == row_line(self@),
    {
        let l = text::join(&self.licenses, ", ");
        text::cat3(self.name.as_str(), ": ", l.as_str())
    }
}

/// The members on a package.
pub open spec fn row_value(r: (Seq<char>, Seq<Seq<char>>)) -> json::JsonView {
    json::JsonView::Object(
        seq![
            ("name"@, json::JsonView::Str(r.0)),
            ("license"@, json::JsonView::Array(fields::text_values(r.1))),
        ],
    )
}

/// The numbers of a summary.
pub open spec fn summary_values(m: Seq<(Seq<char>, usize)>) -> Seq<(Seq<char>, json::JsonView)> {
    m.map_values(
        |e: (Seq<char>, usize)| (e.0, json::JsonView::Number(text::decimal(e.1 as nat))),
    )
}

/// The licenses of packages as a JSON value.
pub open spec fn licenses_value(rows: Seq<(Seq<char>, Seq<Seq<char>>)>) -> json::JsonView {
    json::JsonView::Object(
        seq![
            (
                "packages"@,
                json::JsonView::Array(rows.map_values(|r: (Seq<char>, Seq<Seq<char>>)| row_value(r))),
            ),
            ("summary"@, json::JsonView::Object(summary_values(tally(all_licenses(rows))))),
        ],
    )
}

fn row_json(r: &LicenseRow) -> (j: Json)
    ensures
        j@ == row_value(r@),
{
    let mut m: Vec<(String, Json)> = Vec::new();
    m.push((String::from_str("name"), fields::text_json(r.name.as_str())));
    m.push((String::from_str("license"), fields::list_json(&r.licenses)));
    proof {
        json::lemma_object_view(m);
        assert(json::members(m@) =~= row_value(r@)->Object_0);
    }
    Json::Object(m)
}

fn summary_json(s: &StrMap<usize>) -> (r: Json)
    ensures
        r@ == json::JsonView::Object(summary_values(s@)),
{
    let mut m: Vec<(String, Json)> = Vec::new();
    let n: usize = s.entries.len();
    let mut i: usize = 0;
    while i < n
        invariant
            i <= n,
            n == s.entries@.len(),
            m@.len() == i,
            forall|j: int|
                0 <= j < i ==> (#[trigger] m@[j]).0@ == s@[j].0 && m@[j].1@
                    == json::JsonView::Number(text::decimal(s@[j].1 as nat)),
        decreases n - i,
    {
        let v = Json::Number(text::usize_text(s.entries[i].1));
        m.push((String::from_str(s.entries[i].0.as_str()), v));
        i += 1;
    }
    proof {
        json::lemma_object_view(m);
        assert(json::members(m@) =~= summary_values(s@));
    }
    Json::Object(m)
}

/// The licenses of packages as a JSON value.
pub fn licenses_json(rows: &Vec<LicenseRow>) -> (r: Json)
    ensures
        r@ == licenses_value(row_views(rows@)),
{
    let mut a: Vec<Json> = Vec::new();
    let n: usize = rows.len();
    let mut i: usize = 0;
    while i < n
        invariant
            i <= n,
            n == rows@.len(),
            a@.len() == i,
            forall|j: int| 0 <= j < i ==> (#[trigger] a@[j])@ == row_value(rows@[j]@),
        decreases n - i,
    {
        a.push(row_json(&rows[i]));
        i += 1;
    }
    let ghost views = row_views(rows@);
    proof {
        json::lemma_array_view(a);
        assert(json::elements(a@) =~= views.map_values(
            |r: (Seq<char>, Seq<Seq<char>>)| row_value(r),
        ));
    }
    let summary = license_summary(rows);
    let mut m: Vec<(String, Json)> = Vec::new();
    m.push((String::from_str("packages"), Json::Array(a)));
    m.push((String::from_str("summary"), summary_json(&summary)));
    proof {
        json::lemma_object_view(m);
        assert(json::members(m@) =~= licenses_value(views)->Object_0);
    }
    Json::Object(m)
}

/// Each package has a row with its licenses, alternatives on one line; a package
/// without any has `none`.
pub proof fn law_rows_of_packages(v: Seq<lock::LockedView>, i: int, k: int, a: Seq<char>, b: Seq<char>)
    requires
        0 <= i < v.len(),
    ensures
        rows_of(v).len() == v.len(),
        rows_of(v)[i].0 == v[i].name,
        v[i].license.len() == 0 ==> rows_of(v)[i].1 == seq!["none"@],
        (0 <= k < v[i].license.len()) ==> {
            &&& rows_of(v)[i].1.len() == v[i].license.len()
            &&& v[i].license[k] == lock::LicenseView::One(a) ==> rows_of(v)[i].1[k] == a
            &&& v[i].license[k] == lock::LicenseView::Many(seq![a, b]) ==> rows_of(v)[i].1[k] == a
                + " OR "@ + b
        },
{
    let two = seq![a, b];
    assert(two.drop_last() =~= seq![a]);
    assert(two.last() == b);
    assert(text::joined(seq![a], " OR "@) == seq![a][0]);
    assert(text::joined(two, " OR "@) == a + " OR "@ + b);
}

/// The licenses that are counted are those of all rows.
pub proof fn law_all_licenses(
    a: Seq<(Seq<char>, Seq<Seq<char>>)>,
    b: Seq<(Seq<char>, Seq<Seq<char>>)>,
    r: (Seq<char>, Seq<Seq<char>>),
)
    ensures
        all_licenses(a + b) == all_licenses(a) + all_licenses(b),
        all_licenses(seq![r]) == r.1,
    decreases b.len(),
{
    assert(seq![r].drop_last() =~= Seq::empty());
    assert(seq![r].last() == r);
    assert(all_licenses(seq![r].drop_last()) =~= Seq::empty());
    assert(Seq::<Seq<char>>::empty() + r.1 =~= r.1);
    if b.len() > 0 {
        assert((a + b).drop_last() =~= a + b.drop_last());
        law_all_licenses(a, b.drop_last(), r);
        assert(all_licenses(a) + (all_licenses(b.drop_last()) + b.last().1) =~= all_licenses(a)
            + all_licenses(b.drop_last()) + b.last().1);
    } else {
        assert(a + b =~= a);
        assert(all_licenses(a) + all_licenses(b) =~= all_licenses(a));
    }
}

} // verus!
