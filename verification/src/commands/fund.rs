//! Where the makers of packages take donations.

use crate::commands::depends;
use crate::fields;
use crate::json;
use crate::json::Json;
use crate::text;
use vstd::prelude::*;

verus! {

/// What is asked of donations.
#[derive(Debug, Clone)]
pub struct FundArgs {
    pub format: String,
    pub no_dev: bool,
}

/// Where donations for a package are taken.
#[derive(Debug, Clone)]
pub struct FundEntry {
    pub package: String,
    pub url: String,
    pub fund_type: Option<String>,
}

/// What an entry consists of.
pub struct FundView {
    pub package: Seq<char>,
    pub url: Seq<char>,
    pub fund_type: Option<Seq<char>>,
}

impl View for FundEntry {
    type V = FundView;

    open spec fn view(&self) -> FundView {
        FundView {
            package: self.package@,
            url: self.url@,
            fund_type: text::opt_text(self.fund_type),
        }
    }
}

/// What a list of entries consists of.
pub open spec fn fund_views(v: Seq<FundEntry>) -> Seq<FundView> {
    v.map_values(|e: FundEntry| e@)
}

/// The entry that an object with an address tells.
pub open spec fn object_entry(package: Seq<char>, j: json::JsonView) -> Option<FundView> {
    match json::text_at(j, "url"@) {
        Some(u) => Some(FundView { package, url: u, fund_type: json::text_at(j, "type"@) }),
        None => None,
    }
}

/// The entry that an element of a list tells.
pub open spec fn item_entry(package: Seq<char>, j: json::JsonView) -> Option<FundView> {
    match object_entry(package, j) {
        Some(e) => Some(e),
        None => match json::str_of(j) {
            Some(u) => Some(FundView { package, url: u, fund_type: None }),
            None => None,
        },
    }
}

/// The entries that a list tells.
pub open spec fn item_entries(package: Seq<char>, a: Seq<json::JsonView>) -> Seq<FundView>
    decreases a.len(),
{
    if a.len() == 0 {
        Seq::empty()
    } else {
        let rest = item_entries(package, a.drop_last());
        match item_entry(package, a.last()) {
            Some(e) => rest.push(e),
            None => rest,
        }
    }
}

/// The entries that the `funding` of a package tells: a list, one object or one
/// address.
pub open spec fn funding_of(package: Seq<char>, j: json::JsonView) -> Seq<FundView> {
    match j {
        json::JsonView::Array(a) => item_entries(package, a),
        json::JsonView::Object(_) => match object_entry(package, j) {
            Some(e) => seq![e],
            None => Seq::empty(),
        },
        json::JsonView::Str(u) => seq![FundView { package, url: u, fund_type: None }],
        _ => Seq::empty(),
    }
}

fn entry(package: &str, url: &str, kind: Option<&str>) -> (r: FundEntry)
    ensures
        r@ == (FundView { package: package@, url: url@, fund_type: text::opt_view(kind) }),
{
    FundEntry {
        package: String::from_str(package),
        url: String::from_str(url),
        fund_type: match kind {
            Some(k) => Some(String::from_str(k)),
            None => None,
        },
    }
}

fn read_entry(package: &str, j: &Json) -> (r: Option<FundEntry>)
    ensures
        match r {
            Some(e) => object_entry(package@, j@) == Some(e@),
            None => object_entry(package@, j@) is None,
        },
{
    match json::get_str(j, "url") {
        Some(u) => Some(entry(package, u, json::get_str(j, "type"))),
        None => None,
    }
}

fn read_item(package: &str, j: &Json) -> (r: Option<FundEntry>)
    ensures
        match r {
            Some(e) => item_entry(package@, j@) == Some(e@),
            None => item_entry(package@, j@) is None,
        },
{
    match read_entry(package, j) {
        Some(e) => Some(e),
        None => match j.as_str() {
            Some(u) => Some(entry(package, u, None)),
            None => None,
        },
    }
}

/// Puts the entries that the `funding` of a package tells behind others.
pub fn collect_funding(package: &str, funding: &Json, out: &mut Vec<FundEntry>)
    ensures
        fund_views(final(out)@) == fund_views(old(out)@) + funding_of(package@, funding@),
{
    let ghost start = fund_views(out@);
    assert(start + Seq::<FundView>::empty() =~= start);
    match funding {
        Json::Array(a) => {
            let ghost all = json::elements(a@);
            proof {
                json::lemma_array_view(*a);
            }
            let n: usize = a.len();
            let mut i: usize = 0;
            assert(all.take(0) =~= Seq::empty());
            while i < n
                invariant
                    i <= n,
                    n == a@.len(),
                    all == json::elements(a@),
                    fund_views(out@) == start + item_entries(package@, all.take(i as int)),
                decreases n - i,
            {
                let ghost before = item_entries(package@, all.take(i as int));
                proof {
                    assert(all.take(i + 1).drop_last() =~= all.take(i as int));
                    assert(all.take(i + 1).last() == a@[i as int]@);
                }
                if let Some(e) = read_item(package, &a[i]) {
                    let ghost list = fund_views(out@);
                    out.push(e);
                    assert(fund_views(out@) =~= list.push(e@));
                    assert(fund_views(out@) =~= start + before.push(e@));
                }
                i += 1;
            }
            assert(all.take(n as int) =~= all);
        },
        Json::Object(_) => {
            if let Some(e) = read_entry(package, funding) {
                out.push(e);
                assert(fund_views(out@) =~= start + seq![e@]);
            }
        },
        Json::Str(u) => {
            let e = entry(package, u.as_str(), None);
            out.push(e);
            assert(fund_views(out@) =~= start + seq![e@]);
        },
        _ => {},
    }
}

// ---------------------------------------------------------------------------
// What is shown

/// The members of an entry.
pub open spec fn fund_members(e: FundView) -> Seq<(Seq<char>, json::JsonView)> {
    let head = seq![
        ("package"@, json::JsonView::Str(e.package)),
        ("url"@, json::JsonView::Str(e.url)),
    ];
    match e.fund_type {
        Some(t) => head.push(("fund_type"@, json::JsonView::Str(t))),
        None => head,
    }
}

/// The line on an entry.
pub open spec fn fund_line(e: FundView) -> Seq<char> {
    match e.fund_type {
        Some(t) => "  ["@ + t + "] "@ + e.url,
        None => "  "@ + e.url,
    }
}

impl FundEntry {
    /// The entry as a JSON value.
    pub fn to_json(&self) -> (r: Json)
        ensures
            r@ == json::JsonView::Object(fund_members(self@)),
    {
        let mut m: Vec<(String, Json)> = Vec::new();
        m.push((String::from_str("package"), fields::text_json(self.package.as_str())));
        m.push((String::from_str("url"), fields::text_json(self.url.as_str())));
        if let Some(t) = &self.fund_type {
            m.push((String::from_str("fund_type"), fields::text_json(t.as_str())));
        }
        proof {
            json::lemma_object_view(m);
            assert(json::members(m@) =~= fund_members(self@));
        }
        Json::Object(m)
    }

    /// The line on the entry.
    pub fn line(&self) -> (r: String)
        ensures
            r@ == fund_line(self@),
    {
        match &self.fund_type {
            Some(t) => {
                let head = text::cat3("  [", t.as_str(), "] ");
                text::cat(head.as_str(), self.url.as_str())
            },
            None => text::cat("  ", self.url.as_str()),
        }
    }
}

/// The lines on the entries of a package.
pub open spec fn entry_lines(v: Seq<FundView>, package: Seq<char>) -> Seq<Seq<char>>
    decreases v.len(),
{
    if v.len() == 0 {
        Seq::empty()
    } else {
        let rest = entry_lines(v.drop_last(), package);
        if v.last().package == package {
            rest.push(fund_line(v.last()))
        } else {
            rest
        }
    }
}

/// The lines on packages.
pub open spec fn grouped_lines(v: Seq<FundView>, names: Seq<Seq<char>>) -> Seq<Seq<char>>
    decreases names.len(),
{
    if names.len() == 0 {
        Seq::empty()
    } else {
        grouped_lines(v, names.drop_last()).push(names.last()) + entry_lines(v, names.last())
    }
}

/// The names of the packages of entries.
pub open spec fn entry_names(v: Seq<FundView>) -> Seq<Seq<char>> {
    v.map_values(|e: FundView| e.package)
}

fn push_entry_lines(out: &mut Vec<String>, entries: &Vec<FundEntry>, package: &str)
    ensures
        text::texts(final(out)@) == text::texts(old(out)@) + entry_lines(
            fund_views(entries@),
            package@,
        ),
{
    let ghost start = text::texts(out@);
    let ghost all = fund_views(entries@);
    let n: usize = entries.len();
    let mut i: usize = 0;
    assert(start + Seq::<Seq<char>>::empty() =~= start);
    while i < n
        invariant
            i <= n,
            n == entries@.len(),
            all == fund_views(entries@),
            text::texts(out@) == start + entry_lines(all.take(i as int), package@),
        decreases n - i,
    {
        let ghost before = entry_lines(all.take(i as int), package@);
        proof {
            assert(all.take(i + 1).drop_last() =~= all.take(i as int));
            assert(all.take(i + 1).last() == entries@[i as int]@);
        }
        if text::same(entries[i].package.as_str(), package) {
            let line = entries[i].line();
            let ghost list = text::texts(out@);
            out.push(line);
            assert(text::texts(out@) =~= list.push(line@));
            assert(text::texts(out@) =~= start + before.push(line@));
        }
        i += 1;
    }
    assert(all.take(n as int) =~= all);
}

/// The lines on entries, by package.
pub fn fund_lines(entries: &Vec<FundEntry>) -> (r: Vec<String>)
    ensures
        text::texts(r@) == grouped_lines(
            fund_views(entries@),
            depends::sorted_names(entry_names(fund_views(entries@))),
        ),
{
    let ghost all = fund_views(entries@);
    let mut names: Vec<String> = Vec::new();
    let n: usize = entries.len();
    let mut i: usize = 0;
    while i < n
        invariant
            i <= n,
            n == entries@.len(),
            names@.len() == i,
            forall|j: int| 0 <= j < i ==> (#[trigger] names@[j])@ == entries@[j]@.package,
        decreases n - i,
    {
        names.push(String::from_str(entries[i].package.as_str()));
        i += 1;
    }
    assert(text::texts(names@) =~= entry_names(all));
    let sorted = depends::sort_names(&names);
    let ghost order = text::texts(sorted@);
    let mut out: Vec<String> = Vec::new();
    let m: usize = sorted.len();
    let mut k: usize = 0;
    assert(text::texts(out@) =~= Seq::empty());
    while k < m
        invariant
            k <= m,
            m == sorted@.len(),
            order == text::texts(sorted@),
            all == fund_views(entries@),
            text::texts(out@) == grouped_lines(all, order.take(k as int)),
        decreases m - k,
    {
        let ghost before = text::texts(out@);
        proof {
            assert(order.take(k + 1).drop_last() =~= order.take(k as int));
            assert(order.take(k + 1).last() == sorted@[k as int]@);
        }
        out.push(String::from_str(sorted[k].as_str()));
        assert(text::texts(out@) =~= before.push(sorted@[k as int]@));
        push_entry_lines(&mut out, entries, sorted[k].as_str());
        k += 1;
    }
    assert(order.take(m as int) =~= order);
    out
}

/// Funding is read from a text, from an object with an address, and from a list
/// of these, in its order.
pub proof fn law_funding_is_read(
    package: Seq<char>,
    a: Seq<json::JsonView>,
    b: Seq<json::JsonView>,
    j: json::JsonView,
    u: Seq<char>,
)
    ensures
        funding_of(package, json::JsonView::Str(u)) == seq![
            FundView { package, url: u, fund_type: None },
        ],
        (j is Object && json::get_of(j, "url"@) == Some(json::JsonView::Str(u))) ==> (funding_of(
            package,
            j,
        ).len() == 1 && funding_of(package, j)[0].package == package && funding_of(package, j)[0].url
            == u && funding_of(package, j)[0].fund_type == json::text_at(j, "type"@)),
        (j is Object && json::get_of(j, "url"@) is None) ==> funding_of(package, j).len() == 0,
        (j is Object || j is Str) ==> funding_of(package, json::JsonView::Array(seq![j]))
            == funding_of(package, j),
        funding_of(package, json::JsonView::Array(a + b)) == funding_of(
            package,
            json::JsonView::Array(a),
        ) + funding_of(package, json::JsonView::Array(b)),
    decreases b.len(),
{
    let one = seq![j];
    assert(one.drop_last() =~= Seq::empty());
    assert(one.last() == j);
    assert(item_entries(package, one.drop_last()) =~= Seq::empty());
    assert(item_entries(package, one) =~= match item_entry(package, j) {
        Some(e) => seq![e],
        None => Seq::empty(),
    });
    if b.len() > 0 {
        assert((a + b).drop_last() =~= a + b.drop_last());
        assert((a + b).last() == b.last());
        law_funding_is_read(package, a, b.drop_last(), j, u);
        assert(item_entries(package, a + b) =~= item_entries(package, a) + item_entries(package, b));
    } else {
        assert(a + b =~= a);
        assert(item_entries(package, a) + item_entries(package, b) =~= item_entries(package, a));
    }
}

} // verus!
