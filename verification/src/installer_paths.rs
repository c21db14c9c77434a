//! `extra.installer-paths`: packages that go elsewhere than below the vendor
//! directory.

use crate::json;
use crate::json::Json;
use crate::paths;
use crate::text;
use vstd::prelude::*;

verus! {

/// Which packages a rule is for.
#[derive(Debug, Clone)]
pub enum PathMatcher {
    /// Packages of this type.
    Type(String),
    /// The package with this name.
    Package(String),
    /// The packages of this vendor.
    Vendor(String),
}

/// What a matcher consists of.
pub enum MatcherView {
    Type(Seq<char>),
    Package(Seq<char>),
    Vendor(Seq<char>),
}

impl View for PathMatcher {
    type V = MatcherView;

    open spec fn view(&self) -> MatcherView {
        match self {
            PathMatcher::Type(t) => MatcherView::Type(t@),
            PathMatcher::Package(p) => MatcherView::Package(p@),
            PathMatcher::Vendor(v) => MatcherView::Vendor(v@),
        }
    }
}

/// The rules: path templates, each with what it is for.
#[derive(Debug, Clone)]
pub struct InstallerPaths {
    pub rules: Vec<(String, Vec<PathMatcher>)>,
}

/// What a list of matchers consists of.
pub open spec fn matcher_views(v: Seq<PathMatcher>) -> Seq<MatcherView> {
    v.map_values(|m: PathMatcher| m@)
}

impl View for InstallerPaths {
    type V = Seq<(Seq<char>, Seq<MatcherView>)>;

    open spec fn view(&self) -> Seq<(Seq<char>, Seq<MatcherView>)> {
        self.rules@.map_values(
            |r: (String, Vec<PathMatcher>)| (r.0@, matcher_views(r.1@)),
        )
    }
}

/// The matcher that a text stands for: `type:<type>`, `<vendor>/*` or a name.
pub open spec fn matcher_of(s: Seq<char>) -> Option<MatcherView> {
    if let Some(t) = text::without_prefix(s, "type:"@) {
        Some(MatcherView::Type(t))
    } else if let Some(v) = text::without_suffix(s, "/*"@) {
        Some(MatcherView::Vendor(v))
    } else if text::occurs(s, "/"@) {
        Some(MatcherView::Package(s))
    } else {
        None
    }
}

/// The matcher that a text stands for.
pub fn parse_matcher(s: &str) -> (r: Option<PathMatcher>)
    ensures
        match r {
            Some(m) => matcher_of(s@) == Some(m@),
            None => matcher_of(s@) is None,
        },
{
    if let Some(t) = text::strip_prefix(s, "type:") {
        return Some(PathMatcher::Type(String::from_str(t)));
    }
    if let Some(v) = text::strip_suffix(s, "/*") {
        return Some(PathMatcher::Vendor(String::from_str(v)));
    }
    if text::contains(s, "/") {
        return Some(PathMatcher::Package(String::from_str(s)));
    }
    None
}

/// The matchers that the strings of an array stand for.
pub open spec fn matchers_of(a: Seq<json::JsonView>) -> Seq<MatcherView>
    decreases a.len(),
{
    if a.len() == 0 {
        Seq::empty()
    } else {
        let rest = matchers_of(a.drop_last());
        match a.last() {
            json::JsonView::Str(s) => match matcher_of(s) {
                Some(m) => rest.push(m),
                None => rest,
            },
            _ => rest,
        }
    }
}

fn parse_matchers(v: &Vec<Json>) -> (r: Vec<PathMatcher>)
    ensures
        matcher_views(r@) == matchers_of(json::elements(v@)),
{
    let ghost all = json::elements(v@);
    let mut out: Vec<PathMatcher> = Vec::new();
    let n: usize = v.len();
    let mut i: usize = 0;
    assert(matcher_views(out@) =~= Seq::empty());
    while i < n
        invariant
            i <= n,
            n == v@.len(),
            all == json::elements(v@),
            matcher_views(out@) == matchers_of(all.take(i as int)),
        decreases n - i,
    {
        proof {
            assert(all.take(i + 1).drop_last() =~= all.take(i as int));
            assert(all.take(i + 1).last() == v@[i as int]@);
        }
        if let Some(s) = v[i].as_str() {
            if let Some(m) = parse_matcher(s) {
                let ghost before = out@;
                out.push(m);
                assert(matcher_views(out@) =~= matcher_views(before).push(m@));
            }
        }
        i += 1;
    }
    assert(all.take(n as int) =~= all);
    out
}

/// The rules in the members of `installer-paths`. A rule for nothing is left
/// out.
pub open spec fn rules_of(m: Seq<(Seq<char>, json::JsonView)>) -> Seq<
    (Seq<char>, Seq<MatcherView>),
>
    decreases m.len(),
{
    if m.len() == 0 {
        Seq::empty()
    } else {
        let rest = rules_of(m.drop_last());
        match m.last().1 {
            json::JsonView::Array(a) => if matchers_of(a).len() > 0 {
                rest.push((m.last().0, matchers_of(a)))
            } else {
                rest
            },
            _ => rest,
        }
    }
}

/// The members of `installer-paths` in `extra`.
pub open spec fn path_members(extra: Option<json::JsonView>) -> Seq<(Seq<char>, json::JsonView)> {
    match extra {
        Some(e) => match json::get_of(e, "installer-paths"@) {
            Some(json::JsonView::Object(m)) => m,
            _ => Seq::empty(),
        },
        None => Seq::empty(),
    }
}

/// A matcher covers a package.
pub open spec fn covers(m: MatcherView, name: Seq<char>, kind: Option<Seq<char>>) -> bool {
    match m {
        MatcherView::Type(t) => kind == Some(t),
        MatcherView::Package(p) => name == p,
        MatcherView::Vendor(v) => match text::without_prefix(name, v) {
            Some(rest) => text::starts(rest, "/"@),
            None => false,
        },
    }
}

/// One of the matchers covers a package.
pub open spec fn any_covers(
    ms: Seq<MatcherView>,
    name: Seq<char>,
    kind: Option<Seq<char>>,
) -> bool {
    exists|i: int| 0 <= i < ms.len() && covers(#[trigger] ms[i], name, kind)
}

/// The template of the first rule for a package.
pub open spec fn template_for(
    rules: Seq<(Seq<char>, Seq<MatcherView>)>,
    name: Seq<char>,
    kind: Option<Seq<char>>,
) -> Option<Seq<char>>
    decreases rules.len(),
{
    if rules.len() == 0 {
        None
    } else if any_covers(rules[0].1, name, kind) {
        Some(rules[0].0)
    } else {
        template_for(rules.skip(1), name, kind)
    }
}

/// A template with the package filled in, without slashes at its end.
pub open spec fn filled(template: Seq<char>, package: Seq<char>) -> Seq<char> {
    let (vendor, name) = match text::parted(package, "/"@) {
        Some((v, n)) => (v, n),
        None => (Seq::empty(), package),
    };
    text::without_back(
        text::replaced(
            text::replaced(text::replaced(template, "{$name}"@, name), "{$vendor}"@, vendor),
            "{$package}"@,
            package,
        ),
        "/"@,
    )
}

/// A template with the package filled in.
pub fn expand_template(template: &str, package_name: &str) -> (r: String)
    ensures
        r@ == filled(template@, package_name@),
{
    let (vendor, name) = match text::split_once(package_name, "/") {
        Some((v, n)) => (v, n),
        None => ("", package_name),
    };
    proof {
        reveal_strlit("{$name}");
        reveal_strlit("{$vendor}");
        reveal_strlit("{$package}");
        reveal_strlit("/");
        reveal_strlit("");
        assert(""@ =~= Seq::<char>::empty());
    }
    let named = text::replace(template, "{$name}", name);
    let vendored = text::replace(named.as_str(), "{$vendor}", vendor);
    let full = text::replace(vendored.as_str(), "{$package}", package_name);
    String::from_str(text::trim_back(full.as_str(), "/"))
}

impl PathMatcher {
    /// Whether the matcher covers a package.
    pub fn matches(&self, package_name: &str, package_type: Option<&str>) -> (r: bool)
        ensures
            r == covers(self@, package_name@, text::opt_view(package_type)),
    {
        match self {
            PathMatcher::Type(t) => match package_type {
                Some(pt) => text::same(pt, t.as_str()),
                None => false,
            },
            PathMatcher::Package(p) => text::same(package_name, p.as_str()),
            PathMatcher::Vendor(v) => match text::strip_prefix(package_name, v.as_str()) {
                Some(rest) => text::starts_with(rest, "/"),
                None => false,
            },
        }
    }
}

fn any_matches(ms: &Vec<PathMatcher>, name: &str, kind: Option<&str>) -> (r: bool)
    ensures
        r == any_covers(matcher_views(ms@), name@, text::opt_view(kind)),
{
    let n: usize = ms.len();
    let mut i: usize = 0;
    while i < n
        invariant
            i <= n,
            n == ms@.len(),
            forall|j: int|
                0 <= j < i ==> !covers(
                    #[trigger] matcher_views(ms@)[j],
                    name@,
                    text::opt_view(kind),
                ),
        decreases n - i,
    {
        assert(matcher_views(ms@)[i as int] == ms@[i as int]@);
        if ms[i].matches(name, kind) {
            return true;
        }
        i += 1;
    }
    false
}

impl InstallerPaths {
    /// The rules in `extra`.
    pub fn from_extra(extra: Option<&Json>) -> (r: Self)
        ensures
            r@ == rules_of(
                path_members(
                    match extra {
                        Some(e) => Some(e@),
                        None => None,
                    },
                ),
            ),
    {
        let mut out = InstallerPaths { rules: Vec::new() };
        assert(out@ =~= Seq::empty());
        let section = match extra {
            Some(e) => e.get("installer-paths"),
            None => None,
        };
        if let Some(Json::Object(m)) = section {
            proof {
                json::lemma_object_view(*m);
            }
            let ghost all = json::members(m@);
            let n: usize = m.len();
            let mut i: usize = 0;
            while i < n
                invariant
                    i <= n,
                    n == m@.len(),
                    all == json::members(m@),
                    out@ == rules_of(all.take(i as int)),
                decreases n - i,
            {
                proof {
                    assert(all.take(i + 1).drop_last() =~= all.take(i as int));
                    assert(all.take(i + 1).last() == (m@[i as int].0@, m@[i as int].1@));
                }
                if let Json::Array(a) = &m[i].1 {
                    proof {
                        json::lemma_array_view(*a);
                    }
                    let ms = parse_matchers(a);
                    assert(matcher_views(ms@).len() == ms@.len());
                    if ms.len() > 0 {
                        let ghost before = out@;
                        out.rules.push((m[i].0.clone(), ms));
                        assert(out@ =~= before.push((m@[i as int].0@, matcher_views(ms@))));
                    }
                }
                i += 1;
            }
            assert(all.take(n as int) =~= all);
        }
        out
    }

    pub fn is_empty(&self) -> (r: bool)
        ensures
            r == (self@.len() == 0),
    {
        self.rules.len() == 0
    }

    /// Where a package goes, relative to the project; nothing if no rule is for
    /// it.
    pub fn resolve_relative(&self, package_name: &str, package_type: Option<&str>) -> (r: Option<
        String,
    >)
        ensures
            text::opt_text(r) == match template_for(
                self@,
                package_name@,
                text::opt_view(package_type),
            ) {
                Some(t) => Some(filled(t, package_name@)),
                None => None,
            },
    {
        let ghost kind = text::opt_view(package_type);
        let n: usize = self.rules.len();
        let mut i: usize = 0;
        assert(self@.skip(0) =~= self@);
        while i < n
            invariant
                i <= n,
                n == self.rules@.len(),
                kind == text::opt_view(package_type),
                template_for(self@, package_name@, kind) == template_for(
                    self@.skip(i as int),
                    package_name@,
                    kind,
                ),
            decreases n - i,
        {
            assert(self@.skip(i as int)[0] == (
                self.rules@[i as int].0@,
                matcher_views(self.rules@[i as int].1@),
            ));
            if any_matches(&self.rules[i].1, package_name, package_type) {
                return Some(expand_template(self.rules[i].0.as_str(), package_name));
            }
            assert(self@.skip(i as int).skip(1) =~= self@.skip(i + 1));
            i += 1;
        }
        None
    }

    /// Where a package goes; nothing if no rule is for it.
    pub fn resolve(
        &self,
        project_root: &str,
        package_name: &str,
        package_type: Option<&str>,
    ) -> (r: Option<String>)
        ensures
            text::opt_text(r) == match template_for(
                self@,
                package_name@,
                text::opt_view(package_type),
            ) {
                Some(t) => Some(paths::joined_path(project_root@, filled(t, package_name@))),
                None => None,
            },
    {
        match self.resolve_relative(package_name, package_type) {
            Some(rel) => Some(paths::join_path(project_root, rel.as_str())),
            None => None,
        }
    }
}

impl Default for InstallerPaths {
    fn default() -> (r: Self)
        ensures
            r@ == Seq::<(Seq<char>, Seq<MatcherView>)>::empty(),
    {
        let r = InstallerPaths { rules: Vec::new() };
        assert(r@ =~= Seq::empty());
        r
    }
}

/// Without rules no package has a place of its own.
pub proof fn law_no_rules_no_place(name: Seq<char>, kind: Option<Seq<char>>)
    ensures
        template_for(Seq::empty(), name, kind) is None,
{
}

/// How the words of a rule are read: a type, a vendor, or a package.
pub proof fn law_words_of_rules(t: Seq<char>, vendor: Seq<char>, name: Seq<char>)
    ensures
        matcher_of("type:"@ + t) == Some(MatcherView::Type(t)),
        !text::starts(vendor + "/*"@, "type:"@) ==> matcher_of(vendor + "/*"@) == Some(
            MatcherView::Vendor(vendor),
        ),
        (!text::starts(vendor + "/"@ + name, "type:"@) && !text::ends(vendor + "/"@ + name, "/*"@))
            ==> matcher_of(vendor + "/"@ + name) == Some(MatcherView::Package(vendor + "/"@ + name)),
{
    text::law_prefixes(t, "type:"@);
    text::law_prefixes(vendor, "/*"@);
    let s = vendor + "/"@ + name;
    assert(s.subrange(vendor.len() as int, vendor.len() as int + "/"@.len()) =~= "/"@);
    assert(text::occurs_at(s, "/"@, vendor.len() as int));
}

/// What a word covers: the packages of its type, of its vendor, or of its name.
pub proof fn law_what_is_covered(vendor: Seq<char>, name: Seq<char>, kind: Option<Seq<char>>, t: Seq<char>)
    ensures
        covers(MatcherView::Type(t), name, kind) <==> kind == Some(t),
        covers(MatcherView::Package(t), name, kind) <==> name == t,
        covers(MatcherView::Vendor(vendor), vendor + "/"@ + name, kind),
        covers(MatcherView::Vendor(vendor), name, kind) ==> text::starts(name, vendor + "/"@),
{
    reveal_strlit("/");
    let s = vendor + "/"@ + name;
    assert(s =~= vendor + ("/"@ + name));
    text::law_prefixes("/"@ + name, vendor);
    assert(("/"@ + name).take(1) =~= "/"@);
    text::law_prefixes(name, vendor);
    if covers(MatcherView::Vendor(vendor), name, kind) {
        let rest = text::without_prefix(name, vendor)->0;
        assert(name == vendor + rest);
        assert(rest.take(1) == "/"@);
        assert(name.take((vendor + "/"@).len() as int) =~= vendor + rest.take(1));
    }
}

/// The first rule that covers a package says where it goes; no rule, no place.
pub proof fn law_first_rule_counts(
    rules: Seq<(Seq<char>, Seq<MatcherView>)>,
    name: Seq<char>,
    kind: Option<Seq<char>>,
)
    ensures
        match template_for(rules, name, kind) {
            Some(t) => exists|i: int|
                0 <= i < rules.len() && (#[trigger] rules[i]).0 == t && any_covers(
                    rules[i].1,
                    name,
                    kind,
                ) && forall|k: int| 0 <= k < i ==> !any_covers((#[trigger] rules[k]).1, name, kind),
            None => forall|k: int|
                0 <= k < rules.len() ==> !any_covers((#[trigger] rules[k]).1, name, kind),
        },
    decreases rules.len(),
{
    if rules.len() > 0 {
        let rest = rules.skip(1);
        law_first_rule_counts(rest, name, kind);
        if any_covers(rules[0].1, name, kind) {
            assert(rules[0] == rules[0]);
        } else if let Some(t) = template_for(rest, name, kind) {
            let i = choose|i: int|
                0 <= i < rest.len() && (#[trigger] rest[i]).0 == t && any_covers(
                    rest[i].1,
                    name,
                    kind,
                ) && forall|k: int| 0 <= k < i ==> !any_covers((#[trigger] rest[k]).1, name, kind);
            assert(rules[i + 1] == rest[i]);
            assert forall|k: int| 0 <= k < i + 1 implies !any_covers(
                (#[trigger] rules[k]).1,
                name,
                kind,
            ) by {
                if k > 0 {
                    assert(rest[k - 1] == rules[k]);
                }
            }
        } else {
            assert forall|k: int| 0 <= k < rules.len() implies !any_covers(
                (#[trigger] rules[k]).1,
                name,
                kind,
            ) by {
                if k > 0 {
                    assert(rest[k - 1] == rules[k]);
                }
            }
        }
    }
}

proof fn lemma_no_brace(a: Seq<char>, b: Seq<char>, c: Seq<char>)
    requires
        !a.contains('{'),
        !b.contains('{'),
        !c.contains('{'),
    ensures
        !(a + b + c).contains('{'),
{
    let s = a + b + c;
    if s.contains('{') {
        let i = choose|i: int| 0 <= i < s.len() && s[i] == '{';
        if i < a.len() {
            assert(a[i] == '{');
        } else if i < a.len() + b.len() {
            assert(b[i - a.len()] == '{');
        } else {
            assert(c[i - a.len() - b.len()] == '{');
        }
    }
}

/// The name, the vendor or the whole name of a package takes the place of its
/// sign in a template; slashes at the end are left out.
pub proof fn law_templates_are_filled(a: Seq<char>, b: Seq<char>, vendor: Seq<char>, name: Seq<char>)
    requires
        !a.contains('{'),
        !b.contains('{'),
        !vendor.contains('{'),
        !name.contains('{'),
        !vendor.contains('/'),
    ensures
        filled(a, vendor + "/"@ + name) == text::without_back(a, "/"@),
        filled(a + "{$name}"@ + b, vendor + "/"@ + name) == text::without_back(a + name + b, "/"@),
        filled(a + "{$vendor}"@ + b, vendor + "/"@ + name) == text::without_back(
            a + vendor + b,
            "/"@,
        ),
{
    reveal_strlit("/");
    reveal_strlit("{$name}");
    reveal_strlit("{$vendor}");
    reveal_strlit("{$package}");
    let package = vendor + "/"@ + name;
    let n = "{$name}"@;
    let v = "{$vendor}"@;
    let p = "{$package}"@;
    assert("/"@[0] == '/' && n[0] == '{' && v[0] == '{' && p[0] == '{');
    text::lemma_piece_before(vendor, "/"@, name);
    text::lemma_nothing_replaced(a, n, name);
    text::lemma_nothing_replaced(a, v, vendor);
    text::lemma_nothing_replaced(a, p, package);
    text::lemma_replaced_once(a, n, b, name);
    lemma_no_brace(a, name, b);
    text::lemma_nothing_replaced(a + name + b, v, vendor);
    text::lemma_nothing_replaced(a + name + b, p, package);
    lemma_other_sign(a, v, b, n, name);
    text::lemma_replaced_once(a, v, b, vendor);
    lemma_no_brace(a, vendor, b);
    text::lemma_nothing_replaced(a + vendor + b, p, package);
}

/// A text with one brace does not hold another sign than the one that stands
/// there.
proof fn lemma_other_sign(a: Seq<char>, v: Seq<char>, b: Seq<char>, n: Seq<char>, t: Seq<char>)
    requires
        !a.contains('{'),
        !b.contains('{'),
        v.len() > 2 && n.len() > 2 && v.len() > n.len(),
        v[0] == '{' && n[0] == '{',
        forall|i: int| 1 <= i < v.len() ==> #[trigger] v[i] != '{',
        v[2] != n[2],
    ensures
        text::replaced(a + v + b, n, t) == a + v + b,
{
    let s = a + v + b;
    if text::occurs(s, n) {
        let i = choose|i: int| text::occurs_at(s, n, i);
        assert(s.subrange(i, i + n.len())[0] == n[0]);
        assert(s.subrange(i, i + n.len())[2] == n[2]);
        assert(s[i] == '{');
        if i < a.len() {
            assert(a[i] == '{');
        } else if i < a.len() + v.len() {
            assert(v[i - a.len()] == '{');
            assert(i == a.len());
            assert(s[i + 2] == v[2]);
        } else {
            assert(b[i - a.len() - v.len()] == '{');
        }
    }
    text::lemma_find(s, n);
    assert(text::pieces(s, n) == seq![s]);
    text::law_joined(seq![s], s, t);
}

} // verus!
