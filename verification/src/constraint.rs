//! Version constraints: `^2.0`, `~1.2`, `>=1.0 <2.0`, `8.1 - 8.5`, `*`, joined
//! by `||`.

use crate::text;
use crate::version::ComposerVersion;
use crate::version::Stability;
use vstd::prelude::*;

verus! {

/// What the contracts of this module say of a version.
pub type VersionModel = crate::version::VersionView;

/// A version constraint.
#[derive(Debug, Clone, PartialEq, Eq, Hash)]
pub struct VersionConstraint {
    raw: String,
}

impl View for VersionConstraint {
    type V = Seq<char>;

    closed spec fn view(&self) -> Seq<char> {
        self.raw@
    }
}

// ---------------------------------------------------------------------------
// Clauses

/// The operators that a clause can begin with.
pub open spec fn is_operator(t: Seq<char>) -> bool {
    t == ">="@ || t == "<="@ || t == "!="@ || t == "=="@ || t == "<>"@ || t == ">"@ || t == "<"@
        || t == "="@ || t == "^"@ || t == "~"@
}

/// The clauses that a list of words makes: an operator that stands alone is
/// joined to the word behind it, and three words `a - b` are one clause.
pub open spec fn grouped(w: Seq<Seq<char>>) -> Seq<Seq<char>>
    decreases w.len(),
{
    if w.len() == 0 {
        Seq::empty()
    } else if is_operator(w[0]) && w.len() > 1 {
        seq![w[0] + w[1]] + grouped(w.skip(2))
    } else if w.len() > 2 && w[1] == "-"@ {
        seq![w[0] + " - "@ + w[2]] + grouped(w.skip(3))
    } else {
        seq![w[0]] + grouped(w.skip(1))
    }
}

/// The non-empty pieces between commas, without white space at their ends.
pub open spec fn comma_clauses(p: Seq<Seq<char>>) -> Seq<Seq<char>>
    decreases p.len(),
{
    if p.len() == 0 {
        Seq::empty()
    } else {
        let rest = comma_clauses(p.drop_last());
        let t = text::trimmed(p.last());
        if t.len() == 0 {
            rest
        } else {
            rest.push(t)
        }
    }
}

/// The clauses of a constraint without `|`, all of which must hold.
pub open spec fn clauses_of(s: Seq<char>) -> Seq<Seq<char>> {
    if s.contains(',') {
        comma_clauses(text::pieces(s, ","@))
    } else {
        grouped(text::words(s, true).map_values(|w: Seq<char>| text::trimmed(w)))
    }
}

fn operator(t: &str) -> (r: bool)
    ensures
        r == is_operator(t@),
{
    text::same(t, ">=") || text::same(t, "<=") || text::same(t, "!=") || text::same(t, "==")
        || text::same(t, "<>") || text::same(t, ">") || text::same(t, "<") || text::same(t, "=")
        || text::same(t, "^") || text::same(t, "~")
}

fn group(w: &Vec<&str>) -> (r: Vec<String>)
    ensures
        text::texts(r@) == grouped(text::views(w@)),
{
    let mut out: Vec<String> = Vec::new();
    let n: usize = w.len();
    let mut i: usize = 0;
    let ghost all = text::views(w@);
    assert(all.skip(0) =~= all);
    assert(text::texts(out@) + grouped(all) =~= grouped(all));
    while i < n
        invariant
            i <= n,
            n == w@.len(),
            all == text::views(w@),
            text::texts(out@) + grouped(all.skip(i as int)) == grouped(all),
        decreases n - i,
    {
        let ghost before = text::texts(out@);
        let ghost rest = all.skip(i as int);
        assert(rest[0] == w@[i as int]@);
        proof {
            if i + 1 < n {
                assert(rest[1] == w@[i + 1]@);
            }
            if i + 2 < n {
                assert(rest[2] == w@[i + 2]@);
            }
        }
        if operator(w[i]) && n - i > 1 {
            let clause = text::cat(w[i], w[i + 1]);
            out.push(clause);
            assert(text::texts(out@) =~= before.push(clause@));
            assert(rest.skip(2) =~= all.skip(i + 2));
            assert(before + (seq![clause@] + grouped(all.skip(i + 2))) =~= before.push(clause@)
                + grouped(all.skip(i + 2)));
            i += 2;
        } else if n - i > 2 && text::same(w[i + 1], "-") {
            let clause = text::cat3(w[i], " - ", w[i + 2]);
            out.push(clause);
            assert(text::texts(out@) =~= before.push(clause@));
            assert(rest.skip(3) =~= all.skip(i + 3));
            assert(before + (seq![clause@] + grouped(all.skip(i + 3))) =~= before.push(clause@)
                + grouped(all.skip(i + 3)));
            i += 3;
        } else {
            let clause = String::from_str(w[i]);
            out.push(clause);
            assert(text::texts(out@) =~= before.push(clause@));
            assert(rest.skip(1) =~= all.skip(i + 1));
            assert(before + (seq![clause@] + grouped(all.skip(i + 1))) =~= before.push(clause@)
                + grouped(all.skip(i + 1)));
            i += 1;
        }
    }
    assert(text::texts(out@) =~= grouped(all));
    out
}

/// The words of `s` between ASCII white space, in clauses.
pub fn split_and_clauses(s: &str) -> (r: Vec<String>)
    ensures
        text::texts(r@) == grouped(
            text::words(s@, true).map_values(|w: Seq<char>| text::trimmed(w)),
        ),
{
    let words = text::split_ascii_whitespace(s);
    let mut trimmed: Vec<&str> = Vec::new();
    let n: usize = words.len();
    let mut i: usize = 0;
    while i < n
        invariant
            i <= n,
            n == words@.len(),
            trimmed@.len() == i,
            forall|j: int| 0 <= j < i ==> (#[trigger] trimmed@[j])@ == text::trimmed(words@[j]@),
        decreases n - i,
    {
        trimmed.push(text::trim(words[i]));
        i += 1;
    }
    proof {
        let want = text::words(s@, true).map_values(|w: Seq<char>| text::trimmed(w));
        assert forall|j: int| 0 <= j < want.len() implies text::views(trimmed@)[j] == want[j] by {
            assert(text::views(words@)[j] == words@[j]@);
        }
        assert(text::views(trimmed@) =~= want);
    }
    group(&trimmed)
}

/// The clauses of a constraint without `|`.
pub fn split_constraint_and_clauses(s: &str) -> (r: Vec<String>)
    ensures
        text::texts(r@) == clauses_of(s@),
{
    if !text::contains_char(s, ',') {
        return split_and_clauses(s);
    }
    proof {
        reveal_strlit(",");
    }
    let pieces = text::split(s, ",");
    let mut out: Vec<String> = Vec::new();
    let n: usize = pieces.len();
    let mut i: usize = 0;
    while i < n
        invariant
            i <= n,
            n == pieces@.len(),
            text::texts(out@) == comma_clauses(text::views(pieces@).take(i as int)),
        decreases n - i,
    {
        let ghost before = text::texts(out@);
        let t = text::trim(pieces[i]);
        proof {
            let now = text::views(pieces@).take(i + 1);
            assert(now.drop_last() =~= text::views(pieces@).take(i as int));
            assert(now.last() == pieces@[i as int]@);
        }
        if !t.is_empty() {
            out.push(String::from_str(t));
            assert(text::texts(out@) =~= before.push(t@));
        }
        i += 1;
    }
    assert(text::views(pieces@).take(n as int) =~= text::views(pieces@));
    out
}

// ---------------------------------------------------------------------------
// Bounds

/// The version that a bound names.
pub open spec fn bound_of(s: Seq<char>) -> Option<VersionModel> {
    crate::version::parsed(text::without_front(text::trimmed(s), 'v'))
}

/// The version that a bound names.
pub fn parse_ref(s: &str) -> (r: Option<ComposerVersion>)
    ensures
        match r {
            Some(v) => bound_of(s@) == Some(v@),
            None => bound_of(s@) is None,
        },
{
    match ComposerVersion::parse(text::trim_front_char(text::trim(s), 'v')) {
        Ok(v) => Some(v),
        Err(_) => None,
    }
}

/// `v` lies below the stable release with the numbers `b`.
pub open spec fn below_release(v: VersionModel, b: (nat, nat, nat)) -> bool {
    ||| v.stability is Dev
    ||| crate::version::parts_lt(v.parts, b)
    ||| (crate::version::wide(v.parts) == b && v.stability !is Stable)
}

/// To lie below a release is to lie below it in the order of versions.
pub proof fn law_below_release_is_order(v: VersionModel, maj: u64, min: u64, pat: u64)
    ensures
        below_release(v, (maj as nat, min as nat, pat as nat)) == crate::version::version_lt(
            v,
            crate::version::release_view(maj, min, pat),
        ),
{
}

/// The upper bound of `^`: the next release that may break something.
pub open spec fn caret_top(p: (u64, u64, u64)) -> (nat, nat, nat) {
    if p.0 > 0 {
        ((p.0 + 1) as nat, 0, 0)
    } else if p.1 > 0 {
        (0, (p.1 + 1) as nat, 0)
    } else {
        (0, 0, (p.2 + 1) as nat)
    }
}

/// The upper bound of `~`: the next minor release where the bound has a patch
/// number, else the next major release.
pub open spec fn tilde_top(p: (u64, u64, u64), spec_text: Seq<char>) -> (nat, nat, nat) {
    if text::count_of(text::without_front(spec_text, 'v'), '.') >= 2 {
        (p.0 as nat, (p.1 + 1) as nat, 0)
    } else {
        ((p.0 + 1) as nat, 0, 0)
    }
}

/// The upper bound of a range `a - b`. Where `b` leaves numbers out, every
/// version that begins with it is in the range.
pub enum RangeTop {
    /// Up to and with this version.
    Upto(VersionModel),
    /// Below this release.
    Below((nat, nat, nat)),
}

/// The bounds of a range `a - b`.
pub open spec fn hyphen_bounds(from: Seq<char>, to: Seq<char>) -> Option<(VersionModel, RangeTop)> {
    match (bound_of(from), bound_of(to)) {
        (Some(low), Some(high)) => {
            let dots = text::count_of(text::without_front(text::trimmed(to), 'v'), '.');
            if high.stability !is Stable || dots >= 2 {
                Some((low, RangeTop::Upto(high)))
            } else if dots == 1 {
                Some((low, RangeTop::Below((high.parts.0 as nat, (high.parts.1 + 1) as nat, 0))))
            } else {
                Some((low, RangeTop::Below(((high.parts.0 + 1) as nat, 0, 0))))
            }
        },
        _ => None,
    }
}

/// `v` lies in a range `a - b`.
pub open spec fn in_hyphen(v: VersionModel, low: VersionModel, top: RangeTop) -> bool {
    crate::version::version_le(low, v) && match top {
        RangeTop::Upto(high) => crate::version::version_le(v, high),
        RangeTop::Below(b) => below_release(v, b),
    }
}

/// The part of a wildcard before its `.*` or `.x`.
pub open spec fn wildcard_prefix(c: Seq<char>) -> Seq<char> {
    text::without_front(text::without_back(text::without_back(c, ".*"@), ".x"@), 'v')
}

/// `v` matches a wildcard.
pub open spec fn in_wildcard(v: VersionModel, c: Seq<char>) -> bool {
    let prefix = wildcard_prefix(c);
    let p = text::pieces(prefix, "."@);
    if p.len() == 1 {
        v.parts.0 == crate::version::or_zero(text::u64_of(p[0]))
    } else if p.len() == 2 {
        v.parts.0 == crate::version::or_zero(text::u64_of(p[0])) && v.parts.1
            == crate::version::or_zero(text::u64_of(p[1]))
    } else {
        text::starts(v.normalized, prefix)
    }
}

/// `v` is the version that `spec_text` names: same numbers, same stability. A
/// text that names none is compared as text.
pub open spec fn is_version(v: VersionModel, spec_text: Seq<char>) -> bool {
    match bound_of(spec_text) {
        Some(o) => v.parts == o.parts && v.stability == o.stability,
        None => v.normalized == text::without_front(spec_text, 'v'),
    }
}

/// The part of a clause before a stability flag `@...`.
pub open spec fn without_flag(c: Seq<char>) -> Seq<char> {
    match text::parted(c, "@"@) {
        Some((head, _)) => head,
        None => c,
    }
}

/// The bounds of a clause `a - b`, if the clause is one.
pub open spec fn clause_hyphen(c: Seq<char>) -> Option<(VersionModel, RangeTop)> {
    match text::parted(c, " - "@) {
        Some((from, to)) => hyphen_bounds(from, to),
        None => None,
    }
}

/// `v` satisfies one clause. A clause whose bound is no version is satisfied by
/// none.
pub open spec fn satisfies_clause(clause: Seq<char>, v: VersionModel) -> bool {
    let t = text::trimmed(clause);
    if t.len() == 0 || t == "*"@ {
        true
    } else {
        let c = without_flag(t);
        if let Some((low, top)) = clause_hyphen(c) {
            in_hyphen(v, low, top)
        } else if let Some(rest) = text::without_prefix(c, "^"@) {
            bound_of(rest) matches Some(b) && crate::version::version_le(b, v) && below_release(
                v,
                caret_top(b.parts),
            )
        } else if let Some(rest) = text::without_prefix(c, "~"@) {
            bound_of(rest) matches Some(b) && crate::version::version_le(b, v) && below_release(
                v,
                tilde_top(b.parts, rest),
            )
        } else if text::ends(c, ".*"@) || text::ends(c, ".x"@) {
            in_wildcard(v, c)
        } else if let Some(rest) = text::without_prefix(c, ">="@) {
            bound_of(rest) matches Some(b) && crate::version::version_le(b, v)
        } else if let Some(rest) = text::without_prefix(c, "<="@) {
            bound_of(rest) matches Some(b) && crate::version::version_le(v, b)
        } else if let Some(rest) = text::without_prefix(c, "!="@) {
            !is_version(v, rest)
        } else if let Some(rest) = text::without_prefix(c, ">"@) {
            bound_of(rest) matches Some(b) && crate::version::version_lt(b, v)
        } else if let Some(rest) = text::without_prefix(c, "<"@) {
            bound_of(rest) matches Some(b) && crate::version::version_lt(v, b)
        } else if let Some(rest) = text::without_prefix(c, "="@) {
            is_version(v, rest)
        } else {
            is_version(v, c)
        }
    }
}

/// The empty constraint and `*` allow every version.
pub open spec fn allows_any(s: Seq<char>) -> bool {
    s.len() == 0 || s == "*"@
}

/// `v` satisfies every clause of a constraint without `|`.
pub open spec fn satisfies_clauses(s: Seq<char>, v: VersionModel) -> bool {
    allows_any(s) || forall|i: int|
        0 <= i < clauses_of(s).len() ==> satisfies_clause(#[trigger] clauses_of(s)[i], v)
}

/// `v` satisfies one of the alternatives between single `|`.
pub open spec fn satisfies_bars(s: Seq<char>, v: VersionModel) -> bool {
    allows_any(s) || if s.contains('|') {
        exists|i: int|
            0 <= i < text::pieces(s, "|"@).len() && satisfies_clauses(
                text::trimmed(#[trigger] text::pieces(s, "|"@)[i]),
                v,
            )
    } else {
        satisfies_clauses(s, v)
    }
}

/// `v` satisfies a constraint: one of its alternatives between `||`, where
/// there are any.
pub open spec fn satisfies(constraint: Seq<char>, v: VersionModel) -> bool {
    let s = text::trimmed(constraint);
    allows_any(s) || if text::occurs(s, "||"@) {
        exists|i: int|
            0 <= i < text::pieces(s, "||"@).len() && satisfies_bars(
                text::trimmed(#[trigger] text::pieces(s, "||"@)[i]),
                v,
            )
    } else {
        satisfies_bars(s, v)
    }
}

// ---------------------------------------------------------------------------
// Matching

/// The upper bound of a range `a - b`.
pub enum UpperBound {
    /// Up to and with this version.
    Upto(ComposerVersion),
    /// Below the release with these numbers.
    Below(u128, u128, u128),
}

/// The mathematical value of an upper bound.
pub open spec fn top_of(t: UpperBound) -> RangeTop {
    match t {
        UpperBound::Upto(v) => RangeTop::Upto(v@),
        UpperBound::Below(a, b, c) => RangeTop::Below((a as nat, b as nat, c as nat)),
    }
}

/// The bounds of a range `a - b`.
pub fn hyphen_range_bounds(from: &str, to: &str) -> (r: Option<(ComposerVersion, UpperBound)>)
    ensures
        match r {
            Some((low, top)) => hyphen_bounds(from@, to@) == Some((low@, top_of(top))),
            None => hyphen_bounds(from@, to@) is None,
        },
{
    let low = match parse_ref(from) {
        Some(v) => v,
        None => {
            return None;
        },
    };
    let high = match parse_ref(to) {
        Some(v) => v,
        None => {
            return None;
        },
    };
    let dots: usize = text::count_char(text::trim_front_char(text::trim(to), 'v'), '.');
    let (maj, min, _) = high.numeric_parts();
    if !high.is_stable() || dots >= 2 {
        Some((low, UpperBound::Upto(high)))
    } else if dots == 1 {
        Some((low, UpperBound::Below(maj as u128, min as u128 + 1, 0)))
    } else {
        Some((low, UpperBound::Below(maj as u128 + 1, 0, 0)))
    }
}

/// Whether `v` lies below the release with the given numbers.
fn is_below_release(v: &ComposerVersion, maj: u128, min: u128, pat: u128) -> (r: bool)
    ensures
        r == below_release(v@, (maj as nat, min as nat, pat as nat)),
{
    let (a, b, c) = v.numeric_parts();
    let (x, y, z) = (a as u128, b as u128, c as u128);
    if v.stability() == Stability::Dev {
        true
    } else if x != maj {
        x < maj
    } else if y != min {
        y < min
    } else if z != pat {
        z < pat
    } else {
        !v.is_stable()
    }
}

fn match_hyphen(low: &ComposerVersion, top: &UpperBound, version: &ComposerVersion) -> (r: bool)
    ensures
        r == in_hyphen(version@, low@, top_of(*top)),
{
    if version.lies_below(low) {
        return false;
    }
    match top {
        UpperBound::Upto(high) => !high.lies_below(version),
        UpperBound::Below(a, b, c) => is_below_release(version, *a, *b, *c),
    }
}

/// Whether `version` is the one that `spec_text` names.
fn versions_equal(version: &ComposerVersion, spec_text: &str) -> (r: bool)
    ensures
        r == is_version(version@, spec_text@),
{
    match parse_ref(spec_text) {
        Some(o) => {
            let (a, b, c) = version.numeric_parts();
            let (x, y, z) = o.numeric_parts();
            a == x && b == y && c == z && version.stability() == o.stability()
        },
        None => text::same(version.normalized(), text::trim_front_char(spec_text, 'v')),
    }
}

/// Caret: `^1.2.3` is `>=1.2.3 <2.0.0`, `^0.2.3` is `>=0.2.3 <0.3.0`.
fn match_caret(spec_text: &str, version: &ComposerVersion) -> (r: bool)
    ensures
        r == (bound_of(spec_text@) matches Some(b) && crate::version::version_le(b, version@)
            && below_release(version@, caret_top(b.parts))),
{
    let base = match parse_ref(spec_text) {
        Some(v) => v,
        None => {
            return false;
        },
    };
    if version.lies_below(&base) {
        return false;
    }
    let (maj, min, pat) = base.numeric_parts();
    if maj > 0 {
        is_below_release(version, maj as u128 + 1, 0, 0)
    } else if min > 0 {
        is_below_release(version, 0, min as u128 + 1, 0)
    } else {
        is_below_release(version, 0, 0, pat as u128 + 1)
    }
}

/// Tilde: `~1.2.3` is `>=1.2.3 <1.3.0`, `~1.2` is `>=1.2.0 <2.0.0`.
fn match_tilde(spec_text: &str, version: &ComposerVersion) -> (r: bool)
    ensures
        r == (bound_of(spec_text@) matches Some(b) && crate::version::version_le(b, version@)
            && below_release(version@, tilde_top(b.parts, spec_text@))),
{
    let base = match parse_ref(spec_text) {
        Some(v) => v,
        None => {
            return false;
        },
    };
    if version.lies_below(&base) {
        return false;
    }
    let dots: usize = text::count_char(text::trim_front_char(spec_text, 'v'), '.');
    let (maj, min, _) = base.numeric_parts();
    if dots >= 2 {
        is_below_release(version, maj as u128, min as u128 + 1, 0)
    } else {
        is_below_release(version, maj as u128 + 1, 0, 0)
    }
}

/// The number that a text stands for, zero if it is none.
pub fn number_or_zero(s: &str) -> (r: u64)
    ensures
        r == crate::version::or_zero(text::u64_of(s@)),
{
    match text::parse_u64(s) {
        Some(n) => n,
        None => 0,
    }
}

/// The part of a wildcard before its `.*` or `.x`.
pub fn wildcard_stem(c: &str) -> (r: &str)
    ensures
        r@ == wildcard_prefix(c@),
{
    proof {
        reveal_strlit(".*");
        reveal_strlit(".x");
    }
    text::trim_front_char(text::trim_back(text::trim_back(c, ".*"), ".x"), 'v')
}

/// Wildcard: `1.2.*`, `1.*`.
fn match_wildcard(spec_text: &str, version: &ComposerVersion) -> (r: bool)
    ensures
        r == in_wildcard(version@, spec_text@),
{
    let prefix = wildcard_stem(spec_text);
    proof {
        reveal_strlit(".");
    }
    let p = text::split(prefix, ".");
    let (maj, min, _) = version.numeric_parts();
    assert(text::views(p@)[0] == p@[0]@);
    if p.len() == 1 {
        maj == number_or_zero(p[0])
    } else if p.len() == 2 {
        assert(text::views(p@)[1] == p@[1]@);
        maj == number_or_zero(p[0]) && min == number_or_zero(p[1])
    } else {
        text::starts_with(version.normalized(), prefix)
    }
}

fn at_least(version: &ComposerVersion, spec_text: &str) -> (r: bool)
    ensures
        r == (bound_of(spec_text@) matches Some(b) && crate::version::version_le(b, version@)),
{
    match parse_ref(spec_text) {
        Some(o) => !version.lies_below(&o),
        None => false,
    }
}

fn at_most(version: &ComposerVersion, spec_text: &str) -> (r: bool)
    ensures
        r == (bound_of(spec_text@) matches Some(b) && crate::version::version_le(version@, b)),
{
    match parse_ref(spec_text) {
        Some(o) => !o.lies_below(version),
        None => false,
    }
}

fn above(version: &ComposerVersion, spec_text: &str) -> (r: bool)
    ensures
        r == (bound_of(spec_text@) matches Some(b) && crate::version::version_lt(b, version@)),
{
    match parse_ref(spec_text) {
        Some(o) => o.lies_below(version),
        None => false,
    }
}

fn under(version: &ComposerVersion, spec_text: &str) -> (r: bool)
    ensures
        r == (bound_of(spec_text@) matches Some(b) && crate::version::version_lt(version@, b)),
{
    match parse_ref(spec_text) {
        Some(o) => version.lies_below(&o),
        None => false,
    }
}

/// The part of a clause before a stability flag.
pub fn strip_flag(c: &str) -> (r: &str)
    ensures
        r@ == without_flag(c@),
{
    match text::split_once(c, "@") {
        Some((head, _)) => head,
        None => c,
    }
}

/// Whether `version` satisfies one clause.
pub fn match_single(clause: &str, version: &ComposerVersion) -> (r: bool)
    ensures
        r == satisfies_clause(clause@, version@),
{
    let t = text::trim(clause);
    if t.is_empty() || text::same(t, "*") {
        return true;
    }
    let c = strip_flag(t);
    if let Some((from, to)) = text::split_once(c, " - ") {
        if let Some((low, top)) = hyphen_range_bounds(from, to) {
            return match_hyphen(&low, &top, version);
        }
    }
    assert(clause_hyphen(c@) is None);
    if let Some(rest) = text::strip_prefix(c, "^") {
        return match_caret(rest, version);
    }
    if let Some(rest) = text::strip_prefix(c, "~") {
        return match_tilde(rest, version);
    }
    if text::ends_with(c, ".*") || text::ends_with(c, ".x") {
        return match_wildcard(c, version);
    }
    if let Some(rest) = text::strip_prefix(c, ">=") {
        return at_least(version, rest);
    }
    if let Some(rest) = text::strip_prefix(c, "<=") {
        return at_most(version, rest);
    }
    if let Some(rest) = text::strip_prefix(c, "!=") {
        return !versions_equal(version, rest);
    }
    if let Some(rest) = text::strip_prefix(c, ">") {
        return above(version, rest);
    }
    if let Some(rest) = text::strip_prefix(c, "<") {
        return under(version, rest);
    }
    if let Some(rest) = text::strip_prefix(c, "=") {
        return versions_equal(version, rest);
    }
    versions_equal(version, c)
}

fn match_clauses(s: &str, version: &ComposerVersion) -> (r: bool)
    ensures
        r == satisfies_clauses(s@, version@),
{
    if s.is_empty() || text::same(s, "*") {
        return true;
    }
    let clauses = split_constraint_and_clauses(s);
    let n: usize = clauses.len();
    let mut i: usize = 0;
    while i < n
        invariant
            i <= n,
            n == clauses@.len(),
            text::texts(clauses@) == clauses_of(s@),
            !allows_any(s@),
            forall|j: int|
                0 <= j < i ==> satisfies_clause(#[trigger] clauses_of(s@)[j], version@),
        decreases n - i,
    {
        assert(clauses_of(s@)[i as int] == clauses@[i as int]@);
        if !match_single(clauses[i].as_str(), version) {
            return false;
        }
        i += 1;
    }
    assert(clauses_of(s@).len() == n);
    true
}

fn match_bars(s: &str, version: &ComposerVersion) -> (r: bool)
    ensures
        r == satisfies_bars(s@, version@),
{
    if s.is_empty() || text::same(s, "*") {
        return true;
    }
    if !text::contains_char(s, '|') {
        return match_clauses(s, version);
    }
    proof {
        reveal_strlit("|");
    }
    let pieces = text::split(s, "|");
    let n: usize = pieces.len();
    let mut i: usize = 0;
    while i < n
        invariant
            i <= n,
            n == pieces@.len(),
            text::views(pieces@) == text::pieces(s@, "|"@),
            s@.contains('|'),
            !allows_any(s@),
            forall|j: int|
                0 <= j < i ==> !satisfies_clauses(
                    text::trimmed(#[trigger] text::pieces(s@, "|"@)[j]),
                    version@,
                ),
        decreases n - i,
    {
        assert(text::pieces(s@, "|"@)[i as int] == pieces@[i as int]@);
        if match_clauses(text::trim(pieces[i]), version) {
            return true;
        }
        i += 1;
    }
    assert(text::pieces(s@, "|"@).len() == n);
    false
}

impl VersionConstraint {
    /// The constraint with the given text.
    pub fn new(constraint: &str) -> (r: Self)
        ensures
            r@ == constraint@,
    {
        VersionConstraint { raw: String::from_str(constraint) }
    }

    /// The constraint that allows every version.
    pub fn any() -> (r: Self)
        ensures
            r@ == "*"@,
    {
        Self::new("*")
    }

    /// The text of the constraint.
    pub fn as_str(&self) -> (r: &str)
        ensures
            r@ == self@,
    {
        self.raw.as_str()
    }

    /// Whether `version` satisfies this constraint.
    pub fn matches(&self, version: &ComposerVersion) -> (r: bool)
        ensures
            r == satisfies(self@, version@),
    {
        let s = text::trim(self.raw.as_str());
        if s.is_empty() || text::same(s, "*") {
            return true;
        }
        if !text::contains(s, "||") {
            return match_bars(s, version);
        }
        proof {
            reveal_strlit("||");
        }
        let pieces = text::split(s, "||");
        let n: usize = pieces.len();
        let mut i: usize = 0;
        while i < n
            invariant
                i <= n,
                n == pieces@.len(),
                s@ == text::trimmed(self@),
                text::views(pieces@) == text::pieces(s@, "||"@),
                text::occurs(s@, "||"@),
                !allows_any(s@),
                forall|j: int|
                    0 <= j < i ==> !satisfies_bars(
                        text::trimmed(#[trigger] text::pieces(s@, "||"@)[j]),
                        version@,
                    ),
            decreases n - i,
        {
            assert(text::pieces(s@, "||"@)[i as int] == pieces@[i as int]@);
            if match_bars(text::trim(pieces[i]), version) {
                return true;
            }
            i += 1;
        }
        assert(text::pieces(s@, "||"@).len() == n);
        false
    }
}

impl Default for VersionConstraint {
    fn default() -> (r: Self)
        ensures
            r@ == "*"@,
    {
        VersionConstraint::any()
    }
}

/// The empty constraint and `*` allow every version.
pub proof fn law_any_allows_all(v: VersionModel)
    ensures
        satisfies(""@, v),
        satisfies("*"@, v),
{
    reveal_strlit("");
    reveal_strlit("*");
    assert("*"@ =~= seq!['*']);
    text::lemma_trimmed_same(""@);
    text::lemma_trimmed_same("*"@);
}

/// One clause in full: a text without white space, commas and bars that is
/// more than an operator.
pub open spec fn is_clause(c: Seq<char>) -> bool {
    &&& c.len() > 0
    &&& forall|i: int| 0 <= i < c.len() ==> !text::is_space(#[trigger] c[i])
    &&& !c.contains(',')
    &&& !c.contains('|')
    &&& !is_operator(c)
}

/// What a clause allows as a constraint, and as a part of one.
pub proof fn lemma_clause_alone(c: Seq<char>, v: VersionModel)
    requires
        is_clause(c),
    ensures
        text::trimmed(c) == c,
        text::is_word(c, true),
        satisfies(c, v) == satisfies_clause(c, v),
        satisfies_bars(c, v) == satisfies_clause(c, v),
        satisfies_clauses(c, v) == satisfies_clause(c, v),
{
    text::lemma_trimmed_same(c);
    text::lemma_one_word(c, true);
    let w = text::words(c, true).map_values(|w: Seq<char>| text::trimmed(w));
    assert(w =~= seq![c]);
    assert(w.skip(1) =~= Seq::<Seq<char>>::empty());
    assert(grouped(w.skip(1)) =~= Seq::<Seq<char>>::empty());
    assert(clauses_of(c) =~= seq![c]);
    assert(clauses_of(c)[0] == c);
    reveal_strlit("||");
    if text::occurs(c, "||"@) {
        let i = choose|i: int| text::occurs_at(c, "||"@, i);
        assert(c.subrange(i, i + 2)[0] == '|');
        assert(c[i] == '|');
    }
}

/// Two clauses with `||` or `|` between them allow what one of them allows.
pub proof fn law_alternatives(a: Seq<char>, b: Seq<char>, v: VersionModel)
    requires
        is_clause(a),
        is_clause(b),
    ensures
        satisfies(a + " || "@ + b, v) == (satisfies(a, v) || satisfies(b, v)),
        satisfies(a + "||"@ + b, v) == (satisfies(a, v) || satisfies(b, v)),
        satisfies(a + "|"@ + b, v) == (satisfies(a, v) || satisfies(b, v)),
{
    lemma_clause_alone(a, v);
    lemma_clause_alone(b, v);
    lemma_wide_bars(a, b);
    lemma_two_bars(a + " || "@ + b, a + seq![' '], seq![' '] + b, v);
    lemma_tight_bars(a, b);
    lemma_two_bars(a + "||"@ + b, a, b, v);
    lemma_single_bar(a, b);
    lemma_one_bar(a + "|"@ + b, a, b, v);
}

/// A constraint of two alternatives between `||`.
proof fn lemma_two_bars(s: Seq<char>, a: Seq<char>, b: Seq<char>, v: VersionModel)
    requires
        text::trimmed(s) == s,
        !allows_any(s),
        text::occurs(s, "||"@),
        text::pieces(s, "||"@) == seq![a, b],
    ensures
        satisfies(s, v) == (satisfies_bars(text::trimmed(a), v) || satisfies_bars(
            text::trimmed(b),
            v,
        )),
{
    assert(text::pieces(s, "||"@)[0] == a);
    assert(text::pieces(s, "||"@)[1] == b);
}

/// A constraint of two alternatives between `|`.
proof fn lemma_one_bar(s: Seq<char>, a: Seq<char>, b: Seq<char>, v: VersionModel)
    requires
        text::trimmed(s) == s,
        !allows_any(s),
        !text::occurs(s, "||"@),
        s.contains('|'),
        text::pieces(s, "|"@) == seq![a, b],
    ensures
        satisfies(s, v) == (satisfies_clauses(text::trimmed(a), v) || satisfies_clauses(
            text::trimmed(b),
            v,
        )),
{
    assert(text::pieces(s, "|"@)[0] == a);
    assert(text::pieces(s, "|"@)[1] == b);
}

proof fn lemma_wide_bars(a: Seq<char>, b: Seq<char>)
    requires
        is_clause(a),
        is_clause(b),
    ensures
        ({
            let s = a + " || "@ + b;
            &&& text::trimmed(s) == s
            &&& !allows_any(s)
            &&& text::occurs(s, "||"@)
            &&& text::pieces(s, "||"@) == seq![a + seq![' '], seq![' '] + b]
        }),
        text::trimmed(a + seq![' ']) == text::trimmed(a),
        text::trimmed(seq![' '] + b) == text::trimmed(b),
{
    reveal_strlit("*");
    reveal_strlit("||");
    reveal_strlit(" || ");
    let s = a + " || "@ + b;
    let a1 = a + seq![' '];
    let b1 = seq![' '] + b;
    assert(s =~= a1 + "||"@ + b1);
    assert(s[0] == a[0]);
    assert(s.last() == b.last());
    text::lemma_trimmed_same(s);
    text::lemma_two_pieces(a1, "||"@, b1);
    assert(a1.drop_last() =~= a);
    assert(text::trimmed_front(a1) == a1);
    assert(text::trimmed_front(a) == a);
    assert(b1.skip(1) =~= b);
    assert(text::trimmed_front(b1) == text::trimmed_front(b));
}

proof fn lemma_tight_bars(a: Seq<char>, b: Seq<char>)
    requires
        is_clause(a),
        is_clause(b),
    ensures
        ({
            let s = a + "||"@ + b;
            &&& text::trimmed(s) == s
            &&& !allows_any(s)
            &&& text::occurs(s, "||"@)
            &&& text::pieces(s, "||"@) == seq![a, b]
        }),
{
    reveal_strlit("*");
    reveal_strlit("||");
    let s = a + "||"@ + b;
    assert(s[0] == a[0]);
    assert(s.last() == b.last());
    text::lemma_trimmed_same(s);
    text::lemma_two_pieces(a, "||"@, b);
}

proof fn lemma_single_bar(a: Seq<char>, b: Seq<char>)
    requires
        is_clause(a),
        is_clause(b),
    ensures
        ({
            let s = a + "|"@ + b;
            &&& text::trimmed(s) == s
            &&& !allows_any(s)
            &&& !text::occurs(s, "||"@)
            &&& s.contains('|')
            &&& text::pieces(s, "|"@) == seq![a, b]
        }),
{
    reveal_strlit("*");
    reveal_strlit("|");
    reveal_strlit("||");
    let s = a + "|"@ + b;
    let n = a.len() as int;
    assert(s[0] == a[0]);
    assert(s.last() == b.last());
    text::lemma_trimmed_same(s);
    if text::occurs(s, "||"@) {
        let i = choose|i: int| text::occurs_at(s, "||"@, i);
        assert(s.subrange(i, i + 2)[0] == '|');
        assert(s.subrange(i, i + 2)[1] == '|');
        assert(s[i] == '|' && s[i + 1] == '|');
        if i < n {
            assert(a[i] == '|');
        } else {
            assert(b[i - n] == '|');
        }
    }
    assert(s[n] == '|');
    text::lemma_two_pieces(a, "|"@, b);
}

/// Two clauses with a space or a comma between them allow what both of them
/// allow.
pub proof fn law_all_clauses(a: Seq<char>, b: Seq<char>, v: VersionModel)
    requires
        is_clause(a),
        is_clause(b),
    ensures
        satisfies(a + " "@ + b, v) == (satisfies(a, v) && satisfies(b, v)),
        satisfies(a + ","@ + b, v) == (satisfies(a, v) && satisfies(b, v)),
{
    reveal_strlit(" ");
    reveal_strlit(",");
    assert(" "@ =~= seq![' ']);
    assert(","@ =~= seq![',']);
    lemma_clause_alone(a, v);
    lemma_clause_alone(b, v);
    lemma_no_bar(a, ' ', b);
    lemma_spaced(a, b);
    lemma_both(a + " "@ + b, a, b, v);
    lemma_no_bar(a, ',', b);
    lemma_listed(a, b);
    lemma_both(a + ","@ + b, a, b, v);
}

/// A constraint of two clauses.
proof fn lemma_both(s: Seq<char>, a: Seq<char>, b: Seq<char>, v: VersionModel)
    requires
        text::trimmed(s) == s,
        !allows_any(s),
        !text::occurs(s, "||"@),
        !s.contains('|'),
        clauses_of(s) == seq![a, b],
    ensures
        satisfies(s, v) == (satisfies_clause(a, v) && satisfies_clause(b, v)),
{
    assert(clauses_of(s)[0] == a);
    assert(clauses_of(s)[1] == b);
}

proof fn lemma_spaced(a: Seq<char>, b: Seq<char>)
    requires
        is_clause(a),
        is_clause(b),
    ensures
        clauses_of(a + seq![' '] + b) == seq![a, b],
{
    let s = a + seq![' '] + b;
    lemma_no_bar(a, ' ', b);
    text::lemma_trimmed_same(a);
    text::lemma_trimmed_same(b);
    text::lemma_two_words(a, b, true);
    let w = text::words(s, true).map_values(|w: Seq<char>| text::trimmed(w));
    assert(w =~= seq![a, b]);
    assert(w.skip(1) =~= seq![b]);
    assert(w.skip(1).skip(1) =~= Seq::<Seq<char>>::empty());
    assert(grouped(w.skip(1).skip(1)) =~= Seq::<Seq<char>>::empty());
    assert(grouped(w.skip(1)) =~= seq![b]);
    assert(clauses_of(s) =~= seq![a, b]);
}

proof fn lemma_listed(a: Seq<char>, b: Seq<char>)
    requires
        is_clause(a),
        is_clause(b),
    ensures
        clauses_of(a + ","@ + b) == seq![a, b],
{
    reveal_strlit(",");
    let s = a + ","@ + b;
    text::lemma_trimmed_same(a);
    text::lemma_trimmed_same(b);
    text::lemma_two_pieces(a, ","@, b);
    let p = text::pieces(s, ","@);
    assert(s[a.len() as int] == ',');
    assert(p.drop_last() =~= seq![a]);
    assert(p.drop_last().drop_last() =~= Seq::<Seq<char>>::empty());
    assert(comma_clauses(p.drop_last().drop_last()) =~= Seq::<Seq<char>>::empty());
    assert(comma_clauses(p.drop_last()) =~= seq![a]);
    assert(clauses_of(s) =~= seq![a, b]);
}

proof fn lemma_no_bar(a: Seq<char>, c: char, b: Seq<char>)
    requires
        is_clause(a),
        is_clause(b),
        c != '|',
    ensures
        text::trimmed(a + seq![c] + b) == a + seq![c] + b,
        !allows_any(a + seq![c] + b),
        !(a + seq![c] + b).contains('|'),
        !text::occurs(a + seq![c] + b, "||"@),
        c == ' ' ==> !(a + seq![c] + b).contains(','),
{
    let s = a + seq![c] + b;
    reveal_strlit("*");
    reveal_strlit("||");
    assert(s[0] == a[0]);
    assert(s.last() == b.last());
    text::lemma_trimmed_same(s);
    assert forall|i: int| 0 <= i < s.len() implies s[i] != '|' && (c == ' ' ==> s[i] != ',') by {
        if i < a.len() {
            assert(s[i] == a[i]);
        } else if i > a.len() {
            assert(s[i] == b[i - a.len() - 1]);
        }
    }
    if text::occurs(s, "||"@) {
        let i = choose|i: int| text::occurs_at(s, "||"@, i);
        assert(s.subrange(i, i + 2)[0] == '|');
        assert(s[i] == '|');
    }
}

} // verus!
