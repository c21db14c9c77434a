//! Versions and version constraints as Composer writes them.

use crate::error::Error;
use crate::text;
use std::cmp::Ordering;
use vstd::prelude::*;
use vstd::std_specs::cmp::PartialOrdSpecImpl;

verus! {

// ---------------------------------------------------------------------------
// Stability

/// How stable a release claims to be, from the least to the most.
#[derive(Debug, Clone, Copy, PartialEq, Eq, PartialOrd, Ord, Hash, Structural)]
pub enum Stability {
    Dev,
    Alpha,
    Beta,
    Rc,
    Stable,
}

/// The place of a stability in their order.
pub open spec fn stability_rank(s: Stability) -> int {
    match s {
        Stability::Dev => 0,
        Stability::Alpha => 1,
        Stability::Beta => 2,
        Stability::Rc => 3,
        Stability::Stable => 4,
    }
}

/// The stability that a label names. A lone `a` or `b` names none.
pub open spec fn stability_of(label: Seq<char>) -> Stability {
    let low = text::lower(label);
    if text::starts(low, "dev"@) {
        Stability::Dev
    } else if text::starts(low, "alpha"@) || (text::starts(low, "a"@) && low.len() > 1) {
        Stability::Alpha
    } else if text::starts(low, "beta"@) || (text::starts(low, "b"@) && low.len() > 1) {
        Stability::Beta
    } else if text::starts(low, "rc"@) {
        Stability::Rc
    } else {
        Stability::Stable
    }
}

/// The name of a stability.
pub open spec fn stability_name(s: Stability) -> Seq<char> {
    match s {
        Stability::Dev => "dev"@,
        Stability::Alpha => "alpha"@,
        Stability::Beta => "beta"@,
        Stability::Rc => "RC"@,
        Stability::Stable => "stable"@,
    }
}

impl Stability {
    /// The stability that a label names.
    pub fn parse(s: &str) -> (r: Self)
        ensures
            r == stability_of(s@),
    {
        let lower = text::to_ascii_lowercase(s);
        let low = lower.as_str();
        let long: bool = low.unicode_len() > 1;
        if text::starts_with(low, "dev") {
            Stability::Dev
        } else if text::starts_with(low, "alpha") || (text::starts_with(low, "a") && long) {
            Stability::Alpha
        } else if text::starts_with(low, "beta") || (text::starts_with(low, "b") && long) {
            Stability::Beta
        } else if text::starts_with(low, "rc") {
            Stability::Rc
        } else {
            Stability::Stable
        }
    }

    /// The name of the stability.
    pub fn as_str(self) -> (r: &'static str)
        ensures
            r@ == stability_name(self),
    {
        match self {
            Stability::Dev => "dev",
            Stability::Alpha => "alpha",
            Stability::Beta => "beta",
            Stability::Rc => "RC",
            Stability::Stable => "stable",
        }
    }

    /// The place of the stability in their order.
    pub fn rank(self) -> (r: u8)
        ensures
            r == stability_rank(self),
    {
        match self {
            Stability::Dev => 0,
            Stability::Alpha => 1,
            Stability::Beta => 2,
            Stability::Rc => 3,
            Stability::Stable => 4,
        }
    }
}

/// A stability's name reads back as the stability.
pub proof fn law_stability_name_reads_back(s: Stability)
    ensures
        stability_of(stability_name(s)) == s,
{
    reveal_strlit("dev");
    reveal_strlit("alpha");
    reveal_strlit("beta");
    reveal_strlit("rc");
    reveal_strlit("RC");
    reveal_strlit("stable");
    reveal_strlit("a");
    reveal_strlit("b");
    let low = text::lower(stability_name(s));
    match s {
        Stability::Dev => {
            assert(low.take(3) =~= "dev"@);
        },
        Stability::Alpha => {
            assert(low[0] == 'a');
            assert(low.take(3)[0] == 'a');
            assert(!text::starts(low, "dev"@));
            assert(low.take(5) =~= "alpha"@);
        },
        Stability::Beta => {
            assert(low[0] == 'b');
            assert(low.take(3)[0] == 'b');
            assert(low.take(1)[0] == 'b');
            assert(!text::starts(low, "dev"@));
            assert(low.take(4) =~= "beta"@);
        },
        Stability::Rc => {
            assert(low =~= seq!['r', 'c']);
            assert(low.take(1)[0] == 'r');
            assert(low.take(2) =~= "rc"@);
        },
        Stability::Stable => {
            assert(low[0] == 's');
            assert(low.take(3)[0] == 's');
            assert(low.take(5)[0] == 's');
            assert(low.take(4)[0] == 's');
            assert(low.take(2)[0] == 's');
            assert(low.take(1)[0] == 's');
        },
    }
}

// ---------------------------------------------------------------------------
// Versions

/// What a version consists of.
pub struct VersionView {
    pub raw: Seq<char>,
    pub normalized: Seq<char>,
    pub stability: Stability,
    pub parts: (u64, u64, u64),
    pub pre: Option<Seq<char>>,
}

/// A package version.
#[derive(Debug, PartialEq, Eq, Hash)]
pub struct ComposerVersion {
    /// The text of the version as it was given (`v1.2.3`, `dev-main`).
    pub raw: String,
    /// The text without a leading `v`.
    normalized: String,
    stability: Stability,
    /// Major, minor and patch number.
    parts: (u64, u64, u64),
    /// The pre-release label.
    pre: Option<String>,
}

impl View for ComposerVersion {
    type V = VersionView;

    closed spec fn view(&self) -> VersionView {
        VersionView {
            raw: self.raw@,
            normalized: self.normalized@,
            stability: self.stability,
            parts: self.parts,
            pre: text::opt_text(self.pre),
        }
    }
}

impl Clone for ComposerVersion {
    fn clone(&self) -> (r: Self)
        ensures
            r@ == self@,
    {
        ComposerVersion {
            raw: self.raw.clone(),
            normalized: self.normalized.clone(),
            stability: self.stability,
            parts: self.parts,
            pre: match &self.pre {
                Some(p) => Some(p.clone()),
                None => None,
            },
        }
    }
}

/// Where the pre-release marker `m` stands in `s`: at its first occurrence,
/// if that follows a digit.
pub open spec fn marker_at(s: Seq<char>, m: Seq<char>) -> Option<int> {
    match text::find(s, m) {
        Some(i) => if i > 0 && text::is_digit(s[i - 1]) {
            Some(i)
        } else {
            None
        },
        None => None,
    }
}

pub open spec fn first_some(a: Option<int>, b: Option<int>) -> Option<int> {
    if a is Some {
        a
    } else {
        b
    }
}

/// Where a pre-release label begins in a version without a hyphen.
pub open spec fn label_at(s: Seq<char>) -> Option<int> {
    first_some(
        marker_at(s, "RC"@),
        first_some(
            marker_at(s, "rc"@),
            first_some(
                marker_at(s, "alpha"@),
                first_some(
                    marker_at(s, "ALPHA"@),
                    first_some(
                        marker_at(s, "beta"@),
                        first_some(
                            marker_at(s, "BETA"@),
                            first_some(marker_at(s, "a"@), marker_at(s, "b"@)),
                        ),
                    ),
                ),
            ),
        ),
    )
}

/// The numeric part of a version and its pre-release label.
pub open spec fn prerelease_of(s: Seq<char>) -> (Seq<char>, Option<Seq<char>>) {
    match text::parted(s, "-"@) {
        Some((num, pre)) => (num, Some(pre)),
        None => match label_at(s) {
            Some(i) => (s.take(i), Some(s.skip(i))),
            None => (s, None),
        },
    }
}

/// The digits that a text begins with.
pub open spec fn leading_digits(s: Seq<char>) -> Seq<char>
    decreases s.len(),
{
    if s.len() > 0 && text::is_digit(s[0]) {
        seq![s[0]] + leading_digits(s.skip(1))
    } else {
        Seq::empty()
    }
}

pub open spec fn or_zero(n: Option<u64>) -> u64 {
    match n {
        Some(x) => x,
        None => 0,
    }
}

/// Major, minor and patch number. Only the major number must be one.
pub open spec fn numeric_parts_of(s: Seq<char>) -> Option<(u64, u64, u64)> {
    let p = text::pieces(s, "."@);
    match text::u64_of(p[0]) {
        None => None,
        Some(major) => {
            let minor = if p.len() > 1 {
                or_zero(text::u64_of(p[1]))
            } else {
                0
            };
            let patch = if p.len() > 2 {
                or_zero(text::u64_of(leading_digits(p[2])))
            } else {
                0
            };
            Some((major, minor, patch))
        },
    }
}

/// A branch such as `dev-main` or `1.0.x-dev`.
pub open spec fn is_branch(s: Seq<char>) -> bool {
    text::starts(s, "dev-"@) || text::ends(s, "-dev"@)
}

/// `s` without one leading `v`.
pub open spec fn without_v(s: Seq<char>) -> Seq<char> {
    match text::without_prefix(s, "v"@) {
        Some(t) => t,
        None => s,
    }
}

/// The version that a text stands for.
pub open spec fn parsed(s: Seq<char>) -> Option<VersionView> {
    let raw = text::trimmed(s);
    if raw.len() == 0 {
        None
    } else if is_branch(raw) {
        Some(
            VersionView {
                raw,
                normalized: raw,
                stability: Stability::Dev,
                parts: (0, 0, 0),
                pre: Some(raw),
            },
        )
    } else {
        let bare = without_v(raw);
        let (num, pre) = prerelease_of(bare);
        match numeric_parts_of(num) {
            None => None,
            Some(parts) => Some(
                VersionView {
                    raw,
                    normalized: bare,
                    stability: match pre {
                        Some(p) => stability_of(p),
                        None => Stability::Stable,
                    },
                    parts,
                    pre,
                },
            ),
        }
    }
}

/// What the error says of a text that is no version.
pub open spec fn bad_version_text(s: Seq<char>) -> Seq<char> {
    let raw = text::trimmed(s);
    if raw.len() == 0 {
        raw
    } else {
        prerelease_of(without_v(raw)).0
    }
}

/// The position of a pre-release marker.
fn find_marker(s: &str, m: &str) -> (r: Option<usize>)
    ensures
        match r {
            Some(i) => marker_at(s@, m@) == Some(i as int) && i <= s@.len(),
            None => marker_at(s@, m@) is None,
        },
{
    match text::find_in(s, m) {
        Some(i) => {
            if i > 0 {
                let c = s.get_char(i - 1);
                if '0' <= c && c <= '9' {
                    return Some(i);
                }
            }
            None
        },
        None => None,
    }
}

fn find_label(s: &str) -> (r: Option<usize>)
    ensures
        match r {
            Some(i) => label_at(s@) == Some(i as int) && i <= s@.len(),
            None => label_at(s@) is None,
        },
{
    if let Some(i) = find_marker(s, "RC") {
        return Some(i);
    }
    if let Some(i) = find_marker(s, "rc") {
        return Some(i);
    }
    if let Some(i) = find_marker(s, "alpha") {
        return Some(i);
    }
    if let Some(i) = find_marker(s, "ALPHA") {
        return Some(i);
    }
    if let Some(i) = find_marker(s, "beta") {
        return Some(i);
    }
    if let Some(i) = find_marker(s, "BETA") {
        return Some(i);
    }
    if let Some(i) = find_marker(s, "a") {
        return Some(i);
    }
    find_marker(s, "b")
}

/// The numeric part of a version and its pre-release label.
pub fn split_prerelease(s: &str) -> (r: (&str, Option<String>))
    ensures
        r.0@ == prerelease_of(s@).0,
        text::opt_text(r.1) == prerelease_of(s@).1,
{
    if let Some((num, pre)) = text::split_once(s, "-") {
        return (num, Some(String::from_str(pre)));
    }
    match find_label(s) {
        Some(i) => {
            let n: usize = s.unicode_len();
            let label = s.substring_char(i, n);
            (s.substring_char(0, i), Some(String::from_str(label)))
        },
        None => (s, None),
    }
}

/// The digits that a text begins with.
fn take_digits(s: &str) -> (r: &str)
    ensures
        r@ == leading_digits(s@),
{
    let n: usize = s.unicode_len();
    let mut i: usize = 0;
    assert(s@.skip(0) =~= s@);
    assert(s@.take(0) + leading_digits(s@) =~= leading_digits(s@));
    while i < n && '0' <= s.get_char(i) && s.get_char(i) <= '9'
        invariant
            i <= n,
            n == s@.len(),
            leading_digits(s@) == s@.take(i as int) + leading_digits(s@.skip(i as int)),
        decreases n - i,
    {
        assert(s@.skip(i as int).skip(1) =~= s@.skip(i + 1));
        assert(s@.take(i as int) + (seq![s@[i as int]] + leading_digits(s@.skip(i + 1))) =~= s@.take(
            i + 1,
        ) + leading_digits(s@.skip(i + 1)));
        i += 1;
    }
    assert(leading_digits(s@.skip(i as int)) =~= Seq::<char>::empty());
    assert(leading_digits(s@) =~= s@.subrange(0, i as int));
    s.substring_char(0, i)
}

/// Major, minor and patch number.
pub fn parse_numeric_parts(s: &str) -> (r: Result<(u64, u64, u64), Error>)
    ensures
        match numeric_parts_of(s@) {
            Some(p) => r == Ok::<(u64, u64, u64), Error>(p),
            None => r matches Err(Error::InvalidVersion(t)) && t@ == s@,
        },
{
    proof {
        reveal_strlit(".");
    }
    let p = text::split(s, ".");
    assert(text::views(p@)[0] == p@[0]@);
    let major: u64 = match text::parse_u64(p[0]) {
        Some(n) => n,
        None => {
            return Err(Error::InvalidVersion(String::from_str(s)));
        },
    };
    let minor: u64 = if p.len() > 1 {
        assert(text::views(p@)[1] == p@[1]@);
        match text::parse_u64(p[1]) {
            Some(n) => n,
            None => 0,
        }
    } else {
        0
    };
    let patch: u64 = if p.len() > 2 {
        assert(text::views(p@)[2] == p@[2]@);
        match text::parse_u64(take_digits(p[2])) {
            Some(n) => n,
            None => 0,
        }
    } else {
        0
    };
    Ok((major, minor, patch))
}

impl ComposerVersion {
    /// The version that a text stands for.
    pub fn parse(s: &str) -> (r: Result<Self, Error>)
        ensures
            match parsed(s@) {
                Some(v) => r is Ok && r->Ok_0@ == v,
                None => r matches Err(Error::InvalidVersion(t)) && t@ == bad_version_text(s@),
            },
    {
        let raw = text::trim(s);
        if raw.is_empty() {
            return Err(Error::InvalidVersion(String::from_str(raw)));
        }
        if text::starts_with(raw, "dev-") || text::ends_with(raw, "-dev") {
            return Ok(
                ComposerVersion {
                    raw: String::from_str(raw),
                    normalized: String::from_str(raw),
                    stability: Stability::Dev,
                    parts: (0, 0, 0),
                    pre: Some(String::from_str(raw)),
                },
            );
        }
        let bare = match text::strip_prefix(raw, "v") {
            Some(t) => t,
            None => raw,
        };
        let (num, pre) = split_prerelease(bare);
        let parts = match parse_numeric_parts(num) {
            Ok(p) => p,
            Err(e) => {
                return Err(e);
            },
        };
        let stability = match &pre {
            Some(p) => Stability::parse(p.as_str()),
            None => Stability::Stable,
        };
        Ok(
            ComposerVersion {
                raw: String::from_str(raw),
                normalized: String::from_str(bare),
                stability,
                parts,
                pre,
            },
        )
    }

    /// Whether two versions are the same, also in their texts.
    pub fn same(&self, other: &Self) -> (r: bool)
        ensures
            r == (self@ == other@),
    {
        let pre = match (&self.pre, &other.pre) {
            (Some(a), Some(b)) => text::same(a.as_str(), b.as_str()),
            (None, None) => true,
            _ => false,
        };
        pre && text::same(self.raw.as_str(), other.raw.as_str()) && text::same(
            self.normalized.as_str(),
            other.normalized.as_str(),
        ) && self.stability == other.stability && self.parts.0 == other.parts.0 && self.parts.1
            == other.parts.1 && self.parts.2 == other.parts.2
    }

    /// The text of the version as it was given.
    pub fn as_str(&self) -> (r: &str)
        ensures
            r@ == self@.raw,
    {
        self.raw.as_str()
    }

    /// The text without a leading `v`.
    pub fn normalized(&self) -> (r: &str)
        ensures
            r@ == self@.normalized,
    {
        self.normalized.as_str()
    }

    pub fn stability(&self) -> (r: Stability)
        ensures
            r == self@.stability,
    {
        self.stability
    }

    pub fn is_stable(&self) -> (r: bool)
        ensures
            r == (self@.stability is Stable),
    {
        self.stability == Stability::Stable
    }

    /// Major, minor and patch number.
    pub fn numeric_parts(&self) -> (r: (u64, u64, u64))
        ensures
            r == self@.parts,
    {
        self.parts
    }

    /// The version with four numbers, as Composer stores it (`1.2.3` as
    /// `1.2.3.0`, `1.0.0-beta1` as `1.0.0.0-beta1`). A branch stays as it is.
    pub fn version_normalized_composer(&self) -> (r: String)
        ensures
            r@ == four_parts(self@),
    {
        if self.stability == Stability::Dev {
            return self.normalized.clone();
        }
        let mut s = release_text(self.parts.0, self.parts.1, self.parts.2);
        s.append(".0");
        match &self.pre {
            Some(pre) => {
                s.append("-");
                s.append(pre.as_str());
            },
            None => {},
        }
        s
    }

    /// The release with the given numbers.
    pub fn release(major: u64, minor: u64, patch: u64) -> (r: Self)
        ensures
            r@ == release_view(major, minor, patch),
    {
        ComposerVersion {
            raw: release_text(major, minor, patch),
            normalized: release_text(major, minor, patch),
            stability: Stability::Stable,
            parts: (major, minor, patch),
            pre: None,
        }
    }
}

/// The text of three numbers with dots between them.
pub open spec fn dotted(major: nat, minor: nat, patch: nat) -> Seq<char> {
    text::decimal(major) + "."@ + text::decimal(minor) + "."@ + text::decimal(patch)
}

/// The stable release with the given numbers.
pub open spec fn release_view(major: u64, minor: u64, patch: u64) -> VersionView {
    VersionView {
        raw: dotted(major as nat, minor as nat, patch as nat),
        normalized: dotted(major as nat, minor as nat, patch as nat),
        stability: Stability::Stable,
        parts: (major, minor, patch),
        pre: None,
    }
}

fn release_text(major: u64, minor: u64, patch: u64) -> (r: String)
    ensures
        r@ == dotted(major as nat, minor as nat, patch as nat),
{
    let mut s = text::u64_text(major);
    s.append(".");
    s.append(text::u64_text(minor).as_str());
    s.append(".");
    s.append(text::u64_text(patch).as_str());
    s
}

/// The four-part form of a version.
pub open spec fn four_parts(v: VersionView) -> Seq<char> {
    if v.stability is Dev {
        v.normalized
    } else {
        let base = dotted(v.parts.0 as nat, v.parts.1 as nat, v.parts.2 as nat) + ".0"@;
        match v.pre {
            Some(pre) => base + "-"@ + pre,
            None => base,
        }
    }
}

/// The four-part form of a version text. A text that is no version only loses
/// its white space and its leading `v`.
pub open spec fn normalized_text(raw: Seq<char>) -> Seq<char> {
    match parsed(raw) {
        Some(v) => four_parts(v),
        None => text::without_front(text::trimmed(raw), 'v'),
    }
}

/// The four-part form of a version text.
pub fn version_normalized(raw: &str) -> (r: String)
    ensures
        r@ == normalized_text(raw@),
{
    match ComposerVersion::parse(raw) {
        Ok(v) => v.version_normalized_composer(),
        Err(_) => String::from_str(text::trim_front_char(text::trim(raw), 'v')),
    }
}

// ---------------------------------------------------------------------------
// The order of versions

/// The order of three numbers.
pub open spec fn parts_lt(a: (u64, u64, u64), b: (nat, nat, nat)) -> bool {
    a.0 < b.0 || (a.0 == b.0 && (a.1 < b.1 || (a.1 == b.1 && a.2 < b.2)))
}

pub open spec fn wide(p: (u64, u64, u64)) -> (nat, nat, nat) {
    (p.0 as nat, p.1 as nat, p.2 as nat)
}

/// The order of pre-release labels: none comes first.
pub open spec fn label_lt(a: Option<Seq<char>>, b: Option<Seq<char>>) -> bool {
    match (a, b) {
        (_, None) => false,
        (None, Some(_)) => true,
        (Some(x), Some(y)) => text::text_lt(x, y),
    }
}

/// The order of versions. Branches lie below everything else, among
/// themselves ordered by name; other versions are ordered by their numbers,
/// then by stability, then by label.
pub open spec fn version_lt(a: VersionView, b: VersionView) -> bool {
    if a.stability is Dev {
        b.stability !is Dev || text::text_lt(a.raw, b.raw)
    } else if b.stability is Dev {
        false
    } else if a.parts != b.parts {
        parts_lt(a.parts, wide(b.parts))
    } else if a.stability != b.stability {
        stability_rank(a.stability) < stability_rank(b.stability)
    } else {
        label_lt(a.pre, b.pre)
    }
}

/// `a` does not lie above `b`.
pub open spec fn version_le(a: VersionView, b: VersionView) -> bool {
    !version_lt(b, a)
}

/// The integers by which a version is ordered, compared one after another.
pub open spec fn order_key(v: VersionView) -> Seq<int> {
    if v.stability is Dev {
        seq![0int] + text::codes(v.raw)
    } else {
        seq![1int, v.parts.0 as int, v.parts.1 as int, v.parts.2 as int, stability_rank(
            v.stability,
        )] + label_key(v.pre)
    }
}

pub open spec fn label_key(p: Option<Seq<char>>) -> Seq<int> {
    match p {
        None => seq![0int],
        Some(t) => seq![1int] + text::codes(t),
    }
}

proof fn lemma_seq_lt_head(x: int, a: Seq<int>, y: int, b: Seq<int>)
    ensures
        text::seq_lt(seq![x] + a, seq![y] + b) == (x < y || (x == y && text::seq_lt(a, b))),
{
    assert((seq![x] + a).skip(1) =~= a);
    assert((seq![y] + b).skip(1) =~= b);
}

/// The order of versions is that of their keys.
pub proof fn law_key_orders_versions(a: VersionView, b: VersionView)
    ensures
        version_lt(a, b) == text::seq_lt(order_key(a), order_key(b)),
{
    if a.stability is Dev && b.stability is Dev {
        lemma_seq_lt_head(0, text::codes(a.raw), 0, text::codes(b.raw));
    } else if a.stability is Dev {
        lemma_seq_lt_head(0, text::codes(a.raw), 1, order_key(b).skip(1));
        assert(order_key(b) =~= seq![1int] + order_key(b).skip(1));
    } else if b.stability is Dev {
        lemma_seq_lt_head(1, order_key(a).skip(1), 0, text::codes(b.raw));
        assert(order_key(a) =~= seq![1int] + order_key(a).skip(1));
    } else {
        let (ra, rb) = (stability_rank(a.stability), stability_rank(b.stability));
        let (a4, b4) = (seq![ra] + label_key(a.pre), seq![rb] + label_key(b.pre));
        let (a3, b3) = (seq![a.parts.2 as int] + a4, seq![b.parts.2 as int] + b4);
        let (a2, b2) = (seq![a.parts.1 as int] + a3, seq![b.parts.1 as int] + b3);
        let (a1, b1) = (seq![a.parts.0 as int] + a2, seq![b.parts.0 as int] + b2);
        assert(order_key(a) =~= seq![1int] + a1);
        assert(order_key(b) =~= seq![1int] + b1);
        lemma_seq_lt_head(1, a1, 1, b1);
        lemma_seq_lt_head(a.parts.0 as int, a2, b.parts.0 as int, b2);
        lemma_seq_lt_head(a.parts.1 as int, a3, b.parts.1 as int, b3);
        lemma_seq_lt_head(a.parts.2 as int, a4, b.parts.2 as int, b4);
        lemma_seq_lt_head(ra, label_key(a.pre), rb, label_key(b.pre));
        match (a.pre, b.pre) {
            (Some(x), Some(y)) => {
                lemma_seq_lt_head(1, text::codes(x), 1, text::codes(y));
            },
            (None, Some(y)) => {
                lemma_seq_lt_head(0, Seq::empty(), 1, text::codes(y));
                assert(seq![0int] + Seq::<int>::empty() =~= seq![0int]);
            },
            (Some(x), None) => {
                lemma_seq_lt_head(1, text::codes(x), 0, Seq::empty());
                assert(seq![0int] + Seq::<int>::empty() =~= seq![0int]);
            },
            (None, None) => {
                text::lemma_seq_lt_irreflexive(seq![0int]);
            },
        }
        assert(a.stability == b.stability <==> ra == rb);
    }
}

/// Two versions that neither lies below the other stand at the same place.
pub open spec fn same_place(a: VersionView, b: VersionView) -> bool {
    !version_lt(a, b) && !version_lt(b, a)
}

/// The order of versions is a strict total order of places: of two versions
/// exactly one lies below the other or both stand at the same place.
pub proof fn law_version_order_total(a: VersionView, b: VersionView)
    ensures
        !version_lt(a, a),
        !(version_lt(a, b) && version_lt(b, a)),
        same_place(a, b) <==> order_key(a) == order_key(b),
{
    law_key_orders_versions(a, a);
    law_key_orders_versions(a, b);
    law_key_orders_versions(b, a);
    text::lemma_seq_lt_irreflexive(order_key(a));
    text::lemma_seq_lt_total(order_key(a), order_key(b));
}

/// The order of versions is transitive.
pub proof fn law_version_order_transitive(a: VersionView, b: VersionView, c: VersionView)
    requires
        version_lt(a, b),
        version_lt(b, c),
    ensures
        version_lt(a, c),
{
    law_key_orders_versions(a, b);
    law_key_orders_versions(b, c);
    law_key_orders_versions(a, c);
    text::lemma_seq_lt_transitive(order_key(a), order_key(b), order_key(c));
}

/// A branch lies below every version that is none.
pub proof fn law_branch_below_numbered(a: VersionView, b: VersionView)
    requires
        a.stability is Dev,
        b.stability !is Dev,
    ensures
        version_lt(a, b),
        !version_lt(b, a),
{
}

/// A pre-release lies below the release with the same numbers.
pub proof fn law_prerelease_below_release(a: VersionView, b: VersionView)
    requires
        a.parts == b.parts,
        b.stability is Stable,
        a.stability !is Stable,
    ensures
        version_lt(a, b),
{
}

impl ComposerVersion {
    /// Whether this version lies below another.
    pub fn lies_below(&self, other: &Self) -> (r: bool)
        ensures
            r == version_lt(self@, other@),
    {
        if self.stability == Stability::Dev {
            return other.stability != Stability::Dev || text::below(
                self.raw.as_str(),
                other.raw.as_str(),
            );
        }
        if other.stability == Stability::Dev {
            return false;
        }
        if self.parts.0 != other.parts.0 {
            return self.parts.0 < other.parts.0;
        }
        if self.parts.1 != other.parts.1 {
            return self.parts.1 < other.parts.1;
        }
        if self.parts.2 != other.parts.2 {
            return self.parts.2 < other.parts.2;
        }
        if self.stability != other.stability {
            return self.stability.rank() < other.stability.rank();
        }
        match (&self.pre, &other.pre) {
            (_, None) => false,
            (None, Some(_)) => true,
            (Some(x), Some(y)) => text::below(x.as_str(), y.as_str()),
        }
    }
}

impl ComposerVersion {
    /// The integers by which the version is ordered.
    pub fn order_key(&self) -> (r: Vec<u128>)
        ensures
            key_ints(r@) == order_key(self@),
    {
        let mut key: Vec<u128> = Vec::new();
        if self.stability == Stability::Dev {
            key.push(0);
            assert(key_ints(key@) =~= seq![0int]);
            push_codes(&mut key, self.raw.as_str());
        } else {
            key.push(1);
            key.push(self.parts.0 as u128);
            key.push(self.parts.1 as u128);
            key.push(self.parts.2 as u128);
            key.push(self.stability.rank() as u128);
            let ghost head = seq![1int, self.parts.0 as int, self.parts.1 as int, self.parts.2 as int,
                stability_rank(self.stability)];
            assert(key_ints(key@) =~= head);
            match &self.pre {
                None => {
                    key.push(0);
                    assert(key_ints(key@) =~= head + seq![0int]);
                },
                Some(p) => {
                    key.push(1);
                    assert(key_ints(key@) =~= head + seq![1int]);
                    push_codes(&mut key, p.as_str());
                    assert(head + seq![1int] + text::codes(p@) =~= head + (seq![1int]
                        + text::codes(p@)));
                },
            }
        }
        key
    }
}

/// The integers of a key.
pub open spec fn key_ints(k: Seq<u128>) -> Seq<int> {
    k.map_values(|x: u128| x as int)
}

fn push_codes(key: &mut Vec<u128>, s: &str)
    ensures
        key_ints(final(key)@) == key_ints(old(key)@) + text::codes(s@),
{
    let n: usize = s.unicode_len();
    let mut i: usize = 0;
    let ghost start = key_ints(key@);
    assert(start + text::codes(s@).take(0) =~= start);
    while i < n
        invariant
            i <= n,
            n == s@.len(),
            key_ints(key@) == start + text::codes(s@).take(i as int),
        decreases n - i,
    {
        let c = s.get_char(i);
        let ghost before = key@;
        key.push(c as u32 as u128);
        assert(key_ints(key@) =~= key_ints(before).push(c as int));
        assert(text::codes(s@).take(i + 1) =~= text::codes(s@).take(i as int).push(c as int));
        assert(key_ints(key@) =~= start + text::codes(s@).take(i + 1));
        i += 1;
    }
    assert(text::codes(s@).take(n as int) =~= text::codes(s@));
}

impl PartialOrd for ComposerVersion {
    fn partial_cmp(&self, other: &Self) -> (r: Option<Ordering>) {
        if self.lies_below(other) {
            Some(Ordering::Less)
        } else if other.lies_below(self) {
            Some(Ordering::Greater)
        } else {
            Some(Ordering::Equal)
        }
    }
}

impl PartialOrdSpecImpl for ComposerVersion {
    open spec fn obeys_partial_cmp_spec() -> bool {
        true
    }

    open spec fn partial_cmp_spec(&self, other: &Self) -> Option<Ordering> {
        if version_lt(self@, other@) {
            Some(Ordering::Less)
        } else if version_lt(other@, self@) {
            Some(Ordering::Greater)
        } else {
            Some(Ordering::Equal)
        }
    }
}

/// A release is normalized to four numbers, its label behind them; a branch keeps
/// its name, and what is no version only loses its blanks and a `v` in front.
pub proof fn law_normalized_texts(raw: Seq<char>)
    ensures
        parsed(raw) matches Some(v) ==> {
            &&& v.stability is Dev ==> normalized_text(raw) == v.normalized
            &&& !(v.stability is Dev) && v.pre is None ==> normalized_text(raw) == text::decimal(
                v.parts.0 as nat,
            ) + seq!['.'] + text::decimal(v.parts.1 as nat) + seq!['.'] + text::decimal(
                v.parts.2 as nat,
            ) + seq!['.', '0']
            &&& !(v.stability is Dev) && v.pre is Some ==> normalized_text(raw) == text::decimal(
                v.parts.0 as nat,
            ) + seq!['.'] + text::decimal(v.parts.1 as nat) + seq!['.'] + text::decimal(
                v.parts.2 as nat,
            ) + seq!['.', '0', '-'] + v.pre->0
        },
        parsed(raw) is None ==> normalized_text(raw) == text::without_front(
            text::trimmed(raw),
            'v',
        ),
{
    reveal_strlit(".");
    reveal_strlit(".0");
    reveal_strlit("-");
    assert("."@ =~= seq!['.']);
    assert(".0"@ =~= seq!['.', '0']);
    if let Some(v) = parsed(raw) {
        if let Some(p) = v.pre {
            let d = dotted(v.parts.0 as nat, v.parts.1 as nat, v.parts.2 as nat);
            assert(d + ".0"@ + "-"@ + p =~= d + seq!['.', '0', '-'] + p);
        }
    }
}

} // verus!
