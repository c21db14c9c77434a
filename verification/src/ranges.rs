//! Constraints as sets of versions.
//!
//! The sets are those of the `version_ranges` crate. Their elements are the
//! keys of versions: sequences of integers whose lexicographic order is the
//! order of the versions.

use crate::constraint;
use crate::constraint::hyphen_range_bounds;
use crate::constraint::UpperBound;
use crate::constraint::VersionConstraint;
use crate::text;
use crate::version::ComposerVersion;
use crate::version::Stability;
use version_ranges::Ranges;
use vstd::prelude::*;

verus! {

// ---------------------------------------------------------------------------
// Sets of keys

/// `version_ranges::Ranges`, a set given by the bounds of its segments.
#[verifier::external_type_specification]
#[verifier::external_body]
#[verifier::reject_recursive_types(V)]
pub struct ExRanges<V>(version_ranges::Ranges<V>);

/// The keys that a set holds.
pub uninterp spec fn range_keys(r: version_ranges::Ranges<Vec<u128>>) -> Set<Seq<u128>>;

/// `a` lies below `b`.
pub open spec fn key_lt(a: Seq<u128>, b: Seq<u128>) -> bool {
    text::seq_lt(crate::version::key_ints(a), crate::version::key_ints(b))
}

/// `Ranges::empty` holds no key.
#[verifier::external_body]
fn ranges_empty() -> (r: Ranges<Vec<u128>>)
    ensures
        range_keys(r) == Set::<Seq<u128>>::empty(),
{
    Ranges::empty()
}

/// `Ranges::full` holds every key.
#[verifier::external_body]
fn ranges_full() -> (r: Ranges<Vec<u128>>)
    ensures
        range_keys(r) == Set::<Seq<u128>>::full(),
{
    Ranges::full()
}

/// `Ranges::higher_than` holds the keys that do not lie below `v`.
#[verifier::external_body]
fn ranges_higher_than(v: Vec<u128>) -> (r: Ranges<Vec<u128>>)
    ensures
        range_keys(r) == Set::new(|k: Seq<u128>| !key_lt(k, v@)),
{
    Ranges::higher_than(v)
}

/// `Ranges::strictly_higher_than` holds the keys above `v`.
#[verifier::external_body]
fn ranges_strictly_higher_than(v: Vec<u128>) -> (r: Ranges<Vec<u128>>)
    ensures
        range_keys(r) == Set::new(|k: Seq<u128>| key_lt(v@, k)),
{
    Ranges::strictly_higher_than(v)
}

/// `Ranges::lower_than` holds the keys that do not lie above `v`.
#[verifier::external_body]
fn ranges_lower_than(v: Vec<u128>) -> (r: Ranges<Vec<u128>>)
    ensures
        range_keys(r) == Set::new(|k: Seq<u128>| !key_lt(v@, k)),
{
    Ranges::lower_than(v)
}

/// `Ranges::strictly_lower_than` holds the keys below `v`.
#[verifier::external_body]
fn ranges_strictly_lower_than(v: Vec<u128>) -> (r: Ranges<Vec<u128>>)
    ensures
        range_keys(r) == Set::new(|k: Seq<u128>| key_lt(k, v@)),
{
    Ranges::strictly_lower_than(v)
}

/// `Ranges::between` holds the keys from `low` on that lie below `high`. Its
/// segments are only sound where `low` lies below `high`.
#[verifier::external_body]
fn ranges_between(low: Vec<u128>, high: Vec<u128>) -> (r: Ranges<Vec<u128>>)
    requires
        key_lt(low@, high@),
    ensures
        range_keys(r) == Set::new(|k: Seq<u128>| !key_lt(k, low@) && key_lt(k, high@)),
{
    Ranges::between(low, high)
}

/// `Ranges::singleton` holds one key.
#[verifier::external_body]
fn ranges_singleton(v: Vec<u128>) -> (r: Ranges<Vec<u128>>)
    ensures
        range_keys(r) == Set::<Seq<u128>>::empty().insert(v@),
{
    Ranges::singleton(v)
}

/// `Ranges::complement` holds the keys that the set does not hold.
#[verifier::external_body]
fn ranges_complement(a: &Ranges<Vec<u128>>) -> (r: Ranges<Vec<u128>>)
    ensures
        range_keys(r) == range_keys(*a).complement(),
{
    a.complement()
}

/// `Ranges::union` holds the keys of both sets.
#[verifier::external_body]
fn ranges_union(a: &Ranges<Vec<u128>>, b: &Ranges<Vec<u128>>) -> (r: Ranges<Vec<u128>>)
    ensures
        range_keys(r) == range_keys(*a).union(range_keys(*b)),
{
    a.union(b)
}

/// `Ranges::intersection` holds the keys that are in both sets.
#[verifier::external_body]
fn ranges_intersection(a: &Ranges<Vec<u128>>, b: &Ranges<Vec<u128>>) -> (r: Ranges<Vec<u128>>)
    ensures
        range_keys(r) == range_keys(*a).intersect(range_keys(*b)),
{
    a.intersection(b)
}

/// `Ranges::contains` tells whether the set holds a key.
#[verifier::external_body]
fn ranges_contains(a: &Ranges<Vec<u128>>, key: &Vec<u128>) -> (r: bool)
    ensures
        r == range_keys(*a).contains(key@),
{
    a.contains(key)
}

/// Whether a set holds a version.
pub fn contains_version(a: &Ranges<Vec<u128>>, v: &ComposerVersion) -> (r: bool)
    ensures
        r == range_has(*a, v@),
{
    let key = v.order_key();
    proof {
        lemma_key_unique(key@, crate::version::order_key(v@));
    }
    ranges_contains(a, &key)
}

/// The set that holds one version.
pub fn exactly(v: &ComposerVersion) -> (r: Ranges<Vec<u128>>)
    ensures
        range_keys(r) == only_version(v@),
{
    let key = v.order_key();
    proof {
        lemma_key_unique(key@, crate::version::order_key(v@));
    }
    ranges_singleton(key)
}

/// The key of one version.
pub open spec fn only_version(v: crate::version::VersionView) -> Set<Seq<u128>> {
    Set::<Seq<u128>>::empty().insert(as_key(crate::version::order_key(v)))
}

/// The keys that a constraint allows.
pub open spec fn allowed_keys(constraint: Seq<char>) -> Set<Seq<u128>> {
    keys_where(|k: Seq<int>| allows(constraint, k))
}

/// The key with the given integers.
pub open spec fn as_key(k: Seq<int>) -> Seq<u128> {
    k.map_values(|x: int| x as u128)
}

/// A set holds the key of a version.
pub open spec fn range_has(r: Ranges<Vec<u128>>, v: crate::version::VersionView) -> bool {
    range_keys(r).contains(as_key(crate::version::order_key(v)))
}

proof fn lemma_key_unique(k: Seq<u128>, ints: Seq<int>)
    requires
        crate::version::key_ints(k) == ints,
    ensures
        k == as_key(ints),
{
    assert(ints.len() == k.len());
    assert forall|i: int| 0 <= i < k.len() implies k[i] == as_key(ints)[i] by {
        assert(ints[i] == k[i] as int);
    }
    assert(k =~= as_key(ints));
}

// ---------------------------------------------------------------------------
// What a constraint allows, over keys

/// The key of the stable release with the given numbers.
pub open spec fn release_key(b: (nat, nat, nat)) -> Seq<int> {
    seq![1int, b.0 as int, b.1 as int, b.2 as int, 4int, 0int]
}

/// The digits and dots that a text begins with.
pub open spec fn number_run(s: Seq<char>) -> Seq<char>
    decreases s.len(),
{
    if s.len() > 0 && (text::is_digit(s[0]) || s[0] == '.') {
        seq![s[0]] + number_run(s.skip(1))
    } else {
        Seq::empty()
    }
}

/// The first three numbers of a text, zero where one is missing.
pub open spec fn leading_parts(s: Seq<char>) -> (u64, u64, u64) {
    let p = text::pieces(number_run(s), "."@);
    (
        crate::version::or_zero(text::u64_of(p[0])),
        if p.len() > 1 {
            crate::version::or_zero(text::u64_of(p[1]))
        } else {
            0
        },
        if p.len() > 2 {
            crate::version::or_zero(text::u64_of(p[2]))
        } else {
            0
        },
    )
}

/// The text of a clause without white space and stability flag.
pub open spec fn bare_clause(clause: Seq<char>) -> Seq<char> {
    text::trimmed(constraint::without_flag(text::trimmed(clause)))
}

/// The key lies from `low` on below `high`.
pub open spec fn key_between(k: Seq<int>, low: Seq<int>, high: Seq<int>) -> bool {
    !text::seq_lt(k, low) && text::seq_lt(k, high)
}

/// A wildcard allows the key: one or two numbers before the wildcard bound it.
pub open spec fn wildcard_allows(c: Seq<char>, k: Seq<int>) -> bool {
    let p = text::pieces(constraint::wildcard_prefix(c), "."@);
    let maj = crate::version::or_zero(text::u64_of(p[0])) as nat;
    if p.len() == 1 {
        key_between(k, release_key((maj, 0, 0)), release_key((maj + 1, 0, 0)))
    } else if p.len() == 2 {
        let min = crate::version::or_zero(text::u64_of(p[1])) as nat;
        key_between(k, release_key((maj, min, 0)), release_key((maj, min + 1, 0)))
    } else {
        false
    }
}

/// A clause allows the key. A clause whose bound is no version allows none.
pub open spec fn clause_allows(clause: Seq<char>, k: Seq<int>) -> bool {
    let c = bare_clause(clause);
    if constraint::allows_any(c) {
        true
    } else if let Some((low, top)) = constraint::clause_hyphen(c) {
        !text::seq_lt(k, crate::version::order_key(low)) && match top {
            constraint::RangeTop::Upto(high) => !text::seq_lt(
                crate::version::order_key(high),
                k,
            ),
            constraint::RangeTop::Below(b) => text::seq_lt(k, release_key(b)),
        }
    } else if let Some(rest) = text::without_prefix(c, "^"@) {
        constraint::bound_of(rest) matches Some(b) && key_between(
            k,
            crate::version::order_key(b),
            release_key(constraint::caret_top(leading_parts(b.normalized))),
        )
    } else if let Some(rest) = text::without_prefix(c, "~"@) {
        constraint::bound_of(rest) matches Some(b) && key_between(
            k,
            crate::version::order_key(b),
            release_key(constraint::tilde_top(leading_parts(b.normalized), rest)),
        )
    } else if text::ends(c, ".*"@) || text::ends(c, ".x"@) {
        wildcard_allows(c, k)
    } else if let Some(rest) = text::without_prefix(c, "=="@) {
        constraint::bound_of(rest) matches Some(b) && k == crate::version::order_key(b)
    } else if let Some(rest) = text::without_prefix(c, "<>"@) {
        constraint::bound_of(rest) matches Some(b) && k != crate::version::order_key(b)
    } else if let Some(rest) = text::without_prefix(c, ">="@) {
        constraint::bound_of(rest) matches Some(b) && !text::seq_lt(
            k,
            crate::version::order_key(b),
        )
    } else if let Some(rest) = text::without_prefix(c, "<="@) {
        constraint::bound_of(rest) matches Some(b) && !text::seq_lt(
            crate::version::order_key(b),
            k,
        )
    } else if let Some(rest) = text::without_prefix(c, "!="@) {
        constraint::bound_of(rest) matches Some(b) && k != crate::version::order_key(b)
    } else if let Some(rest) = text::without_prefix(c, ">"@) {
        constraint::bound_of(rest) matches Some(b) && text::seq_lt(
            crate::version::order_key(b),
            k,
        )
    } else if let Some(rest) = text::without_prefix(c, "<"@) {
        constraint::bound_of(rest) matches Some(b) && text::seq_lt(
            k,
            crate::version::order_key(b),
        )
    } else if let Some(rest) = text::without_prefix(c, "="@) {
        constraint::bound_of(rest) matches Some(b) && k == crate::version::order_key(b)
    } else {
        constraint::bound_of(c) matches Some(b) && k == crate::version::order_key(b)
    }
}

/// Every clause of a constraint without `|` allows the key.
pub open spec fn clauses_allow(s: Seq<char>, k: Seq<int>) -> bool {
    constraint::allows_any(s) || forall|i: int|
        0 <= i < constraint::clauses_of(s).len() ==> clause_allows(
            #[trigger] constraint::clauses_of(s)[i],
            k,
        )
}

/// One of the alternatives between single `|` allows the key.
pub open spec fn bars_allow(s: Seq<char>, k: Seq<int>) -> bool {
    constraint::allows_any(s) || if s.contains('|') {
        exists|i: int|
            0 <= i < text::pieces(s, "|"@).len() && clauses_allow(
                text::trimmed(#[trigger] text::pieces(s, "|"@)[i]),
                k,
            )
    } else {
        clauses_allow(s, k)
    }
}

/// A constraint allows the key.
pub open spec fn allows(constraint: Seq<char>, k: Seq<int>) -> bool {
    let s = text::trimmed(constraint);
    constraint::allows_any(s) || if text::occurs(s, "||"@) {
        exists|i: int|
            0 <= i < text::pieces(s, "||"@).len() && bars_allow(
                text::trimmed(#[trigger] text::pieces(s, "||"@)[i]),
                k,
            )
    } else {
        bars_allow(s, k)
    }
}

/// The keys that satisfy a predicate on their integers.
pub open spec fn keys_where(f: spec_fn(Seq<int>) -> bool) -> Set<Seq<u128>> {
    Set::new(|k: Seq<u128>| f(crate::version::key_ints(k)))
}

// ---------------------------------------------------------------------------
// Conversion

proof fn lemma_ints_injective(a: Seq<u128>, b: Seq<u128>)
    requires
        crate::version::key_ints(a) == crate::version::key_ints(b),
    ensures
        a == b,
{
    lemma_key_unique(a, crate::version::key_ints(b));
    lemma_key_unique(b, crate::version::key_ints(b));
}

fn release_key_of(maj: u128, min: u128, pat: u128) -> (r: Vec<u128>)
    ensures
        crate::version::key_ints(r@) == release_key((maj as nat, min as nat, pat as nat)),
{
    let mut key: Vec<u128> = Vec::new();
    key.push(1);
    key.push(maj);
    key.push(min);
    key.push(pat);
    key.push(4);
    key.push(0);
    assert(crate::version::key_ints(key@) =~= release_key((maj as nat, min as nat, pat as nat)));
    key
}

/// Whether one key lies below another.
fn key_below(a: &Vec<u128>, b: &Vec<u128>) -> (r: bool)
    ensures
        r == key_lt(a@, b@),
{
    let n: usize = a.len();
    let m: usize = b.len();
    let mut i: usize = 0;
    let ghost x = crate::version::key_ints(a@);
    let ghost y = crate::version::key_ints(b@);
    assert(x.skip(0) =~= x);
    assert(y.skip(0) =~= y);
    while i < n && i < m
        invariant
            i <= n,
            i <= m,
            n == a@.len(),
            m == b@.len(),
            x == crate::version::key_ints(a@),
            y == crate::version::key_ints(b@),
            key_lt(a@, b@) == text::seq_lt(x.skip(i as int), y.skip(i as int)),
        decreases n - i,
    {
        assert(x.skip(i as int)[0] == a@[i as int] as int);
        assert(y.skip(i as int)[0] == b@[i as int] as int);
        if a[i] != b[i] {
            return a[i] < b[i];
        }
        assert(x.skip(i as int).skip(1) =~= x.skip(i + 1));
        assert(y.skip(i as int).skip(1) =~= y.skip(i + 1));
        i += 1;
    }
    i < m
}

/// The keys from `low` on that lie below `high`; none where `low` does not lie
/// below `high`.
fn range_between(low: Vec<u128>, high: Vec<u128>) -> (r: Ranges<Vec<u128>>)
    ensures
        range_keys(r) == keys_where(
            |k: Seq<int>|
                key_between(k, crate::version::key_ints(low@), crate::version::key_ints(high@)),
        ),
{
    let ghost want = keys_where(
        |k: Seq<int>|
            key_between(k, crate::version::key_ints(low@), crate::version::key_ints(high@)),
    );
    if key_below(&low, &high) {
        let r = ranges_between(low, high);
        assert(range_keys(r) =~= want);
        r
    } else {
        let r = ranges_empty();
        proof {
            assert forall|k: Seq<u128>| !want.contains(k) by {
                let ki = crate::version::key_ints(k);
                let li = crate::version::key_ints(low@);
                let hi = crate::version::key_ints(high@);
                if key_between(ki, li, hi) {
                    text::lemma_seq_lt_total(ki, li);
                    if ki != li {
                        text::lemma_seq_lt_transitive(li, ki, hi);
                    }
                }
            }
            assert(range_keys(r) =~= want);
        }
        r
    }
}

/// The digits and dots that a text begins with.
fn take_number_run(s: &str) -> (r: &str)
    ensures
        r@ == number_run(s@),
{
    let n: usize = s.unicode_len();
    let mut i: usize = 0;
    assert(s@.skip(0) =~= s@);
    assert(s@.take(0) + number_run(s@) =~= number_run(s@));
    while i < n && (s.get_char(i) == '.' || ('0' <= s.get_char(i) && s.get_char(i) <= '9'))
        invariant
            i <= n,
            n == s@.len(),
            number_run(s@) == s@.take(i as int) + number_run(s@.skip(i as int)),
        decreases n - i,
    {
        assert(s@.skip(i as int).skip(1) =~= s@.skip(i + 1));
        assert(s@.take(i as int) + (seq![s@[i as int]] + number_run(s@.skip(i + 1))) =~= s@.take(
            i + 1,
        ) + number_run(s@.skip(i + 1)));
        i += 1;
    }
    assert(number_run(s@.skip(i as int)) =~= Seq::<char>::empty());
    assert(number_run(s@) =~= s@.subrange(0, i as int));
    s.substring_char(0, i)
}

/// The first three numbers of a version's text.
fn parts(v: &ComposerVersion) -> (r: (u64, u64, u64))
    ensures
        r == leading_parts(v@.normalized),
{
    proof {
        reveal_strlit(".");
    }
    let segs = text::split(take_number_run(v.normalized()), ".");
    assert(text::views(segs@)[0] == segs@[0]@);
    let maj: u64 = constraint::number_or_zero(segs[0]);
    let min: u64 = if segs.len() > 1 {
        assert(text::views(segs@)[1] == segs@[1]@);
        constraint::number_or_zero(segs[1])
    } else {
        0
    };
    let pat: u64 = if segs.len() > 2 {
        assert(text::views(segs@)[2] == segs@[2]@);
        constraint::number_or_zero(segs[2])
    } else {
        0
    };
    (maj, min, pat)
}

fn caret_range(spec_text: &str) -> (r: Ranges<Vec<u128>>)
    ensures
        range_keys(r) == keys_where(
            |k: Seq<int>|
                constraint::bound_of(spec_text@) matches Some(b) && key_between(
                    k,
                    crate::version::order_key(b),
                    release_key(constraint::caret_top(leading_parts(b.normalized))),
                ),
        ),
{
    let ghost want = keys_where(
        |k: Seq<int>|
            constraint::bound_of(spec_text@) matches Some(b) && key_between(
                k,
                crate::version::order_key(b),
                release_key(constraint::caret_top(leading_parts(b.normalized))),
            ),
    );
    let base = match constraint::parse_ref(spec_text) {
        Some(v) => v,
        None => {
            let r = ranges_empty();
            assert(range_keys(r) =~= want);
            return r;
        },
    };
    let (maj, min, pat) = parts(&base);
    let upper = if maj > 0 {
        release_key_of(maj as u128 + 1, 0, 0)
    } else if min > 0 {
        release_key_of(0, min as u128 + 1, 0)
    } else {
        release_key_of(0, 0, pat as u128 + 1)
    };
    let r = range_between(base.order_key(), upper);
    assert(range_keys(r) =~= want);
    r
}

fn tilde_range(spec_text: &str) -> (r: Ranges<Vec<u128>>)
    ensures
        range_keys(r) == keys_where(
            |k: Seq<int>|
                constraint::bound_of(spec_text@) matches Some(b) && key_between(
                    k,
                    crate::version::order_key(b),
                    release_key(constraint::tilde_top(leading_parts(b.normalized), spec_text@)),
                ),
        ),
{
    let ghost want = keys_where(
        |k: Seq<int>|
            constraint::bound_of(spec_text@) matches Some(b) && key_between(
                k,
                crate::version::order_key(b),
                release_key(constraint::tilde_top(leading_parts(b.normalized), spec_text@)),
            ),
    );
    let base = match constraint::parse_ref(spec_text) {
        Some(v) => v,
        None => {
            let r = ranges_empty();
            assert(range_keys(r) =~= want);
            return r;
        },
    };
    let dots: usize = text::count_char(text::trim_front_char(spec_text, 'v'), '.');
    let (maj, min, _) = parts(&base);
    let upper = if dots >= 2 {
        release_key_of(maj as u128, min as u128 + 1, 0)
    } else {
        release_key_of(maj as u128 + 1, 0, 0)
    };
    let r = range_between(base.order_key(), upper);
    assert(range_keys(r) =~= want);
    r
}

fn wildcard_range(c: &str) -> (r: Ranges<Vec<u128>>)
    ensures
        range_keys(r) == keys_where(|k: Seq<int>| wildcard_allows(c@, k)),
{
    let ghost want = keys_where(|k: Seq<int>| wildcard_allows(c@, k));
    proof {
        reveal_strlit(".");
    }
    let segs = text::split(constraint::wildcard_stem(c), ".");
    assert(text::views(segs@)[0] == segs@[0]@);
    let maj: u128 = constraint::number_or_zero(segs[0]) as u128;
    let r = if segs.len() == 1 {
        range_between(release_key_of(maj, 0, 0), release_key_of(maj + 1, 0, 0))
    } else if segs.len() == 2 {
        assert(text::views(segs@)[1] == segs@[1]@);
        let min: u128 = constraint::number_or_zero(segs[1]) as u128;
        range_between(release_key_of(maj, min, 0), release_key_of(maj, min + 1, 0))
    } else {
        ranges_empty()
    };
    assert(range_keys(r) =~= want);
    r
}

fn hyphen_to_ranges(low: &ComposerVersion, top: &UpperBound) -> (r: Ranges<Vec<u128>>)
    ensures
        range_keys(r) == keys_where(
            |k: Seq<int>|
                !text::seq_lt(k, crate::version::order_key(low@)) && match constraint::top_of(
                    *top,
                ) {
                    constraint::RangeTop::Upto(high) => !text::seq_lt(
                        crate::version::order_key(high),
                        k,
                    ),
                    constraint::RangeTop::Below(b) => text::seq_lt(k, release_key(b)),
                },
        ),
{
    let high = match top {
        UpperBound::Upto(v) => ranges_lower_than(v.order_key()),
        UpperBound::Below(a, b, c) => ranges_strictly_lower_than(release_key_of(*a, *b, *c)),
    };
    let from = ranges_higher_than(low.order_key());
    let r = ranges_intersection(&from, &high);
    assert(range_keys(r) =~= keys_where(
        |k: Seq<int>|
            !text::seq_lt(k, crate::version::order_key(low@)) && match constraint::top_of(*top) {
                constraint::RangeTop::Upto(high) => !text::seq_lt(
                    crate::version::order_key(high),
                    k,
                ),
                constraint::RangeTop::Below(b) => text::seq_lt(k, release_key(b)),
            },
    ));
    r
}

/// How a bound limits a set.
#[derive(Clone, Copy, PartialEq, Eq, Structural)]
enum Bounding {
    Equal,
    NotEqual,
    AtLeast,
    AtMost,
    Above,
    Below,
}

spec fn bounding_allows(how: Bounding, bound: Seq<int>, k: Seq<int>) -> bool {
    match how {
        Bounding::Equal => k == bound,
        Bounding::NotEqual => k != bound,
        Bounding::AtLeast => !text::seq_lt(k, bound),
        Bounding::AtMost => !text::seq_lt(bound, k),
        Bounding::Above => text::seq_lt(bound, k),
        Bounding::Below => text::seq_lt(k, bound),
    }
}

/// The set that a bound makes; empty if it names no version.
fn bound_range(how: Bounding, spec_text: &str) -> (r: Ranges<Vec<u128>>)
    ensures
        range_keys(r) == keys_where(
            |k: Seq<int>|
                constraint::bound_of(spec_text@) matches Some(b) && bounding_allows(
                    how,
                    crate::version::order_key(b),
                    k,
                ),
        ),
{
    let ghost want = keys_where(
        |k: Seq<int>|
            constraint::bound_of(spec_text@) matches Some(b) && bounding_allows(
                how,
                crate::version::order_key(b),
                k,
            ),
    );
    let base = match constraint::parse_ref(spec_text) {
        Some(v) => v,
        None => {
            let r = ranges_empty();
            assert(range_keys(r) =~= want);
            return r;
        },
    };
    let key = base.order_key();
    proof {
        assert forall|k: Seq<u128>| #[trigger]
            crate::version::key_ints(k) == crate::version::key_ints(key@) implies k == key@ by {
            lemma_ints_injective(k, key@);
        }
    }
    let r = match how {
        Bounding::Equal => ranges_singleton(key),
        Bounding::NotEqual => ranges_complement(&ranges_singleton(key)),
        Bounding::AtLeast => ranges_higher_than(key),
        Bounding::AtMost => ranges_lower_than(key),
        Bounding::Above => ranges_strictly_higher_than(key),
        Bounding::Below => ranges_strictly_lower_than(key),
    };
    assert(range_keys(r) =~= want);
    r
}

/// The set that one clause allows.
fn single_to_ranges(clause: &str) -> (r: Ranges<Vec<u128>>)
    ensures
        range_keys(r) == keys_where(|k: Seq<int>| clause_allows(clause@, k)),
{
    let ghost want = keys_where(|k: Seq<int>| clause_allows(clause@, k));
    let c = text::trim(constraint::strip_flag(text::trim(clause)));
    if c.is_empty() || text::same(c, "*") {
        let r = ranges_full();
        assert(range_keys(r) =~= want);
        return r;
    }
    if let Some((from, to)) = text::split_once(c, " - ") {
        if let Some((low, top)) = hyphen_range_bounds(from, to) {
            let r = hyphen_to_ranges(&low, &top);
            assert(range_keys(r) =~= want);
            return r;
        }
    }
    assert(constraint::clause_hyphen(c@) is None);
    let r = if let Some(rest) = text::strip_prefix(c, "^") {
        caret_range(rest)
    } else if let Some(rest) = text::strip_prefix(c, "~") {
        tilde_range(rest)
    } else if text::ends_with(c, ".*") || text::ends_with(c, ".x") {
        wildcard_range(c)
    } else if let Some(rest) = text::strip_prefix(c, "==") {
        bound_range(Bounding::Equal, rest)
    } else if let Some(rest) = text::strip_prefix(c, "<>") {
        bound_range(Bounding::NotEqual, rest)
    } else if let Some(rest) = text::strip_prefix(c, ">=") {
        bound_range(Bounding::AtLeast, rest)
    } else if let Some(rest) = text::strip_prefix(c, "<=") {
        bound_range(Bounding::AtMost, rest)
    } else if let Some(rest) = text::strip_prefix(c, "!=") {
        bound_range(Bounding::NotEqual, rest)
    } else if let Some(rest) = text::strip_prefix(c, ">") {
        bound_range(Bounding::Above, rest)
    } else if let Some(rest) = text::strip_prefix(c, "<") {
        bound_range(Bounding::Below, rest)
    } else if let Some(rest) = text::strip_prefix(c, "=") {
        bound_range(Bounding::Equal, rest)
    } else {
        bound_range(Bounding::Equal, c)
    };
    assert(range_keys(r) =~= want);
    r
}

fn clauses_to_ranges(s: &str) -> (r: Ranges<Vec<u128>>)
    ensures
        range_keys(r) == keys_where(|k: Seq<int>| clauses_allow(s@, k)),
{
    let mut acc = ranges_full();
    if s.is_empty() || text::same(s, "*") {
        assert(range_keys(acc) =~= keys_where(|k: Seq<int>| clauses_allow(s@, k)));
        return acc;
    }
    let clauses = constraint::split_constraint_and_clauses(s);
    let n: usize = clauses.len();
    let mut i: usize = 0;
    while i < n
        invariant
            i <= n,
            n == clauses@.len(),
            text::texts(clauses@) == constraint::clauses_of(s@),
            forall|k: Seq<u128>| #[trigger]
                range_keys(acc).contains(k) == (forall|j: int|
                    0 <= j < i ==> clause_allows(
                        #[trigger] constraint::clauses_of(s@)[j],
                        crate::version::key_ints(k),
                    )),
        decreases n - i,
    {
        let one = single_to_ranges(clauses[i].as_str());
        assert(constraint::clauses_of(s@)[i as int] == clauses@[i as int]@);
        acc = ranges_intersection(&acc, &one);
        i += 1;
    }
    assert(constraint::clauses_of(s@).len() == n);
    assert(range_keys(acc) =~= keys_where(|k: Seq<int>| clauses_allow(s@, k)));
    acc
}

fn bars_to_ranges(s: &str) -> (r: Ranges<Vec<u128>>)
    ensures
        range_keys(r) == keys_where(|k: Seq<int>| bars_allow(s@, k)),
{
    if s.is_empty() || text::same(s, "*") {
        let r = ranges_full();
        assert(range_keys(r) =~= keys_where(|k: Seq<int>| bars_allow(s@, k)));
        return r;
    }
    if !text::contains_char(s, '|') {
        let r = clauses_to_ranges(s);
        assert(range_keys(r) =~= keys_where(|k: Seq<int>| bars_allow(s@, k)));
        return r;
    }
    proof {
        reveal_strlit("|");
    }
    let pieces = text::split(s, "|");
    let n: usize = pieces.len();
    let mut acc = ranges_empty();
    let mut i: usize = 0;
    while i < n
        invariant
            i <= n,
            n == pieces@.len(),
            text::views(pieces@) == text::pieces(s@, "|"@),
            forall|k: Seq<u128>| #[trigger]
                range_keys(acc).contains(k) == (exists|j: int|
                    0 <= j < i && clauses_allow(
                        text::trimmed(#[trigger] text::pieces(s@, "|"@)[j]),
                        crate::version::key_ints(k),
                    )),
        decreases n - i,
    {
        let one = clauses_to_ranges(text::trim(pieces[i]));
        assert(text::pieces(s@, "|"@)[i as int] == pieces@[i as int]@);
        acc = ranges_union(&acc, &one);
        i += 1;
    }
    assert(text::pieces(s@, "|"@).len() == n);
    assert(range_keys(acc) =~= keys_where(|k: Seq<int>| bars_allow(s@, k)));
    acc
}

/// The set of versions that a constraint allows.
pub fn constraint_to_ranges(constraint: &VersionConstraint) -> (r: Ranges<Vec<u128>>)
    ensures
        range_keys(r) == keys_where(|k: Seq<int>| allows(constraint@, k)),
{
    let s = text::trim(constraint.as_str());
    if s.is_empty() || text::same(s, "*") {
        let r = ranges_full();
        assert(range_keys(r) =~= keys_where(|k: Seq<int>| allows(constraint@, k)));
        return r;
    }
    if !text::contains(s, "||") {
        let r = bars_to_ranges(s);
        assert(range_keys(r) =~= keys_where(|k: Seq<int>| allows(constraint@, k)));
        return r;
    }
    proof {
        reveal_strlit("||");
    }
    let pieces = text::split(s, "||");
    let n: usize = pieces.len();
    let mut acc = ranges_empty();
    let mut i: usize = 0;
    while i < n
        invariant
            i <= n,
            n == pieces@.len(),
            text::views(pieces@) == text::pieces(s@, "||"@),
            forall|k: Seq<u128>| #[trigger]
                range_keys(acc).contains(k) == (exists|j: int|
                    0 <= j < i && bars_allow(
                        text::trimmed(#[trigger] text::pieces(s@, "||"@)[j]),
                        crate::version::key_ints(k),
                    )),
        decreases n - i,
    {
        let one = bars_to_ranges(text::trim(pieces[i]));
        assert(text::pieces(s@, "||"@)[i as int] == pieces@[i as int]@);
        acc = ranges_union(&acc, &one);
        i += 1;
    }
    assert(text::pieces(s@, "||"@).len() == n);
    assert(range_keys(acc) =~= keys_where(|k: Seq<int>| allows(constraint@, k)));
    acc
}

/// The versions that a package which conflicts with `constraint` still allows.
pub fn conflict_to_ranges(constraint: &VersionConstraint) -> (r: Ranges<Vec<u128>>)
    ensures
        range_keys(r) == keys_where(|k: Seq<int>| !allows(constraint@, k)),
{
    let r = ranges_complement(&constraint_to_ranges(constraint));
    assert(range_keys(r) =~= keys_where(|k: Seq<int>| !allows(constraint@, k)));
    r
}

/// Whether a version is at least as stable as `min`.
pub fn meets_min_stability(version: &ComposerVersion, min: Stability) -> (r: bool)
    ensures
        r == (crate::version::stability_rank(version@.stability) >= crate::version::stability_rank(
            min,
        )),
{
    version.stability().rank() >= min.rank()
}

// ---------------------------------------------------------------------------
// Laws

/// The key of a release is the key of the version that the release is.
pub proof fn law_release_key(maj: u64, min: u64, pat: u64)
    ensures
        crate::version::order_key(crate::version::release_view(maj, min, pat)) == release_key(
            (maj as nat, min as nat, pat as nat),
        ),
{
    assert(crate::version::order_key(crate::version::release_view(maj, min, pat)) =~= release_key(
        (maj as nat, min as nat, pat as nat),
    ));
}

/// To lie below a release is to have a key below the release's key.
pub proof fn law_release_key_orders(v: crate::version::VersionView, b: (nat, nat, nat))
    ensures
        constraint::below_release(v, b) == text::seq_lt(
            crate::version::order_key(v),
            release_key(b),
        ),
{
    let rank = crate::version::stability_rank(v.stability);
    let tail = crate::version::label_key(v.pre);
    let k = crate::version::order_key(v);
    let r = release_key(b);
    if v.stability is Dev {
        assert(k[0] == 0);
    } else {
        let k4 = seq![rank] + tail;
        let k3 = seq![v.parts.2 as int] + k4;
        let k2 = seq![v.parts.1 as int] + k3;
        let k1 = seq![v.parts.0 as int] + k2;
        assert(k =~= seq![1int] + k1);
        assert(k.skip(1) =~= k1 && k1.skip(1) =~= k2 && k2.skip(1) =~= k3 && k3.skip(1) =~= k4
            && k4.skip(1) =~= tail);
        let r5 = seq![0int];
        let r4 = seq![4int, 0int];
        let r3 = seq![b.2 as int, 4int, 0int];
        let r2 = seq![b.1 as int, b.2 as int, 4int, 0int];
        let r1 = seq![b.0 as int, b.1 as int, b.2 as int, 4int, 0int];
        assert(r.skip(1) =~= r1 && r1.skip(1) =~= r2 && r2.skip(1) =~= r3 && r3.skip(1) =~= r4
            && r4.skip(1) =~= r5 && r5.skip(1) =~= Seq::<int>::empty());
        assert(text::seq_lt(k, r) == text::seq_lt(k1, r1));
        assert(k1[0] == v.parts.0 && k2[0] == v.parts.1 && k3[0] == v.parts.2 && k4[0] == rank);
        if v.parts.0 == b.0 {
            assert(text::seq_lt(k1, r1) == text::seq_lt(k2, r2));
            if v.parts.1 == b.1 {
                assert(text::seq_lt(k2, r2) == text::seq_lt(k3, r3));
                if v.parts.2 == b.2 {
                    assert(text::seq_lt(k3, r3) == text::seq_lt(k4, r4));
                    if rank == 4 {
                        assert(text::seq_lt(k4, r4) == text::seq_lt(tail, r5));
                        match v.pre {
                            None => text::lemma_seq_lt_irreflexive(r5),
                            Some(_) => assert(tail[0] == 1),
                        }
                        assert(!text::seq_lt(tail, r5));
                    }
                }
            }
        }
    }
}

/// A clause that bounds by order.
pub open spec fn is_order_clause(c: Seq<char>) -> bool {
    ||| constraint::clause_hyphen(c) is Some
    ||| (text::starts(c, ">"@) || (text::starts(c, "<"@) && !text::starts(c, "<>"@)))
        && !text::ends(c, ".*"@) && !text::ends(c, ".x"@)
}

/// For a clause that bounds by order (`>=`, `<=`, `>`, `<`, `a - b`) the set of
/// the clause holds exactly the versions that satisfy the clause.
pub proof fn law_order_clauses_agree(c: Seq<char>, v: crate::version::VersionView)
    requires
        is_order_clause(c),
        text::trimmed(c) == c,
        constraint::without_flag(c) == c,
    ensures
        clause_allows(c, crate::version::order_key(v)) == constraint::satisfies_clause(c, v),
{
    reveal_strlit("*");
    reveal_strlit("^");
    reveal_strlit("~");
    reveal_strlit(">");
    reveal_strlit("<");
    reveal_strlit("=");
    reveal_strlit("==");
    reveal_strlit("!=");
    reveal_strlit("<>");
    reveal_strlit(">=");
    reveal_strlit("<=");
    let k = crate::version::order_key(v);
    assert(bare_clause(c) == c);
    assert forall|b: crate::version::VersionView|
        #![trigger crate::version::order_key(b)]
        crate::version::version_lt(v, b) == text::seq_lt(k, crate::version::order_key(b))
            && crate::version::version_lt(b, v) == text::seq_lt(crate::version::order_key(b), k) by {
        crate::version::law_key_orders_versions(v, b);
        crate::version::law_key_orders_versions(b, v);
    }
    if let Some((low, top)) = constraint::clause_hyphen(c) {
        if let constraint::RangeTop::Below(b) = top {
            law_release_key_orders(v, b);
        }
        let _ = crate::version::order_key(low);
    } else {
        assert(c.len() > 0);
        assert(c.take(1)[0] == c[0]);
        assert(c[0] == '>' || c[0] == '<');
        assert(!text::starts(c, "^"@));
        assert(!text::starts(c, "~"@));
        if c.len() > 1 {
            assert(c.take(2)[0] == c[0]);
        }
        assert(!text::starts(c, "=="@) && !text::starts(c, "!="@) && !text::starts(c, "="@));
    }
}

/// The bound of a clause `^a` or `~a`, and the release below which it ends.
pub open spec fn stepped(c: Seq<char>) -> Option<(crate::version::VersionView, (nat, nat, nat))> {
    if let Some(rest) = text::without_prefix(c, "^"@) {
        match constraint::bound_of(rest) {
            Some(b) => Some((b, constraint::caret_top(b.parts))),
            None => None,
        }
    } else if let Some(rest) = text::without_prefix(c, "~"@) {
        match constraint::bound_of(rest) {
            Some(b) => Some((b, constraint::tilde_top(b.parts, rest))),
            None => None,
        }
    } else {
        None
    }
}

/// For a clause `^a` or `~a` the set of the clause holds exactly the versions
/// that satisfy the clause, where the text of `a` begins with its numbers.
pub proof fn law_stepped_clauses_agree(c: Seq<char>, v: crate::version::VersionView)
    requires
        text::starts(c, "^"@) || text::starts(c, "~"@),
        constraint::clause_hyphen(c) is None,
        text::trimmed(c) == c,
        constraint::without_flag(c) == c,
        stepped(c) matches Some((b, _)) ==> leading_parts(b.normalized) == b.parts,
    ensures
        clause_allows(c, crate::version::order_key(v)) == constraint::satisfies_clause(c, v),
        constraint::satisfies_clause(c, v) == (stepped(c) matches Some((low, top))
            && crate::version::version_le(low, v) && constraint::below_release(v, top)),
{
    reveal_strlit("*");
    reveal_strlit("^");
    reveal_strlit("~");
    assert(bare_clause(c) == c);
    assert(c.len() > 0);
    assert(c.take(1)[0] == c[0]);
    assert(c != "*"@);
    if let Some((low, top)) = stepped(c) {
        crate::version::law_key_orders_versions(v, low);
        law_release_key_orders(v, top);
    }
}

/// For a wildcard with one or two numbers the set of the clause holds exactly the
/// stable versions that match it.
pub proof fn law_wildcards_agree(c: Seq<char>, v: crate::version::VersionView)
    requires
        is_wildcard(c),
        v.stability is Stable,
        text::trimmed(c) == c,
        constraint::without_flag(c) == c,
    ensures
        clause_allows(c, crate::version::order_key(v)) == constraint::satisfies_clause(c, v),
{
    reveal_strlit("*");
    reveal_strlit(".*");
    reveal_strlit(".x");
    assert(bare_clause(c) == c);
    assert(c.len() >= 2);
    let p = text::pieces(constraint::wildcard_prefix(c), "."@);
    let maj = crate::version::or_zero(text::u64_of(p[0])) as nat;
    if p.len() == 1 {
        law_release_key_orders(v, (maj, 0, 0));
        law_release_key_orders(v, (maj + 1, 0, 0));
    } else {
        let min = crate::version::or_zero(text::u64_of(p[1])) as nat;
        law_release_key_orders(v, (maj, min, 0));
        law_release_key_orders(v, (maj, min + 1, 0));
    }
}

/// A wildcard with one or two numbers.
pub open spec fn is_wildcard(c: Seq<char>) -> bool {
    &&& constraint::clause_hyphen(c) is None
    &&& !text::starts(c, "^"@) && !text::starts(c, "~"@)
    &&& text::ends(c, ".*"@) || text::ends(c, ".x"@)
    &&& text::pieces(constraint::wildcard_prefix(c), "."@).len() <= 2
}

/// A release: a stable version without a label.
pub open spec fn is_release(v: crate::version::VersionView) -> bool {
    v.stability is Stable && v.pre is None
}

/// A clause that names one release, `=a` or `a`.
pub open spec fn is_exact(c: Seq<char>) -> bool {
    let rest = match text::without_prefix(c, "="@) {
        Some(rest) => rest,
        None => c,
    };
    &&& constraint::clause_hyphen(c) is None
    &&& !text::ends(c, ".*"@) && !text::ends(c, ".x"@)
    &&& !text::starts(c, "^"@) && !text::starts(c, "~"@) && !text::starts(c, "=="@)
    &&& !text::starts(c, ">"@) && !text::starts(c, "<"@) && !text::starts(c, "!="@)
    &&& constraint::bound_of(rest) matches Some(b) && is_release(b)
}

/// For a clause that names one release the set of the clause holds exactly the
/// releases that satisfy it.
pub proof fn law_exact_clauses_agree(c: Seq<char>, v: crate::version::VersionView)
    requires
        is_exact(c),
        is_release(v),
        c.len() > 0,
        c != "*"@,
        text::trimmed(c) == c,
        constraint::without_flag(c) == c,
    ensures
        clause_allows(c, crate::version::order_key(v)) == constraint::satisfies_clause(c, v),
{
    reveal_strlit(">");
    reveal_strlit("<");
    reveal_strlit("<>");
    reveal_strlit(">=");
    reveal_strlit("<=");
    assert(bare_clause(c) == c);
    let rest = match text::without_prefix(c, "="@) {
        Some(rest) => rest,
        None => c,
    };
    if c.len() > 1 {
        assert(c.take(1)[0] == c[0]);
        assert(c.take(2)[0] == c[0]);
        if c[0] == '>' {
            assert(c.take(1) =~= ">"@);
        }
        if c[0] == '<' {
            assert(c.take(1) =~= "<"@);
        }
    }
    assert(!text::starts(c, "<>"@) && !text::starts(c, ">="@) && !text::starts(c, "<="@));
    let b = constraint::bound_of(rest)->0;
    assert(crate::version::order_key(v) =~= release_key(crate::version::wide(v.parts)));
    assert(crate::version::order_key(b) =~= release_key(crate::version::wide(b.parts)));
    let kv = crate::version::order_key(v);
    let kb = crate::version::order_key(b);
    if kv == kb {
        assert(kv[1] == kb[1] && kv[2] == kb[2] && kv[3] == kb[3]);
    }
}

/// A clause whose set and whose meaning agree on a version.
pub open spec fn is_settled(c: Seq<char>, v: crate::version::VersionView) -> bool {
    &&& text::trimmed(c) == c
    &&& constraint::without_flag(c) == c
    &&& {
        ||| constraint::allows_any(c)
        ||| is_order_clause(c)
        ||| (text::starts(c, "^"@) || text::starts(c, "~"@)) && constraint::clause_hyphen(c) is None
            && (stepped(c) matches Some((b, _)) ==> leading_parts(b.normalized) == b.parts)
        ||| is_wildcard(c) && v.stability is Stable
        ||| is_exact(c) && is_release(v)
    }
}

/// Every clause of a constraint without `|` is settled.
pub open spec fn clauses_settled(s: Seq<char>, v: crate::version::VersionView) -> bool {
    forall|i: int|
        0 <= i < constraint::clauses_of(s).len() ==> is_settled(
            #[trigger] constraint::clauses_of(s)[i],
            v,
        )
}

/// Every clause of the alternatives between single `|` is settled.
pub open spec fn bars_settled(s: Seq<char>, v: crate::version::VersionView) -> bool {
    if s.contains('|') {
        forall|i: int|
            0 <= i < text::pieces(s, "|"@).len() ==> clauses_settled(
                text::trimmed(#[trigger] text::pieces(s, "|"@)[i]),
                v,
            )
    } else {
        clauses_settled(s, v)
    }
}

/// Every clause of a constraint is settled.
pub open spec fn all_settled(constraint: Seq<char>, v: crate::version::VersionView) -> bool {
    let s = text::trimmed(constraint);
    if text::occurs(s, "||"@) {
        forall|i: int|
            0 <= i < text::pieces(s, "||"@).len() ==> bars_settled(
                text::trimmed(#[trigger] text::pieces(s, "||"@)[i]),
                v,
            )
    } else {
        bars_settled(s, v)
    }
}

proof fn lemma_settled_agrees(c: Seq<char>, v: crate::version::VersionView)
    requires
        is_settled(c, v),
    ensures
        clause_allows(c, crate::version::order_key(v)) == constraint::satisfies_clause(c, v),
{
    if !constraint::allows_any(c) {
        if is_order_clause(c) {
            law_order_clauses_agree(c, v);
        } else if is_wildcard(c) && v.stability is Stable {
            law_wildcards_agree(c, v);
        } else if is_exact(c) && is_release(v) {
            law_exact_clauses_agree(c, v);
        } else {
            law_stepped_clauses_agree(c, v);
        }
    }
}

proof fn lemma_clauses_agree(s: Seq<char>, v: crate::version::VersionView)
    requires
        clauses_settled(s, v),
    ensures
        clauses_allow(s, crate::version::order_key(v)) == constraint::satisfies_clauses(s, v),
{
    let l = constraint::clauses_of(s);
    let k = crate::version::order_key(v);
    assert forall|i: int| 0 <= i < l.len() implies clause_allows(#[trigger] l[i], k)
        == constraint::satisfies_clause(l[i], v) by {
        lemma_settled_agrees(l[i], v);
    }
}

proof fn lemma_bars_agree(s: Seq<char>, v: crate::version::VersionView)
    requires
        bars_settled(s, v),
    ensures
        bars_allow(s, crate::version::order_key(v)) == constraint::satisfies_bars(s, v),
{
    let k = crate::version::order_key(v);
    if s.contains('|') {
        let p = text::pieces(s, "|"@);
        assert forall|i: int| 0 <= i < p.len() implies clauses_allow(
            text::trimmed(#[trigger] p[i]),
            k,
        ) == constraint::satisfies_clauses(text::trimmed(p[i]), v) by {
            lemma_clauses_agree(text::trimmed(p[i]), v);
        }
    } else {
        lemma_clauses_agree(s, v);
    }
}

proof fn lemma_code_fits(c: char)
    ensures
        0 <= c as int <= u128::MAX,
{
}

/// The integers of a key fit in it.
proof fn lemma_key_fits(v: crate::version::VersionView)
    ensures
        crate::version::key_ints(as_key(crate::version::order_key(v)))
            == crate::version::order_key(v),
{
    let k = crate::version::order_key(v);
    assert forall|i: int| 0 <= i < k.len() implies 0 <= #[trigger] k[i] <= u128::MAX by {
        if v.stability is Dev {
            if i > 0 {
                lemma_code_fits(v.raw[i - 1]);
            }
        } else if i > 5 {
            lemma_code_fits(v.pre->0[i - 6]);
        } else if i == 5 {
            assert(k[i] == crate::version::label_key(v.pre)[0]);
        } else {
            assert(k[0] == 1);
            assert(k[1] == v.parts.0 && k[2] == v.parts.1 && k[3] == v.parts.2);
            assert(k[4] == crate::version::stability_rank(v.stability));
        }
    }
    assert(crate::version::key_ints(as_key(k)) =~= k);
}

/// The set that a constraint is turned into holds exactly the versions that
/// satisfy the constraint, where the constraint is made of bounds by order,
/// `^a` and `~a`, and, for a release, of wildcards and of single releases.
pub proof fn law_constraints_agree(constraint: Seq<char>, v: crate::version::VersionView)
    requires
        all_settled(constraint, v),
    ensures
        allows(constraint, crate::version::order_key(v)) == constraint::satisfies(constraint, v),
        allowed_keys(constraint).contains(as_key(crate::version::order_key(v)))
            == constraint::satisfies(constraint, v),
{
    let k = crate::version::order_key(v);
    let s = text::trimmed(constraint);
    if text::occurs(s, "||"@) {
        let p = text::pieces(s, "||"@);
        assert forall|i: int| 0 <= i < p.len() implies bars_allow(
            text::trimmed(#[trigger] p[i]),
            k,
        ) == constraint::satisfies_bars(text::trimmed(p[i]), v) by {
            lemma_bars_agree(text::trimmed(p[i]), v);
        }
    } else {
        lemma_bars_agree(s, v);
    }
    lemma_key_fits(v);
}

} // verus!
