//! Adding requirements to a project.

use crate::collections;
use crate::manifest;
use crate::manifest::ComposerJson;
use crate::releases;
use crate::text;
use crate::version;
use vstd::prelude::*;

verus! {

/// What is asked of a new requirement.
#[derive(Debug, Clone)]
pub struct RequireArgs {
    pub packages: Vec<String>,
    pub dev: bool,
    pub no_update: bool,
    pub dry_run: bool,
}

/// The name and the constraint that a text tells: `name:constraint`,
/// `name=constraint`, `name constraint`, or a name alone, which any version
/// satisfies.
pub open spec fn spec_of(s: Seq<char>) -> (Seq<char>, Seq<char>) {
    match text::parted(s, ":"@) {
        Some(p) => p,
        None => match text::parted(s, "="@) {
            Some(p) => p,
            None => {
                let w = text::words(s, false);
                if w.len() >= 2 {
                    (w[0], text::joined(w.skip(1), " "@))
                } else {
                    (s, "*"@)
                }
            },
        },
    }
}

/// The name and the constraint that a text tells.
pub fn parse_package_spec(s: &str) -> (r: (String, String))
    ensures
        (r.0@, r.1@) == spec_of(s@),
{
    proof {
        reveal_strlit(":");
        reveal_strlit("=");
    }
    if let Some((n, c)) = text::split_once(s, ":") {
        return (String::from_str(n), String::from_str(c));
    }
    if let Some((n, c)) = text::split_once(s, "=") {
        return (String::from_str(n), String::from_str(c));
    }
    let words = text::split_whitespace(s);
    let ghost w = text::views(words@);
    if words.len() < 2 {
        assert(w.len() == words@.len());
        return (String::from_str(s), String::from_str("*"));
    }
    let mut rest: Vec<&str> = Vec::new();
    let n: usize = words.len();
    let mut i: usize = 1;
    while i < n
        invariant
            1 <= i <= n,
            n == words@.len(),
            rest@.len() == i - 1,
            forall|j: int| 0 <= j < i - 1 ==> (#[trigger] rest@[j])@ == words@[j + 1]@,
        decreases n - i,
    {
        rest.push(words[i]);
        i += 1;
    }
    assert(text::views(rest@) =~= w.skip(1));
    assert(w[0] == words@[0]@);
    (String::from_str(words[0]), text::join_views(&rest, " "))
}

/// The number that a part of a version tells, or zero.
pub open spec fn part_number(parts: Seq<Seq<char>>, i: int) -> u64 {
    if i < parts.len() {
        version::or_zero(text::u64_of(parts[i]))
    } else {
        0
    }
}

/// The first three numbers of a version.
pub open spec fn parts_of(normalized: Seq<char>) -> (u64, u64, u64) {
    let p = text::pieces(normalized, "."@);
    (part_number(p, 0), part_number(p, 1), part_number(p, 2))
}

fn number_at(parts: &Vec<&str>, i: usize) -> (r: u64)
    ensures
        r == part_number(text::views(parts@), i as int),
{
    if i < parts.len() {
        assert(text::views(parts@)[i as int] == parts@[i as int]@);
        match text::parse_u64(parts[i]) {
            Some(n) => n,
            None => 0,
        }
    } else {
        0
    }
}

/// The first three numbers of a version.
pub fn parse_parts(normalized: &str) -> (r: (u64, u64, u64))
    ensures
        r == parts_of(normalized@),
{
    proof {
        reveal_strlit(".");
    }
    let parts = text::split(normalized, ".");
    (number_at(&parts, 0), number_at(&parts, 1), number_at(&parts, 2))
}

/// The constraint that suits a version: its major number, or before the first
/// major version its minor number too.
pub open spec fn caret_of(normalized: Seq<char>) -> Seq<char> {
    let p = parts_of(normalized);
    if p.0 > 0 {
        "^"@ + text::decimal(p.0 as nat) + ".0"@
    } else {
        "^"@ + text::decimal(p.0 as nat) + "."@ + text::decimal(p.1 as nat)
    }
}

/// The constraint that suits a version.
pub fn caret_for(normalized: &str) -> (r: String)
    ensures
        r@ == caret_of(normalized@),
{
    let p: (u64, u64, u64) = parse_parts(normalized);
    let head = text::cat("^", text::u64_text(p.0).as_str());
    if p.0 > 0 {
        text::cat(head.as_str(), ".0")
    } else {
        text::cat3(head.as_str(), ".", text::u64_text(p.1).as_str())
    }
}

/// The constraint of a new requirement: the one that was asked for, or where any
/// version will do the one that suits the best version, if one was found.
pub fn chosen_constraint(asked: &str, best: Option<&str>) -> (r: String)
    ensures
        r@ == if asked@ != "*"@ {
            asked@
        } else {
            match text::opt_view(best) {
                Some(v) => caret_of(v),
                None => "*"@,
            }
        },
{
    if !text::same(asked, "*") {
        return String::from_str(asked);
    }
    match best {
        Some(v) => caret_for(v),
        None => String::from_str("*"),
    }
}

/// A project with one more requirement. It stands either among those of
/// development or among the others.
pub open spec fn with_requirement(
    m: manifest::ManifestView,
    name: Seq<char>,
    constraint: Seq<char>,
    dev: bool,
) -> manifest::ManifestView {
    if dev {
        manifest::ManifestView {
            require: collections::removed(m.require, name),
            require_dev: collections::inserted(m.require_dev, name, constraint),
            ..m
        }
    } else {
        manifest::ManifestView {
            require: collections::inserted(m.require, name, constraint),
            require_dev: collections::removed(m.require_dev, name),
            ..m
        }
    }
}

/// Adds a requirement to a project.
pub fn add_requirement(manifest: &mut ComposerJson, name: &str, constraint: &str, dev: bool)
    ensures
        final(manifest)@ == with_requirement(old(manifest)@, name@, constraint@, dev),
{
    let value = String::from_str(constraint);
    proof {
        collections::lemma_with_values(manifest.require@, name@, value, |s: String| s@);
        collections::lemma_with_values(manifest.require_dev@, name@, value, |s: String| s@);
    }
    if dev {
        manifest.require_dev.insert(String::from_str(name), value);
        manifest.require.remove(name);
    } else {
        manifest.require.insert(String::from_str(name), value);
        manifest.require_dev.remove(name);
    }
}

/// A requirement that was added is there with its constraint, and only once.
pub proof fn law_added_is_required(
    m: manifest::ManifestView,
    name: Seq<char>,
    constraint: Seq<char>,
    dev: bool,
)
    ensures
        ({
            let n = with_requirement(m, name, constraint, dev);
            let (own, other) = if dev {
                (n.require_dev, n.require)
            } else {
                (n.require, n.require_dev)
            };
            collections::lookup(own, name) == Some(constraint) && collections::lookup(other, name)
                is None
        }),
{
    collections::law_lookup_inserted(m.require, name, constraint, name);
    collections::law_lookup_inserted(m.require_dev, name, constraint, name);
    collections::law_lookup_removed(m.require, name, name);
    collections::law_lookup_removed(m.require_dev, name, name);
}

/// To require a package leaves all other requirements as they are.
pub proof fn law_other_requirements_stay(
    m: manifest::ManifestView,
    name: Seq<char>,
    constraint: Seq<char>,
    dev: bool,
    q: Seq<char>,
)
    requires
        q != name,
    ensures
        collections::lookup(with_requirement(m, name, constraint, dev).require, q)
            == collections::lookup(m.require, q),
        collections::lookup(with_requirement(m, name, constraint, dev).require_dev, q)
            == collections::lookup(m.require_dev, q),
{
    collections::law_lookup_inserted(m.require, name, constraint, q);
    collections::law_lookup_inserted(m.require_dev, name, constraint, q);
    collections::law_lookup_removed(m.require, name, q);
    collections::law_lookup_removed(m.require_dev, name, q);
}

/// A package is asked for as `name:constraint`, `name=constraint` or
/// `name constraint`, or by its name alone in any version.
pub proof fn law_how_packages_are_asked_for(name: Seq<char>, constraint: Seq<char>)
    requires
        name.len() > 0,
        !name.contains(':'),
        !name.contains('='),
        text::is_word(name, false),
    ensures
        spec_of(name + ":"@ + constraint) == (name, constraint),
        !constraint.contains(':') ==> spec_of(name + "="@ + constraint) == (name, constraint),
        constraint.len() > 0 && !constraint.contains(':') && !constraint.contains('=')
            && text::is_word(constraint, false) ==> spec_of(name + " "@ + constraint) == (
            name,
            constraint,
        ),
        spec_of(name) == (name, "*"@),
{
    reveal_strlit(":");
    reveal_strlit("=");
    reveal_strlit(" ");
    text::lemma_piece_before(name, ":"@, constraint);
    text::lemma_piece_before(name, "="@, constraint);
    text::lemma_not_found(name, ":"@);
    text::lemma_not_found(name, "="@);
    text::lemma_one_word(name, false);
    if !constraint.contains(':') {
        let s = name + "="@ + constraint;
        lemma_holds_not(name, '=', constraint, ':');
        assert("="@ =~= seq!['=']);
        text::lemma_not_found(s, ":"@);
        if constraint.len() > 0 && !constraint.contains('=') && text::is_word(constraint, false) {
            let t = name + " "@ + constraint;
            assert(" "@ =~= seq![' ']);
            lemma_holds_not(name, ' ', constraint, ':');
            lemma_holds_not(name, ' ', constraint, '=');
            text::lemma_not_found(t, ":"@);
            text::lemma_not_found(t, "="@);
            text::lemma_two_words(name, constraint, false);
            assert(seq![name, constraint].skip(1) =~= seq![constraint]);
            assert(text::joined(seq![constraint], " "@) == constraint);
        }
    }
}

proof fn lemma_holds_not(a: Seq<char>, c: char, b: Seq<char>, x: char)
    requires
        !a.contains(x),
        !b.contains(x),
        c != x,
    ensures
        !(a + seq![c] + b).contains(x),
{
    let s = a + seq![c] + b;
    assert forall|i: int| 0 <= i < s.len() implies s[i] != x by {
        if i < a.len() {
            assert(s[i] == a[i]);
        } else if i > a.len() {
            assert(s[i] == b[i - a.len() - 1]);
        }
    }
}

/// The constraint that is written for a release allows the release, and no
/// release that may break something. Below `0.1.0` this holds of `0.0.0` only.
pub proof fn law_written_constraint_fits(a: u64, b: u64, c: u64)
    requires
        a > 0 || b > 0 || c == 0,
        a < u64::MAX,
    ensures
        ({
            let ver = text::decimal(a as nat) + "."@ + text::decimal(b as nat) + "."@
                + text::decimal(c as nat);
            &&& caret_of(ver) == if a > 0 {
                "^"@ + text::decimal(a as nat) + ".0"@
            } else {
                "^0."@ + text::decimal(b as nat)
            }
            &&& crate::constraint::satisfies(caret_of(ver), version::release_view(a, b, c))
            &&& !crate::constraint::satisfies(
                caret_of(ver),
                version::release_view((a + 1) as u64, 0, 0),
            )
        }),
{
    let zero = text::decimal(0);
    assert(zero =~= seq!['0']) by {
        assert(text::digit_of(0) == '0');
    }
    lemma_caret_text(a, b, c);
    releases::lemma_number_parts(a, b, c);
    releases::lemma_number_parts(a, 0, 0);
    releases::lemma_release_text(0, 0, 0);
    let rest = zero + "."@ + zero + "."@ + zero;
    if a > 0 {
        releases::law_numbers_are_read(a, 0, 0, rest);
        lemma_fits(text::decimal(a as nat) + "."@ + zero, a, b, c);
    } else {
        releases::law_numbers_are_read(a, b, c, rest);
        lemma_fits(zero + "."@ + text::decimal(b as nat), a, b, c);
    }
}

proof fn lemma_caret_text(a: u64, b: u64, c: u64)
    ensures
        ({
            let ver = text::decimal(a as nat) + "."@ + text::decimal(b as nat) + "."@
                + text::decimal(c as nat);
            let num = if a > 0 {
                text::decimal(a as nat) + "."@ + text::decimal(0)
            } else {
                text::decimal(0) + "."@ + text::decimal(b as nat)
            };
            &&& caret_of(ver) == "^"@ + num
            &&& a > 0 ==> "^"@ + num == "^"@ + text::decimal(a as nat) + ".0"@
            &&& a == 0 ==> "^"@ + num == "^0."@ + text::decimal(b as nat)
        }),
{
    reveal_strlit("^");
    reveal_strlit("^0.");
    reveal_strlit(".0");
    reveal_strlit(".");
    let x = text::decimal(a as nat);
    let y = text::decimal(b as nat);
    let zero = text::decimal(0);
    assert(zero =~= seq!['0']) by {
        assert(text::digit_of(0) == '0');
    }
    releases::lemma_number_parts(a, b, c);
    if a > 0 {
        assert("^"@ + x + ".0"@ =~= "^"@ + (x + "."@ + zero));
    } else {
        assert("^"@ + x + "."@ + y =~= "^"@ + (zero + "."@ + y));
        assert("^0."@ + y =~= "^"@ + (zero + "."@ + y));
    }
}

proof fn lemma_fits(num: Seq<char>, a: u64, b: u64, c: u64)
    requires
        a < u64::MAX,
        releases::is_numeric(num),
        version::parsed(num) matches Some(r) && r.parts == (if a > 0 {
            (a, 0u64, 0u64)
        } else {
            (0u64, b, 0u64)
        }),
        a > 0 || b > 0 || c == 0,
    ensures
        crate::constraint::satisfies("^"@ + num, version::release_view(a, b, c)),
        !crate::constraint::satisfies("^"@ + num, version::release_view((a + 1) as u64, 0, 0)),
{
    let r = version::parsed(num)->0;
    releases::law_caret(num, r, version::release_view(a, b, c));
    releases::law_caret(num, r, version::release_view((a + 1) as u64, 0, 0));
}

} // verus!
