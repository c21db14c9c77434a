//! Classes and the files that define them.

use crate::collections;
use crate::collections::StrMap;
use crate::paths;
use crate::text;
use vstd::prelude::*;

verus! {

// ---------------------------------------------------------------------------
// Types in PHP code

/// What the first group of the first match of a pattern captures.
pub uninterp spec fn regex_first(pattern: Seq<char>, text: Seq<char>) -> Option<Seq<char>>;

/// What the first group of each match of a pattern captures.
pub uninterp spec fn regex_all(pattern: Seq<char>, text: Seq<char>) -> Seq<Seq<char>>;

/// `regex::Regex::captures`: the text of the first group of the first match of
/// `pattern`; none without a match, or if `pattern` is no regular expression.
#[verifier::external_body]
fn first_capture(pattern: &str, text: &str) -> (r: Option<String>)
    ensures
        crate::text::opt_text(r) == regex_first(pattern@, text@),
{
    let re = regex::Regex::new(pattern).ok()?;
    let found = re.captures(text)?;
    found.get(1).map(|m| m.as_str().to_string())
}

/// `regex::Regex::captures_iter`: the texts of the first group of all matches
/// of `pattern`, from the first on; none if `pattern` is no regular expression.
#[verifier::external_body]
fn all_captures(pattern: &str, text: &str) -> (r: Vec<String>)
    ensures
        crate::text::texts(r@) == regex_all(pattern@, text@),
{
    match regex::Regex::new(pattern) {
        Ok(re) => re.captures_iter(text).map(
            |c| c.get(1).map_or(String::new(), |m| m.as_str().to_string()),
        ).collect(),
        Err(_) => Vec::new(),
    }
}

/// The pattern of a namespace.
pub open spec fn namespace_pattern() -> Seq<char> {
    "(?m)^\\s*namespace\\s+([^;{]+)"@
}

/// The pattern of a type: a class, interface, trait or enum, with `abstract`,
/// `final` and `readonly` before it in any order.
pub open spec fn type_pattern() -> Seq<char> {
    "(?m)^\\s*(?:(?:abstract|final|readonly)\\s+)*(?:class|interface|trait|enum)\\s+(\\w+)"@
}

/// A name in a namespace.
pub open spec fn qualified(ns: Seq<char>, name: Seq<char>) -> Seq<char> {
    if ns.len() == 0 {
        name
    } else {
        ns + "\\"@ + name
    }
}

/// The namespace that was found, without white space around it.
pub open spec fn found_namespace(ns: Option<Seq<char>>) -> Seq<char> {
    match ns {
        Some(s) => text::trimmed(s),
        None => Seq::empty(),
    }
}

/// The types that PHP code declares.
pub open spec fn types_in(php: Seq<char>) -> Seq<Seq<char>> {
    regex_all(type_pattern(), php).map_values(
        |name: Seq<char>|
            qualified(found_namespace(regex_first(namespace_pattern(), php)), name),
    )
}

/// The full names of types in the namespace that was found.
pub fn qualified_names(ns: &Option<String>, names: &Vec<String>) -> (r: Vec<String>)
    ensures
        text::texts(r@) == text::texts(names@).map_values(
            |name: Seq<char>| qualified(found_namespace(text::opt_text(*ns)), name),
        ),
{
    let space = match ns {
        Some(s) => text::trim(s.as_str()),
        None => "",
    };
    proof {
        reveal_strlit("");
        assert(space@ =~= found_namespace(text::opt_text(*ns)));
    }
    let mut out: Vec<String> = Vec::new();
    let n: usize = names.len();
    let mut i: usize = 0;
    while i < n
        invariant
            i <= n,
            n == names@.len(),
            out@.len() == i,
            forall|j: int| 0 <= j < i ==> (#[trigger] out@[j])@ == qualified(space@, names@[j]@),
        decreases n - i,
    {
        if space.unicode_len() == 0 {
            out.push(names[i].clone());
        } else {
            out.push(text::cat3(space, "\\", names[i].as_str()));
        }
        i += 1;
    }
    assert(text::texts(out@) =~= text::texts(names@).map_values(
        |name: Seq<char>| qualified(found_namespace(text::opt_text(*ns)), name),
    ));
    out
}

/// The types that PHP code declares.
pub fn extract_types(php: &str) -> (r: Vec<String>)
    ensures
        text::texts(r@) == types_in(php@),
{
    let ns = first_capture("(?m)^\\s*namespace\\s+([^;{]+)", php);
    let names = all_captures(
        "(?m)^\\s*(?:(?:abstract|final|readonly)\\s+)*(?:class|interface|trait|enum)\\s+(\\w+)",
        php,
    );
    qualified_names(&ns, &names)
}

// ---------------------------------------------------------------------------
// The class map

/// A class map after the classes of a file were entered.
pub open spec fn with_classes(
    m: Seq<(Seq<char>, Seq<char>)>,
    classes: Seq<Seq<char>>,
    file: Seq<char>,
) -> Seq<(Seq<char>, Seq<char>)>
    decreases classes.len(),
{
    if classes.len() == 0 {
        m
    } else {
        collections::inserted(with_classes(m, classes.drop_last(), file), classes.last(), file)
    }
}

/// Enters classes of a file into a class map.
pub fn insert_classes(classmap: &mut StrMap<String>, classes: &Vec<String>, file: &str)
    ensures
        collections::link_pairs(*final(classmap)) == with_classes(
            collections::link_pairs(*old(classmap)),
            text::texts(classes@),
            file@,
        ),
{
    let ghost start = collections::link_pairs(*classmap);
    let ghost all = text::texts(classes@);
    let n: usize = classes.len();
    let mut i: usize = 0;
    while i < n
        invariant
            i <= n,
            n == classes@.len(),
            all == text::texts(classes@),
            collections::link_pairs(*classmap) == with_classes(start, all.take(i as int), file@),
        decreases n - i,
    {
        let value = String::from_str(file);
        proof {
            assert(all.take(i + 1).drop_last() =~= all.take(i as int));
            assert(all.take(i + 1).last() == classes@[i as int]@);
            collections::lemma_with_values(
                classmap@,
                classes@[i as int]@,
                value,
                |s: String| s@,
            );
        }
        classmap.insert(classes[i].clone(), value);
        i += 1;
    }
    assert(all.take(n as int) =~= all);
}

/// Enters the types that the code of a PHP file declares into a class map.
pub fn index_php_file(classmap: &mut StrMap<String>, content: &str, file: &str)
    ensures
        collections::link_pairs(*final(classmap)) == with_classes(
            collections::link_pairs(*old(classmap)),
            types_in(content@),
            file@,
        ),
{
    let classes = extract_types(content);
    insert_classes(classmap, &classes, file);
}

/// Enters the class that tells what is installed, which every project has.
pub fn add_runtime_class(classmap: &mut StrMap<String>)
    ensures
        collections::link_pairs(*final(classmap)) == collections::inserted(
            collections::link_pairs(*old(classmap)),
            "Composer\\InstalledVersions"@,
            "../composer/InstalledVersions.php"@,
        ),
{
    let value = String::from_str("../composer/InstalledVersions.php");
    proof {
        collections::lemma_with_values(
            classmap@,
            "Composer\\InstalledVersions"@,
            value,
            |s: String| s@,
        );
    }
    classmap.insert(String::from_str("Composer\\InstalledVersions"), value);
}

/// A file with PHP code, by its name.
pub open spec fn has_php_name(path: Seq<char>) -> bool {
    let f = paths::after_last_slash(path);
    text::ends(f, ".php"@) && f.len() > 4
}

/// Whether a file holds PHP code, by its name.
pub fn is_php_file(path: &str) -> (r: bool)
    ensures
        r == has_php_name(path@),
{
    let f = paths::last_part(path);
    text::ends_with(f, ".php") && f.unicode_len() > 4
}

/// A part of a class name that a part of a path stands for.
pub open spec fn class_part(part: Seq<char>) -> Seq<char> {
    text::without_back(part, ".php"@)
}

/// The class name that the parts of a path below a namespace stand for.
pub open spec fn class_of_path(ns: Seq<char>, parts: Seq<Seq<char>>) -> Seq<char>
    decreases parts.len(),
{
    if parts.len() == 0 {
        text::without_back(ns, "\\"@)
    } else {
        let rest = class_of_path(ns, parts.drop_last());
        if rest.len() == 0 {
            class_part(parts.last())
        } else {
            rest + "\\"@ + class_part(parts.last())
        }
    }
}

/// The class name that the parts of a path below a namespace stand for.
pub fn class_for_path(ns: &str, parts: &Vec<String>) -> (r: String)
    ensures
        r@ == class_of_path(ns@, text::texts(parts@)),
{
    proof {
        reveal_strlit("\\");
        reveal_strlit(".php");
    }
    let ghost all = text::texts(parts@);
    let mut out = String::from_str(text::trim_back(ns, "\\"));
    let n: usize = parts.len();
    let mut i: usize = 0;
    while i < n
        invariant
            i <= n,
            n == parts@.len(),
            ".php"@.len() > 0,
            all == text::texts(parts@),
            out@ == class_of_path(ns@, all.take(i as int)),
        decreases n - i,
    {
        proof {
            assert(all.take(i + 1).drop_last() =~= all.take(i as int));
            assert(all.take(i + 1).last() == parts@[i as int]@);
        }
        let name = text::trim_back(parts[i].as_str(), ".php");
        if out.as_str().unicode_len() > 0 {
            out = text::cat3(out.as_str(), "\\", name);
        } else {
            out = String::from_str(name);
        }
        i += 1;
    }
    assert(all.take(n as int) =~= all);
    out
}

// ---------------------------------------------------------------------------
// Relative paths

/// The number of leading parts that two paths have in common.
pub open spec fn common_parts(a: Seq<Seq<char>>, b: Seq<Seq<char>>) -> nat
    decreases a.len(),
{
    if a.len() == 0 || b.len() == 0 || a[0] != b[0] {
        0
    } else {
        1 + common_parts(a.skip(1), b.skip(1))
    }
}

/// A path that leads up the given number of times.
pub open spec fn way_up(n: nat) -> Seq<char>
    decreases n,
{
    if n == 0 {
        Seq::empty()
    } else {
        paths::joined_path(way_up((n - 1) as nat), ".."@)
    }
}

/// A path with parts put behind it.
pub open spec fn with_parts(base: Seq<char>, parts: Seq<Seq<char>>) -> Seq<char>
    decreases parts.len(),
{
    if parts.len() == 0 {
        base
    } else {
        paths::joined_path(with_parts(base, parts.drop_last()), parts.last())
    }
}

/// The way from one directory to a path, with slashes between its parts.
pub open spec fn way_between(from: Seq<Seq<char>>, to: Seq<Seq<char>>) -> Seq<char> {
    let n = common_parts(from, to);
    text::swapped(
        with_parts(way_up((from.len() - n) as nat), to.skip(n as int)),
        '\\',
        '/',
    )
}

/// The way from one directory to a path, both given by their parts.
pub fn relative_path(from: &Vec<String>, to: &Vec<String>) -> (r: String)
    ensures
        r@ == way_between(text::texts(from@), text::texts(to@)),
{
    let ghost a = text::texts(from@);
    let ghost b = text::texts(to@);
    let n: usize = from.len();
    let m: usize = to.len();
    let mut i: usize = 0;
    assert(a.skip(0) =~= a);
    assert(b.skip(0) =~= b);
    while i < n && i < m && text::same(from[i].as_str(), to[i].as_str())
        invariant
            i <= n,
            i <= m,
            n == from@.len(),
            m == to@.len(),
            a == text::texts(from@),
            b == text::texts(to@),
            common_parts(a, b) == i + common_parts(a.skip(i as int), b.skip(i as int)),
        decreases n - i,
    {
        proof {
            assert(a.skip(i as int)[0] == from@[i as int]@);
            assert(b.skip(i as int)[0] == to@[i as int]@);
            assert(a.skip(i as int).skip(1) =~= a.skip(i + 1));
            assert(b.skip(i as int).skip(1) =~= b.skip(i + 1));
        }
        i += 1;
    }
    proof {
        if i < n && i < m {
            assert(a.skip(i as int)[0] == from@[i as int]@);
            assert(b.skip(i as int)[0] == to@[i as int]@);
        }
        assert(common_parts(a, b) == i);
    }
    let mut out = String::new();
    let up: usize = n - i;
    let mut k: usize = 0;
    assert(out@ =~= way_up(0));
    while k < up
        invariant
            k <= up,
            out@ == way_up(k as nat),
        decreases up - k,
    {
        out = paths::join_path(out.as_str(), "..");
        k += 1;
    }
    let ghost rest = b.skip(i as int);
    let ghost base = out@;
    let mut j: usize = i;
    assert(rest.take(0) =~= Seq::empty());
    while j < m
        invariant
            i <= j <= m,
            m == to@.len(),
            b == text::texts(to@),
            rest == b.skip(i as int),
            out@ == with_parts(base, rest.take(j - i)),
        decreases m - j,
    {
        proof {
            assert(rest.take(j + 1 - i).drop_last() =~= rest.take(j - i));
            assert(rest.take(j + 1 - i).last() == to@[j as int]@);
        }
        out = paths::join_path(out.as_str(), to[j].as_str());
        j += 1;
    }
    assert(rest.take(m - i) =~= rest);
    text::replace_char(out.as_str(), '\\', '/')
}

// ---------------------------------------------------------------------------
// Laws

/// Every class of a file is found in that file afterwards; other classes stay
/// where they were.
pub proof fn law_classes_are_found(
    m: Seq<(Seq<char>, Seq<char>)>,
    classes: Seq<Seq<char>>,
    file: Seq<char>,
    c: Seq<char>,
)
    ensures
        collections::lookup(with_classes(m, classes, file), c) == (if classes.contains(c) {
            Some(file)
        } else {
            collections::lookup(m, c)
        }),
    decreases classes.len(),
{
    if classes.len() > 0 {
        let front = classes.drop_last();
        law_classes_are_found(m, front, file, c);
        collections::law_lookup_inserted(with_classes(m, front, file), classes.last(), file, c);
        assert(classes[classes.len() - 1] == classes.last());
        if front.contains(c) {
            let k = choose|k: int| 0 <= k < front.len() && front[k] == c;
            assert(classes[k] == c);
        }
        if classes.contains(c) {
            let k = choose|k: int| 0 <= k < classes.len() && classes[k] == c;
            if k < front.len() {
                assert(front[k] == c);
            }
        }
    }
}

/// A class has the name of its namespace in front of it, if it has one.
pub proof fn law_names_of_classes(ns: Seq<char>, name: Seq<char>)
    requires
        ns.len() > 0 && !text::is_space(ns[0]) && !text::is_space(ns.last()),
    ensures
        qualified(found_namespace(Some(ns)), name) == ns + seq!['\\'] + name,
        qualified(found_namespace(None), name) == name,
{
    reveal_strlit("\\");
    assert("\\"@ =~= seq!['\\']);
    text::lemma_trimmed_same(ns);
}

/// The common part of two ways is as long as it can be.
pub proof fn law_common_parts(a: Seq<Seq<char>>, b: Seq<Seq<char>>)
    ensures
        ({
            let n = common_parts(a, b);
            &&& n <= a.len() && n <= b.len()
            &&& forall|i: int| 0 <= i < n ==> a[i] == #[trigger] b[i]
            &&& n < a.len() && n < b.len() ==> a[n as int] != b[n as int]
        }),
    decreases a.len(),
{
    if a.len() > 0 && b.len() > 0 && a[0] == b[0] {
        law_common_parts(a.skip(1), b.skip(1));
        let n = common_parts(a, b);
        assert forall|i: int| 0 <= i < n implies a[i] == #[trigger] b[i] by {
            if i > 0 {
                assert(a.skip(1)[i - 1] == a[i] && b.skip(1)[i - 1] == b[i]);
            }
        }
        if n < a.len() && n < b.len() {
            assert(a.skip(1)[n - 1] == a[n as int] && b.skip(1)[n - 1] == b[n as int]);
        }
    }
}

/// A file of PHP has a name in front of its ending.
pub proof fn law_files_of_php(x: Seq<char>)
    requires
        !x.contains('/'),
    ensures
        has_php_name(x + ".php"@) <==> x.len() > 0,
{
    reveal_strlit("/");
    reveal_strlit(".php");
    let s = x + ".php"@;
    if s.contains('/') {
        let i = choose|i: int| 0 <= i < s.len() && s[i] == '/';
        if i < x.len() {
            assert(x[i] == '/');
        } else {
            assert(".php"@[i - x.len()] == '/');
        }
    }
    text::lemma_not_found(s, "/"@);
    assert(text::pieces(s, "/"@).last() == s);
    assert(s.skip(s.len() - 4) =~= ".php"@);
}

} // verus!
