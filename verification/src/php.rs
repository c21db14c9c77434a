//! PHP code of the autoloader.

use crate::autoload;
use crate::autoload::AutoloadMaps;
use crate::collections;
use crate::collections::StrMap;
use crate::index;
use crate::text;
use vstd::prelude::*;

verus! {

// ---------------------------------------------------------------------------
// Texts and paths

/// A text as it stands between single quotes.
pub open spec fn escaped(s: Seq<char>) -> Seq<char> {
    text::replaced(text::replaced(s, "\\"@, "\\\\"@), "'"@, "\\'"@)
}

/// A text as it stands between single quotes.
pub fn escape_php(s: &str) -> (r: String)
    ensures
        r@ == escaped(s@),
{
    proof {
        reveal_strlit("\\");
        reveal_strlit("'");
    }
    let once = text::replace(s, "\\", "\\\\");
    text::replace(once.as_str(), "'", "\\'")
}

/// A text in single quotes.
pub open spec fn quoted(s: Seq<char>) -> Seq<char> {
    "'"@ + escaped(s) + "'"@
}

fn quote(s: &str) -> (r: String)
    ensures
        r@ == quoted(s@),
{
    text::cat3("'", escape_php(s).as_str(), "'")
}

/// A text in single quotes, or `null`.
pub open spec fn optional_text(s: Option<Seq<char>>) -> Seq<char> {
    match s {
        Some(t) => quoted(t),
        None => "null"@,
    }
}

/// A text in single quotes, or `null`.
pub fn php_optional_string(value: Option<&str>) -> (r: String)
    ensures
        r@ == optional_text(text::opt_view(value)),
{
    match value {
        Some(s) => quote(s),
        None => String::from_str("null"),
    }
}

/// The expression of a path relative to `vendor/composer`.
pub open spec fn path_code(rel: Seq<char>) -> Seq<char> {
    match text::without_prefix(rel, "../../"@) {
        Some(t) => "$baseDir . '/"@ + escaped(t) + "'"@,
        None => match text::without_prefix(rel, "../"@) {
            Some(t) => "$vendorDir . '/"@ + escaped(t) + "'"@,
            None => "$vendorDir . '/"@ + escaped(rel) + "'"@,
        },
    }
}

/// The expression of a path relative to `vendor/composer`.
pub fn render_autoload_path(rel: &str) -> (r: String)
    ensures
        r@ == path_code(rel@),
{
    match text::strip_prefix(rel, "../../") {
        Some(t) => text::cat3("$baseDir . '/", escape_php(t).as_str(), "'"),
        None => match text::strip_prefix(rel, "../") {
            Some(t) => text::cat3("$vendorDir . '/", escape_php(t).as_str(), "'"),
            None => text::cat3("$vendorDir . '/", escape_php(rel).as_str(), "'"),
        },
    }
}

/// The expressions of paths.
pub open spec fn path_codes(v: Seq<Seq<char>>) -> Seq<Seq<char>> {
    v.map_values(|p: Seq<char>| path_code(p))
}

fn render_paths(v: &Vec<String>) -> (r: Vec<String>)
    ensures
        text::texts(r@) == path_codes(text::texts(v@)),
{
    let mut out: Vec<String> = Vec::new();
    let n: usize = v.len();
    let mut i: usize = 0;
    while i < n
        invariant
            i <= n,
            n == v@.len(),
            out@.len() == i,
            forall|j: int| 0 <= j < i ==> (#[trigger] out@[j])@ == path_code(v@[j]@),
        decreases n - i,
    {
        out.push(render_autoload_path(v[i].as_str()));
        i += 1;
    }
    assert(text::texts(out@) =~= path_codes(text::texts(v@)));
    out
}

// ---------------------------------------------------------------------------
// Maps of namespaces

/// The line of a namespace: one path stands alone, several in an array.
pub open spec fn namespace_line(ns: Seq<char>, paths: Seq<Seq<char>>) -> Seq<char> {
    "    "@ + quoted(ns) + " => "@ + if paths.len() == 1 {
        path_code(paths[0])
    } else {
        "array("@ + text::joined(path_codes(paths), ", "@) + ")"@
    } + ",\n"@
}

/// The lines of namespaces.
pub open spec fn namespace_lines(m: autoload::PathLists) -> Seq<char>
    decreases m.len(),
{
    if m.len() == 0 {
        Seq::empty()
    } else {
        namespace_lines(m.drop_last()) + namespace_line(m.last().0, m.last().1)
    }
}

/// The array of namespaces.
pub open spec fn namespace_array(m: autoload::PathLists) -> Seq<char> {
    "array(\n"@ + namespace_lines(m) + ")"@
}

/// The array of namespaces.
pub fn php_array_strings(map: &StrMap<Vec<String>>) -> (r: String)
    ensures
        r@ == namespace_array(autoload::path_lists(*map)),
{
    let ghost all = autoload::path_lists(*map);
    let mut out = String::from_str("array(\n");
    let n: usize = map.entries.len();
    let mut i: usize = 0;
    assert("array(\n"@ + namespace_lines(all.take(0)) =~= "array(\n"@);
    while i < n
        invariant
            i <= n,
            n == map.entries@.len(),
            all == autoload::path_lists(*map),
            out@ == "array(\n"@ + namespace_lines(all.take(i as int)),
        decreases n - i,
    {
        let ns = map.entries[i].0.as_str();
        let paths = &map.entries[i].1;
        let ghost before = out@;
        proof {
            assert(all.take(i + 1).drop_last() =~= all.take(i as int));
            assert(all.take(i + 1).last() == (ns@, text::texts(paths@)));
        }
        out.append("    ");
        out.append(quote(ns).as_str());
        out.append(" => ");
        if paths.len() == 1 {
            assert(text::texts(paths@)[0] == paths@[0]@);
            out.append(render_autoload_path(paths[0].as_str()).as_str());
        } else {
            out.append("array(");
            out.append(text::join(&render_paths(paths), ", ").as_str());
            out.append(")");
        }
        out.append(",\n");
        assert(out@ =~= before + namespace_line(ns@, text::texts(paths@)));
        assert(out@ =~= "array(\n"@ + namespace_lines(all.take(i + 1)));
        i += 1;
    }
    assert(all.take(n as int) =~= all);
    out.append(")");
    out
}

/// What the files with maps begin with.
pub open spec fn map_head(file: Seq<char>) -> Seq<char> {
    "<?php\n\n// "@ + file
        + " @generated by composer-rs\n\n$vendorDir = dirname(__DIR__);\n$baseDir = dirname($vendorDir);\n\nreturn "@
}

fn map_header(file: &str) -> (r: String)
    ensures
        r@ == map_head(file@),
{
    text::cat3(
        "<?php\n\n// ",
        file,
        " @generated by composer-rs\n\n$vendorDir = dirname(__DIR__);\n$baseDir = dirname($vendorDir);\n\nreturn ",
    )
}

/// The content of `autoload_psr4.php`.
pub fn autoload_psr4(psr4: &StrMap<Vec<String>>) -> (r: String)
    ensures
        r@ == map_head("autoload_psr4.php"@) + namespace_array(autoload::path_lists(*psr4))
            + ";\n"@,
{
    text::cat3(
        map_header("autoload_psr4.php").as_str(),
        php_array_strings(psr4).as_str(),
        ";\n",
    )
}

/// The content of `autoload_namespaces.php`.
pub fn autoload_namespaces(psr0: &StrMap<Vec<String>>) -> (r: String)
    ensures
        r@ == map_head("autoload_namespaces.php"@) + namespace_array(autoload::path_lists(*psr0))
            + ";\n"@,
{
    text::cat3(
        map_header("autoload_namespaces.php").as_str(),
        php_array_strings(psr0).as_str(),
        ";\n",
    )
}

// ---------------------------------------------------------------------------
// Classes and files

/// The lines of classes, each after `indent`.
pub open spec fn class_lines(m: Seq<(Seq<char>, Seq<char>)>, indent: Seq<char>) -> Seq<char>
    decreases m.len(),
{
    if m.len() == 0 {
        Seq::empty()
    } else {
        class_lines(m.drop_last(), indent) + (indent + quoted(m.last().0) + " => "@ + path_code(
            m.last().1,
        ) + ",\n"@)
    }
}

fn render_classes(map: &StrMap<String>, indent: &str) -> (r: String)
    ensures
        r@ == class_lines(collections::link_pairs(*map), indent@),
{
    let ghost all = collections::link_pairs(*map);
    let mut out = String::new();
    let n: usize = map.entries.len();
    let mut i: usize = 0;
    assert(out@ =~= class_lines(all.take(0), indent@));
    while i < n
        invariant
            i <= n,
            n == map.entries@.len(),
            all == collections::link_pairs(*map),
            out@ == class_lines(all.take(i as int), indent@),
        decreases n - i,
    {
        let class = map.entries[i].0.as_str();
        let rel = map.entries[i].1.as_str();
        let ghost before = out@;
        proof {
            assert(all.take(i + 1).drop_last() =~= all.take(i as int));
            assert(all.take(i + 1).last() == (class@, rel@));
        }
        out.append(indent);
        out.append(quote(class).as_str());
        out.append(" => ");
        out.append(render_autoload_path(rel).as_str());
        out.append(",\n");
        assert(out@ =~= before + (indent@ + quoted(class@) + " => "@ + path_code(rel@) + ",\n"@));
        i += 1;
    }
    assert(all.take(n as int) =~= all);
    out
}

/// The content of `autoload_classmap.php`.
pub fn autoload_classmap(classmap: &StrMap<String>) -> (r: String)
    ensures
        r@ == map_head("autoload_classmap.php"@) + "array(\n"@ + class_lines(
            collections::link_pairs(*classmap),
            "    "@,
        ) + ");\n"@,
{
    let mut out = map_header("autoload_classmap.php");
    out.append("array(\n");
    out.append(render_classes(classmap, "    ").as_str());
    out.append(");\n");
    out
}

/// A number with at least four digits.
pub open spec fn four_digits(n: nat) -> Seq<char> {
    let d = text::decimal(n);
    if d.len() == 1 {
        "000"@ + d
    } else if d.len() == 2 {
        "00"@ + d
    } else if d.len() == 3 {
        "0"@ + d
    } else {
        d
    }
}

fn padded(n: usize) -> (r: String)
    ensures
        r@ == four_digits(n as nat),
{
    let d = text::usize_text(n);
    let k: usize = d.as_str().unicode_len();
    if k == 1 {
        text::cat("000", d.as_str())
    } else if k == 2 {
        text::cat("00", d.as_str())
    } else if k == 3 {
        text::cat("0", d.as_str())
    } else {
        d
    }
}

/// The lines of files, each after `indent`.
pub open spec fn file_lines(v: Seq<Seq<char>>, indent: Seq<char>) -> Seq<char>
    decreases v.len(),
{
    if v.len() == 0 {
        Seq::empty()
    } else {
        file_lines(v.drop_last(), indent) + (indent + "'composer_rs_"@ + four_digits(
            (v.len() - 1) as nat,
        ) + "' => "@ + path_code(v.last()) + ",\n"@)
    }
}

fn render_files(files: &Vec<String>, indent: &str) -> (r: String)
    ensures
        r@ == file_lines(text::texts(files@), indent@),
{
    let ghost all = text::texts(files@);
    let mut out = String::new();
    let n: usize = files.len();
    let mut i: usize = 0;
    assert(out@ =~= file_lines(all.take(0), indent@));
    while i < n
        invariant
            i <= n,
            n == files@.len(),
            all == text::texts(files@),
            out@ == file_lines(all.take(i as int), indent@),
        decreases n - i,
    {
        let ghost before = out@;
        proof {
            assert(all.take(i + 1).drop_last() =~= all.take(i as int));
            assert(all.take(i + 1).last() == files@[i as int]@);
        }
        out.append(indent);
        out.append("'composer_rs_");
        out.append(padded(i).as_str());
        out.append("' => ");
        out.append(render_autoload_path(files[i].as_str()).as_str());
        out.append(",\n");
        assert(out@ =~= before + (indent@ + "'composer_rs_"@ + four_digits(i as nat) + "' => "@
            + path_code(files@[i as int]@) + ",\n"@));
        i += 1;
    }
    assert(all.take(n as int) =~= all);
    out
}

/// The content of `autoload_files.php`.
pub fn autoload_files(files: &Vec<String>) -> (r: String)
    ensures
        r@ == map_head("autoload_files.php"@) + "array(\n"@ + file_lines(
            text::texts(files@),
            "    "@,
        ) + ");\n"@,
{
    let mut out = map_header("autoload_files.php");
    out.append("array(\n");
    out.append(render_files(files, "    ").as_str());
    out.append(");\n");
    out
}

// ---------------------------------------------------------------------------
// Static maps

/// A namespace with a backslash at its end.
pub open spec fn closed_namespace(ns: Seq<char>) -> Seq<char> {
    if text::ends(ns, "\\"@) {
        ns
    } else {
        ns + "\\"@
    }
}

/// Numbers by namespaces by the first characters of the namespaces.
pub type LengthMap = Seq<(Seq<char>, Seq<(Seq<char>, usize)>)>;

/// The lengths of namespaces, in bytes.
pub open spec fn prefix_lengths(m: autoload::PathLists) -> LengthMap
    decreases m.len(),
{
    if m.len() == 0 {
        Seq::empty()
    } else {
        let rest = prefix_lengths(m.drop_last());
        let ns = closed_namespace(m.last().0);
        collections::inserted(
            rest,
            ns.take(1),
            collections::inserted(
                index::entry_of(rest, ns.take(1)),
                ns,
                vstd::utf8::encode_utf8(ns).len() as usize,
            ),
        )
    }
}

/// The expressions of the paths of namespaces.
pub open spec fn prefix_dirs(m: autoload::PathLists) -> autoload::PathLists
    decreases m.len(),
{
    if m.len() == 0 {
        Seq::empty()
    } else {
        collections::inserted(
            prefix_dirs(m.drop_last()),
            closed_namespace(m.last().0),
            path_codes(m.last().1),
        )
    }
}

/// The lines of lengths.
pub open spec fn length_lines(m: Seq<(Seq<char>, usize)>) -> Seq<char>
    decreases m.len(),
{
    if m.len() == 0 {
        Seq::empty()
    } else {
        length_lines(m.drop_last()) + ("            "@ + quoted(m.last().0) + " => "@
            + text::decimal(m.last().1 as nat) + ",\n"@)
    }
}

/// The blocks of lengths, one for each first character.
pub open spec fn length_blocks(m: LengthMap) -> Seq<char>
    decreases m.len(),
{
    if m.len() == 0 {
        Seq::empty()
    } else {
        length_blocks(m.drop_last()) + ("        '"@ + m.last().0 + "' => array(\n"@
            + length_lines(m.last().1) + "        ),\n"@)
    }
}

/// The lines of paths, each after `indent`. Every value is an array.
pub open spec fn dir_lines(m: autoload::PathLists, indent: Seq<char>) -> Seq<char>
    decreases m.len(),
{
    if m.len() == 0 {
        Seq::empty()
    } else {
        dir_lines(m.drop_last(), indent) + (indent + quoted(m.last().0) + " => array("@
            + text::joined(m.last().1, ", "@) + "),\n"@)
    }
}

/// The static maps of namespaces: their lengths and their paths.
pub open spec fn psr4_static(m: autoload::PathLists) -> (Seq<char>, Seq<char>) {
    if m.len() == 0 {
        ("array()"@, "array()"@)
    } else {
        (
            "array(\n"@ + length_blocks(prefix_lengths(m)) + "    )"@,
            "array(\n"@ + dir_lines(prefix_dirs(m), "        "@) + "    )"@,
        )
    }
}

spec fn length_map(m: StrMap<StrMap<usize>>) -> LengthMap {
    collections::with_values(m@, |v: StrMap<usize>| v@)
}

fn copy_numbers(m: &StrMap<usize>) -> (r: StrMap<usize>)
    ensures
        r@ == m@,
{
    let mut out: Vec<(String, usize)> = Vec::new();
    let n: usize = m.entries.len();
    let mut i: usize = 0;
    while i < n
        invariant
            i <= n,
            n == m.entries@.len(),
            out@.len() == i,
            forall|j: int|
                0 <= j < i ==> (#[trigger] out@[j]).0@ == m.entries@[j].0@ && out@[j].1
                    == m.entries@[j].1,
        decreases n - i,
    {
        out.push((m.entries[i].0.clone(), m.entries[i].1));
        i += 1;
    }
    let r = StrMap { entries: out };
    assert(r@ =~= m@);
    r
}

fn lengths_of(psr4: &StrMap<Vec<String>>) -> (r: StrMap<StrMap<usize>>)
    ensures
        length_map(r) == prefix_lengths(autoload::path_lists(*psr4)),
{
    let ghost all = autoload::path_lists(*psr4);
    let mut out: StrMap<StrMap<usize>> = StrMap::new();
    let n: usize = psr4.entries.len();
    let mut i: usize = 0;
    assert(length_map(out) =~= Seq::empty());
    while i < n
        invariant
            i <= n,
            n == psr4.entries@.len(),
            all == autoload::path_lists(*psr4),
            length_map(out) == prefix_lengths(all.take(i as int)),
        decreases n - i,
    {
        let prefix = psr4.entries[i].0.as_str();
        let ghost here = length_map(out);
        proof {
            reveal_strlit("\\");
            assert(all.take(i + 1).drop_last() =~= all.take(i as int));
            assert(all.take(i + 1).last().0 == prefix@);
        }
        let ns = if text::ends_with(prefix, "\\") {
            String::from_str(prefix)
        } else {
            text::cat(prefix, "\\")
        };
        assert(ns@ == closed_namespace(prefix@));
        assert(ns@.len() > 0);
        let first = ns.as_str().substring_char(0, 1);
        assert(ns@.subrange(0, 1) =~= ns@.take(1));
        let len: usize = ns.as_str().as_bytes().len();
        proof {
            collections::lemma_with_values(out@, first@, arbitrary(), |v: StrMap<usize>| v@);
        }
        let mut inner: StrMap<usize> = match out.get(first) {
            Some(m) => copy_numbers(m),
            None => StrMap::new(),
        };
        assert(inner@ =~= index::entry_of(here, first@));
        inner.insert(ns.clone(), len);
        proof {
            collections::lemma_with_values(out@, first@, inner, |v: StrMap<usize>| v@);
        }
        out.insert(String::from_str(first), inner);
        i += 1;
    }
    assert(all.take(n as int) =~= all);
    out
}

fn render_lengths(m: &StrMap<StrMap<usize>>) -> (r: String)
    ensures
        r@ == length_blocks(length_map(*m)),
{
    let ghost all = length_map(*m);
    let mut out = String::new();
    let n: usize = m.entries.len();
    let mut i: usize = 0;
    assert(out@ =~= length_blocks(all.take(0)));
    while i < n
        invariant
            i <= n,
            n == m.entries@.len(),
            all == length_map(*m),
            out@ == length_blocks(all.take(i as int)),
        decreases n - i,
    {
        let first = m.entries[i].0.as_str();
        let inner = &m.entries[i].1;
        let ghost before = out@;
        proof {
            assert(all.take(i + 1).drop_last() =~= all.take(i as int));
            assert(all.take(i + 1).last() == (first@, inner@));
        }
        out.append("        '");
        out.append(first);
        out.append("' => array(\n");
        let ghost head = out@;
        let k: usize = inner.entries.len();
        let mut j: usize = 0;
        assert(out@ =~= head + length_lines(inner@.take(0)));
        while j < k
            invariant
                j <= k,
                k == inner.entries@.len(),
                out@ == head + length_lines(inner@.take(j as int)),
            decreases k - j,
        {
            let ghost now = out@;
            let ns = inner.entries[j].0.as_str();
            let len: usize = inner.entries[j].1;
            proof {
                assert(inner@.take(j + 1).drop_last() =~= inner@.take(j as int));
                assert(inner@.take(j + 1).last() == (ns@, len));
            }
            out.append("            ");
            out.append(quote(ns).as_str());
            out.append(" => ");
            out.append(text::usize_text(len).as_str());
            out.append(",\n");
            assert(out@ =~= now + ("            "@ + quoted(ns@) + " => "@ + text::decimal(
                len as nat,
            ) + ",\n"@));
            assert(out@ =~= head + length_lines(inner@.take(j + 1)));
            j += 1;
        }
        assert(inner@.take(k as int) =~= inner@);
        out.append("        ),\n");
        assert(out@ =~= before + ("        '"@ + first@ + "' => array(\n"@ + length_lines(inner@)
            + "        ),\n"@));
        i += 1;
    }
    assert(all.take(n as int) =~= all);
    out
}

fn dirs_of(psr4: &StrMap<Vec<String>>) -> (r: StrMap<Vec<String>>)
    ensures
        autoload::path_lists(r) == prefix_dirs(autoload::path_lists(*psr4)),
{
    let ghost all = autoload::path_lists(*psr4);
    let mut out: StrMap<Vec<String>> = StrMap::new();
    let n: usize = psr4.entries.len();
    let mut i: usize = 0;
    assert(autoload::path_lists(out) =~= Seq::empty());
    while i < n
        invariant
            i <= n,
            n == psr4.entries@.len(),
            all == autoload::path_lists(*psr4),
            autoload::path_lists(out) == prefix_dirs(all.take(i as int)),
        decreases n - i,
    {
        let prefix = psr4.entries[i].0.as_str();
        let ns = if text::ends_with(prefix, "\\") {
            String::from_str(prefix)
        } else {
            text::cat(prefix, "\\")
        };
        let codes = render_paths(&psr4.entries[i].1);
        proof {
            assert(all.take(i + 1).drop_last() =~= all.take(i as int));
            assert(all.take(i + 1).last() == (
                prefix@,
                text::texts(psr4.entries@[i as int].1@),
            ));
            collections::lemma_with_values(out@, ns@, codes, |v: Vec<String>| text::texts(v@));
        }
        out.insert(ns, codes);
        i += 1;
    }
    assert(all.take(n as int) =~= all);
    out
}

fn render_dirs(m: &StrMap<Vec<String>>, indent: &str) -> (r: String)
    ensures
        r@ == dir_lines(autoload::path_lists(*m), indent@),
{
    let ghost all = autoload::path_lists(*m);
    let mut out = String::new();
    let n: usize = m.entries.len();
    let mut i: usize = 0;
    assert(out@ =~= dir_lines(all.take(0), indent@));
    while i < n
        invariant
            i <= n,
            n == m.entries@.len(),
            all == autoload::path_lists(*m),
            out@ == dir_lines(all.take(i as int), indent@),
        decreases n - i,
    {
        let ns = m.entries[i].0.as_str();
        let codes = &m.entries[i].1;
        let ghost before = out@;
        proof {
            assert(all.take(i + 1).drop_last() =~= all.take(i as int));
            assert(all.take(i + 1).last() == (ns@, text::texts(codes@)));
        }
        out.append(indent);
        out.append(quote(ns).as_str());
        out.append(" => array(");
        out.append(text::join(codes, ", ").as_str());
        out.append("),\n");
        assert(out@ =~= before + (indent@ + quoted(ns@) + " => array("@ + text::joined(
            text::texts(codes@),
            ", "@,
        ) + "),\n"@));
        i += 1;
    }
    assert(all.take(n as int) =~= all);
    out
}

/// The static maps of namespaces: their lengths and their paths.
pub fn render_psr4_static(psr4: &StrMap<Vec<String>>) -> (r: (String, String))
    ensures
        (r.0@, r.1@) == psr4_static(autoload::path_lists(*psr4)),
{
    if psr4.is_empty() {
        return (String::from_str("array()"), String::from_str("array()"));
    }
    let lengths = lengths_of(psr4);
    let dirs = dirs_of(psr4);
    (
        text::cat3("array(\n", render_lengths(&lengths).as_str(), "    )"),
        text::cat3("array(\n", render_dirs(&dirs, "        ").as_str(), "    )"),
    )
}

/// The first character of a prefix, a backslash if it has none.
pub open spec fn first_of(ns: Seq<char>) -> Seq<char> {
    if ns.len() > 0 {
        ns.take(1)
    } else {
        "\\"@
    }
}

/// Paths by prefixes by the first characters of the prefixes.
pub type NestedDirs = Seq<(Seq<char>, autoload::PathLists)>;

/// The expressions of the paths of prefixes, by the first characters.
pub open spec fn nested_dirs(m: autoload::PathLists) -> NestedDirs
    decreases m.len(),
{
    if m.len() == 0 {
        Seq::empty()
    } else {
        let rest = nested_dirs(m.drop_last());
        let (ns, paths) = m.last();
        collections::inserted(
            rest,
            first_of(ns),
            collections::inserted(
                index::entry_of(rest, first_of(ns)),
                ns,
                path_codes(paths),
            ),
        )
    }
}

/// The blocks of paths, one for each first character.
pub open spec fn nested_blocks(m: NestedDirs) -> Seq<char>
    decreases m.len(),
{
    if m.len() == 0 {
        Seq::empty()
    } else {
        nested_blocks(m.drop_last()) + ("        '"@ + m.last().0 + "' => array(\n"@ + dir_lines(
            m.last().1,
            "            "@,
        ) + "        ),\n"@)
    }
}

/// The static map of prefixes.
pub open spec fn psr0_static(m: autoload::PathLists) -> Seq<char> {
    if m.len() == 0 {
        "array()"@
    } else {
        "array(\n"@ + nested_blocks(nested_dirs(m)) + "    )"@
    }
}

spec fn nested_map(m: StrMap<StrMap<Vec<String>>>) -> NestedDirs {
    collections::with_values(m@, |v: StrMap<Vec<String>>| autoload::path_lists(v))
}

fn copy_lists(m: &StrMap<Vec<String>>) -> (r: StrMap<Vec<String>>)
    ensures
        autoload::path_lists(r) == autoload::path_lists(*m),
{
    let mut out: Vec<(String, Vec<String>)> = Vec::new();
    let n: usize = m.entries.len();
    let mut i: usize = 0;
    while i < n
        invariant
            i <= n,
            n == m.entries@.len(),
            out@.len() == i,
            forall|j: int|
                0 <= j < i ==> (#[trigger] out@[j]).0@ == m.entries@[j].0@ && out@[j].1@
                    == m.entries@[j].1@,
        decreases n - i,
    {
        out.push((m.entries[i].0.clone(), collections::copy_texts(&m.entries[i].1)));
        i += 1;
    }
    let r = StrMap { entries: out };
    assert(autoload::path_lists(r) =~= autoload::path_lists(*m));
    r
}

fn nest_dirs(psr0: &StrMap<Vec<String>>) -> (r: StrMap<StrMap<Vec<String>>>)
    ensures
        nested_map(r) == nested_dirs(autoload::path_lists(*psr0)),
{
    let ghost all = autoload::path_lists(*psr0);
    let mut out: StrMap<StrMap<Vec<String>>> = StrMap::new();
    let n: usize = psr0.entries.len();
    let mut i: usize = 0;
    assert(nested_map(out) =~= Seq::empty());
    while i < n
        invariant
            i <= n,
            n == psr0.entries@.len(),
            all == autoload::path_lists(*psr0),
            nested_map(out) == nested_dirs(all.take(i as int)),
        decreases n - i,
    {
        let ns = psr0.entries[i].0.as_str();
        let ghost here = nested_map(out);
        let codes = render_paths(&psr0.entries[i].1);
        let first = if ns.unicode_len() > 0 {
            assert(ns@.subrange(0, 1) =~= ns@.take(1));
            ns.substring_char(0, 1)
        } else {
            "\\"
        };
        assert(first@ == first_of(ns@));
        proof {
            assert(all.take(i + 1).drop_last() =~= all.take(i as int));
            assert(all.take(i + 1).last() == (ns@, text::texts(psr0.entries@[i as int].1@)));
            collections::lemma_with_values(
                out@,
                first@,
                arbitrary(),
                |v: StrMap<Vec<String>>| autoload::path_lists(v),
            );
        }
        let mut inner: StrMap<Vec<String>> = match out.get(first) {
            Some(m) => copy_lists(m),
            None => StrMap::new(),
        };
        assert(autoload::path_lists(inner) =~= index::entry_of(here, first@));
        proof {
            collections::lemma_with_values(
                inner@,
                ns@,
                codes,
                |v: Vec<String>| text::texts(v@),
            );
        }
        inner.insert(String::from_str(ns), codes);
        proof {
            collections::lemma_with_values(
                out@,
                first@,
                inner,
                |v: StrMap<Vec<String>>| autoload::path_lists(v),
            );
        }
        out.insert(String::from_str(first), inner);
        i += 1;
    }
    assert(all.take(n as int) =~= all);
    out
}

/// The static map of prefixes.
pub fn render_psr0_static(psr0: &StrMap<Vec<String>>) -> (r: String)
    ensures
        r@ == psr0_static(autoload::path_lists(*psr0)),
{
    if psr0.is_empty() {
        return String::from_str("array()");
    }
    let m = nest_dirs(psr0);
    let ghost all = nested_map(m);
    let mut out = String::from_str("array(\n");
    let n: usize = m.entries.len();
    let mut i: usize = 0;
    assert(out@ =~= "array(\n"@ + nested_blocks(all.take(0)));
    while i < n
        invariant
            i <= n,
            n == m.entries@.len(),
            all == nested_map(m),
            out@ == "array(\n"@ + nested_blocks(all.take(i as int)),
        decreases n - i,
    {
        let first = m.entries[i].0.as_str();
        let inner = &m.entries[i].1;
        let ghost before = out@;
        proof {
            assert(all.take(i + 1).drop_last() =~= all.take(i as int));
            assert(all.take(i + 1).last() == (first@, autoload::path_lists(*inner)));
        }
        out.append("        '");
        out.append(first);
        out.append("' => array(\n");
        out.append(render_dirs(inner, "            ").as_str());
        out.append("        ),\n");
        assert(out@ =~= before + ("        '"@ + first@ + "' => array(\n"@ + dir_lines(
            autoload::path_lists(*inner),
            "            "@,
        ) + "        ),\n"@));
        assert(out@ =~= "array(\n"@ + nested_blocks(all.take(i + 1)));
        i += 1;
    }
    assert(all.take(n as int) =~= all);
    out.append("    )");
    out
}

/// The five maps of `autoload_static.php`. Without optimisation they are empty.
pub open spec fn static_maps(
    maps: autoload::MapsView,
    classmap: Seq<(Seq<char>, Seq<char>)>,
    optimize: bool,
) -> (Seq<char>, Seq<char>, Seq<char>, Seq<char>, Seq<char>) {
    if optimize {
        (
            psr4_static(maps.psr4).0,
            psr4_static(maps.psr4).1,
            psr0_static(maps.psr0),
            if classmap.len() > 0 {
                "array(\n"@ + class_lines(classmap, "        "@) + "    )"@
            } else {
                "array()"@
            },
            if maps.files.len() > 0 {
                "array(\n"@ + file_lines(maps.files, "        "@) + "    )"@
            } else {
                "array()"@
            },
        )
    } else {
        ("array()"@, "array()"@, "array()"@, "array()"@, "array()"@)
    }
}

/// The content of `autoload_static.php` with the given maps.
pub open spec fn static_code(
    m: (Seq<char>, Seq<char>, Seq<char>, Seq<char>, Seq<char>),
) -> Seq<char> {
    "<?php\n\n// autoload_static.php @generated by composer-rs\n\nnamespace Composer\\Autoload;\n\nclass ComposerStaticInit\n{\npublic static $prefixLengthsPsr4 = "@
        + m.0 + ";\npublic static $prefixDirsPsr4 = "@ + m.1
        + ";\npublic static $prefixesPsr0 = "@ + m.2 + ";\npublic static $classMap = "@ + m.3
        + ";\npublic static $files = "@ + m.4
        + ";\n\npublic static function getInitializer(ClassLoader $loader)\n{\nreturn \\Closure::bind(function () use ($loader) {\n$loader->prefixLengthsPsr4 = ComposerStaticInit::$prefixLengthsPsr4;\n$loader->prefixDirsPsr4 = ComposerStaticInit::$prefixDirsPsr4;\n$loader->prefixesPsr0 = ComposerStaticInit::$prefixesPsr0;\n$loader->classMap = ComposerStaticInit::$classMap;\n}, null, ClassLoader::class);\n}\n}\n"@
}

/// The content of `autoload_static.php`.
pub fn autoload_static(maps: &AutoloadMaps, classmap: &StrMap<String>, optimize: bool) -> (r:
    String)
    ensures
        r@ == static_code(static_maps(maps@, collections::link_pairs(*classmap), optimize)),
{
    let none = "array()";
    let (lengths, dirs) = if optimize {
        render_psr4_static(&maps.psr4)
    } else {
        (String::from_str(none), String::from_str(none))
    };
    let prefixes = if optimize {
        render_psr0_static(&maps.psr0)
    } else {
        String::from_str(none)
    };
    let classes = if optimize && !classmap.is_empty() {
        text::cat3("array(\n", render_classes(classmap, "        ").as_str(), "    )")
    } else {
        String::from_str(none)
    };
    let files = if optimize && maps.files.len() > 0 {
        text::cat3("array(\n", render_files(&maps.files, "        ").as_str(), "    )")
    } else {
        String::from_str(none)
    };
    assert(collections::link_pairs(*classmap).len() == classmap@.len());
    let mut out = String::from_str(
        "<?php\n\n// autoload_static.php @generated by composer-rs\n\nnamespace Composer\\Autoload;\n\nclass ComposerStaticInit\n{\npublic static $prefixLengthsPsr4 = ",
    );
    out.append(lengths.as_str());
    out.append(";\npublic static $prefixDirsPsr4 = ");
    out.append(dirs.as_str());
    out.append(";\npublic static $prefixesPsr0 = ");
    out.append(prefixes.as_str());
    out.append(";\npublic static $classMap = ");
    out.append(classes.as_str());
    out.append(";\npublic static $files = ");
    out.append(files.as_str());
    out.append(
        ";\n\npublic static function getInitializer(ClassLoader $loader)\n{\nreturn \\Closure::bind(function () use ($loader) {\n$loader->prefixLengthsPsr4 = ComposerStaticInit::$prefixLengthsPsr4;\n$loader->prefixDirsPsr4 = ComposerStaticInit::$prefixDirsPsr4;\n$loader->prefixesPsr0 = ComposerStaticInit::$prefixesPsr0;\n$loader->classMap = ComposerStaticInit::$classMap;\n}, null, ClassLoader::class);\n}\n}\n",
    );
    out
}

/// The PHP literal of a truth value.
pub open spec fn bool_code(b: bool) -> Seq<char> {
    if b {
        "true"@
    } else {
        "false"@
    }
}

fn bool_literal(b: bool) -> (r: &'static str)
    ensures
        r@ == bool_code(b),
{
    if b {
        "true"
    } else {
        "false"
    }
}

/// The content of `autoload_real.php`.
pub open spec fn real_code(classmap_authoritative: bool, optimize: bool) -> Seq<char> {
    "<?php\n// autoload_real.php @generated by composer-rs\n\nclass ComposerAutoloaderInit\n{\n    private static $loader;\n\n    public static function getLoader()\n    {\n        if (null !== self::$loader) {\n            return self::$loader;\n        }\n\n        require __DIR__ . '/platform_check.php';\n        if (!class_exists('Composer\\\\Autoload\\\\ClassLoader', false)) {\n            require_once __DIR__ . '/ClassLoader.php';\n        }\n        self::$loader = $loader = new \\Composer\\Autoload\\ClassLoader(\\dirname(__DIR__));\n\n        $useStatic = "@
        + bool_code(optimize)
        + ";\n        if ($useStatic) {\n            require __DIR__ . '/autoload_static.php';\n            call_user_func(\\Composer\\Autoload\\ComposerStaticInit::getInitializer($loader));\n        } else {\n            $map = require __DIR__ . '/autoload_namespaces.php';\n            foreach ($map as $namespace => $path) {\n                $loader->add($namespace, $path);\n            }\n\n            $map = require __DIR__ . '/autoload_psr4.php';\n            foreach ($map as $namespace => $path) {\n                $loader->addPsr4($namespace, $path);\n            }\n\n            $classMap = require __DIR__ . '/autoload_classmap.php';\n            if ($classMap) {\n                $loader->addClassMap($classMap);\n            }\n        }\n\n        if ("@
        + bool_code(classmap_authoritative)
        + ") {\n            $loader->setClassMapAuthoritative(true);\n        }\n\n        $loader->register(true);\n\n        $includeFiles = require __DIR__ . '/autoload_files.php';\n        foreach ($includeFiles as $fileIdentifier => $file) {\n            if (empty($GLOBALS['__composer_autoload_files'][$fileIdentifier])) {\n                $GLOBALS['__composer_autoload_files'][$fileIdentifier] = true;\n                if (file_exists($file)) {\n                    require $file;\n                }\n            }\n        }\n\n        return $loader;\n    }\n}\n"@
}

/// The content of `autoload_real.php`.
pub fn autoload_real(classmap_authoritative: bool, optimize: bool) -> (r: String)
    ensures
        r@ == real_code(classmap_authoritative, optimize),
{
    let mut out = String::from_str(
        "<?php\n// autoload_real.php @generated by composer-rs\n\nclass ComposerAutoloaderInit\n{\n    private static $loader;\n\n    public static function getLoader()\n    {\n        if (null !== self::$loader) {\n            return self::$loader;\n        }\n\n        require __DIR__ . '/platform_check.php';\n        if (!class_exists('Composer\\\\Autoload\\\\ClassLoader', false)) {\n            require_once __DIR__ . '/ClassLoader.php';\n        }\n        self::$loader = $loader = new \\Composer\\Autoload\\ClassLoader(\\dirname(__DIR__));\n\n        $useStatic = ",
    );
    out.append(bool_literal(optimize));
    out.append(
        ";\n        if ($useStatic) {\n            require __DIR__ . '/autoload_static.php';\n            call_user_func(\\Composer\\Autoload\\ComposerStaticInit::getInitializer($loader));\n        } else {\n            $map = require __DIR__ . '/autoload_namespaces.php';\n            foreach ($map as $namespace => $path) {\n                $loader->add($namespace, $path);\n            }\n\n            $map = require __DIR__ . '/autoload_psr4.php';\n            foreach ($map as $namespace => $path) {\n                $loader->addPsr4($namespace, $path);\n            }\n\n            $classMap = require __DIR__ . '/autoload_classmap.php';\n            if ($classMap) {\n                $loader->addClassMap($classMap);\n            }\n        }\n\n        if (",
    );
    out.append(bool_literal(classmap_authoritative));
    out.append(
        ") {\n            $loader->setClassMapAuthoritative(true);\n        }\n\n        $loader->register(true);\n\n        $includeFiles = require __DIR__ . '/autoload_files.php';\n        foreach ($includeFiles as $fileIdentifier => $file) {\n            if (empty($GLOBALS['__composer_autoload_files'][$fileIdentifier])) {\n                $GLOBALS['__composer_autoload_files'][$fileIdentifier] = true;\n                if (file_exists($file)) {\n                    require $file;\n                }\n            }\n        }\n\n        return $loader;\n    }\n}\n",
    );
    out
}

/// The content of `vendor/autoload.php`.
pub fn autoload_entry() -> (r: String)
    ensures
        r@
            == "<?php\n\n// autoload.php @generated by composer-rs\n\nrequire_once __DIR__ . '/composer/autoload_real.php';\n\nreturn ComposerAutoloaderInit::getLoader();\n"@,
{
    String::from_str(
        "<?php\n\n// autoload.php @generated by composer-rs\n\nrequire_once __DIR__ . '/composer/autoload_real.php';\n\nreturn ComposerAutoloaderInit::getLoader();\n",
    )
}

// ---------------------------------------------------------------------------
// Laws

proof fn lemma_free_of(a: Seq<char>, b: Seq<char>, c: Seq<char>, x: char)
    requires
        !a.contains(x),
        !b.contains(x),
        !c.contains(x),
    ensures
        !(a + b + c).contains(x),
{
    let s = a + b + c;
    if s.contains(x) {
        let i = choose|i: int| 0 <= i < s.len() && s[i] == x;
        if i < a.len() {
            assert(a[i] == x);
        } else if i < a.len() + b.len() {
            assert(b[i - a.len()] == x);
        } else {
            assert(c[i - a.len() - b.len()] == x);
        }
    }
}

/// A text is written between quotes; quotes and backslashes in it stand behind a
/// backslash, everything else as it is.
pub proof fn law_how_texts_are_quoted(a: Seq<char>, b: Seq<char>)
    requires
        !a.contains('\''),
        !a.contains('\\'),
        !b.contains('\''),
        !b.contains('\\'),
    ensures
        optional_text(Some(a)) == seq!['\''] + a + seq!['\''],
        optional_text(Some(a + seq!['\''] + b)) == seq!['\''] + (a + seq!['\\', '\''] + b)
            + seq!['\''],
        optional_text(Some(a + seq!['\\'] + b)) == seq!['\''] + (a + seq!['\\', '\\'] + b)
            + seq!['\''],
        optional_text(None) == "null"@,
{
    reveal_strlit("'");
    reveal_strlit("\\");
    reveal_strlit("\\\\");
    reveal_strlit("\\'");
    let q = "'"@;
    let s = "\\"@;
    assert(q =~= seq!['\'']);
    assert(s =~= seq!['\\']);
    assert("\\\\"@ =~= seq!['\\', '\\']);
    assert("\\'"@ =~= seq!['\\', '\'']);
    text::lemma_nothing_replaced(a, s, "\\\\"@);
    text::lemma_nothing_replaced(a, q, "\\'"@);
    lemma_free_of(a, q, b, '\\');
    text::lemma_nothing_replaced(a + q + b, s, "\\\\"@);
    text::lemma_replaced_once(a, q, b, "\\'"@);
    text::lemma_replaced_once(a, s, b, "\\\\"@);
    lemma_free_of(a, "\\\\"@, b, '\'');
    text::lemma_nothing_replaced(a + "\\\\"@ + b, q, "\\'"@);
}

/// A path that leads up twice is one of the project, any other one of the vendor
/// directory.
pub proof fn law_how_paths_are_written(t: Seq<char>)
    ensures
        path_code("../../"@ + t) == "$baseDir . "@ + ("'/"@ + escaped(t) + "'"@),
        !text::starts(t, "../"@) ==> path_code("../"@ + t) == "$vendorDir . "@ + ("'/"@ + escaped(t)
            + "'"@),
        !text::starts(t, "../"@) ==> path_code(t) == "$vendorDir . "@ + ("'/"@ + escaped(t)
            + "'"@),
{
    reveal_strlit("../");
    reveal_strlit("../../");
    reveal_strlit("'/");
    reveal_strlit("$baseDir . ");
    reveal_strlit("$vendorDir . ");
    reveal_strlit("$baseDir . '/");
    reveal_strlit("$vendorDir . '/");
    text::law_prefixes(t, "../../"@);
    text::law_prefixes(t, "../"@);
    let u = "../"@ + t;
    assert("$baseDir . "@ + "'/"@ =~= "$baseDir . '/"@);
    assert("$vendorDir . "@ + "'/"@ =~= "$vendorDir . '/"@);
    assert("$baseDir . "@ + ("'/"@ + escaped(t) + "'"@) =~= "$baseDir . '/"@ + escaped(t) + "'"@);
    assert("$vendorDir . "@ + ("'/"@ + escaped(t) + "'"@) =~= "$vendorDir . '/"@ + escaped(t)
        + "'"@);
    if !text::starts(t, "../"@) {
        if text::starts(u, "../../"@) {
            assert(u.take(6).skip(3) =~= t.take(3));
            assert("../../"@.skip(3) =~= "../"@);
        }
        if text::starts(t, "../../"@) {
            assert(t.take(6).take(3) =~= t.take(3));
            assert("../../"@.take(3) =~= "../"@);
        }
    }
}

/// The lines for namespaces and classes follow one another in their order.
pub proof fn law_lines_in_order(
    m: autoload::PathLists,
    n: autoload::PathLists,
    c: Seq<(Seq<char>, Seq<char>)>,
    d: Seq<(Seq<char>, Seq<char>)>,
    indent: Seq<char>,
)
    ensures
        namespace_lines(m + n) == namespace_lines(m) + namespace_lines(n),
        class_lines(c + d, indent) == class_lines(c, indent) + class_lines(d, indent),
    decreases n.len() + d.len(),
{
    if n.len() > 0 {
        assert((m + n).drop_last() =~= m + n.drop_last());
        law_lines_in_order(m, n.drop_last(), c, d, indent);
        assert(namespace_lines(m) + (namespace_lines(n.drop_last()) + namespace_line(
            n.last().0,
            n.last().1,
        )) =~= namespace_lines(m) + namespace_lines(n.drop_last()) + namespace_line(
            n.last().0,
            n.last().1,
        ));
    } else {
        assert(m + n =~= m);
        assert(namespace_lines(m) + namespace_lines(n) =~= namespace_lines(m));
    }
    if d.len() > 0 {
        assert((c + d).drop_last() =~= c + d.drop_last());
        law_lines_in_order(m, n, c, d.drop_last(), indent);
        let line = indent + quoted(d.last().0) + " => "@ + path_code(d.last().1) + ",\n"@;
        assert(class_lines(c, indent) + (class_lines(d.drop_last(), indent) + line) =~= class_lines(
            c,
            indent,
        ) + class_lines(d.drop_last(), indent) + line);
    } else {
        assert(c + d =~= c);
        assert(class_lines(c, indent) + class_lines(d, indent) =~= class_lines(c, indent));
    }
}

/// Each namespace is found with its directories, a backslash at its end; of two
/// that are the same then the later one counts.
pub proof fn law_directories_of_namespaces(m: autoload::PathLists, i: int)
    requires
        0 <= i < m.len(),
        forall|k: int|
            i < k < m.len() ==> closed_namespace((#[trigger] m[k]).0) != closed_namespace(m[i].0),
    ensures
        closed_namespace(m[i].0).last() == '\\',
        m[i].0.len() > 0 && m[i].0.last() == '\\' ==> closed_namespace(m[i].0) == m[i].0,
        collections::lookup(prefix_dirs(m), closed_namespace(m[i].0)) == Some(path_codes(m[i].1)),
    decreases m.len(),
{
    reveal_strlit("\\");
    let ns = m[i].0;
    if text::ends(ns, "\\"@) {
        assert(ns.skip(ns.len() - 1)[0] == '\\');
    } else if ns.len() > 0 && ns.last() == '\\' {
        assert(ns.skip(ns.len() - 1) =~= "\\"@);
    }
    let front = m.drop_last();
    collections::law_lookup_inserted(
        prefix_dirs(front),
        closed_namespace(m.last().0),
        path_codes(m.last().1),
        closed_namespace(ns),
    );
    if i < front.len() {
        assert(front[i] == m[i]);
        assert(closed_namespace(m[m.len() - 1].0) != closed_namespace(m[i].0));
        assert forall|k: int| i < k < front.len() implies closed_namespace((#[trigger] front[k]).0)
            != closed_namespace(front[i].0) by {
            assert(closed_namespace(m[k].0) != closed_namespace(m[i].0));
        }
        law_directories_of_namespaces(front, i);
    }
}

} // verus!
