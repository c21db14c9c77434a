//! What is recorded about the installed packages.

use crate::autoload;
use crate::autoload::AutoloadMaps;
use crate::autoload::AutoloadOptions;
use crate::collections;
use crate::collections::StrMap;
use crate::constraint;
use crate::fields;
use crate::json;
use crate::json::Json;
use crate::lock;
use crate::lock::ComposerLock;
use crate::lock::LockedPackage;
use crate::manifest;
use crate::manifest::ComposerJson;
use crate::package;
use crate::php;
use crate::resolve;
use crate::text;
use crate::version;
use vstd::prelude::*;

verus! {

// ---------------------------------------------------------------------------
// installed.json

/// The entry of a package in `installed.json`.
pub open spec fn installed_entry(p: lock::LockedView) -> json::JsonView {
    json::JsonView::Object(
        json::with_member(
            json::with_member(
                lock::locked_members(p),
                "version_normalized"@,
                json::JsonView::Str(version::normalized_text(p.version)),
            ),
            "install-path"@,
            json::JsonView::Str("../"@ + p.name),
        ),
    )
}

/// The entries of packages in `installed.json`.
pub open spec fn installed_entries(v: Seq<lock::LockedView>) -> Seq<json::JsonView> {
    v.map_values(|p: lock::LockedView| installed_entry(p))
}

/// The entries of the packages of a lock file in `installed.json`.
pub fn installed_packages_json(lock: &ComposerLock, with_dev: bool) -> (r: Vec<Json>)
    ensures
        json::elements(r@) == installed_entries(lock::to_install(lock@, with_dev)),
{
    let list = lock.packages_to_install(with_dev);
    let ghost all = lock::ref_views(list@);
    let mut out: Vec<Json> = Vec::new();
    let n: usize = list.len();
    let mut i: usize = 0;
    while i < n
        invariant
            i <= n,
            n == list@.len(),
            all == lock::ref_views(list@),
            out@.len() == i,
            forall|j: int| 0 <= j < i ==> (#[trigger] out@[j])@ == installed_entry(all[j]),
        decreases n - i,
    {
        let p = list[i];
        assert(all[i as int] == p@);
        let members = json::put_member(
            p.to_members(),
            "version_normalized",
            Json::Str(version::version_normalized(p.version.as_str())),
        );
        let entry = json::put_member(
            members,
            "install-path",
            Json::Str(text::cat("../", p.name.as_str())),
        );
        proof {
            json::lemma_object_view(entry);
        }
        out.push(Json::Object(entry));
        i += 1;
    }
    assert(json::elements(out@) =~= installed_entries(all));
    out
}

/// The names of packages.
pub open spec fn names_of(v: Seq<lock::LockedView>) -> Seq<Seq<char>> {
    v.map_values(|p: lock::LockedView| p.name)
}

/// The packages of a lock file that are for development.
pub open spec fn dev_packages(lock: Option<&ComposerLock>) -> Seq<lock::LockedView> {
    match lock {
        Some(l) => l@.packages_dev,
        None => Seq::empty(),
    }
}

/// The content of `installed.json`.
pub open spec fn installed_doc(lock: Option<&ComposerLock>, with_dev: bool) -> json::JsonView {
    json::JsonView::Object(
        seq![
            (
                "packages"@,
                json::JsonView::Array(
                    installed_entries(autoload::installed_of(lock, with_dev)),
                ),
            ),
            ("dev"@, json::JsonView::Bool(with_dev)),
            (
                "dev-package-names"@,
                json::JsonView::Array(fields::text_values(names_of(dev_packages(lock)))),
            ),
            ("plugin-api-version"@, json::JsonView::Str("2.6.0"@)),
        ],
    )
}

fn dev_names(lock: Option<&ComposerLock>) -> (r: Vec<String>)
    ensures
        text::texts(r@) == names_of(dev_packages(lock)),
{
    let mut out: Vec<String> = Vec::new();
    match lock {
        Some(l) => {
            let n: usize = l.packages_dev.len();
            let mut i: usize = 0;
            while i < n
                invariant
                    i <= n,
                    n == l.packages_dev@.len(),
                    out@.len() == i,
                    forall|j: int| 0 <= j < i ==> (#[trigger] out@[j])@ == l.packages_dev@[j].name@,
                decreases n - i,
            {
                out.push(l.packages_dev[i].name.clone());
                i += 1;
            }
        },
        None => {},
    }
    assert(text::texts(out@) =~= names_of(dev_packages(lock)));
    out
}

/// The content of `installed.json`.
pub fn installed_json(lock: Option<&ComposerLock>, with_dev: bool) -> (r: Json)
    ensures
        r@ == installed_doc(lock, with_dev),
{
    let packages: Vec<Json> = match lock {
        Some(l) => installed_packages_json(l, with_dev),
        None => Vec::new(),
    };
    let names = dev_names(lock);
    let names_json = fields::list_json(&names);
    proof {
        json::lemma_array_view(packages);
        assert(json::elements(packages@) =~= installed_entries(
            autoload::installed_of(lock, with_dev),
        ));
    }
    let mut out: Vec<(String, Json)> = Vec::new();
    out.push((String::from_str("packages"), Json::Array(packages)));
    out.push((String::from_str("dev"), Json::Bool(with_dev)));
    out.push((String::from_str("dev-package-names"), names_json));
    out.push((String::from_str("plugin-api-version"), Json::Str(String::from_str("2.6.0"))));
    proof {
        json::lemma_object_view(out);
        assert(json::members(out@) =~= installed_doc(lock, with_dev)->Object_0);
    }
    Json::Object(out)
}

// ---------------------------------------------------------------------------
// installed.php

/// The reference at which a package is installed.
pub open spec fn reference_of(p: lock::LockedView) -> Option<Seq<char>> {
    match p.dist {
        Some(d) => match d.reference {
            Some(r) => Some(r),
            None => match p.source {
                Some(s) => s.reference,
                None => None,
            },
        },
        None => match p.source {
            Some(s) => s.reference,
            None => None,
        },
    }
}

/// The reference at which a package is installed.
pub fn package_reference(p: &LockedPackage) -> (r: Option<&str>)
    ensures
        text::opt_view(r) == reference_of(p@),
{
    if let Some(d) = &p.dist {
        if let Some(r) = &d.reference {
            return Some(r.as_str());
        }
    }
    match &p.source {
        Some(s) => match &s.reference {
            Some(r) => Some(r.as_str()),
            None => None,
        },
        None => None,
    }
}

/// A text, or a default.
pub open spec fn text_or(t: Option<Seq<char>>, default: Seq<char>) -> Seq<char> {
    match t {
        Some(s) => s,
        None => default,
    }
}

/// The array of a package in `installed.php`.
pub open spec fn package_block(p: lock::LockedView, is_dev: bool) -> Seq<char> {
    let name = php::escaped(p.name);
    "        '"@ + name + "' => array(\n            'pretty_version' => '"@ + php::escaped(p.version)
        + "',\n            'version' => '"@ + php::escaped(version::normalized_text(p.version))
        + "',\n            'reference' => "@ + php::optional_text(reference_of(p))
        + ",\n            'type' => '"@ + php::escaped(text_or(p.package_type, "library"@))
        + "',\n            'install_path' => __DIR__ . '/../"@ + name
        + "',\n            'aliases' => array(),\n            'dev_requirement' => "@
        + php::bool_code(is_dev) + ",\n        ),\n"@
}

/// The arrays of packages in `installed.php`.
pub open spec fn package_blocks(v: Seq<lock::LockedView>, dev: Seq<Seq<char>>) -> Seq<char>
    decreases v.len(),
{
    if v.len() == 0 {
        Seq::empty()
    } else {
        package_blocks(v.drop_last(), dev) + package_block(v.last(), dev.contains(v.last().name))
    }
}

/// The content of `installed.php`.
pub open spec fn installed_code(
    m: manifest::ManifestView,
    lock: Option<&ComposerLock>,
    with_dev: bool,
) -> Seq<char> {
    let pretty = text_or(m.version, "1.0.0+no-version-set"@);
    "<?php return array(\n    'root' => array(\n        'name' => '"@ + php::escaped(
        text_or(m.name, "__root__"@),
    ) + "',\n        'pretty_version' => '"@ + php::escaped(pretty) + "',\n        'version' => '"@
        + php::escaped(version::normalized_text(pretty))
        + "',\n        'reference' => null,\n        'type' => '"@ + php::escaped(
        text_or(m.package_type, "library"@),
    )
        + "',\n        'install_path' => __DIR__ . '/../../',\n        'aliases' => array(),\n        'dev' => "@
        + php::bool_code(with_dev) + ",\n    ),\n    'versions' => array(\n"@ + package_blocks(
        autoload::installed_of(lock, with_dev),
        names_of(dev_packages(lock)),
    ) + "    ),\n);\n"@
}

fn literal(b: bool) -> (r: &'static str)
    ensures
        r@ == php::bool_code(b),
{
    if b {
        "true"
    } else {
        "false"
    }
}

fn or_default<'a>(t: &'a Option<String>, default: &'a str) -> (r: &'a str)
    ensures
        r@ == text_or(text::opt_text(*t), default@),
{
    match t {
        Some(s) => s.as_str(),
        None => default,
    }
}

fn render_package(p: &LockedPackage, is_dev: bool) -> (r: String)
    ensures
        r@ == package_block(p@, is_dev),
{
    let name = php::escape_php(p.name.as_str());
    let normalized = version::version_normalized(p.version.as_str());
    let mut out = text::cat3(
        "        '",
        name.as_str(),
        "' => array(\n            'pretty_version' => '",
    );
    out.append(php::escape_php(p.version.as_str()).as_str());
    out.append("',\n            'version' => '");
    out.append(php::escape_php(normalized.as_str()).as_str());
    out.append("',\n            'reference' => ");
    out.append(php::php_optional_string(package_reference(p)).as_str());
    out.append(",\n            'type' => '");
    out.append(php::escape_php(or_default(&p.package_type, "library")).as_str());
    out.append("',\n            'install_path' => __DIR__ . '/../");
    out.append(name.as_str());
    out.append("',\n            'aliases' => array(),\n            'dev_requirement' => ");
    out.append(literal(is_dev));
    out.append(",\n        ),\n");
    out
}

/// The content of `installed.php`.
pub fn installed_php(manifest: &ComposerJson, lock: Option<&ComposerLock>, with_dev: bool) -> (r:
    String)
    ensures
        r@ == installed_code(manifest@, lock, with_dev),
{
    let pretty = or_default(&manifest.version, "1.0.0+no-version-set");
    let mut out = text::cat3(
        "<?php return array(\n    'root' => array(\n        'name' => '",
        php::escape_php(or_default(&manifest.name, "__root__")).as_str(),
        "',\n        'pretty_version' => '",
    );
    out.append(php::escape_php(pretty).as_str());
    out.append("',\n        'version' => '");
    out.append(php::escape_php(version::version_normalized(pretty).as_str()).as_str());
    out.append("',\n        'reference' => null,\n        'type' => '");
    out.append(php::escape_php(or_default(&manifest.package_type, "library")).as_str());
    out.append(
        "',\n        'install_path' => __DIR__ . '/../../',\n        'aliases' => array(),\n        'dev' => ",
    );
    out.append(literal(with_dev));
    out.append(",\n    ),\n    'versions' => array(\n");
    let ghost head = out@;
    let dev = dev_names(lock);
    let ghost dev_list = text::texts(dev@);
    let list: Vec<&LockedPackage> = match lock {
        Some(l) => l.packages_to_install(with_dev),
        None => Vec::new(),
    };
    let ghost all = lock::ref_views(list@);
    assert(all =~= autoload::installed_of(lock, with_dev));
    let n: usize = list.len();
    let mut i: usize = 0;
    assert(out@ =~= head + package_blocks(all.take(0), dev_list));
    while i < n
        invariant
            i <= n,
            n == list@.len(),
            all == lock::ref_views(list@),
            dev_list == text::texts(dev@),
            out@ == head + package_blocks(all.take(i as int), dev_list),
        decreases n - i,
    {
        let ghost before = out@;
        proof {
            assert(all.take(i + 1).drop_last() =~= all.take(i as int));
            assert(all.take(i + 1).last() == list@[i as int]@);
        }
        let is_dev = collections::contains_text(&dev, list[i].name.as_str());
        out.append(render_package(list[i], is_dev).as_str());
        assert(out@ =~= head + package_blocks(all.take(i + 1), dev_list));
        i += 1;
    }
    assert(all.take(n as int) =~= all);
    out.append("    ),\n);\n");
    out
}

// ---------------------------------------------------------------------------
// platform_check.php

/// The first three numbers of a version text, zero where one is missing. The
/// third may have other characters behind its digits.
pub open spec fn triple_of(s: Seq<char>) -> (u64, u64, u64) {
    let p = text::pieces(s, "."@);
    (
        version::or_zero(text::u64_of(p[0])),
        if p.len() > 1 {
            version::or_zero(text::u64_of(p[1]))
        } else {
            0
        },
        if p.len() > 2 {
            version::or_zero(text::u64_of(version::leading_digits(p[2])))
        } else {
            0
        },
    )
}

/// One triple of numbers does not lie below another one.
pub open spec fn triple_ge(a: (u64, u64, u64), b: (u64, u64, u64)) -> bool {
    a.0 > b.0 || (a.0 == b.0 && (a.1 > b.1 || (a.1 == b.1 && a.2 >= b.2)))
}

/// The higher of two version texts.
pub open spec fn higher_text(a: Seq<char>, b: Seq<char>) -> Seq<char> {
    if triple_ge(triple_of(a), triple_of(b)) {
        a
    } else {
        b
    }
}

/// The lower bound that a part of a constraint sets.
pub open spec fn floor_of_part(part: Seq<char>) -> Option<Seq<char>> {
    if let Some(v) = text::without_prefix(part, ">="@) {
        Some(text::without_front(v, 'v'))
    } else if let Some(v) = text::without_prefix(part, ">"@) {
        Some(text::without_front(v, 'v'))
    } else if let Some(v) = text::without_prefix(part, "^"@) {
        Some(text::without_front(v, 'v'))
    } else if let Some(v) = text::without_prefix(part, "~"@) {
        Some(text::without_front(v, 'v'))
    } else if let Some(v) = text::without_prefix(part, "="@) {
        Some(text::without_front(v, 'v'))
    } else if part.len() > 0 && text::is_digit(part[0]) {
        Some(text::without_front(part, 'v'))
    } else {
        None
    }
}

/// The highest lower bound that the parts of a constraint set.
pub open spec fn floor_of_parts(parts: Seq<Seq<char>>) -> Option<Seq<char>>
    decreases parts.len(),
{
    if parts.len() == 0 {
        None
    } else {
        let rest = floor_of_parts(parts.drop_last());
        match (floor_of_part(text::trimmed(parts.last())), rest) {
            (Some(v), Some(prev)) => Some(higher_text(prev, v)),
            (Some(v), None) => Some(v),
            (None, _) => rest,
        }
    }
}

/// The first alternative of a constraint.
pub open spec fn first_alternative(c: Seq<char>) -> Seq<char> {
    text::trimmed(text::pieces(text::pieces(c, "||"@)[0], "|"@)[0])
}

/// The lowest PHP version that a constraint admits, as far as its first
/// alternative says.
pub open spec fn php_floor(c: Seq<char>) -> Seq<char> {
    let primary = first_alternative(c);
    match floor_of_parts(text::pieces(text::swapped(primary, ',', ' '), " "@)) {
        Some(v) => v,
        None => text::without_front(primary, 'v'),
    }
}

fn leading_number(s: &str) -> (r: u64)
    ensures
        r == version::or_zero(text::u64_of(version::leading_digits(s@))),
{
    let n: usize = s.unicode_len();
    let mut i: usize = 0;
    assert(s@.skip(0) =~= s@);
    assert(version::leading_digits(s@) =~= s@.take(0) + version::leading_digits(s@.skip(0)));
    while i < n && '0' <= s.get_char(i) && s.get_char(i) <= '9'
        invariant
            i <= n,
            n == s@.len(),
            version::leading_digits(s@) == s@.take(i as int) + version::leading_digits(
                s@.skip(i as int),
            ),
        decreases n - i,
    {
        proof {
            let t = s@.skip(i as int);
            assert(t[0] == s@[i as int]);
            assert(t.skip(1) =~= s@.skip(i + 1));
            assert(s@.take(i as int) + (seq![t[0]] + version::leading_digits(t.skip(1)))
                =~= s@.take(i + 1) + version::leading_digits(s@.skip(i + 1)));
        }
        i += 1;
    }
    proof {
        if i < n {
            assert(s@.skip(i as int)[0] == s@[i as int]);
        }
        assert(version::leading_digits(s@.skip(i as int)) =~= Seq::empty());
        assert(version::leading_digits(s@) =~= s@.take(i as int));
        assert(s@.subrange(0, i as int) =~= s@.take(i as int));
    }
    constraint::number_or_zero(s.substring_char(0, i))
}

fn parse_triple(s: &str) -> (r: (u64, u64, u64))
    ensures
        r == triple_of(s@),
{
    proof {
        reveal_strlit(".");
    }
    let p = text::split(s, ".");
    let n: usize = p.len();
    let ghost views = text::views(p@);
    assert(views.len() == n);
    assert(views[0] == p@[0]@);
    let major: u64 = constraint::number_or_zero(p[0]);
    let minor: u64 = if n > 1 {
        assert(views[1] == p@[1]@);
        constraint::number_or_zero(p[1])
    } else {
        0
    };
    let patch: u64 = if n > 2 {
        assert(views[2] == p@[2]@);
        leading_number(p[2])
    } else {
        0
    };
    (major, minor, patch)
}

fn max_version_string(a: &str, b: &str) -> (r: String)
    ensures
        r@ == higher_text(a@, b@),
{
    let x = parse_triple(a);
    let y = parse_triple(b);
    if x.0 > y.0 || (x.0 == y.0 && (x.1 > y.1 || (x.1 == y.1 && x.2 >= y.2))) {
        String::from_str(a)
    } else {
        String::from_str(b)
    }
}

fn part_floor(part: &str) -> (r: Option<&str>)
    ensures
        text::opt_view(r) == floor_of_part(part@),
{
    if let Some(v) = text::strip_prefix(part, ">=") {
        Some(text::trim_front_char(v, 'v'))
    } else if let Some(v) = text::strip_prefix(part, ">") {
        Some(text::trim_front_char(v, 'v'))
    } else if let Some(v) = text::strip_prefix(part, "^") {
        Some(text::trim_front_char(v, 'v'))
    } else if let Some(v) = text::strip_prefix(part, "~") {
        Some(text::trim_front_char(v, 'v'))
    } else if let Some(v) = text::strip_prefix(part, "=") {
        Some(text::trim_front_char(v, 'v'))
    } else if part.unicode_len() > 0 && '0' <= part.get_char(0) && part.get_char(0) <= '9' {
        Some(text::trim_front_char(part, 'v'))
    } else {
        None
    }
}

/// The lowest PHP version that a constraint admits.
pub fn php_constraint_to_version(constraint: &str) -> (r: String)
    ensures
        r@ == php_floor(constraint@),
{
    proof {
        reveal_strlit("||");
        reveal_strlit("|");
        reveal_strlit(" ");
    }
    let alternatives = text::split(constraint, "||");
    assert(text::views(alternatives@)[0] == alternatives@[0]@);
    let bars = text::split(alternatives[0], "|");
    assert(text::views(bars@)[0] == bars@[0]@);
    let primary = text::trim(bars[0]);
    let spaced = text::replace_char(primary, ',', ' ');
    let parts = text::split(spaced.as_str(), " ");
    let ghost all = text::views(parts@);
    let mut floor: Option<String> = None;
    let n: usize = parts.len();
    let mut i: usize = 0;
    while i < n
        invariant
            i <= n,
            n == parts@.len(),
            all == text::views(parts@),
            text::opt_text(floor) == floor_of_parts(all.take(i as int)),
        decreases n - i,
    {
        proof {
            assert(all.take(i + 1).drop_last() =~= all.take(i as int));
            assert(all.take(i + 1).last() == parts@[i as int]@);
        }
        if let Some(v) = part_floor(text::trim(parts[i])) {
            floor =
            Some(
                match &floor {
                    Some(prev) => max_version_string(prev.as_str(), v),
                    None => String::from_str(v),
                },
            );
        }
        i += 1;
    }
    assert(all.take(n as int) =~= all);
    match floor {
        Some(v) => v,
        None => String::from_str(text::trim_front_char(primary, 'v')),
    }
}

/// Requirements, with those of a list put over them.
pub open spec fn with_links(
    m: Seq<(Seq<char>, Seq<char>)>,
    v: Seq<(Seq<char>, Seq<char>)>,
) -> Seq<(Seq<char>, Seq<char>)>
    decreases v.len(),
{
    if v.len() == 0 {
        m
    } else {
        collections::inserted(with_links(m, v.drop_last()), v.last().0, v.last().1)
    }
}

/// The requirements on the platform that are checked at run time.
pub open spec fn checked_reqs(
    m: manifest::ManifestView,
    lock: Option<&ComposerLock>,
) -> Seq<(Seq<char>, Seq<char>)> {
    let own = with_links(
        with_links(Seq::empty(), resolve::platform_reqs(m.require)),
        resolve::platform_reqs(m.require_dev),
    );
    match lock {
        Some(l) => with_links(with_links(own, l@.platform), l@.platform_dev),
        None => own,
    }
}

/// Only the PHP version is checked.
pub open spec fn checks_php_only(config: Option<json::JsonView>) -> bool {
    match manifest::config_member(config, "platform-check"@) {
        Some(json::JsonView::Str(s)) => text::lower(s) == "php-only"@,
        _ => false,
    }
}

/// The check of a requirement.
pub open spec fn check_code(name: Seq<char>, c: Seq<char>, php_only: bool) -> Seq<char> {
    if name == "php"@ || name == "hhvm"@ {
        "if (!(version_compare(PHP_VERSION, '"@ + php_floor(c)
            + "', '>='))) {\n$issues[] = 'Composer requires PHP "@ + c
            + " but ' . PHP_VERSION . ' is installed';\n}\n"@
    } else if php_only {
        Seq::empty()
    } else {
        match text::without_prefix(name, "ext-"@) {
            Some(ext) => "if (!extension_loaded('"@ + ext
                + "')) {\n$issues[] = 'Composer requires ext-"@ + ext + " ("@ + c + ")';\n}\n"@,
            None => Seq::empty(),
        }
    }
}

/// The checks of requirements.
pub open spec fn check_codes(v: Seq<(Seq<char>, Seq<char>)>, php_only: bool) -> Seq<char>
    decreases v.len(),
{
    if v.len() == 0 {
        Seq::empty()
    } else {
        check_codes(v.drop_last(), php_only) + check_code(v.last().0, v.last().1, php_only)
    }
}

/// The content of `platform_check.php`.
pub open spec fn platform_code(m: ComposerJson, lock: Option<&ComposerLock>) -> Seq<char> {
    let config = json::opt_json(m.config);
    if !manifest::wants_platform_check(config) {
        "<?php\n// platform_check.php @generated by composer-rs (disabled via config.platform-check)\nreturn;\n"@
    } else {
        let checks = check_codes(checked_reqs(m@, lock), checks_php_only(config));
        if checks.len() == 0 {
            "<?php\n// platform_check.php @generated by composer-rs\nreturn;\n"@
        } else {
            "<?php\n// platform_check.php @generated by composer-rs\n\n$issues = array();\n"@ + checks
                + "\nif ($issues) {\nif (!headers_sent()) {\nheader('HTTP/1.1 500 Internal Server Error');\n}\ntrigger_error(\n'Composer detected platform issues: ' . implode('; ', $issues),\nE_USER_ERROR\n);\n}\n"@
        }
    }
}

fn put_links(m: &mut StrMap<String>, v: &StrMap<String>)
    ensures
        collections::link_pairs(*final(m)) == with_links(
            collections::link_pairs(*old(m)),
            collections::link_pairs(*v),
        ),
{
    let ghost start = collections::link_pairs(*m);
    let ghost all = collections::link_pairs(*v);
    let n: usize = v.entries.len();
    let mut i: usize = 0;
    while i < n
        invariant
            i <= n,
            n == v.entries@.len(),
            all == collections::link_pairs(*v),
            collections::link_pairs(*m) == with_links(start, all.take(i as int)),
        decreases n - i,
    {
        let name = v.entries[i].0.clone();
        let c = v.entries[i].1.clone();
        proof {
            assert(all.take(i + 1).drop_last() =~= all.take(i as int));
            assert(all.take(i + 1).last() == (name@, c@));
            collections::lemma_with_values(m@, name@, c, |s: String| s@);
        }
        m.insert(name, c);
        i += 1;
    }
    assert(all.take(n as int) =~= all);
}

fn render_check(name: &str, c: &str, php_only: bool) -> (r: String)
    ensures
        r@ == check_code(name@, c@, php_only),
{
    if text::same(name, "php") || text::same(name, "hhvm") {
        let min = php_constraint_to_version(c);
        let mut out = text::cat3(
            "if (!(version_compare(PHP_VERSION, '",
            min.as_str(),
            "', '>='))) {\n$issues[] = 'Composer requires PHP ",
        );
        out.append(c);
        out.append(" but ' . PHP_VERSION . ' is installed';\n}\n");
        return out;
    }
    if !php_only {
        if let Some(ext) = text::strip_prefix(name, "ext-") {
            let mut out = text::cat3(
                "if (!extension_loaded('",
                ext,
                "')) {\n$issues[] = 'Composer requires ext-",
            );
            out.append(ext);
            out.append(" (");
            out.append(c);
            out.append(")';\n}\n");
            return out;
        }
    }
    String::new()
}

/// The content of `platform_check.php`.
pub fn platform_check(manifest: &ComposerJson, lock: Option<&ComposerLock>) -> (r: String)
    ensures
        r@ == platform_code(*manifest, lock),
{
    if !manifest.platform_check_enabled() {
        return String::from_str(
            "<?php\n// platform_check.php @generated by composer-rs (disabled via config.platform-check)\nreturn;\n",
        );
    }
    let mut reqs: StrMap<String> = StrMap::new();
    assert(collections::link_pairs(reqs) =~= Seq::empty());
    put_links(&mut reqs, &resolve::platform_links(&manifest.require));
    put_links(&mut reqs, &resolve::platform_links(&manifest.require_dev));
    if let Some(l) = lock {
        put_links(&mut reqs, &l.platform);
        put_links(&mut reqs, &l.platform_dev);
    }
    let php_only = match &manifest.config {
        Some(c) => match c.get("platform-check") {
            Some(Json::Str(s)) => text::same(
                text::to_ascii_lowercase(s.as_str()).as_str(),
                "php-only",
            ),
            _ => false,
        },
        None => false,
    };
    let ghost all = collections::link_pairs(reqs);
    let mut checks = String::new();
    let n: usize = reqs.entries.len();
    let mut i: usize = 0;
    assert(checks@ =~= check_codes(all.take(0), php_only));
    while i < n
        invariant
            i <= n,
            n == reqs.entries@.len(),
            all == collections::link_pairs(reqs),
            checks@ == check_codes(all.take(i as int), php_only),
        decreases n - i,
    {
        let name = reqs.entries[i].0.as_str();
        let c = reqs.entries[i].1.as_str();
        proof {
            assert(all.take(i + 1).drop_last() =~= all.take(i as int));
            assert(all.take(i + 1).last() == (name@, c@));
        }
        checks.append(render_check(name, c, php_only).as_str());
        i += 1;
    }
    assert(all.take(n as int) =~= all);
    if checks.as_str().unicode_len() == 0 {
        return String::from_str(
            "<?php\n// platform_check.php @generated by composer-rs\nreturn;\n",
        );
    }
    text::cat3(
        "<?php\n// platform_check.php @generated by composer-rs\n\n$issues = array();\n",
        checks.as_str(),
        "\nif ($issues) {\nif (!headers_sent()) {\nheader('HTTP/1.1 500 Internal Server Error');\n}\ntrigger_error(\n'Composer detected platform issues: ' . implode('; ', $issues),\nE_USER_ERROR\n);\n}\n",
    )
}

// ---------------------------------------------------------------------------
// All files

/// A file with its content.
pub type FileView = (Seq<char>, Seq<char>);

/// What a list of files consists of.
pub open spec fn file_views(v: Seq<(String, String)>) -> Seq<FileView> {
    v.map_values(|e: (String, String)| (e.0@, e.1@))
}

/// The files of `vendor/composer` that are made for a project, besides
/// `installed.json`.
pub open spec fn generated_files(
    m: ComposerJson,
    lock: Option<&ComposerLock>,
    options: AutoloadOptions,
    maps: autoload::MapsView,
    classmap: Seq<(Seq<char>, Seq<char>)>,
) -> Seq<FileView> {
    seq![
        (
            "autoload_namespaces.php"@,
            php::map_head("autoload_namespaces.php"@) + php::namespace_array(maps.psr0) + ";\n"@,
        ),
        (
            "autoload_psr4.php"@,
            php::map_head("autoload_psr4.php"@) + php::namespace_array(maps.psr4) + ";\n"@,
        ),
        (
            "autoload_classmap.php"@,
            php::map_head("autoload_classmap.php"@) + "array(\n"@ + php::class_lines(
                classmap,
                "    "@,
            ) + ");\n"@,
        ),
        (
            "autoload_files.php"@,
            php::map_head("autoload_files.php"@) + "array(\n"@ + php::file_lines(
                maps.files,
                "    "@,
            ) + ");\n"@,
        ),
        (
            "autoload_static.php"@,
            php::static_code(php::static_maps(maps, classmap, options.optimize)),
        ),
        (
            "autoload_real.php"@,
            php::real_code(options.classmap_authoritative, options.optimize),
        ),
        ("installed.php"@, installed_code(m@, lock, options.with_dev)),
        ("platform_check.php"@, platform_code(m, lock)),
    ]
}

/// The files of `vendor/composer` that are made for a project, besides
/// `installed.json`.
pub fn generate_files(
    manifest: &ComposerJson,
    lock: Option<&ComposerLock>,
    options: &AutoloadOptions,
    maps: &AutoloadMaps,
    classmap: &StrMap<String>,
) -> (r: Vec<(String, String)>)
    ensures
        file_views(r@) == generated_files(
            *manifest,
            lock,
            *options,
            maps@,
            collections::link_pairs(*classmap),
        ),
{
    let mut out: Vec<(String, String)> = Vec::new();
    out.push(
        (String::from_str("autoload_namespaces.php"), php::autoload_namespaces(&maps.psr0)),
    );
    out.push((String::from_str("autoload_psr4.php"), php::autoload_psr4(&maps.psr4)));
    out.push((String::from_str("autoload_classmap.php"), php::autoload_classmap(classmap)));
    out.push((String::from_str("autoload_files.php"), php::autoload_files(&maps.files)));
    out.push(
        (
            String::from_str("autoload_static.php"),
            php::autoload_static(maps, classmap, options.optimize),
        ),
    );
    out.push(
        (
            String::from_str("autoload_real.php"),
            php::autoload_real(options.classmap_authoritative, options.optimize),
        ),
    );
    out.push(
        (String::from_str("installed.php"), installed_php(manifest, lock, options.with_dev)),
    );
    out.push((String::from_str("platform_check.php"), platform_check(manifest, lock)));
    assert(file_views(out@) =~= generated_files(
        *manifest,
        lock,
        *options,
        maps@,
        collections::link_pairs(*classmap),
    ));
    out
}

// ---------------------------------------------------------------------------
// Laws

/// The reference of an archive counts before that of a checkout.
pub proof fn law_references(p: lock::LockedView)
    ensures
        (p.dist matches Some(d) && d.reference is Some) ==> reference_of(p) == p.dist->0.reference,
        ((p.dist matches Some(d) ==> d.reference is None) && p.source is Some) ==> reference_of(p)
            == p.source->0.reference,
        ((p.dist matches Some(d) ==> d.reference is None) && p.source is None) ==> reference_of(p)
            is None,
{
}

/// The version that a constraint on PHP asks for is the number in it, whatever
/// the sign in front.
pub proof fn law_floor_of_constraint(sign: Seq<char>, v: Seq<char>)
    requires
        sign.len() == 0 || sign == ">="@ || sign == ">"@ || sign == "^"@ || sign == "~"@ || sign
            == "="@,
        v.len() > 0,
        text::is_digit(v[0]),
        forall|i: int| 0 <= i < v.len() ==> text::is_digit(#[trigger] v[i]) || v[i] == '.',
    ensures
        php_floor(sign + v) == v,
{
    lemma_sign_chars(sign);
    lemma_signs(v);
    if sign.len() == 0 {
        assert(sign + v =~= v);
    }
    lemma_floor(sign, v);
}

proof fn lemma_sign_chars(sign: Seq<char>)
    requires
        sign.len() == 0 || sign == ">="@ || sign == ">"@ || sign == "^"@ || sign == "~"@ || sign
            == "="@,
    ensures
        sign.len() <= 2,
        forall|i: int|
            0 <= i < sign.len() ==> #[trigger] sign[i] == '>' || sign[i] == '=' || sign[i] == '^'
                || sign[i] == '~',
{
    reveal_strlit(">=");
    reveal_strlit(">");
    reveal_strlit("^");
    reveal_strlit("~");
    reveal_strlit("=");
}

/// A constraint of one word is looked at as it is.
proof fn lemma_floor(sign: Seq<char>, v: Seq<char>)
    requires
        v.len() > 0,
        sign.len() <= 2,
        forall|i: int|
            0 <= i < sign.len() ==> #[trigger] sign[i] == '>' || sign[i] == '=' || sign[i] == '^'
                || sign[i] == '~',
        forall|i: int| 0 <= i < v.len() ==> text::is_digit(#[trigger] v[i]) || v[i] == '.',
        floor_of_part(sign + v) is Some,
    ensures
        php_floor(sign + v) == floor_of_part(sign + v)->0,
{
    reveal_strlit("||");
    reveal_strlit("|");
    reveal_strlit(" ");
    let c = sign + v;
    assert forall|i: int| 0 <= i < c.len() implies #[trigger] c[i] != '|' && c[i] != ' ' && c[i]
        != ',' && !text::is_space(c[i]) by {
        if i < sign.len() {
            assert(c[i] == sign[i]);
        } else {
            assert(c[i] == v[i - sign.len()]);
        }
    }
    text::lemma_not_found(c, "||"@);
    assert(text::pieces(c, "||"@)[0] == c);
    text::lemma_not_found(c, "|"@);
    assert(text::pieces(c, "|"@)[0] == c);
    text::lemma_trimmed_same(c);
    assert(first_alternative(c) == c);
    assert(text::swapped(c, ',', ' ') =~= c);
    text::lemma_not_found(c, " "@);
    let one = seq![c];
    assert(one.drop_last() =~= Seq::empty());
    assert(one.last() == c);
    assert(floor_of_parts(one.drop_last()) is None);
}

proof fn lemma_signs(v: Seq<char>)
    requires
        v.len() > 0,
        text::is_digit(v[0]),
    ensures
        floor_of_part(v) == Some(v),
        floor_of_part(">="@ + v) == Some(v),
        floor_of_part(">"@ + v) == Some(v),
        floor_of_part("^"@ + v) == Some(v),
        floor_of_part("~"@ + v) == Some(v),
        floor_of_part("="@ + v) == Some(v),
{
    reveal_strlit(">=");
    reveal_strlit(">");
    reveal_strlit("^");
    reveal_strlit("~");
    reveal_strlit("=");
    assert(text::without_front(v, 'v') == v);
    text::law_prefixes(v, ">="@);
    text::law_prefixes(v, ">"@);
    text::law_prefixes(v, "^"@);
    text::law_prefixes(v, "~"@);
    text::law_prefixes(v, "="@);
    lemma_no_sign(v);
    lemma_no_sign("^"@ + v);
    lemma_no_sign("~"@ + v);
    lemma_no_sign("="@ + v);
    let g = ">"@ + v;
    assert(g[0] == '>' && g[1] == v[0]);
    if text::starts(g, ">="@) {
        assert(g.take(2)[1] == '=');
    }
}

/// Which signs a text does not start with, by its first character.
proof fn lemma_no_sign(s: Seq<char>)
    requires
        s.len() > 0,
    ensures
        s[0] != '>' ==> !text::starts(s, ">="@) && !text::starts(s, ">"@),
        s[0] != '^' ==> !text::starts(s, "^"@),
        s[0] != '~' ==> !text::starts(s, "~"@),
        s[0] != '=' ==> !text::starts(s, "="@),
{
    reveal_strlit(">=");
    reveal_strlit(">");
    reveal_strlit("^");
    reveal_strlit("~");
    reveal_strlit("=");
    if s.len() >= 2 {
        assert(s.take(2)[0] == s[0]);
    }
    assert(s.take(1)[0] == s[0]);
    assert(">="@[0] == '>' && ">"@[0] == '>' && "^"@[0] == '^' && "~"@[0] == '~' && "="@[0] == '=');
}

/// Of several numbers in a constraint the highest one counts.
pub proof fn law_highest_floor(parts: Seq<Seq<char>>, i: int)
    requires
        0 <= i < parts.len(),
        floor_of_part(text::trimmed(parts[i])) is Some,
    ensures
        floor_of_parts(parts) matches Some(r) && ({
            let a = triple_of(r);
            let b = triple_of(floor_of_part(text::trimmed(parts[i]))->0);
            !(a.0 < b.0 || (a.0 == b.0 && a.1 < b.1) || (a.0 == b.0 && a.1 == b.1 && a.2 < b.2))
        }),
    decreases parts.len(),
{
    let front = parts.drop_last();
    if i < front.len() {
        assert(front[i] == parts[i]);
        law_highest_floor(front, i);
    } else {
        assert(parts.last() == parts[i]);
    }
}

/// Every link that is added is found afterwards; of two with one name the later
/// one counts, and other names are as before.
pub proof fn law_links_are_added(
    m: Seq<(Seq<char>, Seq<char>)>,
    v: Seq<(Seq<char>, Seq<char>)>,
    i: int,
    k: Seq<char>,
)
    ensures
        (0 <= i < v.len() && forall|q: int| i < q < v.len() ==> (#[trigger] v[q]).0 != v[i].0)
            ==> collections::lookup(with_links(m, v), v[i].0) == Some(v[i].1),
        (forall|q: int| 0 <= q < v.len() ==> (#[trigger] v[q]).0 != k) ==> collections::lookup(
            with_links(m, v),
            k,
        ) == collections::lookup(m, k),
    decreases v.len(),
{
    if v.len() > 0 {
        let front = v.drop_last();
        law_links_are_added(m, front, i, k);
        collections::law_lookup_inserted(with_links(m, front), v.last().0, v.last().1, v[i].0);
        collections::law_lookup_inserted(with_links(m, front), v.last().0, v.last().1, k);
        assert(v[v.len() - 1] == v.last());
        assert forall|q: int| 0 <= q < front.len() implies #[trigger] front[q] == v[q] by {}
        if 0 <= i < front.len() && forall|q: int| i < q < v.len() ==> (#[trigger] v[q]).0 != v[i].0 {
            assert(v[v.len() - 1].0 != v[i].0);
            assert forall|q: int| i < q < front.len() implies (#[trigger] front[q]).0
                != front[i].0 by {
                assert(v[q].0 != v[i].0);
            }
        }
        if forall|q: int| 0 <= q < v.len() ==> (#[trigger] v[q]).0 != k {
            assert(v[v.len() - 1].0 != k);
            assert forall|q: int| 0 <= q < front.len() implies (#[trigger] front[q]).0 != k by {
                assert(v[q].0 != k);
            }
        }
    }
}

/// What is checked when the program starts: the version of PHP, and each extension
/// unless only PHP is to be checked.
pub proof fn law_what_is_checked(ext: Seq<char>, c: Seq<char>, php_only: bool)
    ensures
        text::starts(
            check_code("php"@, c, php_only),
            "if (!(version_compare(PHP_VERSION, '"@ + php_floor(c),
        ),
        check_code("ext-"@ + ext, c, true).len() == 0,
        text::starts(check_code("ext-"@ + ext, c, false), "if (!extension_loaded('"@ + ext),
{
    reveal_strlit("php");
    reveal_strlit("hhvm");
    reveal_strlit("ext-");
    let name = "ext-"@ + ext;
    assert(name[0] == 'e' && "php"@[0] == 'p' && "hhvm"@[0] == 'h');
    text::law_prefixes(ext, "ext-"@);
    let a = "if (!(version_compare(PHP_VERSION, '"@ + php_floor(c);
    let s = check_code("php"@, c, php_only);
    assert(s.take(a.len() as int) =~= a);
    let b = "if (!extension_loaded('"@ + ext;
    let t = check_code(name, c, false);
    assert(t.take(b.len() as int) =~= b);
}

} // verus!
