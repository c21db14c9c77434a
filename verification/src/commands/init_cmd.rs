//! Making a `composer.json`.

use crate::collections;
use crate::collections::StrMap;
use crate::error::Error;
use crate::manifest;
use crate::manifest::ComposerJson;
use crate::text;
use vstd::prelude::*;

verus! {

/// What is asked of a new `composer.json`.
#[derive(Debug, Clone)]
pub struct InitArgs {
    pub name: Option<String>,
    pub description: Option<String>,
    pub stability: String,
    /// A file that is there is overwritten.
    pub force: bool,
}

/// A `composer.json` in which nothing is said.
pub open spec fn empty_manifest() -> manifest::ManifestView {
    manifest::ManifestView {
        name: None,
        description: None,
        package_type: None,
        version: None,
        license: None,
        require: Seq::empty(),
        require_dev: Seq::empty(),
        autoload: None,
        autoload_dev: None,
        minimum_stability: None,
        prefer_stable: None,
        config: None,
        scripts: None,
        repositories: None,
        extra: None,
        replace: Seq::empty(),
        provide: Seq::empty(),
        conflict: Seq::empty(),
        suggest: Seq::empty(),
        bin: Seq::empty(),
        rest: Seq::empty(),
    }
}

/// A `composer.json` in which nothing is said.
pub fn blank() -> (r: ComposerJson)
    ensures
        r@ == empty_manifest(),
{
    let r = ComposerJson::default();
    proof {
        assert(collections::link_pairs(r.require) =~= Seq::empty());
        assert(collections::link_pairs(r.require_dev) =~= Seq::empty());
        assert(collections::link_pairs(r.replace) =~= Seq::empty());
        assert(collections::link_pairs(r.provide) =~= Seq::empty());
        assert(collections::link_pairs(r.conflict) =~= Seq::empty());
        assert(collections::link_pairs(r.suggest) =~= Seq::empty());
        assert(text::texts(r.bin@) =~= Seq::empty());
        assert(crate::fields::value_pairs(r.rest) =~= Seq::empty());
    }
    r
}

/// The `composer.json` of a new project.
pub open spec fn new_manifest(
    name: Option<Seq<char>>,
    description: Option<Seq<char>>,
    stability: Seq<char>,
    directory: Option<Seq<char>>,
) -> manifest::ManifestView {
    manifest::ManifestView {
        name: Some(
            match name {
                Some(n) => n,
                None => "vendor/"@ + match directory {
                    Some(d) => d,
                    None => "project"@,
                },
            },
        ),
        description: Some(
            match description {
                Some(d) => d,
                None => ""@,
            },
        ),
        package_type: Some("project"@),
        require: seq![("php"@, ">=8.1"@)],
        minimum_stability: Some(stability),
        prefer_stable: Some(true),
        ..empty_manifest()
    }
}

/// Makes the `composer.json` of a project in a directory with that name. The file
/// at `path` may not be there, unless it is to be overwritten.
pub fn run(args: &InitArgs, directory: Option<&str>, path: &str, present: bool) -> (r: Result<
    ComposerJson,
    Error,
>)
    ensures
        if present && !args.force {
            r matches Err(Error::Other(t)) && t@ == path@
                + " already exists (use --force to overwrite)"@
        } else {
            r is Ok && r->Ok_0@ == new_manifest(
                text::opt_text(args.name),
                text::opt_text(args.description),
                args.stability@,
                text::opt_view(directory),
            )
        },
{
    if present && !args.force {
        return Err(
            Error::Other(text::cat(path, " already exists (use --force to overwrite)")),
        );
    }
    let name = match &args.name {
        Some(n) => String::from_str(n.as_str()),
        None => text::cat(
            "vendor/",
            match directory {
                Some(d) => d,
                None => "project",
            },
        ),
    };
    let description = match &args.description {
        Some(d) => String::from_str(d.as_str()),
        None => String::from_str(""),
    };
    let mut require: Vec<(String, String)> = Vec::new();
    require.push((String::from_str("php"), String::from_str(">=8.1")));
    let mut m = blank();
    m.name = Some(name);
    m.description = Some(description);
    m.package_type = Some(String::from_str("project"));
    m.require = StrMap { entries: require };
    m.minimum_stability = Some(String::from_str(args.stability.as_str()));
    m.prefer_stable = Some(true);
    assert(collections::link_pairs(m.require) =~= seq![("php"@, ">=8.1"@)]);
    Ok(m)
}

/// A new project has the name that is given, or that of its directory.
pub proof fn law_new_projects(
    name: Seq<char>,
    dir: Seq<char>,
    text: Option<Seq<char>>,
    stability: Seq<char>,
)
    ensures
        new_manifest(Some(name), text, stability, Some(dir)).name == Some(name),
        new_manifest(None, text, stability, Some(dir)).name == Some("vendor/"@ + dir),
        new_manifest(Some(name), text, stability, None).minimum_stability == Some(stability),
        new_manifest(Some(name), text, stability, None).prefer_stable == Some(true),
        new_manifest(Some(name), text, stability, None).package_type == Some("project"@),
        new_manifest(Some(name), text, stability, None).require == seq![("php"@, ">=8.1"@)],
        new_manifest(Some(name), text, stability, None).require_dev.len() == 0,
        text is Some ==> new_manifest(Some(name), text, stability, None).description == text,
{
}

} // verus!
