//! Scripts, projects and programs.

use crate::collections;
use crate::error::Error;
use crate::json;
use crate::json::Json;
use crate::manifest::ComposerJson;
use crate::paths;
use crate::text;
use vstd::prelude::*;

verus! {

/// What is asked of a script.
#[derive(Debug, Clone)]
pub struct RunScriptArgs {
    pub name: Option<String>,
    pub list: bool,
    /// What is passed to the script.
    pub args: Vec<String>,
    pub no_dev: bool,
}

/// What is asked of a program.
#[derive(Debug, Clone)]
pub struct ExecArgs {
    pub binary: String,
    pub args: Vec<String>,
}

/// What is asked of the project that serves all projects of a user.
#[derive(Debug, Clone)]
pub struct GlobalArgs {
    pub args: Vec<String>,
}

/// What is asked of a search.
#[derive(Debug, Clone)]
pub struct SearchArgs {
    pub query: Vec<String>,
    pub limit: usize,
}

/// What is asked of a new project.
#[derive(Debug, Clone)]
pub struct CreateProjectArgs {
    pub package: String,
    pub directory: Option<String>,
    pub version: Option<String>,
    pub no_install: bool,
    pub no_scripts: bool,
    pub ignore_platform_reqs: bool,
    pub concurrency: Option<usize>,
}

/// What is asked of a diagnosis: nothing in particular.
#[derive(Debug, Clone)]
pub struct DiagnoseArgs {}

/// What is asked of the cache.
#[derive(Debug, Clone, Copy, PartialEq, Eq, Structural)]
pub enum CacheCommands {
    Clear,
    Info,
    Dir,
    Repo,
    Prune { dry_run: bool },
}

// ---------------------------------------------------------------------------
// Scripts

/// The commands that the scripts of a project hold under a name: one text, or the
/// texts of a list.
pub open spec fn commands_of(scripts: Option<Seq<(Seq<char>, json::JsonView)>>, name: Seq<char>) -> Seq<
    Seq<char>,
> {
    match scripts {
        Some(m) => match collections::lookup(m, name) {
            Some(json::JsonView::Str(s)) => seq![s],
            Some(json::JsonView::Array(a)) => texts_in(a),
            _ => Seq::empty(),
        },
        None => Seq::empty(),
    }
}

/// The texts among the elements of a list.
pub open spec fn texts_in(a: Seq<json::JsonView>) -> Seq<Seq<char>>
    decreases a.len(),
{
    if a.len() == 0 {
        Seq::empty()
    } else {
        let rest = texts_in(a.drop_last());
        match a.last() {
            json::JsonView::Str(s) => rest.push(s),
            _ => rest,
        }
    }
}

fn list_texts(a: &Vec<Json>) -> (r: Vec<String>)
    ensures
        text::texts(r@) == texts_in(json::elements(a@)),
{
    let ghost all = json::elements(a@);
    let mut out: Vec<String> = Vec::new();
    let n: usize = a.len();
    let mut i: usize = 0;
    assert(text::texts(out@) =~= Seq::empty());
    while i < n
        invariant
            i <= n,
            n == a@.len(),
            all == json::elements(a@),
            text::texts(out@) == texts_in(all.take(i as int)),
        decreases n - i,
    {
        proof {
            assert(all.take(i + 1).drop_last() =~= all.take(i as int));
            assert(all.take(i + 1).last() == a@[i as int]@);
        }
        if let Json::Str(s) = &a[i] {
            let ghost before = text::texts(out@);
            out.push(String::from_str(s.as_str()));
            assert(text::texts(out@) =~= before.push(s@));
        }
        i += 1;
    }
    assert(all.take(n as int) =~= all);
    out
}

/// The commands that the scripts of a project hold under a name.
pub fn script_commands(manifest: &ComposerJson, name: &str) -> (r: Vec<String>)
    ensures
        text::texts(r@) == commands_of(manifest@.scripts, name@),
{
    let mut out: Vec<String> = Vec::new();
    assert(text::texts(out@) =~= Seq::empty());
    let m = match &manifest.scripts {
        Some(m) => m,
        None => return out,
    };
    proof {
        collections::lemma_with_values(m@, name@, arbitrary(), |j: Json| j@);
    }
    match m.get(name) {
        Some(Json::Str(s)) => {
            out.push(String::from_str(s.as_str()));
            assert(text::texts(out@) =~= seq![s@]);
            out
        },
        Some(Json::Array(a)) => {
            proof {
                json::lemma_array_view(*a);
            }
            list_texts(a)
        },
        _ => out,
    }
}

/// The names of the scripts of a project.
pub open spec fn names_of(scripts: Option<Seq<(Seq<char>, json::JsonView)>>) -> Seq<Seq<char>> {
    match scripts {
        Some(m) => m.map_values(|e: (Seq<char>, json::JsonView)| e.0),
        None => Seq::empty(),
    }
}

/// The names of the scripts of a project.
pub fn script_names(manifest: &ComposerJson) -> (r: Vec<String>)
    ensures
        text::texts(r@) == names_of(manifest@.scripts),
{
    let mut out: Vec<String> = Vec::new();
    if let Some(m) = &manifest.scripts {
        let n: usize = m.entries.len();
        let mut i: usize = 0;
        while i < n
            invariant
                i <= n,
                n == m.entries@.len(),
                out@.len() == i,
                forall|j: int| 0 <= j < i ==> (#[trigger] out@[j])@ == m.entries@[j].0@,
            decreases n - i,
        {
            out.push(String::from_str(m.entries[i].0.as_str()));
            i += 1;
        }
    }
    assert(text::texts(out@) =~= names_of(manifest@.scripts));
    out
}

// ---------------------------------------------------------------------------
// Programs

/// The directories in which programs are looked for: that of the binaries of the
/// project first, if it is there.
pub fn search_path(bin_dir: Option<&str>, path: Option<&str>, separator: &str) -> (r: String)
    ensures
        r@ == match (text::opt_view(bin_dir), text::opt_view(path)) {
            (Some(b), Some(p)) => b + separator@ + p,
            (Some(b), None) => b,
            (None, Some(p)) => p,
            (None, None) => ""@,
        },
{
    match (bin_dir, path) {
        (Some(b), Some(p)) => text::cat3(b, separator, p),
        (Some(b), None) => String::from_str(b),
        (None, Some(p)) => String::from_str(p),
        (None, None) => String::from_str(""),
    }
}

/// The program that is run: the binary of the project, if it is there.
pub fn program(bin_dir: &str, binary: &str, present: bool) -> (r: String)
    ensures
        r@ == if present {
            paths::joined_path(bin_dir@, binary@)
        } else {
            binary@
        },
{
    if present {
        paths::join_path(bin_dir, binary)
    } else {
        String::from_str(binary)
    }
}

// ---------------------------------------------------------------------------
// Projects

/// The `composer.json` of the project that serves all projects of a user, where
/// there is none yet.
pub open spec fn skeleton_value() -> json::JsonView {
    json::JsonView::Object(
        seq![
            ("require"@, json::JsonView::Object(Seq::empty())),
            (
                "config"@,
                json::JsonView::Object(seq![("sort-packages"@, json::JsonView::Bool(true))]),
            ),
        ],
    )
}

/// The `composer.json` of the project that serves all projects of a user, where
/// there is none yet.
pub fn global_skeleton() -> (r: Json)
    ensures
        r@ == skeleton_value(),
{
    let none: Vec<(String, Json)> = Vec::new();
    let mut config: Vec<(String, Json)> = Vec::new();
    config.push((String::from_str("sort-packages"), Json::Bool(true)));
    proof {
        json::lemma_object_view(none);
        json::lemma_object_view(config);
        assert(json::members(none@) =~= Seq::empty());
        assert(json::members(config@) =~= seq![("sort-packages"@, json::JsonView::Bool(true))]);
    }
    let mut m: Vec<(String, Json)> = Vec::new();
    m.push((String::from_str("require"), Json::Object(none)));
    m.push((String::from_str("config"), Json::Object(config)));
    proof {
        json::lemma_object_view(m);
        assert(json::members(m@) =~= skeleton_value()->Object_0);
    }
    Json::Object(m)
}

/// The directory of a new project: the one that is asked for, or the last part of
/// the name of its package.
pub fn project_dir(directory: Option<&str>, package: &str) -> (r: String)
    ensures
        r@ == match text::opt_view(directory) {
            Some(d) => d,
            None => paths::after_last_slash(package@),
        },
{
    match directory {
        Some(d) => String::from_str(d),
        None => String::from_str(paths::last_part(package)),
    }
}

/// What is said of a package without an archive.
pub fn no_archive(package: &str) -> (r: Error)
    ensures
        r matches Error::Other(t) && t@ == "package "@ + package@
            + " has no dist URL; create-project requires a downloadable archive"@,
{
    Error::Other(
        text::cat3(
            "package ",
            package,
            " has no dist URL; create-project requires a downloadable archive",
        ),
    )
}

/// The commands of a script are its text, or the texts of its list in their order.
pub proof fn law_commands_of_script(
    m: Seq<(Seq<char>, json::JsonView)>,
    name: Seq<char>,
    a: Seq<json::JsonView>,
    b: Seq<json::JsonView>,
    s: Seq<char>,
)
    ensures
        collections::lookup(m, name) == Some(json::JsonView::Str(s)) ==> commands_of(Some(m), name)
            == seq![s],
        collections::lookup(m, name) == Some(json::JsonView::Array(seq![json::JsonView::Str(s)]))
            ==> commands_of(Some(m), name) == seq![s],
        collections::lookup(m, name) is None ==> commands_of(Some(m), name).len() == 0,
        commands_of(None, name).len() == 0,
        texts_in(a + b) == texts_in(a) + texts_in(b),
    decreases b.len(),
{
    let one = seq![json::JsonView::Str(s)];
    assert(one.drop_last() =~= Seq::empty());
    assert(one.last() == json::JsonView::Str(s));
    assert(texts_in(one.drop_last()) =~= Seq::empty());
    assert(texts_in(one) =~= seq![s]);
    if b.len() > 0 {
        assert((a + b).drop_last() =~= a + b.drop_last());
        assert((a + b).last() == b.last());
        law_commands_of_script(m, name, a, b.drop_last(), s);
        assert(texts_in(a + b) =~= texts_in(a) + texts_in(b));
    } else {
        assert(a + b =~= a);
        assert(texts_in(a) + texts_in(b) =~= texts_in(a));
    }
}

} // verus!
