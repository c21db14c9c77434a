//! The `repositories` of a `composer.json`.

use crate::collections::StrMap;
use crate::json;
use crate::json::Json;
use crate::package::AutoloadConfig;
use crate::paths;
use crate::text;
use vstd::prelude::*;

verus! {

/// Where packages come from.
#[derive(Debug)]
pub enum Repository {
    /// A repository that speaks the protocol of Packagist.
    Composer { url: String },
    /// A package in a local directory.
    Path { url: String, symlink: bool },
    /// A package under version control.
    Vcs { url: String },
    /// Packages that are written out.
    Package { packages: Vec<Json> },
}

/// What a repository consists of.
pub enum RepositoryView {
    Composer(Seq<char>),
    Path(Seq<char>, bool),
    Vcs(Seq<char>),
    Package(Seq<json::JsonView>),
}

impl View for Repository {
    type V = RepositoryView;

    open spec fn view(&self) -> RepositoryView {
        match self {
            Repository::Composer { url } => RepositoryView::Composer(url@),
            Repository::Path { url, symlink } => RepositoryView::Path(url@, *symlink),
            Repository::Vcs { url } => RepositoryView::Vcs(url@),
            Repository::Package { packages } => RepositoryView::Package(json::elements(packages@)),
        }
    }
}

/// What a list of repositories consists of.
pub open spec fn repository_views(v: Seq<Repository>) -> Seq<RepositoryView> {
    v.map_values(|r: Repository| r@)
}

/// The types that stand for version control.
pub open spec fn is_vcs_type(t: Seq<char>) -> bool {
    t == "vcs"@ || t == "git"@ || t == "github"@ || t == "gitlab"@ || t == "bitbucket"@
}

/// Whether a path repository is linked: what `options.symlink` says, else yes.
pub open spec fn symlink_of(j: json::JsonView) -> bool {
    match json::get_of(j, "options"@) {
        Some(o) => match json::get_of(o, "symlink"@) {
            Some(json::JsonView::Bool(b)) => b,
            _ => true,
        },
        None => true,
    }
}

/// The repository that a JSON object describes.
pub open spec fn repository_of(j: json::JsonView) -> Option<RepositoryView> {
    match json::text_at(j, "type"@) {
        None => None,
        Some(t) => if t == "composer"@ {
            match json::text_at(j, "url"@) {
                Some(u) => Some(RepositoryView::Composer(u)),
                None => None,
            }
        } else if t == "path"@ {
            match json::text_at(j, "url"@) {
                Some(u) => Some(RepositoryView::Path(u, symlink_of(j))),
                None => None,
            }
        } else if is_vcs_type(t) {
            match json::text_at(j, "url"@) {
                Some(u) => Some(RepositoryView::Vcs(u)),
                None => None,
            }
        } else if t == "package"@ {
            match json::get_of(j, "package"@) {
                Some(json::JsonView::Array(a)) => Some(RepositoryView::Package(a)),
                Some(p) => Some(RepositoryView::Package(seq![p])),
                None => None,
            }
        } else {
            None
        },
    }
}

fn read_symlink(value: &Json) -> (r: bool)
    ensures
        r == symlink_of(value@),
{
    match value.get("options") {
        Some(o) => match o.get("symlink") {
            Some(v) => match v.as_bool() {
                Some(b) => b,
                None => true,
            },
            None => true,
        },
        None => true,
    }
}

/// The repository that a JSON object describes.
pub fn parse_one(value: &Json) -> (r: Option<Repository>)
    ensures
        match r {
            Some(repo) => repository_of(value@) == Some(repo@),
            None => repository_of(value@) is None,
        },
{
    let ty = match json::get_str(value, "type") {
        Some(t) => t,
        None => {
            return None;
        },
    };
    if text::same(ty, "composer") {
        match json::get_str(value, "url") {
            Some(u) => Some(Repository::Composer { url: String::from_str(u) }),
            None => None,
        }
    } else if text::same(ty, "path") {
        match json::get_str(value, "url") {
            Some(u) => Some(
                Repository::Path { url: String::from_str(u), symlink: read_symlink(value) },
            ),
            None => None,
        }
    } else if text::same(ty, "vcs") || text::same(ty, "git") || text::same(ty, "github")
        || text::same(ty, "gitlab") || text::same(ty, "bitbucket") {
        match json::get_str(value, "url") {
            Some(u) => Some(Repository::Vcs { url: String::from_str(u) }),
            None => None,
        }
    } else if text::same(ty, "package") {
        match value.get("package") {
            Some(p) => {
                let copy = p.copy();
                match copy {
                    Json::Array(a) => {
                        proof {
                            json::lemma_array_view(a);
                        }
                        Some(Repository::Package { packages: a })
                    },
                    other => {
                        let mut one: Vec<Json> = Vec::new();
                        one.push(other);
                        assert(json::elements(one@) =~= seq![p@]);
                        Some(Repository::Package { packages: one })
                    },
                }
            },
            None => None,
        }
    } else {
        None
    }
}

/// The repositories in a list.
pub open spec fn listed(a: Seq<json::JsonView>) -> Seq<RepositoryView>
    decreases a.len(),
{
    if a.len() == 0 {
        Seq::empty()
    } else {
        let rest = listed(a.drop_last());
        match repository_of(a.last()) {
            Some(r) => rest.push(r),
            None => rest,
        }
    }
}

/// The names under which Packagist itself stands.
pub open spec fn is_packagist_name(k: Seq<char>) -> bool {
    k == "packagist.org"@ || k == "packagist"@
}

/// The repository of a named entry. `false` switches the entry off, a text is
/// the URL of a repository, and Packagist itself is not listed.
pub open spec fn named_repository(k: Seq<char>, j: json::JsonView) -> Option<RepositoryView> {
    if j == json::JsonView::Bool(false) {
        None
    } else {
        match repository_of(j) {
            Some(r) => if is_packagist_name(k) {
                None
            } else {
                Some(r)
            },
            None => match j {
                json::JsonView::Str(u) => Some(RepositoryView::Composer(u)),
                _ => None,
            },
        }
    }
}

/// The repositories in an object.
pub open spec fn named(m: Seq<(Seq<char>, json::JsonView)>) -> Seq<RepositoryView>
    decreases m.len(),
{
    if m.len() == 0 {
        Seq::empty()
    } else {
        let rest = named(m.drop_last());
        match named_repository(m.last().0, m.last().1) {
            Some(r) => rest.push(r),
            None => rest,
        }
    }
}

/// The repositories of a `composer.json`.
pub open spec fn repositories_of(v: Option<json::JsonView>) -> Seq<RepositoryView> {
    match v {
        Some(json::JsonView::Array(a)) => listed(a),
        Some(json::JsonView::Object(m)) => named(m),
        _ => Seq::empty(),
    }
}

fn parse_named(k: &str, j: &Json) -> (r: Option<Repository>)
    ensures
        match r {
            Some(repo) => named_repository(k@, j@) == Some(repo@),
            None => named_repository(k@, j@) is None,
        },
{
    if let Some(b) = j.as_bool() {
        if !b {
            return None;
        }
    }
    match parse_one(j) {
        Some(repo) => if text::same(k, "packagist.org") || text::same(k, "packagist") {
            None
        } else {
            Some(repo)
        },
        None => match j.as_str() {
            Some(u) => Some(Repository::Composer { url: String::from_str(u) }),
            None => None,
        },
    }
}

/// The repositories of a `composer.json`, given as a list or by name.
pub fn parse_repositories(value: Option<&Json>) -> (r: Vec<Repository>)
    ensures
        repository_views(r@) == repositories_of(
            match value {
                Some(v) => Some(v@),
                None => None,
            },
        ),
{
    let mut out: Vec<Repository> = Vec::new();
    assert(repository_views(out@) =~= Seq::empty());
    match value {
        Some(Json::Array(a)) => {
            proof {
                json::lemma_array_view(*a);
            }
            let ghost all = json::elements(a@);
            let n: usize = a.len();
            let mut i: usize = 0;
            while i < n
                invariant
                    i <= n,
                    n == a@.len(),
                    all == json::elements(a@),
                    repository_views(out@) == listed(all.take(i as int)),
                decreases n - i,
            {
                proof {
                    assert(all.take(i + 1).drop_last() =~= all.take(i as int));
                    assert(all.take(i + 1).last() == a@[i as int]@);
                }
                if let Some(repo) = parse_one(&a[i]) {
                    let ghost before = out@;
                    out.push(repo);
                    assert(repository_views(out@) =~= repository_views(before).push(repo@));
                }
                i += 1;
            }
            assert(all.take(n as int) =~= all);
        },
        Some(Json::Object(m)) => {
            proof {
                json::lemma_object_view(*m);
            }
            let ghost all = json::members(m@);
            let n: usize = m.len();
            let mut i: usize = 0;
            while i < n
                invariant
                    i <= n,
                    n == m@.len(),
                    all == json::members(m@),
                    repository_views(out@) == named(all.take(i as int)),
                decreases n - i,
            {
                proof {
                    assert(all.take(i + 1).drop_last() =~= all.take(i as int));
                    assert(all.take(i + 1).last() == (m@[i as int].0@, m@[i as int].1@));
                }
                if let Some(repo) = parse_named(m[i].0.as_str(), &m[i].1) {
                    let ghost before = out@;
                    out.push(repo);
                    assert(repository_views(out@) =~= repository_views(before).push(repo@));
                }
                i += 1;
            }
            assert(all.take(n as int) =~= all);
        },
        _ => {},
    }
    out
}

/// The directory of a path repository, which may be given relative to the
/// project.
pub fn resolve_path_url(project_root: &str, url: &str) -> (r: String)
    ensures
        r@ == paths::joined_path(project_root@, url@),
{
    paths::join_path(project_root, url)
}

/// What is read of the `composer.json` of a local package.
#[derive(Debug)]
pub struct PathPackageManifest {
    pub name: String,
    pub version: Option<String>,
    pub package_type: Option<String>,
    pub require: StrMap<String>,
    pub autoload: Option<AutoloadConfig>,
    pub description: Option<String>,
    pub bin: Vec<String>,
    pub provide: StrMap<String>,
    pub replace: StrMap<String>,
    pub conflict: StrMap<String>,
}

// ---------------------------------------------------------------------------
// Laws

/// What each type of repository is read as.
pub proof fn law_types_of_repositories(j: json::JsonView, t: Seq<char>, u: Seq<char>)
    requires
        j is Object,
        json::get_of(j, "type"@) == Some(json::JsonView::Str(t)),
    ensures
        json::get_of(j, "url"@) == Some(json::JsonView::Str(u)) ==> {
            &&& t == "composer"@ ==> repository_of(j) == Some(RepositoryView::Composer(u))
            &&& t == "vcs"@ || t == "git"@ || t == "github"@ || t == "gitlab"@ || t == "bitbucket"@
                ==> repository_of(j) == Some(RepositoryView::Vcs(u))
            &&& t == "path"@ ==> (repository_of(j) matches Some(RepositoryView::Path(p, link)) && p
                == u && link == (match json::get_of(j, "options"@) {
                Some(o) => json::get_of(o, "symlink"@) != Some(json::JsonView::Bool(false)),
                None => true,
            }))
        },
        json::get_of(j, "url"@) is None && t != "package"@ ==> repository_of(j) is None,
        t == "package"@ ==> match json::get_of(j, "package"@) {
            Some(json::JsonView::Array(a)) => repository_of(j) == Some(RepositoryView::Package(a)),
            Some(p) => repository_of(j) == Some(RepositoryView::Package(seq![p])),
            None => repository_of(j) is None,
        },
        !(t == "composer"@ || t == "path"@ || t == "package"@ || t == "vcs"@ || t == "git"@ || t
            == "github"@ || t == "gitlab"@ || t == "bitbucket"@) ==> repository_of(j) is None,
{
    reveal_strlit("composer");
    reveal_strlit("path");
    reveal_strlit("package");
    reveal_strlit("vcs");
    reveal_strlit("git");
    reveal_strlit("github");
    reveal_strlit("gitlab");
    reveal_strlit("bitbucket");
    assert("composer"@[0] == 'c' && "path"@[0] == 'p' && "package"@[0] == 'p' && "vcs"@[0] == 'v'
        && "git"@[0] == 'g' && "github"@[0] == 'g' && "gitlab"@[0] == 'g' && "bitbucket"@[0]
        == 'b');
    assert("path"@.len() == 4 && "package"@.len() == 7);
}

/// Repositories keep their order: those of two lists, one behind the other, are
/// those of the first and then those of the second.
pub proof fn law_repositories_in_order(
    a: Seq<json::JsonView>,
    b: Seq<json::JsonView>,
    m: Seq<(Seq<char>, json::JsonView)>,
    n: Seq<(Seq<char>, json::JsonView)>,
)
    ensures
        repositories_of(Some(json::JsonView::Array(a + b))) == repositories_of(
            Some(json::JsonView::Array(a)),
        ) + repositories_of(Some(json::JsonView::Array(b))),
        repositories_of(Some(json::JsonView::Object(m + n))) == repositories_of(
            Some(json::JsonView::Object(m)),
        ) + repositories_of(Some(json::JsonView::Object(n))),
    decreases b.len() + n.len(),
{
    if b.len() > 0 {
        assert((a + b).drop_last() =~= a + b.drop_last());
        assert((a + b).last() == b.last());
        law_repositories_in_order(a, b.drop_last(), m, n);
    } else {
        assert(a + b =~= a);
        if n.len() > 0 {
            assert((m + n).drop_last() =~= m + n.drop_last());
            assert((m + n).last() == n.last());
            law_repositories_in_order(a, b, m, n.drop_last());
        } else {
            assert(m + n =~= m);
        }
    }
    if b.len() > 0 && n.len() > 0 {
        assert((m + n).drop_last() =~= m + n.drop_last());
        assert((m + n).last() == n.last());
        law_repositories_in_order(a, b, m, n.drop_last());
    }
}

/// A single repository is read if it is one. Under a name, `false` is none, a text
/// is the address of a repository, and Packagist itself is left out.
pub proof fn law_single_repository(j: json::JsonView, k: Seq<char>, u: Seq<char>)
    ensures
        repositories_of(Some(json::JsonView::Array(seq![j]))) == (match repository_of(j) {
            Some(r) => seq![r],
            None => Seq::empty(),
        }),
        repositories_of(
            Some(json::JsonView::Object(seq![(k, json::JsonView::Bool(false))])),
        ).len() == 0,
        repositories_of(Some(json::JsonView::Object(seq![(k, json::JsonView::Str(u))])))
            == seq![RepositoryView::Composer(u)],
        j is Object ==> repositories_of(Some(json::JsonView::Object(seq![(k, j)]))) == (
        match repository_of(j) {
            Some(r) => if k == "packagist"@ || k == "packagist.org"@ {
                Seq::empty()
            } else {
                seq![r]
            },
            None => Seq::empty(),
        }),
{
    let one = seq![j];
    assert(one.drop_last() =~= Seq::empty());
    assert(one.last() == j);
    assert(listed(one.drop_last()) =~= Seq::empty());
    assert(Seq::<RepositoryView>::empty().push(repository_of(j)->0) =~= seq![repository_of(j)->0]);
    lemma_one_named(k, json::JsonView::Bool(false));
    lemma_one_named(k, json::JsonView::Str(u));
    lemma_one_named(k, j);
}

proof fn lemma_one_named(k: Seq<char>, j: json::JsonView)
    ensures
        named(seq![(k, j)]) == (match named_repository(k, j) {
            Some(r) => seq![r],
            None => Seq::empty(),
        }),
{
    let one = seq![(k, j)];
    assert(one.drop_last() =~= Seq::empty());
    assert(one.last() == (k, j));
    assert(named(one.drop_last()) =~= Seq::empty());
}

} // verus!
