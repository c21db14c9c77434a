//! Checking a `composer.json` and its lock file.

use crate::collections;
use crate::collections::StrMap;
use crate::commands;
use crate::commands::Message;
use crate::commands::Tone;
use crate::error::Error;
use crate::json;
use crate::lock;
use crate::lock::ComposerLock;
use crate::manifest;
use crate::manifest::ComposerJson;
use crate::package;
use crate::package::PackageId;
use crate::text;
use vstd::prelude::*;

verus! {

/// What is asked of a check.
#[derive(Debug, Clone)]
pub struct ValidateArgs {
    pub no_check_lock: bool,
    /// Warnings are errors.
    pub strict: bool,
}

/// Messages with their tones.
pub type Said = Seq<(Tone, Seq<char>)>;

/// What there is to say of a name.
pub open spec fn name_warnings(name: Option<Seq<char>>) -> Said {
    match name {
        Some(n) => if text::occurs(n, "/"@) {
            Seq::empty()
        } else {
            seq![(Tone::Warning, "name '"@ + n + "' should be vendor/package"@)]
        },
        None => seq![(Tone::Warning, "name is missing"@)],
    }
}

/// What there is to say of a requirement.
pub open spec fn link_warnings(what: Seq<char>, req: (Seq<char>, Seq<char>)) -> Said {
    let bad_name: Said = if package::is_package_name(req.0) {
        Seq::empty()
    } else {
        seq![(Tone::Warning, what + ": invalid package name `"@ + req.0 + "`"@)]
    };
    let bad_constraint: Said = if text::trimmed(req.1).len() == 0 {
        seq![(Tone::Warning, what + "."@ + req.0 + ": empty version constraint"@)]
    } else {
        Seq::empty()
    };
    bad_name + bad_constraint
}

/// What there is to say of requirements.
pub open spec fn links_warnings(what: Seq<char>, reqs: Seq<(Seq<char>, Seq<char>)>) -> Said
    decreases reqs.len(),
{
    if reqs.len() == 0 {
        Seq::empty()
    } else {
        links_warnings(what, reqs.drop_last()) + link_warnings(what, reqs.last())
    }
}

/// What there is to say of repositories.
pub open spec fn repository_warnings(repos: Option<json::JsonView>) -> Said {
    match repos {
        Some(r) => if r is Array || r is Object {
            Seq::empty()
        } else {
            seq![(Tone::Warning, "repositories must be an array or object"@)]
        },
        None => Seq::empty(),
    }
}

/// What there is to say of a `composer.json`.
pub open spec fn manifest_warnings(m: manifest::ManifestView) -> Said {
    name_warnings(m.name) + links_warnings("require"@, m.require) + links_warnings(
        "require-dev"@,
        m.require_dev,
    ) + repository_warnings(m.repositories)
}

/// What there is to say of a lock file.
pub open spec fn lock_messages(l: lock::LockView, expected: Seq<char>) -> Said {
    let first = (Tone::Success, "composer.lock is valid JSON"@);
    let second = if l.content_hash.len() == 0 {
        (Tone::Warning, "composer.lock is missing content-hash"@)
    } else if l.content_hash != expected {
        (
            Tone::Warning,
            "content-hash mismatch: lock has "@ + l.content_hash + " but composer.json computes "@
                + expected,
        )
    } else {
        (Tone::Success, "content-hash matches composer.json"@)
    };
    seq![first, second]
}

/// All that there is to say.
pub open spec fn all_messages(
    no_check_lock: bool,
    m: manifest::ManifestView,
    l: Option<lock::LockView>,
    expected: Seq<char>,
) -> Said {
    manifest_warnings(m).push((Tone::Success, "composer.json is valid"@)) + match l {
        Some(x) => if no_check_lock {
            Seq::empty()
        } else {
            lock_messages(x, expected)
        },
        None => Seq::empty(),
    }
}

/// The number of warnings.
pub open spec fn warnings_in(s: Said) -> nat
    decreases s.len(),
{
    if s.len() == 0 {
        0
    } else {
        warnings_in(s.drop_last()) + if s.last().0 == Tone::Warning {
            1nat
        } else {
            0
        }
    }
}

fn push_link_warnings(out: &mut Vec<Message>, what: &str, reqs: &StrMap<String>)
    ensures
        commands::said(final(out)@) == commands::said(old(out)@) + links_warnings(
            what@,
            collections::link_pairs(*reqs),
        ),
{
    let ghost start = commands::said(out@);
    let ghost all = collections::link_pairs(*reqs);
    let n: usize = reqs.entries.len();
    let mut i: usize = 0;
    assert(start + Seq::<(Tone, Seq<char>)>::empty() =~= start);
    while i < n
        invariant
            i <= n,
            n == reqs.entries@.len(),
            all == collections::link_pairs(*reqs),
            commands::said(out@) == start + links_warnings(what@, all.take(i as int)),
        decreases n - i,
    {
        let name = reqs.entries[i].0.as_str();
        let c = reqs.entries[i].1.as_str();
        let ghost before = links_warnings(what@, all.take(i as int));
        let ghost own = link_warnings(what@, (name@, c@));
        proof {
            assert(all.take(i + 1).drop_last() =~= all.take(i as int));
            assert(all.take(i + 1).last() == (name@, c@));
        }
        if PackageId::parse(name).is_err() {
            let head = text::cat(what, ": invalid package name `");
            let line = text::cat3(head.as_str(), name, "`");
            commands::say(out, Tone::Warning, line);
        }
        if text::trim(c).unicode_len() == 0 {
            let head = text::cat3(what, ".", name);
            let line = text::cat(head.as_str(), ": empty version constraint");
            commands::say(out, Tone::Warning, line);
        }
        assert(commands::said(out@) =~= start + (before + own));
        i += 1;
    }
    assert(all.take(n as int) =~= all);
}

fn count_warnings(out: &Vec<Message>) -> (r: usize)
    ensures
        r == warnings_in(commands::said(out@)),
{
    let ghost all = commands::said(out@);
    let n: usize = out.len();
    let mut i: usize = 0;
    let mut count: usize = 0;
    while i < n
        invariant
            i <= n,
            n == out@.len(),
            all == commands::said(out@),
            count <= i,
            count == warnings_in(all.take(i as int)),
        decreases n - i,
    {
        proof {
            assert(all.take(i + 1).drop_last() =~= all.take(i as int));
            assert(all.take(i + 1).last() == out@[i as int]@);
        }
        if out[i].tone == Tone::Warning {
            count += 1;
        }
        i += 1;
    }
    assert(all.take(n as int) =~= all);
    count
}

/// Checks a `composer.json` and its lock file, if there is one. `expected` is the
/// content hash of the `composer.json`.
pub fn run(
    args: &ValidateArgs,
    manifest: &ComposerJson,
    lock: Option<&ComposerLock>,
    expected: &str,
) -> (r: (Vec<Message>, Result<(), Error>))
    ensures
        commands::said(r.0@) == all_messages(
            args.no_check_lock,
            manifest@,
            match lock {
                Some(l) => Some(l@),
                None => None,
            },
            expected@,
        ),
        if args.strict && warnings_in(commands::said(r.0@)) > 0 {
            r.1 matches Err(Error::Other(t)) && t@ == text::decimal(
                warnings_in(commands::said(r.0@)),
            ) + " warning(s) treated as errors (--strict)"@
        } else {
            r.1 is Ok
        },
{
    let mut out: Vec<Message> = Vec::new();
    assert(commands::said(out@) =~= Seq::empty());
    match &manifest.name {
        Some(n) => {
            if !text::contains(n.as_str(), "/") {
                commands::say(
                    &mut out,
                    Tone::Warning,
                    text::cat3("name '", n.as_str(), "' should be vendor/package"),
                );
            }
        },
        None => {
            commands::say(&mut out, Tone::Warning, String::from_str("name is missing"));
        },
    }
    assert(commands::said(out@) =~= name_warnings(manifest@.name));
    push_link_warnings(&mut out, "require", &manifest.require);
    push_link_warnings(&mut out, "require-dev", &manifest.require_dev);
    if let Some(repos) = &manifest.repositories {
        if !repos.is_array() && !repos.is_object() {
            commands::say(
                &mut out,
                Tone::Warning,
                String::from_str("repositories must be an array or object"),
            );
        }
    }
    assert(commands::said(out@) =~= manifest_warnings(manifest@));
    commands::say(&mut out, Tone::Success, String::from_str("composer.json is valid"));
    if !args.no_check_lock {
        if let Some(l) = lock {
            commands::say(&mut out, Tone::Success, String::from_str("composer.lock is valid JSON"));
            if l.content_hash.as_str().unicode_len() == 0 {
                commands::say(
                    &mut out,
                    Tone::Warning,
                    String::from_str("composer.lock is missing content-hash"),
                );
            } else if !text::same(l.content_hash.as_str(), expected) {
                let head = text::cat("content-hash mismatch: lock has ", l.content_hash.as_str());
                let line = text::cat3(head.as_str(), " but composer.json computes ", expected);
                commands::say(&mut out, Tone::Warning, line);
            } else {
                commands::say(
                    &mut out,
                    Tone::Success,
                    String::from_str("content-hash matches composer.json"),
                );
            }
        }
    }
    assert(commands::said(out@) =~= all_messages(
        args.no_check_lock,
        manifest@,
        match lock {
            Some(l) => Some(l@),
            None => None,
        },
        expected@,
    ));
    let count: usize = count_warnings(&out);
    if args.strict && count > 0 {
        let e = text::cat(
            text::usize_text(count).as_str(),
            " warning(s) treated as errors (--strict)",
        );
        return (out, Err(Error::Other(e)));
    }
    (out, Ok(()))
}

/// A requirement that a `composer.json` may have: a valid name and a constraint
/// that is not empty.
pub open spec fn is_sound(req: (Seq<char>, Seq<char>)) -> bool {
    package::is_package_name(req.0) && text::trimmed(req.1).len() > 0
}

proof fn lemma_links_sound(what: Seq<char>, reqs: Seq<(Seq<char>, Seq<char>)>)
    ensures
        links_warnings(what, reqs).len() == 0 <==> forall|i: int|
            0 <= i < reqs.len() ==> is_sound(#[trigger] reqs[i]),
        forall|i: int|
            0 <= i < links_warnings(what, reqs).len() ==> (#[trigger] links_warnings(what, reqs)[i]).0
                == Tone::Warning,
    decreases reqs.len(),
{
    if reqs.len() > 0 {
        let front = reqs.drop_last();
        lemma_links_sound(what, front);
        assert(reqs[reqs.len() - 1] == reqs.last());
        assert forall|i: int| 0 <= i < front.len() implies #[trigger] front[i] == reqs[i] by {}
        if links_warnings(what, reqs).len() == 0 {
            assert forall|i: int| 0 <= i < reqs.len() implies is_sound(#[trigger] reqs[i]) by {
                if i < front.len() {
                    assert(is_sound(front[i]));
                }
            }
        }
        if forall|i: int| 0 <= i < reqs.len() ==> is_sound(#[trigger] reqs[i]) {
            assert forall|i: int| 0 <= i < front.len() implies is_sound(#[trigger] front[i]) by {
                assert(is_sound(reqs[i]));
            }
            assert(is_sound(reqs[reqs.len() - 1]));
        }
        let a = links_warnings(what, front);
        let b = link_warnings(what, reqs.last());
        assert forall|i: int| 0 <= i < (a + b).len() implies (#[trigger] (a + b)[i]).0
            == Tone::Warning by {
            if i < a.len() {
                assert((a + b)[i] == a[i]);
            } else {
                assert((a + b)[i] == b[i - a.len()]);
            }
        }
    }
}

/// A `composer.json` is warned of if and only if its name is missing or has no
/// vendor, a requirement has an invalid name or no constraint, or its repositories
/// are neither a list nor an object.
pub proof fn law_what_is_warned_of(m: manifest::ManifestView)
    ensures
        manifest_warnings(m).len() == 0 <==> {
            &&& m.name matches Some(n) && text::occurs(n, "/"@)
            &&& forall|i: int| 0 <= i < m.require.len() ==> is_sound(#[trigger] m.require[i])
            &&& forall|i: int| 0 <= i < m.require_dev.len() ==> is_sound(#[trigger] m.require_dev[i])
            &&& m.repositories matches Some(r) ==> r is Array || r is Object
        },
{
    lemma_links_sound("require"@, m.require);
    lemma_links_sound("require-dev"@, m.require_dev);
}

/// A lock file is warned of if and only if it has not the content hash of the
/// `composer.json`.
pub proof fn law_stale_locks_are_warned_of(l: lock::LockView, expected: Seq<char>)
    requires
        expected.len() > 0,
    ensures
        warnings_in(lock_messages(l, expected)) > 0 <==> l.content_hash != expected,
{
    let s = lock_messages(l, expected);
    assert(s.drop_last() =~= seq![s[0]]);
    assert(s.drop_last().drop_last() =~= Seq::<(Tone, Seq<char>)>::empty());
    assert(warnings_in(s.drop_last().drop_last()) == 0);
    assert(warnings_in(s.drop_last()) == 0);
}

} // verus!
