//! Removing requirements from a project.

use crate::collections;
use crate::error::Error;
use crate::manifest;
use crate::manifest::ComposerJson;
use crate::text;
use vstd::prelude::*;

verus! {

/// What is asked of a removal.
#[derive(Debug, Clone)]
pub struct RemoveArgs {
    pub packages: Vec<String>,
    pub no_update: bool,
    pub dry_run: bool,
}

/// Requirements without some packages.
pub open spec fn without_all(
    reqs: Seq<(Seq<char>, Seq<char>)>,
    names: Seq<Seq<char>>,
) -> Seq<(Seq<char>, Seq<char>)>
    decreases names.len(),
{
    if names.len() == 0 {
        reqs
    } else {
        collections::removed(without_all(reqs, names.drop_last()), names.last())
    }
}

/// The number of requirements that are removed.
pub open spec fn removals(reqs: Seq<(Seq<char>, Seq<char>)>, names: Seq<Seq<char>>) -> nat
    decreases names.len(),
{
    if names.len() == 0 {
        0
    } else {
        removals(reqs, names.drop_last()) + if collections::lookup(
            without_all(reqs, names.drop_last()),
            names.last(),
        ) is Some {
            1nat
        } else {
            0
        }
    }
}

/// Removes packages from the requirements of a project.
pub fn run(packages: &Vec<String>, manifest: &mut ComposerJson) -> (r: Result<(), Error>)
    ensures
        final(manifest)@ == (manifest::ManifestView {
            require: without_all(old(manifest)@.require, text::texts(packages@)),
            require_dev: without_all(old(manifest)@.require_dev, text::texts(packages@)),
            ..old(manifest)@
        }),
        if packages@.len() == 0 {
            r matches Err(Error::Other(t)) && t@ == "specify package name(s) to remove"@
        } else if removals(old(manifest)@.require, text::texts(packages@)) + removals(
            old(manifest)@.require_dev,
            text::texts(packages@),
        ) == 0 {
            r matches Err(Error::Other(t)) && t@ == "no matching packages in composer.json"@
        } else {
            r is Ok
        },
{
    let ghost before = manifest@;
    let ghost all = text::texts(packages@);
    let n: usize = packages.len();
    if n == 0 {
        assert(all =~= Seq::empty());
        return Err(Error::Other(String::from_str("specify package name(s) to remove")));
    }
    let mut any = false;
    let mut i: usize = 0;
    assert(all.take(0) =~= Seq::empty());
    while i < n
        invariant
            i <= n,
            n == packages@.len(),
            all == text::texts(packages@),
            manifest@ == (manifest::ManifestView {
                require: without_all(before.require, all.take(i as int)),
                require_dev: without_all(before.require_dev, all.take(i as int)),
                ..before
            }),
            any == (removals(before.require, all.take(i as int)) + removals(
                before.require_dev,
                all.take(i as int),
            ) > 0),
        decreases n - i,
    {
        let name = packages[i].as_str();
        proof {
            assert(all.take(i + 1).drop_last() =~= all.take(i as int));
            assert(all.take(i + 1).last() == name@);
            collections::lemma_with_values(
                manifest.require@,
                name@,
                arbitrary(),
                |s: String| s@,
            );
            collections::lemma_with_values(
                manifest.require_dev@,
                name@,
                arbitrary(),
                |s: String| s@,
            );
        }
        if manifest.require.remove(name) {
            any = true;
        }
        if manifest.require_dev.remove(name) {
            any = true;
        }
        i += 1;
    }
    assert(all.take(n as int) =~= all);
    if any {
        Ok(())
    } else {
        Err(Error::Other(String::from_str("no matching packages in composer.json")))
    }
}

/// What was removed is required no more.
pub proof fn law_removed_is_gone(
    reqs: Seq<(Seq<char>, Seq<char>)>,
    names: Seq<Seq<char>>,
    x: Seq<char>,
)
    requires
        names.contains(x),
    ensures
        collections::lookup(without_all(reqs, names), x) is None,
    decreases names.len(),
{
    let rest = without_all(reqs, names.drop_last());
    collections::law_lookup_removed(rest, names.last(), x);
    if names.last() != x {
        let i = choose|i: int| 0 <= i < names.len() && names[i] == x;
        assert(names.drop_last()[i] == x);
        law_removed_is_gone(reqs, names.drop_last(), x);
    }
}

/// Requirements on packages that are not named stay as they are.
pub proof fn law_others_stay(
    reqs: Seq<(Seq<char>, Seq<char>)>,
    names: Seq<Seq<char>>,
    x: Seq<char>,
)
    requires
        !names.contains(x),
    ensures
        collections::lookup(without_all(reqs, names), x) == collections::lookup(reqs, x),
    decreases names.len(),
{
    if names.len() > 0 {
        assert(names[names.len() - 1] == names.last());
        assert(!names.drop_last().contains(x)) by {
            if names.drop_last().contains(x) {
                let i = choose|i: int|
                    0 <= i < names.drop_last().len() && names.drop_last()[i] == x;
                assert(names[i] == x);
            }
        }
        law_others_stay(reqs, names.drop_last(), x);
        collections::law_lookup_removed(without_all(reqs, names.drop_last()), names.last(), x);
    }
}

/// Nothing is removed if and only if none of the named packages is required.
pub proof fn law_removals_are_counted(reqs: Seq<(Seq<char>, Seq<char>)>, names: Seq<Seq<char>>)
    ensures
        removals(reqs, names) == 0 <==> forall|i: int|
            0 <= i < names.len() ==> collections::lookup(reqs, #[trigger] names[i]) is None,
    decreases names.len(),
{
    if names.len() > 0 {
        let front = names.drop_last();
        law_removals_are_counted(reqs, front);
        assert(names[names.len() - 1] == names.last());
        if front.contains(names.last()) {
            law_removed_is_gone(reqs, front, names.last());
            let i = choose|i: int| 0 <= i < front.len() && front[i] == names.last();
            assert(names[i] == front[i]);
            if removals(reqs, front) == 0 {
                assert(collections::lookup(reqs, front[i]) is None);
            }
        } else {
            law_others_stay(reqs, front, names.last());
        }
        if removals(reqs, names) == 0 {
            assert forall|i: int| 0 <= i < names.len() implies collections::lookup(
                reqs,
                #[trigger] names[i],
            ) is None by {
                if i < front.len() {
                    assert(front[i] == names[i]);
                }
            }
        }
        if forall|i: int|
            0 <= i < names.len() ==> collections::lookup(reqs, #[trigger] names[i]) is None {
            assert forall|i: int| 0 <= i < front.len() implies collections::lookup(
                reqs,
                #[trigger] front[i],
            ) is None by {
                assert(front[i] == names[i]);
            }
            assert(collections::lookup(reqs, names[names.len() - 1]) is None);
        }
    }
}

} // verus!
