//! Raising the constraints of a project to the locked versions.

use crate::collections;
use crate::collections::StrMap;
use crate::commands;
use crate::commands::Message;
use crate::commands::Tone;
use crate::lock;
use crate::lock::ComposerLock;
use crate::manifest;
use crate::manifest::ComposerJson;
use crate::releases;
use crate::text;
use crate::version;
use crate::version::ComposerVersion;
use vstd::prelude::*;

verus! {

/// What is asked of raising constraints.
#[derive(Debug, Clone)]
pub struct BumpArgs {
    /// Only what development requires.
    pub dev_only: bool,
    /// Not what development requires.
    pub no_dev_only: bool,
    pub dry_run: bool,
}

/// The constraint on a package that its locked version asks for, if it differs
/// from the one that is there. Constraints on the platform stay, as do those that
/// name the locked version, and those on branches.
pub open spec fn bumped_of(name: Seq<char>, constraint: Seq<char>, l: lock::LockView) -> Option<
    Seq<char>,
> {
    if name == "php"@ || text::starts(name, "ext-"@) || text::starts(name, "lib-"@) {
        None
    } else {
        match lock::first_named(lock::to_install(l, true), name) {
            None => None,
            Some(p) => {
                let ver = text::without_front(p.version, 'v');
                if text::starts(ver, "dev-"@) || version::parsed(ver) is None || constraint == "^"@
                    + ver || constraint == ver || constraint == "="@ + ver {
                    None
                } else {
                    Some("^"@ + ver)
                }
            },
        }
    }
}

/// Constraints raised to the locked versions.
pub open spec fn bumped_links(reqs: Seq<(Seq<char>, Seq<char>)>, l: lock::LockView) -> Seq<
    (Seq<char>, Seq<char>),
> {
    reqs.map_values(
        |e: (Seq<char>, Seq<char>)|
            match bumped_of(e.0, e.1, l) {
                Some(c) => (e.0, c),
                None => e,
            },
    )
}

/// The line on a constraint that is raised.
pub open spec fn bump_line(name: Seq<char>, from: Seq<char>, to: Seq<char>, dry_run: bool) -> (
    Tone,
    Seq<char>,
) {
    let line = name + ": "@ + from + " → "@ + to;
    if dry_run {
        (Tone::Plain, "  "@ + line)
    } else {
        (Tone::Info, line)
    }
}

/// The lines on the constraints that are raised.
pub open spec fn bump_lines(
    reqs: Seq<(Seq<char>, Seq<char>)>,
    l: lock::LockView,
    dry_run: bool,
) -> Seq<(Tone, Seq<char>)>
    decreases reqs.len(),
{
    if reqs.len() == 0 {
        Seq::empty()
    } else {
        let rest = bump_lines(reqs.drop_last(), l, dry_run);
        match bumped_of(reqs.last().0, reqs.last().1, l) {
            Some(c) => rest.push(bump_line(reqs.last().0, reqs.last().1, c, dry_run)),
            None => rest,
        }
    }
}

/// The constraint on a package that its locked version asks for.
pub fn bumped_constraint(name: &str, constraint: &str, lock: &ComposerLock) -> (r: Option<String>)
    ensures
        text::opt_text(r) == bumped_of(name@, constraint@, lock@),
{
    if text::same(name, "php") || text::starts_with(name, "ext-") || text::starts_with(
        name,
        "lib-",
    ) {
        return None;
    }
    let p = match lock.find(name) {
        Some(p) => p,
        None => return None,
    };
    let ver = text::trim_front_char(p.version.as_str(), 'v');
    if text::starts_with(ver, "dev-") || ComposerVersion::parse(ver).is_err() {
        return None;
    }
    let bumped = text::cat("^", ver);
    let pinned = text::cat("=", ver);
    if text::same(constraint, bumped.as_str()) || text::same(constraint, ver) || text::same(
        constraint,
        pinned.as_str(),
    ) {
        return None;
    }
    Some(bumped)
}

/// Raises constraints to the locked versions, unless it is a trial.
pub fn bump_map(out: &mut Vec<Message>, map: &mut StrMap<String>, lock: &ComposerLock, dry_run: bool)
    ensures
        collections::link_pairs(*final(map)) == if dry_run {
            collections::link_pairs(*old(map))
        } else {
            bumped_links(collections::link_pairs(*old(map)), lock@)
        },
        commands::said(final(out)@) == commands::said(old(out)@) + bump_lines(
            collections::link_pairs(*old(map)),
            lock@,
            dry_run,
        ),
{
    let ghost start = commands::said(out@);
    let ghost all = collections::link_pairs(*map);
    let ghost goal = if dry_run {
        all
    } else {
        bumped_links(all, lock@)
    };
    let n: usize = map.entries.len();
    let mut i: usize = 0;
    assert(start + Seq::<(Tone, Seq<char>)>::empty() =~= start);
    while i < n
        invariant
            i <= n,
            n == map.entries@.len(),
            n == all.len(),
            goal == if dry_run {
                all
            } else {
                bumped_links(all, lock@)
            },
            forall|j: int|
                0 <= j < i ==> (#[trigger] map.entries@[j]).0@ == goal[j].0
                    && map.entries@[j].1@ == goal[j].1,
            forall|j: int|
                i <= j < n ==> (#[trigger] map.entries@[j]).0@ == all[j].0 && map.entries@[j].1@
                    == all[j].1,
            commands::said(out@) == start + bump_lines(all.take(i as int), lock@, dry_run),
        decreases n - i,
    {
        let ghost before = bump_lines(all.take(i as int), lock@, dry_run);
        proof {
            assert(all.take(i + 1).drop_last() =~= all.take(i as int));
            assert(all.take(i + 1).last() == all[i as int]);
        }
        let found = bumped_constraint(
            map.entries[i].0.as_str(),
            map.entries[i].1.as_str(),
            lock,
        );
        if let Some(c) = found {
            let head = text::cat3(
                map.entries[i].0.as_str(),
                ": ",
                map.entries[i].1.as_str(),
            );
            let line = text::cat3(head.as_str(), " → ", c.as_str());
            if dry_run {
                commands::say(out, Tone::Plain, text::cat("  ", line.as_str()));
            } else {
                commands::say(out, Tone::Info, line);
                map.entries[i].1 = c;
            }
            assert(commands::said(out@) =~= start + before.push(
                bump_line(all[i as int].0, all[i as int].1, c@, dry_run),
            ));
        }
        i += 1;
    }
    assert(all.take(n as int) =~= all);
    assert(collections::link_pairs(*map) =~= goal);
}

/// What came of raising constraints.
#[derive(Debug)]
pub struct BumpOutcome {
    pub messages: Vec<Message>,
    /// The `composer.json` changed.
    pub save: bool,
}

/// The lines on all constraints that are raised.
pub open spec fn all_lines(
    args: BumpArgs,
    require: Seq<(Seq<char>, Seq<char>)>,
    require_dev: Seq<(Seq<char>, Seq<char>)>,
    l: lock::LockView,
) -> Seq<(Tone, Seq<char>)> {
    let prod = if args.dev_only {
        Seq::empty()
    } else {
        bump_lines(require, l, args.dry_run)
    };
    prod + if args.no_dev_only {
        Seq::empty()
    } else {
        bump_lines(require_dev, l, args.dry_run)
    }
}

/// What is said in the end.
pub open spec fn last_line(changed: nat, dry_run: bool) -> (Tone, Seq<char>) {
    if changed == 0 {
        (
            Tone::Info,
            "Nothing to bump (constraints already match lock or no locked packages)"@,
        )
    } else if dry_run {
        (Tone::Success, "Would bump "@ + text::decimal(changed) + " constraint(s) (dry-run)"@)
    } else {
        (
            Tone::Success,
            "Bumped "@ + text::decimal(changed) + " constraint(s) in composer.json"@,
        )
    }
}

/// Raises the constraints of a project to the locked versions.
pub fn run(args: &BumpArgs, manifest: &mut ComposerJson, lock: &ComposerLock) -> (r: BumpOutcome)
    ensures
        ({
            let lines = all_lines(*args, old(manifest)@.require, old(manifest)@.require_dev, lock@);
            &&& commands::said(r.messages@) == lines.push(last_line(lines.len(), args.dry_run))
            &&& r.save == (lines.len() > 0 && !args.dry_run)
        }),
        final(manifest)@ == (manifest::ManifestView {
            require: if args.dry_run || args.dev_only {
                old(manifest)@.require
            } else {
                bumped_links(old(manifest)@.require, lock@)
            },
            require_dev: if args.dry_run || args.no_dev_only {
                old(manifest)@.require_dev
            } else {
                bumped_links(old(manifest)@.require_dev, lock@)
            },
            ..old(manifest)@
        }),
{
    let ghost before = manifest@;
    let mut out: Vec<Message> = Vec::new();
    assert(commands::said(out@) =~= Seq::empty());
    if !args.dev_only {
        bump_map(&mut out, &mut manifest.require, lock, args.dry_run);
    }
    if !args.no_dev_only {
        bump_map(&mut out, &mut manifest.require_dev, lock, args.dry_run);
    }
    assert(commands::said(out@) =~= all_lines(*args, before.require, before.require_dev, lock@));
    let changed: usize = out.len();
    assert(commands::said(out@).len() == changed);
    if changed == 0 {
        commands::say(
            &mut out,
            Tone::Info,
            String::from_str(
                "Nothing to bump (constraints already match lock or no locked packages)",
            ),
        );
    } else if args.dry_run {
        commands::say(
            &mut out,
            Tone::Success,
            text::cat3(
                "Would bump ",
                text::usize_text(changed).as_str(),
                " constraint(s) (dry-run)",
            ),
        );
    } else {
        commands::say(
            &mut out,
            Tone::Success,
            text::cat3(
                "Bumped ",
                text::usize_text(changed).as_str(),
                " constraint(s) in composer.json",
            ),
        );
    }
    BumpOutcome { messages: out, save: changed > 0 && !args.dry_run }
}

/// Constraints that were raised are not raised again.
pub proof fn law_bump_settles(name: Seq<char>, constraint: Seq<char>, l: lock::LockView)
    ensures
        bumped_of(name, constraint, l) matches Some(c) ==> bumped_of(name, c, l) is None,
{
}

/// A requirement on a package that is locked at a release is raised to allow
/// that release and what follows without a break, unless it names the release
/// already. Requirements on the platform, on packages that are not locked and on
/// branches stay as they are.
pub proof fn law_bumped_to_locked_release(
    name: Seq<char>,
    constraint: Seq<char>,
    l: lock::LockView,
    a: u64,
    b: u64,
    c: u64,
)
    ensures
        ({
            let ver = text::decimal(a as nat) + "."@ + text::decimal(b as nat) + "."@
                + text::decimal(c as nat);
            let platform = name == "php"@ || text::starts(name, "ext-"@) || text::starts(
                name,
                "lib-"@,
            );
            let locked = lock::first_named(l.packages + l.packages_dev, name);
            &&& platform || locked is None ==> bumped_of(name, constraint, l) is None
            &&& !platform && (locked matches Some(p) && (p.version == ver || p.version == "v"@
                + ver)) ==> bumped_of(name, constraint, l) == if constraint == "^"@ + ver
                || constraint == ver || constraint == "="@ + ver {
                None
            } else {
                Some("^"@ + ver)
            }
            &&& !platform && (locked matches Some(p) && text::starts(p.version, "dev-"@))
                ==> bumped_of(name, constraint, l) is None
            &&& crate::constraint::satisfies("^"@ + ver, version::release_view(a, b, c))
        }),
{
    let ver = text::decimal(a as nat) + "."@ + text::decimal(b as nat) + "."@ + text::decimal(
        c as nat,
    );
    reveal_strlit("v");
    reveal_strlit("dev-");
    releases::lemma_release_text(a, b, c);
    releases::lemma_release_text(0, 0, 0);
    releases::law_numbers_are_read(
        a,
        b,
        c,
        text::decimal(0) + "."@ + text::decimal(0) + "."@ + text::decimal(0),
    );
    releases::law_caret(ver, version::parsed(ver)->0, version::release_view(a, b, c));
    let w = "v"@ + ver;
    assert(w.skip(1) =~= ver);
    assert(text::without_front(ver, 'v') == ver);
    assert(text::without_front(w, 'v') == text::without_front(w.skip(1), 'v'));
    if text::starts(ver, "dev-"@) {
        assert(ver.take(4)[0] == 'd');
    }
    if let Some(p) = lock::first_named(l.packages + l.packages_dev, name) {
        if text::starts(p.version, "dev-"@) {
            assert(p.version.take(4)[0] == 'd');
            assert(text::without_front(p.version, 'v') == p.version);
        }
    }
}

/// Raising requirements keeps their names and their order, and changes only what
/// is raised.
pub proof fn law_bump_keeps_names(reqs: Seq<(Seq<char>, Seq<char>)>, l: lock::LockView, i: int)
    requires
        0 <= i < reqs.len(),
    ensures
        bumped_links(reqs, l).len() == reqs.len(),
        bumped_links(reqs, l)[i].0 == reqs[i].0,
        bumped_links(reqs, l)[i].1 == match bumped_of(reqs[i].0, reqs[i].1, l) {
            Some(c) => c,
            None => reqs[i].1,
        },
{
}

} // verus!
