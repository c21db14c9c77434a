//! Trees of packages as lines of text.

use crate::collections;
use crate::collections::StrMap;
use crate::collections::StrSet;
use crate::text;
use vstd::prelude::*;

verus! {

/// What stands below each name: the texts of the branches, and the names that they
/// lead to.
pub type Branches = spec_fn(Seq<char>) -> Seq<(Seq<char>, Seq<char>)>;

/// The branches of a list.
pub open spec fn branch_views(v: Seq<(String, String)>) -> Seq<(Seq<char>, Seq<char>)> {
    v.map_values(|b: (String, String)| (b.0@, b.1@))
}

/// What a map holds below a name.
pub open spec fn below(m: StrMap<Vec<(String, String)>>, name: Seq<char>) -> Seq<
    (Seq<char>, Seq<char>),
> {
    match collections::lookup(m@, name) {
        Some(v) => branch_views(v@),
        None => Seq::empty(),
    }
}

/// What a map holds below each name.
pub open spec fn branches(m: StrMap<Vec<(String, String)>>) -> Branches {
    |name: Seq<char>| below(m, name)
}

/// The lines below a name, and the names that were seen with it. A name that was
/// seen, or that stands deeper than `limit`, has no lines.
pub open spec fn tree_of(
    m: Branches,
    name: Seq<char>,
    prefix: Seq<char>,
    seen: Set<Seq<char>>,
    depth: nat,
    limit: nat,
) -> (Seq<Seq<char>>, Set<Seq<char>>)
    decreases limit + 1 - depth, 1int, 0nat,
{
    if depth > limit || seen.contains(name) {
        (Seq::empty(), seen)
    } else {
        let b = m(name);
        first_branches(m, b, b.len(), prefix, seen.insert(name), depth, limit)
    }
}

/// The lines of the first `k` branches.
pub open spec fn first_branches(
    m: Branches,
    b: Seq<(Seq<char>, Seq<char>)>,
    k: nat,
    prefix: Seq<char>,
    seen: Set<Seq<char>>,
    depth: nat,
    limit: nat,
) -> (Seq<Seq<char>>, Set<Seq<char>>)
    decreases limit + 1 - depth, 0int, k,
{
    if k == 0 || depth > limit {
        (Seq::empty(), seen)
    } else {
        let before = first_branches(m, b, (k - 1) as nat, prefix, seen, depth, limit);
        let last = k == b.len();
        let line = prefix + (if last {
            "└── "@
        } else {
            "├── "@
        }) + b[k - 1].0;
        let inner = tree_of(
            m,
            b[k - 1].1,
            prefix + (if last {
                "    "@
            } else {
                "│   "@
            }),
            before.1,
            depth + 1,
            limit,
        );
        (before.0.push(line) + inner.0, inner.1)
    }
}

/// Puts the lines below a name behind others.
pub fn push_tree(
    out: &mut Vec<String>,
    m: &StrMap<Vec<(String, String)>>,
    name: &str,
    prefix: &str,
    seen: &mut StrSet,
    depth: usize,
    limit: usize,
)
    requires
        limit < usize::MAX,
        depth <= limit + 1,
    ensures
        text::texts(final(out)@) == text::texts(old(out)@) + tree_of(
            branches(*m),
            name@,
            prefix@,
            old(seen)@,
            depth as nat,
            limit as nat,
        ).0,
        final(seen)@ == tree_of(
            branches(*m),
            name@,
            prefix@,
            old(seen)@,
            depth as nat,
            limit as nat,
        ).1,
    decreases limit + 1 - depth,
{
    let ghost start = text::texts(out@);
    let ghost seen_before = seen@;
    let ghost bm = branches(*m);
    assert(start + Seq::<Seq<char>>::empty() =~= start);
    if depth > limit || seen.contains(name) {
        return;
    }
    seen.insert(String::from_str(name));
    let ghost inside = seen@;
    let list = match m.get(name) {
        Some(l) => l,
        None => return,
    };
    let ghost b = branch_views(list@);
    assert(bm(name@) == b);
    let n: usize = list.len();
    let mut i: usize = 0;
    while i < n
        invariant
            i <= n,
            n == list@.len(),
            b == branch_views(list@),
            bm == branches(*m),
            limit < usize::MAX,
            depth <= limit,
            text::texts(out@) == start + first_branches(
                bm,
                b,
                i as nat,
                prefix@,
                inside,
                depth as nat,
                limit as nat,
            ).0,
            seen@ == first_branches(
                bm,
                b,
                i as nat,
                prefix@,
                inside,
                depth as nat,
                limit as nat,
            ).1,
        decreases n - i,
    {
        let last: bool = i + 1 == n;
        let ghost before = first_branches(
            bm,
            b,
            i as nat,
            prefix@,
            inside,
            depth as nat,
            limit as nat,
        );
        assert(b[i as int] == (list@[i as int].0@, list@[i as int].1@));
        let line = text::cat3(
            prefix,
            if last {
                "└── "
            } else {
                "├── "
            },
            list[i].0.as_str(),
        );
        let ghost lines = text::texts(out@);
        out.push(line);
        assert(text::texts(out@) =~= lines.push(line@));
        let next = text::cat(
            prefix,
            if last {
                "    "
            } else {
                "│   "
            },
        );
        assert(text::texts(out@) =~= start + before.0.push(line@));
        push_tree(out, m, list[i].1.as_str(), next.as_str(), seen, depth + 1, limit);
        proof {
            let inner = tree_of(bm, b[i as int].1, next@, before.1, (depth + 1) as nat, limit as nat);
            assert(text::texts(out@) =~= start + (before.0.push(line@) + inner.0));
            assert(first_branches(
                bm,
                b,
                (i + 1) as nat,
                prefix@,
                inside,
                depth as nat,
                limit as nat,
            ) == (before.0.push(line@) + inner.0, inner.1));
        }
        i += 1;
    }
}

/// Below a package that was not shown yet stands a line for each of its branches,
/// the last one with its own sign; a package is shown once, and nothing stands
/// below the limit.
pub proof fn law_branches_are_shown(
    m: Branches,
    name: Seq<char>,
    prefix: Seq<char>,
    seen: Set<Seq<char>>,
    depth: nat,
    limit: nat,
    i: int,
)
    ensures
        seen.contains(name) || depth > limit ==> tree_of(m, name, prefix, seen, depth, limit).0.len()
            == 0,
        !seen.contains(name) && depth <= limit && 0 <= i < m(name).len() ==> tree_of(
            m,
            name,
            prefix,
            seen,
            depth,
            limit,
        ).0.contains(
            prefix + (if i == m(name).len() - 1 {
                "└── "@
            } else {
                "├── "@
            }) + m(name)[i].0,
        ),
{
    if !seen.contains(name) && depth <= limit && 0 <= i < m(name).len() {
        lemma_first_shown(m, m(name), m(name).len(), prefix, seen.insert(name), depth, limit, i);
    }
}

proof fn lemma_first_shown(
    m: Branches,
    b: Seq<(Seq<char>, Seq<char>)>,
    k: nat,
    prefix: Seq<char>,
    seen: Set<Seq<char>>,
    depth: nat,
    limit: nat,
    i: int,
)
    requires
        0 <= i < k <= b.len(),
        depth <= limit,
    ensures
        first_branches(m, b, k, prefix, seen, depth, limit).0.contains(
            prefix + (if i == b.len() - 1 {
                "└── "@
            } else {
                "├── "@
            }) + b[i].0,
        ),
    decreases k,
{
    let before = first_branches(m, b, (k - 1) as nat, prefix, seen, depth, limit);
    let all = first_branches(m, b, k, prefix, seen, depth, limit).0;
    let line = prefix + (if i == b.len() - 1 {
        "└── "@
    } else {
        "├── "@
    }) + b[i].0;
    if i == k - 1 {
        assert(all[before.0.len() as int] == line);
    } else {
        lemma_first_shown(m, b, (k - 1) as nat, prefix, seen, depth, limit, i);
        let j = choose|j: int| 0 <= j < before.0.len() && before.0[j] == line;
        assert(all[j] == line);
    }
}

} // verus!
