//! The packages that are being installed, as they are shown.

use crate::text;
use vstd::prelude::*;

verus! {

/// The number of packages whose names are shown.
pub const SHOW_INFLIGHT: usize = 3;

/// The packages that are being installed.
#[derive(Debug)]
pub struct InFlight {
    pub names: Vec<String>,
}

impl View for InFlight {
    type V = Seq<Seq<char>>;

    open spec fn view(&self) -> Seq<Seq<char>> {
        text::texts(self.names@)
    }
}

/// Names without the first that is `name`.
pub open spec fn without_first(names: Seq<Seq<char>>, name: Seq<char>) -> Seq<Seq<char>>
    decreases names.len(),
{
    if names.len() == 0 {
        names
    } else if names[0] == name {
        names.skip(1)
    } else {
        seq![names[0]] + without_first(names.skip(1), name)
    }
}

/// The first names, and how many more there are.
pub open spec fn shown(names: Seq<Seq<char>>) -> Seq<char> {
    if names.len() > SHOW_INFLIGHT {
        text::joined(names.take(SHOW_INFLIGHT as int), "  "@) + "  +"@ + text::decimal(
            (names.len() - SHOW_INFLIGHT) as nat,
        )
    } else {
        text::joined(names, "  "@)
    }
}

proof fn lemma_without_first(names: Seq<Seq<char>>, name: Seq<char>, i: int)
    requires
        0 <= i < names.len(),
        names[i] == name,
        forall|j: int| 0 <= j < i ==> names[j] != name,
    ensures
        without_first(names, name) == names.remove(i),
    decreases i,
{
    if i == 0 {
        assert(names.skip(1) =~= names.remove(0));
    } else {
        lemma_without_first(names.skip(1), name, i - 1);
        assert(seq![names[0]] + names.skip(1).remove(i - 1) =~= names.remove(i));
    }
}

proof fn lemma_nothing_to_remove(names: Seq<Seq<char>>, name: Seq<char>)
    requires
        forall|j: int| 0 <= j < names.len() ==> names[j] != name,
    ensures
        without_first(names, name) == names,
    decreases names.len(),
{
    if names.len() > 0 {
        lemma_nothing_to_remove(names.skip(1), name);
        assert(seq![names[0]] + names.skip(1) =~= names);
    }
}

impl InFlight {
    /// No packages.
    pub fn start() -> (r: Self)
        ensures
            r@ == Seq::<Seq<char>>::empty(),
    {
        let r = InFlight { names: Vec::new() };
        assert(r@ =~= Seq::empty());
        r
    }

    /// The install of a package begins.
    pub fn begin(&mut self, name: &str)
        ensures
            final(self)@ == old(self)@.push(name@),
    {
        let ghost before = self@;
        self.names.push(String::from_str(name));
        assert(self@ =~= before.push(name@));
    }

    /// The install of a package ends.
    pub fn end(&mut self, name: &str)
        ensures
            final(self)@ == without_first(old(self)@, name@),
    {
        let ghost before = self@;
        let n: usize = self.names.len();
        let mut i: usize = 0;
        while i < n
            invariant
                i <= n,
                n == self.names@.len(),
                self@ == before,
                before == old(self)@,
                forall|j: int| 0 <= j < i ==> before[j] != name@,
            decreases n - i,
        {
            assert(before[i as int] == self.names@[i as int]@);
            if text::same(self.names[i].as_str(), name) {
                self.names.remove(i);
                proof {
                    assert(self@ =~= before.remove(i as int));
                    lemma_without_first(before, name@, i as int);
                }
                return;
            }
            i += 1;
        }
        proof {
            lemma_nothing_to_remove(before, name@);
        }
    }

    /// The first names, and how many more there are.
    pub fn message(&self) -> (r: String)
        ensures
            r@ == shown(self@),
    {
        let n: usize = self.names.len();
        if n <= SHOW_INFLIGHT {
            return text::join(&self.names, "  ");
        }
        let mut first: Vec<&str> = Vec::new();
        let mut i: usize = 0;
        while i < SHOW_INFLIGHT
            invariant
                i <= SHOW_INFLIGHT,
                SHOW_INFLIGHT < self.names@.len(),
                first@.len() == i,
                forall|j: int| 0 <= j < i ==> (#[trigger] first@[j])@ == self.names@[j]@,
            decreases SHOW_INFLIGHT - i,
        {
            first.push(self.names[i].as_str());
            i += 1;
        }
        assert(text::views(first@) =~= self@.take(SHOW_INFLIGHT as int));
        let head = text::join_views(&first, "  ");
        text::cat3(head.as_str(), "  +", text::usize_text(n - SHOW_INFLIGHT).as_str())
    }
}

/// A name that was begun last and then ends leaves what was there before, if it
/// was not there.
pub proof fn law_end_undoes_begin(names: Seq<Seq<char>>, name: Seq<char>)
    requires
        !names.contains(name),
    ensures
        without_first(names.push(name), name) == names,
{
    let all = names.push(name);
    assert forall|j: int| 0 <= j < names.len() implies all[j] != name by {
        assert(names[j] == all[j]);
        assert(names.contains(names[j]));
    }
    lemma_without_first(all, name, names.len() as int);
    assert(all.remove(names.len() as int) =~= names);
}

/// Whether progress is shown: on a terminal, unless it is switched off or `CI` is
/// set to something that does not mean no.
pub fn want_progress(switched_off: bool, ci: Option<&str>, terminal: bool) -> (r: bool)
    ensures
        r == (!switched_off && (text::opt_view(ci) matches Some(v) ==> v == "0"@ || text::lower(v)
            == "false"@) && terminal),
{
    if switched_off {
        return false;
    }
    if let Some(v) = ci {
        if !text::same(v, "0") && !text::same(text::to_ascii_lowercase(v).as_str(), "false") {
            return false;
        }
    }
    terminal
}

} // verus!
