//! Named values, such as environment variables and the entries of a dotenv file.

use crate::text::{same, view_opt};
use vstd::prelude::*;

verus! {

/// The views of a list of pairs of strings.
pub open spec fn pairs(list: Seq<(String, String)>) -> Seq<(Seq<char>, Seq<char>)> {
    list.map_values(|p: (String, String)| (p.0@, p.1@))
}

/// The map that a list of assignments builds; of two to one name the later counts.
pub open spec fn assigned(list: Seq<(Seq<char>, Seq<char>)>) -> Map<Seq<char>, Seq<char>>
    decreases list.len(),
{
    if list.len() == 0 {
        Map::empty()
    } else {
        assigned(list.drop_last()).insert(list.last().0, list.last().1)
    }
}

/// What a map holds for a name.
pub open spec fn held(map: Map<Seq<char>, Seq<char>>, name: Seq<char>) -> Option<Seq<char>> {
    if map.dom().contains(name) {
        Some(map[name])
    } else {
        None
    }
}

/// A map from names to values.
#[derive(Debug, Clone)]
pub struct Vars {
    entries: Vec<(String, String)>,
}

impl View for Vars {
    type V = Map<Seq<char>, Seq<char>>;

    closed spec fn view(&self) -> Map<Seq<char>, Seq<char>> {
        assigned(pairs(self.entries@))
    }
}

impl Vars {
    /// No names at all.
    pub fn new() -> (r: Self)
        ensures
            r@ == Map::<Seq<char>, Seq<char>>::empty(),
    {
        Vars { entries: Vec::new() }
    }

    /// The map that a list of assignments builds.
    pub fn from_pairs(list: Vec<(String, String)>) -> (r: Self)
        ensures
            r@ == assigned(pairs(list@)),
    {
        Vars { entries: list }
    }

    /// Gives `name` the value `value`.
    pub fn insert(&mut self, name: String, value: String)
        ensures
            final(self)@ == old(self)@.insert(name@, value@),
    {
        let ghost before = pairs(self.entries@);
        self.entries.push((name, value));
        assert(pairs(self.entries@).drop_last() =~= before);
    }

    /// The value of `name`, where it has one.
    pub fn get(&self, name: &str) -> (r: Option<String>)
        ensures
            view_opt(r) == held(self@, name@),
    {
        let mut i: usize = self.entries.len();
        let ghost all = pairs(self.entries@);
        assert(all.take(i as int) =~= all);
        while i > 0
            invariant
                i <= self.entries@.len(),
                all == pairs(self.entries@),
                held(assigned(all), name@) == held(assigned(all.take(i as int)), name@),
            decreases i,
        {
            let ghost now = all.take(i as int);
            assert(now.drop_last() =~= all.take(i - 1));
            assert(now.last() == all[i - 1]);
            if same(self.entries[i - 1].0.as_str(), name) {
                return Some(self.entries[i - 1].1.clone());
            }
            i -= 1;
        }
        None
    }
}

/// The value of a name is that of its last assignment.
pub proof fn law_the_last_assignment_counts(
    list: Vec<(String, String)>,
    vars: Vars,
    name: &str,
    r: Option<String>,
    i: int,
)
    requires
        call_ensures(Vars::from_pairs, (list,), vars),
        call_ensures(Vars::get, (&vars, name), r),
    ensures
        0 <= i < list@.len() && list@[i].0@ == name@ && (forall|j: int|
            i < j < list@.len() ==> (#[trigger] list@[j]).0@ != name@) ==> (r matches Some(text)
            && text@ == list@[i].1@),
        (forall|j: int| 0 <= j < list@.len() ==> (#[trigger] list@[j]).0@ != name@) ==> r is None,
{
    lemma_last_assignment(list@, name@, i);
}

/// What a list of assignments holds for a name.
pub proof fn lemma_last_assignment(list: Seq<(String, String)>, name: Seq<char>, i: int)
    ensures
        0 <= i < list.len() && list[i].0@ == name && (forall|j: int|
            i < j < list.len() ==> (#[trigger] list[j]).0@ != name) ==> held(
            assigned(pairs(list)),
            name,
        ) == Some(list[i].1@),
        (forall|j: int| 0 <= j < list.len() ==> (#[trigger] list[j]).0@ != name) ==> held(
            assigned(pairs(list)),
            name,
        ) is None,
{
    let all = pairs(list);
    if 0 <= i < list.len() && list[i].0@ == name && (forall|j: int|
        i < j < list.len() ==> (#[trigger] list[j]).0@ != name) {
        assert forall|j: int| i < j < all.len() implies (#[trigger] all[j]).0 != name by {
            assert(list[j].0@ != name);
        }
        lemma_assigned(all, name, i);
    }
    if forall|j: int| 0 <= j < list.len() ==> (#[trigger] list[j]).0@ != name {
        assert forall|j: int| 0 <= j < all.len() implies (#[trigger] all[j]).0 != name by {
            assert(list[j].0@ != name);
        }
        lemma_assigned(all, name, -1);
    }
}

proof fn lemma_assigned(list: Seq<(Seq<char>, Seq<char>)>, name: Seq<char>, i: int)
    requires
        -1 <= i < list.len(),
        i >= 0 ==> list[i].0 == name,
        forall|j: int| i < j < list.len() ==> (#[trigger] list[j]).0 != name,
    ensures
        held(assigned(list), name) == if i >= 0 {
            Some(list[i].1)
        } else {
            None
        },
    decreases list.len(),
{
    if i < list.len() - 1 {
        let first = list.drop_last();
        assert(list[list.len() - 1].0 != name);
        assert forall|j: int| i < j < first.len() implies (#[trigger] first[j]).0 != name by {
            assert(first[j] == list[j]);
        }
        lemma_assigned(first, name, i);
    }
}

/// An assignment gives its name the value and leaves other names alone.
pub proof fn law_assignments_are_kept(
    vars: &mut Vars,
    after: &Vars,
    name: String,
    value: String,
    other: &str,
    was: Option<String>,
    now: Option<String>,
)
    requires
        call_ensures(Vars::insert, (vars, name, value), ()),
        *after == *final(vars),
        call_ensures(Vars::get, (&*vars, other), was),
        call_ensures(Vars::get, (after, other), now),
    ensures
        other@ == name@ ==> (now matches Some(text) && text@ == value@),
        other@ != name@ ==> view_opt(now) == view_opt(was),
{
}

} // verus!
