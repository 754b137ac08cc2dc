//! The roster: the display name that each participant last announced.
use crate::identity::{short_form, Identity};
use vstd::prelude::*;

verus! {

/// Display names by participant key. Entries are added or overwritten on
/// every announcement and never removed.
pub struct Roster {
    entries: Vec<(Identity, String)>,
}

/// The name shown for `id`: the one it announced last, else its short key form.
pub open spec fn display_name(names: Map<Seq<u8>, Seq<char>>, id: Seq<u8>) -> Seq<char> {
    if names.contains_key(id) {
        names[id]
    } else {
        short_form(id)
    }
}

impl Roster {
    /// No two entries share a key.
    pub closed spec fn wf(&self) -> bool {
        forall|i: int, j: int|
            0 <= i < j < self.entries@.len() ==> (#[trigger] self.entries@[i]).0@
                != (#[trigger] self.entries@[j]).0@
    }

    pub closed spec fn view(&self) -> Map<Seq<u8>, Seq<char>> {
        Map::new(
            |k: Seq<u8>| exists|i: int| 0 <= i < self.entries@.len() && self.entries@[i].0@ == k,
            |k: Seq<u8>|
                {
                    let i = choose|i: int| 0 <= i < self.entries@.len() && self.entries@[i].0@ == k;
                    self.entries@[i].1@
                },
        )
    }

    proof fn lemma_entry(&self, i: int)
        requires
            self.wf(),
            0 <= i < self.entries@.len(),
        ensures
            self.view().contains_key(self.entries@[i].0@),
            self.view()[self.entries@[i].0@] == self.entries@[i].1@,
    {
        let k = self.entries@[i].0@;
        assert(self.view().contains_key(k));
        let j = choose|j: int| 0 <= j < self.entries@.len() && self.entries@[j].0@ == k;
        assert(i == j);
    }

    /// An empty roster.
    pub fn new() -> (r: Roster)
        ensures
            r.wf(),
            r.view() == Map::<Seq<u8>, Seq<char>>::empty(),
    {
        let r = Roster { entries: Vec::new() };
        assert(r.view() =~= Map::<Seq<u8>, Seq<char>>::empty());
        r
    }

    /// The position of `id`'s entry, if it has one.
    fn find(&self, id: &Identity) -> (r: Option<usize>)
        requires
            self.wf(),
        ensures
            match r {
                Some(i) => i < self.entries@.len() && self.entries@[i as int].0@ == id@,
                None => !self.view().contains_key(id@),
            },
    {
        let mut i: usize = 0;
        while i < self.entries.len()
            invariant
                i <= self.entries@.len(),
                forall|j: int| 0 <= j < i ==> (#[trigger] self.entries@[j]).0@ != id@,
            decreases self.entries@.len() - i,
        {
            if self.entries[i].0.same(id) {
                return Some(i);
            }
            i = i + 1;
        }
        None
    }

    /// The name that `id` announced last, if any.
    pub fn get(&self, id: &Identity) -> (r: Option<String>)
        requires
            self.wf(),
        ensures
            match r {
                Some(n) => self.view().contains_key(id@) && n@ == self.view()[id@],
                None => !self.view().contains_key(id@),
            },
    {
        match self.find(id) {
            Some(i) => {
                proof {
                    self.lemma_entry(i as int);
                }
                Some(self.entries[i].1.clone())
            },
            None => None,
        }
    }

    /// Records `name` as the display name of `id`, replacing any earlier one.
    pub fn insert(&mut self, id: Identity, name: String)
        requires
            old(self).wf(),
        ensures
            final(self).wf(),
            final(self).view() == old(self).view().insert(id@, name@),
    {
        let ghost before = self.view();
        match self.find(&id) {
            Some(i) => {
                self.entries.set(i, (id, name));
                proof {
                    assert forall|k: Seq<u8>| #[trigger]
                        self.view().contains_key(k) == before.insert(id@, name@).contains_key(k)
                        by {
                        if k != id@ && before.contains_key(k) {
                            let j = choose|j: int|
                                0 <= j < old(self).entries@.len() && old(self).entries@[j].0@ == k;
                            assert(self.entries@[j].0@ == k);
                        }
                        if k == id@ {
                            assert(self.entries@[i as int].0@ == k);
                        }
                    }
                    assert forall|k: Seq<u8>| #[trigger]
                        self.view().contains_key(k) implies self.view()[k] == before.insert(
                        id@,
                        name@,
                    )[k] by {
                        let j = choose|j: int|
                            0 <= j < self.entries@.len() && self.entries@[j].0@ == k;
                        self.lemma_entry(j);
                        if j != i {
                            old(self).lemma_entry(j);
                        }
                    }
                    assert(self.view() =~= before.insert(id@, name@));
                }
            },
            None => {
                self.entries.push((id, name));
                proof {
                    let n = old(self).entries@.len() as int;
                    assert forall|k: Seq<u8>| #[trigger]
                        self.view().contains_key(k) == before.insert(id@, name@).contains_key(k)
                        by {
                        if k != id@ && before.contains_key(k) {
                            let j = choose|j: int|
                                0 <= j < old(self).entries@.len() && old(self).entries@[j].0@ == k;
                            assert(self.entries@[j].0@ == k);
                        }
                        if k == id@ {
                            assert(self.entries@[n].0@ == k);
                        }
                    }
                    assert forall|k: Seq<u8>| #[trigger]
                        self.view().contains_key(k) implies self.view()[k] == before.insert(
                        id@,
                        name@,
                    )[k] by {
                        let j = choose|j: int|
                            0 <= j < self.entries@.len() && self.entries@[j].0@ == k;
                        self.lemma_entry(j);
                        if j != n {
                            old(self).lemma_entry(j);
                        }
                    }
                    assert(self.view() =~= before.insert(id@, name@));
                }
            },
        }
    }

    /// The name to show for `id`: the one it announced last, else its short
    /// key form.
    pub fn display_name(&self, id: &Identity) -> (r: String)
        requires
            self.wf(),
        ensures
            r@ == display_name(self.view(), id@),
    {
        match self.get(id) {
            Some(n) => n,
            None => id.fmt_short(),
        }
    }
}

} // verus!
