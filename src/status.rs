use vstd::prelude::*;
use crate::keyed::{keys_of, lemma_map_of_dom, lemma_map_of_index, lemma_map_of_push, lemma_map_of_remove, map_of};

verus! {

/// The outcome of the last registration attempt for one action id (or for
/// the aggregate id of a batch).
#[derive(Clone, Debug)]
pub struct ShortcutStatus {
    pub id: String,
    pub shortcut: String,
    pub success: bool,
    pub error: Option<String>,
}

/// A `ShortcutStatus` as plain values.
pub struct StatusView {
    pub id: Seq<char>,
    pub shortcut: Seq<char>,
    pub success: bool,
    pub error: Option<Seq<char>>,
}

pub open spec fn opt_view(o: Option<String>) -> Option<Seq<char>> {
    match o {
        Some(s) => Some(s@),
        None => None,
    }
}

impl View for ShortcutStatus {
    type V = StatusView;

    open spec fn view(&self) -> StatusView {
        StatusView {
            id: self.id@,
            shortcut: self.shortcut@,
            success: self.success,
            error: opt_view(self.error),
        }
    }
}

impl ShortcutStatus {
    /// A field-by-field copy.
    pub fn duplicate(&self) -> (r: Self)
        ensures
            r@ == self@,
    {
        let error = match &self.error {
            Some(e) => Some(e.clone()),
            None => None,
        };
        ShortcutStatus {
            id: self.id.clone(),
            shortcut: self.shortcut.clone(),
            success: self.success,
            error,
        }
    }
}

/// The keyed views of a sequence of statuses.
pub open spec fn status_views(v: Seq<ShortcutStatus>) -> Seq<(Seq<char>, StatusView)> {
    v.map_values(|s: ShortcutStatus| (s.id@, s@))
}

/// The status of each action id; an id occurs at most once.
pub struct StatusTable {
    entries: Vec<ShortcutStatus>,
}

impl StatusTable {
    pub closed spec fn entries_seq(&self) -> Seq<(Seq<char>, StatusView)> {
        status_views(self.entries@)
    }

    /// Action id to status.
    pub open spec fn view(&self) -> Map<Seq<char>, StatusView> {
        map_of(self.entries_seq())
    }

    pub open spec fn wf(&self) -> bool {
        keys_of(self.entries_seq()).no_duplicates()
    }

    pub fn new() -> (r: Self)
        ensures
            r.wf(),
            r@ == Map::<Seq<char>, StatusView>::empty(),
    {
        let r = StatusTable { entries: Vec::new() };
        proof {
            assert(r.entries_seq() =~= Seq::<(Seq<char>, StatusView)>::empty());
            assert(keys_of(r.entries_seq()) =~= Seq::<Seq<char>>::empty());
        }
        r
    }

    fn position(&self, id: &str) -> (r: Option<usize>)
        ensures
            match r {
                Some(i) => i < self.entries@.len() && self.entries_seq()[i as int].0 == id@,
                None => !self@.contains_key(id@),
            },
    {
        let key = id.to_owned();
        let mut i: usize = 0;
        while i < self.entries.len()
            invariant
                i <= self.entries@.len(),
                key@ == id@,
                forall|j: int| 0 <= j < i ==> self.entries_seq()[j].0 != id@,
            decreases self.entries@.len() - i,
        {
            if self.entries[i].id == key {
                return Some(i);
            }
            i = i + 1;
        }
        proof {
            lemma_map_of_dom(self.entries_seq());
            if keys_of(self.entries_seq()).contains(id@) {
                let k = choose|k: int|
                    0 <= k < keys_of(self.entries_seq()).len() && keys_of(self.entries_seq())[k]
                        == id@;
                assert(self.entries_seq()[k].0 == id@);
            }
        }
        None
    }

    /// The status of `id`, if one is recorded.
    pub fn get(&self, id: &str) -> (r: Option<ShortcutStatus>)
        requires
            self.wf(),
        ensures
            match r {
                Some(s) => self@.contains_key(id@) && s@ == self@[id@],
                None => !self@.contains_key(id@),
            },
    {
        match self.position(id) {
            Some(i) => {
                proof {
                    lemma_map_of_index(self.entries_seq(), i as int);
                }
                Some(self.entries[i].duplicate())
            },
            None => None,
        }
    }

    /// Forgets the status of `id`; a no-op when none is recorded.
    pub fn clear(&mut self, id: &str)
        requires
            old(self).wf(),
        ensures
            final(self).wf(),
            final(self)@ == old(self)@.remove(id@),
    {
        match self.position(id) {
            Some(i) => {
                let ghost before = self.entries_seq();
                proof {
                    lemma_map_of_remove(before, i as int);
                }
                self.entries.remove(i);
                proof {
                    assert(self.entries_seq() =~= before.remove(i as int));
                }
            },
            None => {
                proof {
                    assert(self@.remove(id@) =~= self@);
                }
            },
        }
    }

    /// Records `status` for its id, replacing any earlier one.
    pub fn set(&mut self, status: ShortcutStatus)
        requires
            old(self).wf(),
        ensures
            final(self).wf(),
            final(self)@ == old(self)@.insert(status.id@, status@),
    {
        self.clear(status.id.as_str());
        let ghost before = self.entries_seq();
        proof {
            lemma_map_of_dom(before);
            if keys_of(before).contains(status.id@) {
                assert(keys_of(before).to_set().contains(status.id@));
            }
            lemma_map_of_push(before, (status.id@, status@));
        }
        self.entries.push(status);
        proof {
            assert(self.entries_seq() =~= before.push((status.id@, status@)));
            assert(self@ =~= old(self)@.insert(status.id@, status@));
        }
    }

    /// Forgets every status.
    pub fn clear_all(&mut self)
        ensures
            final(self).wf(),
            final(self)@ == Map::<Seq<char>, StatusView>::empty(),
    {
        self.entries = Vec::new();
        proof {
            assert(self.entries_seq() =~= Seq::<(Seq<char>, StatusView)>::empty());
            assert(keys_of(self.entries_seq()) =~= Seq::<Seq<char>>::empty());
        }
    }

    /// A copy of every recorded status, one per id.
    pub fn all(&self) -> (r: Vec<ShortcutStatus>)
        requires
            self.wf(),
        ensures
            keys_of(status_views(r@)).no_duplicates(),
            map_of(status_views(r@)) == self@,
    {
        let mut r: Vec<ShortcutStatus> = Vec::new();
        let mut i: usize = 0;
        while i < self.entries.len()
            invariant
                i <= self.entries@.len(),
                status_views(r@) == self.entries_seq().subrange(0, i as int),
            decreases self.entries@.len() - i,
        {
            let ghost before = r@;
            r.push(self.entries[i].duplicate());
            proof {
                assert(status_views(r@) =~= status_views(before).push(self.entries_seq()[i as int]));
            }
            i = i + 1;
            proof {
                assert(status_views(r@) =~= self.entries_seq().subrange(0, i as int));
            }
        }
        proof {
            assert(self.entries_seq().subrange(0, i as int) =~= self.entries_seq());
        }
        r
    }
}

} // verus!
