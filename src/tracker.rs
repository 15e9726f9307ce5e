use vstd::prelude::*;
use crate::keyed::{lemma_push_unique, lemma_remove_unique};

verus! {

/// The set of action ids whose key is currently held down: a press was seen
/// and no release has been processed since.
pub struct KeyActivationSet {
    held: Vec<String>,
}

impl KeyActivationSet {
    /// The ids held, in the order their first press was seen.
    pub closed spec fn held_seq(&self) -> Seq<Seq<char>> {
        self.held@.map_values(|s: String| s@)
    }

    /// The set of ids held.
    pub closed spec fn view(&self) -> Set<Seq<char>> {
        self.held_seq().to_set()
    }

    /// No id is held twice.
    pub closed spec fn wf(&self) -> bool {
        self.held_seq().no_duplicates()
    }

    pub fn new() -> (r: Self)
        ensures
            r.wf(),
            r@ == Set::<Seq<char>>::empty(),
    {
        let r = KeyActivationSet { held: Vec::new() };
        proof {
            assert(r.held_seq() =~= Seq::<Seq<char>>::empty());
        }
        r
    }

    fn position(&self, id: &str) -> (r: Option<usize>)
        ensures
            match r {
                Some(i) => i < self.held@.len() && self.held_seq()[i as int] == id@,
                None => !self.held_seq().contains(id@),
            },
    {
        let key = id.to_owned();
        let mut i: usize = 0;
        while i < self.held.len()
            invariant
                i <= self.held@.len(),
                key@ == id@,
                forall|j: int| 0 <= j < i ==> self.held_seq()[j] != id@,
            decreases self.held@.len() - i,
        {
            if self.held[i] == key {
                return Some(i);
            }
            i = i + 1;
        }
        None
    }

    /// Whether `id` is currently held (also true for auto-repeat presses).
    pub fn is_active(&self, id: &str) -> (r: bool)
        ensures
            r == self@.contains(id@),
    {
        let p = self.position(id);
        p.is_some()
    }

    /// Test-and-insert: true when `id` was not held (a first press), and it is
    /// held afterwards either way.
    pub fn try_activate(&mut self, id: &str) -> (r: bool)
        requires
            old(self).wf(),
        ensures
            final(self).wf(),
            r == !old(self)@.contains(id@),
            final(self)@ == old(self)@.insert(id@),
    {
        match self.position(id) {
            Some(_) => {
                proof {
                    assert(self@.insert(id@) =~= self@);
                }
                false
            },
            None => {
                let ghost before = self.held_seq();
                self.held.push(id.to_owned());
                proof {
                    assert(self.held_seq() =~= before.push(id@));
                    lemma_push_unique(before, id@);
                }
                true
            },
        }
    }

    /// Marks `id` released; a no-op when it is not held.
    pub fn deactivate(&mut self, id: &str)
        requires
            old(self).wf(),
        ensures
            final(self).wf(),
            final(self)@ == old(self)@.remove(id@),
    {
        match self.position(id) {
            Some(i) => {
                let ghost before = self.held_seq();
                self.held.remove(i);
                proof {
                    assert(self.held_seq() =~= before.remove(i as int));
                    lemma_remove_unique(before, i as int);
                }
            },
            None => {
                proof {
                    assert(self@.remove(id@) =~= self@);
                }
            },
        }
    }
}

/// A press is a first press once: after `try_activate` a second one reports
/// a repeat, and after `deactivate` the next press is a first press again.
pub proof fn lemma_first_press_once(held: Set<Seq<char>>, id: Seq<char>)
    ensures
        held.insert(id).contains(id),
        held.insert(id).insert(id) == held.insert(id),
        !held.insert(id).remove(id).contains(id),
{
    assert(held.insert(id).insert(id) =~= held.insert(id));
}

} // verus!
