use vstd::prelude::*;
use crate::descriptor::starts_with;
use crate::keyed::{keys_of, lemma_map_of_dom, lemma_map_of_index, lemma_map_of_push, lemma_map_of_remove, map_of};

verus! {

/// Whether an action id belongs to the numbered family (`number_1` .. `number_9`).
pub open spec fn is_number_id(id: Seq<char>) -> bool {
    id.len() >= "number_"@.len() && id.subrange(0, "number_"@.len() as int) == "number_"@
}

/// `e` without the entries of `id`, the others in order.
pub open spec fn drop_id(e: Seq<(Seq<char>, Seq<char>)>, id: Seq<char>) -> Seq<
    (Seq<char>, Seq<char>),
>
    decreases e.len(),
{
    if e.len() == 0 {
        e
    } else {
        let before = drop_id(e.drop_last(), id);
        if e.last().0 == id {
            before
        } else {
            before.push(e.last())
        }
    }
}

/// `e` without the entries of the numbered family, the others in order.
pub open spec fn drop_numbered(e: Seq<(Seq<char>, Seq<char>)>) -> Seq<(Seq<char>, Seq<char>)>
    decreases e.len(),
{
    if e.len() == 0 {
        e
    } else {
        let before = drop_numbered(e.drop_last());
        if is_number_id(e.last().0) {
            before
        } else {
            before.push(e.last())
        }
    }
}

pub proof fn lemma_drop_id_absent(e: Seq<(Seq<char>, Seq<char>)>, id: Seq<char>)
    requires
        forall|j: int| 0 <= j < e.len() ==> (#[trigger] e[j]).0 != id,
    ensures
        drop_id(e, id) == e,
    decreases e.len(),
{
    if e.len() > 0 {
        lemma_drop_id_absent(e.drop_last(), id);
        assert(e.drop_last().push(e.last()) =~= e);
    }
}

proof fn lemma_drop_id_remove(e: Seq<(Seq<char>, Seq<char>)>, i: int)
    requires
        0 <= i < e.len(),
        keys_of(e).no_duplicates(),
    ensures
        drop_id(e, e[i].0) == e.remove(i),
    decreases e.len(),
{
    let d = e.drop_last();
    assert(keys_of(d) =~= keys_of(e).drop_last());
    if i == e.len() - 1 {
        assert(e.remove(i) =~= d);
        assert forall|j: int| 0 <= j < d.len() implies (#[trigger] d[j]).0 != e[i].0 by {
            assert(keys_of(e)[j] != keys_of(e)[i]);
        }
        lemma_drop_id_absent(d, e[i].0);
    } else {
        assert(keys_of(e)[i] != keys_of(e)[e.len() - 1]);
        lemma_drop_id_remove(d, i);
        assert(e.remove(i) =~= d.remove(i).push(e.last()));
    }
}

proof fn lemma_drop_numbered_none(e: Seq<(Seq<char>, Seq<char>)>)
    requires
        forall|j: int| 0 <= j < e.len() ==> !is_number_id(#[trigger] e[j].0),
    ensures
        drop_numbered(e) == e,
    decreases e.len(),
{
    if e.len() > 0 {
        lemma_drop_numbered_none(e.drop_last());
        assert(e.drop_last().push(e.last()) =~= e);
    }
}

proof fn lemma_drop_numbered_remove(e: Seq<(Seq<char>, Seq<char>)>, i: int)
    requires
        0 <= i < e.len(),
        is_number_id(e[i].0),
    ensures
        drop_numbered(e) == drop_numbered(e.remove(i)),
    decreases e.len(),
{
    let d = e.drop_last();
    if i == e.len() - 1 {
        assert(e.remove(i) =~= d);
    } else {
        let r = e.remove(i);
        assert(r.drop_last() =~= d.remove(i));
        assert(r.last() == e.last());
        lemma_drop_numbered_remove(d, i);
    }
}

/// The descriptors of the numbered family's entries, in order.
pub open spec fn numbered_descriptors(e: Seq<(Seq<char>, Seq<char>)>) -> Seq<Seq<char>>
    decreases e.len(),
{
    if e.len() == 0 {
        Seq::empty()
    } else {
        let before = numbered_descriptors(e.drop_last());
        if is_number_id(e.last().0) {
            before.push(e.last().1)
        } else {
            before
        }
    }
}

proof fn lemma_no_numbered(e: Seq<(Seq<char>, Seq<char>)>)
    requires
        forall|j: int| 0 <= j < e.len() ==> !is_number_id(#[trigger] e[j].0),
    ensures
        numbered_descriptors(e) == Seq::<Seq<char>>::empty(),
    decreases e.len(),
{
    if e.len() > 0 {
        lemma_no_numbered(e.drop_last());
    }
}

/// Taking out the first numbered entry takes its descriptor off the front.
proof fn lemma_remove_first_numbered(e: Seq<(Seq<char>, Seq<char>)>, i: int)
    requires
        0 <= i < e.len(),
        is_number_id(e[i].0),
        forall|j: int| 0 <= j < i ==> !is_number_id(#[trigger] e[j].0),
    ensures
        numbered_descriptors(e) == seq![e[i].1] + numbered_descriptors(e.remove(i)),
    decreases e.len(),
{
    let d = e.drop_last();
    if i == e.len() - 1 {
        assert(e.remove(i) =~= d);
        lemma_no_numbered(d);
        assert(numbered_descriptors(e) =~= seq![e[i].1] + numbered_descriptors(e.remove(i)));
    } else {
        let r = e.remove(i);
        assert(r.drop_last() =~= d.remove(i));
        assert(r.last() == e.last());
        lemma_remove_first_numbered(d, i);
        assert(numbered_descriptors(e) =~= seq![e[i].1] + numbered_descriptors(e.remove(i)));
    }
}

/// `m` without the ids of the numbered family.
pub open spec fn without_numbered(m: Map<Seq<char>, Seq<char>>) -> Map<Seq<char>, Seq<char>> {
    m.restrict(m.dom().filter(|k: Seq<char>| !is_number_id(k)))
}

/// The (id, descriptor) views of a sequence of string pairs.
pub open spec fn pair_views(v: Seq<(String, String)>) -> Seq<(Seq<char>, Seq<char>)> {
    v.map_values(|e: (String, String)| (e.0@, e.1@))
}

/// The live registrations: action id and the descriptor it was registered
/// with, in the order they were made. An id occurs at most once.
pub struct RegistrationTable {
    entries: Vec<(String, String)>,
}

impl RegistrationTable {
    pub closed spec fn entries_seq(&self) -> Seq<(Seq<char>, Seq<char>)> {
        pair_views(self.entries@)
    }

    /// Action id to descriptor.
    pub open spec fn view(&self) -> Map<Seq<char>, Seq<char>> {
        map_of(self.entries_seq())
    }

    pub open spec fn wf(&self) -> bool {
        keys_of(self.entries_seq()).no_duplicates()
    }

    pub fn new() -> (r: Self)
        ensures
            r.wf(),
            r@ == Map::<Seq<char>, Seq<char>>::empty(),
    {
        let r = RegistrationTable { entries: Vec::new() };
        proof {
            assert(r.entries_seq() =~= Seq::<(Seq<char>, Seq<char>)>::empty());
            assert(keys_of(r.entries_seq()) =~= Seq::<Seq<char>>::empty());
        }
        r
    }

    fn position(&self, id: &str) -> (r: Option<usize>)
        ensures
            match r {
                Some(i) => i < self.entries@.len() && self.entries_seq()[i as int].0 == id@,
                None => !self@.contains_key(id@) && forall|j: int|
                    0 <= j < self.entries_seq().len() ==> (#[trigger] self.entries_seq()[j]).0
                        != id@,
            },
    {
        let key = id.to_owned();
        let mut i: usize = 0;
        while i < self.entries.len()
            invariant
                i <= self.entries@.len(),
                key@ == id@,
                forall|j: int| 0 <= j < i ==> (#[trigger] self.entries_seq()[j]).0 != id@,
            decreases self.entries@.len() - i,
        {
            if self.entries[i].0 == key {
                return Some(i);
            }
            i = i + 1;
        }
        proof {
            lemma_map_of_dom(self.entries_seq());
            if keys_of(self.entries_seq()).contains(id@) {
                let k = choose|k: int|
                    0 <= k < keys_of(self.entries_seq()).len() && keys_of(self.entries_seq())[k]
                        == id@;
                assert(self.entries_seq()[k].0 == id@);
            }
        }
        None
    }

    /// Whether `id` has a live registration.
    pub fn contains(&self, id: &str) -> (r: bool)
        ensures
            r == self@.contains_key(id@),
    {
        proof {
            lemma_map_of_dom(self.entries_seq());
        }
        match self.position(id) {
            Some(i) => {
                proof {
                    assert(keys_of(self.entries_seq())[i as int] == id@);
                }
                true
            },
            None => false,
        }
    }

    /// The number of live registrations.
    pub fn len(&self) -> (r: usize)
        requires
            self.wf(),
        ensures
            r == self@.len(),
    {
        proof {
            lemma_map_of_dom(self.entries_seq());
            keys_of(self.entries_seq()).unique_seq_to_set();
        }
        self.entries.len()
    }

    /// Removes the registration of `id`, handing back its descriptor.
    pub fn remove(&mut self, id: &str) -> (r: Option<String>)
        requires
            old(self).wf(),
        ensures
            final(self).wf(),
            final(self)@ == old(self)@.remove(id@),
            final(self).entries_seq() == drop_id(old(self).entries_seq(), id@),
            match r {
                Some(d) => old(self)@.contains_key(id@) && old(self)@[id@] == d@,
                None => !old(self)@.contains_key(id@),
            },
    {
        match self.position(id) {
            Some(i) => {
                let ghost before = self.entries_seq();
                proof {
                    lemma_map_of_index(before, i as int);
                    lemma_map_of_remove(before, i as int);
                    lemma_drop_id_remove(before, i as int);
                }
                let (_, d) = self.entries.remove(i);
                proof {
                    assert(self.entries_seq() =~= before.remove(i as int));
                }
                Some(d)
            },
            None => {
                proof {
                    assert(self@.remove(id@) =~= self@);
                    lemma_drop_id_absent(self.entries_seq(), id@);
                }
                None
            },
        }
    }

    /// Adds a registration for an id that has none.
    pub fn insert_new(&mut self, id: String, descriptor: String)
        requires
            old(self).wf(),
            !old(self)@.contains_key(id@),
        ensures
            final(self).wf(),
            final(self)@ == old(self)@.insert(id@, descriptor@),
            final(self).entries_seq() == old(self).entries_seq().push((id@, descriptor@)),
    {
        let ghost before = self.entries_seq();
        proof {
            lemma_map_of_dom(before);
            lemma_map_of_push(before, (id@, descriptor@));
        }
        self.entries.push((id, descriptor));
        proof {
            assert(self.entries_seq() =~= before.push((id@, descriptor@)));
        }
    }

    /// Empties the table, handing back what it held in registration order.
    pub fn take_all(&mut self) -> (r: Vec<(String, String)>)
        requires
            old(self).wf(),
        ensures
            final(self).wf(),
            final(self)@ == Map::<Seq<char>, Seq<char>>::empty(),
            final(self).entries_seq() == Seq::<(Seq<char>, Seq<char>)>::empty(),
            pair_views(r@) == old(self).entries_seq(),
    {
        let mut r: Vec<(String, String)> = Vec::new();
        std::mem::swap(&mut r, &mut self.entries);
        proof {
            assert(self.entries_seq() =~= Seq::<(Seq<char>, Seq<char>)>::empty());
            assert(keys_of(self.entries_seq()) =~= Seq::<Seq<char>>::empty());
        }
        r
    }

    fn find_numbered(&self) -> (r: Option<usize>)
        ensures
            match r {
                Some(i) => i < self.entries@.len() && is_number_id(self.entries_seq()[i as int].0)
                    && forall|j: int|
                    0 <= j < i ==> !is_number_id(#[trigger] self.entries_seq()[j].0),
                None => forall|j: int|
                    0 <= j < self.entries@.len() ==> !is_number_id(
                        #[trigger] self.entries_seq()[j].0,
                    ),
            },
    {
        let mut i: usize = 0;
        while i < self.entries.len()
            invariant
                i <= self.entries@.len(),
                forall|j: int| 0 <= j < i ==> !is_number_id(#[trigger] self.entries_seq()[j].0),
            decreases self.entries@.len() - i,
        {
            if starts_with(self.entries[i].0.as_str(), "number_") {
                return Some(i);
            }
            i = i + 1;
        }
        None
    }

    /// Removes every registration of the numbered family, handing back their
    /// descriptors.
    pub fn remove_numbered(&mut self) -> (r: Vec<String>)
        requires
            old(self).wf(),
        ensures
            final(self).wf(),
            final(self)@ == without_numbered(old(self)@),
            final(self).entries_seq() == drop_numbered(old(self).entries_seq()),
            crate::batch::string_views(r@) == numbered_descriptors(old(self).entries_seq()),
    {
        let ghost start = self@;
        let mut removed: Vec<String> = Vec::new();
        proof {
            assert(crate::batch::string_views(removed@) + numbered_descriptors(self.entries_seq())
                =~= numbered_descriptors(old(self).entries_seq()));
        }
        loop
            invariant
                self.wf(),
                start == old(self)@,
                crate::batch::string_views(removed@) + numbered_descriptors(self.entries_seq())
                    == numbered_descriptors(old(self).entries_seq()),
                drop_numbered(self.entries_seq()) == drop_numbered(old(self).entries_seq()),
                forall|k: Seq<char>| #[trigger]
                    self@.contains_key(k) ==> start.contains_key(k) && self@[k] == start[k],
                forall|k: Seq<char>|
                    #[trigger] start.contains_key(k) && !is_number_id(k) ==> self@.contains_key(k),
            decreases self.entries@.len(),
        {
            match self.find_numbered() {
                Some(i) => {
                    let ghost before = self.entries_seq();
                    let ghost prev = self@;
                    let ghost before_removed = removed@;
                    proof {
                        lemma_map_of_remove(before, i as int);
                        lemma_remove_first_numbered(before, i as int);
                        lemma_drop_numbered_remove(before, i as int);
                    }
                    let (_, d) = self.entries.remove(i);
                    removed.push(d);
                    proof {
                        assert(crate::batch::string_views(removed@) =~= crate::batch::string_views(
                            before_removed,
                        ).push(before[i as int].1));
                        assert(self.entries_seq() =~= before.remove(i as int));
                        assert(crate::batch::string_views(removed@) + numbered_descriptors(
                            self.entries_seq(),
                        ) =~= crate::batch::string_views(before_removed) + (seq![before[i as int].1]
                            + numbered_descriptors(before.remove(i as int))));
                    }
                },
                None => {
                    proof {
                        lemma_no_numbered(self.entries_seq());
                        lemma_drop_numbered_none(self.entries_seq());
                        assert(crate::batch::string_views(removed@) =~= crate::batch::string_views(
                            removed@,
                        ) + Seq::<Seq<char>>::empty());
                        lemma_map_of_dom(self.entries_seq());
                        assert forall|k: Seq<char>| self@.contains_key(k) implies !is_number_id(
                            k,
                        ) by {
                            assert(keys_of(self.entries_seq()).to_set().contains(k));
                            assert(keys_of(self.entries_seq()).contains(k));
                            let j = choose|j: int|
                                0 <= j < keys_of(self.entries_seq()).len() && keys_of(
                                    self.entries_seq(),
                                )[j] == k;
                            assert(self.entries_seq()[j].0 == k);
                        }
                        assert(self@ =~= without_numbered(start));
                    }
                    return removed;
                },
            }
        }
    }

    /// A copy of the live registrations, in registration order.
    pub fn entries(&self) -> (r: Vec<(String, String)>)
        ensures
            pair_views(r@) == self.entries_seq(),
    {
        let mut r: Vec<(String, String)> = Vec::new();
        let mut i: usize = 0;
        while i < self.entries.len()
            invariant
                i <= self.entries@.len(),
                pair_views(r@) == self.entries_seq().subrange(0, i as int),
            decreases self.entries@.len() - i,
        {
            let ghost before = r@;
            r.push((self.entries[i].0.clone(), self.entries[i].1.clone()));
            proof {
                assert(pair_views(r@) =~= pair_views(before).push(self.entries_seq()[i as int]));
            }
            i = i + 1;
            proof {
                assert(pair_views(r@) =~= self.entries_seq().subrange(0, i as int));
            }
        }
        proof {
            assert(self.entries_seq().subrange(0, i as int) =~= self.entries_seq());
        }
        r
    }
}

} // verus!
