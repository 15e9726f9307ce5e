use vstd::prelude::*;

verus! {

/// The ids of a sequence of keyed entries, in order.
pub open spec fn keys_of<V>(s: Seq<(Seq<char>, V)>) -> Seq<Seq<char>> {
    s.map_values(|e: (Seq<char>, V)| e.0)
}

/// The map that a sequence of keyed entries describes.
pub open spec fn map_of<V>(s: Seq<(Seq<char>, V)>) -> Map<Seq<char>, V>
    decreases s.len(),
{
    if s.len() == 0 {
        Map::empty()
    } else {
        map_of(s.drop_last()).insert(s.last().0, s.last().1)
    }
}

/// Removing the one occurrence of an element from a sequence without
/// duplicates removes it from the set of its elements.
pub proof fn lemma_remove_unique<A>(s: Seq<A>, i: int)
    requires
        s.no_duplicates(),
        0 <= i < s.len(),
    ensures
        s.remove(i).no_duplicates(),
        s.remove(i).to_set() == s.to_set().remove(s[i]),
{
    let r = s.remove(i);
    assert forall|a: A| r.to_set().contains(a) <==> s.to_set().remove(s[i]).contains(a) by {
        if r.contains(a) {
            let k = choose|k: int| 0 <= k < r.len() && r[k] == a;
            if k < i {
                assert(s[k] == a);
            } else {
                assert(s[k + 1] == a);
            }
        }
        if s.contains(a) && a != s[i] {
            let k = choose|k: int| 0 <= k < s.len() && s[k] == a;
            if k < i {
                assert(r[k] == a);
            } else {
                assert(r[k - 1] == a);
            }
        }
    }
    assert(r.to_set() =~= s.to_set().remove(s[i]));
}

/// Appending an element that is absent keeps a sequence free of duplicates.
pub proof fn lemma_push_unique<A>(s: Seq<A>, x: A)
    requires
        s.no_duplicates(),
        !s.contains(x),
    ensures
        s.push(x).no_duplicates(),
        s.push(x).to_set() == s.to_set().insert(x),
{
    s.lemma_push_to_set_commute(x);
    let t = s.push(x);
    assert forall|a: int, b: int| 0 <= a < b < t.len() implies t[a] != t[b] by {
        if b == s.len() {
            assert(s.contains(s[a]));
        }
    }
}

pub proof fn lemma_map_of_dom<V>(s: Seq<(Seq<char>, V)>)
    ensures
        map_of(s).dom() == keys_of(s).to_set(),
    decreases s.len(),
{
    if s.len() == 0 {
        assert(keys_of(s).to_set() =~= Set::<Seq<char>>::empty());
        assert(map_of(s).dom() =~= Set::<Seq<char>>::empty());
    } else {
        lemma_map_of_dom(s.drop_last());
        assert(keys_of(s) =~= keys_of(s.drop_last()).push(s.last().0));
        keys_of(s.drop_last()).lemma_push_to_set_commute(s.last().0);
        assert(map_of(s).dom() =~= keys_of(s).to_set());
    }
}

pub proof fn lemma_map_of_index<V>(s: Seq<(Seq<char>, V)>, i: int)
    requires
        keys_of(s).no_duplicates(),
        0 <= i < s.len(),
    ensures
        map_of(s).contains_key(s[i].0),
        map_of(s)[s[i].0] == s[i].1,
    decreases s.len(),
{
    if i < s.len() - 1 {
        let d = s.drop_last();
        assert(keys_of(s)[i] != keys_of(s)[s.len() - 1]);
        assert(keys_of(d) =~= keys_of(s).drop_last());
        lemma_map_of_index(d, i);
    }
}

pub proof fn lemma_map_of_remove<V>(s: Seq<(Seq<char>, V)>, i: int)
    requires
        keys_of(s).no_duplicates(),
        0 <= i < s.len(),
    ensures
        keys_of(s.remove(i)).no_duplicates(),
        keys_of(s.remove(i)).to_set() == keys_of(s).to_set().remove(s[i].0),
        map_of(s.remove(i)) == map_of(s).remove(s[i].0),
    decreases s.len(),
{
    assert(keys_of(s.remove(i)) =~= keys_of(s).remove(i));
    lemma_remove_unique(keys_of(s), i);
    let d = s.drop_last();
    assert(keys_of(d) =~= keys_of(s).drop_last());
    if i == s.len() - 1 {
        assert(s.remove(i) =~= d);
        lemma_map_of_dom(d);
        assert(!keys_of(d).contains(s.last().0)) by {
            if keys_of(d).contains(s.last().0) {
                let k = choose|k: int| 0 <= k < keys_of(d).len() && keys_of(d)[k] == s.last().0;
                assert(keys_of(s)[k] == keys_of(s)[s.len() - 1]);
            }
        }
        assert(map_of(s.remove(i)) =~= map_of(s).remove(s[i].0));
    } else {
        let r = s.remove(i);
        assert(r.drop_last() =~= d.remove(i));
        assert(r.last() == s.last());
        lemma_map_of_remove(d, i);
        assert(map_of(r) == map_of(d.remove(i)).insert(s.last().0, s.last().1));
        assert(keys_of(s)[i] != keys_of(s)[s.len() - 1]);
        assert(map_of(s.remove(i)) =~= map_of(s).remove(s[i].0));
    }
}

pub proof fn lemma_map_of_push<V>(s: Seq<(Seq<char>, V)>, e: (Seq<char>, V))
    requires
        keys_of(s).no_duplicates(),
        !keys_of(s).contains(e.0),
    ensures
        keys_of(s.push(e)).no_duplicates(),
        keys_of(s.push(e)).to_set() == keys_of(s).to_set().insert(e.0),
        map_of(s.push(e)) == map_of(s).insert(e.0, e.1),
{
    assert(keys_of(s.push(e)) =~= keys_of(s).push(e.0));
    lemma_push_unique(keys_of(s), e.0);
    assert(s.push(e).drop_last() =~= s);
}

} // verus!
