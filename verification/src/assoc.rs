//! Association vectors: the registry's collections are vectors of
//! `(key, value)` entries with pairwise-distinct keys, viewed as a
//! `Map<Seq<char>, _>`. This module gives the view, the lemmas that relate
//! vector edits to map edits, and the key lookup.
use vstd::prelude::*;

verus! {

/// The mapping an association vector denotes. Later entries override
/// earlier ones; vectors with distinct keys are never ambiguous.
pub open spec fn assoc_map<V: View>(s: Seq<(String, V)>) -> Map<Seq<char>, V::V>
    decreases s.len(),
{
    if s.len() == 0 {
        Map::empty()
    } else {
        assoc_map(s.drop_last()).insert(s.last().0@, s.last().1@)
    }
}

/// No two entries share a key.
pub open spec fn distinct_keys<V: View>(s: Seq<(String, V)>) -> bool {
    forall|i: int, j: int| 0 <= i < j < s.len() ==> s[i].0@ != s[j].0@
}

pub proof fn lemma_assoc_map_finite<V: View>(s: Seq<(String, V)>)
    ensures
        assoc_map(s).dom().finite(),
    decreases s.len(),
{
    if s.len() > 0 {
        lemma_assoc_map_finite(s.drop_last());
    }
}

pub proof fn lemma_assoc_map_contains<V: View>(s: Seq<(String, V)>, k: Seq<char>)
    ensures
        assoc_map(s).contains_key(k) <==> exists|i: int| 0 <= i < s.len() && s[i].0@ == k,
    decreases s.len(),
{
    if s.len() > 0 {
        lemma_assoc_map_contains(s.drop_last(), k);
        if s.last().0@ == k {
            assert(s[s.len() - 1].0@ == k);
        } else if assoc_map(s).contains_key(k) {
            let i = choose|i: int| 0 <= i < s.drop_last().len() && s.drop_last()[i].0@ == k;
            assert(s[i].0@ == k);
        } else if exists|i: int| 0 <= i < s.len() && s[i].0@ == k {
            let i = choose|i: int| 0 <= i < s.len() && s[i].0@ == k;
            assert(s.drop_last()[i].0@ == k);
        }
    }
}

pub proof fn lemma_assoc_map_index<V: View>(s: Seq<(String, V)>, i: int)
    requires
        distinct_keys(s),
        0 <= i < s.len(),
    ensures
        assoc_map(s).contains_key(s[i].0@),
        assoc_map(s)[s[i].0@] == s[i].1@,
    decreases s.len(),
{
    if i < s.len() - 1 {
        lemma_assoc_map_index(s.drop_last(), i);
        assert(s.drop_last()[i] == s[i]);
    }
}

/// Appending an entry inserts its pair into the map.
pub proof fn lemma_assoc_map_push<V: View>(s: Seq<(String, V)>, e: (String, V))
    ensures
        assoc_map(s.push(e)) == assoc_map(s).insert(e.0@, e.1@),
{
    assert(s.push(e).drop_last() =~= s);
    assert(s.push(e).last() == e);
}

/// Overwriting the entry that holds a key updates that key in the map.
pub proof fn lemma_assoc_map_update<V: View>(s: Seq<(String, V)>, i: int, e: (String, V))
    requires
        distinct_keys(s),
        0 <= i < s.len(),
        e.0@ == s[i].0@,
    ensures
        assoc_map(s.update(i, e)) =~= assoc_map(s).insert(e.0@, e.1@),
    decreases s.len(),
{
    let t = s.update(i, e);
    if i == s.len() - 1 {
        assert(t.drop_last() =~= s.drop_last());
        assert(t.last() == e);
    } else {
        lemma_assoc_map_update(s.drop_last(), i, e);
        assert(t.drop_last() =~= s.drop_last().update(i, e));
        assert(t.last() == s.last());
        assert(s.last().0@ != e.0@);
    }
}

/// Removing the entry that holds a key removes that key from the map.
pub proof fn lemma_assoc_map_remove<V: View>(s: Seq<(String, V)>, i: int)
    requires
        distinct_keys(s),
        0 <= i < s.len(),
    ensures
        assoc_map(s.remove(i)) =~= assoc_map(s).remove(s[i].0@),
    decreases s.len(),
{
    let k = s[i].0@;
    if i == s.len() - 1 {
        assert(s.remove(i) =~= s.drop_last());
        lemma_assoc_map_contains(s.drop_last(), k);
        assert(forall|j: int| 0 <= j < s.drop_last().len() ==> s.drop_last()[j].0@ != k);
        assert(!assoc_map(s.drop_last()).contains_key(k));
    } else {
        lemma_assoc_map_remove(s.drop_last(), i);
        assert(s.remove(i).drop_last() =~= s.drop_last().remove(i));
        assert(s.remove(i).last() == s.last());
        assert(s.last().0@ != k);
    }
}

/// With distinct keys, the map has exactly one key per entry.
pub proof fn lemma_assoc_map_len<V: View>(s: Seq<(String, V)>)
    requires
        distinct_keys(s),
    ensures
        assoc_map(s).dom().len() == s.len(),
    decreases s.len(),
{
    if s.len() > 0 {
        lemma_assoc_map_len(s.drop_last());
        lemma_assoc_map_finite(s.drop_last());
        lemma_assoc_map_contains(s.drop_last(), s.last().0@);
        assert(forall|j: int| 0 <= j < s.drop_last().len() ==> s.drop_last()[j].0@ != s.last().0@);
        assert(!assoc_map(s.drop_last()).contains_key(s.last().0@));
        vstd::set::axiom_set_insert_len(assoc_map(s.drop_last()).dom(), s.last().0@);
        assert(assoc_map(s).dom() =~= assoc_map(s.drop_last()).dom().insert(s.last().0@));
    }
}

pub proof fn lemma_distinct_update<V: View>(s: Seq<(String, V)>, i: int, e: (String, V))
    requires
        distinct_keys(s),
        0 <= i < s.len(),
        e.0@ == s[i].0@,
    ensures
        distinct_keys(s.update(i, e)),
{
}

pub proof fn lemma_distinct_push<V: View>(s: Seq<(String, V)>, e: (String, V))
    requires
        distinct_keys(s),
        forall|j: int| 0 <= j < s.len() ==> s[j].0@ != e.0@,
    ensures
        distinct_keys(s.push(e)),
{
}

pub proof fn lemma_distinct_remove<V: View>(s: Seq<(String, V)>, i: int)
    requires
        distinct_keys(s),
        0 <= i < s.len(),
    ensures
        distinct_keys(s.remove(i)),
{
    assert forall|p: int, q: int| 0 <= p < q < s.remove(i).len() implies s.remove(i)[p].0@
        != s.remove(i)[q].0@ by {
        if p < i {
            assert(s.remove(i)[p] == s[p]);
        } else {
            assert(s.remove(i)[p] == s[p + 1]);
        }
        if q < i {
            assert(s.remove(i)[q] == s[q]);
        } else {
            assert(s.remove(i)[q] == s[q + 1]);
        }
    }
}

/// The index of the entry that holds `k`, if one does.
pub fn assoc_find<V: View>(s: &Vec<(String, V)>, k: &String) -> (r: Option<usize>)
    ensures
        match r {
            Some(i) => i < s@.len() && s@[i as int].0@ == k@,
            None => forall|j: int| 0 <= j < s@.len() ==> s@[j].0@ != k@,
        },
{
    let n = s.len();
    for i in 0..n
        invariant
            n == s@.len(),
            forall|j: int| 0 <= j < i ==> s@[j].0@ != k@,
    {
        if s[i].0 == *k {
            return Some(i);
        }
    }
    None
}

} // verus!
