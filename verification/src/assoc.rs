//! Association lists with view-level maps.
//!
//! Every name-to-value store in this crate (a scope's bindings, an
//! instance's properties, a class's method table, the resolver's distance
//! table) is a vector of key/value pairs with pairwise distinct keys. This
//! module gives such a vector its mathematical meaning, a `Map` from key
//! views to value views, and proves the lemmas that relate the vector
//! operations to map operations.

use vstd::prelude::*;

verus! {

/// The map denoted by an association list: later entries win, though with
/// distinct keys every entry is authoritative for its own key.
pub open spec fn assoc_view<K: View, V: View>(s: Seq<(K, V)>) -> Map<K::V, V::V>
    decreases s.len(),
{
    if s.len() == 0 {
        Map::empty()
    } else {
        assoc_view(s.drop_last()).insert(s.last().0@, s.last().1@)
    }
}

/// No two entries share a key view.
pub open spec fn distinct_keys<K: View, V: View>(s: Seq<(K, V)>) -> bool {
    forall|i: int, j: int| 0 <= i < j < s.len() ==> s[i].0@ != s[j].0@
}

/// A key is in the map exactly when some entry carries it.
pub proof fn lemma_assoc_view_dom<K: View, V: View>(s: Seq<(K, V)>, k: K::V)
    ensures
        assoc_view(s).dom().contains(k) <==> exists|i: int| 0 <= i < s.len() && s[i].0@ == k,
    decreases s.len(),
{
    if s.len() > 0 {
        lemma_assoc_view_dom(s.drop_last(), k);
        if s.last().0@ != k && assoc_view(s).dom().contains(k) {
            let i = choose|i: int| 0 <= i < s.drop_last().len() && s.drop_last()[i].0@ == k;
            assert(s[i].0@ == k);
        }
        if exists|i: int| 0 <= i < s.len() && s[i].0@ == k {
            let i = choose|i: int| 0 <= i < s.len() && s[i].0@ == k;
            if i < s.len() - 1 {
                assert(s.drop_last()[i].0@ == k);
            }
        }
    }
}

/// With distinct keys, the entry holding a key determines the map's value.
pub proof fn lemma_assoc_view_index<K: View, V: View>(s: Seq<(K, V)>, i: int)
    requires
        distinct_keys(s),
        0 <= i < s.len(),
    ensures
        assoc_view(s).dom().contains(s[i].0@),
        assoc_view(s)[s[i].0@] == s[i].1@,
    decreases s.len(),
{
    if i == s.len() - 1 {
    } else {
        lemma_assoc_view_index(s.drop_last(), i);
        assert(s.drop_last()[i] == s[i]);
    }
}

/// Replacing the entry at `i` by one with the same key updates the map at
/// that key and nothing else.
pub proof fn lemma_assoc_view_update<K: View, V: View>(s: Seq<(K, V)>, i: int, p: (K, V))
    requires
        distinct_keys(s),
        0 <= i < s.len(),
        p.0@ == s[i].0@,
    ensures
        distinct_keys(s.update(i, p)),
        assoc_view(s.update(i, p)) == assoc_view(s).insert(p.0@, p.1@),
    decreases s.len(),
{
    let t = s.update(i, p);
    assert forall|x: int, y: int| 0 <= x < y < t.len() implies t[x].0@ != t[y].0@ by {
        assert(s[x].0@ != s[y].0@);
    }
    if i == s.len() - 1 {
        assert(t.drop_last() =~= s.drop_last());
        lemma_assoc_view_dom(s.drop_last(), s[i].0@);
        assert(assoc_view(t) =~= assoc_view(s).insert(p.0@, p.1@));
    } else {
        lemma_assoc_view_update(s.drop_last(), i, p);
        assert(t.drop_last() =~= s.drop_last().update(i, p));
        assert(t.last() == s.last());
        assert(assoc_view(t) == assoc_view(s.drop_last()).insert(p.0@, p.1@).insert(
            s.last().0@,
            s.last().1@,
        ));
        assert(assoc_view(t) =~= assoc_view(s).insert(p.0@, p.1@));
    }
}

/// Appending an entry with a fresh key inserts it into the map and keeps
/// the keys distinct.
pub proof fn lemma_assoc_view_push<K: View, V: View>(s: Seq<(K, V)>, p: (K, V))
    requires
        distinct_keys(s),
        forall|i: int| 0 <= i < s.len() ==> s[i].0@ != p.0@,
    ensures
        distinct_keys(s.push(p)),
        assoc_view(s.push(p)) == assoc_view(s).insert(p.0@, p.1@),
{
    assert(s.push(p).drop_last() =~= s);
    assert(s.push(p).last() == p);
}

} // verus!
