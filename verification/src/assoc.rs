//! Key-value sequences with string keys, and their reading as maps: the
//! shape shared by a parsed JSON object's entries and the handler registry.

use vstd::prelude::*;

verus! {

/// No two entries of the sequence share a key.
pub open spec fn keys_distinct<V>(es: Seq<(String, V)>) -> bool {
    forall|i: int, j: int| 0 <= i < j < es.len() ==> es[i].0@ != es[j].0@
}

/// The entries of a key-value sequence gathered into a map (later entries
/// win, which is moot once the keys are distinct).
pub open spec fn entries_map<V>(es: Seq<(String, V)>) -> Map<Seq<char>, V>
    decreases es.len(),
{
    if es.len() == 0 {
        Map::empty()
    } else {
        entries_map(es.drop_last()).insert(es.last().0@, es.last().1)
    }
}

/// Looking a key up in such a map.
pub open spec fn field_of<V>(m: Map<Seq<char>, V>, k: Seq<char>) -> Option<V> {
    if m.contains_key(k) {
        Some(m[k])
    } else {
        None
    }
}

/// Every entry of a distinct-keyed sequence is found in its map, under its
/// own key.
pub proof fn lemma_entries_map_at<V>(es: Seq<(String, V)>, i: int)
    requires
        0 <= i < es.len(),
        keys_distinct(es),
    ensures
        entries_map(es).contains_key(es[i].0@),
        entries_map(es)[es[i].0@] == es[i].1,
    decreases es.len(),
{
    if i < es.len() - 1 {
        assert(es.drop_last()[i] == es[i]);
        assert(keys_distinct(es.drop_last()));
        lemma_entries_map_at(es.drop_last(), i);
        assert(es[i].0@ != es.last().0@);
    }
}

/// A key is in the map of a sequence exactly when some entry carries it.
pub proof fn lemma_entries_map_dom<V>(es: Seq<(String, V)>, k: Seq<char>)
    ensures
        entries_map(es).contains_key(k) <==> exists|i: int| 0 <= i < es.len() && es[i].0@ == k,
    decreases es.len(),
{
    if es.len() > 0 {
        lemma_entries_map_dom(es.drop_last(), k);
        if entries_map(es).contains_key(k) {
            if es.last().0@ == k {
                assert(es[es.len() - 1].0@ == k);
            } else {
                let i = choose|i: int| 0 <= i < es.drop_last().len() && es.drop_last()[i].0@ == k;
                assert(es[i].0@ == k);
            }
        }
        if exists|i: int| 0 <= i < es.len() && es[i].0@ == k {
            let i = choose|i: int| 0 <= i < es.len() && es[i].0@ == k;
            if i < es.len() - 1 {
                assert(es.drop_last()[i].0@ == k);
            }
        }
    }
}

/// Compares a string against a literal by content.
pub(crate) fn string_is(s: &String, lit: &str) -> (r: bool)
    ensures
        r == (s@ == lit@),
{
    let owned: String = lit.to_owned();
    *s == owned
}

/// Finds the position of the entry carrying a key, if any.
pub(crate) fn assoc_position<V>(es: &Vec<(String, V)>, key: &str) -> (r: Option<usize>)
    requires
        keys_distinct(es@),
    ensures
        match r {
            Some(i) => i < es@.len() && es@[i as int].0@ == key@ && field_of(
                entries_map(es@),
                key@,
            ) == Some(es@[i as int].1),
            None => field_of(entries_map(es@), key@) is None,
        },
{
    let n = es.len();
    let mut i: usize = 0;
    while i < n
        invariant
            n == es@.len(),
            i <= n,
            keys_distinct(es@),
            forall|p: int| 0 <= p < i ==> es@[p].0@ != key@,
        decreases n - i,
    {
        if string_is(&es[i].0, key) {
            proof {
                lemma_entries_map_at(es@, i as int);
            }
            return Some(i);
        }
        i += 1;
    }
    proof {
        lemma_entries_map_dom(es@, key@);
    }
    None
}

} // verus!
