//! Association lists keyed by strings, and the finite map they denote.
//!
//! The ledger and the wallet adapter store their accounts as ordered entry
//! lists with pairwise-distinct keys; their contracts speak of the denoted
//! map. These lemmas carry list operations over to map operations.

use vstd::prelude::*;

verus! {

/// The map an entry list denotes; a later entry for the same key wins.
pub open spec fn map_of<V>(s: Seq<(String, V)>) -> Map<Seq<char>, V>
    decreases s.len(),
{
    if s.len() == 0 {
        Map::empty()
    } else {
        map_of(s.drop_last()).insert(s.last().0@, s.last().1)
    }
}

/// No two entries share a key.
pub open spec fn keys_unique<V>(s: Seq<(String, V)>) -> bool {
    forall|i: int, j: int|
        0 <= i < j < s.len() ==> (#[trigger] s[i]).0@ != (#[trigger] s[j]).0@
}

/// The balance a map assigns to a key, with absent keys at zero.
pub open spec fn spec_balance(m: Map<Seq<char>, u64>, k: Seq<char>) -> u64 {
    if m.contains_key(k) {
        m[k]
    } else {
        0
    }
}

/// A key is in the denoted map exactly when some entry holds it.
pub proof fn lemma_map_of_contains<V>(s: Seq<(String, V)>, k: Seq<char>)
    ensures
        map_of(s).contains_key(k) <==> exists|i: int| 0 <= i < s.len() && (#[trigger] s[i]).0@ == k,
    decreases s.len(),
{
    if s.len() > 0 {
        lemma_map_of_contains(s.drop_last(), k);
        if s.last().0@ == k {
            assert(s[s.len() - 1].0@ == k);
        } else {
            if map_of(s).contains_key(k) {
                let i = choose|i: int| 0 <= i < s.drop_last().len() && (#[trigger] s.drop_last()[i]).0@ == k;
                assert(s[i].0@ == k);
            }
            if exists|i: int| 0 <= i < s.len() && (#[trigger] s[i]).0@ == k {
                let i = choose|i: int| 0 <= i < s.len() && (#[trigger] s[i]).0@ == k;
                assert(i < s.len() - 1);
                assert(s.drop_last()[i].0@ == k);
            }
        }
    }
}

/// With unique keys, the denoted map holds each entry's value at its key.
pub proof fn lemma_map_of_index<V>(s: Seq<(String, V)>, i: int)
    requires
        keys_unique(s),
        0 <= i < s.len(),
    ensures
        map_of(s).contains_key(s[i].0@),
        map_of(s)[s[i].0@] == s[i].1,
    decreases s.len(),
{
    if i < s.len() - 1 {
        assert(keys_unique(s.drop_last()));
        assert(s.drop_last()[i] == s[i]);
        lemma_map_of_index(s.drop_last(), i);
        assert(s[i].0@ != s.last().0@);
    }
}

/// A key held by no entry is absent from the denoted map.
pub proof fn lemma_map_of_absent<V>(s: Seq<(String, V)>, k: Seq<char>)
    requires
        forall|i: int| 0 <= i < s.len() ==> (#[trigger] s[i]).0@ != k,
    ensures
        !map_of(s).contains_key(k),
{
    lemma_map_of_contains(s, k);
}

/// Replacing the entry that holds a key updates the denoted map at that key.
pub proof fn lemma_map_of_update<V>(s: Seq<(String, V)>, i: int, e: (String, V))
    requires
        keys_unique(s),
        0 <= i < s.len(),
        e.0@ == s[i].0@,
    ensures
        map_of(s.update(i, e)) == map_of(s).insert(e.0@, e.1),
    decreases s.len(),
{
    let t = s.update(i, e);
    if i == s.len() - 1 {
        assert(t.drop_last() =~= s.drop_last());
        assert(t.last() == e);
        assert(map_of(t) =~= map_of(s).insert(e.0@, e.1));
    } else {
        assert(keys_unique(s.drop_last()));
        assert(s.drop_last()[i] == s[i]);
        lemma_map_of_update(s.drop_last(), i, e);
        assert(t.drop_last() =~= s.drop_last().update(i, e));
        assert(t.last() == s.last());
        assert(s[i].0@ != s.last().0@);
        assert(map_of(t) =~= map_of(s).insert(e.0@, e.1));
    }
}

/// Appending an entry makes the denoted map hold its value at its key.
pub proof fn lemma_map_of_push<V>(s: Seq<(String, V)>, e: (String, V))
    ensures
        map_of(s.push(e)) == map_of(s).insert(e.0@, e.1),
{
    assert(s.push(e).drop_last() =~= s);
    assert(s.push(e).last() == e);
}

/// The position of the entry holding a key, if any.
pub fn find_key<V>(entries: &Vec<(String, V)>, key: &String) -> (r: Option<usize>)
    ensures
        match r {
            Some(i) => i < entries@.len() && entries@[i as int].0@ == key@,
            None => forall|j: int|
                0 <= j < entries@.len() ==> (#[trigger] entries@[j]).0@ != key@,
        },
{
    let mut k: usize = 0;
    while k < entries.len()
        invariant
            k <= entries@.len(),
            forall|j: int| 0 <= j < k ==> (#[trigger] entries@[j]).0@ != key@,
        decreases entries@.len() - k,
    {
        if entries[k].0 == *key {
            return Some(k);
        }
        k += 1;
    }
    None
}

/// The value the list holds at a key, if any.
pub fn get_key<'a, V>(entries: &'a Vec<(String, V)>, key: &String) -> (r: Option<&'a V>)
    requires
        keys_unique(entries@),
    ensures
        match r {
            Some(v) => map_of(entries@).contains_key(key@) && *v == map_of(entries@)[key@],
            None => !map_of(entries@).contains_key(key@),
        },
{
    match find_key(entries, key) {
        Some(i) => {
            proof {
                lemma_map_of_index(entries@, i as int);
            }
            Some(&entries[i].1)
        },
        None => {
            proof {
                lemma_map_of_absent(entries@, key@);
            }
            None
        },
    }
}

/// Sets the value at a key, appending a fresh entry when the key is absent.
pub fn put_key<V>(entries: &mut Vec<(String, V)>, key: &String, value: V)
    requires
        keys_unique(old(entries)@),
    ensures
        keys_unique(final(entries)@),
        map_of(final(entries)@) == map_of(old(entries)@).insert(key@, value),
{
    let entry = (key.clone(), value);
    let ghost e0 = entry;
    match find_key(entries, key) {
        Some(i) => {
            let ghost s0 = entries@;
            entries.remove(i);
            entries.insert(i, entry);
            proof {
                assert(entries@ =~= s0.update(i as int, e0));
                lemma_map_of_update(s0, i as int, e0);
                assert(keys_unique(entries@));
            }
        },
        None => {
            let ghost s0 = entries@;
            entries.push(entry);
            proof {
                lemma_map_of_push(s0, e0);
                assert(keys_unique(entries@));
            }
        },
    }
}

} // verus!
