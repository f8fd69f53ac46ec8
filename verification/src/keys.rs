//! The keys of hash maps as lists.

use vstd::prelude::*;
use std::collections::HashMap;
use vstd::std_specs::iter::IteratorSpec;

verus! {

broadcast use vstd::std_specs::hash::group_hash_axioms;

/// The keys of `map`, each once, in no particular order.
pub fn keys_u32<V>(map: &HashMap<u32, V>) -> (keys: Vec<u32>)
    ensures
        keys@.to_set() == map@.dom(),
        keys@.no_duplicates(),
{
    let mut keys: Vec<u32> = Vec::new();
    let ghost all: Seq<u32> = map.keys().remaining().unref();
    for key in it: map.keys()
        invariant
            keys@ == it.seq().take(it.index() as int).unref(),
            it.seq().unref().to_set() == map@.dom(),
            it.seq().unref().no_duplicates(),
            all == it.seq().unref(),
    {
        keys.push(*key);
    }
    assert(keys@ =~= all);
    keys
}

/// The keys of `map`, each once, in no particular order.
pub fn keys_u64<V>(map: &HashMap<u64, V>) -> (keys: Vec<u64>)
    ensures
        keys@.to_set() == map@.dom(),
        keys@.no_duplicates(),
{
    let mut keys: Vec<u64> = Vec::new();
    let ghost all: Seq<u64> = map.keys().remaining().unref();
    for key in it: map.keys()
        invariant
            keys@ == it.seq().take(it.index() as int).unref(),
            it.seq().unref().to_set() == map@.dom(),
            it.seq().unref().no_duplicates(),
            all == it.seq().unref(),
    {
        keys.push(*key);
    }
    assert(keys@ =~= all);
    keys
}

} // verus!
