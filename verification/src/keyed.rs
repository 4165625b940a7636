//! Helpers over integer-keyed hash maps shared by the registries.
use std::collections::HashMap;
use std::collections::HashSet;
use vstd::prelude::*;
use vstd::std_specs::hash::*;
use vstd::std_specs::iter::IteratorSpec;

verus! {

broadcast use vstd::std_specs::hash::group_hash_axioms;

/// `HashMap::get_mut`: a mutable reference to the value under `k`, if any.
/// Claimed: `None` exactly when `k` is absent (map unchanged); otherwise the
/// reference starts at the stored value and whatever it ends at is what the
/// map holds under `k` afterwards, every other entry being kept.
#[verifier::external_body]
pub(crate) fn map_get_mut<V>(m: &mut HashMap<u64, V>, k: u64) -> (r: Option<&mut V>)
    ensures
        match r {
            Some(v) => {
                &&& old(m)@.contains_key(k)
                &&& *v == old(m)@[k]
                &&& final(m)@ == old(m)@.insert(k, *final(v))
            },
            None => !old(m)@.contains_key(k) && final(m)@ == old(m)@,
        },
{
    m.get_mut(&k)
}

/// The keys of `m`, each once, in the map's iteration order.
pub(crate) fn map_keys<V>(m: &HashMap<u64, V>) -> (ks: Vec<u64>)
    ensures
        ks@.to_set() == m@.dom(),
        ks@.no_duplicates(),
        ks@.len() == m@.dom().len(),
{
    let mut ks: Vec<u64> = Vec::new();
    for k in iter: m.keys()
        invariant
            ks@ == iter.seq().take(iter.index() as int).unref(),
    {
        ks.push(*k);
    }
    proof {
        assert(ks@ =~= spec_keys_iter(m).remaining().unref());
    }
    ks
}

/// The members of `s`, each once, in the set's iteration order.
pub(crate) fn set_members(s: &HashSet<u64>) -> (ks: Vec<u64>)
    ensures
        ks@.to_set() == s@,
        ks@.no_duplicates(),
{
    let mut ks: Vec<u64> = Vec::new();
    for k in iter: s.iter()
        invariant
            ks@ == iter.seq().take(iter.index() as int).unref(),
    {
        ks.push(*k);
    }
    proof {
        assert(ks@ =~= spec_hash_keys_iter(s).remaining().unref());
    }
    ks
}

} // verus!
