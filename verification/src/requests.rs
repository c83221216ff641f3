//! The table in which the API keeps its requests: an `FnvHashMap` keyed by the
//! number of the request.
use fnv::FnvHashMap;
use vstd::prelude::*;

verus! {

/// `fnv::FnvHasher`, the hasher of an `FnvHashMap`.
#[verifier::external_type_specification]
#[verifier::external_body]
pub struct ExFnvHasher(fnv::FnvHasher);

/// `std::hash::BuildHasherDefault`, through which an `FnvHashMap` makes its hashers.
#[verifier::external_type_specification]
#[verifier::external_body]
#[verifier::reject_recursive_types(H)]
pub struct ExBuildHasherDefault<H>(std::hash::BuildHasherDefault<H>);

/// A table without requests.
pub(crate) fn empty<V>() -> (table: FnvHashMap<u16, V>)
    ensures
        table@ == Map::<u16, V>::empty(),
{
    FnvHashMap::default()
}

/// Calls `FnvHashMap::get`. Believed without proof: it finds the value of `key`
/// exactly when the map has one.
#[verifier::external_body]
pub(crate) fn get<V>(table: &FnvHashMap<u16, V>, key: u16) -> (found: Option<&V>)
    ensures
        match found {
            Some(value) => table@.contains_key(key) && *value == table@[key],
            None => !table@.contains_key(key),
        },
{
    table.get(&key)
}

/// Calls `FnvHashMap::insert`. Believed without proof: `key` then has the value
/// `value`, every other key has what it had, and the value that `key` had before,
/// if any, is handed back.
#[verifier::external_body]
pub(crate) fn insert<V>(table: &mut FnvHashMap<u16, V>, key: u16, value: V) -> (replaced: Option<V>)
    ensures
        final(table)@ == old(table)@.insert(key, value),
        match replaced {
            Some(before) => old(table)@.contains_key(key) && before == old(table)@[key],
            None => !old(table)@.contains_key(key),
        },
{
    table.insert(key, value)
}

/// Calls `FnvHashMap::remove`. Believed without proof: `key` then has no value,
/// every other key has what it had, and the value that `key` had, if any, is
/// handed back.
#[verifier::external_body]
pub(crate) fn remove<V>(table: &mut FnvHashMap<u16, V>, key: u16) -> (removed: Option<V>)
    ensures
        final(table)@ == old(table)@.remove(key),
        match removed {
            Some(before) => old(table)@.contains_key(key) && before == old(table)@[key],
            None => !old(table)@.contains_key(key),
        },
{
    table.remove(&key)
}

/// Calls `FnvHashMap::keys` and lists what it walks over. Believed without proof:
/// every key of the map comes exactly once. Nothing is claimed of the order.
#[verifier::external_body]
pub(crate) fn keys<V>(table: &FnvHashMap<u16, V>) -> (keys: Vec<u16>)
    ensures
        keys@.no_duplicates(),
        keys@.to_set() == table@.dom(),
{
    table.keys().copied().collect()
}

} // verus!
