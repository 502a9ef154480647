//! The multimaps that hold committed allocations and pending returns, keyed
//! by address, and what each of their operations does to their contents.

use multimap::MultiMap;
use vstd::prelude::*;
use crate::tracer::{AllocMeta, Allocation};
use crate::variables::DataType;

verus! {

#[verifier::external_type_specification]
#[verifier::external_body]
#[verifier::reject_recursive_types(K)]
#[verifier::reject_recursive_types(V)]
#[verifier::reject_recursive_types(S)]
pub struct ExMultiMap<K, V, S>(MultiMap<K, V, S>);

/// The contents of a map of committed allocations: for each start address,
/// the allocations at it in order of insertion.
pub uninterp spec fn allocation_entries(m: MultiMap<u64, Allocation>) -> Map<u64, Seq<Allocation>>;

/// The contents of a map of pending returns: for each return address, the
/// calls waiting on it in order of insertion.
pub uninterp spec fn pending_entries(m: MultiMap<u64, AllocMeta>) -> Map<u64, Seq<AllocMeta>>;

/// `m` holds no key.
pub open spec fn no_entries<V>(m: Map<u64, Seq<V>>) -> bool {
    m == Map::<u64, Seq<V>>::empty()
}

/// `m` with `v` appended to the values of `k`.
pub open spec fn appended<V>(m: Map<u64, Seq<V>>, k: u64, v: V) -> Map<u64, Seq<V>> {
    m.insert(k, (if m.contains_key(k) { m[k] } else { Seq::empty() }).push(v))
}

/// Relies on `MultiMap::new`: an empty map.
#[verifier::external_body]
pub(crate) fn new_allocation_map() -> (r: MultiMap<u64, Allocation>)
    ensures
        no_entries(allocation_entries(r)),
{
    MultiMap::new()
}

/// Relies on `MultiMap::insert`: the value is pushed at the end of the key's vector,
/// which is created if the key was absent.
#[verifier::external_body]
pub(crate) fn allocation_insert(m: &mut MultiMap<u64, Allocation>, k: u64, v: Allocation)
    ensures
        allocation_entries(*final(m)) == appended(allocation_entries(*old(m)), k, v),
{
    m.insert(k, v)
}

/// Relies on `MultiMap::remove`: the key's whole vector is taken out.
#[verifier::external_body]
pub(crate) fn allocation_remove(m: &mut MultiMap<u64, Allocation>, k: u64) -> (r: Option<Vec<Allocation>>)
    ensures
        match r {
            Some(v) => {
                &&& allocation_entries(*old(m)).contains_key(k)
                &&& v@ == allocation_entries(*old(m))[k]
                &&& allocation_entries(*final(m)) == allocation_entries(*old(m)).remove(k)
            },
            None => {
                &&& !allocation_entries(*old(m)).contains_key(k)
                &&& allocation_entries(*final(m)) == allocation_entries(*old(m))
            },
        },
{
    m.remove(&k)
}

/// Relies on `MultiMap::get_vec`: a copy of the key's vector.
#[verifier::external_body]
pub(crate) fn allocation_get_vec(m: &MultiMap<u64, Allocation>, k: u64) -> (r: Option<Vec<Allocation>>)
    ensures
        match r {
            Some(v) => allocation_entries(*m).contains_key(k) && v@ == allocation_entries(*m)[k],
            None => !allocation_entries(*m).contains_key(k),
        },
{
    m.get_vec(&k).cloned()
}

/// Relies on `MultiMap::iter`: each key with the first value of its vector, in
/// no set order; every key is visited when no vector is empty.
#[verifier::external_body]
pub(crate) fn allocation_firsts(m: &MultiMap<u64, Allocation>) -> (r: Vec<(u64, Allocation)>)
    ensures
        forall|i: int|
            0 <= i < r@.len() ==> {
                let (k, a) = #[trigger] r@[i];
                &&& allocation_entries(*m).contains_key(k)
                &&& allocation_entries(*m)[k].len() > 0
                &&& a == allocation_entries(*m)[k][0]
            },
        (forall|k: u64| #[trigger] allocation_entries(*m).contains_key(k) ==> allocation_entries(*m)[k].len() > 0)
            ==> forall|k: u64| #[trigger] allocation_entries(*m).contains_key(k)
            ==> exists|i: int| 0 <= i < r@.len() && #[trigger] r@[i].0 == k,
{
    m.iter().map(|(k, a)| (*k, *a)).collect()
}

/// Relies on `MultiMap::new`: an empty map.
#[verifier::external_body]
pub(crate) fn new_pending_map() -> (r: MultiMap<u64, AllocMeta>)
    ensures
        no_entries(pending_entries(r)),
{
    MultiMap::new()
}

/// Relies on `MultiMap::insert`: the value is pushed at the end of the key's vector,
/// which is created if the key was absent.
#[verifier::external_body]
pub(crate) fn pending_insert(m: &mut MultiMap<u64, AllocMeta>, k: u64, v: AllocMeta)
    ensures
        pending_entries(*final(m)) == appended(pending_entries(*old(m)), k, v),
{
    m.insert(k, v)
}

/// Relies on `MultiMap::get_vec`: a copy of the key's vector.
#[verifier::external_body]
pub(crate) fn pending_get_vec(m: &MultiMap<u64, AllocMeta>, k: u64) -> (r: Option<Vec<AllocMeta>>)
    ensures
        match r {
            Some(v) => pending_entries(*m).contains_key(k) && v@ == pending_entries(*m)[k],
            None => !pending_entries(*m).contains_key(k),
        },
{
    m.get_vec(&k).cloned()
}

/// Relies on `MultiMap::remove`: the key's whole vector is taken out.
#[verifier::external_body]
pub(crate) fn pending_remove(m: &mut MultiMap<u64, AllocMeta>, k: u64) -> (r: Option<Vec<AllocMeta>>)
    ensures
        match r {
            Some(v) => {
                &&& pending_entries(*old(m)).contains_key(k)
                &&& v@ == pending_entries(*old(m))[k]
                &&& pending_entries(*final(m)) == pending_entries(*old(m)).remove(k)
            },
            None => {
                &&& !pending_entries(*old(m)).contains_key(k)
                &&& pending_entries(*final(m)) == pending_entries(*old(m))
            },
        },
{
    m.remove(&k)
}

/// The contents of a map of stack variables: for each address, the
/// variables recorded at it in order of insertion.
pub uninterp spec fn variable_entries(m: MultiMap<u64, DataType>) -> Map<u64, Seq<DataType>>;

/// Relies on `MultiMap::new`: an empty map.
#[verifier::external_body]
pub(crate) fn new_variable_map() -> (r: MultiMap<u64, DataType>)
    ensures
        no_entries(variable_entries(r)),
{
    MultiMap::new()
}

/// Relies on `MultiMap::insert`: the value is pushed at the end of the key's vector,
/// which is created if the key was absent.
#[verifier::external_body]
pub(crate) fn variable_insert(m: &mut MultiMap<u64, DataType>, k: u64, v: DataType)
    ensures
        variable_entries(*final(m)) == appended(variable_entries(*old(m)), k, v),
{
    m.insert(k, v)
}

/// Relies on `MultiMap::remove`: the key's whole vector is taken out.
#[verifier::external_body]
pub(crate) fn variable_remove(m: &mut MultiMap<u64, DataType>, k: u64) -> (r: Option<Vec<DataType>>)
    ensures
        match r {
            Some(v) => {
                &&& variable_entries(*old(m)).contains_key(k)
                &&& v@ == variable_entries(*old(m))[k]
                &&& variable_entries(*final(m)) == variable_entries(*old(m)).remove(k)
            },
            None => {
                &&& !variable_entries(*old(m)).contains_key(k)
                &&& variable_entries(*final(m)) == variable_entries(*old(m))
            },
        },
{
    m.remove(&k)
}

} // verus!
