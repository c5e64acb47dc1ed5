//! The slot map that stores node records, behind trusted specifications.

use vstd::prelude::*;
use slotmap::{DefaultKey, SlotMap};

use crate::scene::graph::NodeRecord;

verus! {

/// The default key type of `slotmap`.
#[verifier::external_type_specification]
#[verifier::external_body]
pub struct ExDefaultKey(DefaultKey);

/// Node records in a `slotmap::SlotMap`, storage with stable unique keys. The
/// map is a private field: its contents are read through `slot_records` and
/// changed only by the functions of this module.
#[verifier::external_body]
pub struct NodeSlots {
    map: SlotMap<DefaultKey, NodeRecord>,
}

/// The records a node slot map currently holds, by key.
pub uninterp spec fn slot_records(m: NodeSlots) -> Map<DefaultKey, NodeRecord>;

/// `SlotMap::with_capacity_and_key`: an empty slot map. slotmap adds one to
/// `capacity` for its sentinel slot, so `usize::MAX` is left out.
#[verifier::external_body]
pub(crate) fn slots_with_capacity(capacity: usize) -> (m: NodeSlots)
    requires
        capacity < usize::MAX,
    ensures
        slot_records(m).dom() == Set::<DefaultKey>::empty(),
{
    NodeSlots { map: SlotMap::with_capacity_and_key(capacity) }
}

/// `SlotMap::insert`: stores `value` under a key that no current entry has and
/// returns that key. slotmap panics once `u32::MAX` slots are in use, so a
/// map that full is left out.
#[verifier::external_body]
pub(crate) fn slots_insert(m: &mut NodeSlots, value: NodeRecord) -> (k:
    DefaultKey)
    requires
        slot_records(*old(m)).dom().finite(),
        slot_records(*old(m)).dom().len() + 2 < u32::MAX,
    ensures
        !slot_records(*old(m)).contains_key(k),
        slot_records(*final(m)) == slot_records(*old(m)).insert(k, value),
{
    m.map.insert(value)
}

/// `SlotMap::get`: the record under `k`, if `k` is current.
#[verifier::external_body]
pub(crate) fn slots_get(m: &NodeSlots, k: DefaultKey) -> (r: Option<
    &NodeRecord,
>)
    ensures
        match r {
            Some(v) => slot_records(*m).contains_key(k) && *v == slot_records(*m)[k],
            None => !slot_records(*m).contains_key(k),
        },
{
    m.map.get(k)
}

/// `IndexMut` of `SlotMap`: a mutable borrow of the record under a current key;
/// the map afterwards holds whatever the borrow left there. slotmap panics
/// on a key that is not current, so such keys are left out.
#[verifier::external_body]
pub(crate) fn slots_get_mut(m: &mut NodeSlots, k: DefaultKey) -> (r:
    &mut NodeRecord)
    requires
        slot_records(*old(m)).contains_key(k),
    ensures
        *r == slot_records(*old(m))[k],
        slot_records(*final(m)) == slot_records(*old(m)).insert(k, *final(r)),
{
    &mut m.map[k]
}

/// `SlotMap::remove`: takes the record under `k` out of the map, if `k` is current.
#[verifier::external_body]
pub(crate) fn slots_remove(m: &mut NodeSlots, k: DefaultKey) -> (r: Option<
    NodeRecord,
>)
    ensures
        match r {
            Some(v) => slot_records(*old(m)).contains_key(k) && v == slot_records(*old(m))[k],
            None => !slot_records(*old(m)).contains_key(k),
        },
        slot_records(*final(m)) == slot_records(*old(m)).remove(k),
{
    m.map.remove(k)
}

} // verus!
