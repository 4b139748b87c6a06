//! The durable regions of the pool: three maps from principal to bytes, one
//! for the singleton state, one for the cycle balances and one for the reward
//! histories.
//!
//! The regions live in stable structures. Nothing in this file is proved:
//! each function states what the stable structure it calls is documented to
//! do, and the rest of the crate is verified against these statements.

use vstd::prelude::*;
use candid::Principal;
use ic_stable_structures::memory_manager::{MemoryId, MemoryManager, VirtualMemory};
use ic_stable_structures::{DefaultMemoryImpl, StableBTreeMap};
use crate::principal::{precedes, PrincipalId};

verus! {

/// A map from principal to bytes.
#[verifier::external_body]
pub struct Region {
    map: StableBTreeMap<Principal, Vec<u8>, VirtualMemory<DefaultMemoryImpl>>,
}

/// What a region holds, keyed by the principal's bytes.
pub uninterp spec fn region_of(region: Region) -> Map<Seq<u8>, Seq<u8>>;

/// `MemoryManager::init` over the default memory, then `StableBTreeMap::init`
/// over the virtual memory of each region. What the maps hold afterwards is
/// whatever the memory held: nothing is claimed of it.
#[verifier::external_body]
pub(crate) fn open_regions(state: u8, cycles: u8, rewards: u8) -> (r: (Region, Region, Region))
    requires
        state != 255 && cycles != 255 && rewards != 255,
        state != cycles && state != rewards && cycles != rewards,
{
    let manager = MemoryManager::init(DefaultMemoryImpl::default());
    let state_map = StableBTreeMap::init(manager.get(MemoryId::new(state)));
    let cycles_map = StableBTreeMap::init(manager.get(MemoryId::new(cycles)));
    let rewards_map = StableBTreeMap::init(manager.get(MemoryId::new(rewards)));
    (Region { map: state_map }, Region { map: cycles_map }, Region { map: rewards_map })
}

/// `StableBTreeMap::get`: the value for the given key, if it exists.
#[verifier::external_body]
pub(crate) fn region_get(region: &Region, member: &PrincipalId) -> (r: Option<Vec<u8>>)
    ensures
        r is Some <==> region_of(*region).contains_key(member@),
        r matches Some(bytes) ==> bytes@ == region_of(*region)[member@],
{
    region.map.get(&Principal::from_slice(member.as_slice()))
}

/// `StableBTreeMap::insert`: afterwards the key maps to the value, and every
/// other key to what it mapped to before.
#[verifier::external_body]
pub(crate) fn region_insert(region: &mut Region, member: &PrincipalId, bytes: Vec<u8>)
    ensures
        region_of(*final(region)) == region_of(*old(region)).insert(member@, bytes@),
{
    region.map.insert(Principal::from_slice(member.as_slice()), bytes);
}

/// `StableBTreeMap::iter`, collected: every entry of the map once, sorted by
/// key. Principals are ordered as a derived order on length and padded bytes
/// orders them, which is [`precedes`].
#[verifier::external_body]
pub(crate) fn region_entries(region: &Region) -> (r: Vec<(PrincipalId, Vec<u8>)>)
    ensures
        forall|i: int|
            #![trigger r@[i]]
            0 <= i < r@.len() ==> region_of(*region).contains_key(r@[i].0@) && region_of(
                *region,
            )[r@[i].0@] == r@[i].1@,
        forall|k: Seq<u8>|
            #![trigger region_of(*region).contains_key(k)]
            region_of(*region).contains_key(k) ==> exists|i: int|
                #![trigger r@[i]]
                0 <= i < r@.len() && r@[i].0@ == k,
        forall|i: int, j: int|
            #![trigger r@[i], r@[j]]
            0 <= i < j < r@.len() ==> precedes(r@[i].0@, r@[j].0@),
{
    region.map.iter().map(|(k, v)| (PrincipalId { bytes: k.as_slice().to_vec() }, v)).collect()
}

} // verus!
