//! The regions of the pool as the pool reads and writes them: the state,
//! balances and histories in place of bytes.

use vstd::prelude::*;
use crate::codec::{
    decode, decode_cycles, decode_durable_state, decode_member_cycles, decode_rewards,
    decode_state, encode, encode_durable_state, encode_member_cycles, lemma_cycles_round_trip,
    lemma_rewards_round_trip, lemma_state_round_trip,
};
use crate::model::{ascending, keyed};
use crate::principal::{precedes, PrincipalId};
use crate::store::{region_entries, region_get, region_insert, region_of, Region};
use crate::sums::lists;
use crate::types::{DurableState, DurableStateView, MemberCycles, Reward};

verus! {

/// Whether a region holds nothing at all.
pub(crate) fn is_vacant(region: &Region) -> (r: bool)
    ensures
        r == (forall|k: Seq<u8>| !region_of(*region).contains_key(k)),
{
    let entries = region_entries(region);
    proof {
        if entries@.len() > 0 {
            assert(region_of(*region).contains_key(entries@[0].0@));
        }
    }
    entries.len() == 0
}

/// The bytes of the state: what the region of the state holds under the
/// empty principal.
pub open spec fn state_bytes(region: Region) -> Seq<u8> {
    if region_of(region).contains_key(Seq::<u8>::empty()) {
        region_of(region)[Seq::<u8>::empty()]
    } else {
        Seq::empty()
    }
}

/// The state that the region of the state holds.
pub open spec fn state_of(region: Region) -> DurableStateView {
    decode_state(state_bytes(region))
}

/// The state.
pub(crate) fn read_state(region: &Region) -> (r: DurableState)
    ensures
        r@ == state_of(*region),
{
    let key = PrincipalId::management_canister();
    match region_get(region, &key) {
        Some(bytes) => decode_durable_state(bytes.as_slice()),
        None => {
            let empty: Vec<u8> = Vec::new();
            decode_durable_state(empty.as_slice())
        },
    }
}

/// Replaces the state.
pub(crate) fn write_state(region: &mut Region, value: &DurableState)
    ensures
        state_of(*final(region)) == value@,
{
    let key = PrincipalId::management_canister();
    let bytes = encode_durable_state(value);
    proof {
        lemma_state_round_trip(value@);
    }
    region_insert(region, &key, bytes);
}

/// The balances that the region of the cycle balances holds.
pub open spec fn cycles_of(region: Region) -> Map<Seq<u8>, MemberCycles> {
    Map::new(
        |k: Seq<u8>| region_of(region).contains_key(k),
        |k: Seq<u8>| decode_cycles(region_of(region)[k]),
    )
}

/// The histories that the region of the reward histories holds.
pub open spec fn histories_of(region: Region) -> Map<Seq<u8>, Seq<Reward>> {
    Map::new(
        |k: Seq<u8>| region_of(region).contains_key(k),
        |k: Seq<u8>| decode_rewards(region_of(region)[k]),
    )
}

/// The balances of a member, if it is one.
pub(crate) fn cycles_get(region: &Region, member: &PrincipalId) -> (r: Option<MemberCycles>)
    ensures
        r == (if cycles_of(*region).contains_key(member@) {
            Some(cycles_of(*region)[member@])
        } else {
            None
        }),
{
    match region_get(region, member) {
        Some(bytes) => Some(decode_member_cycles(bytes.as_slice())),
        None => None,
    }
}

/// Gives a member its balances.
pub(crate) fn cycles_insert(region: &mut Region, member: &PrincipalId, value: MemberCycles)
    ensures
        cycles_of(*final(region)) == cycles_of(*old(region)).insert(member@, value),
{
    let bytes = encode_member_cycles(&value);
    proof {
        lemma_cycles_round_trip(value);
    }
    let ghost before = *region;
    region_insert(region, member, bytes);
    assert(cycles_of(*region) =~= cycles_of(before).insert(member@, value));
}

/// Every member once with its balances, in ledger order.
pub(crate) fn cycles_entries(region: &Region) -> (r: Vec<(PrincipalId, MemberCycles)>)
    ensures
        lists(keyed(r@), cycles_of(*region)),
        ascending(keyed(r@)),
{
    let raw = region_entries(region);
    let mut out: Vec<(PrincipalId, MemberCycles)> = Vec::new();
    let mut i: usize = 0;
    while i < raw.len()
        invariant
            i <= raw.len(),
            out@.len() == i,
            forall|a: int|
                #![trigger out@[a]]
                0 <= a < i ==> out@[a].0@ == raw@[a].0@ && out@[a].1 == decode_cycles(raw@[a].1@),
        decreases raw.len() - i,
    {
        out.push((raw[i].0.clone(), decode_member_cycles(raw[i].1.as_slice())));
        i += 1;
    }
    proof {
        let es = keyed(out@);
        let l = cycles_of(*region);
        assert forall|a: int| 0 <= a < es.len() implies l.contains_key(#[trigger] es[a].0) && l[es[a].0]
            == es[a].1 by {
            assert(region_of(*region).contains_key(raw@[a].0@));
            assert(out@[a].0@ == raw@[a].0@);
        }
        assert forall|k: Seq<u8>| #[trigger] l.contains_key(k) implies exists|a: int|
            0 <= a < es.len() && #[trigger] es[a].0 == k by {
            assert(region_of(*region).contains_key(k));
            let a = choose|a: int| #![trigger raw@[a]] 0 <= a < raw@.len() && raw@[a].0@ == k;
            assert(out@[a].0@ == k);
            assert(es[a].0 == k);
        }
        assert forall|a: int, b: int| 0 <= a < b < es.len() implies precedes(
            #[trigger] es[a].0,
            #[trigger] es[b].0,
        ) by {
            assert(precedes(raw@[a].0@, raw@[b].0@));
            assert(out@[a].0@ == raw@[a].0@ && out@[b].0@ == raw@[b].0@);
        }
    }
    out
}

/// The history of a member, if it has one.
pub(crate) fn histories_get(region: &Region, member: &PrincipalId) -> (r: Option<Vec<Reward>>)
    ensures
        r is Some <==> histories_of(*region).contains_key(member@),
        r matches Some(rewards) ==> rewards@ == histories_of(*region)[member@],
{
    match region_get(region, member) {
        Some(bytes) => Some(decode(bytes.as_slice())),
        None => None,
    }
}

/// Gives a member its history.
pub(crate) fn histories_insert(region: &mut Region, member: &PrincipalId, rewards: &Vec<Reward>)
    ensures
        histories_of(*final(region)) == histories_of(*old(region)).insert(member@, rewards@),
{
    let bytes = encode(rewards);
    proof {
        lemma_rewards_round_trip(rewards@);
    }
    let ghost before = *region;
    region_insert(region, member, bytes);
    assert(histories_of(*region) =~= histories_of(before).insert(member@, rewards@));
}

} // verus!
