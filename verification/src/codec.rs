//! The byte forms in which the singleton state, and the balances and the
//! reward history of a member are kept.
//!
//! The state is at least 18 bytes: the checkpoint of the reward check (8,
//! little endian), one byte that says whether a block count was recorded, the
//! block count (8), one byte that says whether there is a miner, and the bytes
//! of the miner. Fewer bytes stand for the state of a new pool.
//!
//! Balances are 48 bytes: the block cycles, the pending cycles and the
//! remaining cycles, 16 bytes each, little endian. Bytes of any other length
//! stand for balances that are all zero.
//!
//! A history is the concatenation of its records; a record is 49 bytes: the
//! timestamp (8, little endian), the cycles burnt (16), the reward (16), one
//! byte that says whether the reward was paid, and the block index of the
//! payment (8). Every byte string decodes to a history: bytes after the last
//! whole record are ignored.

use vstd::prelude::*;
use vstd::bytes::{
    lemma_auto_spec_u128_to_from_le_bytes, lemma_auto_spec_u64_to_from_le_bytes,
    spec_u128_from_le_bytes, spec_u128_to_le_bytes, spec_u64_from_le_bytes,
    spec_u64_to_le_bytes, u128_from_le_bytes, u128_to_le_bytes, u64_from_le_bytes,
    u64_to_le_bytes,
};
use vstd::slice::{slice_subrange, slice_to_vec};
use crate::principal::{PrincipalId, MAX_PRINCIPAL_BYTES};
use crate::types::{DurableState, DurableStateView, MemberCycles, Reward};

verus! {

/// Length of the encoded state without the bytes of the miner.
pub const STATE_BYTES: usize = 18;

/// The state of a new pool.
pub open spec fn new_state() -> DurableStateView {
    DurableStateView { miner: None, last_reward_timestamp: 0, block_count: None }
}

/// The bytes of the state.
pub open spec fn encode_state(s: DurableStateView) -> Seq<u8> {
    spec_u64_to_le_bytes(s.last_reward_timestamp) + (match s.block_count {
        Some(count) => seq![1u8] + spec_u64_to_le_bytes(count),
        None => seq![0u8] + spec_u64_to_le_bytes(0),
    }) + (match s.miner {
        Some(miner) => seq![1u8] + miner,
        None => seq![0u8],
    })
}

/// The state that a byte string stands for.
pub open spec fn decode_state(b: Seq<u8>) -> DurableStateView {
    if b.len() < 18 {
        new_state()
    } else {
        DurableStateView {
            miner: if b[17] != 0 && b.len() - 18 <= MAX_PRINCIPAL_BYTES {
                Some(b.subrange(18, b.len() as int))
            } else {
                None
            },
            last_reward_timestamp: spec_u64_from_le_bytes(b.subrange(0, 8)),
            block_count: if b[8] != 0 {
                Some(spec_u64_from_le_bytes(b.subrange(9, 17)))
            } else {
                None
            },
        }
    }
}

/// A state whose miner is a principal decodes to itself.
pub proof fn lemma_state_round_trip(s: DurableStateView)
    requires
        s.miner matches Some(miner) ==> miner.len() <= MAX_PRINCIPAL_BYTES,
    ensures
        decode_state(encode_state(s)) == s,
{
    lemma_auto_spec_u64_to_from_le_bytes();
    let b = encode_state(s);
    let count: u64 = match s.block_count {
        Some(count) => count,
        None => 0,
    };
    assert(b.subrange(0, 8) =~= spec_u64_to_le_bytes(s.last_reward_timestamp));
    assert(b.subrange(9, 17) =~= spec_u64_to_le_bytes(count));
    match s.miner {
        Some(miner) => {
            assert(b.subrange(18, b.len() as int) =~= miner);
        },
        None => {},
    }
}

/// Encodes the state.
pub fn encode_durable_state(s: &DurableState) -> (b: Vec<u8>)
    ensures
        b@ == encode_state(s@),
        s@.miner matches Some(miner) ==> miner.len() <= MAX_PRINCIPAL_BYTES,
{
    let mut out = u64_to_le_bytes(s.last_reward_timestamp);
    let (recorded, mut count): (u8, Vec<u8>) = match s.block_count {
        Some(count) => (1u8, u64_to_le_bytes(count)),
        None => (0u8, u64_to_le_bytes(0)),
    };
    out.push(recorded);
    out.append(&mut count);
    match &s.miner {
        Some(miner) => {
            let ghost before = out@;
            out.push(1);
            let mut bytes = slice_to_vec(miner.as_slice());
            out.append(&mut bytes);
            assert(out@ =~= before + (seq![1u8] + miner@));
        },
        None => {
            out.push(0);
        },
    }
    assert(out@ =~= encode_state(s@));
    out
}

/// Decodes the state.
pub fn decode_durable_state(b: &[u8]) -> (s: DurableState)
    ensures
        s@ == decode_state(b@),
{
    if b.len() < STATE_BYTES {
        return DurableState { miner: None, last_reward_timestamp: 0, block_count: None };
    }
    let miner = if b[17] != 0 {
        PrincipalId::from_slice(slice_subrange(b, STATE_BYTES, b.len()))
    } else {
        None
    };
    DurableState {
        miner,
        last_reward_timestamp: u64_from_le_bytes(slice_subrange(b, 0, 8)),
        block_count: if b[8] != 0 {
            Some(u64_from_le_bytes(slice_subrange(b, 9, 17)))
        } else {
            None
        },
    }
}

/// Length of encoded balances.
pub const CYCLES_BYTES: usize = 48;

/// The bytes of the balances of a member.
pub open spec fn encode_cycles(c: MemberCycles) -> Seq<u8> {
    spec_u128_to_le_bytes(c.block) + spec_u128_to_le_bytes(c.pending) + spec_u128_to_le_bytes(
        c.remaining,
    )
}

/// The balances that a byte string stands for.
pub open spec fn decode_cycles(b: Seq<u8>) -> MemberCycles {
    if b.len() == 48 {
        MemberCycles {
            block: spec_u128_from_le_bytes(b.subrange(0, 16)),
            pending: spec_u128_from_le_bytes(b.subrange(16, 32)),
            remaining: spec_u128_from_le_bytes(b.subrange(32, 48)),
        }
    } else {
        MemberCycles { block: 0, pending: 0, remaining: 0 }
    }
}

/// Balances are 48 bytes long and decode to themselves.
pub proof fn lemma_cycles_round_trip(c: MemberCycles)
    ensures
        encode_cycles(c).len() == 48,
        decode_cycles(encode_cycles(c)) == c,
{
    lemma_auto_spec_u128_to_from_le_bytes();
    let b = encode_cycles(c);
    assert(b.subrange(0, 16) =~= spec_u128_to_le_bytes(c.block));
    assert(b.subrange(16, 32) =~= spec_u128_to_le_bytes(c.pending));
    assert(b.subrange(32, 48) =~= spec_u128_to_le_bytes(c.remaining));
}

/// Encodes balances.
pub fn encode_member_cycles(c: &MemberCycles) -> (b: Vec<u8>)
    ensures
        b@ == encode_cycles(*c),
{
    let mut out = u128_to_le_bytes(c.block);
    let mut pending = u128_to_le_bytes(c.pending);
    let mut remaining = u128_to_le_bytes(c.remaining);
    out.append(&mut pending);
    out.append(&mut remaining);
    out
}

/// Decodes balances.
pub fn decode_member_cycles(b: &[u8]) -> (c: MemberCycles)
    ensures
        c == decode_cycles(b@),
{
    if b.len() == CYCLES_BYTES {
        MemberCycles {
            block: u128_from_le_bytes(slice_subrange(b, 0, 16)),
            pending: u128_from_le_bytes(slice_subrange(b, 16, 32)),
            remaining: u128_from_le_bytes(slice_subrange(b, 32, 48)),
        }
    } else {
        MemberCycles { block: 0, pending: 0, remaining: 0 }
    }
}

/// Length of one encoded record.
pub const REWARD_BYTES: usize = 49;

/// The bytes of one record.
pub open spec fn encode_reward(r: Reward) -> Seq<u8> {
    spec_u64_to_le_bytes(r.timestamp) + spec_u128_to_le_bytes(r.cycles_burnt)
        + spec_u128_to_le_bytes(r.bob_reward) + (match r.bob_block_index {
        Some(index) => seq![1u8] + spec_u64_to_le_bytes(index),
        None => seq![0u8] + spec_u64_to_le_bytes(0),
    })
}

/// The record that 49 bytes stand for.
pub open spec fn decode_reward(b: Seq<u8>) -> Reward {
    Reward {
        timestamp: spec_u64_from_le_bytes(b.subrange(0, 8)),
        cycles_burnt: spec_u128_from_le_bytes(b.subrange(8, 24)),
        bob_reward: spec_u128_from_le_bytes(b.subrange(24, 40)),
        bob_block_index: if b[40] == 0 {
            None
        } else {
            Some(spec_u64_from_le_bytes(b.subrange(41, 49)))
        },
    }
}

/// The bytes of a history: its records one after the other.
pub open spec fn encode_rewards(rs: Seq<Reward>) -> Seq<u8>
    decreases rs.len(),
{
    if rs.len() == 0 {
        Seq::empty()
    } else {
        encode_rewards(rs.drop_last()) + encode_reward(rs.last())
    }
}

/// The history that a byte string stands for.
pub open spec fn decode_rewards(b: Seq<u8>) -> Seq<Reward> {
    Seq::new(
        (b.len() / 49) as nat,
        |i: int| decode_reward(b.subrange(49 * i, 49 * i + 49)),
    )
}

/// A record is 49 bytes long and decodes to itself.
pub proof fn lemma_reward_round_trip(r: Reward)
    ensures
        encode_reward(r).len() == 49,
        decode_reward(encode_reward(r)) == r,
{
    lemma_auto_spec_u64_to_from_le_bytes();
    lemma_auto_spec_u128_to_from_le_bytes();
    let b = encode_reward(r);
    let index: u64 = match r.bob_block_index {
        Some(index) => index,
        None => 0,
    };
    assert(b.subrange(0, 8) =~= spec_u64_to_le_bytes(r.timestamp));
    assert(b.subrange(8, 24) =~= spec_u128_to_le_bytes(r.cycles_burnt));
    assert(b.subrange(24, 40) =~= spec_u128_to_le_bytes(r.bob_reward));
    assert(b.subrange(41, 49) =~= spec_u64_to_le_bytes(index));
}

/// A history of `n` records is `49 * n` bytes long and decodes to itself.
pub proof fn lemma_rewards_round_trip(rs: Seq<Reward>)
    ensures
        encode_rewards(rs).len() == 49 * rs.len(),
        decode_rewards(encode_rewards(rs)) == rs,
    decreases rs.len(),
{
    if rs.len() > 0 {
        let front = rs.drop_last();
        lemma_rewards_round_trip(front);
        lemma_reward_round_trip(rs.last());
        let b = encode_rewards(rs);
        let fb = encode_rewards(front);
        assert(b == fb + encode_reward(rs.last()));
        assert(b.len() == 49 * rs.len());
        let d = decode_rewards(b);
        assert(d.len() == rs.len());
        assert forall|i: int| 0 <= i < rs.len() implies d[i] == rs[i] by {
            if i < front.len() {
                assert(b.subrange(49 * i, 49 * i + 49) =~= fb.subrange(49 * i, 49 * i + 49));
                assert(decode_rewards(fb)[i] == front[i]);
            } else {
                assert(b.subrange(49 * i, 49 * i + 49) =~= encode_reward(rs.last()));
            }
        }
        assert(d =~= rs);
    } else {
        assert(decode_rewards(encode_rewards(rs)) =~= rs);
    }
}

/// Encodes a history.
pub fn encode(rs: &Vec<Reward>) -> (b: Vec<u8>)
    ensures
        b@ == encode_rewards(rs@),
{
    let mut out: Vec<u8> = Vec::new();
    let mut i: usize = 0;
    while i < rs.len()
        invariant
            i <= rs.len(),
            out@ == encode_rewards(rs@.subrange(0, i as int)),
        decreases rs.len() - i,
    {
        let r = rs[i];
        let mut timestamp = u64_to_le_bytes(r.timestamp);
        let mut burnt = u128_to_le_bytes(r.cycles_burnt);
        let mut reward = u128_to_le_bytes(r.bob_reward);
        let (paid, mut index): (u8, Vec<u8>) = match r.bob_block_index {
            Some(index) => (1u8, u64_to_le_bytes(index)),
            None => (0u8, u64_to_le_bytes(0)),
        };
        let ghost before = out@;
        out.append(&mut timestamp);
        out.append(&mut burnt);
        out.append(&mut reward);
        out.push(paid);
        out.append(&mut index);
        proof {
            let next = rs@.subrange(0, i + 1);
            assert(next.drop_last() =~= rs@.subrange(0, i as int));
            assert(next.last() == r);
            assert(out@ =~= before + encode_reward(r));
        }
        i += 1;
    }
    assert(rs@.subrange(0, rs.len() as int) =~= rs@);
    out
}

/// Decodes a history.
pub fn decode(b: &[u8]) -> (rs: Vec<Reward>)
    ensures
        rs@ == decode_rewards(b@),
{
    let n: usize = b.len() / REWARD_BYTES;
    let mut rs: Vec<Reward> = Vec::new();
    let mut i: usize = 0;
    while i < n
        invariant
            n == b@.len() / 49,
            b@.len() <= usize::MAX,
            i <= n,
            rs@.len() == i,
            forall|j: int| 0 <= j < i ==> rs@[j] == decode_rewards(b@)[j],
        decreases n - i,
    {
        assert(49 * i + 49 <= b@.len()) by (nonlinear_arith)
            requires
                i < n,
                n == b@.len() / 49,
        ;
        let start: usize = i * REWARD_BYTES;
        let record = slice_subrange(b, start, start + REWARD_BYTES);
        let paid: u8 = record[40];
        let index: u64 = u64_from_le_bytes(slice_subrange(record, 41, 49));
        let r = Reward {
            timestamp: u64_from_le_bytes(slice_subrange(record, 0, 8)),
            cycles_burnt: u128_from_le_bytes(slice_subrange(record, 8, 24)),
            bob_reward: u128_from_le_bytes(slice_subrange(record, 24, 40)),
            bob_block_index: if paid == 0 {
                None
            } else {
                Some(index)
            },
        };
        assert(r == decode_reward(b@.subrange(49 * i, 49 * i + 49)));
        rs.push(r);
        i += 1;
    }
    assert(rs@ =~= decode_rewards(b@));
    rs
}

} // verus!
