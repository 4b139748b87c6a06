//! Turning yield into rewards.

use vstd::prelude::*;
use crate::error::PoolError;
use crate::guard::TaskGuard;
use crate::history::push_member_rewards;
use crate::ledger::{
    get_member_to_pending_cycles, is_pending_list, reset_member_pending_cycles,
};
use crate::memory::{get_last_reward_timestamp, set_last_reward_timestamp, Pool, PoolView};
use crate::model::{
    is_distribution, keyed, ledger_sum, lemma_pushed_distribution, lemma_reset_distribution,
    lemma_total_cycles_prefix, measure, members_of, names, net_yield, participant,
    realize_verdict, realized_cycles, realized_rewards, reward_of, share_of, total_cycles,
    total_fee, weigher, Measure,
};
use crate::principal::{precedes, PrincipalId};
use crate::sums::lemma_map_sum_bounds;
use crate::types::{Block, Reward, BOB_TRANSFER_FEE};

verus! {

/// The distribution of a yield over the members with pending cycles: the
/// payout fee of each is taken from the yield, and what is left is shared in
/// proportion to the pending cycles, each share rounded down. Nothing is
/// written.
pub fn compute_rewards(pool: &Pool, total_bob_brutto: u128, now: u64) -> (r: Result<
    Vec<(PrincipalId, Reward)>,
    PoolError,
>)
    ensures
        r matches Ok(rs) ==> realize_verdict(pool@.cycles, total_bob_brutto) is Ok
            && is_distribution(keyed(rs@), pool@.cycles, total_bob_brutto, now),
        r matches Err(e) ==> realize_verdict(pool@.cycles, total_bob_brutto) == Err::<
            (),
            PoolError,
        >(e),
{
    let member_to_pending_cycles = get_member_to_pending_cycles(pool);
    let ghost l = pool@.cycles;
    let ghost ps = keyed(member_to_pending_cycles@);
    proof {
        assert(ps.subrange(0, 0) =~= Seq::<(Seq<u8>, u128)>::empty());
    }
    let mut total_pending_cycles: u128 = 0;
    let mut i: usize = 0;
    while i < member_to_pending_cycles.len()
        invariant
            i <= member_to_pending_cycles.len(),
            l == pool@.cycles,
            ps == keyed(member_to_pending_cycles@),
            total_cycles(ps) == ledger_sum(l, Measure::Pending),
            total_pending_cycles == total_cycles(ps.subrange(0, i as int)),
        decreases member_to_pending_cycles.len() - i,
    {
        proof {
            assert(ps.subrange(0, i + 1).drop_last() =~= ps.subrange(0, i as int));
            assert(ps.subrange(0, i + 1).last() == ps[i as int]);
            lemma_total_cycles_prefix(ps, i + 1);
        }
        match total_pending_cycles.checked_add(member_to_pending_cycles[i].1) {
            Some(sum) => {
                total_pending_cycles = sum;
            },
            None => {
                return Err(PoolError::RewardOverflow);
            },
        }
        i += 1;
    }
    proof {
        assert(ps.subrange(0, member_to_pending_cycles.len() as int) =~= ps);
    }
    let num_members: usize = member_to_pending_cycles.len();
    let total_bob_fee: u128 = match (num_members as u128).checked_mul(BOB_TRANSFER_FEE) {
        Some(fee) => fee,
        None => {
            return Err(PoolError::RewardOverflow);
        },
    };
    if total_bob_brutto < total_bob_fee {
        return Err(
            PoolError::YieldBelowFees { total_yield: total_bob_brutto, total_fee: total_bob_fee },
        );
    }
    let total_bob_netto: u128 = total_bob_brutto - total_bob_fee;
    let mut out: Vec<(PrincipalId, Reward)> = Vec::new();
    let mut j: usize = 0;
    while j < member_to_pending_cycles.len()
        invariant
            j <= member_to_pending_cycles.len(),
            l == pool@.cycles,
            ps == keyed(member_to_pending_cycles@),
            is_pending_list(ps, l),
            l.dom().finite(),
            total_pending_cycles == ledger_sum(l, Measure::Pending),
            total_bob_fee == total_fee(l),
            total_bob_fee <= total_bob_brutto,
            total_bob_netto == net_yield(l, total_bob_brutto),
            out@.len() == j,
            forall|a: int|
                #![trigger out@[a]]
                0 <= a < j ==> out@[a].0@ == ps[a].0 && out@[a].1 == reward_of(
                    l,
                    total_bob_brutto,
                    now,
                    ps[a].0,
                ) && total_bob_netto * ps[a].1 <= u128::MAX,
        decreases member_to_pending_cycles.len() - j,
    {
        let pending: u128 = member_to_pending_cycles[j].1;
        proof {
            assert(ps[j as int] == (member_to_pending_cycles@[j as int].0@, pending));
            assert(participant(l, ps[j as int].0) && l[ps[j as int].0].pending == pending);
        }
        let product: u128 = match total_bob_netto.checked_mul(pending) {
            Some(product) => product,
            None => {
                return Err(PoolError::RewardOverflow);
            },
        };
        proof {
            lemma_map_sum_bounds(l, weigher(Measure::Pending), ps[j as int].0);
            assert(measure(Measure::Pending, l[ps[j as int].0]) == pending);
        }
        let bob_reward: u128 = product / total_pending_cycles;
        let reward = Reward { timestamp: now, cycles_burnt: pending, bob_reward, bob_block_index: None };
        proof {
            assert(share_of(l, total_bob_brutto, ps[j as int].0) == bob_reward);
        }
        out.push((member_to_pending_cycles[j].0.clone(), reward));
        j += 1;
    }
    proof {
        let rs = keyed(out@);
        assert forall|a: int, b: int| 0 <= a < b < rs.len() implies precedes(
            #[trigger] rs[a].0,
            #[trigger] rs[b].0,
        ) by {
            assert(rs[a].0 == ps[a].0 && rs[b].0 == ps[b].0);
        }
        assert forall|a: int|
            #![trigger rs[a]]
            0 <= a < rs.len() implies participant(l, rs[a].0) && rs[a].1 == reward_of(
            l,
            total_bob_brutto,
            now,
            rs[a].0,
        ) by {
            assert(out@[a].0@ == ps[a].0);
            assert(participant(l, ps[a].0));
        }
        assert forall|k: Seq<u8>| #[trigger] participant(l, k) implies total_bob_netto * l[k].pending
            <= u128::MAX && exists|a: int| 0 <= a < rs.len() && #[trigger] rs[a].0 == k by {
            let a = choose|a: int| 0 <= a < ps.len() && #[trigger] ps[a].0 == k;
            assert(out@[a].0@ == ps[a].0);
            assert(rs[a].0 == k);
            assert(ps[a].1 == l[k].pending);
        }
    }
    Ok(out)
}

/// Distributes a yield: every member with pending cycles gets a record of
/// its share appended to its history, and nothing is pending afterwards.
/// The distribution is returned. A yield that cannot be distributed leaves
/// the pool as it was.
pub fn add_rewards(pool: &mut Pool, total_bob_brutto: u128, now: u64) -> (r: Result<
    Vec<(PrincipalId, Reward)>,
    PoolError,
>)
    ensures
        r matches Ok(rs) ==> realize_verdict(old(pool)@.cycles, total_bob_brutto) is Ok
            && is_distribution(keyed(rs@), old(pool)@.cycles, total_bob_brutto, now)
            && final(pool)@ == (PoolView {
            cycles: realized_cycles(old(pool)@.cycles),
            rewards: realized_rewards(
                old(pool)@.rewards,
                old(pool)@.cycles,
                total_bob_brutto,
                now,
            ),
            ..old(pool)@
        }),
        r matches Err(e) ==> realize_verdict(old(pool)@.cycles, total_bob_brutto) == Err::<
            (),
            PoolError,
        >(e) && final(pool)@ == old(pool)@,
{
    let new_rewards = match compute_rewards(pool, total_bob_brutto, now) {
        Ok(new_rewards) => new_rewards,
        Err(e) => {
            return Err(e);
        },
    };
    let ghost rs = keyed(new_rewards@);
    let mut members: Vec<PrincipalId> = Vec::new();
    let mut i: usize = 0;
    while i < new_rewards.len()
        invariant
            i <= new_rewards.len(),
            members@.len() == i,
            forall|a: int| 0 <= a < i ==> #[trigger] members@[a]@ == new_rewards@[a].0@,
        decreases new_rewards.len() - i,
    {
        members.push(new_rewards[i].0.clone());
        i += 1;
    }
    proof {
        assert(names(members@) =~= members_of(rs));
        lemma_pushed_distribution(
            pool@.rewards,
            rs,
            pool@.cycles,
            total_bob_brutto,
            now,
        );
        lemma_reset_distribution(pool@.cycles, rs, total_bob_brutto, now);
    }
    push_member_rewards(pool, &new_rewards);
    reset_member_pending_cycles(pool, &members);
    Ok(new_rewards)
}

/// The block pays yield to the pool and is newer than the checkpoint.
pub open spec fn counts(block: Block, pool_id: Seq<u8>, checkpoint: u64) -> bool {
    block.to@ == pool_id && block.timestamp > checkpoint
}

/// The yield of the blocks that count.
pub open spec fn yield_of(blocks: Seq<Block>, pool_id: Seq<u8>, checkpoint: u64) -> nat
    decreases blocks.len(),
{
    if blocks.len() == 0 {
        0
    } else {
        yield_of(blocks.drop_last(), pool_id, checkpoint) + (if counts(
            blocks.last(),
            pool_id,
            checkpoint,
        ) {
            blocks.last().rewards as nat
        } else {
            0
        })
    }
}

/// The newest time among the checkpoint and the blocks that count.
pub open spec fn newest(blocks: Seq<Block>, pool_id: Seq<u8>, checkpoint: u64) -> u64
    decreases blocks.len(),
{
    if blocks.len() == 0 {
        checkpoint
    } else {
        let before = newest(blocks.drop_last(), pool_id, checkpoint);
        if counts(blocks.last(), pool_id, checkpoint) && blocks.last().timestamp > before {
            blocks.last().timestamp
        } else {
            before
        }
    }
}

/// What a check of the block history answers: a history without new yield
/// is accepted as it is, and new yield must be distributable.
pub open spec fn check_verdict(pool: PoolView, blocks: Seq<Block>, pool_id: Seq<u8>) -> Result<
    (),
    PoolError,
> {
    let total = yield_of(blocks, pool_id, pool.last_reward_timestamp);
    if total == 0 {
        Ok(())
    } else {
        realize_verdict(pool.cycles, total as u128)
    }
}

/// The pool after a check of the block history. New yield is distributed
/// and the checkpoint moves to the newest block that counted; without new
/// yield, or with yield that cannot be distributed, nothing changes.
pub open spec fn after_check(pool: PoolView, blocks: Seq<Block>, pool_id: Seq<u8>, now: u64) -> PoolView {
    let total = yield_of(blocks, pool_id, pool.last_reward_timestamp);
    if total == 0 || check_verdict(pool, blocks, pool_id) is Err {
        pool
    } else {
        PoolView {
            cycles: realized_cycles(pool.cycles),
            rewards: realized_rewards(pool.rewards, pool.cycles, total as u128, now),
            last_reward_timestamp: newest(blocks, pool_id, pool.last_reward_timestamp),
            ..pool
        }
    }
}

/// The yield of a block history fits 128 bits.
pub proof fn lemma_yield_bounded(blocks: Seq<Block>, pool_id: Seq<u8>, checkpoint: u64)
    ensures
        yield_of(blocks, pool_id, checkpoint) <= blocks.len() * u64::MAX,
    decreases blocks.len(),
{
    if blocks.len() > 0 {
        lemma_yield_bounded(blocks.drop_last(), pool_id, checkpoint);
        assert(blocks.len() * u64::MAX == (blocks.len() - 1) * u64::MAX + u64::MAX)
            by (nonlinear_arith);
    }
}

/// Checks the block history for yield that the pool has not distributed
/// yet: the yield of every block that went to the pool after the checkpoint
/// is summed up; if there is any, it is distributed and the checkpoint moves
/// to the newest of these blocks. The guard of the check, taken before the
/// history was asked for, is given back whatever the outcome.
pub fn check_rewards(
    pool: &mut Pool,
    guard: TaskGuard,
    latest_blocks: &Vec<Block>,
    pool_id: &PrincipalId,
    now: u64,
) -> (r: Result<(), PoolError>)
    ensures
        r == check_verdict(old(pool)@, latest_blocks@, pool_id@),
        final(pool)@ == (PoolView {
            active_tasks: old(pool)@.active_tasks.remove(guard@),
            ..after_check(old(pool)@, latest_blocks@, pool_id@, now)
        }),
{
    let last_reward_timestamp = get_last_reward_timestamp(pool);
    let mut total_bob_rewards: u128 = 0;
    let mut max_reward_timestamp: u64 = last_reward_timestamp;
    let mut i: usize = 0;
    proof {
        assert(latest_blocks@.subrange(0, 0) =~= Seq::<Block>::empty());
    }
    while i < latest_blocks.len()
        invariant
            i <= latest_blocks.len(),
            total_bob_rewards == yield_of(
                latest_blocks@.subrange(0, i as int),
                pool_id@,
                last_reward_timestamp,
            ),
            max_reward_timestamp == newest(
                latest_blocks@.subrange(0, i as int),
                pool_id@,
                last_reward_timestamp,
            ),
        decreases latest_blocks.len() - i,
    {
        proof {
            let next = latest_blocks@.subrange(0, i + 1);
            assert(next.drop_last() =~= latest_blocks@.subrange(0, i as int));
            assert(next.last() == latest_blocks@[i as int]);
            lemma_yield_bounded(next, pool_id@, last_reward_timestamp);
            assert(next.len() * u64::MAX <= usize::MAX * u64::MAX) by (nonlinear_arith)
                requires
                    next.len() <= usize::MAX,
            ;
            assert(usize::MAX * u64::MAX <= u64::MAX * u64::MAX) by (nonlinear_arith)
                requires
                    usize::MAX <= u64::MAX,
            ;
        }
        let block = &latest_blocks[i];
        if block.to.same_as(pool_id) && block.timestamp > last_reward_timestamp {
            total_bob_rewards = total_bob_rewards + block.rewards as u128;
            if block.timestamp > max_reward_timestamp {
                max_reward_timestamp = block.timestamp;
            }
        }
        i += 1;
    }
    proof {
        assert(latest_blocks@.subrange(0, latest_blocks.len() as int) =~= latest_blocks@);
    }
    let res = if total_bob_rewards > 0 {
        match add_rewards(pool, total_bob_rewards, now) {
            Ok(_) => {
                set_last_reward_timestamp(pool, max_reward_timestamp);
                Ok(())
            },
            Err(e) => Err(e),
        }
    } else {
        Ok(())
    };
    guard.release(pool);
    res
}

} // verus!
