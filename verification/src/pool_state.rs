//! What the pool reports of itself.

use vstd::prelude::*;
use crate::history::get_member_rewards;
use crate::ledger::ledger_entries;
use crate::lifecycle::get_running_state;
use crate::memory::{get_miner_canister, Pool};
use crate::model::{history, keyed, ledger_sum, measure, weigher, Histories, Ledger, Measure};
use crate::sums::{lemma_lists_sum, lemma_seq_sum_step, lists, map_sum, seq_sum};
use crate::types::{MemberCycles, PoolState, Reward};

verus! {

/// What is summed over a reward history.
pub enum RewardMeasure {
    /// The cycles that were burnt.
    CyclesBurnt,
    /// The rewards that are owed or were paid.
    BobReward,
}

/// The weight of one record under a measure.
pub open spec fn reward_measure(w: RewardMeasure, r: Reward) -> nat {
    match w {
        RewardMeasure::CyclesBurnt => r.cycles_burnt as nat,
        RewardMeasure::BobReward => r.bob_reward as nat,
    }
}

/// The sum of a measure over a reward history.
pub open spec fn reward_total(rs: Seq<Reward>, w: RewardMeasure) -> nat
    decreases rs.len(),
{
    if rs.len() == 0 {
        0
    } else {
        reward_total(rs.drop_last(), w) + reward_measure(w, rs.last())
    }
}

/// A measure as a function of the history.
pub open spec fn history_weigher(w: RewardMeasure) -> spec_fn(Seq<Reward>) -> nat {
    |rs: Seq<Reward>| reward_total(rs, w)
}

/// The reward history of every member of the ledger.
pub open spec fn member_histories(l: Ledger, h: Histories) -> Histories {
    Map::new(|k: Seq<u8>| l.contains_key(k), |k: Seq<u8>| history(h, k))
}

/// The sum of a measure over the reward histories of all members.
pub open spec fn rewards_sum(l: Ledger, h: Histories, w: RewardMeasure) -> nat {
    map_sum(member_histories(l, h), history_weigher(w))
}

/// A sum as it is reported: a sum beyond 128 bits is reported as the
/// largest number of 128 bits.
pub open spec fn capped(n: nat) -> u128 {
    if n > u128::MAX {
        u128::MAX
    } else {
        n as u128
    }
}

/// Adds to a sum that is kept capped.
fn add_capped(sum: u128, x: u128, Ghost(exact): Ghost<nat>, Ghost(weight): Ghost<nat>) -> (r: u128)
    requires
        sum == capped(exact),
        x == capped(weight),
    ensures
        r == capped(exact + weight),
{
    if x > u128::MAX - sum {
        u128::MAX
    } else {
        sum + x
    }
}

/// The capped sum of a measure over a reward history.
fn sum_rewards(rewards: &Vec<Reward>, by_reward: bool) -> (r: u128)
    ensures
        r == capped(
            reward_total(
                rewards@,
                if by_reward {
                    RewardMeasure::BobReward
                } else {
                    RewardMeasure::CyclesBurnt
                },
            ),
        ),
{
    let ghost w = if by_reward {
        RewardMeasure::BobReward
    } else {
        RewardMeasure::CyclesBurnt
    };
    let mut sum: u128 = 0;
    let mut i: usize = 0;
    proof {
        assert(rewards@.subrange(0, 0) =~= Seq::<Reward>::empty());
    }
    while i < rewards.len()
        invariant
            i <= rewards.len(),
            w == (if by_reward {
                RewardMeasure::BobReward
            } else {
                RewardMeasure::CyclesBurnt
            }),
            sum == capped(reward_total(rewards@.subrange(0, i as int), w)),
        decreases rewards.len() - i,
    {
        let x: u128 = if by_reward {
            rewards[i].bob_reward
        } else {
            rewards[i].cycles_burnt
        };
        proof {
            assert(rewards@.subrange(0, i + 1).drop_last() =~= rewards@.subrange(0, i as int));
            assert(rewards@.subrange(0, i + 1).last() == rewards@[i as int]);
        }
        sum = add_capped(
            sum,
            x,
            Ghost(reward_total(rewards@.subrange(0, i as int), w)),
            Ghost(x as nat),
        );
        i += 1;
    }
    proof {
        assert(rewards@.subrange(0, rewards.len() as int) =~= rewards@);
    }
    sum
}

/// The state of the pool: its miner and lifecycle, the members that take
/// part in the next round and what they commit, and what was burnt and
/// earned by the members so far.
pub fn get_pool_state(pool: &Pool) -> (r: PoolState)
    ensures
        r.miner is Some <==> pool@.miner is Some,
        r.miner matches Some(miner) ==> pool@.miner == Some(miner@),
        r.running_state == pool@.running_state,
        r.num_active_members == ledger_sum(pool@.cycles, Measure::ActiveMembers),
        r.total_active_member_block_cycles == capped(
            ledger_sum(pool@.cycles, Measure::ActiveBlock),
        ),
        r.total_cycles_burnt == capped(
            rewards_sum(pool@.cycles, pool@.rewards, RewardMeasure::CyclesBurnt),
        ),
        r.total_bob_rewards == capped(
            rewards_sum(pool@.cycles, pool@.rewards, RewardMeasure::BobReward),
        ),
{
    let entries = ledger_entries(pool);
    let ghost l = pool@.cycles;
    let ghost h = pool@.rewards;
    let ghost es = keyed(entries@);
    let ghost hs = Seq::new(es.len(), |i: int| (es[i].0, history(h, es[i].0)));
    let ghost by_members = weigher(Measure::ActiveMembers);
    let ghost by_block = weigher(Measure::ActiveBlock);
    let ghost by_burnt = history_weigher(RewardMeasure::CyclesBurnt);
    let ghost by_reward = history_weigher(RewardMeasure::BobReward);
    proof {
        assert(lists(hs, member_histories(l, h))) by {
            assert forall|k: Seq<u8>| #[trigger]
                member_histories(l, h).contains_key(k) implies exists|i: int|
                0 <= i < hs.len() && #[trigger] hs[i].0 == k by {
                let i = choose|i: int| 0 <= i < es.len() && #[trigger] es[i].0 == k;
                assert(hs[i].0 == k);
            }
            assert forall|i: int, j: int| 0 <= i < j < hs.len() implies #[trigger] hs[i].0
                != #[trigger] hs[j].0 by {
                assert(es[i].0 != es[j].0);
            }
            assert forall|i: int| 0 <= i < hs.len() implies member_histories(l, h).contains_key(
                #[trigger] hs[i].0,
            ) && member_histories(l, h)[hs[i].0] == hs[i].1 by {
                assert(l.contains_key(es[i].0));
            }
        }
        lemma_lists_sum(es, l, by_members);
        lemma_lists_sum(es, l, by_block);
        lemma_lists_sum(hs, member_histories(l, h), by_burnt);
        lemma_lists_sum(hs, member_histories(l, h), by_reward);
        assert(es.subrange(0, 0) =~= Seq::<(Seq<u8>, MemberCycles)>::empty());
        assert(hs.subrange(0, 0) =~= Seq::<(Seq<u8>, Seq<Reward>)>::empty());
    }
    let mut num_active_members: usize = 0;
    let mut total_active_member_block_cycles: u128 = 0;
    let mut total_cycles_burnt: u128 = 0;
    let mut total_bob_rewards: u128 = 0;
    let mut i: usize = 0;
    while i < entries.len()
        invariant
            i <= entries.len(),
            h == pool@.rewards,
            es == keyed(entries@),
            hs == Seq::new(es.len(), |i: int| (es[i].0, history(h, es[i].0))),
            by_members == weigher(Measure::ActiveMembers),
            by_block == weigher(Measure::ActiveBlock),
            by_burnt == history_weigher(RewardMeasure::CyclesBurnt),
            by_reward == history_weigher(RewardMeasure::BobReward),
            num_active_members <= i,
            num_active_members == seq_sum(es.subrange(0, i as int), by_members),
            total_active_member_block_cycles == capped(
                seq_sum(es.subrange(0, i as int), by_block),
            ),
            total_cycles_burnt == capped(seq_sum(hs.subrange(0, i as int), by_burnt)),
            total_bob_rewards == capped(seq_sum(hs.subrange(0, i as int), by_reward)),
        decreases entries.len() - i,
    {
        let member_cycles = entries[i].1;
        let rewards = get_member_rewards(pool, &entries[i].0);
        proof {
            lemma_seq_sum_step(es, by_members, i as int);
            lemma_seq_sum_step(es, by_block, i as int);
            lemma_seq_sum_step(hs, by_burnt, i as int);
            lemma_seq_sum_step(hs, by_reward, i as int);
            assert(es[i as int] == (entries@[i as int].0@, entries@[i as int].1));
            assert(hs[i as int].1 == rewards@);
            assert(by_members(member_cycles) == measure(Measure::ActiveMembers, member_cycles));
            assert(by_block(member_cycles) == measure(Measure::ActiveBlock, member_cycles));
            assert(by_burnt(rewards@) == reward_total(rewards@, RewardMeasure::CyclesBurnt));
            assert(by_reward(rewards@) == reward_total(rewards@, RewardMeasure::BobReward));
        }
        let active = member_cycles.active();
        if active {
            num_active_members += 1;
        }
        total_active_member_block_cycles = add_capped(
            total_active_member_block_cycles,
            if active {
                member_cycles.block
            } else {
                0
            },
            Ghost(seq_sum(es.subrange(0, i as int), by_block)),
            Ghost(measure(Measure::ActiveBlock, member_cycles)),
        );
        total_cycles_burnt = add_capped(
            total_cycles_burnt,
            sum_rewards(&rewards, false),
            Ghost(seq_sum(hs.subrange(0, i as int), by_burnt)),
            Ghost(reward_total(rewards@, RewardMeasure::CyclesBurnt)),
        );
        total_bob_rewards = add_capped(
            total_bob_rewards,
            sum_rewards(&rewards, true),
            Ghost(seq_sum(hs.subrange(0, i as int), by_reward)),
            Ghost(reward_total(rewards@, RewardMeasure::BobReward)),
        );
        i += 1;
    }
    proof {
        assert(es.subrange(0, entries.len() as int) =~= es);
        assert(hs.subrange(0, entries.len() as int) =~= hs);
    }
    PoolState {
        miner: get_miner_canister(pool),
        running_state: get_running_state(pool),
        num_active_members: num_active_members as u64,
        total_active_member_block_cycles,
        total_cycles_burnt,
        total_bob_rewards,
    }
}

} // verus!
