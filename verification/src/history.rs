//! The reward histories of the members.

use vstd::prelude::*;
use crate::error::PoolError;
use crate::ledger::ensure_caller_pool_member;
use crate::memory::{Pool, PoolView};
use crate::model::{history, keyed, pushed};
use crate::principal::PrincipalId;
use crate::records::{histories_get, histories_insert};
use crate::types::Reward;

verus! {

/// The reward history of a member, oldest record first; empty for a
/// principal that has none.
pub fn get_member_rewards(pool: &Pool, member: &PrincipalId) -> (r: Vec<Reward>)
    ensures
        r@ == history(pool@.rewards, member@),
{
    match histories_get(&pool.rewards, member) {
        Some(rewards) => rewards,
        None => Vec::new(),
    }
}

/// The reward history of the caller, who must be a member.
pub fn member_rewards(pool: &Pool, caller: &PrincipalId) -> (r: Result<Vec<Reward>, PoolError>)
    ensures
        r is Ok <==> pool@.cycles.contains_key(caller@),
        r matches Ok(rewards) ==> rewards@ == history(pool@.rewards, caller@),
        r matches Err(e) ==> e == PoolError::NotAMember,
{
    match ensure_caller_pool_member(pool, caller) {
        Ok(()) => Ok(get_member_rewards(pool, caller)),
        Err(e) => Err(e),
    }
}

/// Replaces the reward history of a member.
pub fn set_member_rewards(pool: &mut Pool, member: &PrincipalId, rewards: &Vec<Reward>)
    ensures
        final(pool)@ == (PoolView {
            rewards: old(pool)@.rewards.insert(member@, rewards@),
            ..old(pool)@
        }),
{
    histories_insert(&mut pool.rewards, member, rewards);
}

/// Gives a member an empty reward history, unless it has a history already.
pub fn init_member_rewards(pool: &mut Pool, member: &PrincipalId)
    ensures
        final(pool)@ == (PoolView {
            rewards: old(pool)@.rewards.insert(member@, history(old(pool)@.rewards, member@)),
            ..old(pool)@
        }),
{
    let ghost before = pool@;
    match histories_get(&pool.rewards, member) {
        Some(_) => {
            assert(before.rewards.insert(member@, history(before.rewards, member@))
                =~= before.rewards);
        },
        None => {
            let empty: Vec<Reward> = Vec::new();
            set_member_rewards(pool, member, &empty);
        },
    }
}

/// Appends one record to the history of each member of the list, in the
/// order of the list.
pub fn push_member_rewards(pool: &mut Pool, new_rewards: &Vec<(PrincipalId, Reward)>)
    ensures
        final(pool)@ == (PoolView {
            rewards: pushed(old(pool)@.rewards, keyed(new_rewards@)),
            ..old(pool)@
        }),
{
    let ghost before = pool@;
    let ghost rs = keyed(new_rewards@);
    let mut i: usize = 0;
    proof {
        assert(rs.subrange(0, 0) =~= Seq::<(Seq<u8>, Reward)>::empty());
    }
    while i < new_rewards.len()
        invariant
            i <= new_rewards.len(),
            rs == keyed(new_rewards@),
            pool@ == (PoolView { rewards: pushed(before.rewards, rs.subrange(0, i as int)), ..before }),
        decreases new_rewards.len() - i,
    {
        let member = &new_rewards[i].0;
        let mut rewards = get_member_rewards(pool, member);
        rewards.push(new_rewards[i].1);
        set_member_rewards(pool, member, &rewards);
        proof {
            assert(rs.subrange(0, i + 1).drop_last() =~= rs.subrange(0, i as int));
            assert(rs.subrange(0, i + 1).last() == rs[i as int]);
        }
        i += 1;
    }
    proof {
        assert(rs.subrange(0, new_rewards.len() as int) =~= rs);
    }
}

} // verus!
