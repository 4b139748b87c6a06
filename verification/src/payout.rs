//! Paying rewards out, one transfer at a time.
//!
//! A payout walks the history of one member. It asks for one transfer at a
//! time, for the first record that has not been paid; once the transfer is
//! confirmed the record gets its block index and the walk goes on. A
//! transfer that fails ends the walk: what was confirmed before stays
//! recorded, and a later payout takes up at the first record that is still
//! unpaid. The member's guard is held from the first step to the last.

use vstd::prelude::*;
use crate::error::PoolError;
use crate::guard::GuardPrincipal;
use crate::history::{get_member_rewards, set_member_rewards};
use crate::memory::{Pool, PoolView};
use crate::model::{history, Histories};
use crate::principal::PrincipalId;
use crate::types::Reward;

verus! {

/// Every record of the history has been paid.
pub open spec fn all_paid(h: Seq<Reward>) -> bool {
    forall|j: int| 0 <= j < h.len() ==> (#[trigger] h[j]).bob_block_index is Some
}

/// `i` is the first record of the history that has not been paid.
pub open spec fn is_first_unpaid(h: Seq<Reward>, i: int) -> bool {
    &&& 0 <= i < h.len()
    &&& h[i].bob_block_index is None
    &&& forall|j: int| 0 <= j < i ==> (#[trigger] h[j]).bob_block_index is Some
}

/// The record at `index` can take a block index: it exists and is unpaid.
pub open spec fn awaits_payment(h: Seq<Reward>, index: int) -> bool {
    0 <= index < h.len() && h[index].bob_block_index is None
}

/// The history after the payment of the record at `index` was confirmed. A
/// record that has its block index keeps it.
pub open spec fn confirmed(h: Seq<Reward>, index: int, block_index: u64) -> Seq<Reward> {
    if awaits_payment(h, index) {
        h.update(index, Reward { bob_block_index: Some(block_index), ..h[index] })
    } else {
        h
    }
}

/// The histories after the payment of one record of `k` was confirmed.
pub open spec fn confirmed_in(h: Histories, k: Seq<u8>, index: int, block_index: u64) -> Histories {
    if awaits_payment(history(h, k), index) {
        h.insert(k, confirmed(history(h, k), index, block_index))
    } else {
        h
    }
}

/// The first record of a history that has not been paid, if there is one.
pub fn first_unpaid(rewards: &Vec<Reward>) -> (r: Option<usize>)
    ensures
        r is None <==> all_paid(rewards@),
        r matches Some(i) ==> is_first_unpaid(rewards@, i as int),
{
    let mut i: usize = 0;
    while i < rewards.len()
        invariant
            i <= rewards.len(),
            forall|j: int| 0 <= j < i ==> (#[trigger] rewards@[j]).bob_block_index is Some,
        decreases rewards.len() - i,
    {
        if rewards[i].bob_block_index.is_none() {
            return Some(i);
        }
        i += 1;
    }
    None
}

/// A transfer that a payout is waiting for.
#[derive(Debug, PartialEq, Eq)]
pub struct PendingPayout {
    guard: GuardPrincipal,
    index: usize,
    amount: u128,
}

/// A pending payout as the contracts see it.
pub struct PendingPayoutView {
    /// The member that is paid.
    pub member: Seq<u8>,
    /// Position of the record in the member's history.
    pub index: int,
    /// The reward to transfer.
    pub amount: u128,
}

impl View for PendingPayout {
    type V = PendingPayoutView;

    closed spec fn view(&self) -> PendingPayoutView {
        PendingPayoutView { member: self.guard@, index: self.index as int, amount: self.amount }
    }
}

impl PendingPayout {
    /// The member to transfer to.
    pub fn member(&self) -> (r: &PrincipalId)
        ensures
            r@ == self@.member,
    {
        self.guard.principal()
    }

    /// The reward to transfer.
    pub fn amount(&self) -> (r: u128)
        ensures
            r == self@.amount,
    {
        self.amount
    }

    /// Position of the record in the member's history.
    pub fn index(&self) -> (r: usize)
        ensures
            r == self@.index,
    {
        self.index
    }
}

/// `p` asks for the transfer of the first unpaid record of `k`.
pub open spec fn pays_first_unpaid(p: PendingPayoutView, h: Histories, k: Seq<u8>) -> bool {
    p.member == k && is_first_unpaid(history(h, k), p.index) && p.amount == history(
        h,
        k,
    )[p.index].bob_reward
}

/// The next transfer of a payout whose guard is held, or the end of the
/// payout: then the guard is given back.
fn advance(pool: &mut Pool, guard: GuardPrincipal) -> (r: Option<PendingPayout>)
    ensures
        r is None <==> all_paid(history(old(pool)@.rewards, guard@)),
        r is None ==> final(pool)@ == (PoolView {
            principal_guards: old(pool)@.principal_guards.remove(guard@),
            ..old(pool)@
        }),
        r matches Some(p) ==> pays_first_unpaid(p@, old(pool)@.rewards, guard@) && final(pool)@
            == old(pool)@,
{
    let rewards = get_member_rewards(pool, guard.principal());
    match first_unpaid(&rewards) {
        Some(index) => Some(PendingPayout { guard, index, amount: rewards[index].bob_reward }),
        None => {
            guard.release(pool);
            None
        },
    }
}

/// Begins to pay a member the rewards it is owed. The member's guard is
/// taken; a member whose guard is held is turned down. The transfer that is
/// returned is the first to make; it is to be answered with
/// [`payout_confirmed`] or [`payout_failed`]. Where nothing is owed, nothing
/// is returned and the guard is free again.
pub fn pay_rewards(pool: &mut Pool, member: &PrincipalId) -> (r: Result<
    Option<PendingPayout>,
    PoolError,
>)
    ensures
        r is Err <==> old(pool)@.principal_guards.contains(member@),
        r matches Err(e) ==> e == PoolError::PrincipalBusy && final(pool)@ == old(pool)@,
        r matches Ok(None) ==> all_paid(history(old(pool)@.rewards, member@)) && final(pool)@
            == old(pool)@,
        r matches Ok(Some(p)) ==> pays_first_unpaid(p@, old(pool)@.rewards, member@) && final(pool)@ == (PoolView {
            principal_guards: old(pool)@.principal_guards.insert(member@),
            ..old(pool)@
        }),
{
    let ghost before = pool@;
    match GuardPrincipal::new(pool, member) {
        Err(e) => Err(e),
        Ok(guard) => {
            let next = advance(pool, guard);
            proof {
                assert(before.principal_guards.insert(member@).remove(member@)
                    =~= before.principal_guards);
            }
            Ok(next)
        },
    }
}

/// Records that the transfer was made in block `block_index` of the reward
/// ledger, and goes on to the next unpaid record. Where none is left,
/// nothing is returned and the guard is free again. A record that has a
/// block index already is never given another.
pub fn payout_confirmed(pool: &mut Pool, payout: PendingPayout, block_index: u64) -> (r: Option<
    PendingPayout,
>)
    ensures
        r is None <==> all_paid(
            confirmed(history(old(pool)@.rewards, payout@.member), payout@.index, block_index),
        ),
        r is None ==> final(pool)@ == (PoolView {
            rewards: confirmed_in(
                old(pool)@.rewards,
                payout@.member,
                payout@.index,
                block_index,
            ),
            principal_guards: old(pool)@.principal_guards.remove(payout@.member),
            ..old(pool)@
        }),
        r matches Some(p) ==> pays_first_unpaid(p@, final(pool)@.rewards, payout@.member)
            && final(pool)@ == (PoolView {
            rewards: confirmed_in(
                old(pool)@.rewards,
                payout@.member,
                payout@.index,
                block_index,
            ),
            ..old(pool)@
        }),
{
    let PendingPayout { guard, index, amount: _ } = payout;
    let mut rewards = get_member_rewards(pool, guard.principal());
    if index < rewards.len() && rewards[index].bob_block_index.is_none() {
        let paid = Reward { bob_block_index: Some(block_index), ..rewards[index] };
        rewards.set(index, paid);
        set_member_rewards(pool, guard.principal(), &rewards);
    }
    advance(pool, guard)
}

/// Ends a payout whose transfer failed: the guard is free again, and what
/// was confirmed before stays recorded.
pub fn payout_failed(pool: &mut Pool, payout: PendingPayout)
    ensures
        final(pool)@ == (PoolView {
            principal_guards: old(pool)@.principal_guards.remove(payout@.member),
            ..old(pool)@
        }),
{
    let PendingPayout { guard, index: _, amount: _ } = payout;
    guard.release(pool);
}

} // verus!
