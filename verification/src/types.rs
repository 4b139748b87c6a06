//! The records the pool keeps and reports, and the constants of its rules.

use vstd::prelude::*;
use crate::principal::PrincipalId;

verus! {

/// Fee of one round, shared equally by the members that take part in it.
/// A member needs this much on top of its block cycles to be eligible.
pub const BOB_POOL_BLOCK_FEE: u128 = 5_000_000_000;

/// Smallest block commitment a member may declare, apart from zero.
pub const MIN_BLOCK_CYCLES: u128 = 15_000_000_000;

/// Every block commitment is a multiple of this.
pub const BLOCK_CYCLES_GRANULARITY: u128 = 1_000_000;

/// What the reward ledger keeps of every payout, taken from the yield before it is shared.
pub const BOB_TRANSFER_FEE: u128 = 1_000_000;

/// Cycle balances of one member.
#[derive(Clone, Copy, Debug, PartialEq, Eq, Structural)]
pub struct MemberCycles {
    /// Cycles the member commits to every round; zero opts out.
    pub block: u128,
    /// Cycles committed to rounds whose yield has not been realized yet.
    pub pending: u128,
    /// Deposited cycles not yet spent on rounds and fees.
    pub remaining: u128,
}

impl Default for MemberCycles {
    fn default() -> (r: MemberCycles)
        ensures
            r == (MemberCycles { block: 0, pending: 0, remaining: 0 }),
    {
        MemberCycles { block: 0, pending: 0, remaining: 0 }
    }
}

impl MemberCycles {
    /// A member takes part in the next round when it has declared a positive
    /// commitment and can pay for it together with the whole round fee.
    pub open spec fn is_active(self) -> bool {
        self.block > 0 && self.block + BOB_POOL_BLOCK_FEE <= self.remaining
    }

    /// Executable form of [`MemberCycles::is_active`].
    pub fn active(&self) -> (r: bool)
        ensures
            r == self.is_active(),
    {
        self.block > 0 && self.block <= self.remaining && self.remaining - self.block
            >= BOB_POOL_BLOCK_FEE
    }
}

/// One distribution of yield to one member.
#[derive(Clone, Copy, Debug, PartialEq, Eq, Structural)]
pub struct Reward {
    /// Time at which the yield was distributed.
    pub timestamp: u64,
    /// Cycles of the member that the rounds behind this yield burnt.
    pub cycles_burnt: u128,
    /// Share of the yield that is owed to the member.
    pub bob_reward: u128,
    /// Block of the reward ledger in which the share was paid out, once it was.
    pub bob_block_index: Option<u64>,
}

/// Whether the round loop keeps itself going.
#[derive(Clone, Copy, Debug, PartialEq, Eq, Structural)]
pub enum PoolRunningState {
    Running,
    Stopping,
    Stopped,
}

impl Default for PoolRunningState {
    fn default() -> (r: PoolRunningState)
        ensures
            r == PoolRunningState::Stopped,
    {
        PoolRunningState::Stopped
    }
}

/// What the pool reports of itself.
#[derive(Debug, PartialEq, Eq)]
pub struct PoolState {
    pub miner: Option<PrincipalId>,
    pub running_state: PoolRunningState,
    pub num_active_members: u64,
    pub total_active_member_block_cycles: u128,
    pub total_cycles_burnt: u128,
    pub total_bob_rewards: u128,
}

/// A singleton background task.
#[derive(Clone, Copy, Debug, PartialEq, Eq, Structural)]
pub enum TaskType {
    CheckRewards,
    PayRewards,
}

/// One block of the mining history, as far as the pool reads it.
#[derive(Debug, PartialEq, Eq)]
pub struct Block {
    /// Who received the yield of the block.
    pub to: PrincipalId,
    /// When the block was mined.
    pub timestamp: u64,
    /// The yield of the block.
    pub rewards: u64,
}

/// Statistics of the shared mining resource.
#[derive(Clone, Copy, Debug, PartialEq, Eq, Structural)]
pub struct Stats {
    pub block_count: u64,
    pub time_since_last_block: u64,
}

/// Statistics of the pool's own miner.
#[derive(Clone, Copy, Debug, PartialEq, Eq, Structural)]
pub struct MinerStats {
    pub cycle_balance: u128,
    pub last_round_cycles_burned: u128,
}

/// The singleton state that outlives an upgrade.
#[derive(Debug, PartialEq, Eq)]
pub struct DurableState {
    /// The pool's miner, once it was spawned.
    pub miner: Option<PrincipalId>,
    /// Time of the newest block whose yield has been distributed.
    pub last_reward_timestamp: u64,
    /// Number of blocks mined when the round loop last looked.
    pub block_count: Option<u64>,
}

/// [`DurableState`] with the miner as its byte string.
pub struct DurableStateView {
    pub miner: Option<Seq<u8>>,
    pub last_reward_timestamp: u64,
    pub block_count: Option<u64>,
}

impl View for DurableState {
    type V = DurableStateView;

    open spec fn view(&self) -> DurableStateView {
        DurableStateView {
            miner: match self.miner {
                Some(p) => Some(p@),
                None => None,
            },
            last_reward_timestamp: self.last_reward_timestamp,
            block_count: self.block_count,
        }
    }
}

} // verus!
