//! The pool: its durable regions and its transient lifecycle state, and the
//! pool state store.

use vstd::prelude::*;
use crate::principal::PrincipalId;
use crate::records::{cycles_of, histories_of, is_vacant, read_state, state_of, write_state};
use crate::store::{open_regions, region_of, Region};
use crate::types::{MemberCycles, PoolRunningState, Reward, TaskType};

verus! {

/// Region of the singleton state. The three identifiers are never reused.
pub const POOL_STATE_MEM_ID: u8 = 0;

/// Region of the map from member to cycle balances.
pub const MEMBER_TO_CYCLES_MEM_ID: u8 = 1;

/// Region of the map from member to reward history.
pub const MEMBER_TO_REWARDS_MEM_ID: u8 = 2;

/// The pool. One value of this type is owned by whoever runs the pool and
/// handed to every operation.
pub struct Pool {
    pub(crate) state: Region,
    pub(crate) cycles: Region,
    pub(crate) rewards: Region,
    pub(crate) running_state: PoolRunningState,
    pub(crate) principal_guards: Vec<PrincipalId>,
    pub(crate) check_rewards_active: bool,
    pub(crate) pay_rewards_active: bool,
}

/// The pool as the contracts see it.
pub struct PoolView {
    /// The miner, once spawned.
    pub miner: Option<Seq<u8>>,
    /// Time of the newest block whose yield has been distributed.
    pub last_reward_timestamp: u64,
    /// Number of blocks mined when the round loop last looked.
    pub block_count: Option<u64>,
    /// Cycle balances by member.
    pub cycles: Map<Seq<u8>, MemberCycles>,
    /// Reward history by member, oldest first.
    pub rewards: Map<Seq<u8>, Seq<Reward>>,
    /// Lifecycle of the round loop.
    pub running_state: PoolRunningState,
    /// Principals with an operation under way.
    pub principal_guards: Set<Seq<u8>>,
    /// Singleton tasks that are running.
    pub active_tasks: Set<TaskType>,
}

/// The set of principals that a list of guards holds.
pub open spec fn held(guards: Seq<PrincipalId>) -> Set<Seq<u8>> {
    Set::new(|k: Seq<u8>| exists|i: int| 0 <= i < guards.len() && #[trigger] guards[i]@ == k)
}

/// The set of tasks that the two flags stand for.
pub open spec fn tasks(check_rewards: bool, pay_rewards: bool) -> Set<TaskType> {
    Set::new(
        |t: TaskType|
            match t {
                TaskType::CheckRewards => check_rewards,
                TaskType::PayRewards => pay_rewards,
            },
    )
}

impl View for Pool {
    type V = PoolView;

    open(crate) spec fn view(&self) -> PoolView {
        PoolView {
            miner: state_of(self.state).miner,
            last_reward_timestamp: state_of(self.state).last_reward_timestamp,
            block_count: state_of(self.state).block_count,
            cycles: cycles_of(self.cycles),
            rewards: histories_of(self.rewards),
            running_state: self.running_state,
            principal_guards: held(self.principal_guards@),
            active_tasks: tasks(self.check_rewards_active, self.pay_rewards_active),
        }
    }
}

/// The pool holds nothing: it has no miner, no checkpoint and no block
/// count, no member and no reward history.
pub open spec fn holds_nothing(pool: PoolView) -> bool {
    &&& pool.miner is None
    &&& pool.last_reward_timestamp == 0
    &&& pool.block_count is None
    &&& forall|k: Seq<u8>| !pool.cycles.contains_key(k)
    &&& forall|k: Seq<u8>| !pool.rewards.contains_key(k)
}

impl Pool {
    /// Opens the pool over its durable regions. The round loop is stopped and
    /// no guard is held; the ledger and the state are what the regions held:
    /// [`Pool::is_empty`] tells whether they held anything.
    ///
    /// The regions are those of the memory of the process. A process opens
    /// its pool once: a second pool would stand over the same regions, and
    /// what is written through the one would not be seen by the contracts of
    /// the other.
    pub fn new() -> (pool: Pool)
        ensures
            pool@.running_state == PoolRunningState::Stopped,
            pool@.principal_guards == Set::<Seq<u8>>::empty(),
            pool@.active_tasks == Set::<TaskType>::empty(),
    {
        let (state, cycles, rewards) = open_regions(
            POOL_STATE_MEM_ID,
            MEMBER_TO_CYCLES_MEM_ID,
            MEMBER_TO_REWARDS_MEM_ID,
        );
        let pool = Pool {
            state,
            cycles,
            rewards,
            running_state: PoolRunningState::Stopped,
            principal_guards: Vec::new(),
            check_rewards_active: false,
            pay_rewards_active: false,
        };
        assert(pool@.principal_guards =~= Set::<Seq<u8>>::empty());
        assert(pool@.active_tasks =~= Set::<TaskType>::empty());
        pool
    }

    /// Whether the pool holds nothing, as a pool does that was opened over
    /// regions never written to.
    pub fn is_empty(&self) -> (r: bool)
        ensures
            r == holds_nothing(self@),
    {
        let state = read_state(&self.state);
        let no_member = is_vacant(&self.cycles);
        let no_history = is_vacant(&self.rewards);
        proof {
            assert forall|k: Seq<u8>|
                self@.cycles.contains_key(k) == region_of(self.cycles).contains_key(k) by {}
            assert forall|k: Seq<u8>|
                self@.rewards.contains_key(k) == region_of(self.rewards).contains_key(k) by {}
        }
        state.miner.is_none() && state.last_reward_timestamp == 0 && state.block_count.is_none()
            && no_member && no_history
    }
}

/// The pool's miner, once it was spawned.
pub fn get_miner_canister(pool: &Pool) -> (r: Option<PrincipalId>)
    ensures
        r is Some <==> pool@.miner is Some,
        r matches Some(p) ==> pool@.miner == Some(p@),
{
    read_state(&pool.state).miner
}

/// Records the miner. The miner is set once: to replace it would orphan the
/// cycles committed to rounds in flight.
pub fn set_miner_canister(pool: &mut Pool, miner: PrincipalId)
    requires
        old(pool)@.miner is None,
    ensures
        final(pool)@ == (PoolView { miner: Some(miner@), ..old(pool)@ }),
{
    let mut state = read_state(&pool.state);
    state.miner = Some(miner);
    write_state(&mut pool.state, &state);
}

/// Time of the newest block whose yield has been distributed.
pub fn get_last_reward_timestamp(pool: &Pool) -> (r: u64)
    ensures
        r == pool@.last_reward_timestamp,
{
    read_state(&pool.state).last_reward_timestamp
}

/// Moves the checkpoint of the reward check.
pub fn set_last_reward_timestamp(pool: &mut Pool, last_reward_timestamp: u64)
    ensures
        final(pool)@ == (PoolView { last_reward_timestamp, ..old(pool)@ }),
{
    let mut state = read_state(&pool.state);
    state.last_reward_timestamp = last_reward_timestamp;
    write_state(&mut pool.state, &state);
}

/// Records the number of blocks mined so far and returns the number
/// recorded before, if there was one.
pub fn get_and_set_block_count(pool: &mut Pool, block_count: u64) -> (r: Option<u64>)
    ensures
        r == old(pool)@.block_count,
        final(pool)@ == (PoolView { block_count: Some(block_count), ..old(pool)@ }),
{
    let mut state = read_state(&pool.state);
    let previous = state.block_count;
    state.block_count = Some(block_count);
    write_state(&mut pool.state, &state);
    previous
}

} // verus!
