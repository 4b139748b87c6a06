//! Accounting and orchestration core of a cycles pool: members deposit
//! cycles, a shared miner burns the cycles committed for each round, and the
//! yield the miner earns is handed back to the members in proportion to what
//! each of them contributed.
//!
//! The pool is a value, [`Pool`], that whoever runs it owns and hands to
//! every operation. The pool does no outside work itself: where an operation
//! needs a call to another canister or a timer, it is cut into steps, and
//! what the outside answered is handed to the next step.
//!
//! - [`memory`] holds the pool and its state store, [`store`] and
//!   [`records`] the durable regions below it, [`codec`] their byte forms.
//! - [`ledger`] and [`history`] are the member ledger: cycle balances and
//!   reward histories. [`model`] and [`sums`] say what their operations mean.
//! - [`guard`] keeps two operations on one principal, or two runs of one
//!   task, from overlapping.
//! - [`rewards`] turns yield into rewards, [`payout`] pays them out.
//! - [`state_machine`] is the round controller, [`transitions`] what it does
//!   step by step, [`lifecycle`] starts and stops it.
//! - [`join`], [`spawn`] and [`ingress`] are the operations at the edge:
//!   joining, spawning the miner, and admitting calls.
//! - [`laws`] holds what is proved of all of this together.

pub mod accounts;
pub mod canisters;
pub mod codec;
pub mod error;
pub mod guard;
pub mod history;
pub mod ingress;
pub mod join;
pub mod laws;
pub mod ledger;
pub mod lifecycle;
pub mod memory;
pub mod model;
pub mod payout;
pub mod pool_state;
pub mod principal;
pub mod records;
pub mod rewards;
pub mod spawn;
pub mod state_machine;
pub mod store;
pub mod sums;
pub mod transitions;
pub mod types;

pub use crate::error::PoolError;
pub use crate::guard::{GuardPrincipal, TaskGuard};
pub use crate::accounts::{account_for, default_account};
pub use crate::history::{
    get_member_rewards, init_member_rewards, member_rewards, push_member_rewards,
    set_member_rewards,
};
pub use crate::ingress::{inspect_message, Admission, Method};
pub use crate::join::{
    check_deposit, deposit_fetched, join_failed, join_pool, top_up_notified, verify_deposit,
    LedgerOperation, LedgerTransaction, PendingJoin,
};
pub use crate::ledger::{
    add_member_remaining_cycles, commit_block_participants, ensure_caller_pool_member,
    get_member_cycles, get_member_to_pending_cycles, get_next_block_participants,
    member_cycles, reset_member_pending_cycles, set_member_block_cycles,
};
pub use crate::lifecycle::{ensure_ready, get_running_state, start, stop};
pub use crate::memory::{
    get_and_set_block_count, get_last_reward_timestamp, get_miner_canister,
    set_last_reward_timestamp, set_miner_canister, Pool,
};
pub use crate::payout::{pay_rewards, payout_confirmed, payout_failed, PendingPayout};
pub use crate::pool_state::get_pool_state;
pub use crate::principal::PrincipalId;
pub use crate::rewards::{add_rewards, check_rewards, compute_rewards};
pub use crate::spawn::{spawn_miner, spawn_step, SpawnAction, SpawnEvent, SpawnState, SpawnStep};
pub use crate::state_machine::{
    run, step, Action, Event, LogEntry, Round, RoundState, Stage, StageError, Step, Task,
};
pub use crate::types::{
    Block, MemberCycles, MinerStats, PoolRunningState, PoolState, Reward, Stats, TaskType,
    BOB_POOL_BLOCK_FEE,
};
