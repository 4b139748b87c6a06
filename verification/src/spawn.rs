//! Spawning the pool's miner.
//!
//! The miner is paid for by a deposit on the token ledger. Unless the block
//! of a deposit is given, the deposit is made first. The ledger index is
//! then polled until it shows the block, a bounded number of times; after
//! that the mining resource is asked for a miner, and the miner is recorded.
//! A pool has one miner for good: a pool that has one spawns no other.

use vstd::prelude::*;
use crate::error::PoolError;
use crate::join::TOP_UP_MEMO;
use crate::memory::{get_miner_canister, set_miner_canister, Pool, PoolView};
use crate::principal::PrincipalId;

verus! {

/// The deposit that pays for a miner, in e8s.
pub const SPAWN_DEPOSIT_E8S: u64 = 100_000_000;

/// How often the ledger index is asked for the block of the deposit.
pub const MAX_POLL_ATTEMPTS: u64 = 100;

/// Where a spawn stands between two events.
#[derive(Clone, Copy, Debug, PartialEq, Eq, Structural)]
pub enum SpawnState {
    /// The deposit has been asked for.
    Depositing,
    /// The ledger index has been asked for the block, for the `attempts`-th time.
    Polling { block_index: u64, attempts: u64 },
    /// The mining resource has been asked for a miner.
    Spawning,
    /// The spawn has ended.
    Finished,
}

/// What the driver of a spawn reports.
#[derive(Debug, PartialEq, Eq)]
pub enum SpawnEvent {
    /// The deposit was made in this block of the token ledger.
    Deposited { block_index: u64 },
    /// The ledger index shows the block.
    BlockFound,
    /// The ledger index does not show the block, or could not be asked.
    BlockMissing,
    /// The mining resource spawned this miner.
    Spawned { miner: PrincipalId },
    /// The call that was asked for failed.
    CallFailed,
}

/// A spawn event as the contracts see it.
pub enum SpawnEventView {
    Deposited { block_index: u64 },
    BlockFound,
    BlockMissing,
    Spawned { miner: Seq<u8> },
    CallFailed,
}

impl View for SpawnEvent {
    type V = SpawnEventView;

    open spec fn view(&self) -> SpawnEventView {
        match *self {
            SpawnEvent::Deposited { block_index } => SpawnEventView::Deposited { block_index },
            SpawnEvent::BlockFound => SpawnEventView::BlockFound,
            SpawnEvent::BlockMissing => SpawnEventView::BlockMissing,
            SpawnEvent::Spawned { miner } => SpawnEventView::Spawned { miner: miner@ },
            SpawnEvent::CallFailed => SpawnEventView::CallFailed,
        }
    }
}

/// What the driver of a spawn is asked to do next.
#[derive(Clone, Copy, Debug, PartialEq, Eq, Structural)]
pub enum SpawnAction {
    /// Transfer `amount` e8s with `memo` to the account from which the
    /// cycle minter tops the mining resource up.
    Deposit { amount: u64, memo: u64 },
    /// Ask the ledger index for the block.
    FetchBlock { block_index: u64 },
    /// Ask the mining resource for a miner that the block pays for.
    SpawnMiner { block_index: u64 },
    /// Nothing: the miner is spawned and recorded.
    Done,
    /// Nothing: the spawn was given up.
    GiveUp { reason: PoolError },
}

/// The outcome of one step of a spawn.
#[derive(Clone, Copy, Debug, PartialEq, Eq, Structural)]
pub struct SpawnStep {
    pub state: SpawnState,
    pub action: SpawnAction,
}

/// The spawn was given up.
pub open spec fn given_up(reason: PoolError) -> SpawnStep {
    SpawnStep { state: SpawnState::Finished, action: SpawnAction::GiveUp { reason } }
}

/// The miner is spawned and recorded.
pub open spec fn completed() -> SpawnStep {
    SpawnStep { state: SpawnState::Finished, action: SpawnAction::Done }
}

/// The ledger index is asked for the block, for the `attempts`-th time.
pub open spec fn polling(block_index: u64, attempts: u64) -> SpawnStep {
    SpawnStep {
        state: SpawnState::Polling { block_index, attempts },
        action: SpawnAction::FetchBlock { block_index },
    }
}

/// How a spawn begins.
pub open spec fn spawn_begun(pool: PoolView, block_index: Option<u64>) -> SpawnStep {
    if pool.miner is Some {
        given_up(PoolError::AlreadySpawned)
    } else {
        match block_index {
            Some(block_index) => polling(block_index, 1),
            None => SpawnStep {
                state: SpawnState::Depositing,
                action: SpawnAction::Deposit { amount: SPAWN_DEPOSIT_E8S, memo: TOP_UP_MEMO },
            },
        }
    }
}

/// Begins to spawn the pool's miner, with the block of the deposit that
/// pays for it or, where none is given, with the deposit itself.
pub fn spawn_miner(pool: &Pool, block_index: Option<u64>) -> (r: SpawnStep)
    ensures
        r == spawn_begun(pool@, block_index),
{
    match get_miner_canister(pool) {
        Some(_) => SpawnStep {
            state: SpawnState::Finished,
            action: SpawnAction::GiveUp { reason: PoolError::AlreadySpawned },
        },
        None => match block_index {
            Some(block_index) => SpawnStep {
                state: SpawnState::Polling { block_index, attempts: 1 },
                action: SpawnAction::FetchBlock { block_index },
            },
            None => SpawnStep {
                state: SpawnState::Depositing,
                action: SpawnAction::Deposit { amount: SPAWN_DEPOSIT_E8S, memo: TOP_UP_MEMO },
            },
        },
    }
}

/// Why a spawn that gets `event` in place of its answer ends.
pub open spec fn spawn_failure(event: SpawnEventView) -> PoolError {
    if event is CallFailed {
        PoolError::CallFailed
    } else {
        PoolError::UnexpectedEvent
    }
}

/// The step that follows an event.
pub open spec fn spawn_next(pool: PoolView, state: SpawnState, event: SpawnEventView) -> SpawnStep {
    match state {
        SpawnState::Depositing => match event {
            SpawnEventView::Deposited { block_index } => polling(block_index, 1),
            _ => given_up(spawn_failure(event)),
        },
        SpawnState::Polling { block_index, attempts } => match event {
            SpawnEventView::BlockFound => SpawnStep {
                state: SpawnState::Spawning,
                action: SpawnAction::SpawnMiner { block_index },
            },
            SpawnEventView::BlockMissing => if attempts >= MAX_POLL_ATTEMPTS {
                given_up(PoolError::PollingExhausted { attempts: MAX_POLL_ATTEMPTS })
            } else {
                polling(block_index, (attempts + 1) as u64)
            },
            _ => given_up(spawn_failure(event)),
        },
        SpawnState::Spawning => match event {
            SpawnEventView::Spawned { miner } => if pool.miner is Some {
                given_up(PoolError::AlreadySpawned)
            } else {
                completed()
            },
            _ => given_up(spawn_failure(event)),
        },
        SpawnState::Finished => given_up(PoolError::UnexpectedEvent),
    }
}

/// The pool after an event: the miner is recorded when it was spawned and
/// the pool had none.
pub open spec fn spawn_recorded(pool: PoolView, state: SpawnState, event: SpawnEventView) -> PoolView {
    match (state, event) {
        (SpawnState::Spawning, SpawnEventView::Spawned { miner }) => if pool.miner is None {
            PoolView { miner: Some(miner), ..pool }
        } else {
            pool
        },
        _ => pool,
    }
}

/// Takes one step of a spawn.
pub fn spawn_step(pool: &mut Pool, state: SpawnState, event: SpawnEvent) -> (r: SpawnStep)
    ensures
        r == spawn_next(old(pool)@, state, event@),
        final(pool)@ == spawn_recorded(old(pool)@, state, event@),
{
    match state {
        SpawnState::Depositing => match event {
            SpawnEvent::Deposited { block_index } => SpawnStep {
                state: SpawnState::Polling { block_index, attempts: 1 },
                action: SpawnAction::FetchBlock { block_index },
            },
            other => give_up(&other),
        },
        SpawnState::Polling { block_index, attempts } => match event {
            SpawnEvent::BlockFound => SpawnStep {
                state: SpawnState::Spawning,
                action: SpawnAction::SpawnMiner { block_index },
            },
            SpawnEvent::BlockMissing => if attempts >= MAX_POLL_ATTEMPTS {
                SpawnStep {
                    state: SpawnState::Finished,
                    action: SpawnAction::GiveUp {
                        reason: PoolError::PollingExhausted { attempts: MAX_POLL_ATTEMPTS },
                    },
                }
            } else {
                SpawnStep {
                    state: SpawnState::Polling { block_index, attempts: attempts + 1 },
                    action: SpawnAction::FetchBlock { block_index },
                }
            },
            other => give_up(&other),
        },
        SpawnState::Spawning => match event {
            SpawnEvent::Spawned { miner } => match get_miner_canister(pool) {
                Some(_) => SpawnStep {
                    state: SpawnState::Finished,
                    action: SpawnAction::GiveUp { reason: PoolError::AlreadySpawned },
                },
                None => {
                    set_miner_canister(pool, miner);
                    SpawnStep { state: SpawnState::Finished, action: SpawnAction::Done }
                },
            },
            other => give_up(&other),
        },
        SpawnState::Finished => SpawnStep {
            state: SpawnState::Finished,
            action: SpawnAction::GiveUp { reason: PoolError::UnexpectedEvent },
        },
    }
}

/// Ends a spawn that got `event` in place of its answer.
fn give_up(event: &SpawnEvent) -> (r: SpawnStep)
    ensures
        r == given_up(spawn_failure(event@)),
{
    let reason = match event {
        SpawnEvent::CallFailed => PoolError::CallFailed,
        _ => PoolError::UnexpectedEvent,
    };
    SpawnStep { state: SpawnState::Finished, action: SpawnAction::GiveUp { reason } }
}

} // verus!
