//! Starting and stopping the round loop.

use vstd::prelude::*;
use crate::error::PoolError;
use crate::memory::{get_miner_canister, Pool, PoolView};
use crate::state_machine::{run, ActionView, LogEntry, RoundStateView, Step};
use crate::transitions::first_stage;
use crate::types::PoolRunningState;

verus! {

/// Lifecycle of the round loop.
pub fn get_running_state(pool: &Pool) -> (r: PoolRunningState)
    ensures
        r == pool@.running_state,
{
    pool.running_state
}

/// The loop keeps itself going.
pub(crate) fn running(pool: &mut Pool)
    ensures
        final(pool)@ == (PoolView { running_state: PoolRunningState::Running, ..old(pool)@ }),
{
    pool.running_state = PoolRunningState::Running;
}

/// The loop ends the next time it enters its first stage.
pub(crate) fn stopping(pool: &mut Pool)
    ensures
        final(pool)@ == (PoolView { running_state: PoolRunningState::Stopping, ..old(pool)@ }),
{
    pool.running_state = PoolRunningState::Stopping;
}

/// The loop has ended.
pub(crate) fn stopped(pool: &mut Pool)
    ensures
        final(pool)@ == (PoolView { running_state: PoolRunningState::Stopped, ..old(pool)@ }),
{
    pool.running_state = PoolRunningState::Stopped;
}

/// The pool is ready once it has a miner.
pub fn ensure_ready(pool: &Pool) -> (r: Result<(), PoolError>)
    ensures
        r is Ok <==> pool@.miner is Some,
        r matches Err(e) ==> e == PoolError::NotReady,
{
    match get_miner_canister(pool) {
        Some(_) => Ok(()),
        None => Err(PoolError::NotReady),
    }
}

/// What [`start`] does to the lifecycle: a pool that is not ready is left
/// alone, any other pool is running afterwards.
pub open spec fn started(before: PoolView) -> PoolView {
    if before.miner is Some {
        PoolView { running_state: PoolRunningState::Running, ..before }
    } else {
        before
    }
}

/// Starts the round loop. A stopped loop is started afresh: the step that
/// is returned arms its first timer. A loop that was asked to stop and has
/// not stopped yet goes on, and a running loop is left alone: for both,
/// nothing is returned.
pub fn start(pool: &mut Pool) -> (r: Result<Option<Step>, PoolError>)
    ensures
        final(pool)@ == started(old(pool)@),
        r is Ok <==> old(pool)@.miner is Some,
        r matches Err(e) ==> e == PoolError::NotReady,
        r matches Ok(step) ==> (step is Some <==> old(pool)@.running_state
            == PoolRunningState::Stopped),
        r matches Ok(Some(step)) ==> step.state@ == (RoundStateView::Waiting {
            task: first_stage(),
        }) && step.action@ == (ActionView::SetTimer { delay: 0 }) && step.log@ == Seq::<
            LogEntry,
        >::empty(),
{
    match ensure_ready(pool) {
        Err(e) => Err(e),
        Ok(()) => match get_running_state(pool) {
            PoolRunningState::Running => Ok(None),
            PoolRunningState::Stopping => {
                running(pool);
                Ok(None)
            },
            PoolRunningState::Stopped => {
                running(pool);
                Ok(Some(run(0)))
            },
        },
    }
}

/// What [`stop`] does to the lifecycle: a running loop is asked to stop.
pub open spec fn stop_requested(before: PoolView) -> PoolView {
    if before.running_state == PoolRunningState::Running {
        PoolView { running_state: PoolRunningState::Stopping, ..before }
    } else {
        before
    }
}

/// Asks the round loop to stop. The loop stops when it next enters its
/// first stage, not before.
pub fn stop(pool: &mut Pool)
    ensures
        final(pool)@ == stop_requested(old(pool)@),
{
    match get_running_state(pool) {
        PoolRunningState::Running => {
            stopping(pool);
        },
        _ => {},
    }
}

} // verus!
