//! The round controller: the loop that advances the mining rounds.
//!
//! A round has three stages. Stage 1 resets the miner's allowance, realizes
//! the yield that has arrived, and looks at the mining statistics to decide
//! when the next round is due. Stage 2 takes a snapshot of the members that
//! take part, raises the miner's allowance to what they commit, tops the
//! miner up, and only then commits the snapshot. Stage 3 checks that the
//! miner burnt what was committed.
//!
//! The controller does none of the outside work. It is a state machine:
//! [`step`] takes the state of the loop and an event, changes the pool where
//! the round calls for it, and answers with the next state and the one
//! action that the driver of the loop is to perform. The driver performs the
//! action and reports what came of it as the next event.

use vstd::prelude::*;
use crate::error::PoolError;
use crate::guard::TaskGuard;
use crate::ledger::{commit_block_participants, get_next_block_participants};
use crate::lifecycle::{get_running_state, stop, stopped};
use crate::memory::{get_and_set_block_count, get_miner_canister, Pool};
use crate::model::{is_snapshot, keyed, lemma_total_cycles_prefix, total_cycles};
use crate::principal::PrincipalId;
use crate::rewards::check_rewards;
use crate::transitions::{
    after_blocks, after_burn, after_miner_stats, after_reset, after_stats, after_top_up,
    enter_stage_1, enter_stage_3, enters_stage_2, failure_of, first_stage, halted,
    outcome, retry, skipped, steps, top_up_for, Outcome,
};
use crate::types::{Block, MinerStats, PoolRunningState, Stats, TaskType};

verus! {

/// Stage 2 begins at once when the last block is younger than this many seconds.
pub const SAFE_SECS: u64 = 120;

/// A round is taken to be this many seconds long. A last block that is as
/// old as this, or older, means that the round was missed.
pub const ROUND_SECS: u64 = 490;

/// Seconds to wait before stage 1 is entered again when nobody takes part.
pub const COOL_DOWN_SECS: u64 = 60;

/// Seconds between the commit and the check of what the miner burnt.
pub const VERIFY_DELAY_SECS: u64 = 250;

/// Seconds between two attempts of stage 3.
pub const VERIFY_RETRY_SECS: u64 = 10;

/// Attempts of stage 3.
pub const VERIFY_ATTEMPTS: u64 = 3;

/// Cycles that the miner is to hold on top of what it burns in a round.
pub const MINER_BUFFER: u128 = 1_000_000_000_000;

/// Cycles that the pool keeps for itself whatever it hands to the miner.
pub const POOL_FLOOR: u128 = 1_000_000_000_000;

/// The three stages of a round.
#[derive(Clone, Copy, Debug, PartialEq, Eq, Structural)]
pub enum Stage {
    /// Reset the miner, realize yield, look at the mining statistics.
    Stage1,
    /// Snapshot the participants, top the miner up, commit.
    Stage2,
    /// Check that the miner burnt what was committed.
    Stage3,
}

/// A stage that is due, and how often and how soon it may be tried again.
#[derive(Clone, Copy, Debug, PartialEq, Eq, Structural)]
pub struct Task {
    pub stage: Stage,
    /// Attempts that are left, this one included.
    pub attempts_left: u64,
    /// Seconds to wait before the next attempt.
    pub retry_delay: u64,
    /// Cycles the miner is expected to have burnt (read by stage 3 only).
    pub expected_burn: u128,
}

/// Why a stage failed.
#[derive(Clone, Copy, Debug, PartialEq, Eq, Structural)]
pub enum StageError {
    /// The outside call that the stage was waiting for failed.
    CallFailed,
    /// An event arrived that does not answer what the stage had asked for.
    UnexpectedEvent,
    /// The pool turned the stage down.
    Refused { reason: PoolError },
    /// The last block is a round old or older: the round was missed.
    RoundMissed { block_count: u64, time_since_last_block: u64 },
    /// The commitments of the participants do not fit 128 bits.
    CommitmentOverflow,
    /// The miner did not burn what was committed.
    BurnMismatch { burned: u128, expected: u128 },
}

/// What the loop has to report.
#[derive(Clone, Copy, Debug, PartialEq, Eq, Structural)]
pub enum LogEntry {
    /// A stage failed.
    StageFailed { stage: Stage, error: StageError },
    /// A stage failed for the last time it could: the loop starts from scratch.
    AttemptsExhausted { stage: Stage },
    /// The blocks from `from` up to, not including, `to` were mined without the pool.
    SkippedBlocks { from: u64, to: u64 },
    /// The pool cannot top the miner up and keep its own floor.
    PoolCyclesTooLow { balance: u128, top_up: u128 },
    /// The loop has ended.
    LoopEnded,
}

/// The participants of a round and what they commit.
#[derive(Debug, PartialEq, Eq)]
pub struct Round {
    pub miner: PrincipalId,
    pub participants: Vec<(PrincipalId, u128)>,
    pub total: u128,
}

/// A round as the contracts see it.
pub struct RoundView {
    pub miner: Seq<u8>,
    pub participants: Seq<(Seq<u8>, u128)>,
    pub total: u128,
}

impl View for Round {
    type V = RoundView;

    open spec fn view(&self) -> RoundView {
        RoundView {
            miner: self.miner@,
            participants: keyed(self.participants@),
            total: self.total,
        }
    }
}

/// Where the loop stands between two events.
#[derive(Debug, PartialEq, Eq)]
pub enum RoundState {
    /// No loop is alive.
    Idle,
    /// A timer is armed. The task begins when it fires.
    Waiting { task: Task },
    /// Stage 1 has asked for the miner's allowance to be set to zero.
    ResettingAllowance { task: Task },
    /// Stage 1 holds the guard of the reward check and has asked for the block history.
    FetchingBlocks { task: Task, guard: TaskGuard },
    /// Stage 1 has asked for the mining statistics.
    FetchingStats { task: Task },
    /// Stage 2 has asked for the miner to be upgraded.
    UpgradingMiner { task: Task, round: Round },
    /// Stage 2 has asked for the miner's allowance to be set to the round's total.
    SettingAllowance { task: Task, round: Round },
    /// Stage 2 has asked for the miner's statistics.
    ReadingMiner { task: Task, round: Round },
    /// Stage 2 has asked for the top-up to be deposited.
    ToppingUp { task: Task, round: Round },
    /// Stage 3 has asked for the miner's statistics.
    VerifyingBurn { task: Task },
}

/// The state of the loop as the contracts see it.
pub enum RoundStateView {
    Idle,
    Waiting { task: Task },
    ResettingAllowance { task: Task },
    FetchingBlocks { task: Task, guard: TaskType },
    FetchingStats { task: Task },
    UpgradingMiner { task: Task, round: RoundView },
    SettingAllowance { task: Task, round: RoundView },
    ReadingMiner { task: Task, round: RoundView },
    ToppingUp { task: Task, round: RoundView },
    VerifyingBurn { task: Task },
}

impl View for RoundState {
    type V = RoundStateView;

    open spec fn view(&self) -> RoundStateView {
        match *self {
            RoundState::Idle => RoundStateView::Idle,
            RoundState::Waiting { task } => RoundStateView::Waiting { task },
            RoundState::ResettingAllowance { task } => RoundStateView::ResettingAllowance { task },
            RoundState::FetchingBlocks { task, guard } => RoundStateView::FetchingBlocks {
                task,
                guard: guard@,
            },
            RoundState::FetchingStats { task } => RoundStateView::FetchingStats { task },
            RoundState::UpgradingMiner { task, round } => RoundStateView::UpgradingMiner {
                task,
                round: round@,
            },
            RoundState::SettingAllowance { task, round } => RoundStateView::SettingAllowance {
                task,
                round: round@,
            },
            RoundState::ReadingMiner { task, round } => RoundStateView::ReadingMiner {
                task,
                round: round@,
            },
            RoundState::ToppingUp { task, round } => RoundStateView::ToppingUp {
                task,
                round: round@,
            },
            RoundState::VerifyingBurn { task } => RoundStateView::VerifyingBurn { task },
        }
    }
}

/// What the driver of the loop reports.
#[derive(Debug, PartialEq, Eq)]
pub enum Event {
    /// The timer fired.
    TimerFired,
    /// The call that was asked for succeeded, and has nothing to report.
    CallSucceeded,
    /// The block history, the pool's own identity, and the time.
    LatestBlocks { blocks: Vec<Block>, pool_id: PrincipalId, now: u64 },
    /// The statistics of the shared mining resource.
    BobStatistics { stats: Stats },
    /// The statistics of the pool's miner, and the pool's own cycle balance.
    MinerStatistics { miner_stats: MinerStats, pool_balance: u128 },
    /// The call that was asked for failed.
    CallFailed,
}

/// An event as the contracts see it.
pub enum EventView {
    TimerFired,
    CallSucceeded,
    LatestBlocks { blocks: Seq<Block>, pool_id: Seq<u8>, now: u64 },
    BobStatistics { stats: Stats },
    MinerStatistics { miner_stats: MinerStats, pool_balance: u128 },
    CallFailed,
}

impl View for Event {
    type V = EventView;

    open spec fn view(&self) -> EventView {
        match *self {
            Event::TimerFired => EventView::TimerFired,
            Event::CallSucceeded => EventView::CallSucceeded,
            Event::LatestBlocks { blocks, pool_id, now } => EventView::LatestBlocks {
                blocks: blocks@,
                pool_id: pool_id@,
                now,
            },
            Event::BobStatistics { stats } => EventView::BobStatistics { stats },
            Event::MinerStatistics { miner_stats, pool_balance } => EventView::MinerStatistics {
                miner_stats,
                pool_balance,
            },
            Event::CallFailed => EventView::CallFailed,
        }
    }
}

/// What the driver of the loop is asked to do next.
#[derive(Debug, PartialEq, Eq)]
pub enum Action {
    /// Nothing: the loop has ended.
    Halt,
    /// Nothing new: what was asked for before is still asked for.
    Wait,
    /// Arm a timer, and report when it fires.
    SetTimer { delay: u64 },
    /// Set the miner's allowance per round.
    UpdateMinerSettings { miner: PrincipalId, max_cycles_per_round: u128 },
    /// Fetch the block history of the shared mining resource.
    GetLatestBlocks,
    /// Fetch the statistics of the shared mining resource.
    GetBobStatistics,
    /// Have the miner upgraded.
    UpgradeMiner { miner: PrincipalId },
    /// Fetch the miner's statistics, and read the pool's own cycle balance.
    GetMinerStatistics { miner: PrincipalId },
    /// Deposit cycles of the pool with the miner.
    DepositCycles { miner: PrincipalId, amount: u128 },
}

/// An action as the contracts see it.
pub enum ActionView {
    Halt,
    Wait,
    SetTimer { delay: u64 },
    UpdateMinerSettings { miner: Seq<u8>, max_cycles_per_round: u128 },
    GetLatestBlocks,
    GetBobStatistics,
    UpgradeMiner { miner: Seq<u8> },
    GetMinerStatistics { miner: Seq<u8> },
    DepositCycles { miner: Seq<u8>, amount: u128 },
}

impl View for Action {
    type V = ActionView;

    open spec fn view(&self) -> ActionView {
        match *self {
            Action::Halt => ActionView::Halt,
            Action::Wait => ActionView::Wait,
            Action::SetTimer { delay } => ActionView::SetTimer { delay },
            Action::UpdateMinerSettings {
                miner,
                max_cycles_per_round,
            } => ActionView::UpdateMinerSettings { miner: miner@, max_cycles_per_round },
            Action::GetLatestBlocks => ActionView::GetLatestBlocks,
            Action::GetBobStatistics => ActionView::GetBobStatistics,
            Action::UpgradeMiner { miner } => ActionView::UpgradeMiner { miner: miner@ },
            Action::GetMinerStatistics { miner } => ActionView::GetMinerStatistics {
                miner: miner@,
            },
            Action::DepositCycles { miner, amount } => ActionView::DepositCycles {
                miner: miner@,
                amount,
            },
        }
    }
}

/// The outcome of one step of the loop.
#[derive(Debug, PartialEq, Eq)]
pub struct Step {
    /// Where the loop stands now.
    pub state: RoundState,
    /// What the driver is to do.
    pub action: Action,
    /// What the step has to report, oldest entry first.
    pub log: Vec<LogEntry>,
}

/// A timer for `task`.
fn schedule(task: Task, delay: u64, log: Vec<LogEntry>) -> (r: Step)
    ensures
        r.state@ == (RoundStateView::Waiting { task }),
        r.action@ == (ActionView::SetTimer { delay }),
        r.log@ == log@,
{
    Step { state: RoundState::Waiting { task }, action: Action::SetTimer { delay }, log }
}

/// The stage failed: it is tried again, or the loop starts from scratch.
fn fail(pool: &Pool, task: Task, error: StageError, log: Vec<LogEntry>) -> (r: Step)
    ensures
        outcome(pool@, r) == (Outcome {
            log: log@ + retry(pool@, task, error).log,
            ..retry(pool@, task, error)
        }),
{
    let mut log = log;
    let ghost before = log@;
    log.push(LogEntry::StageFailed { stage: task.stage, error });
    if task.attempts_left <= 1 {
        log.push(LogEntry::AttemptsExhausted { stage: task.stage });
        let r = schedule(
            Task { stage: Stage::Stage1, attempts_left: 1, retry_delay: 0, expected_burn: 0 },
            task.retry_delay,
            log,
        );
        assert(r.log@ =~= before + retry(pool@, task, error).log);
        r
    } else {
        let r = schedule(
            Task { attempts_left: task.attempts_left - 1, ..task },
            task.retry_delay,
            log,
        );
        assert(r.log@ =~= before + retry(pool@, task, error).log);
        r
    }
}

/// Why a stage that gets `event` in place of its answer fails.
fn failure(event: &Event) -> (r: StageError)
    ensures
        r == failure_of(event@),
{
    match event {
        Event::CallFailed => StageError::CallFailed,
        _ => StageError::UnexpectedEvent,
    }
}

/// Ends the loop.
fn halt(pool: &mut Pool) -> (r: Step)
    ensures
        outcome(final(pool)@, r) == halted(old(pool)@),
{
    stopped(pool);
    let mut log: Vec<LogEntry> = Vec::new();
    log.push(LogEntry::LoopEnded);
    let r = Step { state: RoundState::Idle, action: Action::Halt, log };
    assert(r.log@ =~= seq![LogEntry::LoopEnded]);
    r
}

/// Stage 1 begins.
fn begin_stage_1(pool: &mut Pool, task: Task) -> (r: Step)
    ensures
        outcome(final(pool)@, r) == enter_stage_1(old(pool)@, task),
{
    match get_running_state(pool) {
        PoolRunningState::Running => match get_miner_canister(pool) {
            Some(miner) => Step {
                state: RoundState::ResettingAllowance { task },
                action: Action::UpdateMinerSettings { miner, max_cycles_per_round: 0 },
                log: Vec::new(),
            },
            None => halt(pool),
        },
        _ => halt(pool),
    }
}

/// Stage 2 begins.
fn begin_stage_2(pool: &mut Pool, task: Task) -> (r: Step)
    ensures
        enters_stage_2(old(pool)@, task, outcome(final(pool)@, r)),
{
    let participants = get_next_block_participants(pool);
    let ghost ps = keyed(participants@);
    let mut total: u128 = 0;
    let mut overflow = false;
    let mut i: usize = 0;
    proof {
        assert(ps.subrange(0, 0) =~= Seq::<(Seq<u8>, u128)>::empty());
    }
    while i < participants.len() && !overflow
        invariant
            i <= participants.len(),
            ps == keyed(participants@),
            !overflow ==> total == total_cycles(ps.subrange(0, i as int)),
            overflow ==> total_cycles(ps) > u128::MAX,
        decreases participants.len() - i, (if overflow { 0int } else { 1int }),
    {
        proof {
            assert(ps.subrange(0, i + 1).drop_last() =~= ps.subrange(0, i as int));
            assert(ps.subrange(0, i + 1).last() == ps[i as int]);
            lemma_total_cycles_prefix(ps, i + 1);
        }
        match total.checked_add(participants[i].1) {
            Some(sum) => {
                total = sum;
                i += 1;
            },
            None => {
                overflow = true;
            },
        }
    }
    proof {
        if !overflow {
            assert(ps.subrange(0, participants.len() as int) =~= ps);
        }
        assert(is_snapshot(ps, pool@.cycles));
    }
    if overflow {
        fail(pool, task, StageError::CommitmentOverflow, Vec::new())
    } else if total == 0 {
        schedule(
            Task { stage: Stage::Stage1, attempts_left: 1, retry_delay: 0, expected_burn: 0 },
            COOL_DOWN_SECS,
            Vec::new(),
        )
    } else {
        match get_miner_canister(pool) {
            None => fail(
                pool,
                task,
                StageError::Refused { reason: PoolError::NotReady },
                Vec::new(),
            ),
            Some(miner) => {
                let action = Action::UpgradeMiner { miner: miner.clone() };
                Step {
                    state: RoundState::UpgradingMiner {
                        task,
                        round: Round { miner, participants, total },
                    },
                    action,
                    log: Vec::new(),
                }
            },
        }
    }
}

/// Stage 3 begins.
fn begin_stage_3(pool: &Pool, task: Task) -> (r: Step)
    ensures
        outcome(pool@, r) == enter_stage_3(pool@, task),
{
    match get_miner_canister(pool) {
        None => fail(pool, task, StageError::Refused { reason: PoolError::NotReady }, Vec::new()),
        Some(miner) => Step {
            state: RoundState::VerifyingBurn { task },
            action: Action::GetMinerStatistics { miner },
            log: Vec::new(),
        },
    }
}

/// The miner's allowance is zero.
fn on_reset(pool: &mut Pool, task: Task) -> (r: Step)
    ensures
        outcome(final(pool)@, r) == after_reset(old(pool)@, task),
{
    match TaskGuard::new(pool, TaskType::CheckRewards) {
        Err(reason) => fail(pool, task, StageError::Refused { reason }, Vec::new()),
        Ok(guard) => Step {
            state: RoundState::FetchingBlocks { task, guard },
            action: Action::GetLatestBlocks,
            log: Vec::new(),
        },
    }
}

/// The block history has arrived.
fn on_blocks(
    pool: &mut Pool,
    task: Task,
    guard: TaskGuard,
    blocks: &Vec<Block>,
    pool_id: &PrincipalId,
    now: u64,
) -> (r: Step)
    ensures
        outcome(final(pool)@, r) == after_blocks(
            old(pool)@,
            task,
            guard@,
            blocks@,
            pool_id@,
            now,
        ),
{
    match check_rewards(pool, guard, blocks, pool_id, now) {
        Err(reason) => fail(pool, task, StageError::Refused { reason }, Vec::new()),
        Ok(()) => Step {
            state: RoundState::FetchingStats { task },
            action: Action::GetBobStatistics,
            log: Vec::new(),
        },
    }
}

/// The mining statistics have arrived.
fn on_stats(pool: &mut Pool, task: Task, stats: Stats) -> (r: Step)
    ensures
        outcome(final(pool)@, r) == after_stats(old(pool)@, task, stats),
{
    let previous = get_and_set_block_count(pool, stats.block_count);
    let mut log: Vec<LogEntry> = Vec::new();
    match previous {
        Some(seen) => {
            if seen < u64::MAX && seen + 1 < stats.block_count {
                log.push(LogEntry::SkippedBlocks { from: seen + 1, to: stats.block_count });
            }
        },
        None => {},
    }
    assert(log@ =~= skipped(previous, stats.block_count));
    if stats.time_since_last_block < SAFE_SECS {
        let r = schedule(
            Task { stage: Stage::Stage2, attempts_left: 1, retry_delay: 0, expected_burn: 0 },
            0,
            log,
        );
        assert(r.log@ =~= skipped(previous, stats.block_count) + Seq::<LogEntry>::empty());
        r
    } else if stats.time_since_last_block >= ROUND_SECS {
        fail(
            pool,
            task,
            StageError::RoundMissed {
                block_count: stats.block_count,
                time_since_last_block: stats.time_since_last_block,
            },
            log,
        )
    } else {
        let r = schedule(
            Task { stage: Stage::Stage2, attempts_left: 1, retry_delay: 0, expected_burn: 0 },
            ROUND_SECS - stats.time_since_last_block,
            log,
        );
        assert(r.log@ =~= skipped(previous, stats.block_count) + Seq::<LogEntry>::empty());
        r
    }
}

/// The miner's balance has arrived.
fn on_miner_stats(pool: &mut Pool, task: Task, round: Round, stats: MinerStats, pool_balance: u128) -> (r:
    Step)
    ensures
        outcome(final(pool)@, r) == after_miner_stats(
            old(pool)@,
            task,
            round@,
            stats,
            pool_balance,
        ),
{
    let top_up: Option<u128> = if round.total >= stats.cycle_balance {
        (round.total - stats.cycle_balance).checked_add(MINER_BUFFER)
    } else if stats.cycle_balance - round.total >= MINER_BUFFER {
        Some(0)
    } else {
        Some(MINER_BUFFER - (stats.cycle_balance - round.total))
    };
    assert(match top_up {
        Some(amount) => amount == top_up_for(round.total, stats.cycle_balance),
        None => top_up_for(round.total, stats.cycle_balance) > u128::MAX,
    });
    match top_up {
        Some(amount) if pool_balance >= POOL_FLOOR && pool_balance - POOL_FLOOR >= amount => {
            let action = Action::DepositCycles { miner: round.miner.clone(), amount };
            Step { state: RoundState::ToppingUp { task, round }, action, log: Vec::new() }
        },
        _ => {
            stop(pool);
            let mut log: Vec<LogEntry> = Vec::new();
            log.push(
                LogEntry::PoolCyclesTooLow {
                    balance: pool_balance,
                    top_up: match top_up {
                        Some(amount) => amount,
                        None => u128::MAX,
                    },
                },
            );
            let r = schedule(
                Task { stage: Stage::Stage1, attempts_left: 1, retry_delay: 0, expected_burn: 0 },
                0,
                log,
            );
            assert(r.log@ =~= after_miner_stats(
                old(pool)@,
                task,
                round@,
                stats,
                pool_balance,
            ).log);
            r
        },
    }
}

/// The top-up is deposited.
fn on_top_up(pool: &mut Pool, task: Task, round: Round) -> (r: Step)
    ensures
        outcome(final(pool)@, r) == after_top_up(old(pool)@, task, round@),
{
    match commit_block_participants(pool, &round.participants) {
        Ok(()) => schedule(
            Task {
                stage: Stage::Stage3,
                attempts_left: VERIFY_ATTEMPTS,
                retry_delay: VERIFY_RETRY_SECS,
                expected_burn: round.total,
            },
            VERIFY_DELAY_SECS,
            Vec::new(),
        ),
        Err(reason) => fail(pool, task, StageError::Refused { reason }, Vec::new()),
    }
}

/// The miner has said what it burnt.
fn on_burn(pool: &Pool, task: Task, stats: MinerStats) -> (r: Step)
    ensures
        outcome(pool@, r) == after_burn(pool@, task, stats),
{
    if stats.last_round_cycles_burned != task.expected_burn {
        fail(
            pool,
            task,
            StageError::BurnMismatch {
                burned: stats.last_round_cycles_burned,
                expected: task.expected_burn,
            },
            Vec::new(),
        )
    } else {
        run(0)
    }
}

/// Takes one step of the loop: `state` is where the loop stood, `event`
/// what the driver reports. The step that is returned holds where the loop
/// stands now, what the driver is to do next, and what there is to log.
pub fn step(pool: &mut Pool, state: RoundState, event: Event) -> (r: Step)
    ensures
        steps(old(pool)@, state@, event@, outcome(final(pool)@, r)),
{
    match state {
        RoundState::Idle => Step { state: RoundState::Idle, action: Action::Halt, log: Vec::new() },
        RoundState::Waiting { task } => match event {
            Event::TimerFired => match task.stage {
                Stage::Stage1 => begin_stage_1(pool, task),
                Stage::Stage2 => begin_stage_2(pool, task),
                Stage::Stage3 => begin_stage_3(pool, task),
            },
            _ => Step { state: RoundState::Waiting { task }, action: Action::Wait, log: Vec::new() },
        },
        RoundState::ResettingAllowance { task } => match event {
            Event::CallSucceeded => on_reset(pool, task),
            other => fail(pool, task, failure(&other), Vec::new()),
        },
        RoundState::FetchingBlocks { task, guard } => match event {
            Event::LatestBlocks { blocks, pool_id, now } => on_blocks(
                pool,
                task,
                guard,
                &blocks,
                &pool_id,
                now,
            ),
            other => {
                guard.release(pool);
                fail(pool, task, failure(&other), Vec::new())
            },
        },
        RoundState::FetchingStats { task } => match event {
            Event::BobStatistics { stats } => on_stats(pool, task, stats),
            other => fail(pool, task, failure(&other), Vec::new()),
        },
        RoundState::UpgradingMiner { task, round } => match event {
            Event::CallSucceeded => {
                let action = Action::UpdateMinerSettings {
                    miner: round.miner.clone(),
                    max_cycles_per_round: round.total,
                };
                Step { state: RoundState::SettingAllowance { task, round }, action, log: Vec::new() }
            },
            other => fail(pool, task, failure(&other), Vec::new()),
        },
        RoundState::SettingAllowance { task, round } => match event {
            Event::CallSucceeded => {
                let action = Action::GetMinerStatistics { miner: round.miner.clone() };
                Step { state: RoundState::ReadingMiner { task, round }, action, log: Vec::new() }
            },
            other => fail(pool, task, failure(&other), Vec::new()),
        },
        RoundState::ReadingMiner { task, round } => match event {
            Event::MinerStatistics { miner_stats, pool_balance } => on_miner_stats(
                pool,
                task,
                round,
                miner_stats,
                pool_balance,
            ),
            other => fail(pool, task, failure(&other), Vec::new()),
        },
        RoundState::ToppingUp { task, round } => match event {
            Event::CallSucceeded => on_top_up(pool, task, round),
            other => fail(pool, task, failure(&other), Vec::new()),
        },
        RoundState::VerifyingBurn { task } => match event {
            Event::MinerStatistics { miner_stats, pool_balance: _ } => on_burn(
                pool,
                task,
                miner_stats,
            ),
            other => fail(pool, task, failure(&other), Vec::new()),
        },
    }
}

/// Begins the loop anew: after `delay` seconds the first stage is entered.
pub fn run(delay: u64) -> (r: Step)
    ensures
        r.state@ == (RoundStateView::Waiting { task: first_stage() }),
        r.action@ == (ActionView::SetTimer { delay }),
        r.log@ == Seq::<LogEntry>::empty(),
{
    Step {
        state: RoundState::Waiting {
            task: Task { stage: Stage::Stage1, attempts_left: 1, retry_delay: 0, expected_burn: 0 },
        },
        action: Action::SetTimer { delay },
        log: Vec::new(),
    }
}

} // verus!
