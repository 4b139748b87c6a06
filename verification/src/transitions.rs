//! What the round controller does, step by step, as the contracts state it.
//!
//! [`steps`] relates the pool, the state of the loop and an event to the
//! outcome of the step: the pool, the state, the action and the log that
//! follow. Each of the functions before it describes one transition.

use vstd::prelude::*;
use crate::error::PoolError;
use crate::lifecycle::stop_requested;
use crate::memory::PoolView;
use crate::model::{can_commit, committed, fee_share, is_snapshot, total_cycles};
use crate::rewards::{after_check, check_verdict};
use crate::state_machine::{
    ActionView, EventView, LogEntry, RoundStateView, RoundView, Stage, StageError, Step, Task,
    COOL_DOWN_SECS, MINER_BUFFER, POOL_FLOOR, ROUND_SECS, SAFE_SECS, VERIFY_ATTEMPTS,
    VERIFY_DELAY_SECS, VERIFY_RETRY_SECS,
};
use crate::types::{Block, MinerStats, PoolRunningState, Stats, TaskType};

verus! {

/// A step and the pool it leaves, as the contracts see them.
pub struct Outcome {
    pub pool: PoolView,
    pub state: RoundStateView,
    pub action: ActionView,
    pub log: Seq<LogEntry>,
}

/// The outcome that a step and the pool it leaves stand for.
pub open spec fn outcome(pool: PoolView, step: Step) -> Outcome {
    Outcome { pool, state: step.state@, action: step.action@, log: step.log@ }
}

/// The first stage, tried once.
pub open spec fn first_stage() -> Task {
    Task { stage: Stage::Stage1, attempts_left: 1, retry_delay: 0, expected_burn: 0 }
}

/// The second stage, tried once.
pub open spec fn second_stage() -> Task {
    Task { stage: Stage::Stage2, attempts_left: 1, retry_delay: 0, expected_burn: 0 }
}

/// The third stage for a round in which `total` cycles were committed.
pub open spec fn third_stage(total: u128) -> Task {
    Task {
        stage: Stage::Stage3,
        attempts_left: VERIFY_ATTEMPTS,
        retry_delay: VERIFY_RETRY_SECS,
        expected_burn: total,
    }
}

/// The loop waits `delay` seconds for `task`.
pub open spec fn scheduled(pool: PoolView, task: Task, delay: u64, log: Seq<LogEntry>) -> Outcome {
    Outcome {
        pool,
        state: RoundStateView::Waiting { task },
        action: ActionView::SetTimer { delay },
        log,
    }
}

/// The loop begun anew: a timer of `delay` seconds, then the first stage.
pub open spec fn restart(pool: PoolView, delay: u64) -> Outcome {
    scheduled(pool, first_stage(), delay, Seq::empty())
}

/// What a failed stage leads to: while attempts are left, the stage is
/// tried again after its retry delay; when none is left, the loop starts
/// from scratch after that delay. The pool is left alone.
pub open spec fn retry(pool: PoolView, task: Task, error: StageError) -> Outcome {
    if task.attempts_left <= 1 {
        scheduled(
            pool,
            first_stage(),
            task.retry_delay,
            seq![
                LogEntry::StageFailed { stage: task.stage, error },
                LogEntry::AttemptsExhausted { stage: task.stage },
            ],
        )
    } else {
        scheduled(
            pool,
            Task { attempts_left: (task.attempts_left - 1) as u64, ..task },
            task.retry_delay,
            seq![LogEntry::StageFailed { stage: task.stage, error }],
        )
    }
}

/// The loop has ended, and the pool is stopped.
pub open spec fn halted(pool: PoolView) -> Outcome {
    Outcome {
        pool: PoolView { running_state: PoolRunningState::Stopped, ..pool },
        state: RoundStateView::Idle,
        action: ActionView::Halt,
        log: seq![LogEntry::LoopEnded],
    }
}

/// Stage 1 begins. A pool that is not running, or has no miner, ends the
/// loop here; this is the only place where the loop ends.
pub open spec fn enter_stage_1(pool: PoolView, task: Task) -> Outcome {
    if pool.running_state != PoolRunningState::Running || pool.miner is None {
        halted(pool)
    } else {
        Outcome {
            pool,
            state: RoundStateView::ResettingAllowance { task },
            action: ActionView::UpdateMinerSettings {
                miner: pool.miner->0,
                max_cycles_per_round: 0,
            },
            log: Seq::empty(),
        }
    }
}

/// Stage 2 begins with the snapshot `ps`. Without participants the round
/// is passed over; otherwise the miner is upgraded first.
pub open spec fn stage_2_entered(pool: PoolView, task: Task, ps: Seq<(Seq<u8>, u128)>) -> Outcome {
    if total_cycles(ps) > u128::MAX {
        retry(pool, task, StageError::CommitmentOverflow)
    } else if total_cycles(ps) == 0 {
        scheduled(pool, first_stage(), COOL_DOWN_SECS, Seq::empty())
    } else if pool.miner is None {
        retry(pool, task, StageError::Refused { reason: PoolError::NotReady })
    } else {
        Outcome {
            pool,
            state: RoundStateView::UpgradingMiner {
                task,
                round: RoundView {
                    miner: pool.miner->0,
                    participants: ps,
                    total: total_cycles(ps) as u128,
                },
            },
            action: ActionView::UpgradeMiner { miner: pool.miner->0 },
            log: Seq::empty(),
        }
    }
}

/// Stage 2 begins: the snapshot of the ledger is taken.
pub open spec fn enters_stage_2(pool: PoolView, task: Task, out: Outcome) -> bool {
    exists|ps: Seq<(Seq<u8>, u128)>|
        #![trigger is_snapshot(ps, pool.cycles)]
        is_snapshot(ps, pool.cycles) && out == stage_2_entered(pool, task, ps)
}

/// Stage 3 begins: the miner is asked what it burnt.
pub open spec fn enter_stage_3(pool: PoolView, task: Task) -> Outcome {
    if pool.miner is None {
        retry(pool, task, StageError::Refused { reason: PoolError::NotReady })
    } else {
        Outcome {
            pool,
            state: RoundStateView::VerifyingBurn { task },
            action: ActionView::GetMinerStatistics { miner: pool.miner->0 },
            log: Seq::empty(),
        }
    }
}

/// The miner's allowance is zero: the guard of the reward check is taken
/// and the block history asked for.
pub open spec fn after_reset(pool: PoolView, task: Task) -> Outcome {
    if pool.active_tasks.contains(TaskType::CheckRewards) {
        retry(
            pool,
            task,
            StageError::Refused { reason: PoolError::TaskBusy { task: TaskType::CheckRewards } },
        )
    } else {
        Outcome {
            pool: PoolView {
                active_tasks: pool.active_tasks.insert(TaskType::CheckRewards),
                ..pool
            },
            state: RoundStateView::FetchingBlocks { task, guard: TaskType::CheckRewards },
            action: ActionView::GetLatestBlocks,
            log: Seq::empty(),
        }
    }
}

/// The pool once the guard of the reward check is given back.
pub open spec fn released(pool: PoolView, guard: TaskType) -> PoolView {
    PoolView { active_tasks: pool.active_tasks.remove(guard), ..pool }
}

/// The block history has arrived: new yield is distributed, and the
/// mining statistics are asked for.
pub open spec fn after_blocks(
    pool: PoolView,
    task: Task,
    guard: TaskType,
    blocks: Seq<Block>,
    pool_id: Seq<u8>,
    now: u64,
) -> Outcome {
    let checked = released(after_check(pool, blocks, pool_id, now), guard);
    match check_verdict(pool, blocks, pool_id) {
        Err(reason) => retry(checked, task, StageError::Refused { reason }),
        Ok(_) => Outcome {
            pool: checked,
            state: RoundStateView::FetchingStats { task },
            action: ActionView::GetBobStatistics,
            log: Seq::empty(),
        },
    }
}

/// The blocks that were mined since the loop last looked, apart from the
/// newest one.
pub open spec fn skipped(previous: Option<u64>, block_count: u64) -> Seq<LogEntry> {
    match previous {
        Some(seen) => if seen + 1 < block_count {
            seq![LogEntry::SkippedBlocks { from: (seen + 1) as u64, to: block_count }]
        } else {
            Seq::empty()
        },
        None => Seq::empty(),
    }
}

/// When the next round is due, by the age of the last block. While the
/// block is young, stage 2 begins at once. A block that is a round old, or
/// older, means that the round was missed. In between, stage 2 begins after
/// what is left of the round.
pub open spec fn timed(pool: PoolView, task: Task, stats: Stats) -> Outcome {
    if stats.time_since_last_block < SAFE_SECS {
        scheduled(pool, second_stage(), 0, Seq::empty())
    } else if stats.time_since_last_block >= ROUND_SECS {
        retry(
            pool,
            task,
            StageError::RoundMissed {
                block_count: stats.block_count,
                time_since_last_block: stats.time_since_last_block,
            },
        )
    } else {
        scheduled(
            pool,
            second_stage(),
            (ROUND_SECS - stats.time_since_last_block) as u64,
            Seq::empty(),
        )
    }
}

/// The mining statistics have arrived: the block count is recorded,
/// skipped blocks are reported, and the next round is timed.
pub open spec fn after_stats(pool: PoolView, task: Task, stats: Stats) -> Outcome {
    let counted = PoolView { block_count: Some(stats.block_count), ..pool };
    let next = timed(counted, task, stats);
    Outcome { log: skipped(pool.block_count, stats.block_count) + next.log, ..next }
}

/// The miner is upgraded: its allowance is raised to the round's total.
pub open spec fn after_upgrade(pool: PoolView, task: Task, round: RoundView) -> Outcome {
    Outcome {
        pool,
        state: RoundStateView::SettingAllowance { task, round },
        action: ActionView::UpdateMinerSettings {
            miner: round.miner,
            max_cycles_per_round: round.total,
        },
        log: Seq::empty(),
    }
}

/// The allowance is set: the miner is asked for its balance.
pub open spec fn after_allowance(pool: PoolView, task: Task, round: RoundView) -> Outcome {
    Outcome {
        pool,
        state: RoundStateView::ReadingMiner { task, round },
        action: ActionView::GetMinerStatistics { miner: round.miner },
        log: Seq::empty(),
    }
}

/// The cycles the miner lacks to hold the round's total and its buffer.
pub open spec fn top_up_for(total: u128, miner_balance: u128) -> int {
    if total + MINER_BUFFER > miner_balance {
        total + MINER_BUFFER - miner_balance
    } else {
        0
    }
}

/// The pool can hand `top_up` cycles to the miner and keep its floor.
pub open spec fn affordable(pool_balance: u128, top_up: int) -> bool {
    top_up + POOL_FLOOR <= pool_balance
}

/// The miner's balance has arrived: the top-up is deposited, unless the
/// pool cannot afford it. Then the pool is asked to stop, and the loop ends
/// when it next enters stage 1.
pub open spec fn after_miner_stats(
    pool: PoolView,
    task: Task,
    round: RoundView,
    stats: MinerStats,
    pool_balance: u128,
) -> Outcome {
    let top_up = top_up_for(round.total, stats.cycle_balance);
    if affordable(pool_balance, top_up) {
        Outcome {
            pool,
            state: RoundStateView::ToppingUp { task, round },
            action: ActionView::DepositCycles { miner: round.miner, amount: top_up as u128 },
            log: Seq::empty(),
        }
    } else {
        scheduled(
            stop_requested(pool),
            first_stage(),
            0,
            seq![
                LogEntry::PoolCyclesTooLow {
                    balance: pool_balance,
                    top_up: if top_up <= u128::MAX {
                        top_up as u128
                    } else {
                        u128::MAX
                    },
                },
            ],
        )
    }
}

/// The top-up is deposited: the participants are committed, and stage 3 is
/// scheduled.
pub open spec fn after_top_up(pool: PoolView, task: Task, round: RoundView) -> Outcome {
    if can_commit(pool.cycles, round.participants) {
        scheduled(
            PoolView {
                cycles: committed(
                    pool.cycles,
                    round.participants,
                    fee_share(round.participants.len()),
                ),
                ..pool
            },
            third_stage(round.total),
            VERIFY_DELAY_SECS,
            Seq::empty(),
        )
    } else {
        retry(pool, task, StageError::Refused { reason: PoolError::CommitRejected })
    }
}

/// The miner has said what it burnt: the loop starts over at once when
/// that is what was committed.
pub open spec fn after_burn(pool: PoolView, task: Task, stats: MinerStats) -> Outcome {
    if stats.last_round_cycles_burned != task.expected_burn {
        retry(
            pool,
            task,
            StageError::BurnMismatch {
                burned: stats.last_round_cycles_burned,
                expected: task.expected_burn,
            },
        )
    } else {
        restart(pool, 0)
    }
}

/// Why a stage that gets `event` in place of its answer fails.
pub open spec fn failure_of(event: EventView) -> StageError {
    if event is CallFailed {
        StageError::CallFailed
    } else {
        StageError::UnexpectedEvent
    }
}

/// One step of the loop: from the pool, the state of the loop and an
/// event to the pool, the state, the action and the log that follow.
pub open spec fn steps(pool: PoolView, state: RoundStateView, event: EventView, out: Outcome) -> bool {
    match state {
        RoundStateView::Idle => out == (Outcome {
            pool,
            state,
            action: ActionView::Halt,
            log: Seq::empty(),
        }),
        RoundStateView::Waiting { task } => match event {
            EventView::TimerFired => match task.stage {
                Stage::Stage1 => out == enter_stage_1(pool, task),
                Stage::Stage2 => enters_stage_2(pool, task, out),
                Stage::Stage3 => out == enter_stage_3(pool, task),
            },
            _ => out == (Outcome { pool, state, action: ActionView::Wait, log: Seq::empty() }),
        },
        RoundStateView::ResettingAllowance { task } => match event {
            EventView::CallSucceeded => out == after_reset(pool, task),
            _ => out == retry(pool, task, failure_of(event)),
        },
        RoundStateView::FetchingBlocks { task, guard } => match event {
            EventView::LatestBlocks { blocks, pool_id, now } => out == after_blocks(
                pool,
                task,
                guard,
                blocks,
                pool_id,
                now,
            ),
            _ => out == retry(released(pool, guard), task, failure_of(event)),
        },
        RoundStateView::FetchingStats { task } => match event {
            EventView::BobStatistics { stats } => out == after_stats(pool, task, stats),
            _ => out == retry(pool, task, failure_of(event)),
        },
        RoundStateView::UpgradingMiner { task, round } => match event {
            EventView::CallSucceeded => out == after_upgrade(pool, task, round),
            _ => out == retry(pool, task, failure_of(event)),
        },
        RoundStateView::SettingAllowance { task, round } => match event {
            EventView::CallSucceeded => out == after_allowance(pool, task, round),
            _ => out == retry(pool, task, failure_of(event)),
        },
        RoundStateView::ReadingMiner { task, round } => match event {
            EventView::MinerStatistics { miner_stats, pool_balance } => out == after_miner_stats(
                pool,
                task,
                round,
                miner_stats,
                pool_balance,
            ),
            _ => out == retry(pool, task, failure_of(event)),
        },
        RoundStateView::ToppingUp { task, round } => match event {
            EventView::CallSucceeded => out == after_top_up(pool, task, round),
            _ => out == retry(pool, task, failure_of(event)),
        },
        RoundStateView::VerifyingBurn { task } => match event {
            EventView::MinerStatistics { miner_stats, pool_balance } => out == after_burn(
                pool,
                task,
                miner_stats,
            ),
            _ => out == retry(pool, task, failure_of(event)),
        },
    }
}

} // verus!
