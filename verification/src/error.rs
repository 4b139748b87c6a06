//! What the pool answers when it turns a request down.

use vstd::prelude::*;
use crate::types::TaskType;

verus! {

/// A refusal. Nothing about the pool has changed when one is returned,
/// unless the function that returns it says otherwise.
#[derive(Clone, Copy, Debug, PartialEq, Eq, Structural)]
pub enum PoolError {
    /// The pool has no miner yet.
    NotReady,
    /// The anonymous principal cannot be a member.
    AnonymousCaller,
    /// The caller has no entry in the member ledger.
    NotAMember,
    /// A block commitment that is neither zero nor at least the minimum.
    BlockCyclesTooSmall { block_cycles: u128, minimum: u128 },
    /// A block commitment that is not a multiple of the granularity.
    BlockCyclesNotAligned { block_cycles: u128, granularity: u128 },
    /// Another operation on the same principal is under way.
    PrincipalBusy,
    /// The singleton task is already running.
    TaskBusy { task: TaskType },
    /// A round with no participant, or with a participant that cannot pay.
    CommitRejected,
    /// The yield does not cover the payout fees of the participants.
    YieldBelowFees { total_yield: u128, total_fee: u128 },
    /// A sum or a product of the reward computation does not fit 128 bits.
    RewardOverflow,
    /// A deposit whose memo is not the memo of a top-up.
    InvalidMemo { memo: u64, expected: u64 },
    /// A deposit that is no transfer.
    NotATransfer,
    /// A deposit that was not sent from the caller's default account.
    UnexpectedSender,
    /// A deposit that was not sent to the account that tops the pool up.
    UnexpectedDestination,
    /// A deposit below the minimum.
    AmountTooLow { amount: u64, least: u64 },
    /// A credit before the deposit was verified.
    DepositNotVerified,
    /// A credit that would take the member's balance beyond 128 bits.
    CreditOverflow,
    /// An outside call failed; whoever made the call knows why.
    CallFailed,
    /// An event that does not answer what was asked for.
    UnexpectedEvent,
    /// The pool has a miner already.
    AlreadySpawned,
    /// The deposit did not show up in the ledger index in time.
    PollingExhausted { attempts: u64 },
}

} // verus!
