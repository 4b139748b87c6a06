//! Joining the pool: a deposit is verified and credited.
//!
//! A principal joins, or tops its balance up, by a transfer on the token
//! ledger to the account from which the cycle minter tops the pool up. The
//! join holds the caller's guard from [`join_pool`] on. The transfer is
//! looked up and verified by [`deposit_fetched`]; the cycles that the cycle
//! minter then makes of it are credited by [`top_up_notified`]. Whatever
//! ends the join gives the guard back.

use vstd::prelude::*;
use crate::accounts::{account_for, account_id_of, default_account, subaccount_for};
use crate::canisters::{canister, MAINNET_CYCLE_MINTER_CANISTER_ID};
use crate::error::PoolError;
use crate::guard::GuardPrincipal;
use crate::history::init_member_rewards;
use crate::ledger::{add_member_remaining_cycles, credit_verdict};
use crate::memory::{Pool, PoolView};
use crate::model::{credited, history};
use crate::principal::{same_bytes, PrincipalId};

verus! {

/// The memo of a transfer that tops a canister up.
pub const TOP_UP_MEMO: u64 = 1347768404;

/// The smallest deposit, in e8s: one token less the ledger's fee.
pub const MIN_DEPOSIT_E8S: u64 = 99_990_000;

/// What a transaction of the token ledger did.
#[derive(Debug, PartialEq, Eq)]
pub enum LedgerOperation {
    /// Tokens went from one account to another.
    Transfer { from: Vec<u8>, to: Vec<u8>, amount: u64 },
    /// Anything else.
    Other,
}

/// A transaction of the token ledger, as far as a join reads it.
#[derive(Debug, PartialEq, Eq)]
pub struct LedgerTransaction {
    pub memo: u64,
    pub operation: LedgerOperation,
}

/// What a deposit is held against: the memo is that of a top-up, the
/// transaction is a transfer from `sender` to `destination`, and it moves
/// the minimum at least.
pub open spec fn deposit_verdict(
    transaction: LedgerTransaction,
    sender: Seq<u8>,
    destination: Seq<u8>,
) -> Result<(), PoolError> {
    if transaction.memo != TOP_UP_MEMO {
        Err(PoolError::InvalidMemo { memo: transaction.memo, expected: TOP_UP_MEMO })
    } else {
        match transaction.operation {
            LedgerOperation::Transfer { from, to, amount } => {
                if from@ != sender {
                    Err(PoolError::UnexpectedSender)
                } else if to@ != destination {
                    Err(PoolError::UnexpectedDestination)
                } else if amount < MIN_DEPOSIT_E8S {
                    Err(PoolError::AmountTooLow { amount, least: MIN_DEPOSIT_E8S })
                } else {
                    Ok(())
                }
            },
            LedgerOperation::Other => Err(PoolError::NotATransfer),
        }
    }
}

/// Holds a deposit against the accounts it must connect.
pub fn check_deposit(transaction: &LedgerTransaction, sender: &[u8], destination: &[u8]) -> (r:
    Result<(), PoolError>)
    ensures
        r == deposit_verdict(*transaction, sender@, destination@),
{
    if transaction.memo != TOP_UP_MEMO {
        return Err(PoolError::InvalidMemo { memo: transaction.memo, expected: TOP_UP_MEMO });
    }
    match &transaction.operation {
        LedgerOperation::Transfer { from, to, amount } => {
            if !same_bytes(from.as_slice(), sender) {
                Err(PoolError::UnexpectedSender)
            } else if !same_bytes(to.as_slice(), destination) {
                Err(PoolError::UnexpectedDestination)
            } else if *amount < MIN_DEPOSIT_E8S {
                Err(PoolError::AmountTooLow { amount: *amount, least: MIN_DEPOSIT_E8S })
            } else {
                Ok(())
            }
        },
        LedgerOperation::Other => Err(PoolError::NotATransfer),
    }
}

/// The account a deposit of `caller` comes from: its default account.
pub open spec fn sender_account(caller: Seq<u8>) -> Seq<u8> {
    account_id_of(caller, Seq::new(32, |i: int| 0u8))
}

/// The account a deposit for the pool goes to: the account that the cycle
/// minter keeps for the pool.
pub open spec fn top_up_account(pool_id: Seq<u8>) -> Seq<u8> {
    account_id_of(MAINNET_CYCLE_MINTER_CANISTER_ID@, subaccount_for(pool_id))
}

/// Verifies the deposit of `caller` for the pool `pool_id`.
pub fn verify_deposit(transaction: &LedgerTransaction, caller: &PrincipalId, pool_id: &PrincipalId) -> (r:
    Result<(), PoolError>)
    ensures
        r == deposit_verdict(*transaction, sender_account(caller@), top_up_account(pool_id@)),
{
    let sender = default_account(caller);
    let minter = canister(&MAINNET_CYCLE_MINTER_CANISTER_ID);
    let destination = account_for(&minter, pool_id);
    check_deposit(transaction, sender.as_slice(), destination.as_slice())
}

/// A join that is under way.
#[derive(Debug, PartialEq, Eq)]
pub struct PendingJoin {
    guard: GuardPrincipal,
    verified: bool,
}

/// A join as the contracts see it.
pub struct PendingJoinView {
    /// Who joins.
    pub caller: Seq<u8>,
    /// Whether the deposit has been verified.
    pub verified: bool,
}

impl View for PendingJoin {
    type V = PendingJoinView;

    closed spec fn view(&self) -> PendingJoinView {
        PendingJoinView { caller: self.guard@, verified: self.verified }
    }
}

impl PendingJoin {
    /// Who joins.
    pub fn caller(&self) -> (r: &PrincipalId)
        ensures
            r@ == self@.caller,
    {
        self.guard.principal()
    }

    /// Whether the deposit has been verified.
    pub fn is_verified(&self) -> (r: bool)
        ensures
            r == self@.verified,
    {
        self.verified
    }
}

/// The pool once the guard of `caller` is given back.
pub open spec fn unguarded(pool: PoolView, caller: Seq<u8>) -> PoolView {
    PoolView { principal_guards: pool.principal_guards.remove(caller), ..pool }
}

/// Begins a join. The anonymous principal cannot join, and a principal
/// whose guard is held is turned down; otherwise the caller's guard is
/// taken, and the deposit is to be looked up next.
pub fn join_pool(pool: &mut Pool, caller: &PrincipalId) -> (r: Result<PendingJoin, PoolError>)
    ensures
        r matches Ok(join) ==> join@ == (PendingJoinView { caller: caller@, verified: false })
            && final(pool)@ == (PoolView {
            principal_guards: old(pool)@.principal_guards.insert(caller@),
            ..old(pool)@
        }),
        r is Err ==> final(pool)@ == old(pool)@,
        r == Err::<PendingJoin, PoolError>(PoolError::AnonymousCaller) <==> caller@ == seq![4u8],
        r == Err::<PendingJoin, PoolError>(PoolError::PrincipalBusy) <==> caller@ != seq![4u8]
            && old(pool)@.principal_guards.contains(caller@),
        r is Ok <==> caller@ != seq![4u8] && !old(pool)@.principal_guards.contains(caller@),
{
    if caller.is_anonymous() {
        return Err(PoolError::AnonymousCaller);
    }
    match GuardPrincipal::new(pool, caller) {
        Ok(guard) => Ok(PendingJoin { guard, verified: false }),
        Err(e) => Err(e),
    }
}

/// The deposit was found: it is verified. A deposit that passes is to be
/// turned into cycles next; one that does not ends the join.
pub fn deposit_fetched(
    pool: &mut Pool,
    join: PendingJoin,
    transaction: &LedgerTransaction,
    pool_id: &PrincipalId,
) -> (r: Result<PendingJoin, PoolError>)
    ensures
        r matches Ok(next) ==> next@ == (PendingJoinView { caller: join@.caller, verified: true })
            && final(pool)@ == old(pool)@,
        r matches Err(e) ==> final(pool)@ == unguarded(old(pool)@, join@.caller),
        (match r {
            Ok(_) => Ok(()),
            Err(e) => Err(e),
        }) == deposit_verdict(
            *transaction,
            sender_account(join@.caller),
            top_up_account(pool_id@),
        ),
{
    let PendingJoin { guard, verified: _ } = join;
    match verify_deposit(transaction, guard.principal(), pool_id) {
        Ok(()) => Ok(PendingJoin { guard, verified: true }),
        Err(e) => {
            guard.release(pool);
            Err(e)
        },
    }
}

/// What [`top_up_notified`] answers.
pub open spec fn join_verdict(pool: PoolView, join: PendingJoinView, cycles: u128) -> Result<
    (),
    PoolError,
> {
    if !join.verified {
        Err(PoolError::DepositNotVerified)
    } else {
        credit_verdict(pool.cycles, join.caller, cycles)
    }
}

/// The deposit was turned into `cycles`: they are credited to the caller,
/// who is a member from now on and has a reward history, and the join ends.
/// The block commitment of the caller is left as it is: zero for a new
/// member.
pub fn top_up_notified(pool: &mut Pool, join: PendingJoin, cycles: u128) -> (r: Result<
    (),
    PoolError,
>)
    ensures
        r == join_verdict(old(pool)@, join@, cycles),
        r is Ok ==> final(pool)@ == unguarded(
            PoolView {
                cycles: credited(old(pool)@.cycles, join@.caller, cycles),
                rewards: old(pool)@.rewards.insert(
                    join@.caller,
                    history(old(pool)@.rewards, join@.caller),
                ),
                ..old(pool)@
            },
            join@.caller,
        ),
        r is Err ==> final(pool)@ == unguarded(old(pool)@, join@.caller),
{
    let PendingJoin { guard, verified } = join;
    let res = if !verified {
        Err(PoolError::DepositNotVerified)
    } else {
        match add_member_remaining_cycles(pool, guard.principal(), cycles) {
            Ok(()) => {
                init_member_rewards(pool, guard.principal());
                Ok(())
            },
            Err(e) => Err(e),
        }
    };
    guard.release(pool);
    res
}

/// Ends a join that an outside call failed: the caller's guard is given
/// back and nothing else changes.
pub fn join_failed(pool: &mut Pool, join: PendingJoin)
    ensures
        final(pool)@ == unguarded(old(pool)@, join@.caller),
{
    let PendingJoin { guard, verified: _ } = join;
    guard.release(pool);
}

} // verus!
