use bob_pool::accounts::default_subaccount;
use bob_pool::guard::is_principal_guarded;
use bob_pool::join::{MIN_DEPOSIT_E8S, TOP_UP_MEMO};
use bob_pool::{
    account_for, add_member_remaining_cycles, check_deposit, default_account, deposit_fetched,
    get_member_cycles, get_member_rewards, join_failed, join_pool, member_rewards,
    set_member_rewards, top_up_notified, verify_deposit, LedgerOperation, LedgerTransaction,
    MemberCycles, Pool, PoolError, PrincipalId, Reward,
};
use candid::Principal;
use ic_ledger_types::{AccountIdentifier, Subaccount, DEFAULT_SUBACCOUNT};

const POOL: [u8; 10] = [0, 0, 0, 0, 2, 0x40, 0, 0x60, 1, 1];
const CYCLES_MINTER: [u8; 10] = [0, 0, 0, 0, 0, 0, 0, 4, 1, 1];

fn principal(byte: u8) -> PrincipalId {
    PrincipalId::from_slice(&[byte; 29]).unwrap()
}

fn pool_id() -> PrincipalId {
    PrincipalId::from_slice(&POOL).unwrap()
}

fn senders_account(user: u8) -> Vec<u8> {
    AccountIdentifier::new(&Principal::from_slice(&[user; 29]), &DEFAULT_SUBACCOUNT)
        .as_bytes()
        .to_vec()
}

fn top_up_account() -> Vec<u8> {
    let subaccount = Subaccount::from(Principal::from_slice(&POOL));
    AccountIdentifier::new(&Principal::from_slice(&CYCLES_MINTER), &subaccount).as_bytes().to_vec()
}

fn deposit(user: u8, amount: u64) -> LedgerTransaction {
    LedgerTransaction {
        memo: TOP_UP_MEMO,
        operation: LedgerOperation::Transfer { from: senders_account(user), to: top_up_account(), amount },
    }
}

#[test]
fn accounts_are_derived_as_the_ledger_derives_them() {
    assert_eq!(default_subaccount(), vec![0u8; 32]);
    assert_eq!(default_account(&principal(0xFF)), senders_account(0xFF));
    assert_eq!(
        account_for(&PrincipalId::from_slice(&CYCLES_MINTER).unwrap(), &pool_id()),
        top_up_account()
    );
    assert_eq!(
        hex(&default_account(&PrincipalId::management_canister())),
        "2d0e897f7e862d2b57d9bc9ea5c65f9a24ac6c074575f47898314b8d6cb0929d"
    );
    assert_ne!(default_account(&principal(0xFF)), default_account(&principal(0xFE)));
    assert_ne!(
        account_for(&principal(0xFF), &principal(0xFE)),
        account_for(&principal(0xFE), &principal(0xFF))
    );
}

fn hex(bytes: &[u8]) -> String {
    bytes.iter().map(|byte| format!("{:02x}", byte)).collect()
}

#[test]
fn a_deposit_is_held_against_memo_accounts_and_amount() {
    let from = senders_account(0xFF);
    let to = top_up_account();
    assert_eq!(check_deposit(&deposit(0xFF, 99_990_000), &from, &to), Ok(()));
    assert_eq!(check_deposit(&deposit(0xFF, u64::MAX), &from, &to), Ok(()));
    assert_eq!(
        check_deposit(&deposit(0xFF, 99_989_999), &from, &to),
        Err(PoolError::AmountTooLow { amount: 99_989_999, least: 99_990_000 })
    );
    assert_eq!(MIN_DEPOSIT_E8S, 99_990_000);
    let mut wrong_memo = deposit(0xFF, 100_000_000);
    wrong_memo.memo = 0;
    assert_eq!(
        check_deposit(&wrong_memo, &from, &to),
        Err(PoolError::InvalidMemo { memo: 0, expected: 1347768404 })
    );
    assert_eq!(
        check_deposit(&deposit(0xFE, 100_000_000), &from, &to),
        Err(PoolError::UnexpectedSender)
    );
    assert_eq!(
        check_deposit(&deposit(0xFF, 100_000_000), &from, &from),
        Err(PoolError::UnexpectedDestination)
    );
    let minted = LedgerTransaction { memo: TOP_UP_MEMO, operation: LedgerOperation::Other };
    assert_eq!(check_deposit(&minted, &from, &to), Err(PoolError::NotATransfer));
    // The memo is looked at first, the amount last.
    let mut all_wrong = deposit(0xFE, 1);
    all_wrong.memo = 7;
    assert_eq!(
        check_deposit(&all_wrong, &from, &from),
        Err(PoolError::InvalidMemo { memo: 7, expected: 1347768404 })
    );
    assert_eq!(check_deposit(&deposit(0xFE, 1), &from, &from), Err(PoolError::UnexpectedSender));
}

#[test]
fn a_deposit_is_verified_for_its_caller_and_its_pool() {
    let tx = deposit(0xFF, 100_000_000);
    assert_eq!(verify_deposit(&tx, &principal(0xFF), &pool_id()), Ok(()));
    assert_eq!(verify_deposit(&tx, &principal(0xFE), &pool_id()), Err(PoolError::UnexpectedSender));
    assert_eq!(
        verify_deposit(&tx, &principal(0xFF), &principal(0x01)),
        Err(PoolError::UnexpectedDestination)
    );
}

#[test]
fn a_join_with_the_minimum_deposit_credits_the_cycles() {
    let mut pool = Pool::new();
    let caller = principal(0xFF);
    let join = join_pool(&mut pool, &caller).unwrap();
    assert_eq!(join.caller(), &caller);
    assert!(!join.is_verified());
    assert!(is_principal_guarded(&pool, &caller));
    let join = deposit_fetched(&mut pool, join, &deposit(0xFF, 99_990_000), &pool_id()).unwrap();
    assert!(join.is_verified());
    assert!(is_principal_guarded(&pool, &caller));
    assert_eq!(get_member_cycles(&pool, &caller), None);
    assert_eq!(top_up_notified(&mut pool, join, 4_999_500_000_000), Ok(()));
    assert!(!is_principal_guarded(&pool, &caller));
    assert_eq!(
        get_member_cycles(&pool, &caller),
        Some(MemberCycles { block: 0, pending: 0, remaining: 4_999_500_000_000 })
    );
    assert_eq!(member_rewards(&pool, &caller), Ok(vec![]));
}

#[test]
fn a_join_keeps_the_block_commitment_and_the_history() {
    let mut pool = Pool::new();
    let caller = principal(0xFF);
    add_member_remaining_cycles(&mut pool, &caller, 20_000_000_000).unwrap();
    bob_pool::set_member_block_cycles(&mut pool, &caller, 15_000_000_000).unwrap();
    let history =
        vec![Reward { timestamp: 1, cycles_burnt: 2, bob_reward: 3, bob_block_index: Some(4) }];
    set_member_rewards(&mut pool, &caller, &history);
    let join = join_pool(&mut pool, &caller).unwrap();
    let join = deposit_fetched(&mut pool, join, &deposit(0xFF, 100_000_000), &pool_id()).unwrap();
    top_up_notified(&mut pool, join, 1_000).unwrap();
    assert_eq!(
        get_member_cycles(&pool, &caller),
        Some(MemberCycles { block: 15_000_000_000, pending: 0, remaining: 20_000_001_000 })
    );
    assert_eq!(get_member_rewards(&pool, &caller), history);
}

#[test]
fn the_anonymous_principal_cannot_join() {
    let mut pool = Pool::new();
    assert_eq!(
        join_pool(&mut pool, &PrincipalId::anonymous()).unwrap_err(),
        PoolError::AnonymousCaller
    );
    assert!(!is_principal_guarded(&pool, &PrincipalId::anonymous()));
    assert_eq!(PrincipalId::anonymous().as_slice(), &[4]);
    assert!(PrincipalId::anonymous().is_anonymous());
    assert!(!PrincipalId::management_canister().is_anonymous());
    assert!(join_pool(&mut pool, &PrincipalId::from_slice(&[4, 0]).unwrap()).is_ok());
}

#[test]
fn two_joins_of_one_principal_do_not_overlap() {
    let mut pool = Pool::new();
    let caller = principal(0xFF);
    let join = join_pool(&mut pool, &caller).unwrap();
    assert_eq!(join_pool(&mut pool, &caller).unwrap_err(), PoolError::PrincipalBusy);
    assert!(join_pool(&mut pool, &principal(0xFE)).is_ok());
    join_failed(&mut pool, join);
    assert!(join_pool(&mut pool, &caller).is_ok());
}

#[test]
fn a_deposit_that_does_not_pass_ends_the_join() {
    let mut pool = Pool::new();
    let caller = principal(0xFF);
    let join = join_pool(&mut pool, &caller).unwrap();
    assert_eq!(
        deposit_fetched(&mut pool, join, &deposit(0xFF, 10_000_000), &pool_id()).unwrap_err(),
        PoolError::AmountTooLow { amount: 10_000_000, least: 99_990_000 }
    );
    assert!(!is_principal_guarded(&pool, &caller));
    assert_eq!(get_member_cycles(&pool, &caller), None);
}

#[test]
fn nothing_is_credited_before_the_deposit_is_verified() {
    let mut pool = Pool::new();
    let caller = principal(0xFF);
    let join = join_pool(&mut pool, &caller).unwrap();
    assert_eq!(top_up_notified(&mut pool, join, 5), Err(PoolError::DepositNotVerified));
    assert!(!is_principal_guarded(&pool, &caller));
    assert_eq!(get_member_cycles(&pool, &caller), None);
}

#[test]
fn a_credit_beyond_what_a_number_holds_is_refused() {
    let mut pool = Pool::new();
    let caller = principal(0xFF);
    add_member_remaining_cycles(&mut pool, &caller, u128::MAX - 5).unwrap();
    let join = join_pool(&mut pool, &caller).unwrap();
    let join = deposit_fetched(&mut pool, join, &deposit(0xFF, 100_000_000), &pool_id()).unwrap();
    assert_eq!(top_up_notified(&mut pool, join, 6), Err(PoolError::CreditOverflow));
    assert_eq!(get_member_cycles(&pool, &caller).unwrap().remaining, u128::MAX - 5);
    assert!(!is_principal_guarded(&pool, &caller));
    let join = join_pool(&mut pool, &caller).unwrap();
    let join = deposit_fetched(&mut pool, join, &deposit(0xFF, 100_000_000), &pool_id()).unwrap();
    assert_eq!(top_up_notified(&mut pool, join, 5), Ok(()));
    assert_eq!(get_member_cycles(&pool, &caller).unwrap().remaining, u128::MAX);
}
