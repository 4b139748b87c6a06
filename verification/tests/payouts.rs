use bob_pool::guard::is_principal_guarded;
use bob_pool::payout::first_unpaid;
use bob_pool::{
    get_member_rewards, pay_rewards, payout_confirmed, payout_failed, set_member_rewards, Pool,
    PoolError, PrincipalId, Reward,
};

fn principal(byte: u8) -> PrincipalId {
    PrincipalId::from_slice(&[byte; 29]).unwrap()
}

fn reward(bob_reward: u128, bob_block_index: Option<u64>) -> Reward {
    Reward { timestamp: 1, cycles_burnt: 2, bob_reward, bob_block_index }
}

#[test]
fn the_first_unpaid_record_is_found() {
    assert_eq!(first_unpaid(&vec![]), None);
    assert_eq!(first_unpaid(&vec![reward(5, Some(0))]), None);
    assert_eq!(first_unpaid(&vec![reward(5, None)]), Some(0));
    assert_eq!(first_unpaid(&vec![reward(5, Some(3)), reward(6, None), reward(7, None)]), Some(1));
    assert_eq!(first_unpaid(&vec![reward(5, None), reward(6, Some(3))]), Some(0));
}

#[test]
fn a_payout_walks_the_unpaid_records_in_order() {
    let mut pool = Pool::new();
    let member = principal(0xFF);
    set_member_rewards(
        &mut pool,
        &member,
        &vec![reward(10, Some(7)), reward(20, None), reward(30, Some(8)), reward(40, None)],
    );
    let payout = pay_rewards(&mut pool, &member).unwrap().unwrap();
    assert_eq!((payout.member(), payout.index(), payout.amount()), (&member, 1, 20));
    assert!(is_principal_guarded(&pool, &member));
    let payout = payout_confirmed(&mut pool, payout, 100).unwrap();
    assert_eq!((payout.index(), payout.amount()), (3, 40));
    assert_eq!(payout_confirmed(&mut pool, payout, 101), None);
    assert!(!is_principal_guarded(&pool, &member));
    assert_eq!(
        get_member_rewards(&pool, &member),
        vec![reward(10, Some(7)), reward(20, Some(100)), reward(30, Some(8)), reward(40, Some(101))]
    );
}

#[test]
fn a_failed_transfer_keeps_what_was_confirmed() {
    let mut pool = Pool::new();
    let member = principal(0xFF);
    set_member_rewards(&mut pool, &member, &vec![reward(10, None), reward(20, None), reward(30, None)]);
    let payout = pay_rewards(&mut pool, &member).unwrap().unwrap();
    let payout = payout_confirmed(&mut pool, payout, 100).unwrap();
    payout_failed(&mut pool, payout);
    assert!(!is_principal_guarded(&pool, &member));
    assert_eq!(
        get_member_rewards(&pool, &member),
        vec![reward(10, Some(100)), reward(20, None), reward(30, None)]
    );
    // The next payout takes up where this one ended.
    let payout = pay_rewards(&mut pool, &member).unwrap().unwrap();
    assert_eq!((payout.index(), payout.amount()), (1, 20));
    payout_failed(&mut pool, payout);
}

#[test]
fn a_second_payout_is_turned_down_while_the_first_is_under_way() {
    let mut pool = Pool::new();
    let member = principal(0xFF);
    let other = principal(0xFE);
    set_member_rewards(&mut pool, &member, &vec![reward(10, None)]);
    set_member_rewards(&mut pool, &other, &vec![reward(11, None)]);
    let payout = pay_rewards(&mut pool, &member).unwrap().unwrap();
    assert_eq!(pay_rewards(&mut pool, &member).unwrap_err(), PoolError::PrincipalBusy);
    let others = pay_rewards(&mut pool, &other).unwrap().unwrap();
    assert_eq!(others.amount(), 11);
    assert_eq!(payout_confirmed(&mut pool, payout, 5), None);
    assert_eq!(payout_confirmed(&mut pool, others, 6), None);
    assert_eq!(get_member_rewards(&pool, &member), vec![reward(10, Some(5))]);
    assert_eq!(get_member_rewards(&pool, &other), vec![reward(11, Some(6))]);
}

#[test]
fn nothing_owed_nothing_asked() {
    let mut pool = Pool::new();
    let member = principal(0xFF);
    assert_eq!(pay_rewards(&mut pool, &member), Ok(None));
    assert!(!is_principal_guarded(&pool, &member));
    set_member_rewards(&mut pool, &member, &vec![reward(10, Some(1))]);
    assert_eq!(pay_rewards(&mut pool, &member), Ok(None));
    assert!(!is_principal_guarded(&pool, &member));
}

#[test]
fn a_paid_record_is_never_paid_again() {
    let mut pool = Pool::new();
    let member = principal(0xFF);
    set_member_rewards(&mut pool, &member, &vec![reward(10, None), reward(20, None)]);
    let payout = pay_rewards(&mut pool, &member).unwrap().unwrap();
    // While the transfer is under way the history is rewritten: the record is paid.
    set_member_rewards(&mut pool, &member, &vec![reward(10, Some(55)), reward(20, None)]);
    let payout = payout_confirmed(&mut pool, payout, 56).unwrap();
    assert_eq!(payout.index(), 1);
    assert_eq!(get_member_rewards(&pool, &member)[0].bob_block_index, Some(55));
    // Or the history is gone: then there is nothing to record.
    set_member_rewards(&mut pool, &member, &vec![]);
    assert_eq!(payout_confirmed(&mut pool, payout, 57), None);
    assert!(get_member_rewards(&pool, &member).is_empty());
}
