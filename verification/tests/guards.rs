use bob_pool::guard::{is_principal_guarded, is_task_guarded};
use bob_pool::{GuardPrincipal, Pool, PoolError, PrincipalId, TaskGuard, TaskType};

fn principal(byte: u8) -> PrincipalId {
    PrincipalId::from_slice(&[byte; 29]).unwrap()
}

#[test]
fn a_principal_is_guarded_once() {
    let mut pool = Pool::new();
    let guard = GuardPrincipal::new(&mut pool, &principal(1)).unwrap();
    assert_eq!(guard.principal(), &principal(1));
    assert!(is_principal_guarded(&pool, &principal(1)));
    assert!(!is_principal_guarded(&pool, &principal(2)));
    assert_eq!(GuardPrincipal::new(&mut pool, &principal(1)).unwrap_err(), PoolError::PrincipalBusy);
    let other = GuardPrincipal::new(&mut pool, &principal(2)).unwrap();
    guard.release(&mut pool);
    assert!(!is_principal_guarded(&pool, &principal(1)));
    assert!(is_principal_guarded(&pool, &principal(2)));
    let again = GuardPrincipal::new(&mut pool, &principal(1)).unwrap();
    other.release(&mut pool);
    again.release(&mut pool);
    assert!(!is_principal_guarded(&pool, &principal(1)));
    assert!(!is_principal_guarded(&pool, &principal(2)));
}

#[test]
fn a_refused_guard_leaves_the_held_one_in_place() {
    let mut pool = Pool::new();
    let guard = GuardPrincipal::new(&mut pool, &principal(1)).unwrap();
    for _ in 0..3 {
        assert!(GuardPrincipal::new(&mut pool, &principal(1)).is_err());
        assert!(is_principal_guarded(&pool, &principal(1)));
    }
    guard.release(&mut pool);
    assert!(GuardPrincipal::new(&mut pool, &principal(1)).is_ok());
}

#[test]
fn a_task_runs_once_at_a_time() {
    let mut pool = Pool::new();
    let check = TaskGuard::new(&mut pool, TaskType::CheckRewards).unwrap();
    assert_eq!(check.task(), TaskType::CheckRewards);
    assert!(is_task_guarded(&pool, TaskType::CheckRewards));
    assert!(!is_task_guarded(&pool, TaskType::PayRewards));
    assert_eq!(
        TaskGuard::new(&mut pool, TaskType::CheckRewards).unwrap_err(),
        PoolError::TaskBusy { task: TaskType::CheckRewards }
    );
    let pay = TaskGuard::new(&mut pool, TaskType::PayRewards).unwrap();
    assert_eq!(
        TaskGuard::new(&mut pool, TaskType::PayRewards).unwrap_err(),
        PoolError::TaskBusy { task: TaskType::PayRewards }
    );
    check.release(&mut pool);
    assert!(!is_task_guarded(&pool, TaskType::CheckRewards));
    assert!(is_task_guarded(&pool, TaskType::PayRewards));
    pay.release(&mut pool);
    assert!(TaskGuard::new(&mut pool, TaskType::CheckRewards).is_ok());
    assert!(TaskGuard::new(&mut pool, TaskType::PayRewards).is_ok());
}
