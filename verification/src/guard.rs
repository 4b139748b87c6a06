//! Guards against two operations on one principal, or two runs of one
//! singleton task, being under way at the same time.
//!
//! A guard is a token for a key that the pool marks as held. While the key
//! is held no second guard for it can be had; releasing the guard frees the
//! key. Whoever takes a guard releases it on every way out of the operation.

use vstd::prelude::*;
use crate::error::PoolError;
use crate::memory::{held, Pool, PoolView};
use crate::principal::PrincipalId;
use crate::types::TaskType;

verus! {

/// Whether a guard for `principal` is held.
pub fn is_principal_guarded(pool: &Pool, principal: &PrincipalId) -> (r: bool)
    ensures
        r == pool@.principal_guards.contains(principal@),
{
    let mut i: usize = 0;
    while i < pool.principal_guards.len()
        invariant
            i <= pool.principal_guards.len(),
            forall|j: int| 0 <= j < i ==> #[trigger] pool.principal_guards@[j]@ != principal@,
        decreases pool.principal_guards.len() - i,
    {
        if pool.principal_guards[i].same_as(principal) {
            return true;
        }
        i += 1;
    }
    false
}

/// Whether a guard for `task` is held.
pub fn is_task_guarded(pool: &Pool, task: TaskType) -> (r: bool)
    ensures
        r == pool@.active_tasks.contains(task),
{
    match task {
        TaskType::CheckRewards => pool.check_rewards_active,
        TaskType::PayRewards => pool.pay_rewards_active,
    }
}

/// The guard of an operation on one principal.
#[derive(Debug, PartialEq, Eq)]
pub struct GuardPrincipal {
    principal: PrincipalId,
}

impl View for GuardPrincipal {
    type V = Seq<u8>;

    closed spec fn view(&self) -> Seq<u8> {
        self.principal@
    }
}

impl GuardPrincipal {
    /// Takes the guard for `principal`, unless it is held.
    pub fn new(pool: &mut Pool, principal: &PrincipalId) -> (r: Result<GuardPrincipal, PoolError>)
        ensures
            r is Ok <==> !old(pool)@.principal_guards.contains(principal@),
            r matches Ok(guard) ==> guard@ == principal@ && final(pool)@ == (PoolView {
                principal_guards: old(pool)@.principal_guards.insert(principal@),
                ..old(pool)@
            }),
            r matches Err(e) ==> e == PoolError::PrincipalBusy && final(pool)@ == old(pool)@,
    {
        if is_principal_guarded(pool, principal) {
            return Err(PoolError::PrincipalBusy);
        }
        let ghost before = pool.principal_guards@;
        pool.principal_guards.push(principal.clone());
        proof {
            let after = pool.principal_guards@;
            assert forall|k: Seq<u8>| held(after).contains(k) <==> held(before).insert(
                principal@,
            ).contains(k) by {
                if held(after).contains(k) {
                    let i = choose|i: int| 0 <= i < after.len() && #[trigger] after[i]@ == k;
                    if i < before.len() {
                        assert(before[i]@ == k);
                    }
                }
                if held(before).contains(k) {
                    let i = choose|i: int| 0 <= i < before.len() && #[trigger] before[i]@ == k;
                    assert(after[i]@ == k);
                }
                if k == principal@ {
                    assert(after[before.len() as int]@ == k);
                }
            }
            assert(held(after) =~= held(before).insert(principal@));
        }
        Ok(GuardPrincipal { principal: principal.clone() })
    }

    /// The principal this guard is for.
    pub fn principal(&self) -> (r: &PrincipalId)
        ensures
            r@ == self@,
    {
        &self.principal
    }

    /// Gives the guard back: its principal can be guarded anew.
    pub fn release(self, pool: &mut Pool)
        ensures
            final(pool)@ == (PoolView {
                principal_guards: old(pool)@.principal_guards.remove(self@),
                ..old(pool)@
            }),
    {
        let ghost before = pool.principal_guards@;
        let mut kept: Vec<PrincipalId> = Vec::new();
        let mut i: usize = 0;
        while i < pool.principal_guards.len()
            invariant
                i <= pool.principal_guards.len(),
                pool.principal_guards@ == before,
                forall|a: int| 0 <= a < kept@.len() ==> #[trigger] kept@[a]@ != self.principal@,
                forall|a: int|
                    #![trigger kept@[a]]
                    0 <= a < kept@.len() ==> exists|j: int|
                        0 <= j < i && #[trigger] before[j]@ == kept@[a]@,
                forall|j: int|
                    0 <= j < i && #[trigger] before[j]@ != self.principal@ ==> exists|a: int|
                        0 <= a < kept@.len() && #[trigger] kept@[a]@ == before[j]@,
            decreases pool.principal_guards.len() - i,
        {
            if !pool.principal_guards[i].same_as(&self.principal) {
                let ghost prior = kept@;
                kept.push(pool.principal_guards[i].clone());
                proof {
                    assert forall|a: int|
                        #![trigger kept@[a]]
                        0 <= a < kept@.len() implies exists|j: int|
                        0 <= j < i + 1 && #[trigger] before[j]@ == kept@[a]@ by {
                        if a < prior.len() {
                            let j = choose|j: int| 0 <= j < i && #[trigger] before[j]@ == prior[a]@;
                            assert(before[j]@ == kept@[a]@);
                        } else {
                            assert(before[i as int]@ == kept@[a]@);
                        }
                    }
                    assert forall|j: int|
                        0 <= j < i + 1 && #[trigger] before[j]@ != self.principal@ implies exists|
                        a: int,
                    | 0 <= a < kept@.len() && #[trigger] kept@[a]@ == before[j]@ by {
                        if j < i {
                            let a = choose|a: int|
                                0 <= a < prior.len() && #[trigger] prior[a]@ == before[j]@;
                            assert(kept@[a]@ == before[j]@);
                        } else {
                            assert(kept@[prior.len() as int]@ == before[j]@);
                        }
                    }
                }
            }
            i += 1;
        }
        pool.principal_guards = kept;
        proof {
            let after = pool.principal_guards@;
            assert forall|k: Seq<u8>| held(after).contains(k) <==> held(before).remove(
                self.principal@,
            ).contains(k) by {
                if held(after).contains(k) {
                    let a = choose|a: int| 0 <= a < after.len() && #[trigger] after[a]@ == k;
                    let j = choose|j: int| 0 <= j < i && #[trigger] before[j]@ == after[a]@;
                    assert(before[j]@ == k);
                }
                if held(before).contains(k) && k != self.principal@ {
                    let j = choose|j: int| 0 <= j < before.len() && #[trigger] before[j]@ == k;
                    let a = choose|a: int|
                        0 <= a < after.len() && #[trigger] after[a]@ == before[j]@;
                    assert(after[a]@ == k);
                }
            }
            assert(held(after) =~= held(before).remove(self.principal@));
        }
    }
}

/// The guard of one run of a singleton task.
#[derive(Debug, PartialEq, Eq)]
pub struct TaskGuard {
    task: TaskType,
}

impl View for TaskGuard {
    type V = TaskType;

    closed spec fn view(&self) -> TaskType {
        self.task
    }
}

impl TaskGuard {
    /// Takes the guard for `task`, unless it is held.
    pub fn new(pool: &mut Pool, task: TaskType) -> (r: Result<TaskGuard, PoolError>)
        ensures
            r is Ok <==> !old(pool)@.active_tasks.contains(task),
            r matches Ok(guard) ==> guard@ == task && final(pool)@ == (PoolView {
                active_tasks: old(pool)@.active_tasks.insert(task),
                ..old(pool)@
            }),
            r matches Err(e) ==> e == (PoolError::TaskBusy { task }) && final(pool)@ == old(pool)@,
    {
        if is_task_guarded(pool, task) {
            return Err(PoolError::TaskBusy { task });
        }
        let ghost before = pool@.active_tasks;
        match task {
            TaskType::CheckRewards => {
                pool.check_rewards_active = true;
            },
            TaskType::PayRewards => {
                pool.pay_rewards_active = true;
            },
        }
        assert(pool@.active_tasks =~= before.insert(task));
        Ok(TaskGuard { task })
    }

    /// The task this guard is for.
    pub fn task(&self) -> (r: TaskType)
        ensures
            r == self@,
    {
        self.task
    }

    /// Gives the guard back: its task can be guarded anew.
    pub fn release(self, pool: &mut Pool)
        ensures
            final(pool)@ == (PoolView {
                active_tasks: old(pool)@.active_tasks.remove(self@),
                ..old(pool)@
            }),
    {
        let ghost before = pool@.active_tasks;
        match self.task {
            TaskType::CheckRewards => {
                pool.check_rewards_active = false;
            },
            TaskType::PayRewards => {
                pool.pay_rewards_active = false;
            },
        }
        assert(pool@.active_tasks =~= before.remove(self.task));
    }
}

} // verus!
