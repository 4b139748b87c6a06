//! The member ledger: the cycle balances of the members.

use vstd::prelude::*;
use crate::error::PoolError;
use crate::memory::{Pool, PoolView};
use crate::model::{
    ascending, balances, can_commit, committable, committed, credited, eligible, fee_share,
    is_snapshot, keyed, ledger_sum, lemma_not_committable, names, participant, reset,
    total_cycles, weigher, Ledger, Measure,
};
use crate::principal::{precedes, PrincipalId};
use crate::records::{cycles_entries, cycles_get, cycles_insert};
use crate::sums::{lemma_lists_sum, lemma_seq_sum_step, lists, seq_sum};
use crate::types::{
    MemberCycles, BLOCK_CYCLES_GRANULARITY, BOB_POOL_BLOCK_FEE, MIN_BLOCK_CYCLES,
};

verus! {

/// Every entry of the ledger once, in ledger order.
pub fn ledger_entries(pool: &Pool) -> (r: Vec<(PrincipalId, MemberCycles)>)
    ensures
        lists(keyed(r@), pool@.cycles),
        ascending(keyed(r@)),
{
    cycles_entries(&pool.cycles)
}

/// The cycle balances of a member, if it is one.
pub fn get_member_cycles(pool: &Pool, member: &PrincipalId) -> (r: Option<MemberCycles>)
    ensures
        r is Some <==> pool@.cycles.contains_key(member@),
        r matches Some(c) ==> c == pool@.cycles[member@],
{
    cycles_get(&pool.cycles, member)
}

/// Whether the caller is a member.
pub fn ensure_caller_pool_member(pool: &Pool, caller: &PrincipalId) -> (r: Result<(), PoolError>)
    ensures
        r is Ok <==> pool@.cycles.contains_key(caller@),
        r matches Err(e) ==> e == PoolError::NotAMember,
{
    match cycles_get(&pool.cycles, caller) {
        Some(_) => Ok(()),
        None => Err(PoolError::NotAMember),
    }
}

/// The cycle balances of the caller, who must be a member.
pub fn member_cycles(pool: &Pool, caller: &PrincipalId) -> (r: Result<MemberCycles, PoolError>)
    ensures
        r is Ok <==> pool@.cycles.contains_key(caller@),
        r matches Ok(c) ==> c == pool@.cycles[caller@],
        r matches Err(e) ==> e == PoolError::NotAMember,
{
    match cycles_get(&pool.cycles, caller) {
        Some(c) => Ok(c),
        None => Err(PoolError::NotAMember),
    }
}

/// Whether `new_cycles` can be credited to `k`: the balance must fit 128 bits.
pub open spec fn credit_verdict(l: Ledger, k: Seq<u8>, new_cycles: u128) -> Result<(), PoolError> {
    if balances(l, k).remaining + new_cycles > u128::MAX {
        Err(PoolError::CreditOverflow)
    } else {
        Ok(())
    }
}

/// Credits a deposit to a member. The first deposit makes the member. A
/// credit that the balance cannot hold is refused and changes nothing.
pub fn add_member_remaining_cycles(pool: &mut Pool, member: &PrincipalId, new_cycles: u128) -> (r:
    Result<(), PoolError>)
    ensures
        r == credit_verdict(old(pool)@.cycles, member@, new_cycles),
        r is Ok ==> final(pool)@ == (PoolView {
            cycles: credited(old(pool)@.cycles, member@, new_cycles),
            ..old(pool)@
        }),
        r is Err ==> final(pool)@ == old(pool)@,
{
    let mut member_cycles = match cycles_get(&pool.cycles, member) {
        Some(c) => c,
        None => MemberCycles { block: 0, pending: 0, remaining: 0 },
    };
    if new_cycles > u128::MAX - member_cycles.remaining {
        return Err(PoolError::CreditOverflow);
    }
    member_cycles.remaining = member_cycles.remaining + new_cycles;
    cycles_insert(&mut pool.cycles, member, member_cycles);
    Ok(())
}

/// Whether a block commitment is one a member may declare, and if not, why.
pub open spec fn block_cycles_verdict(block_cycles: u128) -> Result<(), PoolError> {
    if block_cycles != 0 && block_cycles < MIN_BLOCK_CYCLES {
        Err(PoolError::BlockCyclesTooSmall { block_cycles, minimum: MIN_BLOCK_CYCLES })
    } else if block_cycles % BLOCK_CYCLES_GRANULARITY != 0 {
        Err(
            PoolError::BlockCyclesNotAligned {
                block_cycles,
                granularity: BLOCK_CYCLES_GRANULARITY,
            },
        )
    } else {
        Ok(())
    }
}

/// What [`set_member_block_cycles`] answers.
pub open spec fn set_block_verdict(l: Ledger, k: Seq<u8>, block_cycles: u128) -> Result<
    (),
    PoolError,
> {
    if !l.contains_key(k) {
        Err(PoolError::NotAMember)
    } else {
        block_cycles_verdict(block_cycles)
    }
}

/// Declares the cycles a member commits to every round. The commitment is
/// zero, to opt out, or at least the minimum, and a multiple of the
/// granularity; only a member can declare one. A refusal leaves the ledger
/// as it was.
pub fn set_member_block_cycles(pool: &mut Pool, member: &PrincipalId, block_cycles: u128) -> (r:
    Result<(), PoolError>)
    ensures
        r == set_block_verdict(old(pool)@.cycles, member@, block_cycles),
        r is Ok ==> final(pool)@ == (PoolView {
            cycles: old(pool)@.cycles.insert(
                member@,
                MemberCycles { block: block_cycles, ..old(pool)@.cycles[member@] },
            ),
            ..old(pool)@
        }),
        r is Err ==> final(pool)@ == old(pool)@,
{
    match cycles_get(&pool.cycles, member) {
        None => Err(PoolError::NotAMember),
        Some(member_cycles) => {
            if block_cycles != 0 && block_cycles < MIN_BLOCK_CYCLES {
                Err(PoolError::BlockCyclesTooSmall { block_cycles, minimum: MIN_BLOCK_CYCLES })
            } else if block_cycles % BLOCK_CYCLES_GRANULARITY != 0 {
                Err(
                    PoolError::BlockCyclesNotAligned {
                        block_cycles,
                        granularity: BLOCK_CYCLES_GRANULARITY,
                    },
                )
            } else {
                let updated = MemberCycles { block: block_cycles, ..member_cycles };
                cycles_insert(&mut pool.cycles, member, updated);
                Ok(())
            }
        },
    }
}

/// The snapshot for the next round: every member that has declared a
/// commitment and can pay for it together with the round fee, with the
/// cycles it commits. A snapshot reserves nothing.
pub fn get_next_block_participants(pool: &Pool) -> (r: Vec<(PrincipalId, u128)>)
    ensures
        is_snapshot(keyed(r@), pool@.cycles),
{
    let entries = ledger_entries(pool);
    let mut out: Vec<(PrincipalId, u128)> = Vec::new();
    let ghost mut source: Seq<int> = Seq::empty();
    let ghost l = pool@.cycles;
    let ghost es = keyed(entries@);
    let mut i: usize = 0;
    while i < entries.len()
        invariant
            i <= entries.len(),
            es == keyed(entries@),
            lists(es, l),
            ascending(es),
            source.len() == out@.len(),
            forall|a: int|
                #![trigger source[a]]
                0 <= a < out@.len() ==> 0 <= source[a] < i && out@[a].0@ == es[source[a]].0
                    && out@[a].1 == es[source[a]].1.block && es[source[a]].1.is_active(),
            forall|a: int, b: int|
                0 <= a < b < out@.len() ==> #[trigger] source[a] < #[trigger] source[b],
            forall|e: int|
                #![trigger es[e]]
                0 <= e < i && es[e].1.is_active() ==> exists|a: int|
                    0 <= a < out@.len() && #[trigger] source[a] == e,
        decreases entries.len() - i,
    {
        proof {
            assert(es[i as int] == (entries@[i as int].0@, entries@[i as int].1));
        }
        if entries[i].1.active() {
            let ghost prior = source;
            out.push((entries[i].0.clone(), entries[i].1.block));
            proof {
                source = source.push(i as int);
                assert forall|e: int|
                    #![trigger es[e]]
                    0 <= e < i + 1 && es[e].1.is_active() implies exists|a: int|
                    0 <= a < out@.len() && #[trigger] source[a] == e by {
                    if e < i {
                        let a = choose|a: int| 0 <= a < prior.len() && #[trigger] prior[a] == e;
                        assert(source[a] == e);
                    } else {
                        assert(source[out@.len() - 1] == e);
                    }
                }
            }
        }
        i += 1;
    }
    proof {
        let ps = keyed(out@);
        assert forall|a: int, b: int| 0 <= a < b < ps.len() implies precedes(
            #[trigger] ps[a].0,
            #[trigger] ps[b].0,
        ) by {
            assert(source[a] < source[b]);
        }
        assert forall|a: int| 0 <= a < ps.len() implies eligible(l, #[trigger] ps[a].0) && ps[a].1
            == l[ps[a].0].block by {
            assert(0 <= source[a] < i);
            assert(l.contains_key(es[source[a]].0));
        }
        assert forall|k: Seq<u8>| #[trigger] eligible(l, k) implies exists|a: int|
            0 <= a < ps.len() && #[trigger] ps[a].0 == k by {
            let e = choose|e: int| 0 <= e < es.len() && #[trigger] es[e].0 == k;
            assert(es[e].1.is_active());
            let a = choose|a: int| 0 <= a < out@.len() && #[trigger] source[a] == e;
            assert(ps[a].0 == k);
        }
    }
    out
}

/// `was` is what the `j`-th participant held just before it committed.
spec fn restores(l: Ledger, ps: Seq<(Seq<u8>, u128)>, share: nat, j: int, was: MemberCycles) -> bool {
    let prior = committed(l, ps.subrange(0, j), share);
    prior.contains_key(ps[j].0) && prior[ps[j].0] == was
}

/// Commits the participants to a round: each pays the cycles it commits
/// and an equal share of the round fee out of its remaining cycles, and the
/// cycles it commits become pending. Either every participant is committed
/// or, when the list is empty or one of them cannot pay, none is.
pub fn commit_block_participants(pool: &mut Pool, participants: &Vec<(PrincipalId, u128)>) -> (r:
    Result<(), PoolError>)
    ensures
        r is Ok <==> can_commit(old(pool)@.cycles, keyed(participants@)),
        r is Ok ==> final(pool)@ == (PoolView {
            cycles: committed(
                old(pool)@.cycles,
                keyed(participants@),
                fee_share(participants@.len()),
            ),
            ..old(pool)@
        }),
        r matches Err(e) ==> e == PoolError::CommitRejected && final(pool)@ == old(pool)@,
{
    let n: usize = participants.len();
    if n == 0 {
        return Err(PoolError::CommitRejected);
    }
    let fee: u128 = BOB_POOL_BLOCK_FEE / (n as u128);
    let ghost ps = keyed(participants@);
    let ghost share = fee_share(n as nat);
    let ghost l = pool@.cycles;
    let ghost before = pool@;
    let mut saved: Vec<MemberCycles> = Vec::new();
    let mut i: usize = 0;
    let mut failed = false;
    while i < n && !failed
        invariant
            n == participants@.len(),
            ps == keyed(participants@),
            fee == share,
            share <= BOB_POOL_BLOCK_FEE,
            i <= n,
            saved@.len() == i,
            !failed ==> committable(l, ps.subrange(0, i as int), share),
            failed ==> i < n && committable(l, ps.subrange(0, i as int), share) && !committable(
                l,
                ps.subrange(0, i + 1),
                share,
            ),
            pool@ == (PoolView { cycles: committed(l, ps.subrange(0, i as int), share), ..before }),
            forall|j: int|
                #![trigger saved@[j]]
                0 <= j < i ==> restores(l, ps, share, j, saved@[j]),
        decreases n - i, (if failed { 0int } else { 1int }),
    {
        let member = &participants[i].0;
        let block_cycles: u128 = participants[i].1;
        let ghost prior = committed(l, ps.subrange(0, i as int), share);
        let ghost saved_before = saved@;
        proof {
            assert(ps.subrange(0, i + 1).drop_last() =~= ps.subrange(0, i as int));
            assert(ps.subrange(0, i + 1).last() == ps[i as int]);
            assert(ps[i as int] == (member@, block_cycles));
            assert(pool@.cycles == prior);
        }
        match cycles_get(&pool.cycles, member) {
            Some(mc) => {
                if block_cycles <= mc.remaining && fee <= mc.remaining - block_cycles
                    && block_cycles <= u128::MAX - mc.pending {
                    let updated = MemberCycles {
                        remaining: mc.remaining - block_cycles - fee,
                        pending: mc.pending + block_cycles,
                        ..mc
                    };
                    cycles_insert(&mut pool.cycles, member, updated);
                    saved.push(mc);
                    proof {
                        assert(prior.contains_key(ps[i as int].0));
                        assert(saved@[i as int] == prior[ps[i as int].0]);
                        assert forall|j: int| 0 <= j < i + 1 implies restores(
                            l,
                            ps,
                            share,
                            j,
                            #[trigger] saved@[j],
                        ) by {
                            if j < i {
                                assert(saved@[j] == saved_before[j]);
                            }
                        }
                    }
                    i += 1;
                } else {
                    failed = true;
                }
            },
            None => {
                failed = true;
            },
        }
    }
    if !failed {
        proof {
            assert(ps.subrange(0, n as int) =~= ps);
        }
        return Ok(());
    }
    proof {
        lemma_not_committable(l, ps, share, i + 1);
    }
    while i > 0
        invariant
            i <= n,
            n == participants@.len(),
            ps == keyed(participants@),
            saved@.len() >= i,
            pool@ == (PoolView { cycles: committed(l, ps.subrange(0, i as int), share), ..before }),
            forall|j: int|
                #![trigger saved@[j]]
                0 <= j < i ==> restores(l, ps, share, j, saved@[j]),
        decreases i,
    {
        i -= 1;
        proof {
            assert(ps.subrange(0, i + 1).drop_last() =~= ps.subrange(0, i as int));
            assert(ps.subrange(0, i + 1).last() == ps[i as int]);
            let prior = committed(l, ps.subrange(0, i as int), share);
            assert(restores(l, ps, share, i as int, saved@[i as int]));
        }
        cycles_insert(&mut pool.cycles, &participants[i].0, saved[i]);
        proof {
            let prior = committed(l, ps.subrange(0, i as int), share);
            assert(pool@.cycles =~= prior);
        }
    }
    proof {
        assert(ps.subrange(0, 0) =~= Seq::<(Seq<u8>, u128)>::empty());
        assert(pool@.cycles == l);
    }
    Err(PoolError::CommitRejected)
}

/// Clears the pending cycles of each member of the list. A principal that
/// is no member is passed over.
pub fn reset_member_pending_cycles(pool: &mut Pool, members: &Vec<PrincipalId>)
    ensures
        final(pool)@ == (PoolView {
            cycles: reset(old(pool)@.cycles, names(members@)),
            ..old(pool)@
        }),
{
    let ghost before = pool@;
    let ghost ks = names(members@);
    let mut i: usize = 0;
    proof {
        assert(ks.subrange(0, 0) =~= Seq::<Seq<u8>>::empty());
    }
    while i < members.len()
        invariant
            i <= members.len(),
            ks == names(members@),
            pool@ == (PoolView { cycles: reset(before.cycles, ks.subrange(0, i as int)), ..before }),
        decreases members.len() - i,
    {
        match cycles_get(&pool.cycles, &members[i]) {
            Some(mc) => {
                cycles_insert(&mut pool.cycles, &members[i], MemberCycles { pending: 0, ..mc });
            },
            None => {},
        }
        proof {
            assert(ks.subrange(0, i + 1).drop_last() =~= ks.subrange(0, i as int));
            assert(ks.subrange(0, i + 1).last() == ks[i as int]);
        }
        i += 1;
    }
    proof {
        assert(ks.subrange(0, members.len() as int) =~= ks);
    }
}

/// `ps` lists the participants of the rounds in flight: the members with
/// pending cycles in ledger order, each with its pending cycles.
pub open spec fn is_pending_list(ps: Seq<(Seq<u8>, u128)>, l: Ledger) -> bool {
    &&& ascending(ps)
    &&& forall|i: int|
        #![trigger ps[i]]
        0 <= i < ps.len() ==> participant(l, ps[i].0) && ps[i].1 == l[ps[i].0].pending
    &&& forall|k: Seq<u8>| #[trigger]
        participant(l, k) ==> exists|i: int| 0 <= i < ps.len() && #[trigger] ps[i].0 == k
}

/// The members with cycles in rounds whose yield is not realized yet, each
/// with its pending cycles. The list is as long as there are such members,
/// and its cycles add up to the pending cycles of the ledger.
pub fn get_member_to_pending_cycles(pool: &Pool) -> (r: Vec<(PrincipalId, u128)>)
    ensures
        is_pending_list(keyed(r@), pool@.cycles),
        pool@.cycles.dom().finite(),
        r@.len() == ledger_sum(pool@.cycles, Measure::Participants),
        total_cycles(keyed(r@)) == ledger_sum(pool@.cycles, Measure::Pending),
{
    let entries = ledger_entries(pool);
    let mut out: Vec<(PrincipalId, u128)> = Vec::new();
    let ghost mut source: Seq<int> = Seq::empty();
    let ghost l = pool@.cycles;
    let ghost es = keyed(entries@);
    let ghost by_pending = weigher(Measure::Pending);
    let ghost by_count = weigher(Measure::Participants);
    proof {
        lemma_lists_sum(es, l, by_pending);
        lemma_lists_sum(es, l, by_count);
        assert(es.subrange(0, 0) =~= Seq::<(Seq<u8>, MemberCycles)>::empty());
        assert(keyed(out@) =~= Seq::<(Seq<u8>, u128)>::empty());
    }
    let mut i: usize = 0;
    while i < entries.len()
        invariant
            i <= entries.len(),
            es == keyed(entries@),
            by_pending == weigher(Measure::Pending),
            by_count == weigher(Measure::Participants),
            lists(es, l),
            ascending(es),
            source.len() == out@.len(),
            out@.len() == seq_sum(es.subrange(0, i as int), by_count),
            total_cycles(keyed(out@)) == seq_sum(es.subrange(0, i as int), by_pending),
            forall|a: int|
                #![trigger source[a]]
                0 <= a < out@.len() ==> 0 <= source[a] < i && out@[a].0@ == es[source[a]].0
                    && out@[a].1 == es[source[a]].1.pending && es[source[a]].1.pending > 0,
            forall|a: int, b: int|
                0 <= a < b < out@.len() ==> #[trigger] source[a] < #[trigger] source[b],
            forall|e: int|
                #![trigger es[e]]
                0 <= e < i && es[e].1.pending > 0 ==> exists|a: int|
                    0 <= a < out@.len() && #[trigger] source[a] == e,
        decreases entries.len() - i,
    {
        proof {
            assert(es[i as int] == (entries@[i as int].0@, entries@[i as int].1));
            lemma_seq_sum_step(es, by_pending, i as int);
            lemma_seq_sum_step(es, by_count, i as int);
            assert(by_pending(es[i as int].1) == es[i as int].1.pending);
            assert(by_count(es[i as int].1) == (if es[i as int].1.pending > 0 {
                1nat
            } else {
                0nat
            }));
        }
        if entries[i].1.pending > 0 {
            let ghost prior = source;
            let ghost listed = keyed(out@);
            out.push((entries[i].0.clone(), entries[i].1.pending));
            proof {
                source = source.push(i as int);
                assert(keyed(out@).drop_last() =~= listed);
                assert(keyed(out@).last() == (es[i as int].0, es[i as int].1.pending));
                assert forall|e: int|
                    #![trigger es[e]]
                    0 <= e < i + 1 && es[e].1.pending > 0 implies exists|a: int|
                    0 <= a < out@.len() && #[trigger] source[a] == e by {
                    if e < i {
                        let a = choose|a: int| 0 <= a < prior.len() && #[trigger] prior[a] == e;
                        assert(source[a] == e);
                    } else {
                        assert(source[out@.len() - 1] == e);
                    }
                }
            }
        }
        i += 1;
    }
    proof {
        assert(es.subrange(0, entries.len() as int) =~= es);
        let ps = keyed(out@);
        assert forall|a: int, b: int| 0 <= a < b < ps.len() implies precedes(
            #[trigger] ps[a].0,
            #[trigger] ps[b].0,
        ) by {
            assert(source[a] < source[b]);
        }
        assert forall|a: int|
            #![trigger ps[a]]
            0 <= a < ps.len() implies participant(l, ps[a].0) && ps[a].1 == l[ps[a].0].pending by {
            assert(0 <= source[a] < i);
            assert(l.contains_key(es[source[a]].0));
        }
        assert forall|k: Seq<u8>| #[trigger] participant(l, k) implies exists|a: int|
            0 <= a < ps.len() && #[trigger] ps[a].0 == k by {
            let e = choose|e: int| 0 <= e < es.len() && #[trigger] es[e].0 == k;
            assert(es[e].1.pending > 0);
            let a = choose|a: int| 0 <= a < out@.len() && #[trigger] source[a] == e;
            assert(ps[a].0 == k);
        }
    }
    out
}

} // verus!
