//! The member ledger as a map, and what its operations make of it.

use vstd::prelude::*;
use crate::principal::{precedes, PrincipalId};
use crate::sums::map_sum;
use crate::error::PoolError;
use crate::types::{MemberCycles, Reward, BOB_POOL_BLOCK_FEE, BOB_TRANSFER_FEE};

verus! {

/// The cycle balances of the members, keyed by the member's bytes.
pub type Ledger = Map<Seq<u8>, MemberCycles>;

/// A list of members with a value each, keyed by the member's bytes.
pub open spec fn keyed<V>(es: Seq<(PrincipalId, V)>) -> Seq<(Seq<u8>, V)> {
    Seq::new(es.len(), |i: int| (es[i].0@, es[i].1))
}

/// The principals of a list, as their bytes.
pub open spec fn names(ps: Seq<PrincipalId>) -> Seq<Seq<u8>> {
    Seq::new(ps.len(), |i: int| ps[i]@)
}

/// The list is in the order in which the ledger keeps its members. No
/// member occurs twice in such a list.
pub open spec fn ascending<V>(es: Seq<(Seq<u8>, V)>) -> bool {
    forall|i: int, j: int|
        0 <= i < j < es.len() ==> precedes(#[trigger] es[i].0, #[trigger] es[j].0)
}

/// What is summed over a ledger.
pub enum Measure {
    /// The pending cycles of every member.
    Pending,
    /// One for every member with pending cycles.
    Participants,
    /// The block cycles of every active member.
    ActiveBlock,
    /// One for every active member.
    ActiveMembers,
}

/// The weight of one member under a measure.
pub open spec fn measure(w: Measure, c: MemberCycles) -> nat {
    match w {
        Measure::Pending => c.pending as nat,
        Measure::Participants => if c.pending > 0 {
            1
        } else {
            0
        },
        Measure::ActiveBlock => if c.is_active() {
            c.block as nat
        } else {
            0
        },
        Measure::ActiveMembers => if c.is_active() {
            1
        } else {
            0
        },
    }
}

/// A measure as a function of the balances.
pub open spec fn weigher(w: Measure) -> spec_fn(MemberCycles) -> nat {
    |c: MemberCycles| measure(w, c)
}

/// The sum of a measure over a ledger.
pub open spec fn ledger_sum(l: Ledger, w: Measure) -> nat {
    map_sum(l, weigher(w))
}

/// The balances of `k`, all zero for one that is no member.
pub open spec fn balances(l: Ledger, k: Seq<u8>) -> MemberCycles {
    if l.contains_key(k) {
        l[k]
    } else {
        MemberCycles { block: 0, pending: 0, remaining: 0 }
    }
}

/// The ledger after `delta` cycles were credited to `k`.
pub open spec fn credited(l: Ledger, k: Seq<u8>, delta: u128) -> Ledger {
    l.insert(
        k,
        MemberCycles { remaining: (balances(l, k).remaining + delta) as u128, ..balances(l, k) },
    )
}

/// `k` is a member that takes part in the next round.
pub open spec fn eligible(l: Ledger, k: Seq<u8>) -> bool {
    l.contains_key(k) && l[k].is_active()
}

/// `ps` is the snapshot for the next round: the eligible members in ledger
/// order, each with its block cycles.
pub open spec fn is_snapshot(ps: Seq<(Seq<u8>, u128)>, l: Ledger) -> bool {
    &&& ascending(ps)
    &&& forall|i: int|
        0 <= i < ps.len() ==> eligible(l, #[trigger] ps[i].0) && ps[i].1 == l[ps[i].0].block
    &&& forall|k: Seq<u8>| #[trigger]
        eligible(l, k) ==> exists|i: int| 0 <= i < ps.len() && #[trigger] ps[i].0 == k
}

/// The cycles that a list of participants commits in all.
pub open spec fn total_cycles(ps: Seq<(Seq<u8>, u128)>) -> nat
    decreases ps.len(),
{
    if ps.len() == 0 {
        0
    } else {
        total_cycles(ps.drop_last()) + ps.last().1 as nat
    }
}

/// The cycles committed by a prefix of the participants are at most those
/// committed by all.
pub proof fn lemma_total_cycles_prefix(ps: Seq<(Seq<u8>, u128)>, n: int)
    requires
        0 <= n <= ps.len(),
    ensures
        total_cycles(ps.subrange(0, n)) <= total_cycles(ps),
    decreases ps.len(),
{
    if n == ps.len() {
        assert(ps.subrange(0, n) =~= ps);
    } else {
        lemma_total_cycles_prefix(ps.drop_last(), n);
        assert(ps.drop_last().subrange(0, n) =~= ps.subrange(0, n));
    }
}

/// The share of the round fee that each of `n` participants pays.
pub open spec fn fee_share(n: nat) -> nat {
    BOB_POOL_BLOCK_FEE as nat / n
}

/// `k` is a member that can commit `cycles` and pay `share` of the round fee.
pub open spec fn payable(l: Ledger, k: Seq<u8>, cycles: u128, share: nat) -> bool {
    l.contains_key(k) && cycles + share <= l[k].remaining && l[k].pending + cycles <= u128::MAX
}

/// The ledger after `k` committed `cycles` and paid `share` of the round fee.
pub open spec fn committed_one(l: Ledger, k: Seq<u8>, cycles: u128, share: nat) -> Ledger {
    l.insert(
        k,
        MemberCycles {
            remaining: (l[k].remaining - cycles - share) as u128,
            pending: (l[k].pending + cycles) as u128,
            ..l[k]
        },
    )
}

/// The ledger after the participants committed, one after the other.
pub open spec fn committed(l: Ledger, ps: Seq<(Seq<u8>, u128)>, share: nat) -> Ledger
    decreases ps.len(),
{
    if ps.len() == 0 {
        l
    } else {
        committed_one(committed(l, ps.drop_last(), share), ps.last().0, ps.last().1, share)
    }
}

/// Every participant can pay when its turn comes.
pub open spec fn committable(l: Ledger, ps: Seq<(Seq<u8>, u128)>, share: nat) -> bool
    decreases ps.len(),
{
    ps.len() == 0 || (committable(l, ps.drop_last(), share) && payable(
        committed(l, ps.drop_last(), share),
        ps.last().0,
        ps.last().1,
        share,
    ))
}

/// The participants can be committed to a round: there is one at least,
/// and each can pay its cycles and its share of the round fee.
pub open spec fn can_commit(l: Ledger, ps: Seq<(Seq<u8>, u128)>) -> bool {
    ps.len() > 0 && committable(l, ps, fee_share(ps.len()))
}

/// A prefix of participants that can be committed can be committed.
pub proof fn lemma_committable_prefix(l: Ledger, ps: Seq<(Seq<u8>, u128)>, share: nat, n: int)
    requires
        committable(l, ps, share),
        0 <= n <= ps.len(),
    ensures
        committable(l, ps.subrange(0, n), share),
    decreases ps.len(),
{
    if n == ps.len() {
        assert(ps.subrange(0, n) =~= ps);
    } else {
        lemma_committable_prefix(l, ps.drop_last(), share, n);
        assert(ps.drop_last().subrange(0, n) =~= ps.subrange(0, n));
    }
}

/// Participants of which a prefix cannot be committed cannot be committed.
pub proof fn lemma_not_committable(l: Ledger, ps: Seq<(Seq<u8>, u128)>, share: nat, n: int)
    requires
        0 <= n <= ps.len(),
        !committable(l, ps.subrange(0, n), share),
    ensures
        !committable(l, ps, share),
{
    if committable(l, ps, share) {
        lemma_committable_prefix(l, ps, share, n);
    }
}

/// The reward histories of the members, keyed by the member's bytes.
pub type Histories = Map<Seq<u8>, Seq<Reward>>;

/// The history of `k`, empty for one that has none.
pub open spec fn history(h: Histories, k: Seq<u8>) -> Seq<Reward> {
    if h.contains_key(k) {
        h[k]
    } else {
        Seq::empty()
    }
}

/// `k` is a member with cycles in rounds whose yield is not realized yet.
pub open spec fn participant(l: Ledger, k: Seq<u8>) -> bool {
    l.contains_key(k) && l[k].pending > 0
}

/// The payout fees of a distribution: one for each participant.
pub open spec fn total_fee(l: Ledger) -> nat {
    ledger_sum(l, Measure::Participants) * BOB_TRANSFER_FEE as nat
}

/// The yield that is left to share once the payout fees are taken.
pub open spec fn net_yield(l: Ledger, total_yield: u128) -> nat {
    (total_yield - total_fee(l)) as nat
}

/// The share of `k`: the net yield weighted by its pending cycles over the
/// pending cycles of all, rounded down.
pub open spec fn share_of(l: Ledger, total_yield: u128, k: Seq<u8>) -> nat {
    net_yield(l, total_yield) * l[k].pending as nat / ledger_sum(l, Measure::Pending)
}

/// The record that a distribution appends to the history of `k`.
pub open spec fn reward_of(l: Ledger, total_yield: u128, now: u64, k: Seq<u8>) -> Reward {
    Reward {
        timestamp: now,
        cycles_burnt: l[k].pending,
        bob_reward: share_of(l, total_yield, k) as u128,
        bob_block_index: None,
    }
}

/// Whether a yield can be distributed, and if not, why.
pub open spec fn realize_verdict(l: Ledger, total_yield: u128) -> Result<(), PoolError> {
    if ledger_sum(l, Measure::Pending) > u128::MAX || total_fee(l) > u128::MAX {
        Err(PoolError::RewardOverflow)
    } else if total_yield < total_fee(l) {
        Err(PoolError::YieldBelowFees { total_yield, total_fee: total_fee(l) as u128 })
    } else if exists|k: Seq<u8>| #[trigger]
        participant(l, k) && net_yield(l, total_yield) * l[k].pending > u128::MAX {
        Err(PoolError::RewardOverflow)
    } else {
        Ok(())
    }
}

/// `rs` is the distribution of a yield: the participants in ledger order,
/// each with the record it is owed.
pub open spec fn is_distribution(
    rs: Seq<(Seq<u8>, Reward)>,
    l: Ledger,
    total_yield: u128,
    now: u64,
) -> bool {
    &&& ascending(rs)
    &&& forall|i: int|
        #![trigger rs[i]]
        0 <= i < rs.len() ==> participant(l, rs[i].0) && rs[i].1 == reward_of(
            l,
            total_yield,
            now,
            rs[i].0,
        )
    &&& forall|k: Seq<u8>| #[trigger]
        participant(l, k) ==> exists|i: int| 0 <= i < rs.len() && #[trigger] rs[i].0 == k
}

/// The ledger after a distribution: nothing is pending any more.
pub open spec fn realized_cycles(l: Ledger) -> Ledger {
    Map::new(|k: Seq<u8>| l.contains_key(k), |k: Seq<u8>| MemberCycles { pending: 0, ..l[k] })
}

/// The histories after a distribution: each participant has one record more.
pub open spec fn realized_rewards(h: Histories, l: Ledger, total_yield: u128, now: u64) -> Histories {
    Map::new(
        |k: Seq<u8>| h.contains_key(k) || participant(l, k),
        |k: Seq<u8>|
            if participant(l, k) {
                history(h, k).push(reward_of(l, total_yield, now, k))
            } else {
                h[k]
            },
    )
}

/// The histories after the records of `rs` were appended, one after the other.
pub open spec fn pushed(h: Histories, rs: Seq<(Seq<u8>, Reward)>) -> Histories
    decreases rs.len(),
{
    if rs.len() == 0 {
        h
    } else {
        let p = pushed(h, rs.drop_last());
        p.insert(rs.last().0, history(p, rs.last().0).push(rs.last().1))
    }
}

/// The ledger after the pending cycles of `k` were cleared, if it is a member.
pub open spec fn reset_one(l: Ledger, k: Seq<u8>) -> Ledger {
    if l.contains_key(k) {
        l.insert(k, MemberCycles { pending: 0, ..l[k] })
    } else {
        l
    }
}

/// The ledger after the pending cycles of each of `ks` were cleared.
pub open spec fn reset(l: Ledger, ks: Seq<Seq<u8>>) -> Ledger
    decreases ks.len(),
{
    if ks.len() == 0 {
        l
    } else {
        reset_one(reset(l, ks.drop_last()), ks.last())
    }
}

/// `k` is among the first `n` members of the list.
pub open spec fn occurs<V>(rs: Seq<(Seq<u8>, V)>, n: int, k: Seq<u8>) -> bool {
    exists|i: int| 0 <= i < n && i < rs.len() && #[trigger] rs[i].0 == k
}

/// The members of a list, without their values.
pub open spec fn members_of<V>(rs: Seq<(Seq<u8>, V)>) -> Seq<Seq<u8>> {
    Seq::new(rs.len(), |i: int| rs[i].0)
}

/// To append the first `n` records of a distribution is to give each of
/// the first `n` participants its record.
pub proof fn lemma_pushed_prefix(
    h: Histories,
    rs: Seq<(Seq<u8>, Reward)>,
    l: Ledger,
    total_yield: u128,
    now: u64,
    n: int,
)
    requires
        is_distribution(rs, l, total_yield, now),
        0 <= n <= rs.len(),
    ensures
        pushed(h, rs.subrange(0, n)) == Map::new(
            |k: Seq<u8>| h.contains_key(k) || occurs(rs, n, k),
            |k: Seq<u8>|
                if occurs(rs, n, k) {
                    history(h, k).push(reward_of(l, total_yield, now, k))
                } else {
                    h[k]
                },
        ),
    decreases n,
{
    let goal = Map::new(
        |k: Seq<u8>| h.contains_key(k) || occurs(rs, n, k),
        |k: Seq<u8>|
            if occurs(rs, n, k) {
                history(h, k).push(reward_of(l, total_yield, now, k))
            } else {
                h[k]
            },
    );
    if n == 0 {
        assert(rs.subrange(0, 0) =~= Seq::<(Seq<u8>, Reward)>::empty());
        assert(pushed(h, rs.subrange(0, n)) =~= goal);
    } else {
        lemma_pushed_prefix(h, rs, l, total_yield, now, n - 1);
        let front = rs.subrange(0, n - 1);
        let p = pushed(h, front);
        let last = rs[n - 1];
        assert(rs.subrange(0, n).drop_last() =~= front);
        assert(rs.subrange(0, n).last() == last);
        assert(!occurs(rs, n - 1, last.0)) by {
            if occurs(rs, n - 1, last.0) {
                let i = choose|i: int| 0 <= i < n - 1 && i < rs.len() && #[trigger] rs[i].0 == last.0;
                assert(precedes(rs[i].0, rs[n - 1].0));
            }
        }
        assert(history(p, last.0) == history(h, last.0));
        assert forall|k: Seq<u8>| occurs(rs, n, k) <==> (occurs(rs, n - 1, k) || k == last.0) by {
            if occurs(rs, n, k) {
                let i = choose|i: int| 0 <= i < n && i < rs.len() && #[trigger] rs[i].0 == k;
                if i < n - 1 {
                    assert(occurs(rs, n - 1, k));
                }
            }
            if occurs(rs, n - 1, k) {
                let i = choose|i: int| 0 <= i < n - 1 && i < rs.len() && #[trigger] rs[i].0 == k;
                assert(rs[i].0 == k);
            }
            if k == last.0 {
                assert(rs[n - 1].0 == k);
            }
        }
        assert(pushed(h, rs.subrange(0, n)) =~= goal);
    }
}

/// To append the records of a distribution is to give each participant
/// its record.
pub proof fn lemma_pushed_distribution(
    h: Histories,
    rs: Seq<(Seq<u8>, Reward)>,
    l: Ledger,
    total_yield: u128,
    now: u64,
)
    requires
        is_distribution(rs, l, total_yield, now),
    ensures
        pushed(h, rs) == realized_rewards(h, l, total_yield, now),
{
    lemma_pushed_prefix(h, rs, l, total_yield, now, rs.len() as int);
    assert(rs.subrange(0, rs.len() as int) =~= rs);
    assert forall|k: Seq<u8>| occurs(rs, rs.len() as int, k) <==> participant(l, k) by {
        if occurs(rs, rs.len() as int, k) {
            let i = choose|i: int| 0 <= i < rs.len() && i < rs.len() && #[trigger] rs[i].0 == k;
            assert(participant(l, rs[i].0));
        }
        if participant(l, k) {
            let i = choose|i: int| 0 <= i < rs.len() && #[trigger] rs[i].0 == k;
            assert(rs[i].0 == k);
        }
    }
    assert(pushed(h, rs) =~= realized_rewards(h, l, total_yield, now));
}

/// To clear the pending cycles of the first `n` principals of a list is to
/// clear them for each member among these.
pub proof fn lemma_reset_prefix(l: Ledger, ks: Seq<Seq<u8>>, n: int)
    requires
        0 <= n <= ks.len(),
    ensures
        reset(l, ks.subrange(0, n)) == Map::new(
            |k: Seq<u8>| l.contains_key(k),
            |k: Seq<u8>|
                if ks.subrange(0, n).contains(k) {
                    MemberCycles { pending: 0, ..l[k] }
                } else {
                    l[k]
                },
        ),
    decreases n,
{
    let goal = Map::new(
        |k: Seq<u8>| l.contains_key(k),
        |k: Seq<u8>|
            if ks.subrange(0, n).contains(k) {
                MemberCycles { pending: 0, ..l[k] }
            } else {
                l[k]
            },
    );
    if n == 0 {
        assert(ks.subrange(0, 0) =~= Seq::<Seq<u8>>::empty());
        assert(reset(l, ks.subrange(0, n)) =~= goal);
    } else {
        lemma_reset_prefix(l, ks, n - 1);
        let front = ks.subrange(0, n - 1);
        assert(ks.subrange(0, n).drop_last() =~= front);
        assert(ks.subrange(0, n).last() == ks[n - 1]);
        assert forall|k: Seq<u8>| ks.subrange(0, n).contains(k) <==> (front.contains(k) || k
            == ks[n - 1]) by {
            if ks.subrange(0, n).contains(k) {
                let i = choose|i: int| 0 <= i < n && ks.subrange(0, n)[i] == k;
                if i < n - 1 {
                    assert(front[i] == k);
                }
            }
            if front.contains(k) {
                let i = choose|i: int| 0 <= i < n - 1 && front[i] == k;
                assert(ks.subrange(0, n)[i] == k);
            }
            if k == ks[n - 1] {
                assert(ks.subrange(0, n)[n - 1] == k);
            }
        }
        assert(reset(l, ks.subrange(0, n)) =~= goal);
    }
}

/// To clear the pending cycles of the participants is to clear them for all.
pub proof fn lemma_reset_distribution(
    l: Ledger,
    rs: Seq<(Seq<u8>, Reward)>,
    total_yield: u128,
    now: u64,
)
    requires
        is_distribution(rs, l, total_yield, now),
    ensures
        reset(l, members_of(rs)) == realized_cycles(l),
{
    let ks = members_of(rs);
    lemma_reset_prefix(l, ks, ks.len() as int);
    assert(ks.subrange(0, ks.len() as int) =~= ks);
    assert forall|k: Seq<u8>| l.contains_key(k) && !ks.contains(k) implies l[k].pending == 0 by {
        if participant(l, k) {
            let i = choose|i: int| 0 <= i < rs.len() && #[trigger] rs[i].0 == k;
            assert(ks[i] == k);
        }
    }
    assert(reset(l, ks) =~= realized_cycles(l));
}

} // verus!
