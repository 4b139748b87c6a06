//! What holds of the pool whatever it is asked to do.

use vstd::prelude::*;
use crate::lifecycle::{started, stop_requested};
use crate::memory::PoolView;
use crate::model::{
    ascending, can_commit, committable, committed, eligible, fee_share, history,
    is_distribution, is_snapshot, ledger_sum, measure, net_yield, participant, payable,
    realize_verdict, realized_rewards, reward_of, weigher, Histories, Ledger, Measure,
};
use crate::sums::{lemma_map_sum_bounds, lemma_map_sum_remove, map_sum};
use crate::principal::{lemma_precedes_asymmetric, lemma_precedes_total, precedes};
use crate::payout::{awaits_payment, confirmed};
use crate::rewards::{after_check, check_verdict, counts, newest, yield_of};
use crate::state_machine::{
    ActionView, EventView, RoundStateView, Stage, Task, ROUND_SECS, SAFE_SECS,
};
use crate::transitions::{halted, second_stage, stage_2_entered, steps, Outcome};
use crate::types::{
    Block, MemberCycles, PoolRunningState, Reward, Stats, BOB_POOL_BLOCK_FEE,
    BOB_TRANSFER_FEE,
};

verus! {

/// No two participants of the list are the same member.
pub open spec fn distinct_members(ps: Seq<(Seq<u8>, u128)>) -> bool {
    forall|i: int, j: int| 0 <= i < j < ps.len() ==> #[trigger] ps[i].0 != #[trigger] ps[j].0
}

/// What a commit makes of the balances of a member that commits `cycles`
/// and pays `share` of the round fee.
pub open spec fn after_commit(before: MemberCycles, cycles: u128, share: nat) -> MemberCycles {
    MemberCycles {
        remaining: (before.remaining - (cycles + share)) as u128,
        pending: (before.pending + cycles) as u128,
        ..before
    }
}

/// A commit of the first `n` participants leaves every member in the ledger,
/// gives each of these participants its new balances, and leaves the
/// balances of everyone else alone.
proof fn lemma_committed_prefix(l: Ledger, ps: Seq<(Seq<u8>, u128)>, share: nat, n: int)
    requires
        distinct_members(ps),
        0 <= n <= ps.len(),
        committable(l, ps.subrange(0, n), share),
    ensures
        committed(l, ps.subrange(0, n), share).dom() == l.dom(),
        forall|i: int|
            #![trigger ps[i]]
            0 <= i < n ==> l.contains_key(ps[i].0) && ps[i].1 + share <= l[ps[i].0].remaining
                && l[ps[i].0].pending + ps[i].1 <= u128::MAX && committed(
                l,
                ps.subrange(0, n),
                share,
            )[ps[i].0] == after_commit(l[ps[i].0], ps[i].1, share),
        forall|k: Seq<u8>|
            #![trigger l[k]]
            l.contains_key(k) && (forall|i: int| 0 <= i < n ==> (#[trigger] ps[i]).0 != k)
                ==> committed(l, ps.subrange(0, n), share)[k] == l[k],
    decreases n,
{
    if n == 0 {
        assert(ps.subrange(0, 0) =~= Seq::<(Seq<u8>, u128)>::empty());
    } else {
        let front = ps.subrange(0, n - 1);
        let whole = ps.subrange(0, n);
        assert(whole.drop_last() =~= front);
        assert(whole.last() == ps[n - 1]);
        lemma_committed_prefix(l, ps, share, n - 1);
        let prior = committed(l, front, share);
        let k = ps[n - 1].0;
        assert(prior.contains_key(k));
        assert(l.contains_key(k));
        assert(prior[k] == l[k]);
        assert(committed(l, whole, share).dom() =~= l.dom());
        assert forall|i: int|
            #![trigger ps[i]]
            0 <= i < n implies l.contains_key(ps[i].0) && ps[i].1 + share <= l[ps[i].0].remaining
            && l[ps[i].0].pending + ps[i].1 <= u128::MAX && committed(l, whole, share)[ps[i].0]
            == after_commit(l[ps[i].0], ps[i].1, share) by {
            if i < n - 1 {
                assert(ps[i].0 != ps[n - 1].0);
            }
        }
    }
}

/// Commit consistency. After a commit of participants that are distinct
/// members, each participant has paid the cycles it commits and its share of
/// the round fee out of its remaining cycles, and the cycles it commits have
/// been added to its pending cycles; its block commitment is as before.
pub proof fn lemma_commit_consistency(l: Ledger, ps: Seq<(Seq<u8>, u128)>, i: int)
    requires
        can_commit(l, ps),
        distinct_members(ps),
        0 <= i < ps.len(),
    ensures
        l.contains_key(ps[i].0),
        ps[i].1 + fee_share(ps.len()) <= l[ps[i].0].remaining,
        committed(l, ps, fee_share(ps.len())).contains_key(ps[i].0),
        committed(l, ps, fee_share(ps.len()))[ps[i].0].remaining == l[ps[i].0].remaining - (
        ps[i].1 + BOB_POOL_BLOCK_FEE as nat / ps.len()),
        committed(l, ps, fee_share(ps.len()))[ps[i].0].pending == l[ps[i].0].pending + ps[i].1,
        committed(l, ps, fee_share(ps.len()))[ps[i].0].block == l[ps[i].0].block,
{
    assert(ps.subrange(0, ps.len() as int) =~= ps);
    lemma_committed_prefix(l, ps, fee_share(ps.len()), ps.len() as int);
    assert(committed(l, ps, fee_share(ps.len())).dom().contains(ps[i].0));
}

/// A commit changes the balances of its participants only: every member
/// stays a member, nobody becomes one, and a member that does not take part
/// keeps its balances.
pub proof fn lemma_commit_frame(l: Ledger, ps: Seq<(Seq<u8>, u128)>, k: Seq<u8>)
    requires
        can_commit(l, ps),
        distinct_members(ps),
        forall|i: int| 0 <= i < ps.len() ==> (#[trigger] ps[i]).0 != k,
    ensures
        committed(l, ps, fee_share(ps.len())).contains_key(k) == l.contains_key(k),
        l.contains_key(k) ==> committed(l, ps, fee_share(ps.len()))[k] == l[k],
{
    assert(ps.subrange(0, ps.len() as int) =~= ps);
    lemma_committed_prefix(l, ps, fee_share(ps.len()), ps.len() as int);
    assert(committed(l, ps, fee_share(ps.len())).dom().contains(k) == l.dom().contains(k));
}

/// The list holds the entry.
pub open spec fn holds<V>(es: Seq<(Seq<u8>, V)>, e: (Seq<u8>, V)) -> bool {
    exists|j: int| 0 <= j < es.len() && #[trigger] es[j] == e
}

/// Every entry of the first list is an entry of the second.
pub open spec fn covered<V>(first: Seq<(Seq<u8>, V)>, second: Seq<(Seq<u8>, V)>) -> bool {
    forall|i: int| 0 <= i < first.len() ==> holds(second, #[trigger] first[i])
}

/// Two lists in ledger order that hold the same entries agree on their
/// first `n` entries.
proof fn lemma_ascending_agree<V>(first: Seq<(Seq<u8>, V)>, second: Seq<(Seq<u8>, V)>, n: int)
    requires
        ascending(first),
        ascending(second),
        covered(first, second),
        covered(second, first),
        0 <= n <= first.len(),
        n <= second.len(),
    ensures
        forall|i: int| 0 <= i < n ==> #[trigger] first[i] == second[i],
    decreases n,
{
    if n > 0 {
        lemma_ascending_agree(first, second, n - 1);
        let x = first[n - 1];
        let y = second[n - 1];
        assert(holds(second, x));
        assert(holds(first, y));
        let j = choose|j: int| 0 <= j < second.len() && #[trigger] second[j] == x;
        let k = choose|k: int| 0 <= k < first.len() && #[trigger] first[k] == y;
        if x.0 != y.0 {
            lemma_precedes_total(x.0, y.0);
            if j < n - 1 {
                assert(first[j] == second[j]);
                assert(precedes(first[j].0, first[n - 1].0));
            } else {
                assert(precedes(second[n - 1].0, second[j].0));
                lemma_precedes_asymmetric(y.0, x.0);
            }
            if k < n - 1 {
                assert(first[k] == second[k]);
                assert(precedes(second[k].0, second[n - 1].0));
            } else {
                assert(precedes(first[n - 1].0, first[k].0));
                lemma_precedes_asymmetric(x.0, y.0);
            }
        } else if j < n - 1 {
            assert(precedes(second[j].0, second[n - 1].0));
        } else if j > n - 1 {
            assert(precedes(second[n - 1].0, second[j].0));
        }
    }
}

/// A list in ledger order is settled by the entries it holds: two such
/// lists that hold the same are the same list.
pub proof fn lemma_ascending_unique<V>(first: Seq<(Seq<u8>, V)>, second: Seq<(Seq<u8>, V)>)
    requires
        ascending(first),
        ascending(second),
        covered(first, second),
        covered(second, first),
    ensures
        first == second,
{
    if first.len() <= second.len() {
        lemma_ascending_agree(first, second, first.len() as int);
        if first.len() < second.len() {
            let extra = second[first.len() as int];
            assert(holds(first, extra));
            let j = choose|j: int| 0 <= j < first.len() && #[trigger] first[j] == extra;
            assert(first[j] == second[j]);
            assert(precedes(second[j].0, second[first.len() as int].0));
        }
    } else {
        lemma_ascending_agree(first, second, second.len() as int);
        let extra = first[second.len() as int];
        assert(holds(second, extra));
        let j = choose|j: int| 0 <= j < second.len() && #[trigger] second[j] == extra;
        assert(first[j] == second[j]);
        assert(precedes(first[j].0, first[second.len() as int].0));
    }
    assert(first =~= second);
}

/// Every participant of one snapshot is a participant of any other.
proof fn lemma_snapshot_covered(
    l: Ledger,
    first: Seq<(Seq<u8>, u128)>,
    second: Seq<(Seq<u8>, u128)>,
)
    requires
        is_snapshot(first, l),
        is_snapshot(second, l),
    ensures
        covered(first, second),
{
    assert forall|i: int| 0 <= i < first.len() implies holds(second, #[trigger] first[i]) by {
        assert(eligible(l, first[i].0));
        let j = choose|j: int| 0 <= j < second.len() && #[trigger] second[j].0 == first[i].0;
        assert(second[j] == first[i]);
    }
}

/// A ledger has one snapshot: who takes part in the next round, with what,
/// and in which order, is settled by the ledger alone.
pub proof fn lemma_snapshot_unique(
    l: Ledger,
    first: Seq<(Seq<u8>, u128)>,
    second: Seq<(Seq<u8>, u128)>,
)
    requires
        is_snapshot(first, l),
        is_snapshot(second, l),
    ensures
        first == second,
{
    lemma_snapshot_covered(l, first, second);
    lemma_snapshot_covered(l, second, first);
    lemma_ascending_unique(first, second);
}

/// Every entry of one distribution is an entry of any other.
proof fn lemma_distribution_covered(
    l: Ledger,
    total_yield: u128,
    now: u64,
    first: Seq<(Seq<u8>, Reward)>,
    second: Seq<(Seq<u8>, Reward)>,
)
    requires
        is_distribution(first, l, total_yield, now),
        is_distribution(second, l, total_yield, now),
    ensures
        covered(first, second),
{
    assert forall|i: int| 0 <= i < first.len() implies holds(second, #[trigger] first[i]) by {
        assert(participant(l, first[i].0));
        let j = choose|j: int| 0 <= j < second.len() && #[trigger] second[j].0 == first[i].0;
        assert(second[j] == first[i]);
    }
}

/// A yield has one distribution: who is owed what, and in which order, is
/// settled by the ledger, the yield and the time.
pub proof fn lemma_distribution_unique(
    l: Ledger,
    total_yield: u128,
    now: u64,
    first: Seq<(Seq<u8>, Reward)>,
    second: Seq<(Seq<u8>, Reward)>,
)
    requires
        is_distribution(first, l, total_yield, now),
        is_distribution(second, l, total_yield, now),
    ensures
        first == second,
{
    lemma_distribution_covered(l, total_yield, now, first, second);
    lemma_distribution_covered(l, total_yield, now, second, first);
    lemma_ascending_unique(first, second);
}

/// A step of the round loop is settled by the pool, the state of the loop
/// and the event: there is one outcome.
pub proof fn lemma_step_is_settled(
    pool: PoolView,
    state: RoundStateView,
    event: EventView,
    first: Outcome,
    second: Outcome,
)
    requires
        steps(pool, state, event, first),
        steps(pool, state, event, second),
    ensures
        first == second,
{
    match state {
        RoundStateView::Waiting { task } => {
            if task.stage == Stage::Stage2 && event is TimerFired {
                let a = choose|ps: Seq<(Seq<u8>, u128)>|
                    #![trigger is_snapshot(ps, pool.cycles)]
                    is_snapshot(ps, pool.cycles) && first == stage_2_entered(pool, task, ps);
                let b = choose|ps: Seq<(Seq<u8>, u128)>|
                    #![trigger is_snapshot(ps, pool.cycles)]
                    is_snapshot(ps, pool.cycles) && second == stage_2_entered(pool, task, ps);
                lemma_snapshot_unique(pool.cycles, a, b);
            }
        },
        _ => {},
    }
}

/// A snapshot can be committed as long as the ledger is as it was when the
/// snapshot was taken: its participants are distinct members, and each can
/// pay what it commits and its share of the round fee. (Pending cycles that
/// would no longer fit 128 bits are the one thing that can stand in the way.)
pub proof fn lemma_snapshot_can_commit(l: Ledger, ps: Seq<(Seq<u8>, u128)>)
    requires
        is_snapshot(ps, l),
        ps.len() > 0,
        forall|i: int|
            #![trigger ps[i]]
            0 <= i < ps.len() ==> l[ps[i].0].pending + ps[i].1 <= u128::MAX,
    ensures
        distinct_members(ps),
        can_commit(l, ps),
{
    assert(distinct_members(ps)) by {
        assert forall|i: int, j: int| 0 <= i < j < ps.len() implies #[trigger] ps[i].0
            != #[trigger] ps[j].0 by {
            assert(precedes(ps[i].0, ps[j].0));
        }
    }
    lemma_round_fee_distribution(ps.len());
    assert(fee_share(ps.len()) <= BOB_POOL_BLOCK_FEE) by (nonlinear_arith)
        requires
            ps.len() > 0,
            ps.len() * fee_share(ps.len()) <= BOB_POOL_BLOCK_FEE,
    ;
    lemma_payable_commits(l, ps, fee_share(ps.len()), ps.len() as int);
    assert(ps.subrange(0, ps.len() as int) =~= ps);
}

/// Distinct members that can each pay out of the ledger as it is can be
/// committed one after the other.
proof fn lemma_payable_commits(l: Ledger, ps: Seq<(Seq<u8>, u128)>, share: nat, n: int)
    requires
        distinct_members(ps),
        0 <= n <= ps.len(),
        forall|i: int| #![trigger ps[i]] 0 <= i < ps.len() ==> payable(l, ps[i].0, ps[i].1, share),
    ensures
        committable(l, ps.subrange(0, n), share),
    decreases n,
{
    if n > 0 {
        lemma_payable_commits(l, ps, share, n - 1);
        lemma_committed_prefix(l, ps, share, n - 1);
        let whole = ps.subrange(0, n);
        assert(whole.drop_last() =~= ps.subrange(0, n - 1));
        assert(whole.last() == ps[n - 1]);
        assert(payable(l, ps[n - 1].0, ps[n - 1].1, share));
        assert forall|i: int| 0 <= i < n - 1 implies (#[trigger] ps[i]).0 != ps[n - 1].0 by {}
    } else {
        assert(ps.subrange(0, 0) =~= Seq::<(Seq<u8>, u128)>::empty());
    }
}

/// Round-fee distribution. The shares that the `n` participants of a round
/// pay add up to the round fee, less a rounding loss of at most `n - 1`.
pub proof fn lemma_round_fee_distribution(n: nat)
    requires
        n > 0,
    ensures
        n * fee_share(n) <= BOB_POOL_BLOCK_FEE,
        BOB_POOL_BLOCK_FEE - n * fee_share(n) <= n - 1,
{
    let fee = BOB_POOL_BLOCK_FEE as nat;
    assert(fee == n * (fee / n) + fee % n) by (nonlinear_arith)
        requires
            n > 0,
    ;
    assert(fee % n < n) by (nonlinear_arith)
        requires
            n > 0,
    ;
}

/// The share of a member with the given balances in the distribution of a
/// yield: nothing for one without pending cycles.
pub open spec fn share_weigher(l: Ledger, total_yield: u128) -> spec_fn(MemberCycles) -> nat {
    |c: MemberCycles|
        net_yield(l, total_yield) * c.pending as nat / ledger_sum(l, Measure::Pending)
}

/// The shares of a distribution, added up.
pub open spec fn shares_sum(l: Ledger, total_yield: u128) -> nat {
    map_sum(l, share_weigher(l, total_yield))
}

/// Over any part `m` of the ledger, the shares times the pending cycles of
/// all are at most the net yield times the pending cycles of the part, and
/// fall short of it by less than the pending cycles of all for each
/// participant of the part.
proof fn lemma_shares_bracket(m: Ledger, l: Ledger, total_yield: u128)
    requires
        m.dom().finite(),
        ledger_sum(l, Measure::Pending) > 0,
    ensures
        ledger_sum(l, Measure::Pending) * map_sum(m, share_weigher(l, total_yield)) <= net_yield(
            l,
            total_yield,
        ) * map_sum(m, weigher(Measure::Pending)),
        net_yield(l, total_yield) * map_sum(m, weigher(Measure::Pending)) <= ledger_sum(
            l,
            Measure::Pending,
        ) * map_sum(m, share_weigher(l, total_yield)) + (ledger_sum(l, Measure::Pending) - 1)
            * map_sum(m, weigher(Measure::Participants)),
    decreases m.dom().len(),
{
    let all = ledger_sum(l, Measure::Pending) as int;
    let net = net_yield(l, total_yield) as int;
    let by_share = share_weigher(l, total_yield);
    let by_pending = weigher(Measure::Pending);
    let by_count = weigher(Measure::Participants);
    if m.dom().len() > 0 {
        let k = m.dom().choose();
        let rest = m.remove(k);
        lemma_map_sum_remove(m, by_share, k);
        lemma_map_sum_remove(m, by_pending, k);
        lemma_map_sum_remove(m, by_count, k);
        lemma_shares_bracket(rest, l, total_yield);
        let pending = m[k].pending as int;
        let share = by_share(m[k]) as int;
        let count = by_count(m[k]) as int;
        let shares = map_sum(rest, by_share) as int;
        let pendings = map_sum(rest, by_pending) as int;
        let counts = map_sum(rest, by_count) as int;
        assert(by_pending(m[k]) == pending);
        assert(count == (if pending > 0 { 1int } else { 0int }));
        assert(share == (net * pending) / all);
        assert(all * share <= net * pending && net * pending <= all * share + (all - 1) * count)
            by (nonlinear_arith)
            requires
                all > 0,
                net >= 0,
                pending >= 0,
                share == (net * pending) / all,
                count == (if pending > 0 { 1int } else { 0int }),
        ;
        assert(all * (share + shares) == all * share + all * shares) by (nonlinear_arith);
        assert(net * (pending + pendings) == net * pending + net * pendings) by (nonlinear_arith);
        assert((all - 1) * (count + counts) == (all - 1) * count + (all - 1) * counts)
            by (nonlinear_arith);
        assert(map_sum(m, by_share) == share + shares);
        assert(map_sum(m, by_pending) == pending + pendings);
        assert(map_sum(m, by_count) == count + counts);
        assert(all * shares <= net * pendings);
        assert(net * pendings <= all * shares + (all - 1) * counts);
    } else {
        assert(map_sum(m, by_share) == 0);
        assert(map_sum(m, by_pending) == 0);
        assert(map_sum(m, by_count) == 0);
        assert(all * 0 == 0 && net * 0 == 0 && (all - 1) * 0 == 0) by (nonlinear_arith);
    }
}

/// Rounding loss of a distribution. The shares of the participants add up
/// to the net yield, less a rounding loss that is smaller than the number of
/// participants.
pub proof fn lemma_reward_rounding_loss(l: Ledger, total_yield: u128)
    requires
        l.dom().finite(),
        ledger_sum(l, Measure::Participants) > 0,
        ledger_sum(l, Measure::Pending) > 0,
    ensures
        shares_sum(l, total_yield) <= net_yield(l, total_yield),
        net_yield(l, total_yield) - shares_sum(l, total_yield) <= ledger_sum(
            l,
            Measure::Participants,
        ) - 1,
{
    lemma_shares_bracket(l, l, total_yield);
    let all = ledger_sum(l, Measure::Pending) as int;
    let net = net_yield(l, total_yield) as int;
    let shares = shares_sum(l, total_yield) as int;
    let n = ledger_sum(l, Measure::Participants) as int;
    assert(shares <= net && net - shares < n) by (nonlinear_arith)
        requires
            all > 0,
            n > 0,
            shares >= 0,
            all * shares <= net * all,
            net * all <= all * shares + (all - 1) * n,
    ;
}

/// Rewards are proportional. In the distribution of a yield that can be
/// distributed, every participant gets one record more: it holds the net
/// yield weighted by the participant's pending cycles over the pending cycles
/// of all, rounded down, the pending cycles as the cycles burnt, and no block
/// index. Who does not take part keeps its history.
pub proof fn lemma_rewards_are_proportional(
    h: Histories,
    l: Ledger,
    total_yield: u128,
    now: u64,
    k: Seq<u8>,
)
    requires
        l.dom().finite(),
        realize_verdict(l, total_yield) is Ok,
    ensures
        participant(l, k) ==> realized_rewards(h, l, total_yield, now)[k] == history(h, k).push(
            Reward {
                timestamp: now,
                cycles_burnt: l[k].pending,
                bob_reward: reward_of(l, total_yield, now, k).bob_reward,
                bob_block_index: None,
            },
        ),
        participant(l, k) ==> reward_of(l, total_yield, now, k).bob_reward == (total_yield
            - ledger_sum(l, Measure::Participants) * BOB_TRANSFER_FEE) * l[k].pending
            / (ledger_sum(l, Measure::Pending) as int),
        participant(l, k) ==> ledger_sum(l, Measure::Pending) >= l[k].pending,
        !participant(l, k) && h.contains_key(k) ==> realized_rewards(h, l, total_yield, now)[k]
            == h[k],
        !participant(l, k) && !h.contains_key(k) ==> !realized_rewards(
            h,
            l,
            total_yield,
            now,
        ).contains_key(k),
{
    if participant(l, k) {
        lemma_map_sum_bounds(l, weigher(Measure::Pending), k);
        let all = ledger_sum(l, Measure::Pending) as int;
        let net = net_yield(l, total_yield) as int;
        let pending = l[k].pending as int;
        assert(measure(Measure::Pending, l[k]) == pending);
        assert(net * pending <= u128::MAX);
        assert((net * pending) / all <= net * pending) by (nonlinear_arith)
            requires
                all >= 1,
                net * pending >= 0,
        ;
    }
}

/// The newest time is no older than the checkpoint, and no block that
/// counts is newer than it.
proof fn lemma_newest_bounds(blocks: Seq<Block>, pool_id: Seq<u8>, checkpoint: u64)
    ensures
        newest(blocks, pool_id, checkpoint) >= checkpoint,
        forall|i: int|
            0 <= i < blocks.len() && counts(#[trigger] blocks[i], pool_id, checkpoint)
                ==> blocks[i].timestamp <= newest(blocks, pool_id, checkpoint),
    decreases blocks.len(),
{
    if blocks.len() > 0 {
        lemma_newest_bounds(blocks.drop_last(), pool_id, checkpoint);
        assert forall|i: int|
            0 <= i < blocks.len() && counts(
                #[trigger] blocks[i],
                pool_id,
                checkpoint,
            ) implies blocks[i].timestamp <= newest(blocks, pool_id, checkpoint) by {
            if i < blocks.len() - 1 {
                assert(blocks.drop_last()[i] == blocks[i]);
            }
        }
    }
}

/// Blocks of which none counts yield nothing.
proof fn lemma_no_yield(blocks: Seq<Block>, pool_id: Seq<u8>, checkpoint: u64)
    requires
        forall|i: int| 0 <= i < blocks.len() ==> !counts(#[trigger] blocks[i], pool_id, checkpoint),
    ensures
        yield_of(blocks, pool_id, checkpoint) == 0,
    decreases blocks.len(),
{
    if blocks.len() > 0 {
        assert forall|i: int| 0 <= i < blocks.drop_last().len() implies !counts(
            #[trigger] blocks.drop_last()[i],
            pool_id,
            checkpoint,
        ) by {
            assert(blocks.drop_last()[i] == blocks[i]);
        }
        lemma_no_yield(blocks.drop_last(), pool_id, checkpoint);
        assert(!counts(blocks[blocks.len() - 1], pool_id, checkpoint));
    }
}

/// Idempotence of the reward check. A second check of the same block
/// history changes nothing: neither the pending cycles nor the reward
/// history of any member, nor anything else.
pub proof fn lemma_check_rewards_idempotent(
    pool: PoolView,
    blocks: Seq<Block>,
    pool_id: Seq<u8>,
    first: u64,
    second: u64,
)
    ensures
        after_check(after_check(pool, blocks, pool_id, first), blocks, pool_id, second)
            == after_check(pool, blocks, pool_id, first),
{
    let total = yield_of(blocks, pool_id, pool.last_reward_timestamp);
    if total != 0 && check_verdict(pool, blocks, pool_id) is Ok {
        let once = after_check(pool, blocks, pool_id, first);
        lemma_newest_bounds(blocks, pool_id, pool.last_reward_timestamp);
        lemma_no_yield(blocks, pool_id, once.last_reward_timestamp);
    }
}

/// No reward is paid twice: a record that has a block index keeps it when a
/// payment is confirmed, and a confirmation changes no record but its own.
pub proof fn lemma_confirmation_is_final(h: Seq<Reward>, index: int, block_index: u64, j: int)
    requires
        0 <= j < h.len(),
    ensures
        confirmed(h, index, block_index).len() == h.len(),
        h[j].bob_block_index is Some ==> confirmed(h, index, block_index)[j] == h[j],
        j != index ==> confirmed(h, index, block_index)[j] == h[j],
        j == index && awaits_payment(h, index) ==> confirmed(h, index, block_index)[j] == (Reward {
            bob_block_index: Some(block_index),
            ..h[j]
        }),
{
}

/// A stop that has not taken effect is taken back by a start: the loop of a
/// pool that is ready is running again, and no second loop is begun.
pub proof fn lemma_start_cancels_stop(pool: PoolView)
    requires
        pool.miner is Some,
        pool.running_state == PoolRunningState::Running,
    ensures
        stop_requested(pool).running_state == PoolRunningState::Stopping,
        started(stop_requested(pool)) == pool,
        started(pool) == pool,
{
}

/// Mutual exclusion. While a key is held, asking for its guard finds it held;
/// once the guard is given back the key is free; and neither taking nor
/// giving back a guard touches any other key.
pub proof fn lemma_guards_exclude<K>(held: Set<K>, key: K, other: K)
    ensures
        held.insert(key).contains(key),
        !held.insert(key).remove(key).contains(key),
        other != key ==> held.insert(key).contains(other) == held.contains(other),
        other != key ==> held.remove(key).contains(other) == held.contains(other),
{
}

/// The loop is waiting for the answer to an outside call.
pub open spec fn awaits_call(state: RoundStateView) -> bool {
    !(state is Idle) && !(state is Waiting)
}

/// A failed call corrupts nothing and the loop goes on. Whatever the loop
/// was waiting for, a call that fails leaves the balances and the reward
/// histories of all members as they were, and the loop arms a timer to try
/// again or to start from scratch.
pub proof fn lemma_failed_call_keeps_ledger(pool: PoolView, state: RoundStateView, out: Outcome)
    requires
        awaits_call(state),
        steps(pool, state, EventView::CallFailed, out),
    ensures
        out.pool.cycles == pool.cycles,
        out.pool.rewards == pool.rewards,
        out.pool.last_reward_timestamp == pool.last_reward_timestamp,
        out.state is Waiting,
        out.action is SetTimer,
{
}

/// The balances of the members change in two steps of the loop only: when
/// the block history arrives, where yield is realized, and when the top-up
/// is confirmed, where the round is committed. No round is committed before
/// its top-up is deposited.
pub proof fn lemma_ledger_changes_in_two_steps(
    pool: PoolView,
    state: RoundStateView,
    event: EventView,
    out: Outcome,
)
    requires
        steps(pool, state, event, out),
        out.pool.cycles != pool.cycles || out.pool.rewards != pool.rewards,
    ensures
        (state is FetchingBlocks && event is LatestBlocks) || (state is ToppingUp
            && event is CallSucceeded),
{
}

/// A deposit is asked for in one step only: when the miner's balance has
/// arrived in stage 2, after the snapshot was taken and the allowance set.
pub proof fn lemma_deposit_follows_balance(
    pool: PoolView,
    state: RoundStateView,
    event: EventView,
    out: Outcome,
)
    requires
        steps(pool, state, event, out),
        out.action is DepositCycles,
    ensures
        state is ReadingMiner,
        event is MinerStatistics,
        out.state is ToppingUp,
{
}

/// The loop ends in one place: on entering stage 1.
pub proof fn lemma_loop_ends_in_stage_1(
    pool: PoolView,
    state: RoundStateView,
    event: EventView,
    out: Outcome,
)
    requires
        steps(pool, state, event, out),
        out.action is Halt,
        !(state is Idle),
    ensures
        state matches RoundStateView::Waiting { task } && task.stage == Stage::Stage1,
        event is TimerFired,
        out == halted(pool),
{
}

/// A request to stop takes effect at the next entry to stage 1: the loop
/// ends there and the pool is stopped.
pub proof fn lemma_stop_takes_effect(pool: PoolView, state: RoundStateView, out: Outcome)
    requires
        state matches RoundStateView::Waiting { task } && task.stage == Stage::Stage1,
        pool.running_state == PoolRunningState::Stopping,
        steps(pool, state, EventView::TimerFired, out),
    ensures
        out.pool.running_state == PoolRunningState::Stopped,
        out.state is Idle,
        out.action is Halt,
{
}

/// Between a young block and a missed round, stage 2 is put off to the end
/// of the round: when the statistics show a last block that is neither
/// younger than the safe time nor a round old, the one thing the step asks
/// for is a timer for what is left of the round, stage 2 begins when it
/// fires, and nothing is committed meanwhile.
pub proof fn lemma_stage_2_follows_the_wait(
    pool: PoolView,
    task: Task,
    stats: Stats,
    out: Outcome,
)
    requires
        SAFE_SECS <= stats.time_since_last_block < ROUND_SECS,
        steps(
            pool,
            RoundStateView::FetchingStats { task },
            EventView::BobStatistics { stats },
            out,
        ),
    ensures
        out.state == (RoundStateView::Waiting { task: second_stage() }),
        out.action == (ActionView::SetTimer {
            delay: (ROUND_SECS - stats.time_since_last_block) as u64,
        }),
        out.pool.cycles == pool.cycles,
        out.pool.rewards == pool.rewards,
{
}

/// A stage is never tried more often than its task allows: a failure uses
/// up an attempt, and the last one sends the loop back to stage 1.
pub proof fn lemma_attempts_run_out(pool: PoolView, state: RoundStateView, out: Outcome)
    requires
        state matches RoundStateView::VerifyingBurn { task },
        steps(pool, state, EventView::CallFailed, out),
    ensures
        out.state matches RoundStateView::Waiting { task: next } && (next.stage
            == Stage::Stage1 || (state matches RoundStateView::VerifyingBurn { task }
            && next.attempts_left < task.attempts_left && next.stage == task.stage)),
{
}

} // verus!
