//! What holds of an engine over a whole history of attempts.
//!
//! A history is the sequence of ticks at which attempts were made, in order.
//! The engine sees every one of them, admitted or not.

use crate::admission::{admits, attempt, AdmissionState};
use crate::rate::Rate;
use vstd::prelude::*;

verus! {

/// The clock of a host as an engine in `state` sees it: the ticks never run
/// backwards, and none lies before the state's own tick.
pub open spec fn clock_from(state: AdmissionState, ticks: Seq<u64>) -> bool {
    &&& forall|i: int, j: int| 0 <= i <= j < ticks.len() ==> ticks[i] <= ticks[j]
    &&& forall|i: int| 0 <= i < ticks.len() ==> state.last_tick <= #[trigger] ticks[i]
}

/// The state after an attempt at each of `ticks`, in order.
pub open spec fn state_after(policy: Rate, state: AdmissionState, ticks: Seq<u64>) -> AdmissionState
    decreases ticks.len(),
{
    if ticks.len() == 0 {
        state
    } else {
        attempt(policy, state_after(policy, state, ticks.drop_last()), ticks.last())
    }
}

/// Whether the attempt number `i` of the history is admitted.
pub open spec fn admitted_at(policy: Rate, state: AdmissionState, ticks: Seq<u64>, i: int) -> bool {
    admits(policy, state_after(policy, state, ticks.take(i)), ticks[i])
}

/// How many attempts of the history are admitted at tick `t`.
pub open spec fn admissions_at(
    policy: Rate,
    state: AdmissionState,
    ticks: Seq<u64>,
    t: u64,
) -> nat
    decreases ticks.len(),
{
    if ticks.len() == 0 {
        0
    } else {
        let earlier = admissions_at(policy, state, ticks.drop_last(), t);
        if ticks.last() == t && admitted_at(policy, state, ticks, ticks.len() - 1) {
            earlier + 1
        } else {
            earlier
        }
    }
}

/// The state after one more attempt is one attempt on from the state before.
pub proof fn lemma_state_after_push(
    policy: Rate,
    state: AdmissionState,
    ticks: Seq<u64>,
    tick: u64,
)
    ensures
        state_after(policy, state, ticks.push(tick)) == attempt(
            policy,
            state_after(policy, state, ticks),
            tick,
        ),
        admitted_at(policy, state, ticks.push(tick), ticks.len() as int) == admits(
            policy,
            state_after(policy, state, ticks),
            tick,
        ),
{
    assert(ticks.push(tick).drop_last() == ticks);
    assert(ticks.push(tick).take(ticks.len() as int) == ticks);
}

/// A prefix of a history that a host's clock produced is such a history too.
proof fn lemma_clock_prefix(state: AdmissionState, ticks: Seq<u64>, k: int)
    requires
        clock_from(state, ticks),
        0 <= k <= ticks.len(),
    ensures
        clock_from(state, ticks.take(k)),
{
    let prefix = ticks.take(k);
    assert forall|i: int, j: int| 0 <= i <= j < prefix.len() implies prefix[i] <= prefix[j] by {
        assert(prefix[i] == ticks[i] && prefix[j] == ticks[j]);
    }
    assert forall|i: int| 0 <= i < prefix.len() implies state.last_tick <= #[trigger] prefix[i] by {
        assert(prefix[i] == ticks[i]);
    }
}

/// On a host's clock the state's tick follows the history: it is never ahead
/// of the latest attempt, and never behind where it started.
proof fn lemma_last_tick_follows(policy: Rate, state: AdmissionState, ticks: Seq<u64>)
    requires
        clock_from(state, ticks),
    ensures
        state.last_tick <= state_after(policy, state, ticks).last_tick,
        ticks.len() > 0 ==> state_after(policy, state, ticks).last_tick <= ticks.last(),
        ticks.len() == 0 ==> state_after(policy, state, ticks) == state,
    decreases ticks.len(),
{
    if ticks.len() > 0 {
        lemma_clock_prefix(state, ticks, ticks.len() - 1);
        lemma_last_tick_follows(policy, state, ticks.drop_last());
        if ticks.len() > 1 {
            assert(ticks.drop_last().last() == ticks[ticks.len() - 2]);
        }
    }
}

/// The count behind the bound of `PerBlock(n)`: admissions at a tick ahead of
/// the state's are none, and those at the state's own tick are covered by its
/// count.
proof fn lemma_per_block_count(n: u64, state: AdmissionState, ticks: Seq<u64>, t: u64)
    requires
        clock_from(state, ticks),
    ensures
        admissions_at(Rate::PerBlock(n), state, ticks, t) <= n,
        t > state_after(Rate::PerBlock(n), state, ticks).last_tick ==> admissions_at(
            Rate::PerBlock(n),
            state,
            ticks,
            t,
        ) == 0,
        t == state_after(Rate::PerBlock(n), state, ticks).last_tick && admissions_at(
            Rate::PerBlock(n),
            state,
            ticks,
            t,
        ) > 0 ==> admissions_at(Rate::PerBlock(n), state, ticks, t) <= state_after(
            Rate::PerBlock(n),
            state,
            ticks,
        ).count_in_tick <= n,
    decreases ticks.len(),
{
    if ticks.len() > 0 {
        let policy = Rate::PerBlock(n);
        let earlier = ticks.drop_last();
        lemma_clock_prefix(state, ticks, ticks.len() - 1);
        lemma_per_block_count(n, state, earlier, t);
        lemma_last_tick_follows(policy, state, earlier);
        assert(ticks.take(ticks.len() - 1) == earlier);
        if earlier.len() > 0 {
            assert(earlier.last() == ticks[ticks.len() - 2]);
        }
    }
}

/// Under `PerBlock(n)`, on a host's clock, at most `n` attempts are admitted
/// at any one tick, and once `n` were admitted at a tick every further
/// attempt at that tick is rejected.
pub proof fn lemma_per_block_bound(n: u64, state: AdmissionState, ticks: Seq<u64>, t: u64)
    requires
        clock_from(state, ticks),
    ensures
        admissions_at(Rate::PerBlock(n), state, ticks, t) <= n,
        admissions_at(Rate::PerBlock(n), state, ticks, t) == n && clock_from(state, ticks.push(t))
            ==> !admits(Rate::PerBlock(n), state_after(Rate::PerBlock(n), state, ticks), t),
{
    lemma_per_block_count(n, state, ticks, t);
    lemma_last_tick_follows(Rate::PerBlock(n), state, ticks);
    if clock_from(state, ticks.push(t)) {
        let longer = ticks.push(t);
        assert(longer[ticks.len() as int] == t);
        if ticks.len() > 0 {
            assert(longer[ticks.len() - 1] == ticks.last());
        }
    }
}

/// Under `Blocks(b)` the state's tick is never behind an admitted attempt.
proof fn lemma_blocks_last_tick(b: u64, state: AdmissionState, ticks: Seq<u64>, i: int, k: int)
    requires
        0 <= i < k <= ticks.len(),
        admitted_at(Rate::Blocks(b), state, ticks, i),
    ensures
        ticks[i] <= state_after(Rate::Blocks(b), state, ticks.take(k)).last_tick,
    decreases k,
{
    let policy = Rate::Blocks(b);
    assert(ticks.take(k).drop_last() == ticks.take(k - 1));
    assert(ticks.take(k).last() == ticks[k - 1]);
    if k > i + 1 {
        lemma_blocks_last_tick(b, state, ticks, i, k - 1);
    }
}

/// Under `Blocks(b)` any two admitted attempts of a history lie at least `b`
/// ticks apart, and so do two admissions that follow one another.
pub proof fn lemma_blocks_spacing(b: u64, state: AdmissionState, ticks: Seq<u64>, i: int, j: int)
    requires
        0 <= i < j < ticks.len(),
        admitted_at(Rate::Blocks(b), state, ticks, i),
        admitted_at(Rate::Blocks(b), state, ticks, j),
    ensures
        ticks[j] - ticks[i] >= b,
{
    lemma_blocks_last_tick(b, state, ticks, i, j);
}

/// Where `PerBlock(1)` and `Blocks(1)` stand at the same tick and the first
/// has spent its one admission there, they stay together.
proof fn lemma_one_per_tick_states(
    per_block: AdmissionState,
    blocks: AdmissionState,
    ticks: Seq<u64>,
)
    requires
        per_block.last_tick == blocks.last_tick,
        clock_from(per_block, ticks),
        per_block.count_in_tick >= 1 || (ticks.len() > 0 ==> ticks[0] > per_block.last_tick),
    ensures
        state_after(Rate::PerBlock(1), per_block, ticks).last_tick == state_after(
            Rate::Blocks(1),
            blocks,
            ticks,
        ).last_tick,
        ticks.len() > 0 ==> state_after(Rate::PerBlock(1), per_block, ticks).count_in_tick >= 1,
        ticks.len() == 0 ==> state_after(Rate::PerBlock(1), per_block, ticks) == per_block,
    decreases ticks.len(),
{
    if ticks.len() > 0 {
        let earlier = ticks.drop_last();
        lemma_clock_prefix(per_block, ticks, ticks.len() - 1);
        if earlier.len() > 0 {
            assert(earlier[0] == ticks[0]);
        }
        lemma_one_per_tick_states(per_block, blocks, earlier);
        lemma_last_tick_follows(Rate::PerBlock(1), per_block, earlier);
        if earlier.len() > 0 {
            assert(earlier.last() == ticks[ticks.len() - 2]);
        }
    }
}

/// `PerBlock(1)` and `Blocks(1)` decide every attempt of a history alike,
/// on a host's clock, from states at the same tick, provided the history
/// does not open with an attempt at that very tick that `PerBlock(1)` could
/// still grant.
pub proof fn lemma_one_per_block_is_every_block(
    per_block: AdmissionState,
    blocks: AdmissionState,
    ticks: Seq<u64>,
    i: int,
)
    requires
        per_block.last_tick == blocks.last_tick,
        clock_from(per_block, ticks),
        per_block.count_in_tick >= 1 || (ticks.len() > 0 ==> ticks[0] > per_block.last_tick),
        0 <= i < ticks.len(),
    ensures
        admitted_at(Rate::PerBlock(1), per_block, ticks, i) == admitted_at(
            Rate::Blocks(1),
            blocks,
            ticks,
            i,
        ),
{
    let before = ticks.take(i);
    lemma_clock_prefix(per_block, ticks, i);
    if i > 0 {
        assert(before[0] == ticks[0]);
        assert(before.last() == ticks[i - 1]);
    }
    lemma_one_per_tick_states(per_block, blocks, before);
    lemma_last_tick_follows(Rate::PerBlock(1), per_block, before);
}

} // verus!
