//! Sending at a cadence: which attempts a sender makes when it drives a gate
//! at a given rate for a number of ticks, and how far such a drive gets.

use crate::admission::{admits, admitted, AdmissionState};
use crate::history::clock_from;
use crate::rate::{lemma_exceeds_by_mode, Rate};
use vstd::arithmetic::div_mod::{lemma_fundamental_div_mod, lemma_mod_self_0, lemma_small_mod};
use vstd::prelude::*;

verus! {

/// How many attempts a sender at cadence `rate` makes in the tick that lies
/// `offset` ticks after the start of its drive: `n` in every tick for
/// `PerBlock(n)`, one in every `b`-th tick for `Blocks(b)`.
pub open spec fn due(rate: Rate, offset: nat) -> nat {
    match rate {
        Rate::PerBlock(n) => n as nat,
        Rate::Blocks(b) => if b > 0 && offset % (b as nat) == 0 {
            1
        } else {
            0
        },
    }
}

/// `count` attempts at one tick.
pub open spec fn volley(tick: u64, count: nat) -> Seq<u64> {
    Seq::new(count, |i: int| tick)
}

/// The ticks of all attempts of a drive at cadence `rate` over the `blocks`
/// ticks from `start` on, in the order in which they are made.
pub open spec fn schedule(rate: Rate, start: u64, blocks: nat) -> Seq<u64>
    decreases blocks,
{
    if blocks == 0 {
        Seq::empty()
    } else {
        let earlier = (blocks - 1) as nat;
        schedule(rate, start, earlier) + volley((start + earlier) as u64, due(rate, earlier))
    }
}

/// How far a sender got that gives up at the first rejection.
pub struct Run {
    /// The engine's state when the sender stopped.
    pub state: AdmissionState,
    /// The attempts that were admitted.
    pub admitted: nat,
    /// Whether an attempt was rejected, which ended the run.
    pub rejected: bool,
}

impl Run {
    /// The attempts that were made: the admitted ones, and the one that was
    /// rejected if the run ended so.
    pub open spec fn attempts(self) -> nat {
        if self.rejected {
            self.admitted + 1
        } else {
            self.admitted
        }
    }
}

/// One more attempt at `tick`, unless the run is over already.
pub open spec fn step(policy: Rate, before: Run, tick: u64) -> Run {
    if before.rejected {
        before
    } else if admits(policy, before.state, tick) {
        Run {
            state: admitted(policy, before.state, tick),
            admitted: before.admitted + 1,
            rejected: false,
        }
    } else {
        Run { state: before.state, admitted: before.admitted, rejected: true }
    }
}

/// The run of a sender that attempts at each of `ticks` in order and stops
/// at the first rejection.
pub open spec fn run(policy: Rate, state: AdmissionState, ticks: Seq<u64>) -> Run
    decreases ticks.len(),
{
    if ticks.len() == 0 {
        Run { state, admitted: 0, rejected: false }
    } else {
        step(policy, run(policy, state, ticks.drop_last()), ticks.last())
    }
}

/// `head` is how `whole` begins.
pub open spec fn starts_with(whole: Seq<u64>, head: Seq<u64>) -> bool {
    head.len() <= whole.len() && whole.take(head.len() as int) == head
}

/// The attempts that fall due at `offset`. A cadence of one attempt every
/// zero ticks has no meaning and is left out.
pub fn attempts_due(rate: Rate, offset: u64) -> (r: u64)
    requires
        rate != Rate::Blocks(0),
    ensures
        r == due(rate, offset as nat),
{
    match rate {
        Rate::PerBlock(n) => n,
        Rate::Blocks(b) => if offset % b == 0 {
            1
        } else {
            0
        },
    }
}

/// A run over one more attempt is one step on from the run without it.
pub proof fn lemma_run_push(policy: Rate, state: AdmissionState, ticks: Seq<u64>, tick: u64)
    ensures
        run(policy, state, ticks.push(tick)) == step(policy, run(policy, state, ticks), tick),
{
    assert(ticks.push(tick).drop_last() == ticks);
}

/// A run that has ended stays as it is, whatever attempts were still planned.
pub proof fn lemma_run_stops(policy: Rate, state: AdmissionState, head: Seq<u64>, whole: Seq<u64>)
    requires
        starts_with(whole, head),
        run(policy, state, head).rejected,
    ensures
        run(policy, state, whole) == run(policy, state, head),
    decreases whole.len(),
{
    if whole.len() == head.len() {
        assert(whole.take(head.len() as int) == whole);
    } else {
        assert(whole.drop_last().take(head.len() as int) == whole.take(head.len() as int));
        lemma_run_stops(policy, state, head, whole.drop_last());
    }
}

/// A run makes no more attempts than were planned.
pub proof fn lemma_run_attempts_bounded(policy: Rate, state: AdmissionState, ticks: Seq<u64>)
    ensures
        run(policy, state, ticks).attempts() <= ticks.len(),
        !run(policy, state, ticks).rejected ==> run(policy, state, ticks).admitted == ticks.len(),
    decreases ticks.len(),
{
    if ticks.len() > 0 {
        lemma_run_attempts_bounded(policy, state, ticks.drop_last());
    }
}

/// A schedule plans `burst()` attempts a tick at most: that many in every
/// tick for `PerBlock`, and for `Blocks` one in some of them.
pub proof fn lemma_schedule_len(rate: Rate, start: u64, blocks: nat)
    ensures
        schedule(rate, start, blocks).len() <= rate.burst() * blocks,
        rate is PerBlock ==> schedule(rate, start, blocks).len() == rate.burst() * blocks,
    decreases blocks,
{
    let per_tick = rate.burst();
    if blocks > 0 {
        let earlier = (blocks - 1) as nat;
        lemma_schedule_len(rate, start, earlier);
        assert(per_tick * blocks == per_tick * earlier + per_tick) by (nonlinear_arith)
            requires
                blocks == earlier + 1,
        ;
    } else {
        assert(per_tick * blocks == 0) by (nonlinear_arith)
            requires
                blocks == 0,
        ;
    }
}

/// A run over more planned attempts makes no fewer.
pub proof fn lemma_run_grows(policy: Rate, state: AdmissionState, head: Seq<u64>, whole: Seq<u64>)
    requires
        starts_with(whole, head),
    ensures
        run(policy, state, head).attempts() <= run(policy, state, whole).attempts(),
    decreases whole.len(),
{
    if whole.len() == head.len() {
        assert(whole.take(head.len() as int) == whole);
    } else {
        assert(whole.drop_last().take(head.len() as int) == whole.take(head.len() as int));
        lemma_run_grows(policy, state, head, whole.drop_last());
    }
}

/// The schedule of a drive begins with the attempts of its first `blocks`
/// ticks and any number of those that fall due in the tick after them.
pub proof fn lemma_schedule_starts_with(
    rate: Rate,
    start: u64,
    total: nat,
    blocks: nat,
    count: nat,
)
    requires
        blocks < total && count <= due(rate, blocks) || blocks == total && count == 0,
    ensures
        starts_with(
            schedule(rate, start, total),
            schedule(rate, start, blocks) + volley((start + blocks) as u64, count),
        ),
    decreases total,
{
    let whole = schedule(rate, start, total);
    let head = schedule(rate, start, blocks) + volley((start + blocks) as u64, count);
    if blocks == total {
        assert(head == whole);
        assert(whole.take(whole.len() as int) == whole);
    } else if blocks + 1 == total {
        let full = volley((start + blocks) as u64, due(rate, blocks));
        assert(whole == schedule(rate, start, blocks) + full);
        assert(whole.take(head.len() as int) == head);
    } else {
        let earlier = (total - 1) as nat;
        lemma_schedule_starts_with(rate, start, earlier, blocks, count);
        let shorter = schedule(rate, start, earlier);
        assert(whole.take(shorter.len() as int) == shorter);
        assert(whole.take(head.len() as int) == shorter.take(head.len() as int));
    }
}

/// A gate with this policy and state is open at `tick`: an attempt made
/// then finds the whole budget of the policy. The tick is not behind the
/// state's.
pub open spec fn gate_open(policy: Rate, state: AdmissionState, tick: u64) -> bool {
    &&& state.last_tick <= tick
    &&& match policy {
        Rate::PerBlock(_) => tick != state.last_tick || state.count_in_tick == 0,
        Rate::Blocks(b) => tick - state.last_tick >= b,
    }
}

/// A gate that has waited out the window of its policy is open again: one
/// tick for `PerBlock`, the spacing for `Blocks`.
pub proof fn lemma_wait_reopens(policy: Rate, state: AdmissionState, tick: u64)
    requires
        state.last_tick <= tick,
        tick + policy.window() <= u64::MAX,
    ensures
        gate_open(policy, state, (tick + policy.window()) as u64),
{
}

/// Where a run stands after `count` more attempts at `tick`, in closed form.
pub open spec fn after_volley(policy: Rate, before: Run, tick: u64, count: nat) -> Run {
    if before.rejected || count == 0 {
        before
    } else {
        match policy {
            Rate::PerBlock(n) => {
                let used: nat = if tick == before.state.last_tick {
                    before.state.count_in_tick as nat
                } else {
                    0
                };
                let room: nat = if used < n {
                    (n - used) as nat
                } else {
                    0
                };
                let passed: nat = if count <= room {
                    count
                } else {
                    room
                };
                Run {
                    state: if passed == 0 {
                        before.state
                    } else {
                        AdmissionState { last_tick: tick, count_in_tick: (used + passed) as u64 }
                    },
                    admitted: before.admitted + passed,
                    rejected: count > room,
                }
            },
            Rate::Blocks(b) => {
                let first = AdmissionState {
                    last_tick: tick,
                    count_in_tick: before.state.count_in_tick,
                };
                if tick - before.state.last_tick < b {
                    Run { state: before.state, admitted: before.admitted, rejected: true }
                } else if b == 0 {
                    Run { state: first, admitted: before.admitted + count, rejected: false }
                } else {
                    Run { state: first, admitted: before.admitted + 1, rejected: count > 1 }
                }
            },
        }
    }
}

/// A run over `count` more attempts at one tick ends as [`after_volley`]
/// says.
pub proof fn lemma_run_volley(
    policy: Rate,
    state: AdmissionState,
    ticks: Seq<u64>,
    tick: u64,
    count: nat,
)
    ensures
        run(policy, state, ticks + volley(tick, count)) == after_volley(
            policy,
            run(policy, state, ticks),
            tick,
            count,
        ),
    decreases count,
{
    if count == 0 {
        assert(ticks + volley(tick, 0) == ticks);
    } else {
        let fewer = (count - 1) as nat;
        lemma_run_volley(policy, state, ticks, tick, fewer);
        assert(ticks + volley(tick, count) == (ticks + volley(tick, fewer)).push(tick));
        lemma_run_push(policy, state, ticks + volley(tick, fewer), tick);
    }
}

/// The run of a drive over one more tick, from the run over those before.
proof fn lemma_run_next_block(
    policy: Rate,
    state: AdmissionState,
    rate: Rate,
    start: u64,
    blocks: nat,
)
    ensures
        run(policy, state, schedule(rate, start, blocks + 1)) == after_volley(
            policy,
            run(policy, state, schedule(rate, start, blocks)),
            (start + blocks) as u64,
            due(rate, blocks),
        ),
{
    lemma_run_volley(
        policy,
        state,
        schedule(rate, start, blocks),
        (start + blocks) as u64,
        due(rate, blocks),
    );
}

/// A drive that was rejected within its first `early` ticks is rejected
/// however long it was meant to go on.
proof fn lemma_rejected_stays(
    policy: Rate,
    state: AdmissionState,
    rate: Rate,
    start: u64,
    early: nat,
    total: nat,
)
    requires
        early <= total,
        run(policy, state, schedule(rate, start, early)).rejected,
    ensures
        run(policy, state, schedule(rate, start, total)).rejected,
{
    lemma_schedule_starts_with(rate, start, total, early, 0);
    let head = schedule(rate, start, early);
    assert(head + volley((start + early) as u64, 0) == head);
    lemma_run_stops(policy, state, head, schedule(rate, start, total));
}

/// Two different multiples of `a` lie at least `a` apart.
proof fn lemma_multiples_apart(j: nat, k: nat, a: nat)
    requires
        a > 0,
        j < k,
        j % a == 0,
        k % a == 0,
    ensures
        k - j >= a,
{
    lemma_fundamental_div_mod(j as int, a as int);
    lemma_fundamental_div_mod(k as int, a as int);
    let qj = (j as int) / (a as int);
    let qk = (k as int) / (a as int);
    assert(k - j >= a) by (nonlinear_arith)
        requires
            a > 0,
            j < k,
            j == a * qj,
            k == a * qk,
    ;
}

/// `PerBlock(m)` against a limit of `PerBlock(n)` with `m <= n`: every tick
/// starts a fresh count, which `m` attempts do not use up.
proof fn lemma_per_block_within_per_block(
    n: u64,
    m: u64,
    state: AdmissionState,
    start: u64,
    blocks: nat,
)
    requires
        1 <= m <= n,
        start + blocks <= u64::MAX,
        gate_open(Rate::PerBlock(n), state, start),
    ensures
        !run(Rate::PerBlock(n), state, schedule(Rate::PerBlock(m), start, blocks)).rejected,
        blocks > 0 ==> run(Rate::PerBlock(n), state, schedule(Rate::PerBlock(m), start, blocks)).state
            == (AdmissionState { last_tick: (start + blocks - 1) as u64, count_in_tick: m }),
        blocks == 0 ==> run(Rate::PerBlock(n), state, schedule(Rate::PerBlock(m), start, blocks)).state
            == state,
    decreases blocks,
{
    if blocks > 0 {
        let earlier = (blocks - 1) as nat;
        lemma_per_block_within_per_block(n, m, state, start, earlier);
        lemma_run_next_block(Rate::PerBlock(n), state, Rate::PerBlock(m), start, earlier);
    }
}

/// `Blocks(a)` against a limit of `PerBlock(n)`: one attempt in a tick of its
/// own is always within the count.
proof fn lemma_blocks_within_per_block(
    n: u64,
    a: u64,
    state: AdmissionState,
    start: u64,
    blocks: nat,
)
    requires
        1 <= n,
        1 <= a,
        start + blocks <= u64::MAX,
        gate_open(Rate::PerBlock(n), state, start),
    ensures
        !run(Rate::PerBlock(n), state, schedule(Rate::Blocks(a), start, blocks)).rejected,
        blocks > 0 ==> run(Rate::PerBlock(n), state, schedule(Rate::Blocks(a), start, blocks)).state.last_tick
            < start + blocks,
        blocks == 0 ==> run(Rate::PerBlock(n), state, schedule(Rate::Blocks(a), start, blocks)).state
            == state,
    decreases blocks,
{
    if blocks > 0 {
        let earlier = (blocks - 1) as nat;
        lemma_blocks_within_per_block(n, a, state, start, earlier);
        lemma_run_next_block(Rate::PerBlock(n), state, Rate::Blocks(a), start, earlier);
    }
}

/// `PerBlock(1)` against a limit of `Blocks(1)`: one attempt in every tick is
/// one tick after the last.
proof fn lemma_one_per_block_within_every_block(state: AdmissionState, start: u64, blocks: nat)
    requires
        start + blocks <= u64::MAX,
        gate_open(Rate::Blocks(1), state, start),
    ensures
        !run(Rate::Blocks(1), state, schedule(Rate::PerBlock(1), start, blocks)).rejected,
        blocks > 0 ==> run(Rate::Blocks(1), state, schedule(Rate::PerBlock(1), start, blocks)).state.last_tick
            == start + blocks - 1,
        blocks == 0 ==> run(Rate::Blocks(1), state, schedule(Rate::PerBlock(1), start, blocks)).state
            == state,
    decreases blocks,
{
    if blocks > 0 {
        let earlier = (blocks - 1) as nat;
        lemma_one_per_block_within_every_block(state, start, earlier);
        lemma_run_next_block(Rate::Blocks(1), state, Rate::PerBlock(1), start, earlier);
    }
}

/// `Blocks(a)` against a limit of `Blocks(b)` with `a >= b`: the attempts lie
/// at multiples of `a` from the start, so any two are `a` ticks apart or more.
proof fn lemma_blocks_within_blocks(b: u64, a: u64, state: AdmissionState, start: u64, blocks: nat)
    requires
        1 <= b <= a,
        start + blocks <= u64::MAX,
        gate_open(Rate::Blocks(b), state, start),
    ensures
        !run(Rate::Blocks(b), state, schedule(Rate::Blocks(a), start, blocks)).rejected,
        blocks > 0 ==> {
            let last = run(Rate::Blocks(b), state, schedule(Rate::Blocks(a), start, blocks)).state.last_tick;
            start <= last < start + blocks && ((last - start) as nat) % (a as nat) == 0
        },
        blocks == 0 ==> run(Rate::Blocks(b), state, schedule(Rate::Blocks(a), start, blocks)).state
            == state,
    decreases blocks,
{
    if blocks > 0 {
        let earlier = (blocks - 1) as nat;
        lemma_blocks_within_blocks(b, a, state, start, earlier);
        lemma_run_next_block(Rate::Blocks(b), state, Rate::Blocks(a), start, earlier);
        let before = run(Rate::Blocks(b), state, schedule(Rate::Blocks(a), start, earlier));
        if earlier > 0 && earlier % (a as nat) == 0 {
            lemma_multiples_apart((before.state.last_tick - start) as nat, earlier, a as nat);
        }
        if earlier == 0 {
            lemma_small_mod(0, a as nat);
        }
    }
}

/// `Blocks(a)` against a limit of `Blocks(b)` with `a < b`: until the second
/// attempt falls due nothing happens after the first.
proof fn lemma_blocks_before_second(b: u64, a: u64, state: AdmissionState, start: u64, blocks: nat)
    requires
        1 <= a < b,
        1 <= blocks <= a,
        start + blocks <= u64::MAX,
        gate_open(Rate::Blocks(b), state, start),
    ensures
        !run(Rate::Blocks(b), state, schedule(Rate::Blocks(a), start, blocks)).rejected,
        run(Rate::Blocks(b), state, schedule(Rate::Blocks(a), start, blocks)).state.last_tick
            == start,
    decreases blocks,
{
    let earlier = (blocks - 1) as nat;
    lemma_run_next_block(Rate::Blocks(b), state, Rate::Blocks(a), start, earlier);
    lemma_small_mod(earlier, a as nat);
    if blocks > 1 {
        lemma_blocks_before_second(b, a, state, start, earlier);
    }
}

/// The drive lasts long enough for a cadence that is too fast to be caught:
/// two ticks for a count, one tick more than the spacing for a spacing.
pub open spec fn long_enough(actual: Rate, blocks: nat) -> bool {
    match actual {
        Rate::PerBlock(_) => blocks >= 2,
        Rate::Blocks(a) => blocks > a,
    }
}

/// A drive at cadence `actual` through a gate whose limit is `limit` goes
/// through, however long it lasts, if `actual` does not exceed `limit`; and
/// if it does, some attempt is rejected once the drive is long enough.
///
/// This holds where the limit is open when the drive starts and both rates
/// are valid. A drive that lasts longer than the parameter of `actual` is
/// long enough: it is rejected exactly when `actual` is the faster of the
/// two.
pub proof fn lemma_drive_rejected_iff_exceeds(
    limit: Rate,
    state: AdmissionState,
    actual: Rate,
    start: u64,
    blocks: nat,
)
    requires
        limit.valid(),
        actual.valid(),
        start + blocks <= u64::MAX,
        gate_open(limit, state, start),
    ensures
        !actual.exceeds(&limit) ==> !run(limit, state, schedule(actual, start, blocks)).rejected,
        actual.exceeds(&limit) && long_enough(actual, blocks) ==> run(
            limit,
            state,
            schedule(actual, start, blocks),
        ).rejected,
        actual.value() < blocks ==> (run(limit, state, schedule(actual, start, blocks)).rejected
            <==> actual.exceeds(&limit)),
{
    lemma_exceeds_by_mode(actual, limit);
    match (limit, actual) {
        (Rate::PerBlock(n), Rate::PerBlock(m)) => {
            if m <= n {
                lemma_per_block_within_per_block(n, m, state, start, blocks);
            } else if blocks >= 1 {
                lemma_run_next_block(limit, state, actual, start, 0);
                lemma_rejected_stays(limit, state, actual, start, 1, blocks);
            }
        },
        (Rate::PerBlock(n), Rate::Blocks(a)) => {
            lemma_blocks_within_per_block(n, a, state, start, blocks);
        },
        (Rate::Blocks(b), Rate::PerBlock(m)) => {
            if m == 1 && b == 1 {
                lemma_one_per_block_within_every_block(state, start, blocks);
            } else if blocks >= 2 {
                lemma_run_next_block(limit, state, actual, start, 0);
                if m >= 2 {
                    lemma_rejected_stays(limit, state, actual, start, 1, blocks);
                } else {
                    lemma_run_next_block(limit, state, actual, start, 1);
                    lemma_rejected_stays(limit, state, actual, start, 2, blocks);
                }
            }
        },
        (Rate::Blocks(b), Rate::Blocks(a)) => {
            if a >= b {
                lemma_blocks_within_blocks(b, a, state, start, blocks);
            } else if blocks > a {
                lemma_blocks_before_second(b, a, state, start, a as nat);
                lemma_run_next_block(limit, state, actual, start, a as nat);
                lemma_mod_self_0(a as int);
                lemma_rejected_stays(limit, state, actual, start, (a + 1) as nat, blocks);
            }
        },
    }
}

/// `PerBlock(1)` and `Blocks(1)` side by side over one history: the runs
/// agree, and the first has spent its admission wherever it stands after
/// one.
proof fn lemma_one_per_tick_runs(per_block: AdmissionState, blocks: AdmissionState, ticks: Seq<u64>)
    requires
        per_block.last_tick == blocks.last_tick,
        clock_from(per_block, ticks),
        per_block.count_in_tick >= 1 || (ticks.len() > 0 ==> ticks[0] > per_block.last_tick),
    ensures
        ({
            let p = run(Rate::PerBlock(1), per_block, ticks);
            let b = run(Rate::Blocks(1), blocks, ticks);
            &&& p.rejected == b.rejected
            &&& p.admitted == b.admitted
            &&& p.state.last_tick == b.state.last_tick
            &&& p.attempts() == 0 ==> ticks.len() == 0 && p.state == per_block
            &&& p.admitted > 0 ==> p.state.count_in_tick >= 1
            &&& p.admitted == 0 ==> p.state == per_block
            &&& per_block.last_tick <= p.state.last_tick
            &&& ticks.len() > 0 ==> p.state.last_tick <= ticks.last()
        }),
    decreases ticks.len(),
{
    if ticks.len() > 0 {
        let earlier = ticks.drop_last();
        assert forall|i: int, j: int| 0 <= i <= j < earlier.len() implies earlier[i]
            <= earlier[j] by {
            assert(earlier[i] == ticks[i] && earlier[j] == ticks[j]);
        }
        assert forall|i: int| 0 <= i < earlier.len() implies per_block.last_tick
            <= #[trigger] earlier[i] by {
            assert(earlier[i] == ticks[i]);
        }
        if earlier.len() > 0 {
            assert(earlier[0] == ticks[0]);
            assert(earlier.last() == ticks[ticks.len() - 2]);
        }
        lemma_one_per_tick_runs(per_block, blocks, earlier);
        lemma_run_attempts_bounded(Rate::PerBlock(1), per_block, earlier);
    }
}

/// A sender that stops at the first rejection gets as far through
/// `PerBlock(1)` as through `Blocks(1)`: on a host's clock, from states at
/// the same tick, the two runs over one history admit the same attempts and
/// end alike, provided the history does not open with an attempt at that
/// very tick that `PerBlock(1)` could still grant.
pub proof fn lemma_one_per_block_runs_as_every_block(
    per_block: AdmissionState,
    blocks: AdmissionState,
    ticks: Seq<u64>,
)
    requires
        per_block.last_tick == blocks.last_tick,
        clock_from(per_block, ticks),
        per_block.count_in_tick >= 1 || (ticks.len() > 0 ==> ticks[0] > per_block.last_tick),
    ensures
        run(Rate::PerBlock(1), per_block, ticks).rejected == run(
            Rate::Blocks(1),
            blocks,
            ticks,
        ).rejected,
        run(Rate::PerBlock(1), per_block, ticks).admitted == run(
            Rate::Blocks(1),
            blocks,
            ticks,
        ).admitted,
        run(Rate::PerBlock(1), per_block, ticks).state.last_tick == run(
            Rate::Blocks(1),
            blocks,
            ticks,
        ).state.last_tick,
{
    lemma_one_per_tick_runs(per_block, blocks, ticks);
}

} // verus!
