//! Periodic timers, polled against a microsecond clock.

use vstd::prelude::*;

verus! {

/// What a periodic timer is: its period and the instant at which it next
/// fires, both in microseconds.
pub struct TimerView {
    pub period: nat,
    pub deadline: nat,
}

/// The latest instant the clock can show.
pub open spec fn clock_end() -> nat {
    u64::MAX as nat
}

/// Whether a timer with this deadline fires when polled at `now`.
pub open spec fn due(deadline: nat, now: nat) -> bool {
    now >= deadline
}

/// The deadline one period after `deadline`, held at the end of the clock.
pub open spec fn rearmed(deadline: nat, period: nat) -> nat {
    if deadline + period > clock_end() {
        clock_end()
    } else {
        deadline + period
    }
}

/// The timer after it was polled at `now`: if it was due it is armed again
/// for one period after its old deadline, otherwise it is as before.
pub open spec fn polled(timer: TimerView, now: nat) -> TimerView {
    if due(timer.deadline, now) {
        TimerView { period: timer.period, deadline: rearmed(timer.deadline, timer.period) }
    } else {
        timer
    }
}

/// The timer after it was polled at each of the instants `polls` in turn.
pub open spec fn after_polls(timer: TimerView, polls: Seq<nat>) -> TimerView
    decreases polls.len(),
{
    if polls.len() == 0 {
        timer
    } else {
        polled(after_polls(timer, polls.drop_last()), polls.last())
    }
}

/// How often the timer fires when it is polled at each of the instants
/// `polls` in turn.
pub open spec fn firings(timer: TimerView, polls: Seq<nat>) -> nat
    decreases polls.len(),
{
    if polls.len() == 0 {
        0
    } else {
        let earlier = polls.drop_last();
        let fired: nat = if due(after_polls(timer, earlier).deadline, polls.last()) {
            1
        } else {
            0
        };
        firings(timer, earlier) + fired
    }
}

/// `fugit::MicrosDurationU64::millis` and `ticks`: a duration of `millis`
/// milliseconds counts a thousand microsecond ticks for each of them.
#[verifier::external_body]
fn micros_of_millis(millis: u32) -> (micros: u64)
    ensures
        micros == millis * 1000,
{
    fugit::MicrosDurationU64::millis(u64::from(millis)).ticks()
}

/// A countdown with a fixed period that arms itself again each time it fires.
#[derive(Clone, Copy, Debug, PartialEq, Eq)]
pub struct PeriodicTimer {
    period: u64,
    deadline: u64,
}

impl View for PeriodicTimer {
    type V = TimerView;

    closed spec fn view(&self) -> TimerView {
        TimerView { period: self.period as nat, deadline: self.deadline as nat }
    }
}

impl PeriodicTimer {
    /// Starts a timer at `now` that first fires one `period` later. Times are
    /// in microseconds.
    pub fn start(now: u64, period: u64) -> (timer: PeriodicTimer)
        ensures
            timer@ == (TimerView {
                period: period as nat,
                deadline: rearmed(now as nat, period as nat),
            }),
    {
        PeriodicTimer { period, deadline: now.saturating_add(period) }
    }

    /// Starts a timer at `now`, in microseconds, with a period given in
    /// milliseconds.
    pub fn start_millis(now: u64, period_ms: u32) -> (timer: PeriodicTimer)
        ensures
            timer@ == (TimerView {
                period: (period_ms * 1000) as nat,
                deadline: rearmed(now as nat, (period_ms * 1000) as nat),
            }),
    {
        PeriodicTimer::start(now, micros_of_millis(period_ms))
    }

    /// Polls the timer at `now` and tells whether it fired. A timer that
    /// fires is armed again at once, one period after the deadline it had, so
    /// that a late poll does not shift the firings that follow.
    pub fn poll(&mut self, now: u64) -> (fired: bool)
        ensures
            fired == due(old(self)@.deadline, now as nat),
            final(self)@ == polled(old(self)@, now as nat),
    {
        if now >= self.deadline {
            self.deadline = self.deadline.saturating_add(self.period);
            true
        } else {
            false
        }
    }

    /// The period, in microseconds.
    pub fn period(&self) -> (period: u64)
        ensures
            period == self@.period,
    {
        self.period
    }

    /// The instant, in microseconds, at which the timer next fires.
    pub fn deadline(&self) -> (deadline: u64)
        ensures
            deadline == self@.deadline,
    {
        self.deadline
    }
}

/// Firings do not drift: as long as the clock does not run out, the deadline
/// lies exactly one period further for each time the timer has fired, however
/// late the polls came.
pub proof fn lemma_deadline_counts_firings(timer: TimerView, polls: Seq<nat>)
    requires
        forall|i: int, j: int| 0 <= i <= j < polls.len() ==> polls[i] <= polls[j],
        polls.len() > 0 ==> polls.last() + timer.period <= clock_end(),
    ensures
        after_polls(timer, polls).period == timer.period,
        after_polls(timer, polls).deadline == timer.deadline + firings(timer, polls)
            * timer.period,
    decreases polls.len(),
{
    let period = timer.period as int;
    if polls.len() == 0 {
        assert(0 * period == 0) by (nonlinear_arith);
    } else {
        let earlier = polls.drop_last();
        if earlier.len() > 0 {
            assert(earlier.last() == polls[polls.len() - 2]);
        }
        assert forall|i: int, j: int| 0 <= i <= j < earlier.len() implies earlier[i]
            <= earlier[j] by {
            assert(polls[i] <= polls[j]);
        }
        lemma_deadline_counts_firings(timer, earlier);
        let fired = firings(timer, earlier) as int;
        assert((fired + 1) * period == fired * period + period) by (nonlinear_arith);
    }
}

/// A timer that has caught up has kept its rate. If the timer was started no
/// later than the first poll and is no longer due after the last one, then
/// over the window from the first poll to the last it has fired at least once
/// for every full period in the window, however the polls were spread.
pub proof fn lemma_caught_up_timer_kept_rate(timer: TimerView, polls: Seq<nat>)
    requires
        timer.period > 0,
        polls.len() > 0,
        timer.deadline <= polls[0] + timer.period,
        forall|i: int, j: int| 0 <= i <= j < polls.len() ==> polls[i] <= polls[j],
        polls.last() + timer.period <= clock_end(),
        !due(after_polls(timer, polls).deadline, polls.last()),
    ensures
        firings(timer, polls) >= (polls.last() - polls[0]) / (timer.period as int),
{
    lemma_deadline_counts_firings(timer, polls);
    let fired = firings(timer, polls) as int;
    let window = polls.last() - polls[0];
    let period = timer.period as int;
    assert((fired + 1) * period == fired * period + period) by (nonlinear_arith);
    assert(fired >= window / period) by (nonlinear_arith)
        requires
            (fired + 1) * period > window,
            period > 0,
            window >= 0,
            fired >= 0,
    ;
}

/// A timer that is polled often enough keeps its rate. If successive polls are
/// never further apart than one period, and the timer was started no later
/// than the first poll, then over the window from the first poll to the last
/// it fires at least once for every full period in the window, whatever else
/// happens between the polls.
pub proof fn lemma_polled_timer_keeps_rate(timer: TimerView, polls: Seq<nat>)
    requires
        timer.period > 0,
        polls.len() > 0,
        timer.deadline <= polls[0] + timer.period,
        forall|i: int|
            0 <= i < polls.len() - 1 ==> polls[i] <= #[trigger] polls[i + 1] <= polls[i]
                + timer.period,
        polls.last() + timer.period <= clock_end(),
    ensures
        firings(timer, polls) >= (polls.last() - polls[0]) / (timer.period as int),
        firings(timer, polls) >= (polls.last() - polls[0]) / (timer.period as int) - 1,
{
    lemma_polled_timer_progress(timer, polls);
    let fired = firings(timer, polls) as int;
    let window = polls.last() - polls[0];
    let period = timer.period as int;
    assert(fired >= window / period) by (nonlinear_arith)
        requires
            (fired + 1) * period > window,
            period > 0,
            window >= 0,
            fired >= 0,
    ;
}

/// The bookkeeping behind `lemma_polled_timer_keeps_rate`: after the last poll
/// the deadline has moved by one period per firing, lies at most one period
/// ahead, and either lies ahead of the last poll or the timer fired at every
/// poll.
proof fn lemma_polled_timer_progress(timer: TimerView, polls: Seq<nat>)
    requires
        timer.period > 0,
        polls.len() > 0,
        timer.deadline <= polls[0] + timer.period,
        forall|i: int|
            0 <= i < polls.len() - 1 ==> polls[i] <= #[trigger] polls[i + 1] <= polls[i]
                + timer.period,
        polls.last() + timer.period <= clock_end(),
    ensures
        after_polls(timer, polls).period == timer.period,
        after_polls(timer, polls).deadline == timer.deadline + firings(timer, polls)
            * timer.period,
        after_polls(timer, polls).deadline <= polls.last() + timer.period,
        after_polls(timer, polls).deadline > polls.last() || firings(timer, polls)
            == polls.len(),
        polls.last() - polls[0] <= (polls.len() - 1) * timer.period,
        polls.last() >= polls[0],
        (firings(timer, polls) + 1) * timer.period > polls.last() - polls[0],
    decreases polls.len(),
{
    let period = timer.period as int;
    let fired = firings(timer, polls) as int;
    if polls.len() == 1 {
        assert(polls.drop_last().len() == 0);
        assert(after_polls(timer, polls.drop_last()) == timer);
        assert(firings(timer, polls.drop_last()) == 0);
        if due(timer.deadline, polls.last()) {
            assert(1 * period == period) by (nonlinear_arith);
            assert((1 + 1) * period > 0) by (nonlinear_arith)
                requires
                    period > 0,
            ;
        } else {
            assert(0 * period == 0) by (nonlinear_arith);
            assert((0 + 1) * period > 0) by (nonlinear_arith)
                requires
                    period > 0,
            ;
        }
        assert((polls.len() - 1) * period == 0) by (nonlinear_arith)
            requires
                polls.len() == 1,
        ;
    } else {
        let earlier = polls.drop_last();
        let last = polls.len() - 1;
        assert(earlier.last() == polls[last - 1]);
        assert(earlier[0] == polls[0]);
        assert(polls[last - 1] <= polls[(last - 1) + 1]);
        assert forall|i: int| 0 <= i < earlier.len() - 1 implies earlier[i] <= #[trigger] earlier[i
            + 1] <= earlier[i] + timer.period by {
            assert(polls[i] <= polls[i + 1] <= polls[i] + timer.period);
        }
        lemma_polled_timer_progress(timer, earlier);
        let before = after_polls(timer, earlier);
        let fired_before = firings(timer, earlier) as int;
        assert((fired_before + 1) * period == fired_before * period + period)
            by (nonlinear_arith);
        assert((fired_before + 2) * period == fired_before * period + 2 * period)
            by (nonlinear_arith);
        assert((polls.len() - 1) * period == (earlier.len() - 1) * period + period)
            by (nonlinear_arith)
            requires
                polls.len() == earlier.len() + 1,
        ;
        assert((polls.len() + 1) * period == (polls.len() - 1) * period + 2 * period)
            by (nonlinear_arith);
        if fired_before == earlier.len() {
            assert(fired_before * period == (polls.len() - 1) * period);
        }
    }
}

} // verus!
