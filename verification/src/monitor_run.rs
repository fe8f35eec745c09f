//! The course of a monitor run: what to do next, given the clock and what
//! has been announced so far.

use vstd::prelude::*;

verus! {

/// How long to sleep between two rounds of events, in milliseconds.
pub const ROUND_MILLIS: u64 = 20;

/// The nanoseconds of a second.
pub const SECOND: u128 = 1_000_000_000;

/// Where a run stands.
#[derive(Clone, Copy, PartialEq, Eq, Structural, Debug)]
pub enum MonitorPhase {
    Starting,
    GlobalsHeard,
    OutputsHeard,
    Bound,
    DeadlineSet,
    /// At the top of a round.
    Round,
    /// The events of this round have been dispatched.
    Dispatched,
    /// The requests have been sent in this round.
    Acted,
    Over,
}

/// What to do next.
#[derive(Clone, Copy, PartialEq, Eq, Structural, Debug)]
pub enum MonitorStep {
    /// Wait until the compositor has announced its globals.
    RoundtripRegistry,
    /// Wait until the outputs have told their names.
    RoundtripOutputs,
    /// Bind the toplevel manager.
    BindManager { name: u32, version: u32 },
    /// Give up: the compositor has no toplevel manager.
    MissingManager,
    /// Read the clock afresh.
    ReadClock,
    /// Send what is due, and dispatch what has arrived.
    Pump,
    /// Send the minimize requests.
    Act,
    Sleep { millis: u64 },
    /// Print the summary and exit.
    Finish,
}

/// A monitor run. Times are nanoseconds on one clock.
#[derive(Clone, Copy, PartialEq, Eq, Structural, Debug)]
pub struct MonitorRun {
    pub phase: MonitorPhase,
    /// How long to watch, in seconds.
    pub seconds: u64,
    /// How long to wait before the requests are sent, in seconds.
    pub after: u64,
    pub deadline: u128,
    pub action_at: u128,
    pub action_sent: bool,
}

/// What a run goes by: the clock, and the global of the toplevel manager.
#[derive(Clone, Copy, Debug)]
pub struct MonitorInput {
    pub now: u64,
    pub manager: Option<(u32, u32)>,
}

/// The time a number of seconds from now.
pub open spec fn seconds_from(now: u64, seconds: u64) -> u128 {
    (now + seconds * SECOND) as u128
}

/// The time a number of seconds from now, in nanoseconds.
pub fn due(now: u64, seconds: u64) -> (r: u128)
    ensures
        r == seconds_from(now, seconds),
        r == now + seconds * 1_000_000_000,
{
    assert(seconds as int * 1_000_000_000 <= u64::MAX * 1_000_000_000) by (nonlinear_arith)
        requires
            seconds <= u64::MAX,
    ;
    now as u128 + seconds as u128 * SECOND
}

impl MonitorRun {
    /// A run that has not begun.
    pub open spec fn fresh(seconds: u64, after: u64) -> MonitorRun {
        MonitorRun {
            phase: MonitorPhase::Starting,
            seconds,
            after,
            deadline: 0,
            action_at: 0,
            action_sent: false,
        }
    }

    pub open spec fn at(self, phase: MonitorPhase) -> MonitorRun {
        MonitorRun { phase, ..self }
    }

    /// Whether the requests are to be sent now.
    pub open spec fn action_due(self, now: u64) -> bool {
        !self.action_sent && now >= self.action_at
    }

    /// What to do next.
    pub open spec fn step(self, input: MonitorInput) -> MonitorStep {
        match self.phase {
            MonitorPhase::Starting => MonitorStep::RoundtripRegistry,
            MonitorPhase::GlobalsHeard => MonitorStep::RoundtripOutputs,
            MonitorPhase::OutputsHeard => match input.manager {
                Some((name, version)) => MonitorStep::BindManager { name, version },
                None => MonitorStep::MissingManager,
            },
            MonitorPhase::Bound | MonitorPhase::DeadlineSet => MonitorStep::ReadClock,
            MonitorPhase::Round => if input.now < self.deadline {
                MonitorStep::Pump
            } else {
                MonitorStep::Finish
            },
            MonitorPhase::Dispatched => if self.action_due(input.now) {
                MonitorStep::Act
            } else {
                MonitorStep::Sleep { millis: ROUND_MILLIS }
            },
            MonitorPhase::Acted => MonitorStep::Sleep { millis: ROUND_MILLIS },
            MonitorPhase::Over => MonitorStep::Finish,
        }
    }

    /// Where the run stands after that.
    pub open spec fn stepped(self, input: MonitorInput) -> MonitorRun {
        match self.phase {
            MonitorPhase::Starting => self.at(MonitorPhase::GlobalsHeard),
            MonitorPhase::GlobalsHeard => self.at(MonitorPhase::OutputsHeard),
            MonitorPhase::OutputsHeard => if input.manager is Some {
                self.at(MonitorPhase::Bound)
            } else {
                self.at(MonitorPhase::Over)
            },
            MonitorPhase::Bound => MonitorRun {
                phase: MonitorPhase::DeadlineSet,
                deadline: seconds_from(input.now, self.seconds),
                ..self
            },
            MonitorPhase::DeadlineSet => MonitorRun {
                phase: MonitorPhase::Round,
                action_at: seconds_from(input.now, self.after),
                ..self
            },
            MonitorPhase::Round => if input.now < self.deadline {
                self.at(MonitorPhase::Dispatched)
            } else {
                self.at(MonitorPhase::Over)
            },
            MonitorPhase::Dispatched => if self.action_due(input.now) {
                MonitorRun { phase: MonitorPhase::Acted, action_sent: true, ..self }
            } else {
                self.at(MonitorPhase::Round)
            },
            MonitorPhase::Acted => self.at(MonitorPhase::Round),
            MonitorPhase::Over => self,
        }
    }

    /// Where the run stands after a series of steps.
    pub open spec fn after_inputs(self, inputs: Seq<MonitorInput>) -> MonitorRun
        decreases inputs.len(),
    {
        if inputs.len() == 0 {
            self
        } else {
            self.after_inputs(inputs.drop_last()).stepped(inputs.last())
        }
    }

    /// The step at a position of a series.
    pub open spec fn step_at(self, inputs: Seq<MonitorInput>, k: int) -> MonitorStep {
        self.after_inputs(inputs.take(k)).step(inputs[k])
    }

    /// A run that has not begun.
    pub fn new(seconds: u64, after: u64) -> (r: MonitorRun)
        ensures
            r == MonitorRun::fresh(seconds, after),
    {
        MonitorRun {
            phase: MonitorPhase::Starting,
            seconds,
            after,
            deadline: 0,
            action_at: 0,
            action_sent: false,
        }
    }

    /// Says what to do next.
    pub fn next(&mut self, input: MonitorInput) -> (r: MonitorStep)
        ensures
            r == old(self).step(input),
            *final(self) == old(self).stepped(input),
    {
        match self.phase {
            MonitorPhase::Starting => {
                self.phase = MonitorPhase::GlobalsHeard;
                MonitorStep::RoundtripRegistry
            },
            MonitorPhase::GlobalsHeard => {
                self.phase = MonitorPhase::OutputsHeard;
                MonitorStep::RoundtripOutputs
            },
            MonitorPhase::OutputsHeard => match input.manager {
                Some((name, version)) => {
                    self.phase = MonitorPhase::Bound;
                    MonitorStep::BindManager { name, version }
                },
                None => {
                    self.phase = MonitorPhase::Over;
                    MonitorStep::MissingManager
                },
            },
            MonitorPhase::Bound => {
                self.deadline = due(input.now, self.seconds);
                self.phase = MonitorPhase::DeadlineSet;
                MonitorStep::ReadClock
            },
            MonitorPhase::DeadlineSet => {
                self.action_at = due(input.now, self.after);
                self.phase = MonitorPhase::Round;
                MonitorStep::ReadClock
            },
            MonitorPhase::Round => {
                if (input.now as u128) < self.deadline {
                    self.phase = MonitorPhase::Dispatched;
                    MonitorStep::Pump
                } else {
                    self.phase = MonitorPhase::Over;
                    MonitorStep::Finish
                }
            },
            MonitorPhase::Dispatched => {
                if !self.action_sent && input.now as u128 >= self.action_at {
                    self.action_sent = true;
                    self.phase = MonitorPhase::Acted;
                    MonitorStep::Act
                } else {
                    self.phase = MonitorPhase::Round;
                    MonitorStep::Sleep { millis: ROUND_MILLIS }
                }
            },
            MonitorPhase::Acted => {
                self.phase = MonitorPhase::Round;
                MonitorStep::Sleep { millis: ROUND_MILLIS }
            },
            MonitorPhase::Over => MonitorStep::Finish,
        }
    }
}

/// A run starts by waiting for the globals and for the outputs; only then is
/// the toplevel manager bound, and only if there is one. The time to watch
/// and the time to wait are counted from there.
pub proof fn law_manager_is_bound_after_outputs(
    seconds: u64,
    after: u64,
    inputs: Seq<MonitorInput>,
)
    requires
        inputs.len() >= 5,
    ensures
        ({
            let run = MonitorRun::fresh(seconds, after);
            &&& run.step_at(inputs, 0) == MonitorStep::RoundtripRegistry
            &&& run.step_at(inputs, 1) == MonitorStep::RoundtripOutputs
            &&& match inputs[2].manager {
                Some((name, version)) => {
                    &&& run.step_at(inputs, 2) == MonitorStep::BindManager { name, version }
                    &&& run.after_inputs(inputs.take(5)) == MonitorRun {
                        phase: MonitorPhase::Round,
                        deadline: seconds_from(inputs[3].now, seconds),
                        action_at: seconds_from(inputs[4].now, after),
                        ..run
                    }
                },
                None => {
                    &&& run.step_at(inputs, 2) == MonitorStep::MissingManager
                    &&& run.after_inputs(inputs.take(5)).phase == MonitorPhase::Over
                },
            }
        }),
{
    let run = MonitorRun::fresh(seconds, after);
    assert(run.after_inputs(inputs.take(0)) == run);
    lemma_monitor_take(run, inputs, 0);
    lemma_monitor_take(run, inputs, 1);
    lemma_monitor_take(run, inputs, 2);
    lemma_monitor_take(run, inputs, 3);
    lemma_monitor_take(run, inputs, 4);
}

proof fn lemma_monitor_take(run: MonitorRun, inputs: Seq<MonitorInput>, k: int)
    requires
        0 <= k < inputs.len(),
    ensures
        run.after_inputs(inputs.take(k + 1)) == run.after_inputs(inputs.take(k)).stepped(inputs[k]),
{
    assert(inputs.take(k + 1).drop_last() =~= inputs.take(k));
}

/// The requests are sent once the time to wait is over, and not before; no
/// round of events begins at or after the deadline, and none is left out
/// before it.
pub proof fn law_monitor_keeps_its_times(run: MonitorRun, input: MonitorInput)
    ensures
        run.step(input) == MonitorStep::Act ==> input.now >= run.action_at && !run.action_sent,
        run.step(input) == MonitorStep::Pump ==> input.now < run.deadline,
        run.phase == MonitorPhase::Dispatched && input.now >= run.action_at ==> run.step(input)
            == MonitorStep::Act || run.action_sent,
        run.phase == MonitorPhase::Round ==> (run.step(input) == MonitorStep::Finish <==> input.now
            >= run.deadline),
{
}

/// Over a whole run: the requests go out only once the time to wait has
/// passed, a round of events begins only before the time to watch is over,
/// and both are counted from the clock readings behind the binding of the
/// manager.
pub proof fn law_run_keeps_its_times(
    seconds: u64,
    after: u64,
    inputs: Seq<MonitorInput>,
    k: int,
)
    requires
        0 <= k < inputs.len(),
    ensures
        ({
            let step = MonitorRun::fresh(seconds, after).step_at(inputs, k);
            &&& step == MonitorStep::Act ==> k > 4 && inputs[k].now >= seconds_from(
                inputs[4].now,
                after,
            )
            &&& step == MonitorStep::Pump ==> k > 4 && inputs[k].now < seconds_from(
                inputs[3].now,
                seconds,
            )
            &&& step == MonitorStep::Finish && inputs[2].manager is Some ==> exists|i: int|
                4 < i <= k && (#[trigger] inputs[i]).now >= seconds_from(inputs[3].now, seconds)
        }),
{
    lemma_times_are_set(seconds, after, inputs, k);
}

/// Once a run has set its times, they stand.
proof fn lemma_times_are_set(seconds: u64, after: u64, inputs: Seq<MonitorInput>, k: int)
    requires
        0 <= k <= inputs.len(),
    ensures
        ({
            let run = MonitorRun::fresh(seconds, after).after_inputs(inputs.take(k));
            &&& run.phase == MonitorPhase::Round || run.phase == MonitorPhase::Dispatched
                || run.phase == MonitorPhase::Acted ==> k > 4 && run.deadline == seconds_from(
                inputs[3].now,
                seconds,
            ) && run.action_at == seconds_from(inputs[4].now, after)
            &&& run.phase == MonitorPhase::Over && inputs[2].manager is Some ==> exists|i: int|
                4 < i < k && (#[trigger] inputs[i]).now >= seconds_from(inputs[3].now, seconds)
        }),
    decreases k,
{
    let fresh = MonitorRun::fresh(seconds, after);
    assert(fresh.after_inputs(inputs.take(0)) == fresh);
    if k > 0 {
        lemma_monitor_take(fresh, inputs, k - 1);
        lemma_times_are_set(seconds, after, inputs, k - 1);
        if k <= 5 {
            lemma_monitor_take(fresh, inputs, 0);
            if k > 1 {
                lemma_monitor_take(fresh, inputs, 1);
            }
            if k > 2 {
                lemma_monitor_take(fresh, inputs, 2);
            }
            if k > 3 {
                lemma_monitor_take(fresh, inputs, 3);
            }
            if k > 4 {
                lemma_monitor_take(fresh, inputs, 4);
            }
        } else {
            law_manager_is_bound_after_outputs(seconds, after, inputs);
            lemma_start_is_over(fresh, inputs, k - 1);
        }
    }
}

/// From the sixth step on a run is past its start.
proof fn lemma_start_is_over(run: MonitorRun, inputs: Seq<MonitorInput>, k: int)
    requires
        run.phase == MonitorPhase::Starting,
        5 <= k <= inputs.len(),
    ensures
        ({
            let phase = run.after_inputs(inputs.take(k)).phase;
            phase == MonitorPhase::Round || phase == MonitorPhase::Dispatched || phase
                == MonitorPhase::Acted || phase == MonitorPhase::Over
        }),
    decreases k,
{
    if k == 5 {
        assert(run.after_inputs(inputs.take(0)) == run);
        lemma_monitor_take(run, inputs, 0);
        lemma_monitor_take(run, inputs, 1);
        lemma_monitor_take(run, inputs, 2);
        lemma_monitor_take(run, inputs, 3);
        lemma_monitor_take(run, inputs, 4);
    } else {
        lemma_start_is_over(run, inputs, k - 1);
        lemma_monitor_take(run, inputs, k - 1);
    }
}

/// Once a run has sent its requests, it never sends them again.
pub proof fn law_requests_are_sent_at_most_once(
    run: MonitorRun,
    inputs: Seq<MonitorInput>,
    i: int,
    j: int,
)
    requires
        0 <= i < j < inputs.len(),
        run.step_at(inputs, i) == MonitorStep::Act,
    ensures
        run.step_at(inputs, j) != MonitorStep::Act,
{
    lemma_monitor_take(run, inputs, i);
    lemma_sent_stays(run, inputs, i + 1, j);
}

proof fn lemma_sent_stays(run: MonitorRun, inputs: Seq<MonitorInput>, i: int, j: int)
    requires
        0 <= i <= j <= inputs.len(),
        run.after_inputs(inputs.take(i)).action_sent,
    ensures
        run.after_inputs(inputs.take(j)).action_sent,
    decreases j - i,
{
    if i < j {
        lemma_monitor_take(run, inputs, i);
        lemma_sent_stays(run, inputs, i + 1, j);
    }
}

/// A run that has ended stays ended.
pub proof fn law_monitor_stays_over(run: MonitorRun, inputs: Seq<MonitorInput>, i: int, j: int)
    requires
        0 <= i <= j < inputs.len(),
        run.step_at(inputs, i) == MonitorStep::Finish,
    ensures
        run.step_at(inputs, j) == MonitorStep::Finish,
    decreases j - i,
{
    if i < j {
        lemma_monitor_take(run, inputs, i);
        assert(run.step_at(inputs, i + 1) == MonitorStep::Finish);
        law_monitor_stays_over(run, inputs, i + 1, j);
    }
}

/// A number of seconds from now is that many times a thousand million
/// nanoseconds, for every clock and every number.
pub proof fn law_seconds_are_counted_in_full(now: u64, seconds: u64)
    ensures
        seconds_from(now, seconds) == now + seconds * 1_000_000_000,
{
    assert(seconds as int * 1_000_000_000 <= u64::MAX * 1_000_000_000) by (nonlinear_arith)
        requires
            seconds <= u64::MAX,
    ;
}

/// Whether the requests have been sent by the time of a step.
pub open spec fn acted_before(run: MonitorRun, inputs: Seq<MonitorInput>, k: int) -> bool {
    exists|i: int| 0 <= i < k && #[trigger] run.step_at(inputs, i) == MonitorStep::Act
}

/// The first steps of a run, with a manager: two waits, the binding, and two
/// readings of the clock.
pub proof fn law_monitor_starts_in_order(seconds: u64, after: u64, inputs: Seq<MonitorInput>)
    requires
        inputs.len() >= 5,
        inputs[2].manager is Some,
    ensures
        ({
            let run = MonitorRun::fresh(seconds, after);
            &&& run.step_at(inputs, 0) == MonitorStep::RoundtripRegistry
            &&& run.step_at(inputs, 1) == MonitorStep::RoundtripOutputs
            &&& inputs[2].manager matches Some((name, version)) && run.step_at(inputs, 2) == (
            MonitorStep::BindManager { name, version })
            &&& run.step_at(inputs, 3) == MonitorStep::ReadClock
            &&& run.step_at(inputs, 4) == MonitorStep::ReadClock
        }),
{
    let run = MonitorRun::fresh(seconds, after);
    law_manager_is_bound_after_outputs(seconds, after, inputs);
    assert(run.after_inputs(inputs.take(0)) == run);
    lemma_monitor_take(run, inputs, 0);
    lemma_monitor_take(run, inputs, 1);
    lemma_monitor_take(run, inputs, 2);
    lemma_monitor_take(run, inputs, 3);
}

/// Whether the step is that at the top of a round: events are taken while the
/// time to watch lasts, and the run finishes once it is over.
pub open spec fn decides_the_round(
    step: MonitorStep,
    seconds: u64,
    inputs: Seq<MonitorInput>,
    k: int,
) -> bool {
    if inputs[k].now < inputs[3].now + seconds * 1_000_000_000 {
        step == MonitorStep::Pump
    } else {
        step == MonitorStep::Finish
    }
}

/// Each step of a started run follows from the one before it. Behind the start
/// and behind every sleep, the clock decides between a round of events and the
/// end. Behind the events, the requests are sent if the time to wait is over
/// and they have not been sent yet; otherwise, and behind the requests, the
/// run sleeps for 20 milliseconds. The end is final.
pub proof fn law_monitor_goes_round_and_round(
    seconds: u64,
    after: u64,
    inputs: Seq<MonitorInput>,
    k: int,
)
    requires
        4 <= k,
        k + 1 < inputs.len(),
        inputs[2].manager is Some,
    ensures
        ({
            let run = MonitorRun::fresh(seconds, after);
            let next = run.step_at(inputs, k + 1);
            match run.step_at(inputs, k) {
                MonitorStep::ReadClock => decides_the_round(next, seconds, inputs, k + 1),
                MonitorStep::Sleep { millis } => millis == 20 && decides_the_round(
                    next,
                    seconds,
                    inputs,
                    k + 1,
                ),
                MonitorStep::Pump => if inputs[k + 1].now >= inputs[4].now + after * 1_000_000_000
                    && !acted_before(run, inputs, k) {
                    next == MonitorStep::Act
                } else {
                    next == MonitorStep::Sleep { millis: 20 }
                },
                MonitorStep::Act => next == MonitorStep::Sleep { millis: 20 },
                MonitorStep::Finish => next == MonitorStep::Finish,
                _ => false,
            }
        }),
{
    let run = MonitorRun::fresh(seconds, after);
    law_monitor_starts_in_order(seconds, after, inputs);
    law_manager_is_bound_after_outputs(seconds, after, inputs);
    law_seconds_are_counted_in_full(inputs[3].now, seconds);
    law_seconds_are_counted_in_full(inputs[4].now, after);
    lemma_monitor_take(run, inputs, k);
    lemma_times_are_set(seconds, after, inputs, k);
    lemma_times_are_set(seconds, after, inputs, k + 1);
    lemma_sent_means_acted(run, inputs, k);
    if k > 4 {
        lemma_start_is_over(run, inputs, k);
    }
}

proof fn lemma_sent_means_acted(run: MonitorRun, inputs: Seq<MonitorInput>, k: int)
    requires
        0 <= k <= inputs.len(),
        !run.action_sent,
    ensures
        run.after_inputs(inputs.take(k)).action_sent <==> acted_before(run, inputs, k),
    decreases k,
{
    if k == 0 {
        assert(run.after_inputs(inputs.take(0)) == run);
    } else {
        lemma_sent_means_acted(run, inputs, k - 1);
        lemma_monitor_take(run, inputs, k - 1);
        if acted_before(run, inputs, k - 1) {
            let i = choose|i: int|
                0 <= i < k - 1 && #[trigger] run.step_at(inputs, i) == MonitorStep::Act;
            assert(run.step_at(inputs, i) == MonitorStep::Act);
        }
        if run.step_at(inputs, k - 1) == MonitorStep::Act {
            assert(acted_before(run, inputs, k));
        }
        if acted_before(run, inputs, k) {
            let i = choose|i: int|
                0 <= i < k && #[trigger] run.step_at(inputs, i) == MonitorStep::Act;
            if i < k - 1 {
                assert(acted_before(run, inputs, k - 1));
            }
        }
    }
}

/// Without a manager a run gives up and does nothing more.
pub proof fn law_missing_manager_ends_the_run(
    seconds: u64,
    after: u64,
    inputs: Seq<MonitorInput>,
    k: int,
)
    requires
        2 < k < inputs.len(),
        inputs[2].manager is None,
    ensures
        MonitorRun::fresh(seconds, after).step_at(inputs, 2) == MonitorStep::MissingManager,
        MonitorRun::fresh(seconds, after).step_at(inputs, k) == MonitorStep::Finish,
{
    let run = MonitorRun::fresh(seconds, after);
    assert(run.after_inputs(inputs.take(0)) == run);
    lemma_monitor_take(run, inputs, 0);
    lemma_monitor_take(run, inputs, 1);
    lemma_monitor_take(run, inputs, 2);
    assert(run.step_at(inputs, 3) == MonitorStep::Finish);
    law_monitor_stays_over(run, inputs, 3, k);
}

} // verus!
