//! The course of a session lock test: what to do next, given the clock and
//! what the compositor has said so far.

use vstd::prelude::*;

use crate::lock::LockSession;
use crate::lock::LockSessionView;
use crate::lock::MissingGlobal;
use crate::monitor_run::due;
use crate::monitor_run::law_seconds_are_counted_in_full;
use crate::monitor_run::seconds_from;
use crate::monitor_run::ROUND_MILLIS;

verus! {

/// Where a test stands.
#[derive(Clone, Copy, PartialEq, Eq, Structural, Debug)]
pub enum LockPhase {
    Starting,
    RegistryHeard,
    GlobalsHeard,
    /// The lock has been requested, and its surfaces are being made.
    Requested,
    /// At the top of a round.
    Round,
    /// The events of this round have been dispatched.
    Dispatched,
    Unlocked,
    Settled,
    Over,
}

/// What to do next.
#[derive(Clone, Copy, PartialEq, Eq, Structural, Debug)]
pub enum LockStep {
    /// Wait until the compositor has announced its globals.
    RoundtripRegistry,
    /// Wait until the globals have been bound.
    RoundtripGlobals,
    /// Give up: the compositor lacks a global.
    Missing { global: MissingGlobal },
    /// Request the lock.
    RequestLock,
    /// Make the lock surface of one output, counted from zero in the order in
    /// which the outputs were announced.
    CreateSurface { output: usize },
    /// Read the clock afresh.
    ReadClock,
    /// Send what is due, and dispatch what has arrived.
    Pump,
    Sleep { millis: u64 },
    /// Exit: the compositor refused or ended the lock.
    Exit { code: i32 },
    /// Unlock the session.
    Unlock,
    /// Wait until the compositor has heard of it.
    RoundtripUnlock,
    /// Say so and end.
    Finish,
}

/// A session lock test. Times are nanoseconds on one clock.
#[derive(Clone, Copy, PartialEq, Eq, Structural, Debug)]
pub struct LockRun {
    pub phase: LockPhase,
    /// How long to keep the session locked, in seconds.
    pub seconds: u64,
    /// How many outputs there were when the lock was requested.
    pub outputs: usize,
    /// How many of them have their lock surface.
    pub surfaces: usize,
    pub deadline: u128,
}

/// What a test goes by: the clock and what is known of the session.
pub struct LockInput {
    pub now: u64,
    pub session: LockSessionView,
}

impl LockRun {
    /// A test that has not begun.
    pub open spec fn fresh(seconds: u64) -> LockRun {
        LockRun { phase: LockPhase::Starting, seconds, outputs: 0, surfaces: 0, deadline: 0 }
    }

    pub open spec fn at(self, phase: LockPhase) -> LockRun {
        LockRun { phase, ..self }
    }

    /// What to do next.
    pub open spec fn step(self, now: u64, session: LockSessionView) -> LockStep {
        match self.phase {
            LockPhase::Starting => LockStep::RoundtripRegistry,
            LockPhase::RegistryHeard => LockStep::RoundtripGlobals,
            LockPhase::GlobalsHeard => if session.manager is None {
                LockStep::Missing { global: MissingGlobal::Manager }
            } else if session.compositor is None {
                LockStep::Missing { global: MissingGlobal::Compositor }
            } else {
                LockStep::RequestLock
            },
            LockPhase::Requested => if self.surfaces < self.outputs {
                LockStep::CreateSurface { output: self.surfaces }
            } else {
                LockStep::ReadClock
            },
            LockPhase::Round => if session.finished {
                LockStep::Exit { code: 1 }
            } else if now < self.deadline {
                LockStep::Pump
            } else {
                LockStep::Unlock
            },
            LockPhase::Dispatched => LockStep::Sleep { millis: ROUND_MILLIS },
            LockPhase::Unlocked => LockStep::RoundtripUnlock,
            LockPhase::Settled | LockPhase::Over => LockStep::Finish,
        }
    }

    /// Where the test stands after that.
    pub open spec fn stepped(self, now: u64, session: LockSessionView) -> LockRun {
        match self.phase {
            LockPhase::Starting => self.at(LockPhase::RegistryHeard),
            LockPhase::RegistryHeard => self.at(LockPhase::GlobalsHeard),
            LockPhase::GlobalsHeard => if session.manager is None || session.compositor is None {
                self.at(LockPhase::Over)
            } else {
                LockRun {
                    phase: LockPhase::Requested,
                    outputs: session.outputs.len() as usize,
                    surfaces: 0,
                    ..self
                }
            },
            LockPhase::Requested => if self.surfaces < self.outputs {
                LockRun { surfaces: (self.surfaces + 1) as usize, ..self }
            } else {
                LockRun {
                    phase: LockPhase::Round,
                    deadline: seconds_from(now, self.seconds),
                    ..self
                }
            },
            LockPhase::Round => if session.finished {
                self.at(LockPhase::Over)
            } else if now < self.deadline {
                self.at(LockPhase::Dispatched)
            } else {
                self.at(LockPhase::Unlocked)
            },
            LockPhase::Dispatched => self.at(LockPhase::Round),
            LockPhase::Unlocked => self.at(LockPhase::Settled),
            LockPhase::Settled | LockPhase::Over => self.at(LockPhase::Over),
        }
    }

    /// Where the test stands after a series of steps.
    pub open spec fn after_inputs(self, inputs: Seq<LockInput>) -> LockRun
        decreases inputs.len(),
    {
        if inputs.len() == 0 {
            self
        } else {
            self.after_inputs(inputs.drop_last()).stepped(
                inputs.last().now,
                inputs.last().session,
            )
        }
    }

    /// The step at a position of a series.
    pub open spec fn step_at(self, inputs: Seq<LockInput>, k: int) -> LockStep {
        self.after_inputs(inputs.take(k)).step(inputs[k].now, inputs[k].session)
    }

    /// A test that has not begun.
    pub fn new(seconds: u64) -> (r: LockRun)
        ensures
            r == LockRun::fresh(seconds),
    {
        LockRun { phase: LockPhase::Starting, seconds, outputs: 0, surfaces: 0, deadline: 0 }
    }

    /// Says what to do next.
    pub fn next(&mut self, now: u64, session: &LockSession) -> (r: LockStep)
        ensures
            r == old(self).step(now, session@),
            *final(self) == old(self).stepped(now, session@),
    {
        match self.phase {
            LockPhase::Starting => {
                self.phase = LockPhase::RegistryHeard;
                LockStep::RoundtripRegistry
            },
            LockPhase::RegistryHeard => {
                self.phase = LockPhase::GlobalsHeard;
                LockStep::RoundtripGlobals
            },
            LockPhase::GlobalsHeard => {
                if session.manager.is_none() {
                    self.phase = LockPhase::Over;
                    LockStep::Missing { global: MissingGlobal::Manager }
                } else if session.compositor.is_none() {
                    self.phase = LockPhase::Over;
                    LockStep::Missing { global: MissingGlobal::Compositor }
                } else {
                    self.phase = LockPhase::Requested;
                    self.outputs = session.outputs.len();
                    self.surfaces = 0;
                    LockStep::RequestLock
                }
            },
            LockPhase::Requested => {
                if self.surfaces < self.outputs {
                    let output = self.surfaces;
                    self.surfaces = output + 1;
                    LockStep::CreateSurface { output }
                } else {
                    self.deadline = due(now, self.seconds);
                    self.phase = LockPhase::Round;
                    LockStep::ReadClock
                }
            },
            LockPhase::Round => {
                if session.finished {
                    self.phase = LockPhase::Over;
                    LockStep::Exit { code: 1 }
                } else if (now as u128) < self.deadline {
                    self.phase = LockPhase::Dispatched;
                    LockStep::Pump
                } else {
                    self.phase = LockPhase::Unlocked;
                    LockStep::Unlock
                }
            },
            LockPhase::Dispatched => {
                self.phase = LockPhase::Round;
                LockStep::Sleep { millis: ROUND_MILLIS }
            },
            LockPhase::Unlocked => {
                self.phase = LockPhase::Settled;
                LockStep::RoundtripUnlock
            },
            LockPhase::Settled => {
                self.phase = LockPhase::Over;
                LockStep::Finish
            },
            LockPhase::Over => LockStep::Finish,
        }
    }
}

/// How far a test has come.
pub open spec fn progress(phase: LockPhase) -> int {
    match phase {
        LockPhase::Starting => 0,
        LockPhase::RegistryHeard => 1,
        LockPhase::GlobalsHeard => 2,
        LockPhase::Requested => 3,
        LockPhase::Round | LockPhase::Dispatched => 4,
        LockPhase::Unlocked => 5,
        LockPhase::Settled => 6,
        LockPhase::Over => 7,
    }
}

proof fn lemma_lock_take(run: LockRun, inputs: Seq<LockInput>, k: int)
    requires
        0 <= k < inputs.len(),
    ensures
        run.after_inputs(inputs.take(k + 1)) == run.after_inputs(inputs.take(k)).stepped(
            inputs[k].now,
            inputs[k].session,
        ),
{
    assert(inputs.take(k + 1).drop_last() =~= inputs.take(k));
}

/// A test never goes back.
pub proof fn law_test_never_goes_back(run: LockRun, inputs: Seq<LockInput>, i: int, j: int)
    requires
        0 <= i <= j <= inputs.len(),
    ensures
        progress(run.after_inputs(inputs.take(i)).phase) <= progress(
            run.after_inputs(inputs.take(j)).phase,
        ),
    decreases j - i,
{
    if i < j {
        lemma_lock_take(run, inputs, j - 1);
        law_test_never_goes_back(run, inputs, i, j - 1);
    }
}

/// A test waits for the globals, requests the lock, and makes one lock
/// surface for each output, in order; it makes no other surface. The time to
/// keep the session locked is counted from there.
pub proof fn law_one_surface_per_output(seconds: u64, inputs: Seq<LockInput>, k: int)
    requires
        inputs.len() > 2,
        inputs[2].session.manager is Some,
        inputs[2].session.compositor is Some,
        inputs[2].session.outputs.len() <= usize::MAX,
        0 <= k < inputs.len(),
    ensures
        ({
            let run = LockRun::fresh(seconds);
            let outputs = inputs[2].session.outputs.len();
            &&& k == 0 ==> run.step_at(inputs, k) == LockStep::RoundtripRegistry
            &&& k == 1 ==> run.step_at(inputs, k) == LockStep::RoundtripGlobals
            &&& k == 2 ==> run.step_at(inputs, k) == LockStep::RequestLock
            &&& 3 <= k < 3 + outputs ==> run.step_at(inputs, k) == LockStep::CreateSurface {
                output: (k - 3) as usize,
            }
            &&& k == 3 + outputs ==> run.step_at(inputs, k) == LockStep::ReadClock
                && run.after_inputs(inputs.take(k + 1)).deadline == seconds_from(
                inputs[k].now,
                seconds,
            )
            &&& k > 3 + outputs ==> !(run.step_at(inputs, k) is CreateSurface)
        }),
{
    let run = LockRun::fresh(seconds);
    let outputs = inputs[2].session.outputs.len();
    assert(run.after_inputs(inputs.take(0)) == run);
    lemma_lock_take(run, inputs, 0);
    lemma_lock_take(run, inputs, 1);
    lemma_lock_take(run, inputs, 2);
    if k >= 3 {
        if k <= 3 + outputs {
            lemma_surfaces(seconds, inputs, k);
            lemma_lock_take(run, inputs, k);
        } else {
            lemma_surfaces(seconds, inputs, (3 + outputs) as int);
            lemma_lock_take(run, inputs, (3 + outputs) as int);
            law_test_never_goes_back(run, inputs, (4 + outputs) as int, k);
        }
    }
}

proof fn lemma_surfaces(seconds: u64, inputs: Seq<LockInput>, k: int)
    requires
        inputs.len() > 2,
        inputs[2].session.manager is Some,
        inputs[2].session.compositor is Some,
        inputs[2].session.outputs.len() <= usize::MAX,
        3 <= k <= inputs.len(),
        k <= 3 + inputs[2].session.outputs.len(),
    ensures
        LockRun::fresh(seconds).after_inputs(inputs.take(k)) == (LockRun {
            phase: LockPhase::Requested,
            seconds,
            outputs: inputs[2].session.outputs.len() as usize,
            surfaces: (k - 3) as usize,
            deadline: 0,
        }),
    decreases k,
{
    let run = LockRun::fresh(seconds);
    if k == 3 {
        assert(run.after_inputs(inputs.take(0)) == run);
        lemma_lock_take(run, inputs, 0);
        lemma_lock_take(run, inputs, 1);
        lemma_lock_take(run, inputs, 2);
    } else {
        lemma_surfaces(seconds, inputs, k - 1);
        lemma_lock_take(run, inputs, k - 1);
    }
}

/// Where a global is missing, the test gives up before it requests a lock:
/// the manager is looked for first.
pub proof fn law_missing_global_ends_the_test(seconds: u64, inputs: Seq<LockInput>)
    requires
        inputs.len() > 2,
    ensures
        ({
            let run = LockRun::fresh(seconds);
            let session = inputs[2].session;
            &&& session.manager is None ==> run.step_at(inputs, 2) == LockStep::Missing {
                global: MissingGlobal::Manager,
            }
            &&& session.manager is Some && session.compositor is None ==> run.step_at(inputs, 2)
                == LockStep::Missing { global: MissingGlobal::Compositor }
            &&& session.manager is None || session.compositor is None ==> run.after_inputs(
                inputs.take(3),
            ).phase == LockPhase::Over
        }),
{
    let run = LockRun::fresh(seconds);
    assert(run.after_inputs(inputs.take(0)) == run);
    lemma_lock_take(run, inputs, 0);
    lemma_lock_take(run, inputs, 1);
    lemma_lock_take(run, inputs, 2);
}

/// The session is unlocked only when its time is up and the compositor has
/// not ended the lock; the test exits with 1 only when it has.
pub proof fn law_unlock_waits_for_the_deadline(run: LockRun, now: u64, session: LockSessionView)
    ensures
        run.step(now, session) == LockStep::Unlock <==> run.phase == LockPhase::Round && now
            >= run.deadline && !session.finished,
        run.step(now, session) == (LockStep::Exit { code: 1 }) <==> run.phase == LockPhase::Round
            && session.finished,
        run.step(now, session) is Exit ==> run.step(now, session) == (LockStep::Exit { code: 1 }),
        run.step(now, session) == LockStep::Pump <==> run.phase == LockPhase::Round && now
            < run.deadline && !session.finished,
{
}

/// The session stays locked for its seconds: they are counted from the clock
/// reading behind the last lock surface, the session is unlocked only once
/// they have passed and while the compositor has not ended the lock, and a
/// round of events begins only before that.
pub proof fn law_session_stays_locked_for_its_seconds(
    seconds: u64,
    inputs: Seq<LockInput>,
    k: int,
)
    requires
        0 <= k < inputs.len(),
        inputs.len() > 2 ==> inputs[2].session.outputs.len() <= usize::MAX,
    ensures
        ({
            let step = LockRun::fresh(seconds).step_at(inputs, k);
            let clocked = 3 + inputs[2].session.outputs.len();
            &&& step == LockStep::Unlock ==> clocked < k && !inputs[k].session.finished
                && inputs[k].now >= seconds_from(inputs[clocked as int].now, seconds)
            &&& step == LockStep::Pump ==> clocked < k && !inputs[k].session.finished
                && inputs[k].now < seconds_from(inputs[clocked as int].now, seconds)
        }),
{
    lemma_clock_is_set(seconds, inputs, k);
}

/// Once a test has set its clock, the deadline stands.
proof fn lemma_clock_is_set(seconds: u64, inputs: Seq<LockInput>, k: int)
    requires
        0 <= k <= inputs.len(),
        inputs.len() > 2 ==> inputs[2].session.outputs.len() <= usize::MAX,
    ensures
        ({
            let run = LockRun::fresh(seconds).after_inputs(inputs.take(k));
            let clocked = 3 + inputs[2].session.outputs.len();
            4 <= progress(run.phase) < 7 ==> clocked < k && run.deadline == seconds_from(
                inputs[clocked as int].now,
                seconds,
            )
        }),
    decreases k,
{
    let fresh = LockRun::fresh(seconds);
    assert(fresh.after_inputs(inputs.take(0)) == fresh);
    if k > 0 {
        lemma_lock_take(fresh, inputs, k - 1);
        lemma_clock_is_set(seconds, inputs, k - 1);
        lemma_lock_take(fresh, inputs, 0);
        if k >= 3 {
            lemma_lock_take(fresh, inputs, 1);
            lemma_lock_take(fresh, inputs, 2);
            let clocked = 3 + inputs[2].session.outputs.len();
            if inputs[2].session.manager is None || inputs[2].session.compositor is None {
                law_test_never_goes_back(fresh, inputs, 3, k);
            } else if k <= clocked {
                lemma_surfaces(seconds, inputs, k);
            } else if k == clocked + 1 {
                lemma_surfaces(seconds, inputs, k - 1);
            } else {
                lemma_surfaces(seconds, inputs, clocked as int);
                lemma_lock_take(fresh, inputs, clocked as int);
                law_test_never_goes_back(fresh, inputs, (clocked + 1) as int, k - 1);
            }
        }
    }
}

/// A test that has unlocked the session neither unlocks it again nor exits
/// with an error; one that has exited never unlocks.
pub proof fn law_unlock_and_refusal_exclude_each_other(
    run: LockRun,
    inputs: Seq<LockInput>,
    i: int,
    j: int,
)
    requires
        0 <= i < j < inputs.len(),
        run.step_at(inputs, i) == LockStep::Unlock || run.step_at(inputs, i) is Exit,
    ensures
        run.step_at(inputs, j) != LockStep::Unlock,
        !(run.step_at(inputs, j) is Exit),
{
    lemma_lock_take(run, inputs, i);
    law_test_never_goes_back(run, inputs, i + 1, j);
}

/// A test that has come to its end has unlocked the session, or else has
/// exited because the compositor ended the lock or lacked a global.
pub proof fn law_ended_test_has_unlocked(seconds: u64, inputs: Seq<LockInput>, k: int)
    requires
        0 <= k < inputs.len(),
        LockRun::fresh(seconds).step_at(inputs, k) == LockStep::Finish,
    ensures
        exists|i: int|
            0 <= i < k && ends_the_lock(#[trigger] LockRun::fresh(seconds).step_at(inputs, i)),
{
    lemma_end_has_a_cause(seconds, inputs, k);
}

/// Whether a step unlocks the session or gives up.
pub open spec fn ends_the_lock(step: LockStep) -> bool {
    step is Unlock || step is Exit || step is Missing
}

proof fn lemma_end_has_a_cause(seconds: u64, inputs: Seq<LockInput>, k: int)
    requires
        0 <= k <= inputs.len(),
        progress(LockRun::fresh(seconds).after_inputs(inputs.take(k)).phase) >= 5,
    ensures
        exists|i: int|
            0 <= i < k && ends_the_lock(#[trigger] LockRun::fresh(seconds).step_at(inputs, i)),
    decreases k,
{
    let run = LockRun::fresh(seconds);
    if k == 0 {
        assert(run.after_inputs(inputs.take(0)) == run);
    } else {
        lemma_lock_take(run, inputs, k - 1);
        if progress(run.after_inputs(inputs.take(k - 1)).phase) >= 5 {
            lemma_end_has_a_cause(seconds, inputs, k - 1);
            let i = choose|i: int|
                0 <= i < k - 1 && ends_the_lock(#[trigger] run.step_at(inputs, i));
            assert(ends_the_lock(run.step_at(inputs, i)));
        } else {
            assert(ends_the_lock(run.step_at(inputs, k - 1)));
        }
    }
}

/// The lock is requested at most once.
pub proof fn law_lock_is_requested_at_most_once(
    run: LockRun,
    inputs: Seq<LockInput>,
    i: int,
    j: int,
)
    requires
        0 <= i < j < inputs.len(),
        run.step_at(inputs, i) == LockStep::RequestLock,
    ensures
        run.step_at(inputs, j) != LockStep::RequestLock,
{
    lemma_lock_take(run, inputs, i);
    law_test_never_goes_back(run, inputs, i + 1, j);
}

/// Whether the step is that at the top of a round: the test exits if the
/// compositor has ended the lock, takes events while the session is to stay
/// locked, and unlocks it once that time is over.
pub open spec fn decides_the_round(
    step: LockStep,
    seconds: u64,
    clocked: LockInput,
    input: LockInput,
) -> bool {
    if input.session.finished {
        step == LockStep::Exit { code: 1 }
    } else if input.now < clocked.now + seconds * 1_000_000_000 {
        step == LockStep::Pump
    } else {
        step == LockStep::Unlock
    }
}

/// Each step of a test that has its surfaces follows from the one before it,
/// for every session. Behind the reading of the clock and behind every sleep
/// the round is decided; behind the events the test sleeps for 20
/// milliseconds; behind the unlocking it waits for the compositor and then
/// finishes; and the end is final.
pub proof fn law_test_goes_round_until_unlocked(seconds: u64, inputs: Seq<LockInput>, k: int)
    requires
        inputs.len() > 2,
        inputs[2].session.manager is Some,
        inputs[2].session.compositor is Some,
        inputs[2].session.outputs.len() <= usize::MAX,
        3 + inputs[2].session.outputs.len() <= k,
        k + 1 < inputs.len(),
    ensures
        ({
            let run = LockRun::fresh(seconds);
            let clocked = inputs[(3 + inputs[2].session.outputs.len()) as int];
            let next = run.step_at(inputs, k + 1);
            match run.step_at(inputs, k) {
                LockStep::ReadClock => decides_the_round(next, seconds, clocked, inputs[k + 1]),
                LockStep::Pump => next == LockStep::Sleep { millis: 20 },
                LockStep::Sleep { millis } => millis == 20 && decides_the_round(
                    next,
                    seconds,
                    clocked,
                    inputs[k + 1],
                ),
                LockStep::Unlock => next == LockStep::RoundtripUnlock,
                LockStep::RoundtripUnlock => next == LockStep::Finish,
                LockStep::Exit { code } => code == 1 && next == LockStep::Finish,
                LockStep::Finish => next == LockStep::Finish,
                _ => false,
            }
        }),
{
    let run = LockRun::fresh(seconds);
    let at = (3 + inputs[2].session.outputs.len()) as int;
    law_one_surface_per_output(seconds, inputs, k);
    lemma_lock_take(run, inputs, k);
    lemma_clock_is_set(seconds, inputs, k);
    lemma_clock_is_set(seconds, inputs, k + 1);
    law_seconds_are_counted_in_full(inputs[at].now, seconds);
    lemma_surfaces(seconds, inputs, at);
    lemma_lock_take(run, inputs, at);
    if k > at {
        law_test_never_goes_back(run, inputs, at + 1, k);
    }
}

/// From any state in which events have just been dispatched, the test sleeps
/// and then decides again, for every session that is known by then.
pub proof fn law_every_round_is_followed_by_another(run: LockRun, inputs: Seq<LockInput>, k: int)
    requires
        0 <= k,
        k + 2 < inputs.len(),
        run.step_at(inputs, k) == LockStep::Pump,
    ensures
        run.step_at(inputs, k + 1) == (LockStep::Sleep { millis: 20 }),
        run.step_at(inputs, k + 2) == (if inputs[k + 2].session.finished {
            LockStep::Exit { code: 1 }
        } else if inputs[k + 2].now >= run.after_inputs(inputs.take(k)).deadline {
            LockStep::Unlock
        } else {
            LockStep::Pump
        }),
{
    lemma_lock_take(run, inputs, k);
    lemma_lock_take(run, inputs, k + 1);
}

/// A test that gave up for want of a global does nothing more.
pub proof fn law_nothing_follows_a_missing_global(seconds: u64, inputs: Seq<LockInput>, k: int)
    requires
        2 < k < inputs.len(),
        inputs[2].session.manager is None || inputs[2].session.compositor is None,
    ensures
        LockRun::fresh(seconds).step_at(inputs, k) == LockStep::Finish,
{
    law_missing_global_ends_the_test(seconds, inputs);
    law_test_never_goes_back(LockRun::fresh(seconds), inputs, 3, k);
}

/// A test whose clock passes the deadline, and whose lock the compositor does
/// not end, unlocks the session: by the third step from there at the latest.
pub proof fn law_session_is_unlocked_in_the_end(seconds: u64, inputs: Seq<LockInput>, k: int)
    requires
        inputs.len() > 2,
        inputs[2].session.manager is Some,
        inputs[2].session.compositor is Some,
        inputs[2].session.outputs.len() <= usize::MAX,
        3 + inputs[2].session.outputs.len() < k,
        k + 2 < inputs.len(),
        forall|i: int|
            3 + inputs[2].session.outputs.len() < i < inputs.len()
                ==> !(#[trigger] inputs[i]).session.finished,
        forall|i: int|
            k <= i <= k + 2 ==> (#[trigger] inputs[i]).now >= inputs[(3
                + inputs[2].session.outputs.len()) as int].now + seconds * 1_000_000_000,
    ensures
        exists|i: int|
            0 <= i <= k + 2 && #[trigger] LockRun::fresh(seconds).step_at(inputs, i)
                == LockStep::Unlock,
{
    let run = LockRun::fresh(seconds);
    let at = (3 + inputs[2].session.outputs.len()) as int;
    law_one_surface_per_output(seconds, inputs, at);
    lemma_unlocked_or_going(seconds, inputs, k);
    if !unlocked_by(run, inputs, k) {
        law_test_goes_round_until_unlocked(seconds, inputs, k);
        law_test_goes_round_until_unlocked(seconds, inputs, k + 1);
        let step = run.step_at(inputs, k);
        if step == LockStep::Pump {
            assert(run.step_at(inputs, k + 2) == LockStep::Unlock);
        } else {
            assert(run.step_at(inputs, k + 1) == LockStep::Unlock);
        }
    } else {
        let i = choose|i: int|
            0 <= i <= k && #[trigger] run.step_at(inputs, i) == LockStep::Unlock;
        assert(run.step_at(inputs, i) == LockStep::Unlock);
    }
}

/// Whether the session has been unlocked by a step.
pub open spec fn unlocked_by(run: LockRun, inputs: Seq<LockInput>, k: int) -> bool {
    exists|i: int| 0 <= i <= k && #[trigger] run.step_at(inputs, i) == LockStep::Unlock
}

proof fn lemma_unlocked_or_going(seconds: u64, inputs: Seq<LockInput>, k: int)
    requires
        inputs.len() > 2,
        inputs[2].session.manager is Some,
        inputs[2].session.compositor is Some,
        inputs[2].session.outputs.len() <= usize::MAX,
        3 + inputs[2].session.outputs.len() <= k < inputs.len(),
        forall|i: int|
            3 + inputs[2].session.outputs.len() < i < inputs.len()
                ==> !(#[trigger] inputs[i]).session.finished,
    ensures
        unlocked_by(LockRun::fresh(seconds), inputs, k) || {
            let step = LockRun::fresh(seconds).step_at(inputs, k);
            step == LockStep::Pump || step is Sleep || step == LockStep::ReadClock
        },
    decreases k,
{
    let run = LockRun::fresh(seconds);
    let at = (3 + inputs[2].session.outputs.len()) as int;
    if k == at {
        law_one_surface_per_output(seconds, inputs, at);
    } else {
        lemma_unlocked_or_going(seconds, inputs, k - 1);
        if unlocked_by(run, inputs, k - 1) {
            let i = choose|i: int|
                0 <= i <= k - 1 && #[trigger] run.step_at(inputs, i) == LockStep::Unlock;
            assert(run.step_at(inputs, i) == LockStep::Unlock);
        } else {
            law_test_goes_round_until_unlocked(seconds, inputs, k - 1);
            if run.step_at(inputs, k) == LockStep::Unlock {
                assert(unlocked_by(run, inputs, k));
            }
        }
    }
}

} // verus!
