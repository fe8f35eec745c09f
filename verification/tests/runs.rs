use shoji_probe::lock::LockEvent;
use shoji_probe::lock::LockSession;
use shoji_probe::lock::MissingGlobal;
use shoji_probe::lock_run::LockRun;
use shoji_probe::lock_run::LockStep;
use shoji_probe::monitor_run::due;
use shoji_probe::monitor_run::MonitorInput;
use shoji_probe::monitor_run::MonitorRun;
use shoji_probe::monitor_run::MonitorStep;

const SECOND: u64 = 1_000_000_000;

fn input(now: u64) -> MonitorInput {
    MonitorInput { now, manager: Some((9, 3)) }
}

/// A run of two seconds that acts after one, with its clocks set at zero.
fn started() -> MonitorRun {
    let mut run = MonitorRun::new(2, 1);
    for _ in 0..5 {
        run.next(input(0));
    }
    run
}

fn session(outputs: u32) -> LockSession {
    let mut session = LockSession::new();
    session.global(1, "wl_compositor", 6);
    session.global(2, "wl_shm", 1);
    session.global(3, "ext_session_lock_manager_v1", 1);
    for name in 0..outputs {
        session.global(10 + name, "wl_output", 4);
    }
    session
}

#[test]
fn times_are_counted_in_nanoseconds() {
    assert_eq!(due(5, 3), 3_000_000_005);
    assert_eq!(due(u64::MAX, u64::MAX), u64::MAX as u128 * 1_000_000_001);
}

#[test]
fn manager_is_bound_after_two_roundtrips() {
    let mut run = MonitorRun::new(2, 1);
    assert_eq!(run.next(input(0)), MonitorStep::RoundtripRegistry);
    assert_eq!(run.next(input(0)), MonitorStep::RoundtripOutputs);
    assert_eq!(run.next(input(0)), MonitorStep::BindManager { name: 9, version: 3 });
    assert_eq!(run.next(input(7)), MonitorStep::ReadClock);
    assert_eq!(run.next(input(8)), MonitorStep::ReadClock);
    assert_eq!(run.deadline, 2_000_000_007);
    assert_eq!(run.action_at, 1_000_000_008);
}

#[test]
fn missing_manager_ends_the_run() {
    let mut run = MonitorRun::new(2, 1);
    let nothing = MonitorInput { now: 0, manager: None };
    run.next(nothing);
    run.next(nothing);
    assert_eq!(run.next(nothing), MonitorStep::MissingManager);
    assert_eq!(run.next(input(0)), MonitorStep::Finish);
}

#[test]
fn requests_go_out_once_when_due() {
    let mut run = started();
    assert_eq!(run.next(input(0)), MonitorStep::Pump);
    assert_eq!(run.next(input(SECOND - 1)), MonitorStep::Sleep { millis: 20 });
    assert_eq!(run.next(input(SECOND - 1)), MonitorStep::Pump);
    assert_eq!(run.next(input(SECOND)), MonitorStep::Act);
    assert_eq!(run.next(input(SECOND)), MonitorStep::Sleep { millis: 20 });
    assert_eq!(run.next(input(SECOND)), MonitorStep::Pump);
    assert_eq!(run.next(input(SECOND + 1)), MonitorStep::Sleep { millis: 20 });
}

#[test]
fn run_ends_at_the_deadline() {
    let mut run = started();
    assert_eq!(run.next(input(2 * SECOND - 1)), MonitorStep::Pump);
    assert_eq!(run.next(input(2 * SECOND)), MonitorStep::Act);
    assert_eq!(run.next(input(2 * SECOND)), MonitorStep::Sleep { millis: 20 });
    assert_eq!(run.next(input(2 * SECOND)), MonitorStep::Finish);
    assert_eq!(run.next(input(0)), MonitorStep::Finish);
}

#[test]
fn late_requests_are_never_sent() {
    let mut run = MonitorRun::new(1, 5);
    for _ in 0..5 {
        run.next(input(0));
    }
    assert_eq!(run.next(input(0)), MonitorStep::Pump);
    assert_eq!(run.next(input(2 * SECOND)), MonitorStep::Sleep { millis: 20 });
    assert_eq!(run.next(input(6 * SECOND)), MonitorStep::Finish);
}

#[test]
fn each_output_gets_one_surface() {
    let s = session(2);
    let mut run = LockRun::new(1);
    assert_eq!(run.next(0, &s), LockStep::RoundtripRegistry);
    assert_eq!(run.next(0, &s), LockStep::RoundtripGlobals);
    assert_eq!(run.next(0, &s), LockStep::RequestLock);
    assert_eq!(run.next(0, &s), LockStep::CreateSurface { output: 0 });
    assert_eq!(run.next(0, &s), LockStep::CreateSurface { output: 1 });
    assert_eq!(run.next(4, &s), LockStep::ReadClock);
    assert_eq!(run.deadline, 1_000_000_004);
    assert_eq!(run.next(4, &s), LockStep::Pump);
    assert_eq!(run.next(4, &s), LockStep::Sleep { millis: 20 });
}

#[test]
fn lock_time_counts_from_the_last_surface() {
    let s = session(1);
    let mut run = LockRun::new(1);
    for now in [1, 2, 3, 4] {
        run.next(now, &s);
    }
    assert_eq!(run.next(500, &s), LockStep::ReadClock);
    assert_eq!(run.next(SECOND + 499, &s), LockStep::Pump);
    assert_eq!(run.next(SECOND + 499, &s), LockStep::Sleep { millis: 20 });
    assert_eq!(run.next(SECOND + 500, &s), LockStep::Unlock);
}

#[test]
fn monitor_times_count_from_the_binding() {
    let mut run = MonitorRun::new(2, 1);
    for now in [1, 2, 3, 100, 200] {
        run.next(input(now));
    }
    assert_eq!(run.next(input(SECOND)), MonitorStep::Pump);
    assert_eq!(run.next(input(SECOND + 199)), MonitorStep::Sleep { millis: 20 });
    assert_eq!(run.next(input(SECOND + 199)), MonitorStep::Pump);
    assert_eq!(run.next(input(SECOND + 200)), MonitorStep::Act);
    assert_eq!(run.next(input(SECOND + 200)), MonitorStep::Sleep { millis: 20 });
    assert_eq!(run.next(input(2 * SECOND + 99)), MonitorStep::Pump);
    assert_eq!(run.next(input(2 * SECOND + 99)), MonitorStep::Sleep { millis: 20 });
    assert_eq!(run.next(input(2 * SECOND + 100)), MonitorStep::Finish);
}

#[test]
fn session_is_unlocked_when_time_is_up() {
    let s = session(0);
    let mut run = LockRun::new(1);
    for _ in 0..4 {
        run.next(0, &s);
    }
    assert_eq!(run.next(SECOND - 1, &s), LockStep::Pump);
    assert_eq!(run.next(SECOND, &s), LockStep::Sleep { millis: 20 });
    assert_eq!(run.next(SECOND, &s), LockStep::Unlock);
    assert_eq!(run.next(SECOND, &s), LockStep::RoundtripUnlock);
    assert_eq!(run.next(SECOND, &s), LockStep::Finish);
    assert_eq!(run.next(SECOND, &s), LockStep::Finish);
}

#[test]
fn ended_lock_is_not_unlocked() {
    let mut s = session(1);
    let mut run = LockRun::new(1);
    for _ in 0..5 {
        run.next(0, &s);
    }
    assert_eq!(run.next(0, &s), LockStep::Pump);
    s.lock_event(LockEvent::Finished, "S");
    assert_eq!(run.next(0, &s), LockStep::Sleep { millis: 20 });
    assert_eq!(run.next(5 * SECOND, &s), LockStep::Exit { code: 1 });
    assert_eq!(run.next(5 * SECOND, &s), LockStep::Finish);
}

#[test]
fn missing_globals_end_the_test() {
    let mut s = LockSession::new();
    let mut run = LockRun::new(1);
    run.next(0, &s);
    run.next(0, &s);
    let mut other = run;
    assert_eq!(run.next(0, &s), LockStep::Missing { global: MissingGlobal::Manager });
    assert_eq!(run.next(0, &s), LockStep::Finish);
    s.global(3, "ext_session_lock_manager_v1", 1);
    assert_eq!(other.next(0, &s), LockStep::Missing { global: MissingGlobal::Compositor });
}
