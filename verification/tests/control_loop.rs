use fan_control::control::run_session;
use fan_control::control::FanController;
use fan_control::control::LoopPhase;
use fan_control::control::StatusRecord;
use fan_control::control::TickEvent;

fn reading(temp_millideg: i64, curve_duty: u8, write_ok: bool) -> TickEvent {
    TickEvent::Reading { temp_millideg, curve_duty, write_ok }
}

#[test]
fn controller_writes_only_on_change() {
    let mut ctl = FanController::new(0);
    assert_eq!(ctl.next_duty(42_000, 99), Some(25));
    ctl.record_write(25, true);
    assert_eq!(ctl.last_duty, 25);
    assert_eq!(ctl.phase, LoopPhase::Running);
    assert_eq!(ctl.next_duty(42_000, 99), None);
    assert_eq!(ctl.next_duty(80_000, 99), Some(255));
}

#[test]
fn refused_write_faults_and_keeps_the_old_duty() {
    let mut ctl = FanController::new(25);
    ctl.record_write(255, false);
    assert_eq!(ctl.phase, LoopPhase::BusFault);
    assert_eq!(ctl.last_duty, 25);
}

#[test]
fn seeded_controller_skips_the_matching_first_tick() {
    // Seeding from the actuator's read-back value avoids a forced write on
    // the first tick when the hardware already matches.
    let events = vec![reading(42_000, 0, true)];
    let log = run_session(25, &events);
    assert_eq!(log.writes, Vec::<u8>::new());
    assert_eq!(log.consumed, 1);
    assert_eq!(log.phase, LoopPhase::Running);
}

#[test]
fn change_detection_writes_three_times_for_five_ticks() {
    // Computed duties [25, 25, 60, 60, 25]: exactly three writes, at the
    // first, third and fifth tick, and one status line per write.
    let events = vec![
        reading(42_000, 0, true),
        reading(42_000, 0, true),
        reading(50_000, 60, true),
        reading(50_000, 60, true),
        reading(42_000, 0, true),
    ];
    let log = run_session(0, &events);
    assert_eq!(log.writes, vec![25, 60, 25]);
    assert_eq!(
        log.statuses,
        vec![
            StatusRecord { temp_millideg: 42_000, duty: 25 },
            StatusRecord { temp_millideg: 50_000, duty: 60 },
            StatusRecord { temp_millideg: 42_000, duty: 25 },
        ]
    );
    assert_eq!(log.consumed, 5);
    assert_eq!(log.phase, LoopPhase::Running);
}

#[test]
fn refused_write_ends_the_session_at_that_tick() {
    // The write on the second tick is refused: no later tick runs, and the
    // refused write gets no status line.
    let events = vec![
        reading(50_000, 60, true),
        reading(80_000, 0, false),
        reading(42_000, 0, true),
        TickEvent::Cancelled,
    ];
    let log = run_session(0, &events);
    assert_eq!(log.writes, vec![60, 255]);
    assert_eq!(
        log.statuses,
        vec![StatusRecord { temp_millideg: 50_000, duty: 60 }]
    );
    assert_eq!(log.consumed, 2);
    assert_eq!(log.phase, LoopPhase::BusFault);
}

#[test]
fn unchanged_duty_ignores_a_bus_that_would_refuse() {
    // A tick whose duty is unchanged attempts no write, so a bus that
    // would have refused one is never consulted.
    let events = vec![reading(42_000, 0, true), reading(42_000, 0, false), reading(42_000, 0, false)];
    let log = run_session(0, &events);
    assert_eq!(log.writes, vec![25]);
    assert_eq!(log.consumed, 3);
    assert_eq!(log.phase, LoopPhase::Running);
}

#[test]
fn cancellation_stops_the_loop_with_no_further_bus_work() {
    let events = vec![
        reading(42_000, 0, true),
        TickEvent::Cancelled,
        reading(80_000, 0, true),
        reading(50_000, 70, true),
    ];
    let log = run_session(0, &events);
    assert_eq!(log.writes, vec![25]);
    assert_eq!(log.consumed, 2);
    assert_eq!(log.phase, LoopPhase::Stopped);
}

#[test]
fn sensor_failure_writes_nothing_on_that_tick() {
    let events = vec![TickEvent::SensorFailed, reading(80_000, 0, true)];
    let log = run_session(0, &events);
    assert_eq!(log.writes, Vec::<u8>::new());
    assert_eq!(log.statuses, Vec::<StatusRecord>::new());
    assert_eq!(log.consumed, 1);
    assert_eq!(log.phase, LoopPhase::SensorFault);
}

#[test]
fn sensor_failure_after_writes_keeps_earlier_work() {
    let events = vec![
        reading(50_000, 60, true),
        TickEvent::SensorFailed,
        reading(80_000, 0, true),
    ];
    let log = run_session(0, &events);
    assert_eq!(log.writes, vec![60]);
    assert_eq!(log.consumed, 2);
    assert_eq!(log.phase, LoopPhase::SensorFault);
}

#[test]
fn exhausted_events_leave_the_session_running() {
    let log = run_session(0, &Vec::new());
    assert_eq!(log.writes, Vec::<u8>::new());
    assert_eq!(log.consumed, 0);
    assert_eq!(log.phase, LoopPhase::Running);
}
