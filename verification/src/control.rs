//! The control loop's tick-by-tick logic.
//!
//! Each tick the loop samples the temperature, maps it through the fan
//! policy, and writes the duty byte to the bus only when it differs from
//! the last byte confirmed written. Any sensor failure or refused write is
//! fatal for the session, and cancellation is a normal terminal path. The
//! caller owns the waiting, the sensor file and the bus; it reports what
//! each tick observed and performs exactly the writes decided here.

use vstd::prelude::*;
use crate::curve::spec_fan_speed;
use crate::curve::fan_speed;

verus! {

/// Where the control session stands.
#[derive(Clone, Copy, Debug, PartialEq, Eq, Structural)]
pub enum LoopPhase {
    /// Ticks are still being served.
    Running,
    /// Cancellation was observed: the normal way to end.
    Stopped,
    /// The sensor could not be read or parsed; fatal for the session.
    SensorFault,
    /// The bus refused a write; fatal for the session.
    BusFault,
}

/// One status line: emitted only after the bus confirmed the write it
/// reports, never for an unchanged duty.
#[derive(Clone, Copy, Debug, PartialEq, Eq, Structural)]
pub struct StatusRecord {
    /// The temperature sampled on that tick, in millidegrees Celsius.
    pub temp_millideg: i64,
    /// The duty byte the write carried.
    pub duty: u8,
}

/// What one wait for the next tick turned up.
#[derive(Clone, Copy, Debug, PartialEq, Eq, Structural)]
pub enum TickEvent {
    /// The timer fired and the sensor delivered a reading; `curve_duty` is
    /// the blend curve's byte for that reading, and `write_ok` is whether
    /// the bus would accept a write on this tick.
    Reading { temp_millideg: i64, curve_duty: u8, write_ok: bool },
    /// The timer fired but the sensor reading failed.
    SensorFailed,
    /// Cancellation won the race against the timer.
    Cancelled,
}

/// The state the control loop owns: the last duty byte confirmed written,
/// and where the session stands.
pub struct FanController {
    /// The last duty byte the bus confirmed, or the seed chosen at startup.
    pub last_duty: u8,
    /// Where the session stands.
    pub phase: LoopPhase,
}

impl FanController {
    /// Start a session. `initial_duty` seeds the change detection: either
    /// zero, or the value read back from the actuator so that a first tick
    /// matching the hardware's setting writes nothing.
    pub fn new(initial_duty: u8) -> (c: Self)
        ensures
            c.last_duty == initial_duty,
            c.phase == LoopPhase::Running,
    {
        FanController { last_duty: initial_duty, phase: LoopPhase::Running }
    }

    /// Decide this tick's bus operation: the duty byte to write, or nothing
    /// when the policy's byte for this reading equals the last one written.
    pub fn next_duty(&self, temp_millideg: i64, curve_duty: u8) -> (r: Option<u8>)
        ensures
            ({
                let duty = spec_fan_speed(temp_millideg as int, curve_duty);
                if duty == self.last_duty {
                    r is None
                } else {
                    r == Some(duty)
                }
            }),
    {
        let duty = fan_speed(temp_millideg, curve_duty);
        if duty == self.last_duty {
            None
        } else {
            Some(duty)
        }
    }

    /// Record the bus's answer to a write of `duty`. Only an accepted write
    /// moves the change detection forward; a refused one ends the session
    /// as a bus fault and leaves the recorded duty alone.
    pub fn record_write(&mut self, duty: u8, accepted: bool)
        requires
            old(self).phase == LoopPhase::Running,
        ensures
            final(self).last_duty == (if accepted {
                duty
            } else {
                old(self).last_duty
            }),
            final(self).phase == (if accepted {
                LoopPhase::Running
            } else {
                LoopPhase::BusFault
            }),
    {
        if accepted {
            self.last_duty = duty;
        } else {
            self.phase = LoopPhase::BusFault;
        }
    }

    /// Record that the sensor reading failed: fatal, and no write may be
    /// attempted for this tick.
    pub fn record_sensor_failure(&mut self)
        ensures
            final(self).last_duty == old(self).last_duty,
            final(self).phase == LoopPhase::SensorFault,
    {
        self.phase = LoopPhase::SensorFault;
    }

    /// Record that cancellation was observed between ticks.
    pub fn record_cancellation(&mut self)
        ensures
            final(self).last_duty == old(self).last_duty,
            final(self).phase == LoopPhase::Stopped,
    {
        self.phase = LoopPhase::Stopped;
    }
}

/// Everything a finished or exhausted session did, in the ghost world:
/// the duty bytes offered to the bus in order, the status lines emitted,
/// how many events were processed before the loop ended, and the phase it
/// ended in (`Running` when the events ran out with the loop still alive).
#[verifier::ext_equal]
pub ghost struct SessionSpec {
    pub writes: Seq<u8>,
    pub statuses: Seq<StatusRecord>,
    pub consumed: nat,
    pub phase: LoopPhase,
}

/// The whole session as a function of the starting duty and the ticks'
/// observations: ticks are served in order until cancellation, a sensor
/// failure, a refused write, or the end of the events.
pub open spec fn spec_session(last_duty: u8, events: Seq<TickEvent>) -> SessionSpec
    decreases events.len(),
{
    if events.len() == 0 {
        SessionSpec { writes: seq![], statuses: seq![], consumed: 0, phase: LoopPhase::Running }
    } else {
        match events[0] {
            TickEvent::Cancelled => SessionSpec {
                writes: seq![],
                statuses: seq![],
                consumed: 1,
                phase: LoopPhase::Stopped,
            },
            TickEvent::SensorFailed => SessionSpec {
                writes: seq![],
                statuses: seq![],
                consumed: 1,
                phase: LoopPhase::SensorFault,
            },
            TickEvent::Reading { temp_millideg, curve_duty, write_ok } => {
                let duty = spec_fan_speed(temp_millideg as int, curve_duty);
                if duty == last_duty {
                    let rest = spec_session(last_duty, events.drop_first());
                    SessionSpec {
                        writes: rest.writes,
                        statuses: rest.statuses,
                        consumed: rest.consumed + 1,
                        phase: rest.phase,
                    }
                } else if write_ok {
                    let rest = spec_session(duty, events.drop_first());
                    SessionSpec {
                        writes: seq![duty] + rest.writes,
                        statuses: seq![StatusRecord { temp_millideg, duty }] + rest.statuses,
                        consumed: rest.consumed + 1,
                        phase: rest.phase,
                    }
                } else {
                    SessionSpec {
                        writes: seq![duty],
                        statuses: seq![],
                        consumed: 1,
                        phase: LoopPhase::BusFault,
                    }
                }
            },
        }
    }
}

/// A session never processes more events than it was given, and it stays
/// running only by exhausting them all.
pub proof fn lemma_session_consumed_bounds(last_duty: u8, events: Seq<TickEvent>)
    ensures
        spec_session(last_duty, events).consumed <= events.len(),
        spec_session(last_duty, events).phase == LoopPhase::Running ==> spec_session(
            last_duty,
            events,
        ).consumed == events.len(),
    decreases events.len(),
{
    if events.len() > 0 {
        match events[0] {
            TickEvent::Reading { temp_millideg, curve_duty, write_ok } => {
                let duty = spec_fan_speed(temp_millideg as int, curve_duty);
                if duty == last_duty {
                    lemma_session_consumed_bounds(last_duty, events.drop_first());
                } else if write_ok {
                    lemma_session_consumed_bounds(duty, events.drop_first());
                }
            },
            _ => {},
        }
    }
}

/// Everything a session does is decided by the events it consumed: running
/// it on that prefix alone gives the same writes, the same status lines and
/// the same ending. Events past the tick that ended the session — a
/// cancellation, a failed reading, a refused write — cause nothing.
pub proof fn lemma_session_is_prefix_run(last_duty: u8, events: Seq<TickEvent>)
    ensures
        ({
            let s = spec_session(last_duty, events);
            let p = spec_session(last_duty, events.take(s.consumed as int));
            p =~= s
        }),
    decreases events.len(),
{
    lemma_session_consumed_bounds(last_duty, events);
    let s = spec_session(last_duty, events);
    if events.len() == 0 {
        assert(events.take(0) =~= events);
    } else {
        let pre = events.take(s.consumed as int);
        match events[0] {
            TickEvent::Cancelled => {
                assert(pre[0] == events[0]);
            },
            TickEvent::SensorFailed => {
                assert(pre[0] == events[0]);
            },
            TickEvent::Reading { temp_millideg, curve_duty, write_ok } => {
                let duty = spec_fan_speed(temp_millideg as int, curve_duty);
                assert(pre[0] == events[0]);
                if duty == last_duty {
                    lemma_session_is_prefix_run(last_duty, events.drop_first());
                    let rest = spec_session(last_duty, events.drop_first());
                    assert(pre.drop_first() =~= events.drop_first().take(
                        rest.consumed as int,
                    ));
                } else if write_ok {
                    lemma_session_is_prefix_run(duty, events.drop_first());
                    let rest = spec_session(duty, events.drop_first());
                    assert(pre.drop_first() =~= events.drop_first().take(
                        rest.consumed as int,
                    ));
                }
            },
        }
    }
}

/// Cancellation ends the session on the spot: if the loop is still alive
/// when it reaches a cancellation event, that event is the last one it
/// processes, the session ends stopped, and the cancellation adds no bus
/// operation — the writes and status lines are exactly those of the run up
/// to it.
pub proof fn lemma_cancellation_stops_session(last_duty: u8, events: Seq<TickEvent>, i: int)
    requires
        0 <= i < events.len(),
        events[i] == TickEvent::Cancelled,
    ensures
        ({
            let s = spec_session(last_duty, events);
            s.consumed > i ==> {
                &&& s.consumed == i + 1
                &&& s.phase == LoopPhase::Stopped
                &&& s.writes == spec_session(last_duty, events.take(i)).writes
                &&& s.statuses == spec_session(last_duty, events.take(i)).statuses
            }
        }),
    decreases events.len(),
{
    let s = spec_session(last_duty, events);
    if i == 0 {
        assert(events.take(0) =~= Seq::<TickEvent>::empty());
    } else if s.consumed > i {
        let pre = events.take(i);
        assert(pre[0] == events[0]);
        match events[0] {
            TickEvent::Cancelled => {},
            TickEvent::SensorFailed => {},
            TickEvent::Reading { temp_millideg, curve_duty, write_ok } => {
                let duty = spec_fan_speed(temp_millideg as int, curve_duty);
                assert(events.drop_first()[i - 1] == events[i]);
                assert(pre.drop_first() =~= events.drop_first().take(i - 1));
                if duty == last_duty {
                    lemma_cancellation_stops_session(last_duty, events.drop_first(), i - 1);
                } else if write_ok {
                    lemma_cancellation_stops_session(duty, events.drop_first(), i - 1);
                }
            },
        }
    }
}

/// A refused bus write ends the session on the spot: the tick that saw it
/// is the last one processed, the session ends as a bus fault, and the
/// session's writes are those of the run up to that tick plus the single
/// refused attempt, which gets no status line.
pub proof fn lemma_bus_fault_stops_session(last_duty: u8, events: Seq<TickEvent>)
    ensures
        ({
            let s = spec_session(last_duty, events);
            s.phase == LoopPhase::BusFault ==> {
                &&& 1 <= s.consumed <= events.len()
                &&& (events[s.consumed - 1] matches TickEvent::Reading { write_ok: false, .. })
                &&& s.writes.len() >= 1
                &&& s.writes == spec_session(
                    last_duty,
                    events.take(s.consumed - 1),
                ).writes.push(s.writes.last())
                &&& s.statuses == spec_session(last_duty, events.take(s.consumed - 1)).statuses
            }
        }),
    decreases events.len(),
{
    let s = spec_session(last_duty, events);
    if events.len() > 0 && s.phase == LoopPhase::BusFault {
        match events[0] {
            TickEvent::Cancelled => {},
            TickEvent::SensorFailed => {},
            TickEvent::Reading { temp_millideg, curve_duty, write_ok } => {
                let duty = spec_fan_speed(temp_millideg as int, curve_duty);
                if duty == last_duty {
                    lemma_bus_fault_stops_session(last_duty, events.drop_first());
                    let rest = spec_session(last_duty, events.drop_first());
                    let pre = events.take(s.consumed - 1);
                    assert(events.drop_first()[rest.consumed - 1] == events[s.consumed - 1]);
                    assert(pre[0] == events[0]);
                    assert(pre.drop_first() =~= events.drop_first().take(rest.consumed - 1));
                } else if write_ok {
                    lemma_bus_fault_stops_session(duty, events.drop_first());
                    let rest = spec_session(duty, events.drop_first());
                    let pre = events.take(s.consumed - 1);
                    assert(events.drop_first()[rest.consumed - 1] == events[s.consumed - 1]);
                    assert(pre[0] == events[0]);
                    assert(pre.drop_first() =~= events.drop_first().take(rest.consumed - 1));
                    let prest = spec_session(duty, events.drop_first().take(rest.consumed - 1));
                    assert(s.writes == (seq![duty] + prest.writes).push(rest.writes.last()))
                        by {
                        assert((seq![duty] + prest.writes).push(rest.writes.last()) =~= seq![
                            duty,
                        ] + prest.writes.push(rest.writes.last()));
                    }
                } else {
                    assert(events.take(0) =~= Seq::<TickEvent>::empty());
                    assert(s.writes == Seq::<u8>::empty().push(duty)) by {
                        assert(Seq::<u8>::empty().push(duty) =~= seq![duty]);
                    }
                }
            },
        }
    }
}

/// A failed sensor reading ends the session on the spot and causes no bus
/// operation: the failing tick is the last one processed, and the writes
/// and status lines are exactly those of the run up to it.
pub proof fn lemma_sensor_fault_stops_session(last_duty: u8, events: Seq<TickEvent>)
    ensures
        ({
            let s = spec_session(last_duty, events);
            s.phase == LoopPhase::SensorFault ==> {
                &&& 1 <= s.consumed <= events.len()
                &&& events[s.consumed - 1] == TickEvent::SensorFailed
                &&& s.writes == spec_session(last_duty, events.take(s.consumed - 1)).writes
                &&& s.statuses == spec_session(last_duty, events.take(s.consumed - 1)).statuses
            }
        }),
    decreases events.len(),
{
    let s = spec_session(last_duty, events);
    if events.len() > 0 && s.phase == LoopPhase::SensorFault {
        match events[0] {
            TickEvent::Cancelled => {},
            TickEvent::SensorFailed => {
                assert(events.take(0) =~= Seq::<TickEvent>::empty());
            },
            TickEvent::Reading { temp_millideg, curve_duty, write_ok } => {
                let duty = spec_fan_speed(temp_millideg as int, curve_duty);
                let pre = events.take(s.consumed - 1);
                if duty == last_duty {
                    lemma_sensor_fault_stops_session(last_duty, events.drop_first());
                    let rest = spec_session(last_duty, events.drop_first());
                    assert(events.drop_first()[rest.consumed - 1] == events[s.consumed - 1]);
                    assert(pre[0] == events[0]);
                    assert(pre.drop_first() =~= events.drop_first().take(rest.consumed - 1));
                } else if write_ok {
                    lemma_sensor_fault_stops_session(duty, events.drop_first());
                    let rest = spec_session(duty, events.drop_first());
                    assert(events.drop_first()[rest.consumed - 1] == events[s.consumed - 1]);
                    assert(pre[0] == events[0]);
                    assert(pre.drop_first() =~= events.drop_first().take(rest.consumed - 1));
                }
            },
        }
    }
}

/// Every confirmed write emits exactly one status line carrying the duty
/// it wrote, in order; only a refused write — which ends the session — has
/// none, so a bus-faulted session has exactly one write beyond its status
/// lines, and any other has as many writes as lines.
pub proof fn lemma_one_status_per_confirmed_write(last_duty: u8, events: Seq<TickEvent>)
    ensures
        ({
            let s = spec_session(last_duty, events);
            &&& s.writes.len() == s.statuses.len() + (if s.phase == LoopPhase::BusFault {
                1int
            } else {
                0int
            })
            &&& forall|j: int| 0 <= j < s.statuses.len() ==> #[trigger] s.statuses[j].duty
                == s.writes[j]
        }),
    decreases events.len(),
{
    let s = spec_session(last_duty, events);
    if events.len() > 0 {
        match events[0] {
            TickEvent::Cancelled => {},
            TickEvent::SensorFailed => {},
            TickEvent::Reading { temp_millideg, curve_duty, write_ok } => {
                let duty = spec_fan_speed(temp_millideg as int, curve_duty);
                if duty == last_duty {
                    lemma_one_status_per_confirmed_write(last_duty, events.drop_first());
                } else if write_ok {
                    lemma_one_status_per_confirmed_write(duty, events.drop_first());
                }
            },
        }
    }
}

/// Change detection, stated of the writes themselves: every duty byte
/// offered to the bus differs from the byte it would replace — the first
/// from the starting duty, each later one from its predecessor.
pub proof fn lemma_writes_are_changes(last_duty: u8, events: Seq<TickEvent>)
    ensures
        ({
            let s = spec_session(last_duty, events);
            &&& (s.writes.len() > 0 ==> s.writes[0] != last_duty)
            &&& forall|j: int| 0 < j < s.writes.len() ==> #[trigger] s.writes[j] != s.writes[j
                - 1]
        }),
    decreases events.len(),
{
    let s = spec_session(last_duty, events);
    if events.len() > 0 {
        match events[0] {
            TickEvent::Cancelled => {},
            TickEvent::SensorFailed => {},
            TickEvent::Reading { temp_millideg, curve_duty, write_ok } => {
                let duty = spec_fan_speed(temp_millideg as int, curve_duty);
                if duty == last_duty {
                    lemma_writes_are_changes(last_duty, events.drop_first());
                } else if write_ok {
                    lemma_writes_are_changes(duty, events.drop_first());
                }
            },
        }
    }
}

/// What a run of the loop did, in the executable world.
pub struct SessionLog {
    /// The duty bytes offered to the bus, in order.
    pub writes: Vec<u8>,
    /// The status lines emitted, one per confirmed write.
    pub statuses: Vec<StatusRecord>,
    /// How many events were processed before the loop ended.
    pub consumed: usize,
    /// The phase the session ended in.
    pub phase: LoopPhase,
}

/// Drive a whole session over a recorded run of tick observations; the
/// log is exactly what `spec_session` says for those observations.
pub fn run_session(initial_duty: u8, events: &Vec<TickEvent>) -> (log: SessionLog)
    ensures
        ({
            let s = spec_session(initial_duty, events@);
            log.writes@ == s.writes && log.statuses@ == s.statuses && log.consumed == s.consumed
                && log.phase == s.phase
        }),
{
    let mut ctl = FanController::new(initial_duty);
    let mut writes: Vec<u8> = Vec::new();
    let mut statuses: Vec<StatusRecord> = Vec::new();
    let mut k: usize = 0;
    proof {
        assert(events@.skip(0) =~= events@);
        let full = spec_session(initial_duty, events@);
        assert(Seq::<u8>::empty() + full.writes =~= full.writes);
        assert(Seq::<StatusRecord>::empty() + full.statuses =~= full.statuses);
    }
    while k < events.len() && ctl.phase == LoopPhase::Running
        invariant
            k <= events@.len(),
            ({
                let full = spec_session(initial_duty, events@);
                if ctl.phase == LoopPhase::Running {
                    let rest = spec_session(ctl.last_duty, events@.skip(k as int));
                    full.writes == writes@ + rest.writes && full.statuses == statuses@
                        + rest.statuses && full.consumed == k + rest.consumed && full.phase
                        == rest.phase
                } else {
                    full.writes == writes@ && full.statuses == statuses@ && full.consumed == k
                        && full.phase == ctl.phase
                }
            }),
        decreases events@.len() - k,
    {
        let ghost pre_writes = writes@;
        let ghost pre_statuses = statuses@;
        let ghost pre_last = ctl.last_duty;
        proof {
            assert(events@.skip(k as int)[0] == events@[k as int]);
            assert(events@.skip(k as int).drop_first() =~= events@.skip(k as int + 1));
        }
        let event = events[k];
        match event {
            TickEvent::Cancelled => {
                ctl.record_cancellation();
                proof {
                    assert(pre_writes + Seq::<u8>::empty() =~= pre_writes);
                    assert(pre_statuses + Seq::<StatusRecord>::empty() =~= pre_statuses);
                }
            },
            TickEvent::SensorFailed => {
                ctl.record_sensor_failure();
                proof {
                    assert(pre_writes + Seq::<u8>::empty() =~= pre_writes);
                    assert(pre_statuses + Seq::<StatusRecord>::empty() =~= pre_statuses);
                }
            },
            TickEvent::Reading { temp_millideg, curve_duty, write_ok } => {
                match ctl.next_duty(temp_millideg, curve_duty) {
                    None => {},
                    Some(duty) => {
                        writes.push(duty);
                        ctl.record_write(duty, write_ok);
                        if write_ok {
                            statuses.push(StatusRecord { temp_millideg, duty });
                            proof {
                                let rest = spec_session(pre_last, events@.skip(k as int));
                                let rest_new = spec_session(
                                    duty,
                                    events@.skip(k as int + 1),
                                );
                                assert(rest.writes == seq![duty] + rest_new.writes);
                                assert(rest.statuses == seq![
                                    StatusRecord { temp_millideg, duty },
                                ] + rest_new.statuses);
                                assert(pre_writes + rest.writes =~= writes@ + rest_new.writes);
                                assert(pre_statuses + rest.statuses =~= statuses@
                                    + rest_new.statuses);
                            }
                        } else {
                            proof {
                                let rest = spec_session(
                                    pre_last,
                                    events@.skip(k as int),
                                );
                                assert(pre_writes + rest.writes =~= writes@);
                                assert(pre_statuses + rest.statuses =~= statuses@);
                            }
                        }
                    },
                }
            },
        }
        k = k + 1;
    }
    proof {
        if ctl.phase == LoopPhase::Running {
            assert(events@.skip(k as int) =~= Seq::<TickEvent>::empty());
            let rest = spec_session(ctl.last_duty, events@.skip(k as int));
            assert(writes@ + rest.writes =~= writes@);
            assert(statuses@ + rest.statuses =~= statuses@);
        }
    }
    SessionLog { writes, statuses, consumed: k, phase: ctl.phase }
}

} // verus!
