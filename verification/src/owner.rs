//! The tracker's decisions: the foreground segment being timed, and what
//! each event (a periodic flush, a foreground change, suspend and resume)
//! writes and leaves behind. The task that owns the database applies them.

use vstd::prelude::*;
use crate::types::CurrentSession;

verus! {

/// The foreground segment being timed: the application and when (in Unix
/// seconds) timing began or was last checkpointed.
#[derive(Debug, Clone, Copy, PartialEq, Eq, Structural)]
pub struct Segment {
    pub app_id: i64,
    pub start: i64,
}

/// Time to add to an application's usage: `duration` seconds from `start`.
#[derive(Debug, Clone, Copy, PartialEq, Eq, Structural)]
pub struct UsageWrite {
    pub app_id: i64,
    pub start: i64,
    pub duration: i64,
}

/// What the owner task is told.
#[derive(Debug, Clone, Copy, PartialEq, Eq, Structural)]
pub enum TrackerEvent {
    /// The periodic flush, with the system's idle time and whether audio plays.
    FlushTick { now: i64, idle_ms: u64, playing: bool },
    /// Another window came to the foreground.
    ForegroundChanged { now: i64 },
    /// The new foreground application was stored (`Some` id) or could not be.
    AppStarted { now: i64, app: Option<i64> },
    /// The system is about to suspend.
    PowerSuspend { now: i64 },
    /// The system resumed.
    PowerResume,
    /// A sync run is about to read the facts: the elapsed time is written and
    /// timing goes on from now.
    SyncCheckpoint { now: i64 },
}

/// The outcome of one event: the usage to write, whether an idle segment was
/// dropped, whether the shown session ends, and the segment timed next.
#[derive(Debug, Clone, Copy, PartialEq, Eq, Structural)]
pub struct TrackerStep {
    pub write: Option<UsageWrite>,
    pub dropped_idle: bool,
    pub clear_session: bool,
    pub next: Option<Segment>,
}

/// The usage of the segment up to `now`, when it is positive.
pub open spec fn elapsed_write(current: Option<Segment>, now: i64) -> Option<UsageWrite> {
    match current {
        Some(s) if now - s.start > 0 => Some(UsageWrite { app_id: s.app_id, start: s.start, duration: (now - s.start) as i64 }),
        _ => None,
    }
}

/// What an event does, given the segment being timed and the idle
/// threshold in milliseconds.
pub open spec fn step_spec(current: Option<Segment>, event: TrackerEvent, idle_threshold_ms: u64) -> TrackerStep {
    match event {
        TrackerEvent::FlushTick { now, idle_ms, playing } => match current {
            Some(s) if now - s.start > 0 => {
                let idle = idle_ms >= idle_threshold_ms && !playing;
                TrackerStep {
                    write: if idle { None } else { elapsed_write(current, now) },
                    dropped_idle: idle,
                    clear_session: false,
                    next: Some(Segment { app_id: s.app_id, start: now }),
                }
            },
            _ => TrackerStep { write: None, dropped_idle: false, clear_session: false, next: current },
        },
        TrackerEvent::ForegroundChanged { now } => TrackerStep {
            write: elapsed_write(current, now),
            dropped_idle: false,
            clear_session: false,
            next: current,
        },
        TrackerEvent::AppStarted { now, app } => TrackerStep {
            write: None,
            dropped_idle: false,
            clear_session: false,
            next: match app {
                Some(id) => Some(Segment { app_id: id, start: now }),
                None => None,
            },
        },
        TrackerEvent::PowerSuspend { now } => TrackerStep {
            write: elapsed_write(current, now),
            dropped_idle: false,
            clear_session: true,
            next: None,
        },
        TrackerEvent::PowerResume => TrackerStep { write: None, dropped_idle: false, clear_session: false, next: None },
        TrackerEvent::SyncCheckpoint { now } => TrackerStep {
            write: elapsed_write(current, now),
            dropped_idle: false,
            clear_session: false,
            next: match current {
                Some(s) if now - s.start > 0 => Some(Segment { app_id: s.app_id, start: now }),
                _ => current,
            },
        },
    }
}

/// The time of an event, where it has one.
pub open spec fn event_time(event: TrackerEvent) -> Option<i64> {
    match event {
        TrackerEvent::FlushTick { now, .. } => Some(now),
        TrackerEvent::ForegroundChanged { now } => Some(now),
        TrackerEvent::AppStarted { now, .. } => Some(now),
        TrackerEvent::PowerSuspend { now } => Some(now),
        TrackerEvent::PowerResume => None,
        TrackerEvent::SyncCheckpoint { now } => Some(now),
    }
}

fn elapsed(current: Option<Segment>, now: i64) -> (r: Option<UsageWrite>)
    requires
        current matches Some(s) ==> i64::MIN <= now - s.start <= i64::MAX,
    ensures
        r == elapsed_write(current, now),
{
    match current {
        Some(s) => {
            let d = now - s.start;
            if d > 0 {
                Some(UsageWrite { app_id: s.app_id, start: s.start, duration: d })
            } else {
                None
            }
        },
        None => None,
    }
}

/// Decides what an event does. A flush drops the elapsed time when the user
/// has been idle for the threshold and no audio plays, writes it otherwise,
/// and restarts the segment at `now` either way; a foreground change and a
/// suspend write the elapsed time; a suspend and a resume stop timing until
/// the next foreground change.
pub fn tracker_step(current: Option<Segment>, event: TrackerEvent, idle_threshold_ms: u64) -> (r: TrackerStep)
    requires
        current matches Some(s) ==> (event_time(event) matches Some(now) ==> i64::MIN <= now - s.start <= i64::MAX),
    ensures
        r == step_spec(current, event, idle_threshold_ms),
        r.write matches Some(w) ==> w.duration > 0 && (event_time(event) matches Some(now) && w.start + w.duration == now),
{
    match event {
        TrackerEvent::FlushTick { now, idle_ms, playing } => match current {
            Some(s) => {
                if now - s.start > 0 {
                    let idle = idle_ms >= idle_threshold_ms && !playing;
                    let write = if idle { None } else { elapsed(current, now) };
                    TrackerStep { write, dropped_idle: idle, clear_session: false, next: Some(Segment { app_id: s.app_id, start: now }) }
                } else {
                    TrackerStep { write: None, dropped_idle: false, clear_session: false, next: current }
                }
            },
            None => TrackerStep { write: None, dropped_idle: false, clear_session: false, next: current },
        },
        TrackerEvent::ForegroundChanged { now } => TrackerStep {
            write: elapsed(current, now),
            dropped_idle: false,
            clear_session: false,
            next: current,
        },
        TrackerEvent::AppStarted { now, app } => TrackerStep {
            write: None,
            dropped_idle: false,
            clear_session: false,
            next: match app {
                Some(id) => Some(Segment { app_id: id, start: now }),
                None => None,
            },
        },
        TrackerEvent::PowerSuspend { now } => TrackerStep {
            write: elapsed(current, now),
            dropped_idle: false,
            clear_session: true,
            next: None,
        },
        TrackerEvent::PowerResume => TrackerStep { write: None, dropped_idle: false, clear_session: false, next: None },
        TrackerEvent::SyncCheckpoint { now } => {
            let write = elapsed(current, now);
            let next = match current {
                Some(s) => if now - s.start > 0 { Some(Segment { app_id: s.app_id, start: now }) } else { current },
                None => None,
            };
            TrackerStep { write, dropped_idle: false, clear_session: false, next }
        },
    }
}

/// The session shown for a new foreground application, and whether it also
/// becomes the last active one (every application but this one itself).
pub fn foreground_session(process_name: &str, now: i64) -> (r: (CurrentSession, bool))
    ensures
        r.0.process_name@ == process_name@,
        r.0.display_name is None,
        r.0.start_timestamp == now,
        r.0.current_duration == 0,
        r.1 == (process_name@ != "tracer.exe"@),
{
    let s = CurrentSession {
        process_name: process_name.to_owned(),
        display_name: None,
        start_timestamp: now,
        current_duration: 0,
    };
    let other = process_name.to_owned() != "tracer.exe".to_owned();
    (s, other)
}

/// A flush never writes time of an idle user while no audio plays, and a
/// checkpoint restarts the segment at the flush time: time is counted once.
pub proof fn law_flush_counts_each_second_once(s: Segment, now: i64, idle_ms: u64, playing: bool, threshold: u64)
    requires
        now - s.start > 0,
    ensures
        ({
            let r = step_spec(Some(s), TrackerEvent::FlushTick { now, idle_ms, playing }, threshold);
            &&& r.next == Some(Segment { app_id: s.app_id, start: now })
            &&& (idle_ms >= threshold && !playing) ==> r.write is None && r.dropped_idle
            &&& !(idle_ms >= threshold && !playing) ==> r.write == Some(UsageWrite { app_id: s.app_id, start: s.start, duration: (now - s.start) as i64 })
        }),
{
}

/// After a suspend or a resume nothing is timed until the next application
/// starts.
pub proof fn law_power_events_stop_timing(current: Option<Segment>, now: i64, threshold: u64)
    ensures
        step_spec(current, TrackerEvent::PowerSuspend { now }, threshold).next is None,
        step_spec(current, TrackerEvent::PowerResume, threshold).next is None,
        step_spec(current, TrackerEvent::PowerSuspend { now }, threshold).clear_session,
{
}

} // verus!
