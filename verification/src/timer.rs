//! A countdown timer: a persisted record (description, length, time left)
//! together with the Stopped / Running / Alarming state machine and the
//! wall-clock tick arithmetic.
//!
//! All durations are whole seconds held in a `u64`; instants are `u64`
//! readings of a monotonic clock, supplied by the caller.

use vstd::prelude::*;

verus! {

/// Length, in seconds, of a freshly added timer.
pub const DEFAULT_LENGTH_SECS: u64 = 300;

#[derive(Clone, Copy, Debug, PartialEq, Eq, Structural)]
pub enum TimerState {
    Stopped,
    Running,
    Alarming,
}

/// The part of a timer that is persisted between sessions.
pub struct SerializeableTimerParts {
    pub length: u64,
    pub time_left: u64,
    pub description: String,
}

/// Mathematical image of a persisted record.
pub ghost struct RecordView {
    pub length: u64,
    pub time_left: u64,
    pub description: Seq<char>,
}

impl View for SerializeableTimerParts {
    type V = RecordView;

    open spec fn view(&self) -> RecordView {
        RecordView {
            length: self.length,
            time_left: self.time_left,
            description: self.description@,
        }
    }
}

impl SerializeableTimerParts {
    pub fn new(description: String, length: u64, time_left: u64) -> (r: SerializeableTimerParts)
        ensures
            r@.description == description@,
            r@.length == length,
            r@.time_left == time_left,
    {
        SerializeableTimerParts { length, time_left, description }
    }
}

pub struct Timer {
    pub serializeable_parts: SerializeableTimerParts,
    /// Monotonic-clock reading taken when the current running interval began.
    pub last_started: Option<u64>,
    /// Baseline for elapsed-time subtraction: the time left when the timer
    /// last entered the Running state (or was paused / reset).
    pub time_left_at_last_tick: u64,
    pub state: TimerState,
}

impl Timer {
    pub open spec fn spec_length(self) -> u64 {
        self.serializeable_parts.length
    }

    pub open spec fn spec_time_left(self) -> u64 {
        self.serializeable_parts.time_left
    }

    pub open spec fn spec_description(self) -> Seq<char> {
        self.serializeable_parts.description@
    }

    pub open spec fn record(self) -> RecordView {
        self.serializeable_parts@
    }

    pub open spec fn is_alarming(self) -> bool {
        self.state is Alarming
    }

    /// Internal invariant: the time left never exceeds the baseline, which
    /// never exceeds the configured length.
    pub open spec fn wf(self) -> bool {
        self.spec_time_left() <= self.time_left_at_last_tick <= self.spec_length()
    }

    pub fn new(description: String, length: u64) -> (t: Timer)
        ensures
            t.spec_description() == description@,
            t.spec_length() == length,
            t.spec_time_left() == length,
            t.time_left_at_last_tick == length,
            t.state is Stopped,
            t.last_started is None,
            t.wf(),
    {
        Timer {
            serializeable_parts: SerializeableTimerParts::new(description, length, length),
            last_started: None,
            time_left_at_last_tick: length,
            state: TimerState::Stopped,
        }
    }

    pub fn default() -> (t: Timer)
        ensures
            is_default_timer(t),
            t.wf(),
    {
        Timer::new("New Timer".to_owned(), DEFAULT_LENGTH_SECS)
    }

    /// Revive a persisted record as a fresh Stopped timer. The loaded time
    /// left seeds both `time_left` and the tick baseline; a record whose time
    /// left exceeds its length is clamped so that the timer invariant holds.
    pub fn from_serializeable(parts: SerializeableTimerParts) -> (t: Timer)
        ensures
            t.spec_description() == parts@.description,
            t.spec_length() == parts@.length,
            t.spec_time_left() == if parts@.time_left <= parts@.length {
                parts@.time_left
            } else {
                parts@.length
            },
            t.time_left_at_last_tick == t.spec_time_left(),
            t.state is Stopped,
            t.last_started is None,
            t.wf(),
    {
        let time_left: u64 = if parts.time_left <= parts.length {
            parts.time_left
        } else {
            parts.length
        };
        Timer {
            serializeable_parts: SerializeableTimerParts::new(
                parts.description,
                parts.length,
                time_left,
            ),
            last_started: None,
            time_left_at_last_tick: time_left,
            state: TimerState::Stopped,
        }
    }

    pub fn clone_description(&self) -> (s: String)
        ensures
            s@ == self.spec_description(),
    {
        self.serializeable_parts.description.clone()
    }

    pub fn get_length(&self) -> (d: u64)
        ensures
            d == self.spec_length(),
    {
        self.serializeable_parts.length
    }

    pub fn get_time_left(&self) -> (d: u64)
        ensures
            d == self.spec_time_left(),
    {
        self.serializeable_parts.time_left
    }
}

/// The timer a plain "add" creates: five minutes, described as "New Timer",
/// stopped, with no running interval.
pub open spec fn is_default_timer(t: Timer) -> bool {
    &&& t.spec_description() == "New Timer"@
    &&& t.spec_length() == DEFAULT_LENGTH_SECS
    &&& t.spec_time_left() == DEFAULT_LENGTH_SECS
    &&& t.time_left_at_last_tick == DEFAULT_LENGTH_SECS
    &&& t.state is Stopped
    &&& t.last_started is None
}

/// Effect of one frame tick at instant `now` on a single timer.
///
/// A Running timer with an established baseline has its time left recomputed
/// from the original start instant (never accumulated); once the elapsed time
/// reaches the baseline the timer saturates at zero and starts alarming. The
/// first tick after a start merely records the baseline instant. Stopped and
/// Alarming timers are untouched.
pub open spec fn spec_tick(t: Timer, now: u64) -> Timer {
    match t.state {
        TimerState::Running => match t.last_started {
            Some(started) => {
                let elapsed: u64 = if now >= started {
                    (now - started) as u64
                } else {
                    0u64
                };
                if elapsed < t.time_left_at_last_tick {
                    Timer {
                        serializeable_parts: SerializeableTimerParts {
                            length: t.serializeable_parts.length,
                            time_left: (t.time_left_at_last_tick - elapsed) as u64,
                            description: t.serializeable_parts.description,
                        },
                        ..t
                    }
                } else {
                    Timer {
                        serializeable_parts: SerializeableTimerParts {
                            length: t.serializeable_parts.length,
                            time_left: 0u64,
                            description: t.serializeable_parts.description,
                        },
                        time_left_at_last_tick: 0u64,
                        state: TimerState::Alarming,
                        ..t
                    }
                }
            },
            None => Timer { last_started: Some(now), ..t },
        },
        _ => t,
    }
}

impl Timer {
    /// Advance this timer by one frame at instant `now`. Returns whether the
    /// timer transitioned into the Alarming state during this tick.
    pub fn tick(&mut self, now: u64) -> (became_alarming: bool)
        requires
            old(self).wf(),
        ensures
            *final(self) == spec_tick(*old(self), now),
            final(self).wf(),
            became_alarming == (old(self).state is Running && final(self).state is Alarming),
    {
        match self.state {
            TimerState::Running => {
                match self.last_started {
                    Some(started) => {
                        let elapsed: u64 = if now >= started { now - started } else { 0 };
                        if elapsed < self.time_left_at_last_tick {
                            self.serializeable_parts.time_left =
                                self.time_left_at_last_tick - elapsed;
                            false
                        } else {
                            self.serializeable_parts.time_left = 0;
                            self.time_left_at_last_tick = 0;
                            self.state = TimerState::Alarming;
                            true
                        }
                    },
                    None => {
                        self.last_started = Some(now);
                        false
                    },
                }
            },
            _ => false,
        }
    }
}

/// Law: a frame tick never raises the time left above the configured length,
/// and never changes the length, the description, or a non-Running state.
pub proof fn lemma_tick_preserves_wf(t: Timer, now: u64)
    requires
        t.wf(),
    ensures
        spec_tick(t, now).wf(),
        spec_tick(t, now).spec_length() == t.spec_length(),
        spec_tick(t, now).spec_description() == t.spec_description(),
        !(t.state is Running) ==> spec_tick(t, now) == t,
{
}

/// Law: ticking a Running timer whose baseline `R = time_left_at_last_tick`
/// has been fully consumed (elapsed time at least `R`) moves it to Alarming
/// with no time left; a further tick of an Alarming timer changes nothing,
/// so the transition happens exactly once.
pub proof fn lemma_tick_expiry(t: Timer, now: u64)
    requires
        t.wf(),
        t.state is Running,
        t.last_started is Some,
        now >= t.last_started->0,
        now - t.last_started->0 >= t.time_left_at_last_tick,
    ensures
        spec_tick(t, now).state is Alarming,
        spec_tick(t, now).spec_time_left() == 0,
        forall|later: u64| spec_tick(spec_tick(t, now), later) == spec_tick(t, now),
{
}

} // verus!
