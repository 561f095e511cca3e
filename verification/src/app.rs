//! The orchestrator: a collection of timers, a selection cursor, the active
//! screen, the edit buffer, and the alarm counter, together with the
//! dispatcher that turns single-key commands into state transitions.

use vstd::prelude::*;

use crate::alarm::AlarmCounter;
use crate::alarm::AudioAction;
use crate::edit::EditField;
use crate::edit::EditValue;
use crate::edit::EditValues;
use crate::edit::edit_buffer_for;
use crate::edit::is_default_edit_buffer;
use crate::edit::next_field;
use crate::edit::previous_field;
use crate::edit::spec_dec;
use crate::edit::spec_inc;
use crate::edit::spec_next_field;
use crate::edit::spec_previous_field;
use crate::timer::RecordView;
use crate::timer::SerializeableTimerParts;
use crate::timer::Timer;
use crate::timer::TimerState;
use crate::timer::is_default_timer;
use crate::timer::spec_tick;
use crate::codec::JsonError;
use crate::codec::digit_val;
use crate::codec::encode_records;
use crate::codec::encode_records_exec;
use crate::codec::is_digit_char;
use crate::codec::lemma_parse_encode_roundtrip;
use crate::codec::parse_records_exec;
use crate::codec::recs_view;
use crate::codec::spec_parse_records;

verus! {

#[derive(Clone, Copy, Debug, PartialEq, Eq, Structural)]
pub enum ErrorType {
    SoundDevice,
    File,
}

/// The screen that is active app-wide; it decides which key map applies.
#[derive(Clone, Copy, Debug, PartialEq, Eq, Structural)]
pub enum AppScreen {
    Main,
    Editing(EditField),
    Navigating,
    Error(ErrorType),
}

/// A key press, already reduced to what the dispatcher distinguishes.
#[derive(Clone, Copy, Debug, PartialEq, Eq, Structural)]
pub enum Key {
    Char(char),
    Tab,
    BackTab,
    Enter,
    Left,
    Right,
    Backspace,
    Other,
}

/// How many timers of `s` are in the Alarming state.
pub open spec fn count_alarming(s: Seq<Timer>) -> int
    decreases s.len(),
{
    if s.len() == 0 {
        0
    } else {
        count_alarming(s.drop_last()) + if s.last().is_alarming() {
            1int
        } else {
            0int
        }
    }
}

pub proof fn lemma_count_alarming_bounds(s: Seq<Timer>)
    ensures
        0 <= count_alarming(s) <= s.len(),
    decreases s.len(),
{
    if s.len() > 0 {
        lemma_count_alarming_bounds(s.drop_last());
    }
}

/// Law: the alarm count is zero exactly when no timer is alarming.
pub proof fn lemma_count_alarming_zero(s: Seq<Timer>)
    ensures
        count_alarming(s) == 0 <==> (forall|i: int|
            0 <= i < s.len() ==> !(#[trigger] s[i]).is_alarming()),
    decreases s.len(),
{
    if s.len() > 0 {
        lemma_count_alarming_zero(s.drop_last());
        lemma_count_alarming_bounds(s.drop_last());
        assert(forall|i: int| 0 <= i < s.len() - 1 ==> s.drop_last()[i] == s[i]);
    }
}

pub proof fn lemma_count_alarming_push(s: Seq<Timer>, t: Timer)
    ensures
        count_alarming(s.push(t)) == count_alarming(s) + if t.is_alarming() {
            1int
        } else {
            0int
        },
{
    assert(s.push(t).drop_last() =~= s);
}

pub proof fn lemma_count_alarming_update(s: Seq<Timer>, i: int, t: Timer)
    requires
        0 <= i < s.len(),
    ensures
        count_alarming(s.update(i, t)) == count_alarming(s) + (if t.is_alarming() {
            1int
        } else {
            0int
        }) - (if s[i].is_alarming() {
            1int
        } else {
            0int
        }),
    decreases s.len(),
{
    let u = s.update(i, t);
    if i == s.len() - 1 {
        assert(u.drop_last() =~= s.drop_last());
        assert(u.last() == t);
    } else {
        assert(u.drop_last() =~= s.drop_last().update(i, t));
        assert(u.last() == s.last());
        lemma_count_alarming_update(s.drop_last(), i, t);
    }
}

pub proof fn lemma_count_alarming_remove(s: Seq<Timer>, i: int)
    requires
        0 <= i < s.len(),
    ensures
        count_alarming(s.remove(i)) == count_alarming(s) - if s[i].is_alarming() {
            1int
        } else {
            0int
        },
    decreases s.len(),
{
    let r = s.remove(i);
    if i == s.len() - 1 {
        assert(r =~= s.drop_last());
    } else {
        assert(r.drop_last() =~= s.drop_last().remove(i));
        assert(r.last() == s.last());
        lemma_count_alarming_remove(s.drop_last(), i);
    }
}

pub struct App {
    pub timers: Vec<Timer>,
    /// `None` exactly while the collection is empty.
    pub selected_timer: Option<usize>,
    pub should_quit: bool,
    pub screen: AppScreen,
    pub edit_values: EditValues,
    /// Whether the host managed to set up audio playback.
    pub successful_init: bool,
    pub alarm_counter: AlarmCounter,
}

impl App {
    pub open spec fn timers_wf(self) -> bool {
        forall|i: int| 0 <= i < self.timers@.len() ==> (#[trigger] self.timers@[i]).wf()
    }

    pub open spec fn selection_ok(self) -> bool {
        match self.selected_timer {
            Some(i) => i < self.timers@.len(),
            None => self.timers@.len() == 0,
        }
    }

    /// The app-wide invariant: every timer is well formed, the selection
    /// cursor is in range and present exactly for a non-empty collection,
    /// the alarm counter equals the number of alarming timers, and the edit
    /// buffer is well formed.
    pub open spec fn inv(self) -> bool {
        &&& self.timers_wf()
        &&& self.selection_ok()
        &&& self.alarm_counter.alarming_timers == count_alarming(self.timers@)
        &&& self.edit_values.wf()
    }

    pub fn new(audio_available: bool) -> (app: App)
        ensures
            app.inv(),
            app.timers@.len() == 0,
            app.selected_timer is None,
            !app.should_quit,
            app.screen == AppScreen::Main,
            is_default_edit_buffer(app.edit_values),
            app.successful_init == audio_available,
            app.alarm_counter.alarming_timers == 0,
    {
        App {
            timers: Vec::new(),
            selected_timer: None,
            should_quit: false,
            screen: AppScreen::Main,
            edit_values: EditValues::default(),
            successful_init: audio_available,
            alarm_counter: AlarmCounter::new(),
        }
    }
}

/// Law: under the app invariant, no timer ever has more time left than its
/// configured length.
pub proof fn lemma_inv_time_left_bounded(app: App)
    requires
        app.inv(),
    ensures
        forall|i: int|
            0 <= i < app.timers@.len() ==> (#[trigger] app.timers@[i]).spec_time_left()
                <= app.timers@[i].spec_length(),
{
}

// ---------------------------------------------------------------------------
// Effects of the individual operations
// ---------------------------------------------------------------------------

/// Fields never touched by timer-collection operations.
pub open spec fn same_shell(pre: App, post: App) -> bool {
    &&& post.should_quit == pre.should_quit
    &&& post.screen == pre.screen
    &&& post.edit_values == pre.edit_values
    &&& post.successful_init == pre.successful_init
}

/// Appending a timer keeps an existing selection and selects index zero of a
/// previously empty collection.
pub open spec fn push_selection(pre: App) -> Option<usize> {
    match pre.selected_timer {
        Some(i) => Some(i),
        None => Some(0usize),
    }
}

pub open spec fn add_default_effect(pre: App, post: App) -> bool {
    &&& post.timers@.len() == pre.timers@.len() + 1
    &&& post.timers@.drop_last() == pre.timers@
    &&& is_default_timer(post.timers@.last())
    &&& post.selected_timer == push_selection(pre)
    &&& post.alarm_counter == pre.alarm_counter
    &&& same_shell(pre, post)
}

pub open spec fn add_from_saved_effect(pre: App, post: App, rec: RecordView) -> bool {
    &&& post.timers@.len() == pre.timers@.len() + 1
    &&& post.timers@.drop_last() == pre.timers@
    &&& ({
        let t = post.timers@.last();
        &&& t.spec_description() == rec.description
        &&& t.spec_length() == rec.length
        &&& t.spec_time_left() == if rec.time_left <= rec.length {
            rec.time_left
        } else {
            rec.length
        }
        &&& t.time_left_at_last_tick == t.spec_time_left()
        &&& t.state is Stopped
        &&& t.last_started is None
    })
    &&& post.selected_timer == push_selection(pre)
    &&& post.alarm_counter == pre.alarm_counter
    &&& same_shell(pre, post)
}

/// Deleting the selected timer: the collection closes over the hole, the
/// cursor clamps to the last index when the deleted one was last (or clears
/// for a now-empty collection), and the alarm counter loses the deleted
/// timer's alarm, pausing playback when it was the only one.
pub open spec fn delete_effect(pre: App, post: App, action: AudioAction) -> bool {
    match pre.selected_timer {
        None => post == pre && action == AudioAction::Nothing,
        Some(i) => {
            &&& post.timers@ == pre.timers@.remove(i as int)
            &&& post.selected_timer == (if pre.timers@.len() == 1 {
                Option::<usize>::None
            } else if i == pre.timers@.len() - 1 {
                Some((i - 1) as usize)
            } else {
                Some(i)
            })
            &&& post.alarm_counter.alarming_timers == pre.alarm_counter.alarming_timers - (
            if pre.timers@[i as int].is_alarming() {
                1int
            } else {
                0int
            })
            &&& action == (if pre.timers@[i as int].is_alarming()
                && post.alarm_counter.alarming_timers == 0 {
                AudioAction::Pause
            } else {
                AudioAction::Nothing
            })
            &&& same_shell(pre, post)
        },
    }
}

pub open spec fn increment_selection_effect(pre: App, post: App) -> bool {
    &&& post.selected_timer == (match pre.selected_timer {
        Some(i) => if i + 1 < pre.timers@.len() {
            Some((i + 1) as usize)
        } else {
            Some(0usize)
        },
        None => Option::<usize>::None,
    })
    &&& post.timers == pre.timers
    &&& post.alarm_counter == pre.alarm_counter
    &&& same_shell(pre, post)
}

pub open spec fn decrement_selection_effect(pre: App, post: App) -> bool {
    &&& post.selected_timer == (match pre.selected_timer {
        Some(i) => if i == 0 {
            Some((pre.timers@.len() - 1) as usize)
        } else {
            Some((i - 1) as usize)
        },
        None => Option::<usize>::None,
    })
    &&& post.timers == pre.timers
    &&& post.alarm_counter == pre.alarm_counter
    &&& same_shell(pre, post)
}

/// A timer put back at its configured length: full time left, a fresh tick
/// baseline, no running interval, stopped. Both resetting a stopped timer
/// and dismissing an alarming one produce this.
pub open spec fn refreshed_timer(t: Timer) -> Timer {
    Timer {
        serializeable_parts: SerializeableTimerParts {
            length: t.serializeable_parts.length,
            time_left: t.serializeable_parts.length,
            description: t.serializeable_parts.description,
        },
        last_started: None,
        time_left_at_last_tick: t.serializeable_parts.length,
        state: TimerState::Stopped,
    }
}

/// Dismissing the alarming timer at index `i`: it is refreshed, the alarm
/// counter drops by exactly one, and playback pauses exactly when no alarm
/// remains.
pub open spec fn dismiss_clause(pre: App, post: App, i: usize, action: AudioAction) -> bool {
    &&& post.timers@ == pre.timers@.update(i as int, refreshed_timer(pre.timers@[i as int]))
    &&& post.selected_timer == pre.selected_timer
    &&& post.alarm_counter.alarming_timers == pre.alarm_counter.alarming_timers - 1
    &&& action == (if post.alarm_counter.alarming_timers == 0 {
        AudioAction::Pause
    } else {
        AudioAction::Nothing
    })
    &&& same_shell(pre, post)
}

pub open spec fn start_effect(pre: App, post: App, now: u64) -> bool {
    match pre.selected_timer {
        None => post == pre,
        Some(i) => {
            let t = pre.timers@[i as int];
            if t.state is Stopped {
                &&& post.timers@ == pre.timers@.update(
                    i as int,
                    Timer { state: TimerState::Running, last_started: Some(now), ..t },
                )
                &&& post.selected_timer == pre.selected_timer
                &&& post.alarm_counter == pre.alarm_counter
                &&& same_shell(pre, post)
            } else {
                post == pre
            }
        },
    }
}

pub open spec fn pause_effect(pre: App, post: App, now: u64, action: AudioAction) -> bool {
    match pre.selected_timer {
        None => post == pre && action == AudioAction::Nothing,
        Some(i) => {
            let t = pre.timers@[i as int];
            match t.state {
                TimerState::Running => {
                    &&& post.timers@ == pre.timers@.update(
                        i as int,
                        Timer {
                            state: TimerState::Stopped,
                            last_started: Some(now),
                            time_left_at_last_tick: t.serializeable_parts.time_left,
                            ..t
                        },
                    )
                    &&& post.selected_timer == pre.selected_timer
                    &&& post.alarm_counter == pre.alarm_counter
                    &&& same_shell(pre, post)
                    &&& action == AudioAction::Nothing
                },
                TimerState::Alarming => dismiss_clause(pre, post, i, action),
                TimerState::Stopped => post == pre && action == AudioAction::Nothing,
            }
        },
    }
}

pub open spec fn reset_effect(pre: App, post: App, action: AudioAction) -> bool {
    match pre.selected_timer {
        None => post == pre && action == AudioAction::Nothing,
        Some(i) => {
            let t = pre.timers@[i as int];
            match t.state {
                TimerState::Running => post == pre && action == AudioAction::Nothing,
                TimerState::Stopped => {
                    &&& post.timers@ == pre.timers@.update(i as int, refreshed_timer(t))
                    &&& post.selected_timer == pre.selected_timer
                    &&& post.alarm_counter == pre.alarm_counter
                    &&& same_shell(pre, post)
                    &&& action == AudioAction::Nothing
                },
                TimerState::Alarming => dismiss_clause(pre, post, i, action),
            }
        },
    }
}

/// Toggling acts on the selected timer: pause when Running, start when
/// Stopped, and deliberately nothing when Alarming (dismissal is a distinct
/// action).
pub open spec fn toggle_effect(pre: App, post: App, now: u64, action: AudioAction) -> bool {
    match pre.selected_timer {
        None => post == pre && action == AudioAction::Nothing,
        Some(i) => match pre.timers@[i as int].state {
            TimerState::Running => pause_effect(pre, post, now, action),
            TimerState::Stopped => start_effect(pre, post, now) && action == AudioAction::Nothing,
            TimerState::Alarming => post == pre && action == AudioAction::Nothing,
        },
    }
}

/// Entering edit mode snapshots the selected timer's description and length
/// into a fresh edit buffer.
pub open spec fn edit_effect(pre: App, post: App) -> bool {
    match pre.selected_timer {
        None => post == pre,
        Some(i) => {
            let t = pre.timers@[i as int];
            &&& post.timers == pre.timers
            &&& post.selected_timer == pre.selected_timer
            &&& post.alarm_counter == pre.alarm_counter
            &&& post.should_quit == pre.should_quit
            &&& post.successful_init == pre.successful_init
            &&& post.screen == AppScreen::Editing(EditField::Description)
            &&& post.edit_values.wf()
            &&& edit_buffer_for(post.edit_values, t.spec_description(), t.spec_length())
        },
    }
}

/// Committing an edit replaces the selected timer with a fresh Stopped timer
/// built from the edit buffer; a replaced alarming timer releases its alarm.
/// (The screen is not constrained here: the dispatcher closes the editor
/// itself.)
pub open spec fn replace_effect(pre: App, post: App, action: AudioAction) -> bool {
    match pre.selected_timer {
        None => {
            &&& post.timers == pre.timers
            &&& post.selected_timer == pre.selected_timer
            &&& post.alarm_counter == pre.alarm_counter
            &&& post.edit_values == pre.edit_values
            &&& post.should_quit == pre.should_quit
            &&& post.successful_init == pre.successful_init
            &&& action == AudioAction::Nothing
        },
        Some(i) => {
            let t = pre.timers@[i as int];
            &&& post.timers@.len() == pre.timers@.len()
            &&& ({
                let nt = post.timers@[i as int];
                &&& nt.spec_description() == pre.edit_values.descript@
                &&& nt.spec_length() == pre.edit_values.spec_duration()
                &&& nt.spec_time_left() == nt.spec_length()
                &&& nt.time_left_at_last_tick == nt.spec_length()
                &&& nt.state is Stopped
                &&& nt.last_started is None
            })
            &&& (forall|j: int|
                0 <= j < pre.timers@.len() && j != i ==> post.timers@[j] == pre.timers@[j])
            &&& post.selected_timer == pre.selected_timer
            &&& post.alarm_counter.alarming_timers == pre.alarm_counter.alarming_timers - (
            if t.is_alarming() {
                1int
            } else {
                0int
            })
            &&& action == (if t.is_alarming() && post.alarm_counter.alarming_timers == 0 {
                AudioAction::Pause
            } else {
                AudioAction::Nothing
            })
            &&& post.edit_values == pre.edit_values
            &&& post.should_quit == pre.should_quit
            &&& post.successful_init == pre.successful_init
        },
    }
}

/// Adding a timer appends a default one, selects it, and opens the editor
/// over a fresh default buffer.
pub open spec fn add_new_effect(pre: App, post: App) -> bool {
    &&& post.timers@.len() == pre.timers@.len() + 1
    &&& post.timers@.drop_last() == pre.timers@
    &&& is_default_timer(post.timers@.last())
    &&& post.selected_timer == Some((post.timers@.len() - 1) as usize)
    &&& post.alarm_counter == pre.alarm_counter
    &&& post.should_quit == pre.should_quit
    &&& post.successful_init == pre.successful_init
    &&& post.screen == AppScreen::Editing(EditField::Description)
    &&& post.edit_values.wf()
    &&& is_default_edit_buffer(post.edit_values)
}

/// One frame tick over the whole collection: every timer advances
/// independently, the counter tracks the alarming timers, and playback
/// starts exactly when the first alarm of the frame appears.
pub open spec fn update_timers_effect(pre: App, post: App, now: u64, action: AudioAction) -> bool {
    &&& post.timers@.len() == pre.timers@.len()
    &&& (forall|j: int|
        0 <= j < pre.timers@.len() ==> post.timers@[j] == spec_tick(
            #[trigger] pre.timers@[j],
            now,
        ))
    &&& post.selected_timer == pre.selected_timer
    &&& post.alarm_counter.alarming_timers == count_alarming(post.timers@)
    &&& action == (if count_alarming(pre.timers@) == 0 && count_alarming(post.timers@) > 0 {
        AudioAction::Play
    } else {
        AudioAction::Nothing
    })
    &&& same_shell(pre, post)
}

impl App {
    /// Append a fresh default timer; selection falls on it only when the
    /// collection was empty.
    pub fn add_default_timer(&mut self)
        requires
            old(self).inv(),
        ensures
            final(self).inv(),
            add_default_effect(*old(self), *final(self)),
    {
        let new_timer = Timer::default();
        proof {
            lemma_count_alarming_push(self.timers@, new_timer);
        }
        self.timers.push(new_timer);
        self.selected_timer = match self.selected_timer {
            Some(i) => Some(i),
            None => Some(0),
        };
        proof {
            assert(self.timers@.drop_last() =~= old(self).timers@);
        }
    }

    /// Append a timer revived from a persisted record.
    pub fn add_timer_from_saved(&mut self, deserialized: SerializeableTimerParts)
        requires
            old(self).inv(),
        ensures
            final(self).inv(),
            add_from_saved_effect(*old(self), *final(self), deserialized@),
    {
        let new_timer = Timer::from_serializeable(deserialized);
        proof {
            lemma_count_alarming_push(self.timers@, new_timer);
        }
        self.timers.push(new_timer);
        self.selected_timer = match self.selected_timer {
            Some(i) => Some(i),
            None => Some(0),
        };
        proof {
            assert(self.timers@.drop_last() =~= old(self).timers@);
        }
    }

    /// Delete the selected timer, if any.
    pub fn delete_timer(&mut self) -> (action: AudioAction)
        requires
            old(self).inv(),
        ensures
            final(self).inv(),
            delete_effect(*old(self), *final(self), action),
    {
        match self.selected_timer {
            None => AudioAction::Nothing,
            Some(i) => {
                let was_alarming = matches!(self.timers[i].state, TimerState::Alarming);
                let action = if was_alarming {
                    proof {
                        lemma_count_alarming_zero(self.timers@);
                    }
                    self.alarm_counter.decrease_counter()
                } else {
                    AudioAction::Nothing
                };
                proof {
                    lemma_count_alarming_remove(self.timers@, i as int);
                }
                self.timers.remove(i);
                let s: usize = self.timers.len();
                self.selected_timer = if s == 0 {
                    None
                } else if s == i {
                    Some(s - 1)
                } else {
                    Some(i)
                };
                proof {
                    assert(forall|j: int|
                        0 <= j < self.timers@.len() ==> self.timers@[j] == if j < i {
                            old(self).timers@[j]
                        } else {
                            old(self).timers@[j + 1]
                        });
                }
                action
            },
        }
    }

    /// Move the selection cursor cyclically forward.
    pub fn increment_selection(&mut self)
        requires
            old(self).inv(),
        ensures
            final(self).inv(),
            increment_selection_effect(*old(self), *final(self)),
    {
        self.selected_timer = match self.selected_timer {
            Some(i) => {
                let n: usize = self.timers.len();
                if i + 1 < n {
                    Some(i + 1)
                } else {
                    Some(0)
                }
            },
            None => None,
        };
    }

    /// Move the selection cursor cyclically backward.
    pub fn decrement_selection(&mut self)
        requires
            old(self).inv(),
        ensures
            final(self).inv(),
            decrement_selection_effect(*old(self), *final(self)),
    {
        self.selected_timer = match self.selected_timer {
            Some(i) => {
                if i == 0 {
                    Some(self.timers.len() - 1)
                } else {
                    Some(i - 1)
                }
            },
            None => None,
        };
    }

    /// Start the selected timer if it is Stopped; Running and Alarming
    /// timers are left alone.
    pub fn start_timer(&mut self, now: u64)
        requires
            old(self).inv(),
        ensures
            final(self).inv(),
            start_effect(*old(self), *final(self), now),
    {
        if let Some(i) = self.selected_timer {
            match self.timers[i].state {
                TimerState::Stopped => {
                    let ghost pre_seq = self.timers@;
                    let t = &mut self.timers[i];
                    t.state = TimerState::Running;
                    t.last_started = Some(now);
                    proof {
                        lemma_count_alarming_update(pre_seq, i as int, self.timers@[i as int]);
                    }
                },
                _ => {},
            }
        }
    }

    /// Pause the selected Running timer, or dismiss it if it is Alarming.
    pub fn pause_timer(&mut self, now: u64) -> (action: AudioAction)
        requires
            old(self).inv(),
        ensures
            final(self).inv(),
            pause_effect(*old(self), *final(self), now, action),
    {
        if let Some(i) = self.selected_timer {
            match self.timers[i].state {
                TimerState::Running => {
                    let ghost pre_seq = self.timers@;
                    let t = &mut self.timers[i];
                    t.state = TimerState::Stopped;
                    t.last_started = Some(now);
                    t.time_left_at_last_tick = t.serializeable_parts.time_left;
                    proof {
                        lemma_count_alarming_update(pre_seq, i as int, self.timers@[i as int]);
                    }
                    AudioAction::Nothing
                },
                TimerState::Alarming => self.dismiss_selected(i),
                TimerState::Stopped => AudioAction::Nothing,
            }
        } else {
            AudioAction::Nothing
        }
    }

    /// Dismiss the alarming timer at the selected index `i`: refresh it and
    /// release its alarm.
    fn dismiss_selected(&mut self, i: usize) -> (action: AudioAction)
        requires
            old(self).inv(),
            old(self).selected_timer == Some(i),
            i < old(self).timers@.len(),
            old(self).timers@[i as int].is_alarming(),
        ensures
            final(self).inv(),
            dismiss_clause(*old(self), *final(self), i, action),
    {
        let ghost pre_seq = self.timers@;
        let length = self.timers[i].get_length();
        let t = &mut self.timers[i];
        t.state = TimerState::Stopped;
        t.last_started = None;
        t.serializeable_parts.time_left = length;
        t.time_left_at_last_tick = length;
        proof {
            lemma_count_alarming_update(pre_seq, i as int, self.timers@[i as int]);
            lemma_count_alarming_zero(pre_seq);
            lemma_count_alarming_bounds(pre_seq);
        }
        self.alarm_counter.decrease_counter()
    }

    /// Toggle the selected timer between Running and Stopped; an Alarming
    /// timer is deliberately left for an explicit dismissal.
    pub fn toggle_timer(&mut self, now: u64) -> (action: AudioAction)
        requires
            old(self).inv(),
        ensures
            final(self).inv(),
            toggle_effect(*old(self), *final(self), now, action),
    {
        if let Some(i) = self.selected_timer {
            match self.timers[i].state {
                TimerState::Running => self.pause_timer(now),
                TimerState::Stopped => {
                    self.start_timer(now);
                    AudioAction::Nothing
                },
                TimerState::Alarming => AudioAction::Nothing,
            }
        } else {
            AudioAction::Nothing
        }
    }

    /// Reset the selected Stopped timer to its configured length, or dismiss
    /// it if it is Alarming; a Running timer is left alone.
    pub fn reset_timer(&mut self) -> (action: AudioAction)
        requires
            old(self).inv(),
        ensures
            final(self).inv(),
            reset_effect(*old(self), *final(self), action),
    {
        if let Some(i) = self.selected_timer {
            match self.timers[i].state {
                TimerState::Running => AudioAction::Nothing,
                TimerState::Stopped => {
                    let ghost pre_seq = self.timers@;
                    let length = self.timers[i].get_length();
                    let t = &mut self.timers[i];
                    t.last_started = None;
                    t.serializeable_parts.time_left = length;
                    t.time_left_at_last_tick = length;
                    proof {
                        lemma_count_alarming_update(pre_seq, i as int, self.timers@[i as int]);
                    }
                    AudioAction::Nothing
                },
                TimerState::Alarming => self.dismiss_selected(i),
            }
        } else {
            AudioAction::Nothing
        }
    }

    /// Open the editor over the selected timer's description and length.
    pub fn edit_timer(&mut self)
        requires
            old(self).inv(),
        ensures
            final(self).inv(),
            edit_effect(*old(self), *final(self)),
    {
        if let Some(i) = self.selected_timer {
            self.screen = AppScreen::Editing(EditField::Description);
            let descr = self.timers[i].clone_description();
            let length = self.timers[i].get_length();
            self.edit_values = EditValues::new(descr, length);
        }
    }

    /// Replace the selected timer with a fresh one built from the edit
    /// buffer's description and derived duration.
    pub fn replace_timer(&mut self) -> (action: AudioAction)
        requires
            old(self).inv(),
        ensures
            final(self).inv(),
            replace_effect(*old(self), *final(self), action),
            final(self).screen == old(self).screen,
    {
        let duration = self.edit_values.to_duration();
        let descr = self.edit_values.descript.clone();
        let new_timer = Timer::new(descr, duration);
        if let Some(i) = self.selected_timer {
            let was_alarming = matches!(self.timers[i].state, TimerState::Alarming);
            let action = if was_alarming {
                proof {
                    lemma_count_alarming_zero(self.timers@);
                    lemma_count_alarming_bounds(self.timers@);
                }
                self.alarm_counter.decrease_counter()
            } else {
                AudioAction::Nothing
            };
            proof {
                lemma_count_alarming_update(self.timers@, i as int, new_timer);
            }
            self.timers[i] = new_timer;
            action
        } else {
            AudioAction::Nothing
        }
    }

    /// Add a default timer, select it, and open the editor over a fresh
    /// default buffer.
    pub fn add_new_timer(&mut self)
        requires
            old(self).inv(),
        ensures
            final(self).inv(),
            add_new_effect(*old(self), *final(self)),
    {
        self.add_default_timer();
        let n: usize = self.timers.len();
        self.selected_timer = Some(n - 1);
        self.screen = AppScreen::Editing(EditField::Description);
        self.edit_values = EditValues::default();
    }

    /// Advance every timer by one frame at instant `now`.
    pub fn update_timers(&mut self, now: u64) -> (action: AudioAction)
        requires
            old(self).inv(),
        ensures
            final(self).inv(),
            update_timers_effect(*old(self), *final(self), now, action),
    {
        let mut played: bool = false;
        let n: usize = self.timers.len();
        let mut idx: usize = 0;
        while idx < n
            invariant
                old(self).inv(),
                n == self.timers@.len(),
                idx <= n,
                self.timers@.len() == old(self).timers@.len(),
                forall|j: int|
                    0 <= j < idx ==> self.timers@[j] == spec_tick(
                        #[trigger] old(self).timers@[j],
                        now,
                    ),
                forall|j: int| idx <= j < n ==> self.timers@[j] == old(self).timers@[j],
                self.timers_wf(),
                self.alarm_counter.alarming_timers == count_alarming(self.timers@),
                played == (count_alarming(old(self).timers@) == 0 && count_alarming(self.timers@)
                    > 0),
                self.selected_timer == old(self).selected_timer,
                self.should_quit == old(self).should_quit,
                self.screen == old(self).screen,
                self.edit_values == old(self).edit_values,
                self.successful_init == old(self).successful_init,
            decreases n - idx,
        {
            let ghost pre_seq = self.timers@;
            let ghost pre_count = self.alarm_counter.alarming_timers as int;
            let t = &mut self.timers[idx];
            let became = t.tick(now);
            proof {
                lemma_count_alarming_update(pre_seq, idx as int, self.timers@[idx as int]);
            }
            if became {
                proof {
                    lemma_count_alarming_bounds(self.timers@);
                    lemma_count_alarming_bounds(pre_seq);
                    lemma_count_alarming_zero(pre_seq);
                    lemma_count_alarming_zero(old(self).timers@);
                    // a timer alarming before this frame is still alarming now
                    assert forall|j: int|
                        0 <= j < n && old(self).timers@[j].is_alarming()
                        implies pre_seq[j].is_alarming() by {
                        if j < idx {
                            assert(pre_seq[j] == spec_tick(old(self).timers@[j], now));
                        }
                    };
                }
                let a = self.alarm_counter.increase_counter();
                match a {
                    AudioAction::Play => {
                        played = true;
                    },
                    _ => {},
                }
            }
            idx += 1;
        }
        if played {
            AudioAction::Play
        } else {
            AudioAction::Nothing
        }
    }
}

// ---------------------------------------------------------------------------
// Persistence
// ---------------------------------------------------------------------------

/// The persisted records of a timer sequence.
pub open spec fn timer_records(ts: Seq<Timer>) -> Seq<RecordView> {
    ts.map(|i: int, t: Timer| t.record())
}

/// What loading one record produces: a fresh Stopped timer seeded from the
/// record, its time left clamped to its length.
pub open spec fn loaded_timer(t: Timer, rec: RecordView) -> bool {
    &&& t.spec_description() == rec.description
    &&& t.spec_length() == rec.length
    &&& t.spec_time_left() == if rec.time_left <= rec.length {
        rec.time_left
    } else {
        rec.length
    }
    &&& t.time_left_at_last_tick == t.spec_time_left()
    &&& t.state is Stopped
    &&& t.last_started is None
}

impl App {
    /// The persisted form of the current collection: the description, length
    /// and time left of every timer, in order, whatever its state.
    pub fn dump_json(&self) -> (s: String)
        ensures
            s@ == encode_records(timer_records(self.timers@)),
    {
        let mut records: Vec<SerializeableTimerParts> = Vec::new();
        let mut i: usize = 0;
        while i < self.timers.len()
            invariant
                i <= self.timers@.len(),
                recs_view(records@) == timer_records(self.timers@.subrange(0, i as int)),
            decreases self.timers@.len() - i,
        {
            let ghost pre = records@;
            let t = &self.timers[i];
            let rec = SerializeableTimerParts::new(
                t.clone_description(),
                t.get_length(),
                t.get_time_left(),
            );
            let ghost grec = rec;
            records.push(rec);
            i += 1;
            proof {
                crate::codec::lemma_recs_view_push(pre, grec);
                assert(grec@ == self.timers@[i - 1].record());
                assert(timer_records(self.timers@.subrange(0, i as int)) =~= timer_records(
                    self.timers@.subrange(0, i - 1),
                ).push(self.timers@[i - 1].record()));
            }
        }
        proof {
            assert(self.timers@.subrange(0, self.timers@.len() as int) =~= self.timers@);
        }
        encode_records_exec(&records)
    }

    /// Load persisted text; each record appends as a fresh Stopped timer.
    /// Text the grammar rejects is reported and leaves everything untouched.
    pub fn read_from_json(&mut self, json: &str) -> (r: Result<(), JsonError>)
        requires
            old(self).inv(),
        ensures
            final(self).inv(),
            r is Ok <==> spec_parse_records(json@) is Some,
            r is Err ==> *final(self) == *old(self),
            r is Ok ==> ({
                let recs = spec_parse_records(json@)->0;
                &&& final(self).timers@.len() == old(self).timers@.len() + recs.len()
                &&& final(self).timers@.subrange(0, old(self).timers@.len() as int) == old(
                    self,
                ).timers@
                &&& (forall|k: int|
                    0 <= k < recs.len() ==> loaded_timer(
                        #[trigger] final(self).timers@[old(self).timers@.len() + k],
                        recs[k],
                    ))
                &&& final(self).selected_timer == (match old(self).selected_timer {
                    Some(x) => Some(x),
                    None => if recs.len() == 0 {
                        Option::<usize>::None
                    } else {
                        Some(0usize)
                    },
                })
                &&& final(self).alarm_counter == old(self).alarm_counter
                &&& same_shell(*old(self), *final(self))
            }),
    {
        match parse_records_exec(json) {
            None => Err(JsonError),
            Some(recs) => {
                let ghost rv = recs_view(recs@);
                let ghost old_len = self.timers@.len() as int;
                let mut rest = recs;
                let n: usize = rest.len();
                let mut i: usize = 0;
                while i < n
                    invariant
                        i <= n,
                        rest@.len() == n - i,
                        rv.len() == n,
                        forall|k: int| 0 <= k < n - i ==> #[trigger] rest@[k]@ == rv[i + k],
                        self.inv(),
                        self.timers@.len() == old_len + i,
                        old_len == old(self).timers@.len(),
                        self.timers@.subrange(0, old_len) == old(self).timers@,
                        forall|k: int|
                            0 <= k < i ==> loaded_timer(
                                #[trigger] self.timers@[old_len + k],
                                rv[k],
                            ),
                        self.selected_timer == (match old(self).selected_timer {
                            Some(x) => Some(x),
                            None => if i == 0 {
                                Option::<usize>::None
                            } else {
                                Some(0usize)
                            },
                        }),
                        self.alarm_counter == old(self).alarm_counter,
                        same_shell(*old(self), *self),
                    decreases n - i,
                {
                    let ghost pre_timers = self.timers@;
                    let ghost pre_rest = rest@;
                    let rec = rest.remove(0);
                    let ghost grec = rec;
                    self.add_timer_from_saved(rec);
                    i += 1;
                    proof {
                        assert(grec@ == rv[i - 1]);
                        assert(self.timers@.drop_last() == pre_timers);
                        assert(self.timers@.subrange(0, old_len) =~= pre_timers.subrange(
                            0,
                            old_len,
                        ));
                        assert forall|k: int| 0 <= k < rest@.len() implies #[trigger] rest@[k]@
                            == rv[i + k] by {
                            assert(rest@[k] == pre_rest[k + 1]);
                        };
                        assert forall|k: int| 0 <= k < i implies loaded_timer(
                            #[trigger] self.timers@[old_len + k],
                            rv[k],
                        ) by {
                            if k < i - 1 {
                                assert(self.timers@[old_len + k] == pre_timers[old_len + k]);
                            } else {
                                assert(self.timers@[old_len + k] == self.timers@.last());
                            }
                        };
                    }
                }
                Ok(())
            },
        }
    }
}

/// Law: persisting a collection and reloading it reproduces the same
/// description/length/time-left triples. The persisted text of a well-formed
/// collection parses back to exactly its records, and a loaded record whose
/// time left does not exceed its length — true of every well-formed timer's
/// record — revives unchanged, as a Stopped timer.
pub proof fn lemma_persist_reload(ts: Seq<Timer>)
    requires
        forall|k: int| 0 <= k < ts.len() ==> (#[trigger] ts[k]).wf(),
    ensures
        spec_parse_records(encode_records(timer_records(ts))) == Some(timer_records(ts)),
        forall|k: int, t: Timer|
            0 <= k < ts.len() && #[trigger] loaded_timer(t, timer_records(ts)[k]) ==> t.record()
                == timer_records(ts)[k] && t.state is Stopped,
{
    lemma_parse_encode_roundtrip(timer_records(ts));
    assert forall|k: int, t: Timer|
        0 <= k < ts.len() && #[trigger] loaded_timer(t, timer_records(ts)[k]) implies t.record()
        == timer_records(ts)[k] && t.state is Stopped by {
        assert(timer_records(ts)[k] == ts[k].record());
        assert(ts[k].wf());
    };
}

// ---------------------------------------------------------------------------
// The key dispatcher
// ---------------------------------------------------------------------------

/// Only the screen changed, to `f` of the editor.
pub open spec fn goto_field(pre: App, post: App, f: EditField) -> bool {
    post == App { screen: AppScreen::Editing(f), ..pre }
}

/// Only the register at `field` changed, to `v`.
pub open spec fn register_changed(pre: App, post: App, field: EditField, v: int) -> bool {
    post == App {
        edit_values: pre.edit_values.spec_with(
            field,
            EditValue { value: v as i64, modulus: pre.edit_values.spec_get(field).modulus },
        ),
        ..pre
    }
}

/// Typing the digit `c` at `field` stores it (clamped to the register's
/// modulus) and advances to the next field in cycle order.
pub open spec fn digit_entry(pre: App, post: App, field: EditField, c: char) -> bool {
    let m = pre.edit_values.spec_get(field).modulus as int;
    let d = digit_val(c);
    post == App {
        edit_values: pre.edit_values.spec_with(
            field,
            EditValue {
                value: (if d < m {
                    d
                } else {
                    m - 1
                }) as i64,
                modulus: pre.edit_values.spec_get(field).modulus,
            },
        ),
        screen: AppScreen::Editing(spec_next_field(field)),
        ..pre
    }
}

/// Everything except the description text is unchanged.
pub open spec fn desc_edit_keeps(pre: App, post: App) -> bool {
    &&& post.edit_values.hours1 == pre.edit_values.hours1
    &&& post.edit_values.hours2 == pre.edit_values.hours2
    &&& post.edit_values.hours3 == pre.edit_values.hours3
    &&& post.edit_values.minutes1 == pre.edit_values.minutes1
    &&& post.edit_values.minutes2 == pre.edit_values.minutes2
    &&& post.edit_values.seconds1 == pre.edit_values.seconds1
    &&& post.edit_values.seconds2 == pre.edit_values.seconds2
    &&& post.timers == pre.timers
    &&& post.selected_timer == pre.selected_timer
    &&& post.alarm_counter == pre.alarm_counter
    &&& post.should_quit == pre.should_quit
    &&& post.successful_init == pre.successful_init
    &&& post.screen == pre.screen
}

/// The full key protocol: what one key press does on each screen. Keys not
/// recognised for the current screen are ignored silently.
pub open spec fn key_effect(pre: App, post: App, key: Key, now: u64, action: AudioAction) -> bool {
    match pre.screen {
        AppScreen::Main => match key {
            Key::Char(c) => if c == 'q' {
                post == App { should_quit: true, ..pre } && action == AudioAction::Nothing
            } else if c == 'k' {
                decrement_selection_effect(pre, post) && action == AudioAction::Nothing
            } else if c == 'j' {
                increment_selection_effect(pre, post) && action == AudioAction::Nothing
            } else if c == 'a' {
                add_new_effect(pre, post) && action == AudioAction::Nothing
            } else if c == 'd' {
                delete_effect(pre, post, action)
            } else if c == 'p' {
                toggle_effect(pre, post, now, action)
            } else if c == 'r' {
                reset_effect(pre, post, action)
            } else if c == 'e' {
                edit_effect(pre, post) && action == AudioAction::Nothing
            } else {
                post == pre && action == AudioAction::Nothing
            },
            _ => post == pre && action == AudioAction::Nothing,
        },
        AppScreen::Editing(field) => if field is Description {
            match key {
                Key::Tab => goto_field(pre, post, EditField::Hours1) && action
                    == AudioAction::Nothing,
                Key::BackTab => goto_field(pre, post, EditField::Seconds2) && action
                    == AudioAction::Nothing,
                Key::Enter => replace_effect(pre, post, action) && post.screen
                    == AppScreen::Main,
                Key::Char(c) => post.edit_values.descript@ == pre.edit_values.descript@.push(c)
                    && desc_edit_keeps(pre, post) && action == AudioAction::Nothing,
                Key::Backspace => post.edit_values.descript@ == (
                if pre.edit_values.descript@.len() == 0 {
                    pre.edit_values.descript@
                } else {
                    pre.edit_values.descript@.drop_last()
                }) && desc_edit_keeps(pre, post) && action == AudioAction::Nothing,
                _ => post == pre && action == AudioAction::Nothing,
            }
        } else {
            match key {
                Key::Tab | Key::Right => goto_field(pre, post, spec_next_field(field)) && action
                    == AudioAction::Nothing,
                Key::BackTab | Key::Left => goto_field(pre, post, spec_previous_field(field))
                    && action == AudioAction::Nothing,
                Key::Enter => replace_effect(pre, post, action) && post.screen
                    == AppScreen::Main,
                Key::Char(c) => if c == 'l' || c == 'H' {
                    goto_field(pre, post, spec_next_field(field)) && action
                        == AudioAction::Nothing
                } else if c == 'h' || c == 'L' {
                    goto_field(pre, post, spec_previous_field(field)) && action
                        == AudioAction::Nothing
                } else if c == 'k' {
                    register_changed(
                        pre,
                        post,
                        field,
                        spec_inc(
                            pre.edit_values.spec_get(field).value as int,
                            pre.edit_values.spec_get(field).modulus as int,
                        ),
                    ) && action == AudioAction::Nothing
                } else if c == 'j' {
                    register_changed(
                        pre,
                        post,
                        field,
                        spec_dec(
                            pre.edit_values.spec_get(field).value as int,
                            pre.edit_values.spec_get(field).modulus as int,
                        ),
                    ) && action == AudioAction::Nothing
                } else if is_digit_char(c) {
                    digit_entry(pre, post, field, c) && action == AudioAction::Nothing
                } else {
                    post == pre && action == AudioAction::Nothing
                },
                _ => post == pre && action == AudioAction::Nothing,
            }
        },
        AppScreen::Navigating => post == pre && action == AudioAction::Nothing,
        AppScreen::Error(_) => match key {
            Key::Char(c) => if c == 'q' {
                post == App { should_quit: true, ..pre } && action == AudioAction::Nothing
            } else {
                post == pre && action == AudioAction::Nothing
            },
            Key::Enter => post == App { screen: AppScreen::Main, ..pre } && action
                == AudioAction::Nothing,
            _ => post == pre && action == AudioAction::Nothing,
        },
    }
}

impl App {
    /// Apply one key press under the current screen's key map.
    pub fn handle_key(&mut self, key: Key, now: u64) -> (action: AudioAction)
        requires
            old(self).inv(),
        ensures
            final(self).inv(),
            key_effect(*old(self), *final(self), key, now, action),
    {
        let screen = self.screen;
        match screen {
            AppScreen::Main => match key {
                Key::Char(c) => {
                    if c == 'q' {
                        self.should_quit = true;
                        AudioAction::Nothing
                    } else if c == 'k' {
                        self.decrement_selection();
                        AudioAction::Nothing
                    } else if c == 'j' {
                        self.increment_selection();
                        AudioAction::Nothing
                    } else if c == 'a' {
                        self.add_new_timer();
                        AudioAction::Nothing
                    } else if c == 'd' {
                        self.delete_timer()
                    } else if c == 'p' {
                        self.toggle_timer(now)
                    } else if c == 'r' {
                        self.reset_timer()
                    } else if c == 'e' {
                        self.edit_timer();
                        AudioAction::Nothing
                    } else {
                        AudioAction::Nothing
                    }
                },
                _ => AudioAction::Nothing,
            },
            AppScreen::Editing(field) => match field {
                EditField::Description => match key {
                    Key::Tab => {
                        self.screen = AppScreen::Editing(EditField::Hours1);
                        AudioAction::Nothing
                    },
                    Key::BackTab => {
                        self.screen = AppScreen::Editing(EditField::Seconds2);
                        AudioAction::Nothing
                    },
                    Key::Enter => {
                        let action = self.replace_timer();
                        self.screen = AppScreen::Main;
                        action
                    },
                    Key::Char(c) => {
                        self.edit_values.push_description(c);
                        AudioAction::Nothing
                    },
                    Key::Backspace => {
                        self.edit_values.backspace_description();
                        AudioAction::Nothing
                    },
                    _ => AudioAction::Nothing,
                },
                _ => match key {
                    Key::Tab | Key::Right => {
                        self.screen = AppScreen::Editing(next_field(field));
                        AudioAction::Nothing
                    },
                    Key::BackTab | Key::Left => {
                        self.screen = AppScreen::Editing(previous_field(field));
                        AudioAction::Nothing
                    },
                    Key::Enter => {
                        let action = self.replace_timer();
                        self.screen = AppScreen::Main;
                        action
                    },
                    Key::Char(c) => {
                        if c == 'l' || c == 'H' {
                            self.screen = AppScreen::Editing(next_field(field));
                        } else if c == 'h' || c == 'L' {
                            self.screen = AppScreen::Editing(previous_field(field));
                        } else if c == 'k' {
                            self.edit_values.inc_field(field);
                        } else if c == 'j' {
                            self.edit_values.dec_field(field);
                        } else {
                            let u: u32 = c as u32;
                            if 48 <= u && u <= 57 {
                                self.edit_values.set_field(field, (u - 48) as i64);
                                self.screen = AppScreen::Editing(next_field(field));
                            }
                        }
                        AudioAction::Nothing
                    },
                    _ => AudioAction::Nothing,
                },
            },
            AppScreen::Navigating => AudioAction::Nothing,
            AppScreen::Error(_) => match key {
                Key::Char(c) => {
                    if c == 'q' {
                        self.should_quit = true;
                    }
                    AudioAction::Nothing
                },
                Key::Enter => {
                    self.screen = AppScreen::Main;
                    AudioAction::Nothing
                },
                _ => AudioAction::Nothing,
            },
        }
    }
}

} // verus!
