//! The reference-counted alarm gate: while at least one timer is alarming
//! the alarm sound should play, and it should stop when the count returns to
//! zero. The counter decides; actually driving an audio sink is the host's
//! job, so every transition reports the required playback change.

use vstd::prelude::*;

verus! {

/// What the host should do with the alarm sound after a counter transition.
#[derive(Clone, Copy, Debug, PartialEq, Eq, Structural)]
pub enum AudioAction {
    /// Leave playback as it is.
    Nothing,
    /// Start (resume) the looping alarm sound.
    Play,
    /// Pause the looping alarm sound.
    Pause,
}

/// Counts the timers currently in the Alarming state.
pub struct AlarmCounter {
    pub alarming_timers: usize,
}

impl AlarmCounter {
    pub fn new() -> (c: AlarmCounter)
        ensures
            c.alarming_timers == 0,
    {
        AlarmCounter { alarming_timers: 0 }
    }

    /// One more timer is alarming; playback starts exactly on the transition
    /// from zero.
    pub fn increase_counter(&mut self) -> (action: AudioAction)
        requires
            old(self).alarming_timers < usize::MAX,
        ensures
            final(self).alarming_timers == old(self).alarming_timers + 1,
            action == if old(self).alarming_timers == 0 {
                AudioAction::Play
            } else {
                AudioAction::Nothing
            },
    {
        let action = if self.alarming_timers == 0 {
            AudioAction::Play
        } else {
            AudioAction::Nothing
        };
        self.alarming_timers = self.alarming_timers + 1;
        action
    }

    /// One alarming timer was dismissed or removed; playback pauses exactly
    /// when the count returns to zero.
    pub fn decrease_counter(&mut self) -> (action: AudioAction)
        requires
            old(self).alarming_timers > 0,
        ensures
            final(self).alarming_timers == old(self).alarming_timers - 1,
            action == if old(self).alarming_timers == 1 {
                AudioAction::Pause
            } else {
                AudioAction::Nothing
            },
    {
        self.alarming_timers = self.alarming_timers - 1;
        if self.alarming_timers == 0 {
            AudioAction::Pause
        } else {
            AudioAction::Nothing
        }
    }
}

} // verus!
