//! Core of a terminal multi-timer utility: countdown timers with a
//! Stopped/Running/Alarming state machine, a digit-register edit buffer with
//! cyclic field navigation, a reference-counted alarm gate, and a JSON codec
//! for the persisted timer records.

pub mod alarm;
pub mod app;
pub mod codec;
pub mod edit;
pub mod strutil;
pub mod timer;
