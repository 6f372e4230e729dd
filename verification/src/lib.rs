//! A pomodoro countdown library: a verified timer state machine that
//! alternates work and break phases, a phase sequencer that decides when a
//! completed work session is recorded, and a session log with a byte codec
//! whose round trip is proved.
//!
//! All input and output (terminal, clock ticks, key presses, the file that
//! holds the log) live outside this crate; the library is the pure core that
//! consumes ticks and key events and produces states, actions and bytes.

pub mod clock;
pub mod codec;
pub mod log;
pub mod sequencer;
pub mod timer;
