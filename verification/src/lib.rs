//! Core of `app-powerd`, a user-level daemon that saves battery by freezing and
//! throttling applications that do not have focus.
//!
//! The library decides; it performs no I/O. A handler takes an event, the time
//! and what was observed of the system, changes the state, and returns what is
//! to be carried out. What came of that is handed to another handler.
//!
//! - [`config`]: configuration, rules, profiles, matching
//! - [`desktop`]: events of the window systems
//! - [`engine`]: the state of the daemon and its event handlers
//! - [`guards`]: safety checks before a suspend
//! - [`system`]: process identity, protection, cgroups, power source
//! - [`state`]: application state machine, registry and freeze journal
//! - [`ipc`]: the protocol of the control socket
//! - [`cli`]: what the command line client asks and shows
//! - [`metrics`]: counters
//!
//! # Suspension safety
//!
//! A stopped process cannot resume itself, so the daemon is the only thing that
//! can release what it suspends. [`state::journal::FreezeJournal`] records what
//! is suspended before the first signal, and a process leaves the record only
//! when it was released or is dead.

pub mod assoc;
pub mod cli;
pub mod config;
pub mod desktop;
pub mod engine;
pub mod error;
pub mod guards;
pub mod ipc;
pub mod metrics;
pub mod state;
pub mod system;
pub mod text;
pub mod time;
