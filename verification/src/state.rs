//! Application state: the state machine, the registry and the freeze journal.
pub mod app_entry;
pub mod journal;
pub mod machine;
pub mod process_set;
pub mod registry;
