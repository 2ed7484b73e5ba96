//! Requests and responses between the command line and the daemon.
pub mod protocol;
