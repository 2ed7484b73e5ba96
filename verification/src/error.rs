//! Errors of the library, with the text shown for each.
use vstd::prelude::*;

use crate::config::pattern::{error_limit, error_text, regex_error_limit, regex_error_text};
use crate::text::{cat2, cat3, cat4, cat5, decimal, format_u64};

verus! {

/// Errors of configuration loading, parsing and validation.
#[derive(Debug)]
#[non_exhaustive]
pub enum ConfigError {
    /// The configuration file does not exist at the expected path.
    NotFound { path: String },
    /// The file could not be parsed.
    Parse { reason: String },
    /// A field value is not allowed.
    Validation { message: String },
    /// A regex in a rule's match criteria does not compile.
    InvalidRegex { rule_id: String, source: regex::Error },
    /// A rule references a profile that is not defined.
    UnknownProfile { rule_id: String, profile: String },
    /// The file could not be read.
    Io { reason: String },
}

impl ConfigError {
    /// The text shown for the error.
    pub open spec fn text(&self) -> Seq<char> {
        match self {
            ConfigError::NotFound { path } => "config file not found: "@ + path@,
            ConfigError::Parse { reason } => "parse error: "@ + reason@,
            ConfigError::Validation { message } => "validation error: "@ + message@,
            ConfigError::InvalidRegex { rule_id, source } => "invalid regex in rule '"@ + rule_id@
                + "': "@ + regex_error_text(*source),
            ConfigError::UnknownProfile { rule_id, profile } => "unknown profile '"@ + profile@
                + "' in rule '"@ + rule_id@ + "'"@,
            ConfigError::Io { reason } => "io error: "@ + reason@,
        }
    }

    /// Renders the error.
    pub fn message(&self) -> (r: String)
        ensures
            r@ == self.text(),
    {
        match self {
            ConfigError::NotFound { path } => cat2("config file not found: ", path),
            ConfigError::Parse { reason } => cat2("parse error: ", reason),
            ConfigError::Validation { message } => cat2("validation error: ", message),
            ConfigError::InvalidRegex { rule_id, source } => {
                let reason = error_text(source);
                cat4("invalid regex in rule '", rule_id, "': ", &reason)
            },
            ConfigError::UnknownProfile { rule_id, profile } => cat5(
                "unknown profile '",
                profile,
                "' in rule '",
                rule_id,
                "'",
            ),
            ConfigError::Io { reason } => cat2("io error: ", reason),
        }
    }

    /// The size limit that a pattern exceeded, where that is the error.
    pub fn exceeded_limit(&self) -> (r: Option<usize>)
        ensures
            r == (match self {
                ConfigError::InvalidRegex { source, .. } => regex_error_limit(*source),
                _ => None,
            }),
    {
        match self {
            ConfigError::InvalidRegex { source, .. } => error_limit(source),
            _ => None,
        }
    }
}

/// Errors of operations on processes, cgroups and signals.
#[derive(Debug)]
#[non_exhaustive]
pub enum SystemError {
    /// The PID names no process that can be targeted.
    ProcessNotFound { pid: u32 },
    /// The process has exited.
    ProcessGone { pid: u32 },
    /// The metadata of a process could not be read.
    ProcessReadError { pid: u32, message: String },
    /// A cgroup operation was given something it cannot do.
    CgroupError { message: String },
    /// A cgroup file could not be written.
    CgroupOperation { operation: String, path: String, source: String },
    /// No cgroup capability was detected.
    NoCgroupCapability,
    /// An application could not be throttled.
    ThrottleFailed { app_id: String, reason: String },
    /// A file could not be read or written.
    Io { reason: String },
    /// The kernel refused a call: its error number, and the text for it.
    Nix { code: i32, text: String },
}

impl SystemError {
    /// The text shown for the error.
    pub open spec fn text(&self) -> Seq<char> {
        match self {
            SystemError::ProcessNotFound { pid } => "process "@ + decimal(*pid as nat)
                + " not found"@,
            SystemError::ProcessGone { pid } => "process "@ + decimal(*pid as nat)
                + " has exited"@,
            SystemError::ProcessReadError { pid, message } => "process "@ + decimal(*pid as nat)
                + ": "@ + message@,
            SystemError::CgroupError { message } => "cgroup operation failed: "@ + message@,
            SystemError::CgroupOperation { operation, path, source } => "cgroup "@ + operation@
                + " failed on "@ + path@ + (": "@ + source@),
            SystemError::NoCgroupCapability => "no cgroup capability available"@,
            SystemError::ThrottleFailed { app_id, reason } => "throttle failed for "@ + app_id@
                + ": "@ + reason@,
            SystemError::Io { reason } => "io error: "@ + reason@,
            SystemError::Nix { code, text } => "nix errno: "@ + text@,
        }
    }

    /// Renders the error.
    pub fn message(&self) -> (r: String)
        ensures
            r@ == self.text(),
    {
        match self {
            SystemError::ProcessNotFound { pid } => {
                let n = format_u64(*pid as u64);
                cat3("process ", &n, " not found")
            },
            SystemError::ProcessGone { pid } => {
                let n = format_u64(*pid as u64);
                cat3("process ", &n, " has exited")
            },
            SystemError::ProcessReadError { pid, message } => {
                let n = format_u64(*pid as u64);
                cat4("process ", &n, ": ", message)
            },
            SystemError::CgroupError { message } => cat2("cgroup operation failed: ", message),
            SystemError::CgroupOperation { operation, path, source } => {
                let head = cat4("cgroup ", operation, " failed on ", path);
                let tail = cat2(": ", source);
                cat2(&head, &tail)
            },
            SystemError::NoCgroupCapability => "no cgroup capability available".to_owned(),
            SystemError::ThrottleFailed { app_id, reason } => cat4(
                "throttle failed for ",
                app_id,
                ": ",
                reason,
            ),
            SystemError::Io { reason } => cat2("io error: ", reason),
            SystemError::Nix { code: _, text } => cat2("nix errno: ", text),
        }
    }
}

/// Errors of the freeze journal.
#[derive(Debug)]
#[non_exhaustive]
pub enum JournalError {
    /// The file could not be read or written.
    Io { path: String, reason: String },
    /// The file does not hold a journal.
    Corrupt { path: String, reason: String },
    /// The file has a schema version that is not understood.
    UnsupportedVersion { path: String, found: u32, expected: u32 },
}

impl JournalError {
    /// The text shown for the error.
    pub open spec fn text(&self) -> Seq<char> {
        match self {
            JournalError::Io { path, reason } => "freeze journal "@ + path@ + ": "@ + reason@,
            JournalError::Corrupt { path, reason } => "freeze journal "@ + path@
                + " is corrupt: "@ + reason@,
            JournalError::UnsupportedVersion { path, found, expected } => "freeze journal "@ + path@
                + " has version "@ + decimal(*found as nat) + (", expected "@ + decimal(
                *expected as nat,
            )),
        }
    }

    /// Renders the error.
    pub fn message(&self) -> (r: String)
        ensures
            r@ == self.text(),
    {
        match self {
            JournalError::Io { path, reason } => cat4("freeze journal ", path, ": ", reason),
            JournalError::Corrupt { path, reason } => cat4(
                "freeze journal ",
                path,
                " is corrupt: ",
                reason,
            ),
            JournalError::UnsupportedVersion { path, found, expected } => {
                let f = format_u64(*found as u64);
                let e = format_u64(*expected as u64);
                let head = cat4("freeze journal ", path, " has version ", &f);
                let tail = cat2(", expected ", &e);
                cat2(&head, &tail)
            },
        }
    }
}

/// Errors of the integration with the display server.
#[derive(Debug)]
#[non_exhaustive]
pub enum DesktopError {
    /// Neither X11 nor Wayland display server was detected.
    NoDisplayServer,
    /// X11 connection or protocol error.
    X11Connection(String),
    /// Wayland connection or protocol error.
    WaylandConnection(String),
    /// The focus backend disconnected unexpectedly.
    Disconnected,
}

impl DesktopError {
    /// The text shown for the error.
    pub open spec fn text(&self) -> Seq<char> {
        match self {
            DesktopError::NoDisplayServer => "no supported display server detected (WAYLAND_DISPLAY and DISPLAY are unset or unavailable); ensure the daemon runs inside a desktop session and that the appropriate feature flag (x11 or wayland) was enabled at build time"@,
            DesktopError::X11Connection(reason) => "x11 connection failed: "@ + reason@,
            DesktopError::WaylandConnection(reason) => "wayland connection failed: "@ + reason@,
            DesktopError::Disconnected => "backend disconnected"@,
        }
    }

    /// Renders the error.
    pub fn message(&self) -> (r: String)
        ensures
            r@ == self.text(),
    {
        match self {
            DesktopError::NoDisplayServer => "no supported display server detected (WAYLAND_DISPLAY and DISPLAY are unset or unavailable); ensure the daemon runs inside a desktop session and that the appropriate feature flag (x11 or wayland) was enabled at build time".to_owned(),
            DesktopError::X11Connection(reason) => cat2("x11 connection failed: ", reason),
            DesktopError::WaylandConnection(reason) => cat2("wayland connection failed: ", reason),
            DesktopError::Disconnected => "backend disconnected".to_owned(),
        }
    }
}

/// The text of an error names what it is about.
pub proof fn errors_name_their_subject(pid: u32, code: i32, text: String, path: String)
    ensures
        (SystemError::ProcessNotFound { pid }).text() == "process "@ + decimal(pid as nat)
            + " not found"@,
        (SystemError::ProcessGone { pid }).text() == "process "@ + decimal(pid as nat)
            + " has exited"@,
        (SystemError::Nix { code, text }).text() == "nix errno: "@ + text@,
        (ConfigError::NotFound { path }).text() == "config file not found: "@ + path@,
        (ConfigError::Validation { message: text }).text() == "validation error: "@ + text@,
        (ConfigError::Parse { reason: text }).text() == "parse error: "@ + text@,
        (ConfigError::UnknownProfile { rule_id: path, profile: text }).text()
            == "unknown profile '"@ + text@ + "' in rule '"@ + path@ + "'"@,
        (JournalError::Io { path, reason: text }).text() == "freeze journal "@ + path@ + ": "@
            + text@,
        (JournalError::Corrupt { path, reason: text }).text() == "freeze journal "@ + path@
            + " is corrupt: "@ + text@,
{
}

} // verus!
