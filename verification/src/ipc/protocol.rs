//! The request and response protocol, and its framing.
use vstd::prelude::*;

use crate::metrics::MetricsSnapshot;
use crate::state::machine::AppState;
use crate::system::power::PowerSource;
use crate::system::{join_path, joined};
use crate::text::{
    all_digits, cat2, cat3, decimal, format_u64, is_digit, opt_text, parse_bounded, parse_u32,
    to_chars,
};

verus! {

/// Version of the request and response protocol.
pub const PROTOCOL_VERSION: u32 = 2;

/// Maximum allowed message size (64 KiB).
pub const MAX_MESSAGE_SIZE: usize = 65_536;

/// What a freeze or thaw command applies to.
#[derive(Debug)]
pub enum Target {
    /// A single process.
    Pid { pid: u32 },
    /// Every process of a tracked application, by app id (case-insensitive).
    App { app: String },
}

/// What a [`Target`] says.
pub ghost enum TargetModel {
    Pid(u32),
    App(Seq<char>),
}

impl TargetModel {
    /// What a user names: a PID where the text is all digits and fits one, else
    /// an application.
    pub open spec fn parsed(arg: Seq<char>) -> TargetModel {
        match parse_bounded(arg, u32::MAX as nat) {
            Some(pid) => if all_digits(arg) {
                TargetModel::Pid(pid as u32)
            } else {
                TargetModel::App(arg)
            },
            None => TargetModel::App(arg),
        }
    }

    /// What a request names: a PID where it gives one, else an application.
    pub open spec fn given(pid: Option<u32>, app: Option<Seq<char>>) -> Option<TargetModel> {
        match pid {
            Some(p) => Some(TargetModel::Pid(p)),
            None => match app {
                Some(a) => Some(TargetModel::App(a)),
                None => None,
            },
        }
    }

    /// The PID that a request gives.
    pub open spec fn pid_field(self) -> Option<u32> {
        match self {
            TargetModel::Pid(pid) => Some(pid),
            TargetModel::App(_) => None,
        }
    }

    /// The application that a request gives.
    pub open spec fn app_field(self) -> Option<Seq<char>> {
        match self {
            TargetModel::Pid(_) => None,
            TargetModel::App(app) => Some(app),
        }
    }
}

impl View for Target {
    type V = TargetModel;

    open spec fn view(&self) -> TargetModel {
        match self {
            Target::Pid { pid } => TargetModel::Pid(*pid),
            Target::App { app } => TargetModel::App(app@),
        }
    }
}

/// The text shown for a target.
pub open spec fn target_text(t: TargetModel) -> Seq<char> {
    match t {
        TargetModel::Pid(pid) => "pid "@ + decimal(pid as nat),
        TargetModel::App(app) => "app "@ + app,
    }
}

impl Target {
    /// Target a single process by PID.
    pub fn pid(pid: u32) -> (r: Self)
        ensures
            r@ == TargetModel::Pid(pid),
    {
        Target::Pid { pid }
    }

    /// Target every process of a tracked application by app id.
    pub fn app(app: String) -> (r: Self)
        ensures
            r@ == TargetModel::App(app@),
    {
        Target::App { app }
    }

    /// Reads a target off the fields of a request. A request that gives both a
    /// PID and an application means the PID.
    pub fn from_fields(pid: Option<u32>, app: Option<String>) -> (r: Option<Self>)
        ensures
            match r {
                Some(t) => TargetModel::given(pid, opt_text(app)) == Some(t@),
                None => TargetModel::given(pid, opt_text(app)) is None,
            },
    {
        match pid {
            Some(pid) => Some(Target::pid(pid)),
            None => match app {
                Some(app) => Some(Target::app(app)),
                None => None,
            },
        }
    }

    /// The fields of a request for the target.
    pub fn fields(&self) -> (r: (Option<u32>, Option<String>))
        ensures
            r.0 == self@.pid_field(),
            opt_text(r.1) == self@.app_field(),
    {
        match self {
            Target::Pid { pid } => (Some(*pid), None),
            Target::App { app } => (None, Some(app.clone())),
        }
    }

    /// Parse a CLI argument: all digits means a PID, anything else an app name.
    pub fn parse(arg: &str) -> (r: Self)
        ensures
            r@ == TargetModel::parsed(arg@),
    {
        let chars = to_chars(arg);
        if chars.len() > 0 && chars[0] == '+' {
            proof {
                assert(!is_digit(arg@[0]));
            }
            return Target::app(arg.to_owned());
        }
        match parse_u32(&chars) {
            Some(pid) => Target::pid(pid),
            None => Target::app(arg.to_owned()),
        }
    }

    /// Renders the target.
    pub fn name(&self) -> (r: String)
        ensures
            r@ == target_text(self@),
    {
        match self {
            Target::Pid { pid } => {
                let n = format_u64(*pid as u64);
                cat2("pid ", &n)
            },
            Target::App { app } => cat2("app ", app),
        }
    }
}

/// A target is read back from its own fields.
pub proof fn fields_are_read_back(t: TargetModel)
    ensures
        TargetModel::given(t.pid_field(), t.app_field()) == Some(t),
{
}

/// A PID that is written out is read back as that PID.
pub proof fn written_pid_is_read_back(pid: u32)
    ensures
        TargetModel::parsed(decimal(pid as nat)) == TargetModel::Pid(pid),
{
    crate::text::decimal_round_trip(pid as nat);
}

/// Request from the command line to the daemon.
#[derive(Debug)]
pub enum IpcRequest {
    /// List all tracked apps.
    List,
    /// Get daemon status.
    Status,
    /// Get metrics.
    Stats,
    /// Force freeze a target.
    Freeze { target: Target },
    /// Force thaw a target.
    Thaw { target: Target },
    /// Release every process the daemon has suspended.
    ThawAll,
    /// Reload configuration.
    ReloadConfig,
    /// Override the detected power source. `None` clears the override.
    SetPowerOverride { source: Option<PowerSource> },
    /// Shutdown the daemon.
    Shutdown,
}

/// Response from the daemon to the command line.
#[derive(Debug)]
pub enum IpcResponse {
    /// The request was carried out.
    Done { message: String },
    Error { message: String },
    AppList { apps: Vec<AppInfo> },
    Status {
        enabled: bool,
        power_source: PowerSource,
        forced_power_source: Option<PowerSource>,
        tracked_apps: usize,
        uptime_secs: u64,
        /// Which suspension mechanism is in use.
        cgroup_mode: String,
        /// Whether CPU weight and quota are enforced at all.
        cpu_control: bool,
        /// Applications that protection keeps from being managed.
        protected_apps: usize,
        protocol_version: u32,
    },
    Stats { metrics: MetricsSnapshot },
}

/// What is reported of an application.
#[derive(Debug)]
pub struct AppInfo {
    pub app_id: String,
    pub state: AppState,
    pub pids: Vec<u32>,
    pub executable: Option<String>,
    pub wm_class: Option<String>,
    pub window_title: Option<String>,
    /// Profile the matched rule referenced, if any.
    pub profile: Option<String>,
    /// Id of the rule that decided this application's policy.
    pub rule_id: Option<String>,
    /// Seconds spent in the current state.
    pub state_since_secs: u64,
    /// Why this application is exempt from management, if it is.
    pub protected: Option<String>,
}

/// Whether a response reports success with a message.
pub open spec fn says_ok(r: IpcResponse, message: Seq<char>) -> bool {
    r matches IpcResponse::Done { message: m } && m@ == message
}

/// Whether a response reports an error with a message.
pub open spec fn says_error(r: IpcResponse, message: Seq<char>) -> bool {
    r matches IpcResponse::Error { message: m } && m@ == message
}

/// The answer to a request that cannot be decoded.
///
/// Closing the socket without a reply would look as if no daemon were running.
pub fn protocol_mismatch() -> (r: IpcResponse)
    ensures
        says_error(
            r,
            "protocol mismatch: this daemon speaks protocol v"@ + decimal(PROTOCOL_VERSION as nat)
                + " — the running daemon is probably an older build than the CLI; restart the daemon"@,
        ),
{
    let v = format_u64(PROTOCOL_VERSION as u64);
    IpcResponse::Error {
        message: cat3(
            "protocol mismatch: this daemon speaks protocol v",
            &v,
            " — the running daemon is probably an older build than the CLI; restart the daemon",
        ),
    }
}

/// The answer when the engine is gone.
pub fn engine_silent() -> (r: IpcResponse)
    ensures
        says_error(r, "engine did not respond"@),
{
    IpcResponse::Error { message: "engine did not respond".to_owned() }
}

/// Path of the socket in a runtime directory.
pub fn socket_path(runtime_dir: &str) -> (r: String)
    ensures
        r@ == joined(runtime_dir@, "app-powerd.sock"@),
{
    join_path(runtime_dir, "app-powerd.sock")
}

/// Path of the single-instance lock, which also arbitrates emergency recovery.
pub fn lock_path(runtime_dir: &str) -> (r: String)
    ensures
        r@ == joined(runtime_dir@, "app-powerd.lock"@),
{
    join_path(runtime_dir, "app-powerd.lock")
}

// --- Framing ---

/// Why a frame is refused.
#[derive(Clone, Copy, Debug, PartialEq, Eq, Structural)]
pub enum FrameError {
    /// The message is too long for its length prefix.
    TooLongToSend,
    /// The length prefix announces more than is accepted.
    TooLarge,
    /// The length prefix is not four bytes long.
    BadHeader,
}

/// A 32-bit number as four bytes, the most significant first.
pub open spec fn be_bytes(n: nat) -> Seq<u8> {
    seq![
        ((n / 0x100_0000) % 256) as u8,
        ((n / 0x1_0000) % 256) as u8,
        ((n / 0x100) % 256) as u8,
        (n % 256) as u8,
    ]
}

/// The number that four bytes denote, the most significant first.
pub open spec fn be_value(b: Seq<u8>) -> nat {
    (b[0] * 0x100_0000 + b[1] * 0x1_0000 + b[2] * 0x100 + b[3]) as nat
}

/// Frames a message: its length, and then the message.
pub fn encode_frame(payload: &Vec<u8>) -> (r: Result<Vec<u8>, FrameError>)
    ensures
        match r {
            Ok(f) => payload@.len() <= u32::MAX && f@ == be_bytes(payload@.len()) + payload@,
            Err(e) => payload@.len() > u32::MAX && e is TooLongToSend,
        },
{
    let n: usize = payload.len();
    if n as u64 > 0xffff_ffff {
        return Err(FrameError::TooLongToSend);
    }
    let m: u32 = n as u32;
    let mut out: Vec<u8> = Vec::new();
    out.push(((m / 0x100_0000) % 256) as u8);
    out.push(((m / 0x1_0000) % 256) as u8);
    out.push(((m / 0x100) % 256) as u8);
    out.push((m % 256) as u8);
    proof {
        assert(out@ =~= be_bytes(payload@.len()));
        assert(out@ + payload@.take(0) =~= out@);
    }
    let ghost head = out@;
    let mut i: usize = 0;
    while i < payload.len()
        invariant
            i <= payload@.len(),
            out@ == head + payload@.take(i as int),
        decreases payload@.len() - i,
    {
        out.push(payload[i]);
        i = i + 1;
        proof {
            assert(out@ =~= head + payload@.take(i as int));
        }
    }
    proof {
        assert(payload@.take(payload@.len() as int) =~= payload@);
    }
    Ok(out)
}

/// The length of the message that follows a header.
pub fn frame_len(header: &[u8]) -> (r: Result<usize, FrameError>)
    ensures
        match r {
            Ok(n) => header@.len() == 4 && n == be_value(header@) && n <= MAX_MESSAGE_SIZE,
            Err(e) => if header@.len() != 4 {
                e is BadHeader
            } else {
                e is TooLarge && be_value(header@) > MAX_MESSAGE_SIZE
            },
        },
{
    if header.len() != 4 {
        return Err(FrameError::BadHeader);
    }
    let n: u64 = header[0] as u64 * 0x100_0000 + header[1] as u64 * 0x1_0000 + header[2] as u64
        * 0x100 + header[3] as u64;
    if n > 65_536 {
        return Err(FrameError::TooLarge);
    }
    Ok(n as usize)
}

/// A message that was framed is announced with its own length, and accepted
/// exactly where it is not too large.
pub proof fn frame_announces_its_length(n: nat)
    requires
        n <= u32::MAX,
    ensures
        be_bytes(n).len() == 4,
        be_value(be_bytes(n)) == n,
{
    let b = be_bytes(n);
    let a = n / 0x100_0000;
    assert(a < 256);
    assert(n / 0x1_0000 == a * 256 + (n / 0x1_0000) % 256) by {
        assert((n / 0x1_0000) / 256 == a);
    }
    assert(n / 0x100 == (n / 0x1_0000) * 256 + (n / 0x100) % 256) by {
        assert((n / 0x100) / 256 == n / 0x1_0000);
    }
    assert(n == (n / 0x100) * 256 + n % 256);
}

/// A number is taken for a PID where it is written in digits and fits one; anything
/// else names an application, and is passed on as it was written.
pub proof fn numbers_name_processes(pid: u32, arg: Seq<char>, big: nat)
    ensures
        TargetModel::parsed(decimal(pid as nat)) == TargetModel::Pid(pid),
        !all_digits(arg) ==> TargetModel::parsed(arg) == TargetModel::App(arg),
        big > u32::MAX ==> TargetModel::parsed(decimal(big)) == TargetModel::App(decimal(big)),
        arg.len() == 0 ==> TargetModel::parsed(arg) == TargetModel::App(arg),
        TargetModel::parsed(arg) is Pid ==> arg.len() > 0 && all_digits(arg),
{
    crate::text::numbers_are_read_as_written(arg, pid as nat, u32::MAX as nat);
    crate::text::numbers_are_read_as_written(arg, big, u32::MAX as nat);
    crate::text::decimal_round_trip(pid as nat);
    crate::text::decimal_round_trip(big);
}

/// A request that gives a PID means this process, whatever else it gives; else it
/// means the application that it gives, and nothing where it gives neither.
pub proof fn a_given_pid_counts(pid: u32, app: Option<Seq<char>>)
    ensures
        TargetModel::given(Some(pid), app) == Some(TargetModel::Pid(pid)),
        app matches Some(a) ==> TargetModel::given(None, app) == Some(TargetModel::App(a)),
        TargetModel::given(None, None) is None,
        TargetModel::Pid(pid).pid_field() == Some(pid),
        TargetModel::Pid(pid).app_field() is None,
        app matches Some(a) ==> TargetModel::App(a).app_field() == Some(a) && TargetModel::App(
            a,
        ).pid_field() is None,
{
}

/// The bytes of a number are read back as the number: four of them, the most
/// significant first.
pub proof fn length_bytes_are_read_back(n: u32)
    ensures
        be_bytes(n as nat).len() == 4,
        be_value(be_bytes(n as nat)) == n,
        be_bytes(n as nat)[0] == n / 0x100_0000,
        be_bytes(n as nat)[3] == n % 256,
{
    let m = n as int;
    assert(m == (m / 0x100_0000) * 0x100_0000 + m % 0x100_0000);
    assert(m % 0x100_0000 == ((m / 0x1_0000) % 256) * 0x1_0000 + m % 0x1_0000) by (nonlinear_arith)
        requires
            0 <= m <= 0xffff_ffff,
    ;
    assert(m % 0x1_0000 == ((m / 0x100) % 256) * 0x100 + m % 0x100) by (nonlinear_arith)
        requires
            0 <= m <= 0xffff_ffff,
    ;
    assert((m / 0x100_0000) % 256 == m / 0x100_0000);
}

/// A target is shown by what it is and what it names.
pub proof fn targets_are_shown_by_name(pid: u32, app: Seq<char>)
    ensures
        target_text(TargetModel::Pid(pid)) == "pid "@ + decimal(pid as nat),
        target_text(TargetModel::App(app)) == "app "@ + app,
{
}

} // verus!
