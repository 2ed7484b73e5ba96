//! The command line client: requests, and what is shown for a response.
use vstd::prelude::*;

use crate::ipc::protocol::{AppInfo, IpcRequest, IpcResponse, Target, TargetModel};
use crate::metrics::MetricsSnapshot;
use crate::state::journal::RecoveryReport;
use crate::system::power::PowerSource;
use crate::text::{
    append, append_u64, cat2, cat3, cat4, cat5, char_is_control, decimal, format_u64, is_control,
    to_chars,
};

verus! {

/// A mode that can be forced.
#[derive(Clone, Copy, Debug, PartialEq, Eq, Structural)]
pub enum ForcedMode {
    Battery,
    Ac,
    Auto,
}

impl ForcedMode {
    /// The power source that the mode stands for; `None` lifts the override.
    pub fn source(self) -> (r: Option<PowerSource>)
        ensures
            r == (match self {
                ForcedMode::Battery => Some(PowerSource::Battery),
                ForcedMode::Ac => Some(PowerSource::Ac),
                ForcedMode::Auto => None,
            }),
    {
        match self {
            ForcedMode::Battery => Some(PowerSource::Battery),
            ForcedMode::Ac => Some(PowerSource::Ac),
            ForcedMode::Auto => None,
        }
    }
}

/// A command to the daemon.
#[derive(Debug)]
pub enum Command {
    Status,
    List,
    Stats,
    Freeze { target: String },
    Thaw { target: String },
    ThawAll,
    ReloadConfig,
    Force { mode: ForcedMode },
    Shutdown,
}

/// The request for a command.
pub fn request_for(command: &Command) -> (r: IpcRequest)
    ensures
        match *command {
            Command::Status => r is Status,
            Command::List => r is List,
            Command::Stats => r is Stats,
            Command::Freeze { target } => r matches IpcRequest::Freeze { target: t } && t@
                == TargetModel::parsed(target@),
            Command::Thaw { target } => r matches IpcRequest::Thaw { target: t } && t@
                == TargetModel::parsed(target@),
            Command::ThawAll => r is ThawAll,
            Command::ReloadConfig => r is ReloadConfig,
            Command::Force { mode } => r matches IpcRequest::SetPowerOverride { source } && source
                == (match mode {
                ForcedMode::Battery => Some(PowerSource::Battery),
                ForcedMode::Ac => Some(PowerSource::Ac),
                ForcedMode::Auto => None,
            }),
            Command::Shutdown => r is Shutdown,
        },
{
    match command {
        Command::Status => IpcRequest::Status,
        Command::List => IpcRequest::List,
        Command::Stats => IpcRequest::Stats,
        Command::Freeze { target } => IpcRequest::Freeze { target: Target::parse(target) },
        Command::Thaw { target } => IpcRequest::Thaw { target: Target::parse(target) },
        Command::ThawAll => IpcRequest::ThawAll,
        Command::ReloadConfig => IpcRequest::ReloadConfig,
        Command::Force { mode } => IpcRequest::SetPowerOverride { source: mode.source() },
        Command::Shutdown => IpcRequest::Shutdown,
    }
}

/// A number below one hundred in two digits.
pub open spec fn two_digits(n: nat) -> Seq<char> {
    if n < 10 {
        "0"@ + decimal(n)
    } else {
        decimal(n)
    }
}

fn format_two_digits(n: u64) -> (r: String)
    ensures
        r@ == two_digits(n as nat),
{
    let digits = format_u64(n);
    if n < 10 {
        cat2("0", &digits)
    } else {
        digits
    }
}

/// A duration in the two units that fit it. Minutes behind hours have two digits.
pub open spec fn duration_text(secs: u64) -> Seq<char> {
    if secs < 60 {
        decimal(secs as nat) + "s"@
    } else if secs < 3600 {
        decimal((secs / 60) as nat) + "m"@ + decimal((secs % 60) as nat) + "s"@
    } else {
        decimal((secs / 3600) as nat) + "h"@ + two_digits((secs % 3600 / 60) as nat) + "m"@
    }
}

/// Render a duration compactly.
pub fn format_duration(secs: u64) -> (r: String)
    ensures
        r@ == duration_text(secs),
{
    if secs < 60 {
        let s = format_u64(secs);
        cat2(&s, "s")
    } else if secs < 3600 {
        let m = format_u64(secs / 60);
        let s = format_u64(secs % 60);
        cat4(&m, "m", &s, "s")
    } else {
        let h = format_u64(secs / 3600);
        let m = format_two_digits(secs % 3600 / 60);
        cat4(&h, "h", &m, "m")
    }
}

/// A text cut to a number of characters, with dots where something is missing.
pub open spec fn truncated(s: Seq<char>, max: nat) -> Seq<char> {
    if s.len() <= max {
        s
    } else {
        s.take(max - 3) + "..."@
    }
}

/// Cuts a text to `max` characters.
pub fn truncate(s: &str, max: usize) -> (r: String)
    requires
        max >= 3,
    ensures
        r@ == truncated(s@, max as nat),
{
    let chars = to_chars(s);
    if chars.len() <= max {
        return s.to_owned();
    }
    let head = vstd::slice::slice_subrange(chars.as_slice(), 0, max - 3);
    let mut out = crate::text::from_chars(head);
    proof {
        assert(head@ =~= s@.take(max - 3));
    }
    append(&mut out, "...");
    out
}

/// A truncated text fits.
pub proof fn truncated_fits(s: Seq<char>, max: nat)
    requires
        max >= 3,
    ensures
        truncated(s, max).len() <= max,
{
    reveal_strlit("...");
}

/// One character as it is shown: control characters are replaced.
pub open spec fn shown_char(c: char) -> char {
    if is_control(c) {
        '\u{fffd}'
    } else {
        c
    }
}

/// A text as it is shown.
pub open spec fn shown(s: Seq<char>) -> Seq<char> {
    s.map_values(|c: char| shown_char(c))
}

/// Neutralise control characters in strings that come from other programs. Each
/// is replaced by one character.
pub fn sanitize_for_display(s: &str) -> (r: String)
    ensures
        r@ == shown(s@),
{
    let mut out = String::new();
    for c in it: s.chars()
        invariant
            it.seq() == s@,
            out@ == shown(s@.take(it.index() as int)),
    {
        out.push(
            if char_is_control(c) {
                '\u{fffd}'
            } else {
                c
            },
        );
        proof {
            assert(s@.take(it.index() as int + 1) =~= s@.take(it.index() as int).push(c));
            assert(out@ =~= shown(s@.take(it.index() as int + 1)));
        }
    }
    proof {
        assert(s@.take(s@.len() as int) =~= s@);
    }
    out
}

/// What is shown holds no control character, and as many characters as the text
/// it stands for.
pub proof fn shown_is_harmless(s: Seq<char>)
    ensures
        shown(s).len() == s.len(),
        forall|i: int| 0 <= i < s.len() ==> !is_control(#[trigger] shown(s)[i]),
{
}

/// A character, a number of times.
pub open spec fn repeated(c: char, n: nat) -> Seq<char> {
    Seq::new(n, |i: int| c)
}

/// A text with spaces behind it, up to a width.
pub open spec fn padded(s: Seq<char>, width: nat) -> Seq<char> {
    if s.len() >= width {
        s
    } else {
        s + repeated(' ', (width - s.len()) as nat)
    }
}

fn fill(out: &mut String, c: char, n: usize)
    ensures
        final(out)@ == old(out)@ + repeated(c, n as nat),
{
    let ghost start = out@;
    let mut i: usize = 0;
    proof {
        assert(start + repeated(c, 0) =~= start);
    }
    while i < n
        invariant
            i <= n,
            out@ == start + repeated(c, i as nat),
        decreases n - i,
    {
        out.push(c);
        proof {
            assert(out@ =~= start + repeated(c, (i + 1) as nat));
        }
        i = i + 1;
    }
}

/// Appends a text, padded to a width, and a space.
fn column(out: &mut String, s: &str, width: usize)
    ensures
        final(out)@ == old(out)@ + padded(s@, width as nat) + seq![' '],
{
    let ghost start = out@;
    append(out, s);
    let n: usize = to_chars(s).len();
    if n < width {
        fill(out, ' ', width - n);
        proof {
            assert(out@ =~= start + padded(s@, width as nat));
        }
    }
    out.push(' ');
    proof {
        assert(out@ =~= start + padded(s@, width as nat) + seq![' ']);
    }
}

/// A row of the table of applications.
pub ghost struct RowModel {
    pub app: Seq<char>,
    pub state: Seq<char>,
    pub in_state: Seq<char>,
    pub profile: Seq<char>,
    pub rule: Seq<char>,
    pub pids: Seq<char>,
    pub title: Seq<char>,
}

/// A column of a row.
pub open spec fn cell(s: Seq<char>, width: nat) -> Seq<char> {
    padded(s, width) + seq![' ']
}

impl RowModel {
    /// The row as a line.
    pub open spec fn line(self) -> Seq<char> {
        cell(self.app, 20) + cell(self.state, 11) + cell(self.in_state, 10) + cell(
            self.profile,
            12,
        ) + cell(self.rule, 18) + cell(self.pids, 9) + self.title
    }
}

struct Row {
    app: String,
    state: String,
    in_state: String,
    profile: String,
    rule: String,
    pids: String,
    title: String,
}

impl View for Row {
    type V = RowModel;

    closed spec fn view(&self) -> RowModel {
        RowModel {
            app: self.app@,
            state: self.state@,
            in_state: self.in_state@,
            profile: self.profile@,
            rule: self.rule@,
            pids: self.pids@,
            title: self.title@,
        }
    }
}

fn render_row(row: &Row) -> (r: String)
    ensures
        r@ == row@.line(),
{
    let mut out = String::new();
    let ghost m = row@;
    column(&mut out, &row.app, 20);
    proof {
        assert(out@ =~= cell(m.app, 20));
    }
    column(&mut out, &row.state, 11);
    proof {
        assert(out@ =~= cell(m.app, 20) + cell(m.state, 11));
    }
    column(&mut out, &row.in_state, 10);
    let ghost a = cell(m.app, 20) + cell(m.state, 11) + cell(m.in_state, 10);
    proof {
        assert(out@ =~= a);
    }
    column(&mut out, &row.profile, 12);
    proof {
        assert(out@ =~= a + cell(m.profile, 12));
    }
    column(&mut out, &row.rule, 18);
    proof {
        assert(out@ =~= a + cell(m.profile, 12) + cell(m.rule, 18));
    }
    column(&mut out, &row.pids, 9);
    proof {
        assert(out@ =~= a + cell(m.profile, 12) + cell(m.rule, 18) + cell(m.pids, 9));
    }
    append(&mut out, &row.title);
    out
}

/// A text, or a dash where there is none.
pub open spec fn or_dash(s: Option<String>) -> Seq<char> {
    match s {
        Some(t) => t@,
        None => "-"@,
    }
}

/// The head of the table.
pub open spec fn head_row() -> RowModel {
    RowModel {
        app: "APP"@,
        state: "STATE"@,
        in_state: "IN STATE"@,
        profile: "PROFILE"@,
        rule: "RULE"@,
        pids: "PIDS"@,
        title: "TITLE"@,
    }
}

/// The row of an application. A protected one is shown as such, with the reason
/// in place of the rule.
pub open spec fn app_row(app: AppInfo) -> RowModel {
    RowModel {
        app: truncated(shown(app.app_id@), 20),
        state: match app.protected {
            Some(_) => "PROTECTED"@,
            None => app.state.text(),
        },
        in_state: duration_text(app.state_since_secs),
        profile: truncated(shown(or_dash(app.profile)), 12),
        rule: truncated(
            shown(
                match app.protected {
                    Some(reason) => reason@,
                    None => or_dash(app.rule_id),
                },
            ),
            18,
        ),
        pids: decimal(app.pids@.len()),
        title: truncated(shown(or_dash(app.window_title)), 30),
    }
}

fn text_or_dash(s: &Option<String>) -> (r: String)
    ensures
        r@ == or_dash(*s),
{
    match s {
        Some(t) => t.clone(),
        None => "-".to_owned(),
    }
}

fn cut(s: &str, max: usize) -> (r: String)
    requires
        max >= 3,
    ensures
        r@ == truncated(shown(s@), max as nat),
{
    let clean = sanitize_for_display(s);
    truncate(&clean, max)
}

/// Renders the row of an application.
pub fn render_app(app: &AppInfo) -> (r: String)
    ensures
        r@ == app_row(*app).line(),
{
    let state = match &app.protected {
        Some(_) => "PROTECTED".to_owned(),
        None => app.state.name().to_owned(),
    };
    let rule = match &app.protected {
        Some(reason) => reason.clone(),
        None => text_or_dash(&app.rule_id),
    };
    let profile = text_or_dash(&app.profile);
    let title = text_or_dash(&app.window_title);
    let row = Row {
        app: cut(&app.app_id, 20),
        state,
        in_state: format_duration(app.state_since_secs),
        profile: cut(&profile, 12),
        rule: cut(&rule, 18),
        pids: format_u64(app.pids.len() as u64),
        title: cut(&title, 30),
    };
    render_row(&row)
}

/// The lines of a list.
pub open spec fn lines(v: Seq<String>) -> Seq<Seq<char>> {
    v.map_values(|s: String| s@)
}

/// The table of applications.
pub open spec fn table(apps: Seq<AppInfo>) -> Seq<Seq<char>> {
    if apps.len() == 0 {
        seq!["No tracked applications."@]
    } else {
        seq![head_row().line(), repeated('-', 92)] + apps.map_values(
            |a: AppInfo| app_row(a).line(),
        )
    }
}

/// Renders the table of applications.
pub fn render_list(apps: &Vec<AppInfo>) -> (r: Vec<String>)
    ensures
        lines(r@) == table(apps@),
{
    let mut out: Vec<String> = Vec::new();
    if apps.len() == 0 {
        out.push("No tracked applications.".to_owned());
        proof {
            assert(lines(out@) =~= seq!["No tracked applications."@]);
        }
        return out;
    }
    let head = Row {
        app: "APP".to_owned(),
        state: "STATE".to_owned(),
        in_state: "IN STATE".to_owned(),
        profile: "PROFILE".to_owned(),
        rule: "RULE".to_owned(),
        pids: "PIDS".to_owned(),
        title: "TITLE".to_owned(),
    };
    out.push(render_row(&head));
    let mut rule = String::new();
    fill(&mut rule, '-', 92);
    proof {
        assert(rule@ =~= repeated('-', 92));
    }
    out.push(rule);
    let mut i: usize = 0;
    while i < apps.len()
        invariant
            i <= apps@.len(),
            apps@.len() > 0,
            out@.len() == i + 2,
            forall|j: int| 0 <= j < i + 2 ==> (#[trigger] out@[j])@ == table(apps@)[j],
        decreases apps@.len() - i,
    {
        out.push(render_app(&apps[i]));
        i = i + 1;
    }
    proof {
        assert(lines(out@) =~= table(apps@));
    }
    out
}

/// The word for a truth value.
pub open spec fn bool_text(b: bool) -> Seq<char> {
    if b {
        "true"@
    } else {
        "false"@
    }
}

/// The line on the power source.
pub open spec fn power_line(source: PowerSource, forced: Option<PowerSource>) -> Seq<char> {
    match forced {
        Some(f) => "  power source:  "@ + f.text() + " (forced; detected: "@ + source.text() + ")"@,
        None => "  power source:  "@ + source.text() + " (auto)"@,
    }
}

/// The lines of a status report.
pub open spec fn status_lines(
    enabled: bool,
    power_source: PowerSource,
    forced: Option<PowerSource>,
    tracked_apps: nat,
    uptime_secs: u64,
    cgroup_mode: Seq<char>,
    cpu_control: bool,
    protected_apps: nat,
    protocol_version: u32,
) -> Seq<Seq<char>> {
    seq![
        "app-powerd status:"@,
        "  enabled:       "@ + bool_text(enabled),
        power_line(power_source, forced),
        "  cgroup mode:   "@ + cgroup_mode,
        "  cpu control:   "@ + if cpu_control {
            "available"@
        } else {
            "unavailable (cpu_weight/cpu_quota are NOT applied)"@
        },
        "  tracked apps:  "@ + decimal(tracked_apps),
        "  protected:     "@ + decimal(protected_apps),
        "  uptime:        "@ + decimal(uptime_secs as nat) + "s"@,
        "  protocol:      v"@ + decimal(protocol_version as nat),
    ]
}

fn counter_line(label: &str, value: u64) -> (r: String)
    ensures
        r@ == label@ + decimal(value as nat),
{
    let n = format_u64(value);
    cat2(label, &n)
}

fn render_status(
    enabled: bool,
    power_source: PowerSource,
    forced: Option<PowerSource>,
    tracked_apps: usize,
    uptime_secs: u64,
    cgroup_mode: &str,
    cpu_control: bool,
    protected_apps: usize,
    protocol_version: u32,
) -> (r: Vec<String>)
    ensures
        lines(r@) == status_lines(
            enabled,
            power_source,
            forced,
            tracked_apps as nat,
            uptime_secs,
            cgroup_mode@,
            cpu_control,
            protected_apps as nat,
            protocol_version,
        ),
{
    let mut out: Vec<String> = Vec::new();
    out.push("app-powerd status:".to_owned());
    out.push(
        cat2(
            "  enabled:       ",
            if enabled {
                "true"
            } else {
                "false"
            },
        ),
    );
    out.push(
        match forced {
            Some(f) => cat5(
                "  power source:  ",
                f.name(),
                " (forced; detected: ",
                power_source.name(),
                ")",
            ),
            None => cat3("  power source:  ", power_source.name(), " (auto)"),
        },
    );
    out.push(cat2("  cgroup mode:   ", cgroup_mode));
    out.push(
        cat2(
            "  cpu control:   ",
            if cpu_control {
                "available"
            } else {
                "unavailable (cpu_weight/cpu_quota are NOT applied)"
            },
        ),
    );
    out.push(counter_line("  tracked apps:  ", tracked_apps as u64));
    out.push(counter_line("  protected:     ", protected_apps as u64));
    let uptime = format_u64(uptime_secs);
    out.push(cat3("  uptime:        ", &uptime, "s"));
    out.push(counter_line("  protocol:      v", protocol_version as u64));
    proof {
        assert(lines(out@) =~= status_lines(
            enabled,
            power_source,
            forced,
            tracked_apps as nat,
            uptime_secs,
            cgroup_mode@,
            cpu_control,
            protected_apps as nat,
            protocol_version,
        ));
    }
    out
}

/// The lines of a metrics report.
pub open spec fn stats_lines(m: MetricsSnapshot) -> Seq<Seq<char>> {
    seq![
        "app-powerd metrics:"@,
        "  apps_frozen_total:     "@ + decimal(m.apps_frozen_total as nat),
        "  apps_thawed_total:     "@ + decimal(m.apps_thawed_total as nat),
        "  apps_throttled_total:  "@ + decimal(m.apps_throttled_total as nat),
        "  apps_unthrottled_total:"@ + decimal(m.apps_unthrottled_total as nat),
        "  focus_changes_total:   "@ + decimal(m.focus_changes_total as nat),
        "  guard_blocks_total:    "@ + decimal(m.guard_blocks_total as nat),
        "  config_reloads_total:  "@ + decimal(m.config_reloads_total as nat),
        "  time_in_frozen_ms:     "@ + decimal(m.time_in_frozen_ms as nat),
        "  time_in_throttled_ms:  "@ + decimal(m.time_in_throttled_ms as nat),
        "  reconcile_ticks_total: "@ + decimal(m.reconcile_ticks_total as nat),
        "  pids_reaped_total:     "@ + decimal(m.pids_reaped_total as nat),
        "  apps_removed_stale:    "@ + decimal(m.apps_removed_stale_total as nat),
        "  protection_blocks:     "@ + decimal(m.protection_blocks_total as nat),
        "  journal_recovered:     "@ + decimal(m.journal_recovered_total as nat),
        "  journal_stale_dropped: "@ + decimal(m.journal_stale_dropped_total as nat),
        "  warns_suppressed:      "@ + decimal(m.warns_suppressed_total as nat),
    ]
}

fn render_stats(m: &MetricsSnapshot) -> (r: Vec<String>)
    ensures
        lines(r@) == stats_lines(*m),
{
    let mut out: Vec<String> = Vec::new();
    out.push("app-powerd metrics:".to_owned());
    out.push(counter_line("  apps_frozen_total:     ", m.apps_frozen_total));
    out.push(counter_line("  apps_thawed_total:     ", m.apps_thawed_total));
    out.push(counter_line("  apps_throttled_total:  ", m.apps_throttled_total));
    out.push(counter_line("  apps_unthrottled_total:", m.apps_unthrottled_total));
    out.push(counter_line("  focus_changes_total:   ", m.focus_changes_total));
    out.push(counter_line("  guard_blocks_total:    ", m.guard_blocks_total));
    out.push(counter_line("  config_reloads_total:  ", m.config_reloads_total));
    out.push(counter_line("  time_in_frozen_ms:     ", m.time_in_frozen_ms));
    out.push(counter_line("  time_in_throttled_ms:  ", m.time_in_throttled_ms));
    out.push(counter_line("  reconcile_ticks_total: ", m.reconcile_ticks_total));
    out.push(counter_line("  pids_reaped_total:     ", m.pids_reaped_total));
    out.push(counter_line("  apps_removed_stale:    ", m.apps_removed_stale_total));
    out.push(counter_line("  protection_blocks:     ", m.protection_blocks_total));
    out.push(counter_line("  journal_recovered:     ", m.journal_recovered_total));
    out.push(counter_line("  journal_stale_dropped: ", m.journal_stale_dropped_total));
    out.push(counter_line("  warns_suppressed:      ", m.warns_suppressed_total));
    proof {
        assert(lines(out@) =~= stats_lines(*m));
    }
    out
}

/// What the client shows for a response.
#[derive(Debug)]
pub enum Output {
    /// Lines on standard output.
    Lines(Vec<String>),
    /// A line on standard error, and failure.
    Failure(String),
}

/// What is shown for a response.
pub open spec fn shows(r: Output, response: IpcResponse) -> bool {
    match response {
        IpcResponse::Done { message } => {
            &&& r matches Output::Lines(v)
            &&& lines(v@) == seq![message@]
        },
        IpcResponse::Error { message } => {
            &&& r matches Output::Failure(line)
            &&& line@ == "error: "@ + message@
        },
        IpcResponse::AppList { apps } => {
            &&& r matches Output::Lines(v)
            &&& lines(v@) == table(apps@)
        },
        IpcResponse::Status {
            enabled,
            power_source,
            forced_power_source,
            tracked_apps,
            uptime_secs,
            cgroup_mode,
            cpu_control,
            protected_apps,
            protocol_version,
        } => {
            &&& r matches Output::Lines(v)
            &&& lines(v@) == status_lines(
                enabled,
                power_source,
                forced_power_source,
                tracked_apps as nat,
                uptime_secs,
                cgroup_mode@,
                cpu_control,
                protected_apps as nat,
                protocol_version,
            )
        },
        IpcResponse::Stats { metrics } => {
            &&& r matches Output::Lines(v)
            &&& lines(v@) == stats_lines(metrics)
        },
    }
}

/// Renders a response.
pub fn render_response(response: &IpcResponse) -> (r: Output)
    ensures
        shows(r, *response),
{
    match response {
        IpcResponse::Done { message } => {
            let mut out: Vec<String> = Vec::new();
            out.push(message.clone());
            proof {
                assert(lines(out@) =~= seq![message@]);
            }
            Output::Lines(out)
        },
        IpcResponse::Error { message } => Output::Failure(cat2("error: ", message)),
        IpcResponse::AppList { apps } => Output::Lines(render_list(apps)),
        IpcResponse::Status {
            enabled,
            power_source,
            forced_power_source,
            tracked_apps,
            uptime_secs,
            cgroup_mode,
            cpu_control,
            protected_apps,
            protocol_version,
        } => Output::Lines(
            render_status(
                *enabled,
                *power_source,
                *forced_power_source,
                *tracked_apps,
                *uptime_secs,
                cgroup_mode,
                *cpu_control,
                *protected_apps,
                *protocol_version,
            ),
        ),
        IpcResponse::Stats { metrics } => Output::Lines(render_stats(metrics)),
    }
}

/// What is shown after the journal was replayed without a daemon.
pub fn recovery_message(report: &RecoveryReport) -> (r: String)
    ensures
        r@ == (if report.thawed == 0 && report.stale == 0 && report.not_owned == 0 {
            "Nothing to resume: no processes are recorded as suspended."@
        } else {
            "Resumed "@ + decimal(report.thawed as nat) + " process(es) ("@ + decimal(
                report.stale as nat,
            ) + " already gone, "@ + decimal(report.not_owned as nat)
                + " not owned by this user)."@
        }),
{
    if report.thawed == 0 && report.stale == 0 && report.not_owned == 0 {
        return "Nothing to resume: no processes are recorded as suspended.".to_owned();
    }
    let mut out = "Resumed ".to_owned();
    append_u64(&mut out, report.thawed as u64);
    append(&mut out, " process(es) (");
    append_u64(&mut out, report.stale as u64);
    append(&mut out, " already gone, ");
    append_u64(&mut out, report.not_owned as u64);
    append(&mut out, " not owned by this user).");
    out
}

/// A duration is shown in the units that fit it: in seconds below a minute, in minutes
/// and seconds below an hour, else in hours and two digits of minutes. The parts add
/// up to the duration, but for the seconds behind hours.
pub proof fn durations_are_shown_in_units(h: u64, m: u64, s: u64)
    requires
        m < 60,
        s < 60,
        h <= 1_000_000_000_000,
    ensures
        duration_text(s) == decimal(s as nat) + "s"@,
        m > 0 ==> duration_text((60 * m + s) as u64) == decimal(m as nat) + "m"@ + decimal(s as nat)
            + "s"@,
        h > 0 && m >= 10 ==> duration_text((3600 * h + 60 * m + s) as u64) == decimal(h as nat)
            + "h"@ + decimal(m as nat) + "m"@,
        h > 0 && m < 10 ==> duration_text((3600 * h + 60 * m + s) as u64) == decimal(h as nat)
            + "h"@ + ("0"@ + decimal(m as nat)) + "m"@,
{
    let t = 60 * m + s;
    assert(t / 60 == m && t % 60 == s);
    let u = 3600 * h + 60 * m + s;
    assert(u / 3600 == h && u % 3600 == t) by (nonlinear_arith)
        requires
            u == 3600 * h + t,
            0 <= t < 3600,
            0 <= h,
    ;
}

/// A text that is too long is cut, and ends in dots; what is left of it is its start.
/// One that fits is left alone.
pub proof fn long_texts_are_cut(s: Seq<char>, max: nat)
    requires
        max >= 3,
    ensures
        s.len() <= max ==> truncated(s, max) == s,
        s.len() > max ==> truncated(s, max) == s.take(max - 3) + "..."@,
        s.len() > max ==> s.take(max - 3).is_prefix_of(truncated(s, max)),
{
}

/// What is shown of a text has its length; a control character is replaced, and any
/// other is shown as it is.
pub proof fn control_characters_are_replaced(s: Seq<char>, i: int)
    requires
        0 <= i < s.len(),
    ensures
        shown(s).len() == s.len(),
        is_control(s[i]) ==> shown(s)[i] == '\u{fffd}',
        !is_control(s[i]) ==> shown(s)[i] == s[i],
{
}

/// A column is filled with spaces up to its width, and followed by one more; a text
/// that fills it is left alone.
pub proof fn columns_are_filled(s: Seq<char>, width: nat, i: int)
    ensures
        s.is_prefix_of(cell(s, width)),
        s.len() <= width ==> cell(s, width).len() == width + 1,
        s.len() > width ==> cell(s, width).len() == s.len() + 1,
        s.len() <= i < cell(s, width).len() ==> cell(s, width)[i] == ' ',
{
}

/// The row of an application shows it under its name, with its state or that it is
/// protected, how long it has been so, its profile, its rule or why it is protected,
/// how many processes it has, and the title of its window.
pub proof fn a_row_shows_the_application(app: AppInfo)
    ensures
        ({
            let r = app_row(app);
            &&& app.app_id@.len() <= 20 ==> r.app == shown(app.app_id@)
            &&& app.protected is Some ==> r.state == "PROTECTED"@
            &&& app.protected is None ==> r.state == app.state.text()
            &&& r.in_state == duration_text(app.state_since_secs)
            &&& app.profile matches Some(p) ==> r.profile == truncated(shown(p@), 12)
            &&& app.profile is None ==> r.profile == truncated(shown("-"@), 12)
            &&& app.protected matches Some(reason) ==> r.rule == truncated(shown(reason@), 18)
            &&& app.protected is None ==> (app.rule_id matches Some(id) ==> r.rule == truncated(
                shown(id@),
                18,
            ))
            &&& app.protected is None && app.rule_id is None ==> r.rule == truncated(
                shown("-"@),
                18,
            )
            &&& r.pids == decimal(app.pids@.len())
            &&& app.window_title matches Some(t) ==> r.title == truncated(shown(t@), 30)
            &&& app.window_title is None ==> r.title == truncated(shown("-"@), 30)
            &&& r.app.len() <= 20
            &&& r.profile.len() <= 12
            &&& r.rule.len() <= 18
            &&& r.title.len() <= 30
        }),
{
    reveal_strlit("...");
}

/// A table has a line for every application, in their order, below its head and a
/// rule; without applications it says so.
pub proof fn a_table_has_a_line_for_each(apps: Seq<AppInfo>, i: int)
    ensures
        apps.len() == 0 ==> table(apps) == seq!["No tracked applications."@],
        apps.len() > 0 ==> table(apps).len() == apps.len() + 2,
        0 <= i < apps.len() ==> table(apps)[i + 2] == app_row(apps[i]).line(),
        apps.len() > 0 ==> table(apps)[0] == head_row().line(),
        apps.len() > 0 ==> table(apps)[1].len() == 92 && forall|j: int|
            0 <= j < 92 ==> #[trigger] table(apps)[1][j] == '-',
{
}

/// The columns of a row stand in their order, each in its width.
pub proof fn columns_stand_in_order(r: RowModel)
    requires
        r.app.len() <= 20,
        r.state.len() <= 11,
        r.in_state.len() <= 10,
        r.profile.len() <= 12,
        r.rule.len() <= 18,
        r.pids.len() <= 9,
    ensures
        r.line().len() == 86 + r.title.len(),
        r.line().subrange(0, r.app.len() as int) == r.app,
        r.line().subrange(21, 21 + r.state.len() as int) == r.state,
        r.line().subrange(33, 33 + r.in_state.len() as int) == r.in_state,
        r.line().subrange(44, 44 + r.profile.len() as int) == r.profile,
        r.line().subrange(57, 57 + r.rule.len() as int) == r.rule,
        r.line().subrange(76, 76 + r.pids.len() as int) == r.pids,
        r.line().subrange(86, 86 + r.title.len() as int) == r.title,
{
    let l = r.line();
    assert(l.subrange(0, r.app.len() as int) =~= r.app);
    assert(l.subrange(21, 21 + r.state.len() as int) =~= r.state);
    assert(l.subrange(33, 33 + r.in_state.len() as int) =~= r.in_state);
    assert(l.subrange(44, 44 + r.profile.len() as int) =~= r.profile);
    assert(l.subrange(57, 57 + r.rule.len() as int) =~= r.rule);
    assert(l.subrange(76, 76 + r.pids.len() as int) =~= r.pids);
    assert(l.subrange(86, 86 + r.title.len() as int) =~= r.title);
}

/// The power source is shown with how it came to be: detected, or forced in place of
/// the detected one, which is shown too.
pub proof fn a_forced_source_is_shown_with_the_detected(source: PowerSource, forced: PowerSource)
    ensures
        power_line(source, None) == "  power source:  "@ + source.text() + " (auto)"@,
        power_line(source, Some(forced)) == "  power source:  "@ + forced.text()
            + " (forced; detected: "@ + source.text() + ")"@,
{
}

/// A status report shows each of its figures on a line of its own.
pub proof fn a_status_shows_each_figure(
    enabled: bool,
    power_source: PowerSource,
    forced: Option<PowerSource>,
    tracked_apps: nat,
    uptime_secs: u64,
    cgroup_mode: Seq<char>,
    cpu_control: bool,
    protected_apps: nat,
    protocol_version: u32,
)
    ensures
        ({
            let l = status_lines(
                enabled,
                power_source,
                forced,
                tracked_apps,
                uptime_secs,
                cgroup_mode,
                cpu_control,
                protected_apps,
                protocol_version,
            );
            &&& l.len() == 9
            &&& enabled ==> l[1] == "  enabled:       "@ + "true"@
            &&& !enabled ==> l[1] == "  enabled:       "@ + "false"@
            &&& l[2] == power_line(power_source, forced)
            &&& l[3] == "  cgroup mode:   "@ + cgroup_mode
            &&& cpu_control ==> l[4] == "  cpu control:   "@ + "available"@
            &&& !cpu_control ==> l[4] == "  cpu control:   "@
                + "unavailable (cpu_weight/cpu_quota are NOT applied)"@
            &&& l[5] == "  tracked apps:  "@ + decimal(tracked_apps)
            &&& l[6] == "  protected:     "@ + decimal(protected_apps)
            &&& l[7] == "  uptime:        "@ + decimal(uptime_secs as nat) + "s"@
            &&& l[8] == "  protocol:      v"@ + decimal(protocol_version as nat)
        }),
{
}

/// A metrics report shows each counter on a line of its own.
pub proof fn stats_show_each_counter(m: MetricsSnapshot)
    ensures
        ({
            let l = stats_lines(m);
            &&& l.len() == 17
            &&& l[1] == "  apps_frozen_total:     "@ + decimal(m.apps_frozen_total as nat)
            &&& l[2] == "  apps_thawed_total:     "@ + decimal(m.apps_thawed_total as nat)
            &&& l[3] == "  apps_throttled_total:  "@ + decimal(m.apps_throttled_total as nat)
            &&& l[4] == "  apps_unthrottled_total:"@ + decimal(m.apps_unthrottled_total as nat)
            &&& l[5] == "  focus_changes_total:   "@ + decimal(m.focus_changes_total as nat)
            &&& l[6] == "  guard_blocks_total:    "@ + decimal(m.guard_blocks_total as nat)
            &&& l[7] == "  config_reloads_total:  "@ + decimal(m.config_reloads_total as nat)
            &&& l[8] == "  time_in_frozen_ms:     "@ + decimal(m.time_in_frozen_ms as nat)
            &&& l[9] == "  time_in_throttled_ms:  "@ + decimal(m.time_in_throttled_ms as nat)
            &&& l[10] == "  reconcile_ticks_total: "@ + decimal(m.reconcile_ticks_total as nat)
            &&& l[11] == "  pids_reaped_total:     "@ + decimal(m.pids_reaped_total as nat)
            &&& l[12] == "  apps_removed_stale:    "@ + decimal(m.apps_removed_stale_total as nat)
            &&& l[13] == "  protection_blocks:     "@ + decimal(m.protection_blocks_total as nat)
            &&& l[14] == "  journal_recovered:     "@ + decimal(m.journal_recovered_total as nat)
            &&& l[15] == "  journal_stale_dropped: "@ + decimal(
                m.journal_stale_dropped_total as nat,
            )
            &&& l[16] == "  warns_suppressed:      "@ + decimal(m.warns_suppressed_total as nat)
        }),
{
}

/// A failure is shown as one, with its message; anything else is shown as lines.
pub proof fn failures_are_shown_as_such(r: Output, response: IpcResponse)
    requires
        shows(r, response),
    ensures
        r is Failure <==> response is Error,
        response matches IpcResponse::Error { message } ==> r->Failure_0@ == "error: "@ + message@,
        response matches IpcResponse::Done { message } ==> lines(r->Lines_0@) == seq![message@],
        response matches IpcResponse::AppList { apps } ==> lines(r->Lines_0@) == table(apps@),
{
}

} // verus!
