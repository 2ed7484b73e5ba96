//! Processes that must never be suspended.
//!
//! Freezing a session daemon blocks every client that makes a synchronous call
//! to a name it owns; freezing a modal dialog hangs whatever waits for its
//! answer. Protection is not a guard: guards mean "not right now", this means
//! "never", and it outranks the user's own rules.
//!
//! There are two tiers: a built-in list of executable names, and the owners of
//! well-known names on the session bus. The second does not apply to an
//! application itself, only to what turns up in its process tree.
use std::collections::HashMap;

use vstd::prelude::*;
use vstd::slice::slice_subrange;

use crate::state::process_set::contains_u32;
use crate::system::process::{ProcessHandle, ProcessTable};
use crate::text::{ascii_lowercase, cat2, cat3, ends_with, eq_ignore_ascii_case, to_chars};

verus! {

broadcast use vstd::std_specs::hash::group_hash_axioms;

/// Executables that are never suspended, whatever the configuration says. A
/// trailing `*` matches by prefix.
pub open spec fn builtin_deny() -> Seq<Seq<char>> {
    seq![
        "xdg-desktop-portal*"@,
        "xdg-document-portal"@,
        "xdg-permission-store"@,
        "dbus-daemon"@,
        "dbus-broker"@,
        "pipewire"@,
        "pipewire-pulse"@,
        "wireplumber"@,
        "pulseaudio"@,
        "gvfsd*"@,
        "gnome-keyring-daemon"@,
        "at-spi-bus-launcher"@,
        "at-spi2-registryd"@,
        "ibus-daemon"@,
        "fcitx5"@,
        "dconf-service"@,
        "polkit-*"@,
        "elogind"@,
        "systemd*"@,
        "zenity"@,
        "yad"@,
        "kdialog"@,
        "xmessage"@,
        "pinentry*"@,
        "ssh-askpass*"@,
        "polkit-gnome-authentication-agent-1"@,
        "lxpolkit"@,
        "gcr-prompter"@,
    ]
}

/// Number of patterns in the built-in list.
pub const BUILTIN_DENY_LEN: usize = 28;

/// The pattern at position `i` of the built-in list.
///
/// The first part is session infrastructure; the second is modal dialogs.
pub fn deny_pattern(i: usize) -> (r: &'static str)
    requires
        i < BUILTIN_DENY_LEN,
    ensures
        r@ == builtin_deny()[i as int],
{
    match i {
        0 => "xdg-desktop-portal*",
        1 => "xdg-document-portal",
        2 => "xdg-permission-store",
        3 => "dbus-daemon",
        4 => "dbus-broker",
        5 => "pipewire",
        6 => "pipewire-pulse",
        7 => "wireplumber",
        8 => "pulseaudio",
        9 => "gvfsd*",
        10 => "gnome-keyring-daemon",
        11 => "at-spi-bus-launcher",
        12 => "at-spi2-registryd",
        13 => "ibus-daemon",
        14 => "fcitx5",
        15 => "dconf-service",
        16 => "polkit-*",
        17 => "elogind",
        18 => "systemd*",
        19 => "zenity",
        20 => "yad",
        21 => "kdialog",
        22 => "xmessage",
        23 => "pinentry*",
        24 => "ssh-askpass*",
        25 => "polkit-gnome-authentication-agent-1",
        26 => "lxpolkit",
        _ => "gcr-prompter",
    }
}

/// Whether a pattern matches a name, up to ASCII case.
pub open spec fn pattern_accepts(pattern: Seq<char>, name: Seq<char>) -> bool {
    if pattern.len() > 0 && pattern.last() == '*' {
        let prefix = pattern.drop_last();
        prefix.len() <= name.len() && ascii_lowercase(name.take(prefix.len() as int))
            == ascii_lowercase(prefix)
    } else {
        ascii_lowercase(name) == ascii_lowercase(pattern)
    }
}

/// A name without one leading dot.
pub open spec fn undotted(name: Seq<char>) -> Seq<char> {
    if name.len() > 0 && name[0] == '.' {
        name.skip(1)
    } else {
        name
    }
}

/// A name without any `-real` at its end.
pub open spec fn unwrapped(name: Seq<char>) -> Seq<char>
    decreases name.len(),
{
    if "-real"@.is_suffix_of(name) && "-real"@.len() > 0 {
        unwrapped(name.take(name.len() - "-real"@.len()))
    } else {
        name
    }
}

/// Whether a pattern matches a name, or the name that a wrapper script hides
/// (`.name-real`).
pub open spec fn denies(pattern: Seq<char>, name: Seq<char>) -> bool {
    ||| pattern_accepts(pattern, name)
    ||| pattern_accepts(pattern, undotted(name))
    ||| pattern_accepts(pattern, unwrapped(undotted(name)))
}

/// The first pattern from position `i` on that denies a name.
pub open spec fn denied_from(name: Seq<char>, i: int) -> Option<int>
    decreases builtin_deny().len() - i,
{
    if i < 0 || i >= builtin_deny().len() {
        None
    } else if denies(builtin_deny()[i], name) {
        Some(i)
    } else {
        denied_from(name, i + 1)
    }
}

/// Whether a pattern matches a name.
///
/// The name comes from a process and may hold any character; it is compared
/// character by character.
pub fn pattern_matches(pattern: &[char], name: &[char]) -> (r: bool)
    ensures
        r == pattern_accepts(pattern@, name@),
{
    if pattern.len() > 0 && pattern[pattern.len() - 1] == '*' {
        let n: usize = pattern.len() - 1;
        if n > name.len() {
            return false;
        }
        let prefix = slice_subrange(pattern, 0, n);
        let head = slice_subrange(name, 0, n);
        proof {
            assert(prefix@ =~= pattern@.drop_last());
            assert(head@ =~= name@.take(n as int));
        }
        eq_ignore_ascii_case(head, prefix)
    } else {
        eq_ignore_ascii_case(name, pattern)
    }
}

fn unwrap_name(name: &[char]) -> (r: &[char])
    ensures
        r@ == unwrapped(name@),
{
    let suffix = to_chars("-real");
    let mut n: usize = name.len();
    proof {
        reveal_strlit("-real");
        assert(name@.take(n as int) =~= name@);
    }
    loop
        invariant
            n <= name@.len(),
            suffix@ == "-real"@,
            "-real"@.len() == 5,
            unwrapped(name@) == unwrapped(name@.take(n as int)),
        ensures
            n <= name@.len(),
            unwrapped(name@) == name@.take(n as int),
        decreases n,
    {
        let head = slice_subrange(name, 0, n);
        proof {
            assert(head@ =~= name@.take(n as int));
        }
        if ends_with(head, &suffix) {
            proof {
                assert(head@.take(head@.len() - 5) =~= name@.take(n - 5));
            }
            n = n - suffix.len();
        } else {
            break;
        }
    }
    proof {
        assert(name@.subrange(0, n as int) =~= name@.take(n as int));
    }
    slice_subrange(name, 0, n)
}

/// Match a name against the built-in list, returning the pattern that matched.
pub fn matches_deny_list(name: &str) -> (r: Option<&'static str>)
    ensures
        match r {
            Some(p) => denied_from(name@, 0) is Some && p@ == builtin_deny()[denied_from(
                name@,
                0,
            )->0],
            None => denied_from(name@, 0) is None,
        },
{
    let chars = to_chars(name);
    let start: usize = if chars.len() > 0 && chars[0] == '.' {
        1
    } else {
        0
    };
    let stripped = slice_subrange(chars.as_slice(), start, chars.len());
    proof {
        assert(stripped@ =~= undotted(name@));
    }
    let bare = unwrap_name(stripped);
    let mut i: usize = 0;
    while i < BUILTIN_DENY_LEN
        invariant
            i <= BUILTIN_DENY_LEN,
            chars@ == name@,
            stripped@ == undotted(name@),
            bare@ == unwrapped(undotted(name@)),
            denied_from(name@, 0) == denied_from(name@, i as int),
        decreases BUILTIN_DENY_LEN - i,
    {
        let text = deny_pattern(i);
        let pattern = to_chars(text);
        if pattern_matches(&pattern, &chars) || pattern_matches(&pattern, stripped)
            || pattern_matches(&pattern, bare) {
            return Some(text);
        }
        i = i + 1;
    }
    None
}

/// Why a process is protected.
#[derive(Debug)]
pub enum ProtectionReason {
    /// Matched an entry of the built-in list.
    Builtin(&'static str),
    /// Owns a well-known name on the session bus.
    DbusNameOwner(String),
    /// The executable could not be identified at all. Protected on purpose: an
    /// identification failure must not be a way around the list.
    Unidentifiable,
}

/// What a [`ProtectionReason`] says.
pub ghost enum Verdict {
    Builtin(Seq<char>),
    DbusNameOwner(Seq<char>),
    Unidentifiable,
}

impl View for ProtectionReason {
    type V = Verdict;

    open spec fn view(&self) -> Verdict {
        match self {
            ProtectionReason::Builtin(p) => Verdict::Builtin(p@),
            ProtectionReason::DbusNameOwner(n) => Verdict::DbusNameOwner(n@),
            ProtectionReason::Unidentifiable => Verdict::Unidentifiable,
        }
    }
}

/// The text shown for a verdict.
pub open spec fn verdict_text(v: Verdict) -> Seq<char> {
    match v {
        Verdict::Builtin(p) => "built-in deny-list ("@ + p + ")"@,
        Verdict::DbusNameOwner(n) => "owns D-Bus name "@ + n,
        Verdict::Unidentifiable => "executable could not be identified"@,
    }
}

/// The text shown in place of a rule for an application that is exempt from
/// management.
pub open spec fn exemption_text(v: Verdict) -> Seq<char> {
    "built-in protection: "@ + verdict_text(v)
}

impl ProtectionReason {
    /// Renders the reason, as it is shown in place of a rule.
    pub fn exemption(&self) -> (r: String)
        ensures
            r@ == exemption_text(self@),
    {
        let why = self.message();
        cat2("built-in protection: ", &why)
    }

    /// Renders the reason.
    pub fn message(&self) -> (r: String)
        ensures
            r@ == verdict_text(self@),
    {
        match self {
            ProtectionReason::Builtin(p) => cat3("built-in deny-list (", p, ")"),
            ProtectionReason::DbusNameOwner(n) => cat2("owns D-Bus name ", n),
            ProtectionReason::Unidentifiable => "executable could not be identified".to_owned(),
        }
    }
}

/// The verdict on a name, or on none.
pub open spec fn name_verdict(name: Option<Seq<char>>) -> Option<Verdict> {
    match name {
        Some(n) => match denied_from(n, 0) {
            Some(i) => Some(Verdict::Builtin(builtin_deny()[i])),
            None => None,
        },
        None => Some(Verdict::Unidentifiable),
    }
}

/// The name by which a process is judged: that of its executable where it is
/// known, else the kernel's.
pub open spec fn judged_name(pid: u32, exe: Option<Seq<char>>, table: ProcessTable) -> Option<
    Seq<char>,
> {
    if exe is Some && exe->0.len() > 0 {
        exe
    } else {
        table.comm_of(pid)
    }
}

/// The verdict of the built-in list alone.
pub open spec fn builtin_verdict(pid: u32, exe: Option<Seq<char>>, table: ProcessTable) -> Option<
    Verdict,
> {
    name_verdict(judged_name(pid, exe, table))
}

/// The verdict of both tiers.
pub open spec fn full_verdict(
    owners: Map<u32, Seq<char>>,
    pid: u32,
    exe: Option<Seq<char>>,
    table: ProcessTable,
) -> Option<Verdict> {
    if owners.contains_key(pid) {
        Some(Verdict::DbusNameOwner(owners[pid]))
    } else {
        builtin_verdict(pid, exe, table)
    }
}

/// The verdict on a process of an application's tree; `own` are the processes
/// of the application itself.
pub open spec fn tree_verdict(
    owners: Map<u32, Seq<char>>,
    own: Seq<u32>,
    pid: u32,
    table: ProcessTable,
) -> Option<Verdict> {
    if own.contains(pid) {
        builtin_verdict(pid, None, table)
    } else {
        full_verdict(owners, pid, None, table)
    }
}

/// The verdict on an application, from its window. One without a PID is
/// protected in any case: nothing of it could be signalled.
pub open spec fn app_verdict(pid: Option<u32>, exe: Option<Seq<char>>, table: ProcessTable) -> Option<
    Verdict,
> {
    match pid {
        Some(p) => builtin_verdict(p, exe, table),
        None => if exe is Some && exe->0.len() > 0 && denied_from(exe->0, 0) is Some {
            Some(Verdict::Builtin(builtin_deny()[denied_from(exe->0, 0)->0]))
        } else {
            Some(Verdict::Unidentifiable)
        },
    }
}

/// Those of `procs` that may be suspended.
pub open spec fn unprotected(
    owners: Map<u32, Seq<char>>,
    own: Seq<u32>,
    procs: Seq<ProcessHandle>,
    table: ProcessTable,
) -> Seq<ProcessHandle>
    decreases procs.len(),
{
    if procs.len() == 0 {
        Seq::empty()
    } else {
        let before = unprotected(owners, own, procs.drop_last(), table);
        if tree_verdict(owners, own, procs.last().pid, table) is None {
            before.push(procs.last())
        } else {
            before
        }
    }
}

/// Those of `procs` that may not be suspended, with the reason.
pub open spec fn spared(
    owners: Map<u32, Seq<char>>,
    own: Seq<u32>,
    procs: Seq<ProcessHandle>,
    table: ProcessTable,
) -> Seq<(u32, Verdict)>
    decreases procs.len(),
{
    if procs.len() == 0 {
        Seq::empty()
    } else {
        let before = spared(owners, own, procs.drop_last(), table);
        match tree_verdict(owners, own, procs.last().pid, table) {
            Some(v) => before.push((procs.last().pid, v)),
            None => before,
        }
    }
}

/// The view of an optional reason.
pub open spec fn reason_view(r: Option<ProtectionReason>) -> Option<Verdict> {
    match r {
        Some(x) => Some(x@),
        None => None,
    }
}

/// The view of a list of spared processes.
pub open spec fn spared_view(v: Seq<(u32, ProtectionReason)>) -> Seq<(u32, Verdict)> {
    v.map_values(|p: (u32, ProtectionReason)| (p.0, p.1@))
}

/// Decides which processes must never be suspended.
#[derive(Debug)]
pub struct ProtectionPolicy {
    /// For each PID, one well-known name that it owns.
    dbus_owners: HashMap<u32, String>,
}

impl View for ProtectionPolicy {
    type V = Map<u32, Seq<char>>;

    /// The owners of well-known names, each with one name it owns.
    closed spec fn view(&self) -> Map<u32, Seq<char>> {
        self.dbus_owners@.map_values(|s: String| s@)
    }
}

impl Default for ProtectionPolicy {
    /// No bus owner is known.
    fn default() -> (r: Self)
        ensures
            r@ == Map::<u32, Seq<char>>::empty(),
    {
        let r = ProtectionPolicy { dbus_owners: HashMap::new() };
        proof {
            assert(r@ =~= Map::empty());
        }
        r
    }
}

fn judge_name(name: Option<String>) -> (r: Option<ProtectionReason>)
    ensures
        reason_view(r) == name_verdict(crate::text::opt_text(name)),
{
    match name {
        Some(n) => match matches_deny_list(&n) {
            Some(p) => Some(ProtectionReason::Builtin(p)),
            None => None,
        },
        None => Some(ProtectionReason::Unidentifiable),
    }
}

/// The optional text of an optional string slice.
pub open spec fn opt_str(s: Option<&str>) -> Option<Seq<char>> {
    match s {
        Some(t) => Some(t@),
        None => None,
    }
}

impl ProtectionPolicy {
    /// Install a freshly collected set of bus owners.
    pub fn apply_refresh(&mut self, dbus_owners: HashMap<u32, String>)
        ensures
            final(self)@ == dbus_owners@.map_values(|s: String| s@),
    {
        self.dbus_owners = dbus_owners;
    }

    /// Whether a process is on the built-in list, and by which pattern.
    ///
    /// `exe` is the name of the executable when known. When it is not, the
    /// kernel's name is consulted, and if there is none either the process is
    /// reported protected.
    pub fn check_builtin(&self, pid: u32, exe: Option<&str>, table: &ProcessTable) -> (r: Option<
        ProtectionReason,
    >)
        ensures
            reason_view(r) == builtin_verdict(pid, opt_str(exe), *table),
    {
        let name = match exe {
            Some(e) => if e.is_empty() {
                table.comm(pid)
            } else {
                Some(e.to_owned())
            },
            None => table.comm(pid),
        };
        judge_name(name)
    }

    /// Whether a process is protected by either tier, and why.
    pub fn check(&self, pid: u32, exe: Option<&str>, table: &ProcessTable) -> (r: Option<
        ProtectionReason,
    >)
        ensures
            reason_view(r) == full_verdict(self@, pid, opt_str(exe), *table),
    {
        match self.dbus_owners.get(&pid) {
            Some(name) => {
                proof {
                    assert(self@[pid] == name@);
                }
                Some(ProtectionReason::DbusNameOwner(name.clone()))
            },
            None => self.check_builtin(pid, exe, table),
        }
    }

    /// Whether an application must never be suspended, from what its window
    /// says. The session-bus tier does not apply to it.
    pub fn check_app(&self, pid: Option<u32>, exe: Option<&str>, table: &ProcessTable) -> (r: Option<
        ProtectionReason,
    >)
        ensures
            reason_view(r) == app_verdict(pid, opt_str(exe), *table),
    {
        match pid {
            Some(p) => self.check_builtin(p, exe, table),
            None => {
                if let Some(e) = exe {
                    if !e.is_empty() {
                        if let Some(p) = matches_deny_list(e) {
                            return Some(ProtectionReason::Builtin(p));
                        }
                    }
                }
                Some(ProtectionReason::Unidentifiable)
            },
        }
    }

    /// Split a process tree into the part that may be suspended and the part
    /// that must not be.
    ///
    /// This is what stops a managed application from dragging session
    /// infrastructure down with it. `own` are the processes of the application
    /// itself, to which the session-bus tier does not apply.
    pub fn partition(
        &self,
        procs: &Vec<ProcessHandle>,
        own: &Vec<u32>,
        table: &ProcessTable,
    ) -> (r: (Vec<ProcessHandle>, Vec<(u32, ProtectionReason)>))
        ensures
            r.0@ == unprotected(self@, own@, procs@, *table),
            spared_view(r.1@) == spared(self@, own@, procs@, *table),
    {
        let mut allowed: Vec<ProcessHandle> = Vec::new();
        let mut protected: Vec<(u32, ProtectionReason)> = Vec::new();
        let mut i: usize = 0;
        proof {
            assert(procs@.take(0) =~= Seq::empty());
            assert(spared_view(protected@) =~= Seq::empty());
        }
        while i < procs.len()
            invariant
                i <= procs@.len(),
                allowed@ == unprotected(self@, own@, procs@.take(i as int), *table),
                spared_view(protected@) == spared(self@, own@, procs@.take(i as int), *table),
            decreases procs@.len() - i,
        {
            let handle = procs[i];
            proof {
                assert(procs@.take(i + 1).drop_last() =~= procs@.take(i as int));
                assert(procs@.take(i + 1).last() == handle);
            }
            let verdict = if contains_u32(own, handle.pid) {
                self.check_builtin(handle.pid, None, table)
            } else {
                self.check(handle.pid, None, table)
            };
            match verdict {
                Some(reason) => {
                    let ghost before = protected@;
                    let ghost why = reason@;
                    protected.push((handle.pid, reason));
                    proof {
                        assert(spared_view(protected@) =~= spared_view(before).push(
                            (handle.pid, why),
                        ));
                    }
                },
                None => allowed.push(handle),
            }
            i = i + 1;
        }
        proof {
            assert(procs@.take(procs@.len() as int) =~= procs@);
        }
        (allowed, protected)
    }
}

/// The owners that a list of bus names shows: names that start with a colon are
/// connections, not services, and of several names of one owner the first
/// counts.
pub open spec fn owners_of(names: Seq<(String, Option<u32>)>) -> Map<u32, Seq<char>>
    decreases names.len(),
{
    if names.len() == 0 {
        Map::empty()
    } else {
        let before = owners_of(names.drop_last());
        let (name, pid) = names.last();
        if name@.len() > 0 && name@[0] == ':' {
            before
        } else {
            match pid {
                Some(p) => if before.contains_key(p) {
                    before
                } else {
                    before.insert(p, name@)
                },
                None => before,
            }
        }
    }
}

/// Collects the PIDs owning well-known names, from the names on the session bus
/// and, where it could be asked for, the PID behind each.
pub fn collect_dbus_owners(names: &Vec<(String, Option<u32>)>) -> (r: HashMap<u32, String>)
    ensures
        r@.map_values(|s: String| s@) == owners_of(names@),
{
    let mut owners: HashMap<u32, String> = HashMap::new();
    let colon = to_chars(":");
    let mut i: usize = 0;
    proof {
        reveal_strlit(":");
        assert(names@.take(0) =~= Seq::empty());
        assert(owners@.map_values(|s: String| s@) =~= Map::empty());
    }
    while i < names.len()
        invariant
            i <= names@.len(),
            colon@ == ":"@,
            ":"@.len() == 1,
            ":"@[0] == ':',
            owners@.map_values(|s: String| s@) == owners_of(names@.take(i as int)),
        decreases names@.len() - i,
    {
        proof {
            assert(names@.take(i + 1).drop_last() =~= names@.take(i as int));
        }
        let ghost before = owners@;
        let chars = to_chars(&names[i].0);
        let unique = chars.len() > 0 && chars[0] == ':';
        if !unique {
            if let Some(pid) = names[i].1 {
                if !owners.contains_key(&pid) {
                    let name = names[i].0.clone();
                    let ghost name0 = name;
                    owners.insert(pid, name);
                    proof {
                        assert(before.insert(pid, name0).map_values(|s: String| s@)
                            =~= before.map_values(|s: String| s@).insert(pid, name0@));
                    }
                }
            }
        }
        i = i + 1;
    }
    proof {
        assert(names@.take(names@.len() as int) =~= names@);
    }
    owners
}

// --- Laws ---

/// The split is complete: every process is on exactly one side, by its verdict.
pub proof fn partition_is_complete(
    owners: Map<u32, Seq<char>>,
    own: Seq<u32>,
    procs: Seq<ProcessHandle>,
    table: ProcessTable,
)
    ensures
        forall|h: ProcessHandle| #[trigger]
            unprotected(owners, own, procs, table).contains(h) <==> procs.contains(h)
                && tree_verdict(owners, own, h.pid, table) is None,
        unprotected(owners, own, procs, table).len() + spared(owners, own, procs, table).len()
            == procs.len(),
    decreases procs.len(),
{
    if procs.len() > 0 {
        let t = procs.drop_last();
        partition_is_complete(owners, own, t, table);
        assert(procs =~= t.push(procs.last()));
        assert forall|h: ProcessHandle| #[trigger]
            unprotected(owners, own, procs, table).contains(h) <==> procs.contains(h)
                && tree_verdict(owners, own, h.pid, table) is None by {
            vstd::seq_lib::lemma_seq_contains_after_push(t, procs.last(), h);
            vstd::seq_lib::lemma_seq_contains_after_push(
                unprotected(owners, own, t, table),
                procs.last(),
                h,
            );
        }
    }
}

/// A process that cannot be identified is protected, whoever asks.
pub proof fn unidentifiable_is_protected(
    owners: Map<u32, Seq<char>>,
    own: Seq<u32>,
    pid: u32,
    table: ProcessTable,
)
    requires
        table.comm_of(pid) is None,
    ensures
        tree_verdict(owners, own, pid, table) is Some,
        builtin_verdict(pid, None, table) == Some(Verdict::Unidentifiable),
{
}

/// Owning a bus name does not protect an application itself.
pub proof fn bus_name_spares_no_application(
    owners: Map<u32, Seq<char>>,
    own: Seq<u32>,
    pid: u32,
    table: ProcessTable,
)
    requires
        own.contains(pid),
    ensures
        tree_verdict(owners, own, pid, table) == tree_verdict(Map::empty(), own, pid, table),
{
}

/// A pattern with a star at its end matches every name that starts with what stands
/// before it; any other pattern matches just itself. Case does not count.
pub proof fn patterns_match_by_name_or_prefix(
    pattern: Seq<char>,
    rest: Seq<char>,
    name: Seq<char>,
)
    ensures
        pattern_accepts(pattern.push('*'), pattern + rest),
        pattern_accepts(pattern.push('*'), name) <==> pattern.len() <= name.len() && forall|i: int|
            0 <= i < pattern.len() ==> crate::text::lower_char(#[trigger] pattern[i])
                == crate::text::lower_char(name[i]),
        pattern.len() == 0 || pattern.last() != '*' ==> (pattern_accepts(pattern, name)
            <==> ascii_lowercase(pattern) == ascii_lowercase(name)),
{
    assert(pattern.push('*').drop_last() =~= pattern);
    assert((pattern + rest).take(pattern.len() as int) =~= pattern);
    let head = name.take(pattern.len() as int);
    if pattern.len() <= name.len() {
        if ascii_lowercase(head) == ascii_lowercase(pattern) {
            assert forall|i: int| 0 <= i < pattern.len() implies crate::text::lower_char(
                #[trigger] pattern[i],
            ) == crate::text::lower_char(name[i]) by {
                assert(ascii_lowercase(head)[i] == ascii_lowercase(pattern)[i]);
                assert(head[i] == name[i]);
            }
        }
        if forall|i: int|
            0 <= i < pattern.len() ==> crate::text::lower_char(#[trigger] pattern[i])
                == crate::text::lower_char(name[i]) {
            assert(ascii_lowercase(head) =~= ascii_lowercase(pattern));
        }
    }
}

/// A name is judged without the dot and the `-real` that a wrapper script leaves, any
/// number of the latter.
pub proof fn wrappers_are_seen_through(name: Seq<char>)
    ensures
        undotted(seq!['.'] + name) == name,
        name.len() > 0 && name[0] != '.' ==> undotted(name) == name,
        unwrapped(name + "-real"@) == unwrapped(name),
        !"-real"@.is_suffix_of(name) ==> unwrapped(name) == name,
{
    assert((seq!['.'] + name).skip(1) =~= name);
    let long = name + "-real"@;
    let n = "-real"@.len();
    reveal_strlit("-real");
    assert(long.skip(long.len() - n) =~= "-real"@);
    assert("-real"@.is_suffix_of(long));
    assert(long.take(long.len() - n) =~= name);
}

/// A denied name stays denied behind a wrapper script, whatever the case.
pub proof fn a_wrapped_name_is_denied_too(pattern: Seq<char>, name: Seq<char>)
    requires
        pattern_accepts(pattern, name),
    ensures
        denies(pattern, name),
        denies(pattern, seq!['.'] + name),
        !"-real"@.is_suffix_of(name) ==> denies(pattern, seq!['.'] + name + "-real"@),
{
    wrappers_are_seen_through(name);
    wrappers_are_seen_through(name + "-real"@);
    assert(seq!['.'] + name + "-real"@ =~= seq!['.'] + (name + "-real"@));
}

proof fn lemma_denied_from(name: Seq<char>, i: int)
    requires
        0 <= i,
    ensures
        match denied_from(name, i) {
            Some(k) => i <= k < builtin_deny().len() && denies(builtin_deny()[k], name)
                && forall|j: int| i <= j < k ==> !denies(#[trigger] builtin_deny()[j], name),
            None => forall|j: int|
                i <= j < builtin_deny().len() ==> !denies(#[trigger] builtin_deny()[j], name),
        },
    decreases builtin_deny().len() - i,
{
    if i < builtin_deny().len() && !denies(builtin_deny()[i], name) {
        lemma_denied_from(name, i + 1);
    }
}

/// A name is protected exactly where a pattern of the list denies it, and the verdict
/// names the first that does; without a name the verdict is that there is none.
pub proof fn the_list_decides_on_names(name: Seq<char>)
    ensures
        name_verdict(Some(name)) is Some <==> exists|i: int|
            0 <= i < builtin_deny().len() && denies(#[trigger] builtin_deny()[i], name),
        name_verdict(Some(name)) matches Some(v) ==> v matches Verdict::Builtin(p) && exists|i: int|
            0 <= i < builtin_deny().len() && #[trigger] builtin_deny()[i] == p && denies(p, name)
                && forall|j: int| 0 <= j < i ==> !denies(#[trigger] builtin_deny()[j], name),
        name_verdict(None) == Some(Verdict::Unidentifiable),
{
    lemma_denied_from(name, 0);
    if denied_from(name, 0) is Some {
        let k = denied_from(name, 0)->0;
        assert(denies(builtin_deny()[k], name));
        assert(builtin_deny()[k] == builtin_deny()[k]);
    }
}

/// The parts of a session that others wait for, and the dialogs that ask for secrets,
/// are on the list.
pub proof fn the_list_names_the_session()
    ensures
        builtin_deny().contains("xdg-desktop-portal*"@),
        builtin_deny().contains("xdg-document-portal"@),
        builtin_deny().contains("xdg-permission-store"@),
        builtin_deny().contains("dbus-daemon"@),
        builtin_deny().contains("dbus-broker"@),
        builtin_deny().contains("pipewire"@),
        builtin_deny().contains("pipewire-pulse"@),
        builtin_deny().contains("wireplumber"@),
        builtin_deny().contains("pulseaudio"@),
        builtin_deny().contains("gvfsd*"@),
        builtin_deny().contains("gnome-keyring-daemon"@),
        builtin_deny().contains("at-spi-bus-launcher"@),
        builtin_deny().contains("at-spi2-registryd"@),
        builtin_deny().contains("ibus-daemon"@),
        builtin_deny().contains("fcitx5"@),
        builtin_deny().contains("dconf-service"@),
        builtin_deny().contains("polkit-*"@),
        builtin_deny().contains("elogind"@),
        builtin_deny().contains("systemd*"@),
        builtin_deny().contains("zenity"@),
        builtin_deny().contains("yad"@),
        builtin_deny().contains("kdialog"@),
        builtin_deny().contains("xmessage"@),
        builtin_deny().contains("pinentry*"@),
        builtin_deny().contains("ssh-askpass*"@),
        builtin_deny().contains("polkit-gnome-authentication-agent-1"@),
        builtin_deny().contains("lxpolkit"@),
        builtin_deny().contains("gcr-prompter"@),
{
    let d = builtin_deny();
    assert(d[0] == "xdg-desktop-portal*"@ && d[1] == "xdg-document-portal"@ && d[2]
        == "xdg-permission-store"@ && d[3] == "dbus-daemon"@ && d[4] == "dbus-broker"@ && d[5]
        == "pipewire"@ && d[6] == "pipewire-pulse"@ && d[7] == "wireplumber"@ && d[8]
        == "pulseaudio"@ && d[9] == "gvfsd*"@ && d[10] == "gnome-keyring-daemon"@ && d[11]
        == "at-spi-bus-launcher"@ && d[12] == "at-spi2-registryd"@ && d[13] == "ibus-daemon"@);
    assert(d[14] == "fcitx5"@ && d[15] == "dconf-service"@ && d[16] == "polkit-*"@ && d[17]
        == "elogind"@ && d[18] == "systemd*"@ && d[19] == "zenity"@ && d[20] == "yad"@ && d[21]
        == "kdialog"@ && d[22] == "xmessage"@ && d[23] == "pinentry*"@ && d[24] == "ssh-askpass*"@
        && d[25] == "polkit-gnome-authentication-agent-1"@ && d[26] == "lxpolkit"@ && d[27]
        == "gcr-prompter"@);
}

/// A process is judged by the name of its executable where that is known, else by the
/// kernel's.
pub proof fn processes_are_judged_by_name(pid: u32, exe: Option<Seq<char>>, table: ProcessTable)
    ensures
        exe matches Some(e) ==> e.len() > 0 ==> builtin_verdict(pid, exe, table) == name_verdict(
            Some(e),
        ),
        exe is None || exe->0.len() == 0 ==> builtin_verdict(pid, exe, table) == name_verdict(
            table.comm_of(pid),
        ),
{
}

/// Of the processes of a tree, one that owns a bus name is protected under that name,
/// unless it is the application itself; any other is judged by the list.
pub proof fn bus_names_protect_descendants(
    owners: Map<u32, Seq<char>>,
    own: Seq<u32>,
    pid: u32,
    table: ProcessTable,
)
    ensures
        !own.contains(pid) && owners.contains_key(pid) ==> tree_verdict(owners, own, pid, table)
            == Some(Verdict::DbusNameOwner(owners[pid])),
        own.contains(pid) || !owners.contains_key(pid) ==> tree_verdict(owners, own, pid, table)
            == name_verdict(table.comm_of(pid)),
        owners.contains_key(pid) ==> full_verdict(owners, pid, None, table) == Some(
            Verdict::DbusNameOwner(owners[pid]),
        ),
{
}

/// An application is judged by the process of its window; without a PID it is
/// protected in any case, by the list where this names its executable.
pub proof fn applications_are_judged_by_their_window(
    pid: Option<u32>,
    exe: Option<Seq<char>>,
    table: ProcessTable,
)
    ensures
        pid matches Some(p) ==> app_verdict(pid, exe, table) == builtin_verdict(p, exe, table),
        pid is None ==> app_verdict(pid, exe, table) is Some,
        pid is None && exe is Some && exe->0.len() > 0 && name_verdict(exe) is Some ==> app_verdict(
            pid,
            exe,
            table,
        ) == name_verdict(exe),
        pid is None && (exe is None || exe->0.len() == 0 || name_verdict(exe) is None)
            ==> app_verdict(pid, exe, table) == Some(Verdict::Unidentifiable),
{
}

/// Every process that is spared is reported with its verdict, and no other is.
pub proof fn spared_are_reported_with_the_reason(
    owners: Map<u32, Seq<char>>,
    own: Seq<u32>,
    procs: Seq<ProcessHandle>,
    table: ProcessTable,
    pid: u32,
    v: Verdict,
)
    ensures
        spared(owners, own, procs, table).contains((pid, v)) <==> tree_verdict(
            owners,
            own,
            pid,
            table,
        ) == Some(v) && exists|i: int| 0 <= i < procs.len() && (#[trigger] procs[i]).pid == pid,
    decreases procs.len(),
{
    if procs.len() > 0 {
        let p = procs.drop_last();
        let n = p.len() as int;
        spared_are_reported_with_the_reason(owners, own, p, table, pid, v);
        let before = spared(owners, own, p, table);
        let all = spared(owners, own, procs, table);
        assert(procs[n] == procs.last());
        if all.len() > before.len() {
            vstd::seq_lib::lemma_seq_contains_after_push(before, all.last(), (pid, v));
        }
        if exists|i: int| 0 <= i < p.len() && (#[trigger] p[i]).pid == pid {
            let i = choose|i: int| 0 <= i < p.len() && (#[trigger] p[i]).pid == pid;
            assert(procs[i].pid == pid);
        }
        if exists|i: int| 0 <= i < procs.len() && (#[trigger] procs[i]).pid == pid {
            let i = choose|i: int| 0 <= i < procs.len() && (#[trigger] procs[i]).pid == pid;
            if i < n {
                assert(p[i].pid == pid);
            }
        }
    }
}

/// Whether a bus name is a service, of which the owner is known.
pub open spec fn names_a_service(entry: (String, Option<u32>), pid: u32) -> bool {
    !(entry.0@.len() > 0 && entry.0@[0] == ':') && entry.1 == Some(pid)
}

/// A process owns a bus name exactly where the bus lists a service of it; of several
/// the first is kept. Connections are not services.
pub proof fn owners_are_those_of_services(names: Seq<(String, Option<u32>)>, pid: u32)
    ensures
        owners_of(names).contains_key(pid) <==> exists|i: int|
            0 <= i < names.len() && names_a_service(#[trigger] names[i], pid),
        owners_of(names).contains_key(pid) ==> exists|i: int|
            0 <= i < names.len() && names_a_service(#[trigger] names[i], pid) && names[i].0@
                == owners_of(names)[pid] && forall|j: int|
                0 <= j < i ==> !names_a_service(#[trigger] names[j], pid),
    decreases names.len(),
{
    if names.len() > 0 {
        let w = names.drop_last();
        let n = w.len() as int;
        owners_are_those_of_services(w, pid);
        assert(names[n] == names.last());
        assert forall|i: int| 0 <= i < n implies #[trigger] w[i] == names[i] by {}
        if owners_of(w).contains_key(pid) {
            let i = choose|i: int|
                0 <= i < w.len() && names_a_service(#[trigger] w[i], pid) && w[i].0@ == owners_of(
                    w,
                )[pid] && forall|j: int| 0 <= j < i ==> !names_a_service(#[trigger] w[j], pid);
            assert(names_a_service(names[i], pid));
            assert forall|j: int| 0 <= j < i implies !names_a_service(#[trigger] names[j], pid) by {
                assert(w[j] == names[j]);
            }
            assert(owners_of(names)[pid] == owners_of(w)[pid]);
        } else {
            assert forall|j: int| 0 <= j < n implies !names_a_service(#[trigger] names[j], pid) by {
                assert(w[j] == names[j]);
            }
            if names_a_service(names.last(), pid) {
                assert(names_a_service(names[n], pid));
                assert(owners_of(names)[pid] == names[n].0@);
            }
        }
    }
}

/// A verdict is put into words that name what it rests on.
pub proof fn verdicts_name_their_reason(p: Seq<char>, n: Seq<char>)
    ensures
        verdict_text(Verdict::Builtin(p)) == "built-in deny-list ("@ + p + ")"@,
        verdict_text(Verdict::DbusNameOwner(n)) == "owns D-Bus name "@ + n,
        verdict_text(Verdict::Unidentifiable) == "executable could not be identified"@,
        exemption_text(Verdict::Builtin(p)) == "built-in protection: "@ + verdict_text(
            Verdict::Builtin(p),
        ),
{
}

} // verus!
