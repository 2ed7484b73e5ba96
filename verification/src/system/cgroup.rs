//! Cgroup capabilities, and what is written to cgroup files.
use vstd::prelude::*;
use vstd::slice::slice_subrange;

use crate::error::SystemError;
use crate::system::{join_path, joined, sanitize_unit_name, unit_name};
use crate::text::{
    cat2, cat3, cat4, decimal, eq_chars, format_u64, from_chars, lines_of, parse_bounded,
    parse_u32, split_lines, split_words, starts_with, texts, to_chars, words,
};

verus! {

/// CPU period in microseconds for cgroup `cpu.max`.
pub const CPU_PERIOD_US: u32 = 100_000;

/// Cgroup capability tier.
#[derive(Clone, Copy, Debug, PartialEq, Eq, Structural)]
pub enum CgroupCapability {
    /// systemd transient scopes via D-Bus.
    SystemdTransient,
    /// Direct write to a delegated cgroup subtree.
    DirectWrite,
    /// No cgroup access: SIGSTOP and SIGCONT.
    SignalOnly,
}

impl CgroupCapability {
    /// The name shown for the tier.
    pub open spec fn text(self) -> Seq<char> {
        match self {
            CgroupCapability::SystemdTransient => "SystemdTransient"@,
            CgroupCapability::DirectWrite => "DirectWrite"@,
            CgroupCapability::SignalOnly => "SignalOnly"@,
        }
    }

    /// Renders the tier.
    pub fn name(&self) -> (r: &'static str)
        ensures
            r@ == self.text(),
    {
        match self {
            CgroupCapability::SystemdTransient => "SystemdTransient",
            CgroupCapability::DirectWrite => "DirectWrite",
            CgroupCapability::SignalOnly => "SignalOnly",
        }
    }
}

/// What the kernel lets the daemon do, established once at startup.
#[derive(Clone, Copy, Debug, PartialEq, Eq, Structural)]
pub struct CgroupCapabilities {
    pub tier: CgroupCapability,
    /// `cgroup.freeze` is usable.
    pub freezer: bool,
    /// The `cpu` controller is delegated.
    pub cpu_control: bool,
}

/// What probing the cgroup tree found.
#[derive(Debug)]
pub struct CgroupProbe {
    /// Whether a sub-cgroup could be created in the base cgroup.
    pub can_create: bool,
    /// Whether that sub-cgroup has a `cgroup.freeze` file.
    pub has_freezer: bool,
    /// The contents of the base cgroup's `cgroup.subtree_control`.
    pub subtree_control: Option<String>,
    /// Whether the user's systemd answers.
    pub has_systemd: bool,
}

/// Whether `controller` is among the words of `cgroup.subtree_control`.
pub open spec fn enables(content: Option<String>, controller: Seq<char>) -> bool {
    content is Some && words(content->0@).contains(controller)
}

/// The capabilities that a probe shows: direct access is preferred to systemd.
pub open spec fn capabilities_of(p: CgroupProbe) -> CgroupCapabilities {
    if p.can_create {
        CgroupCapabilities {
            tier: CgroupCapability::DirectWrite,
            freezer: p.has_freezer,
            cpu_control: enables(p.subtree_control, "cpu"@),
        }
    } else if p.has_systemd {
        CgroupCapabilities {
            tier: CgroupCapability::SystemdTransient,
            freezer: true,
            cpu_control: true,
        }
    } else {
        CgroupCapabilities {
            tier: CgroupCapability::SignalOnly,
            freezer: false,
            cpu_control: false,
        }
    }
}

/// Whether `controller` is enabled for children of a cgroup.
///
/// Being able to create a sub-cgroup does not imply being able to use it: the
/// controller has to be listed in the parent's `subtree_control`.
pub fn controller_enabled(content: &Option<String>, controller: &str) -> (r: bool)
    ensures
        r == enables(*content, controller@),
{
    match content {
        Some(text) => {
            let chars = to_chars(text);
            let ws = split_words(&chars);
            let wanted = to_chars(controller);
            let ghost all = words(text@);
            let mut i: usize = 0;
            while i < ws.len()
                invariant
                    i <= ws@.len(),
                    texts(ws@) == all,
                    all == words(text@),
                    *content == Some(*text),
                    wanted@ == controller@,
                    forall|j: int| 0 <= j < i ==> all[j] != controller@,
                decreases ws@.len() - i,
            {
                proof {
                    assert(all[i as int] == ws@[i as int]@);
                }
                if eq_chars(&ws[i], &wanted) {
                    proof {
                        assert(words(text@).contains(controller@));
                    }
                    return true;
                }
                i = i + 1;
            }
            false
        },
        None => false,
    }
}

impl CgroupCapabilities {
    /// Determines the capabilities from what probing found.
    pub fn detect(p: &CgroupProbe) -> (r: Self)
        ensures
            r == capabilities_of(*p),
    {
        if p.can_create {
            CgroupCapabilities {
                tier: CgroupCapability::DirectWrite,
                freezer: p.has_freezer,
                cpu_control: controller_enabled(&p.subtree_control, "cpu"),
            }
        } else if p.has_systemd {
            CgroupCapabilities {
                tier: CgroupCapability::SystemdTransient,
                freezer: true,
                cpu_control: true,
            }
        } else {
            CgroupCapabilities {
                tier: CgroupCapability::SignalOnly,
                freezer: false,
                cpu_control: false,
            }
        }
    }
}

/// How a cgroup for an application is made.
#[derive(Debug)]
pub enum CgroupRequest {
    /// Create this directory; the PIDs are moved separately.
    Directory { path: String },
    /// Have systemd start a transient scope with the PIDs.
    Scope { unit: String, description: String },
}

/// What a [`CgroupRequest`] says.
pub ghost enum RequestModel {
    Directory(Seq<char>),
    Scope { unit: Seq<char>, description: Seq<char> },
}

impl View for CgroupRequest {
    type V = RequestModel;

    open spec fn view(&self) -> RequestModel {
        match self {
            CgroupRequest::Directory { path } => RequestModel::Directory(path@),
            CgroupRequest::Scope { unit, description } => RequestModel::Scope {
                unit: unit@,
                description: description@,
            },
        }
    }
}

/// How a cgroup for the application `name` is made; not at all without cgroup
/// access.
pub open spec fn cgroup_request(
    tier: CgroupCapability,
    base: Seq<char>,
    name: Seq<char>,
) -> Option<RequestModel> {
    match tier {
        CgroupCapability::DirectWrite => Some(
            RequestModel::Directory(joined(base, "app-powerd-"@ + unit_name(name))),
        ),
        CgroupCapability::SystemdTransient => Some(
            RequestModel::Scope {
                unit: "app-powerd-"@ + unit_name(name) + ".scope"@,
                description: "app-powerd managed: "@ + name,
            },
        ),
        CgroupCapability::SignalOnly => None,
    }
}

/// Decides how a cgroup for an application is made.
pub fn create_cgroup(tier: CgroupCapability, base: &str, name: &str) -> (r: Result<
    CgroupRequest,
    SystemError,
>)
    ensures
        match r {
            Ok(q) => cgroup_request(tier, base@, name@) == Some(q@),
            Err(e) => cgroup_request(tier, base@, name@) is None && e is NoCgroupCapability,
        },
{
    match tier {
        CgroupCapability::DirectWrite => {
            let unit = sanitize_unit_name(name);
            let dir = cat2("app-powerd-", &unit);
            Ok(CgroupRequest::Directory { path: join_path(base, &dir) })
        },
        CgroupCapability::SystemdTransient => {
            let unit = sanitize_unit_name(name);
            Ok(
                CgroupRequest::Scope {
                    unit: cat3("app-powerd-", &unit, ".scope"),
                    description: cat2("app-powerd managed: ", name),
                },
            )
        },
        CgroupCapability::SignalOnly => Err(SystemError::NoCgroupCapability),
    }
}

/// A quota without any percent signs at its end.
pub open spec fn quota_digits(quota: Seq<char>) -> Seq<char>
    decreases quota.len(),
{
    if quota.len() > 0 && quota.last() == '%' {
        quota_digits(quota.drop_last())
    } else {
        quota
    }
}

/// The percentage that a quota denotes, where it is one in 1..=100.
pub open spec fn quota_percent(quota: Seq<char>) -> Option<nat> {
    match parse_bounded(quota_digits(quota), u32::MAX as nat) {
        Some(v) => if 1 <= v <= 100 {
            Some(v)
        } else {
            None
        },
        None => None,
    }
}

/// The value of `cpu.max` for a quota: microseconds of CPU time per period.
pub fn cpu_max_value(quota: &str) -> (r: Result<String, SystemError>)
    ensures
        match r {
            Ok(v) => quota_percent(quota@) is Some && v@ == decimal(
                1000 * quota_percent(quota@)->0,
            ) + " "@ + decimal(CPU_PERIOD_US as nat),
            Err(e) => {
                &&& quota_percent(quota@) is None
                &&& e matches SystemError::CgroupError { message } && message@ == (
                match parse_bounded(quota_digits(quota@), u32::MAX as nat) {
                    Some(v) => "cpu_quota must be 1-100%, got "@ + decimal(v) + "%"@,
                    None => "invalid cpu quota: "@ + quota@,
                })
            },
        },
{
    let chars = to_chars(quota);
    let mut n: usize = chars.len();
    proof {
        assert(chars@.take(n as int) =~= chars@);
    }
    while n > 0 && chars[n - 1] == '%'
        invariant
            n <= chars@.len(),
            quota_digits(chars@) == quota_digits(chars@.take(n as int)),
        decreases n,
    {
        proof {
            assert(chars@.take(n as int).drop_last() =~= chars@.take(n - 1));
        }
        n = n - 1;
    }
    let digits = slice_subrange(chars.as_slice(), 0, n);
    proof {
        assert(digits@ =~= chars@.take(n as int));
    }
    match parse_u32(digits) {
        Some(pct) => {
            if pct == 0 || pct > 100 {
                let v = format_u64(pct as u64);
                return Err(
                    SystemError::CgroupError {
                        message: cat3("cpu_quota must be 1-100%, got ", &v, "%"),
                    },
                );
            }
            let amount: u32 = CPU_PERIOD_US * pct / 100;
            proof {
                assert(amount == 1000 * pct);
            }
            let a = format_u64(amount as u64);
            let p = format_u64(CPU_PERIOD_US as u64);
            Ok(cat3(&a, " ", &p))
        },
        None => Err(
            SystemError::CgroupError { message: cat2("invalid cpu quota: ", quota) },
        ),
    }
}

/// The value of `cpu.max` that lifts the quota.
pub fn cpu_max_reset() -> (r: String)
    ensures
        r@ == "max "@ + decimal(CPU_PERIOD_US as nat),
{
    let p = format_u64(CPU_PERIOD_US as u64);
    cat2("max ", &p)
}

/// Whether a directory in the base cgroup was made by the daemon.
pub fn is_stale_cgroup(name: &str) -> (r: bool)
    ensures
        r == "app-powerd-"@.is_prefix_of(name@),
{
    let chars = to_chars(name);
    let prefix = to_chars("app-powerd-");
    starts_with(&chars, &prefix)
}

/// A path without its leading slashes.
pub open spec fn relative(path: Seq<char>) -> Seq<char>
    decreases path.len(),
{
    if path.len() > 0 && path[0] == '/' {
        relative(path.skip(1))
    } else {
        path
    }
}

/// The cgroup directories that the lines of `/proc/self/cgroup` name.
pub open spec fn cgroup_dirs(lines: Seq<Seq<char>>) -> Seq<Seq<char>>
    decreases lines.len(),
{
    if lines.len() == 0 {
        Seq::empty()
    } else {
        let before = cgroup_dirs(lines.drop_last());
        let line = lines.last();
        if "0::"@.is_prefix_of(line) {
            before.push(joined("/sys/fs/cgroup"@, relative(line.skip("0::"@.len() as int))))
        } else {
            before
        }
    }
}

fn strip_slashes(path: &[char]) -> (r: &[char])
    ensures
        r@ == relative(path@),
{
    let mut i: usize = 0;
    proof {
        assert(path@.skip(0) =~= path@);
    }
    while i < path.len() && path[i] == '/'
        invariant
            i <= path@.len(),
            relative(path@) == relative(path@.skip(i as int)),
        decreases path@.len() - i,
    {
        proof {
            assert(path@.skip(i as int).skip(1) =~= path@.skip(i + 1));
        }
        i = i + 1;
    }
    proof {
        assert(path@.subrange(i as int, path@.len() as int) =~= path@.skip(i as int));
    }
    slice_subrange(path, i, path.len())
}

/// The candidates for the base cgroup, from the contents of
/// `/proc/self/cgroup`: the first that exists is it.
pub fn cgroup_candidates(content: &str) -> (r: Vec<String>)
    ensures
        r@.map_values(|s: String| s@) == cgroup_dirs(lines_of(content@)),
{
    let chars = to_chars(content);
    let lines = split_lines(&chars);
    let prefix = to_chars("0::");
    let ghost all = lines_of(content@);
    let mut out: Vec<String> = Vec::new();
    let mut i: usize = 0;
    proof {
        assert(all.take(0) =~= Seq::empty());
        assert(out@.map_values(|s: String| s@) =~= Seq::empty());
    }
    while i < lines.len()
        invariant
            i <= lines@.len(),
            texts(lines@) == all,
            prefix@ == "0::"@,
            out@.map_values(|s: String| s@) == cgroup_dirs(all.take(i as int)),
        decreases lines@.len() - i,
    {
        let ghost before = out@;
        let line = &lines[i];
        proof {
            assert(all[i as int] == line@);
            assert(all.take(i + 1).drop_last() =~= all.take(i as int));
            assert(all.take(i + 1).last() == line@);
        }
        if starts_with(line, &prefix) {
            let rest = slice_subrange(line.as_slice(), prefix.len(), line.len());
            proof {
                assert(rest@ =~= line@.skip(prefix@.len() as int));
            }
            let path = from_chars(strip_slashes(rest));
            let dir = join_path("/sys/fs/cgroup", &path);
            let ghost d = dir@;
            out.push(dir);
            proof {
                assert(out@.map_values(|s: String| s@) =~= before.map_values(|s: String| s@).push(
                    d,
                ));
            }
        }
        i = i + 1;
    }
    proof {
        assert(all.take(all.len() as int) =~= all);
    }
    out
}

/// The base cgroup by systemd's convention.
pub fn cgroup_fallback(uid: u32) -> (r: String)
    ensures
        r@ == "/sys/fs/cgroup/user.slice/user-"@ + decimal(uid as nat) + ".slice/user@"@ + decimal(
            uid as nat,
        ) + ".service"@,
{
    let n = format_u64(uid as u64);
    let head = cat4("/sys/fs/cgroup/user.slice/user-", &n, ".slice/user@", &n);
    cat2(&head, ".service")
}

/// Where cgroups can be made directly, what is there counts: the freezer file, and the
/// `cpu` controller among those enabled. Else systemd gives both; without either only
/// signals are left.
pub proof fn capabilities_follow_the_probe(p: CgroupProbe)
    ensures
        ({
            let c = capabilities_of(p);
            &&& p.can_create ==> c.tier is DirectWrite && c.freezer == p.has_freezer && (
            c.cpu_control <==> p.subtree_control is Some && words(
                p.subtree_control->0@,
            ).contains("cpu"@))
            &&& !p.can_create && p.has_systemd ==> c.tier is SystemdTransient && c.freezer
                && c.cpu_control
            &&& !p.can_create && !p.has_systemd ==> c.tier is SignalOnly && !c.freezer
                && !c.cpu_control
        }),
{
}

/// The cgroup of an application bears its name: as a directory below the daemon's own
/// cgroup, or as a scope of systemd's. Without access to cgroups there is none.
pub proof fn cgroup_bears_the_name(base: Seq<char>, name: Seq<char>)
    ensures
        cgroup_request(CgroupCapability::SignalOnly, base, name) is None,
        cgroup_request(CgroupCapability::DirectWrite, base, name) matches Some(
            RequestModel::Directory(path),
        ) && path == joined(base, "app-powerd-"@ + unit_name(name)),
        cgroup_request(CgroupCapability::SystemdTransient, base, name) matches Some(
            RequestModel::Scope { unit, description },
        ) && unit == "app-powerd-"@ + unit_name(name) + ".scope"@ && description
            == "app-powerd managed: "@ + name,
{
}

proof fn lemma_quota_digits(s: Seq<char>)
    ensures
        s.len() > 0 && s.last() != '%' ==> quota_digits(s) == s,
        quota_digits(s.push('%')) == quota_digits(s),
{
    assert(s.push('%').drop_last() =~= s);
}

/// A quota is read as the percentage that was written, with its percent sign or
/// without; one beyond a hundred, or of nothing, is no quota, and what is read lies
/// between.
pub proof fn quota_is_read_as_written(n: nat, quota: Seq<char>)
    ensures
        1 <= n <= 100 ==> quota_percent(decimal(n).push('%')) == Some(n),
        1 <= n <= 100 ==> quota_percent(decimal(n)) == Some(n),
        n > 100 ==> quota_percent(decimal(n).push('%')) is None,
        quota_percent(decimal(0).push('%')) is None,
        quota_percent(quota) matches Some(v) ==> 1 <= v <= 100,
{
    crate::text::numbers_are_read_as_written(Seq::empty(), n, u32::MAX as nat);
    crate::text::numbers_are_read_as_written(Seq::empty(), 0, u32::MAX as nat);
    crate::text::decimal_round_trip(n);
    crate::text::decimal_round_trip(0);
    crate::text::numbers_are_written_plainly(n);
    crate::text::numbers_are_written_plainly(0);
    let d = decimal(n);
    let z = decimal(0);
    assert(crate::text::is_digit(d[d.len() - 1]));
    assert(crate::text::is_digit(z[z.len() - 1]));
    lemma_quota_digits(d);
    lemma_quota_digits(z);
}

/// A path is made relative by taking the slashes at its start, all of them and nothing
/// else.
pub proof fn relative_path_starts_without_slash(path: Seq<char>) -> (k: int)
    ensures
        0 <= k <= path.len(),
        relative(path) == path.skip(k),
        forall|i: int| 0 <= i < k ==> #[trigger] path[i] == '/',
        k < path.len() ==> path[k] != '/',
    decreases path.len(),
{
    if path.len() > 0 && path[0] == '/' {
        let rest = path.skip(1);
        let k = relative_path_starts_without_slash(rest);
        assert(rest.skip(k) =~= path.skip(k + 1));
        assert forall|i: int| 0 <= i < k + 1 implies #[trigger] path[i] == '/' by {
            if i > 0 {
                assert(rest[i - 1] == path[i]);
            }
        }
        k + 1
    } else {
        assert(path.skip(0) =~= path);
        0
    }
}

/// The daemon's cgroup is read off the line of the unified hierarchy: each such line
/// names one, below the mount, and no other line does.
pub proof fn unified_lines_name_the_cgroup(lines: Seq<Seq<char>>, line: Seq<char>)
    ensures
        "0::"@.is_prefix_of(line) ==> cgroup_dirs(lines.push(line)) == cgroup_dirs(lines).push(
            joined("/sys/fs/cgroup"@, relative(line.skip("0::"@.len() as int))),
        ),
        !"0::"@.is_prefix_of(line) ==> cgroup_dirs(lines.push(line)) == cgroup_dirs(lines),
        cgroup_dirs(Seq::empty()).len() == 0,
{
    assert(lines.push(line).drop_last() =~= lines);
}

} // verus!
