//! Configuration: defaults, profiles, rules and how they resolve to a policy.
use vstd::prelude::*;

use crate::text::{clone_opt, opt_text, same_text};
use crate::time::{Nanos, SECOND};

pub mod loader;
pub mod matching;
pub mod pattern;

verus! {

/// Top-level configuration.
#[derive(Debug)]
pub struct Config {
    pub version: u32,
    pub defaults: Defaults,
    /// Named profiles; of two with one name, the first counts.
    pub profiles: Vec<(String, Profile)>,
    pub rules: Vec<Rule>,
}

/// Settings that apply where neither a rule nor its profile says otherwise.
#[derive(Clone, Copy, Debug, PartialEq, Eq, Structural)]
pub struct Defaults {
    pub enabled: bool,
    pub mode: ModeConfig,
    pub timing: TimingConfig,
    pub maintenance_resume: MaintenanceResumeConfig,
    pub guards: GuardsConfig,
    /// How often tracked processes are checked to be alive.
    pub reconcile_interval: Nanos,
    pub protection: ProtectionConfig,
}

/// Whether management is on, by power source.
#[derive(Clone, Copy, Debug, PartialEq, Eq, Structural)]
pub struct ModeConfig {
    pub ac: PowerMode,
    pub battery: PowerMode,
}

#[derive(Clone, Copy, Debug, PartialEq, Eq, Structural)]
pub enum PowerMode {
    Enable,
    Disable,
}

#[derive(Clone, Copy, Debug, PartialEq, Eq, Structural)]
pub struct TimingConfig {
    pub suspend_delay: Nanos,
    pub resume_grace: Nanos,
    pub min_suspend: Nanos,
}

#[derive(Clone, Copy, Debug, PartialEq, Eq, Structural)]
pub struct MaintenanceResumeConfig {
    pub enabled: bool,
    pub interval: Nanos,
    pub duration: Nanos,
}

#[derive(Clone, Copy, Debug, PartialEq, Eq, Structural)]
pub struct GuardsConfig {
    pub audio_active: GuardAction,
    pub mic_active: GuardAction,
    pub camera_active: GuardAction,
    pub fullscreen: GuardAction,
    pub input_idle: Option<Nanos>,
}

/// How the session-bus tier of the protection works.
#[derive(Clone, Copy, Debug, PartialEq, Eq, Structural)]
pub struct ProtectionConfig {
    /// Whether owners of session-bus names are collected at all.
    pub dbus_check: bool,
    /// How often they are collected.
    pub dbus_refresh_interval: Nanos,
}

#[derive(Clone, Copy, Debug, PartialEq, Eq, Structural)]
pub enum GuardAction {
    Check,
    Ignore,
}

/// Named profile for reuse across rules.
#[derive(Debug)]
pub struct Profile {
    pub action: Action,
    pub suspend_delay: Option<Nanos>,
    pub nice: Option<i32>,
    pub cpu_weight: Option<u32>,
    pub cpu_quota: Option<String>,
    pub maintenance_resume: Option<MaintenanceResumeConfig>,
    pub guards: Option<GuardsConfig>,
}

/// Action to apply to background applications.
#[derive(Clone, Copy, Debug, PartialEq, Eq, Structural)]
pub enum Action {
    Ignore,
    Throttle,
    Freeze,
}

/// Per-application matching rule.
#[derive(Debug)]
pub struct Rule {
    pub id: String,
    pub match_criteria: MatchCriteria,
    pub policy: PolicyConfig,
}

#[derive(Debug)]
pub struct MatchCriteria {
    pub executable: Vec<String>,
    pub cmdline_regex: Option<String>,
    pub wm_class: Vec<String>,
    pub app_id: Vec<String>,
    pub desktop_file: Vec<String>,
    pub window_title_regex: Option<String>,
}

#[derive(Debug)]
pub struct PolicyConfig {
    pub use_profile: Option<String>,
    pub action: Option<Action>,
    pub suspend_delay: Option<Nanos>,
    pub nice: Option<i32>,
    pub cpu_weight: Option<u32>,
    pub cpu_quota: Option<String>,
    pub maintenance_resume: Option<MaintenanceResumeConfig>,
    pub guards: Option<GuardsConfig>,
}

/// Fully resolved policy after profile inheritance.
#[derive(Debug)]
pub struct ResolvedPolicy {
    pub action: Action,
    pub suspend_delay: Nanos,
    pub resume_grace: Nanos,
    pub min_suspend: Nanos,
    pub nice: Option<i32>,
    pub cpu_weight: Option<u32>,
    pub cpu_quota: Option<String>,
    pub maintenance_resume: MaintenanceResumeConfig,
    pub guards: GuardsConfig,
    /// Id of the rule that decided the policy.
    pub matched_rule: Option<String>,
    /// Profile that rule referenced.
    pub matched_profile: Option<String>,
}

/// The part of a policy that throttling applies.
#[derive(Debug)]
pub struct ThrottleParams {
    pub nice: Option<i32>,
    pub cpu_weight: Option<u32>,
    pub cpu_quota: Option<String>,
}

/// What a [`ResolvedPolicy`] says.
pub ghost struct PolicyModel {
    pub action: Action,
    pub suspend_delay: Nanos,
    pub resume_grace: Nanos,
    pub min_suspend: Nanos,
    pub nice: Option<i32>,
    pub cpu_weight: Option<u32>,
    pub cpu_quota: Option<Seq<char>>,
    pub maintenance_resume: MaintenanceResumeConfig,
    pub guards: GuardsConfig,
    pub matched_rule: Option<Seq<char>>,
    pub matched_profile: Option<Seq<char>>,
}

impl View for ResolvedPolicy {
    type V = PolicyModel;

    open spec fn view(&self) -> PolicyModel {
        PolicyModel {
            action: self.action,
            suspend_delay: self.suspend_delay,
            resume_grace: self.resume_grace,
            min_suspend: self.min_suspend,
            nice: self.nice,
            cpu_weight: self.cpu_weight,
            cpu_quota: opt_text(self.cpu_quota),
            maintenance_resume: self.maintenance_resume,
            guards: self.guards,
            matched_rule: opt_text(self.matched_rule),
            matched_profile: opt_text(self.matched_profile),
        }
    }
}

/// Management is off on AC and on on battery.
pub open spec fn default_mode() -> ModeConfig {
    ModeConfig { ac: PowerMode::Disable, battery: PowerMode::Enable }
}

/// 30 s before suspending, 3 s of grace, 5 s in the background at least.
pub open spec fn default_timing() -> TimingConfig {
    TimingConfig {
        suspend_delay: 30_000_000_000,
        resume_grace: 3_000_000_000,
        min_suspend: 5_000_000_000,
    }
}

/// Off; every 30 s for 1 s where it is on.
pub open spec fn default_maintenance() -> MaintenanceResumeConfig {
    MaintenanceResumeConfig { enabled: false, interval: 30_000_000_000, duration: 1_000_000_000 }
}

/// Every guard is checked, but for the input guard, which is off.
pub open spec fn default_guards() -> GuardsConfig {
    GuardsConfig {
        audio_active: GuardAction::Check,
        mic_active: GuardAction::Check,
        camera_active: GuardAction::Check,
        fullscreen: GuardAction::Check,
        input_idle: None,
    }
}

/// The bus is asked, once a minute.
pub open spec fn default_protection() -> ProtectionConfig {
    ProtectionConfig { dbus_check: true, dbus_refresh_interval: 60_000_000_000 }
}

/// The settings of an empty configuration.
pub open spec fn default_settings() -> Defaults {
    Defaults {
        enabled: true,
        mode: default_mode(),
        timing: default_timing(),
        maintenance_resume: default_maintenance(),
        guards: default_guards(),
        reconcile_interval: 30_000_000_000,
        protection: default_protection(),
    }
}

/// The configuration version that a file without one has.
pub fn default_version() -> (r: u32)
    ensures
        r == 1,
{
    1
}

impl Default for ModeConfig {
    fn default() -> (r: Self)
        ensures
            r == default_mode(),
    {
        ModeConfig { ac: PowerMode::Disable, battery: PowerMode::Enable }
    }
}

impl Default for TimingConfig {
    fn default() -> (r: Self)
        ensures
            r == default_timing(),
    {
        TimingConfig {
            suspend_delay: 30 * SECOND,
            resume_grace: 3 * SECOND,
            min_suspend: 5 * SECOND,
        }
    }
}

impl Default for MaintenanceResumeConfig {
    fn default() -> (r: Self)
        ensures
            r == default_maintenance(),
    {
        MaintenanceResumeConfig { enabled: false, interval: 30 * SECOND, duration: SECOND }
    }
}

impl Default for GuardsConfig {
    fn default() -> (r: Self)
        ensures
            r == default_guards(),
    {
        GuardsConfig {
            audio_active: GuardAction::Check,
            mic_active: GuardAction::Check,
            camera_active: GuardAction::Check,
            fullscreen: GuardAction::Check,
            input_idle: None,
        }
    }
}

impl Default for ProtectionConfig {
    fn default() -> (r: Self)
        ensures
            r == default_protection(),
    {
        ProtectionConfig { dbus_check: true, dbus_refresh_interval: 60 * SECOND }
    }
}

impl Default for Defaults {
    fn default() -> (r: Self)
        ensures
            r == default_settings(),
    {
        Defaults {
            enabled: true,
            mode: ModeConfig::default(),
            timing: TimingConfig::default(),
            maintenance_resume: MaintenanceResumeConfig::default(),
            guards: GuardsConfig::default(),
            reconcile_interval: 30 * SECOND,
            protection: ProtectionConfig::default(),
        }
    }
}

impl Default for Config {
    /// No profiles, no rules.
    fn default() -> (r: Self)
        ensures
            r.version == 1,
            r.defaults == default_settings(),
            r.profiles@.len() == 0,
            r.rules@.len() == 0,
    {
        Config {
            version: 1,
            defaults: Defaults::default(),
            profiles: Vec::new(),
            rules: Vec::new(),
        }
    }
}

/// The policy that applies where nothing is configured.
pub open spec fn builtin_policy() -> ResolvedPolicy {
    ResolvedPolicy {
        action: Action::Freeze,
        suspend_delay: default_timing().suspend_delay,
        resume_grace: default_timing().resume_grace,
        min_suspend: default_timing().min_suspend,
        nice: None,
        cpu_weight: None,
        cpu_quota: None,
        maintenance_resume: default_maintenance(),
        guards: default_guards(),
        matched_rule: None,
        matched_profile: None,
    }
}

impl Default for ResolvedPolicy {
    fn default() -> (r: Self)
        ensures
            r == builtin_policy(),
    {
        ResolvedPolicy {
            action: Action::Freeze,
            suspend_delay: 30 * SECOND,
            resume_grace: 3 * SECOND,
            min_suspend: 5 * SECOND,
            nice: None,
            cpu_weight: None,
            cpu_quota: None,
            maintenance_resume: MaintenanceResumeConfig::default(),
            guards: GuardsConfig::default(),
            matched_rule: None,
            matched_profile: None,
        }
    }
}

impl ResolvedPolicy {
    /// A copy of the policy.
    pub fn copy(&self) -> (r: Self)
        ensures
            r == *self,
    {
        ResolvedPolicy {
            action: self.action,
            suspend_delay: self.suspend_delay,
            resume_grace: self.resume_grace,
            min_suspend: self.min_suspend,
            nice: self.nice,
            cpu_weight: self.cpu_weight,
            cpu_quota: clone_opt(&self.cpu_quota),
            maintenance_resume: self.maintenance_resume,
            guards: self.guards,
            matched_rule: clone_opt(&self.matched_rule),
            matched_profile: clone_opt(&self.matched_profile),
        }
    }

    /// The part of the policy that throttling applies.
    pub fn throttle_params(&self) -> (r: ThrottleParams)
        ensures
            r == (ThrottleParams {
                nice: self.nice,
                cpu_weight: self.cpu_weight,
                cpu_quota: self.cpu_quota,
            }),
    {
        ThrottleParams {
            nice: self.nice,
            cpu_weight: self.cpu_weight,
            cpu_quota: clone_opt(&self.cpu_quota),
        }
    }
}

/// The first of `a` and `b` that is there.
pub open spec fn either<T>(a: Option<T>, b: Option<T>) -> Option<T> {
    if a is Some {
        a
    } else {
        b
    }
}

/// The first of `a` and `b` that is there, or `c`.
pub open spec fn either_or<T>(a: Option<T>, b: Option<T>, c: T) -> T {
    match either(a, b) {
        Some(x) => x,
        None => c,
    }
}

/// The profile called `name`.
pub open spec fn profile_named(profiles: Seq<(String, Profile)>, name: Seq<char>) -> Option<Profile>
    decreases profiles.len(),
{
    if profiles.len() == 0 {
        None
    } else if profiles[0].0@ == name {
        Some(profiles[0].1)
    } else {
        profile_named(profiles.skip(1), name)
    }
}

/// The profile that a rule's policy uses.
pub open spec fn profile_used(config: Config, policy: PolicyConfig) -> Option<Profile> {
    match policy.use_profile {
        Some(name) => profile_named(config.profiles@, name@),
        None => None,
    }
}

/// What a rule's policy comes to: each field by itself from the rule, else from
/// the profile, else from the defaults.
pub open spec fn resolved(config: Config, policy: PolicyConfig) -> ResolvedPolicy {
    let p = profile_used(config, policy);
    let d = config.defaults;
    ResolvedPolicy {
        action: either_or(
            policy.action,
            match p {
                Some(x) => Some(x.action),
                None => None,
            },
            Action::Freeze,
        ),
        suspend_delay: either_or(
            policy.suspend_delay,
            match p {
                Some(x) => x.suspend_delay,
                None => None,
            },
            d.timing.suspend_delay,
        ),
        resume_grace: d.timing.resume_grace,
        min_suspend: d.timing.min_suspend,
        nice: either(
            policy.nice,
            match p {
                Some(x) => x.nice,
                None => None,
            },
        ),
        cpu_weight: either(
            policy.cpu_weight,
            match p {
                Some(x) => x.cpu_weight,
                None => None,
            },
        ),
        cpu_quota: either(
            policy.cpu_quota,
            match p {
                Some(x) => x.cpu_quota,
                None => None,
            },
        ),
        maintenance_resume: either_or(
            policy.maintenance_resume,
            match p {
                Some(x) => x.maintenance_resume,
                None => None,
            },
            d.maintenance_resume,
        ),
        guards: either_or(
            policy.guards,
            match p {
                Some(x) => x.guards,
                None => None,
            },
            d.guards,
        ),
        matched_rule: None,
        matched_profile: policy.use_profile,
    }
}

/// The policy of an application that no rule matches.
pub open spec fn fallback(config: Config) -> ResolvedPolicy {
    ResolvedPolicy {
        suspend_delay: config.defaults.timing.suspend_delay,
        resume_grace: config.defaults.timing.resume_grace,
        min_suspend: config.defaults.timing.min_suspend,
        maintenance_resume: config.defaults.maintenance_resume,
        guards: config.defaults.guards,
        ..builtin_policy()
    }
}

fn or_copy<T: Copy>(a: Option<T>, b: Option<T>) -> (r: Option<T>)
    ensures
        r == either(a, b),
{
    match a {
        Some(x) => Some(x),
        None => b,
    }
}

fn or_else<T: Copy>(a: Option<T>, b: Option<T>, c: T) -> (r: T)
    ensures
        r == either_or(a, b, c),
{
    match a {
        Some(x) => x,
        None => match b {
            Some(y) => y,
            None => c,
        },
    }
}

impl Config {
    /// The profile called `name`.
    pub fn find_profile(&self, name: &str) -> (r: Option<&Profile>)
        ensures
            match r {
                Some(p) => profile_named(self.profiles@, name@) == Some(*p),
                None => profile_named(self.profiles@, name@) is None,
            },
    {
        let ghost all = self.profiles@;
        let mut i: usize = 0;
        proof {
            assert(all.skip(0) =~= all);
        }
        while i < self.profiles.len()
            invariant
                i <= all.len(),
                all == self.profiles@,
                profile_named(all, name@) == profile_named(all.skip(i as int), name@),
            decreases all.len() - i,
        {
            proof {
                assert(all.skip(i as int)[0] == all[i as int]);
                assert(all.skip(i as int).skip(1) =~= all.skip(i + 1));
            }
            if same_text(&self.profiles[i].0, name) {
                return Some(&self.profiles[i].1);
            }
            i = i + 1;
        }
        None
    }

    /// Resolve a policy from rule, profile and defaults.
    pub fn resolve_policy(&self, policy: &PolicyConfig) -> (r: ResolvedPolicy)
        ensures
            r == resolved(*self, *policy),
    {
        let profile = match &policy.use_profile {
            Some(name) => self.find_profile(name),
            None => None,
        };
        let d = &self.defaults;
        match profile {
            Some(p) => ResolvedPolicy {
                action: or_else(policy.action, Some(p.action), Action::Freeze),
                suspend_delay: or_else(
                    policy.suspend_delay,
                    p.suspend_delay,
                    d.timing.suspend_delay,
                ),
                resume_grace: d.timing.resume_grace,
                min_suspend: d.timing.min_suspend,
                nice: or_copy(policy.nice, p.nice),
                cpu_weight: or_copy(policy.cpu_weight, p.cpu_weight),
                cpu_quota: match &policy.cpu_quota {
                    Some(q) => Some(q.clone()),
                    None => clone_opt(&p.cpu_quota),
                },
                maintenance_resume: or_else(
                    policy.maintenance_resume,
                    p.maintenance_resume,
                    d.maintenance_resume,
                ),
                guards: or_else(policy.guards, p.guards, d.guards),
                matched_rule: None,
                matched_profile: clone_opt(&policy.use_profile),
            },
            None => ResolvedPolicy {
                action: or_else(policy.action, None, Action::Freeze),
                suspend_delay: or_else(policy.suspend_delay, None, d.timing.suspend_delay),
                resume_grace: d.timing.resume_grace,
                min_suspend: d.timing.min_suspend,
                nice: policy.nice,
                cpu_weight: policy.cpu_weight,
                cpu_quota: clone_opt(&policy.cpu_quota),
                maintenance_resume: or_else(
                    policy.maintenance_resume,
                    None,
                    d.maintenance_resume,
                ),
                guards: or_else(policy.guards, None, d.guards),
                matched_rule: None,
                matched_profile: clone_opt(&policy.use_profile),
            },
        }
    }

    /// Resolve the default policy (no rule matched).
    pub fn default_policy(&self) -> (r: ResolvedPolicy)
        ensures
            r == fallback(*self),
    {
        ResolvedPolicy {
            action: Action::Freeze,
            suspend_delay: self.defaults.timing.suspend_delay,
            resume_grace: self.defaults.timing.resume_grace,
            min_suspend: self.defaults.timing.min_suspend,
            nice: None,
            cpu_weight: None,
            cpu_quota: None,
            maintenance_resume: self.defaults.maintenance_resume,
            guards: self.defaults.guards,
            matched_rule: None,
            matched_profile: None,
        }
    }

    /// The names of the profiles that declare a CPU weight or quota.
    pub fn profiles_requiring_cpu_control(&self) -> (r: Vec<String>)
        ensures
            r@.map_values(|s: String| s@) == cpu_profiles(self.profiles@),
    {
        let mut out: Vec<String> = Vec::new();
        let ghost all = self.profiles@;
        let mut i: usize = 0;
        proof {
            assert(all.take(0) =~= Seq::empty());
            assert(out@.map_values(|s: String| s@) =~= Seq::empty());
        }
        while i < self.profiles.len()
            invariant
                i <= all.len(),
                all == self.profiles@,
                out@.map_values(|s: String| s@) == cpu_profiles(all.take(i as int)),
            decreases all.len() - i,
        {
            let ghost before = out@;
            proof {
                assert(all.take(i + 1).drop_last() =~= all.take(i as int));
            }
            let p = &self.profiles[i].1;
            if p.cpu_weight.is_some() || p.cpu_quota.is_some() {
                out.push(self.profiles[i].0.clone());
                proof {
                    assert(out@.map_values(|s: String| s@) =~= before.map_values(
                        |s: String| s@,
                    ).push(all[i as int].0@));
                }
            }
            i = i + 1;
        }
        proof {
            assert(all.take(all.len() as int) =~= all);
        }
        out
    }
}

/// The names of the profiles that declare a CPU weight or quota, in order.
pub open spec fn cpu_profiles(profiles: Seq<(String, Profile)>) -> Seq<Seq<char>>
    decreases profiles.len(),
{
    if profiles.len() == 0 {
        Seq::empty()
    } else {
        let before = cpu_profiles(profiles.drop_last());
        let p = profiles.last();
        if p.1.cpu_weight is Some || p.1.cpu_quota is Some {
            before.push(p.0@)
        } else {
            before
        }
    }
}

/// A rule's own setting decides, whatever its profile says; where the rule is
/// silent the profile decides; where both are, the defaults do.
pub proof fn resolution_order(config: Config, policy: PolicyConfig)
    ensures
        policy.action is Some ==> resolved(config, policy).action == policy.action->0,
        policy.suspend_delay is Some ==> resolved(config, policy).suspend_delay
            == policy.suspend_delay->0,
        policy.guards is Some ==> resolved(config, policy).guards == policy.guards->0,
        policy.maintenance_resume is Some ==> resolved(config, policy).maintenance_resume
            == policy.maintenance_resume->0,
        profile_used(config, policy) matches Some(p) && policy.action is None ==> resolved(
            config,
            policy,
        ).action == profile_used(config, policy)->0.action,
        profile_used(config, policy) is None && policy.suspend_delay is None ==> resolved(
            config,
            policy,
        ).suspend_delay == config.defaults.timing.suspend_delay,
        profile_used(config, policy) is None && policy.action is None ==> resolved(
            config,
            policy,
        ).action is Freeze,
{
}

/// The profile of a name is the first that bears it, and there is none only where no
/// profile does.
pub proof fn the_first_profile_of_a_name_counts(
    profiles: Seq<(String, Profile)>,
    name: Seq<char>,
)
    ensures
        match profile_named(profiles, name) {
            Some(p) => exists|i: int|
                0 <= i < profiles.len() && (#[trigger] profiles[i]).0@ == name && profiles[i].1 == p
                    && forall|j: int| 0 <= j < i ==> (#[trigger] profiles[j]).0@ != name,
            None => forall|i: int| 0 <= i < profiles.len() ==> (#[trigger] profiles[i]).0@ != name,
        },
    decreases profiles.len(),
{
    if profiles.len() > 0 {
        if profiles[0].0@ == name {
            assert(profiles[0].1 == profile_named(profiles, name)->0);
        } else {
            let rest = profiles.skip(1);
            the_first_profile_of_a_name_counts(rest, name);
            match profile_named(rest, name) {
                Some(p) => {
                    let i = choose|i: int|
                        0 <= i < rest.len() && (#[trigger] rest[i]).0@ == name && rest[i].1 == p
                            && forall|j: int| 0 <= j < i ==> (#[trigger] rest[j]).0@ != name;
                    assert(profiles[i + 1] == rest[i]);
                    assert forall|j: int| 0 <= j < i + 1 implies (#[trigger] profiles[j]).0@
                        != name by {
                        if j > 0 {
                            assert(rest[j - 1] == profiles[j]);
                        }
                    }
                },
                None => {
                    assert forall|i: int| 0 <= i < profiles.len() implies (
                    #[trigger] profiles[i]).0@ != name by {
                        if i > 0 {
                            assert(rest[i - 1] == profiles[i]);
                        }
                    }
                },
            }
        }
    }
}

/// What a rule says itself counts, in every respect.
pub proof fn a_rule_outranks_its_profile(config: Config, policy: PolicyConfig)
    ensures
        ({
            let r = resolved(config, policy);
            &&& policy.action matches Some(x) ==> r.action == x
            &&& policy.suspend_delay matches Some(x) ==> r.suspend_delay == x
            &&& policy.nice is Some ==> r.nice == policy.nice
            &&& policy.cpu_weight is Some ==> r.cpu_weight == policy.cpu_weight
            &&& policy.cpu_quota is Some ==> r.cpu_quota == policy.cpu_quota
            &&& policy.maintenance_resume matches Some(x) ==> r.maintenance_resume == x
            &&& policy.guards matches Some(x) ==> r.guards == x
            &&& r.matched_profile == policy.use_profile
            &&& r.resume_grace == config.defaults.timing.resume_grace
            &&& r.min_suspend == config.defaults.timing.min_suspend
        }),
{
}

/// What a rule does not say its profile says, in every respect in which this says
/// something.
pub proof fn a_profile_fills_what_its_rule_leaves(
    config: Config,
    policy: PolicyConfig,
    p: Profile,
)
    requires
        profile_used(config, policy) == Some(p),
    ensures
        ({
            let r = resolved(config, policy);
            &&& policy.action is None ==> r.action == p.action
            &&& policy.suspend_delay is None ==> (p.suspend_delay matches Some(x)
                ==> r.suspend_delay == x)
            &&& policy.nice is None ==> r.nice == p.nice
            &&& policy.cpu_weight is None ==> r.cpu_weight == p.cpu_weight
            &&& policy.cpu_quota is None ==> r.cpu_quota == p.cpu_quota
            &&& policy.maintenance_resume is None ==> (p.maintenance_resume matches Some(x)
                ==> r.maintenance_resume == x)
            &&& policy.guards is None ==> (p.guards matches Some(x) ==> r.guards == x)
        }),
{
}

/// What neither a rule nor its profile says the defaults say; an application is frozen
/// where nothing says otherwise, and throttled by nothing that is not given.
pub proof fn defaults_fill_the_rest(config: Config, policy: PolicyConfig)
    ensures
        ({
            let r = resolved(config, policy);
            let p = profile_used(config, policy);
            let d = config.defaults;
            &&& policy.action is None && p is None ==> r.action is Freeze
            &&& policy.suspend_delay is None && (p is None || p->0.suspend_delay is None)
                ==> r.suspend_delay == d.timing.suspend_delay
            &&& policy.maintenance_resume is None && (p is None
                || p->0.maintenance_resume is None) ==> r.maintenance_resume
                == d.maintenance_resume
            &&& policy.guards is None && (p is None || p->0.guards is None) ==> r.guards == d.guards
            &&& policy.nice is None && p is None ==> r.nice is None
            &&& policy.cpu_weight is None && p is None ==> r.cpu_weight is None
            &&& policy.cpu_quota is None && p is None ==> r.cpu_quota is None
        }),
{
}

/// A rule uses the profile that it names, and none where it names none.
pub proof fn a_rule_uses_the_profile_it_names(config: Config, policy: PolicyConfig)
    ensures
        policy.use_profile is None ==> profile_used(config, policy) is None,
        policy.use_profile matches Some(name) ==> profile_used(config, policy) == profile_named(
            config.profiles@,
            name@,
        ),
{
}

/// An application that no rule matches is frozen, with the timing, the maintenance and
/// the guards of the defaults, and with nothing else.
pub proof fn an_unmatched_application_follows_the_defaults(config: Config)
    ensures
        ({
            let f = fallback(config);
            &&& f.action is Freeze
            &&& f.suspend_delay == config.defaults.timing.suspend_delay
            &&& f.resume_grace == config.defaults.timing.resume_grace
            &&& f.min_suspend == config.defaults.timing.min_suspend
            &&& f.maintenance_resume == config.defaults.maintenance_resume
            &&& f.guards == config.defaults.guards
            &&& f.nice is None
            &&& f.cpu_weight is None
            &&& f.cpu_quota is None
            &&& f.matched_rule is None
            &&& f.matched_profile is None
        }),
{
}

/// The settings that hold where nothing is configured.
pub proof fn settings_of_an_empty_configuration()
    ensures
        ({
            let d = default_settings();
            &&& d.enabled
            &&& d.mode.ac is Disable
            &&& d.mode.battery is Enable
            &&& d.timing.suspend_delay == 30 * crate::time::SECOND
            &&& d.timing.resume_grace == 3 * crate::time::SECOND
            &&& d.timing.min_suspend == 5 * crate::time::SECOND
            &&& !d.maintenance_resume.enabled
            &&& d.maintenance_resume.interval == 30 * crate::time::SECOND
            &&& d.maintenance_resume.duration == crate::time::SECOND
            &&& d.guards.audio_active is Check
            &&& d.guards.mic_active is Check
            &&& d.guards.camera_active is Check
            &&& d.guards.fullscreen is Check
            &&& d.guards.input_idle is None
            &&& d.reconcile_interval == 30 * crate::time::SECOND
            &&& d.protection.dbus_check
            &&& d.protection.dbus_refresh_interval == 60 * crate::time::SECOND
        }),
        builtin_policy().action is Freeze,
        builtin_policy().suspend_delay == 30 * crate::time::SECOND,
        builtin_policy().resume_grace == 3 * crate::time::SECOND,
        builtin_policy().min_suspend == 5 * crate::time::SECOND,
        builtin_policy().matched_rule is None,
{
}

/// A profile is listed as one with CPU settings exactly where it gives a weight or a
/// quota.
pub proof fn profiles_with_cpu_settings_are_listed(
    profiles: Seq<(String, Profile)>,
    name: Seq<char>,
)
    ensures
        cpu_profiles(profiles).contains(name) <==> exists|i: int|
            0 <= i < profiles.len() && (#[trigger] profiles[i]).0@ == name && (
            profiles[i].1.cpu_weight is Some || profiles[i].1.cpu_quota is Some),
    decreases profiles.len(),
{
    if profiles.len() > 0 {
        let w = profiles.drop_last();
        let n = w.len() as int;
        profiles_with_cpu_settings_are_listed(w, name);
        assert(profiles[n] == profiles.last());
        vstd::seq_lib::lemma_seq_contains_after_push(cpu_profiles(w), profiles.last().0@, name);
        if exists|i: int|
            0 <= i < w.len() && (#[trigger] w[i]).0@ == name && (w[i].1.cpu_weight is Some
                || w[i].1.cpu_quota is Some) {
            let i = choose|i: int|
                0 <= i < w.len() && (#[trigger] w[i]).0@ == name && (w[i].1.cpu_weight is Some
                    || w[i].1.cpu_quota is Some);
            assert(profiles[i] == w[i]);
        }
        if exists|i: int|
            0 <= i < profiles.len() && (#[trigger] profiles[i]).0@ == name && (
            profiles[i].1.cpu_weight is Some || profiles[i].1.cpu_quota is Some) {
            let i = choose|i: int|
                0 <= i < profiles.len() && (#[trigger] profiles[i]).0@ == name && (
                profiles[i].1.cpu_weight is Some || profiles[i].1.cpu_quota is Some);
            if i < n {
                assert(w[i] == profiles[i]);
            }
        }
    }
}

} // verus!
