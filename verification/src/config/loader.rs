//! Loading and validating the configuration.
use vstd::prelude::*;
use vstd::slice::slice_subrange;

use crate::config::{default_settings, profile_named, Config, Profile, Rule};
use crate::error::ConfigError;
use crate::system::{join_path, joined};
use crate::text::{
    append_i64, cat2, cat3, cat4, decimal, decimal_int, format_u64, parse_bounded, parse_u32,
    same_text, to_chars,
};

verus! {

/// What is wrong with a configuration.
pub ghost enum Fault {
    /// A value is not allowed; the text says which.
    Validation(Seq<char>),
    /// A rule references a profile that is not defined.
    UnknownProfile { rule_id: Seq<char>, profile: Seq<char> },
}

/// The fault that an error reports.
pub open spec fn fault_in(e: ConfigError) -> Option<Fault> {
    match e {
        ConfigError::Validation { message } => Some(Fault::Validation(message@)),
        ConfigError::UnknownProfile { rule_id, profile } => Some(
            Fault::UnknownProfile { rule_id: rule_id@, profile: profile@ },
        ),
        _ => None,
    }
}

/// The fault that a result reports.
pub open spec fn fault_of(r: Result<(), ConfigError>) -> Option<Fault> {
    match r {
        Ok(_) => None,
        Err(e) => fault_in(e),
    }
}

/// A quota without one trailing percent sign.
pub open spec fn quota_number(quota: Seq<char>) -> Seq<char> {
    if quota.len() > 0 && quota.last() == '%' {
        quota.drop_last()
    } else {
        quota
    }
}

/// What is wrong with a set of throttle parameters: `nice` in -20..=19, CPU
/// weight in 1..=10000, CPU quota a percentage in 1..=100.
pub open spec fn throttle_fault(
    ctx: Seq<char>,
    nice: Option<i32>,
    cpu_weight: Option<u32>,
    cpu_quota: Option<Seq<char>>,
) -> Option<Seq<char>> {
    if nice is Some && !(-20 <= nice->0 <= 19) {
        Some(ctx + ": nice must be in -20..19, got "@ + decimal_int(nice->0 as int))
    } else if cpu_weight is Some && !(1 <= cpu_weight->0 <= 10000) {
        Some(ctx + ": cpu_weight must be in 1..10000, got "@ + decimal(cpu_weight->0 as nat))
    } else if cpu_quota is Some {
        match parse_bounded(quota_number(cpu_quota->0), u32::MAX as nat) {
            Some(v) => if 1 <= v <= 100 {
                None
            } else {
                Some(ctx + ": cpu_quota must be in 1..=100, got "@ + decimal(v))
            },
            None => Some(
                ctx + ": cpu_quota must be a number with optional '%' suffix, got '"@
                    + cpu_quota->0 + "'"@,
            ),
        }
    } else {
        None
    }
}

/// How an error message refers to a profile.
pub open spec fn profile_ctx(name: Seq<char>) -> Seq<char> {
    "profile '"@ + name + "'"@
}

/// How an error message refers to a rule.
pub open spec fn rule_ctx(id: Seq<char>) -> Seq<char> {
    "rule '"@ + id + "'"@
}

/// The text of an optional quota.
pub open spec fn quota_text(q: Option<String>) -> Option<Seq<char>> {
    match q {
        Some(s) => Some(s@),
        None => None,
    }
}

/// What is wrong with one rule by itself: an empty id, or a profile that is not
/// defined.
pub open spec fn rule_fault(config: Config, rule: Rule) -> Option<Fault> {
    if rule.id@.len() == 0 {
        Some(Fault::Validation("rule id cannot be empty"@))
    } else {
        match rule.policy.use_profile {
            Some(name) => if profile_named(config.profiles@, name@) is None {
                Some(Fault::UnknownProfile { rule_id: rule.id@, profile: name@ })
            } else {
                None
            },
            None => None,
        }
    }
}

/// Whether an earlier rule has the id of rule `i`.
pub open spec fn id_taken(rules: Seq<Rule>, i: int) -> bool {
    exists|j: int| 0 <= j < i && (#[trigger] rules[j]).id@ == rules[i].id@
}

/// The first fault of a rule by itself, from rule `i` on.
pub open spec fn rules_fault(config: Config, i: int) -> Option<Fault>
    decreases config.rules@.len() - i,
{
    if i < 0 || i >= config.rules@.len() {
        None
    } else {
        match rule_fault(config, config.rules@[i]) {
            Some(f) => Some(f),
            None => rules_fault(config, i + 1),
        }
    }
}

/// The first id that occurs a second time, from rule `i` on.
pub open spec fn duplicate_fault(rules: Seq<Rule>, i: int) -> Option<Fault>
    decreases rules.len() - i,
{
    if i < 0 || i >= rules.len() {
        None
    } else if id_taken(rules, i) {
        Some(Fault::Validation("duplicate rule id: '"@ + rules[i].id@ + "'"@))
    } else {
        duplicate_fault(rules, i + 1)
    }
}

/// The first fault in the throttle parameters of a profile, from profile `i` on.
pub open spec fn profiles_fault(profiles: Seq<(String, Profile)>, i: int) -> Option<Fault>
    decreases profiles.len() - i,
{
    if i < 0 || i >= profiles.len() {
        None
    } else {
        let p = profiles[i].1;
        match throttle_fault(
            profile_ctx(profiles[i].0@),
            p.nice,
            p.cpu_weight,
            quota_text(p.cpu_quota),
        ) {
            Some(m) => Some(Fault::Validation(m)),
            None => profiles_fault(profiles, i + 1),
        }
    }
}

/// The first fault in the throttle parameters of a rule, from rule `i` on.
pub open spec fn overrides_fault(rules: Seq<Rule>, i: int) -> Option<Fault>
    decreases rules.len() - i,
{
    if i < 0 || i >= rules.len() {
        None
    } else {
        let p = rules[i].policy;
        match throttle_fault(
            rule_ctx(rules[i].id@),
            p.nice,
            p.cpu_weight,
            quota_text(p.cpu_quota),
        ) {
            Some(m) => Some(Fault::Validation(m)),
            None => overrides_fault(rules, i + 1),
        }
    }
}

/// The first fault of a configuration, in the order in which they are looked
/// for.
pub open spec fn config_fault(config: Config) -> Option<Fault> {
    if config.version != 1 {
        Some(Fault::Validation("unsupported config version: "@ + decimal(config.version as nat)))
    } else if rules_fault(config, 0) is Some {
        rules_fault(config, 0)
    } else if duplicate_fault(config.rules@, 0) is Some {
        duplicate_fault(config.rules@, 0)
    } else if profiles_fault(config.profiles@, 0) is Some {
        profiles_fault(config.profiles@, 0)
    } else {
        overrides_fault(config.rules@, 0)
    }
}

/// Checks the ranges of throttle parameters.
pub fn validate_throttle_params(
    ctx: &str,
    nice: Option<i32>,
    cpu_weight: Option<u32>,
    cpu_quota: Option<&str>,
) -> (r: Result<(), ConfigError>)
    ensures
        fault_of(r) == (match throttle_fault(
            ctx@,
            nice,
            cpu_weight,
            match cpu_quota {
                Some(q) => Some(q@),
                None => None,
            },
        ) {
            Some(m) => Some(Fault::Validation(m)),
            None => None,
        }),
        r is Ok <==> fault_of(r) is None,
{
    if let Some(n) = nice {
        if !(-20 <= n && n <= 19) {
            let mut message = cat2(ctx, ": nice must be in -20..19, got ");
            append_i64(&mut message, n as i64);
            return Err(ConfigError::Validation { message });
        }
    }
    if let Some(w) = cpu_weight {
        if !(1 <= w && w <= 10000) {
            let value = format_u64(w as u64);
            return Err(
                ConfigError::Validation {
                    message: cat3(ctx, ": cpu_weight must be in 1..10000, got ", &value),
                },
            );
        }
    }
    if let Some(quota) = cpu_quota {
        let chars = to_chars(quota);
        let n: usize = if chars.len() > 0 && chars[chars.len() - 1] == '%' {
            chars.len() - 1
        } else {
            chars.len()
        };
        let number = slice_subrange(chars.as_slice(), 0, n);
        proof {
            assert(number@ =~= quota_number(quota@));
        }
        match parse_u32(number) {
            Some(v) => {
                if !(1 <= v && v <= 100) {
                    let value = format_u64(v as u64);
                    return Err(
                        ConfigError::Validation {
                            message: cat3(ctx, ": cpu_quota must be in 1..=100, got ", &value),
                        },
                    );
                }
            },
            None => {
                return Err(
                    ConfigError::Validation {
                        message: cat4(
                            ctx,
                            ": cpu_quota must be a number with optional '%' suffix, got '",
                            quota,
                            "'",
                        ),
                    },
                );
            },
        }
    }
    Ok(())
}

fn quota_str(q: &Option<String>) -> (r: Option<&str>)
    ensures
        quota_text(*q) == (match r {
            Some(s) => Some(s@),
            None => None,
        }),
{
    match q {
        Some(s) => Some(s.as_str()),
        None => None,
    }
}

fn validate_rules(config: &Config) -> (r: Result<(), ConfigError>)
    ensures
        fault_of(r) == rules_fault(*config, 0),
        r is Ok <==> fault_of(r) is None,
{
    let mut i: usize = 0;
    while i < config.rules.len()
        invariant
            i <= config.rules@.len(),
            rules_fault(*config, 0) == rules_fault(*config, i as int),
        decreases config.rules@.len() - i,
    {
        let rule = &config.rules[i];
        if rule.id.as_str().is_empty() {
            return Err(
                ConfigError::Validation { message: "rule id cannot be empty".to_owned() },
            );
        }
        if let Some(name) = &rule.policy.use_profile {
            if config.find_profile(name).is_none() {
                return Err(
                    ConfigError::UnknownProfile {
                        rule_id: rule.id.clone(),
                        profile: name.clone(),
                    },
                );
            }
        }
        i = i + 1;
    }
    Ok(())
}

fn validate_ids(rules: &Vec<Rule>) -> (r: Result<(), ConfigError>)
    ensures
        fault_of(r) == duplicate_fault(rules@, 0),
        r is Ok <==> fault_of(r) is None,
{
    let mut i: usize = 0;
    while i < rules.len()
        invariant
            i <= rules@.len(),
            duplicate_fault(rules@, 0) == duplicate_fault(rules@, i as int),
        decreases rules@.len() - i,
    {
        let mut j: usize = 0;
        while j < i
            invariant
                j <= i < rules@.len(),
                duplicate_fault(rules@, 0) == duplicate_fault(rules@, i as int),
                forall|k: int| 0 <= k < j ==> (#[trigger] rules@[k]).id@ != rules@[i as int].id@,
            decreases i - j,
        {
            if same_text(&rules[j].id, &rules[i].id) {
                proof {
                    assert(rules@[j as int].id@ == rules@[i as int].id@);
                    assert(id_taken(rules@, i as int));
                }
                return Err(
                    ConfigError::Validation {
                        message: cat3("duplicate rule id: '", &rules[i].id, "'"),
                    },
                );
            }
            j = j + 1;
        }
        proof {
            assert(!id_taken(rules@, i as int));
        }
        i = i + 1;
    }
    Ok(())
}

fn validate_profiles(profiles: &Vec<(String, Profile)>) -> (r: Result<(), ConfigError>)
    ensures
        fault_of(r) == profiles_fault(profiles@, 0),
        r is Ok <==> fault_of(r) is None,
{
    let mut i: usize = 0;
    while i < profiles.len()
        invariant
            i <= profiles@.len(),
            profiles_fault(profiles@, 0) == profiles_fault(profiles@, i as int),
        decreases profiles@.len() - i,
    {
        let ctx = cat3("profile '", &profiles[i].0, "'");
        let p = &profiles[i].1;
        match validate_throttle_params(&ctx, p.nice, p.cpu_weight, quota_str(&p.cpu_quota)) {
            Ok(()) => {},
            Err(e) => {
                return Err(e);
            },
        }
        i = i + 1;
    }
    Ok(())
}

fn validate_overrides(rules: &Vec<Rule>) -> (r: Result<(), ConfigError>)
    ensures
        fault_of(r) == overrides_fault(rules@, 0),
        r is Ok <==> fault_of(r) is None,
{
    let mut i: usize = 0;
    while i < rules.len()
        invariant
            i <= rules@.len(),
            overrides_fault(rules@, 0) == overrides_fault(rules@, i as int),
        decreases rules@.len() - i,
    {
        let ctx = cat3("rule '", &rules[i].id, "'");
        let p = &rules[i].policy;
        match validate_throttle_params(&ctx, p.nice, p.cpu_weight, quota_str(&p.cpu_quota)) {
            Ok(()) => {},
            Err(e) => {
                return Err(e);
            },
        }
        i = i + 1;
    }
    Ok(())
}

/// Checks a configuration, reporting the first fault.
///
/// Regexes are checked when the rules are compiled.
pub fn validate(config: &Config) -> (r: Result<(), ConfigError>)
    ensures
        fault_of(r) == config_fault(*config),
        r is Ok <==> config_fault(*config) is None,
{
    if config.version != 1 {
        let v = format_u64(config.version as u64);
        return Err(ConfigError::Validation { message: cat2("unsupported config version: ", &v) });
    }
    match validate_rules(config) {
        Ok(()) => {},
        Err(e) => {
            return Err(e);
        },
    }
    match validate_ids(&config.rules) {
        Ok(()) => {},
        Err(e) => {
            return Err(e);
        },
    }
    match validate_profiles(&config.profiles) {
        Ok(()) => {},
        Err(e) => {
            return Err(e);
        },
    }
    validate_overrides(&config.rules)
}

/// What was found at the path of the configuration file.
#[derive(Debug)]
pub enum ConfigSource {
    /// There is no file.
    Missing,
    /// The file could not be read.
    Unreadable { reason: String },
    /// The file is no configuration.
    Malformed { reason: String },
    /// The configuration in the file.
    Parsed(Config),
}

/// Takes a configuration from what was found at `path`, and validates it.
pub fn load_config(path: &str, source: ConfigSource) -> (r: Result<Config, ConfigError>)
    ensures
        match source {
            ConfigSource::Missing => r matches Err(ConfigError::NotFound { path: p }) && p@
                == path@,
            ConfigSource::Unreadable { reason } => r == Result::<Config, ConfigError>::Err(
                ConfigError::Io { reason },
            ),
            ConfigSource::Malformed { reason } => r == Result::<Config, ConfigError>::Err(
                ConfigError::Parse { reason },
            ),
            ConfigSource::Parsed(config) => match config_fault(config) {
                Some(f) => r is Err && fault_in(r->Err_0) == Some(f),
                None => r == Result::<Config, ConfigError>::Ok(config),
            },
        },
{
    match source {
        ConfigSource::Missing => Err(ConfigError::NotFound { path: path.to_owned() }),
        ConfigSource::Unreadable { reason } => Err(ConfigError::Io { reason }),
        ConfigSource::Malformed { reason } => Err(ConfigError::Parse { reason }),
        ConfigSource::Parsed(config) => {
            match validate(&config) {
                Ok(()) => Ok(config),
                Err(e) => Err(e),
            }
        },
    }
}

/// Whether a configuration is the built-in one.
pub open spec fn is_default(c: Config) -> bool {
    &&& c.version == 1
    &&& c.defaults == default_settings()
    &&& c.profiles@.len() == 0
    &&& c.rules@.len() == 0
}

/// The configuration to run with: the one that was loaded, or the built-in
/// defaults beside the error where that failed.
pub fn config_or_default(loaded: Result<Config, ConfigError>) -> (r: (Config, Option<ConfigError>))
    ensures
        match loaded {
            Ok(config) => r.0 == config && r.1 is None,
            Err(e) => is_default(r.0) && r.1 == Some(e),
        },
{
    match loaded {
        Ok(config) => (config, None),
        Err(e) => (Config::default(), Some(e)),
    }
}

/// Loads a configuration, or falls back to the built-in defaults where that
/// fails.
pub fn load_config_or_default(path: &str, source: ConfigSource) -> (r: Config)
    ensures
        match source {
            ConfigSource::Parsed(config) => config_fault(config) is None ==> r == config,
            _ => true,
        },
        !(source is Parsed && config_fault(source->Parsed_0) is None) ==> is_default(r),
{
    config_or_default(load_config(path, source)).0
}

/// The configuration directory of a user.
pub open spec fn config_dir(xdg_config_home: Option<Seq<char>>, home: Option<Seq<char>>) -> Seq<
    char,
> {
    match xdg_config_home {
        Some(dir) => dir,
        None => match home {
            Some(h) => joined(h, ".config"@),
            None => joined("/tmp"@, ".config"@),
        },
    }
}

/// Default path of the configuration file, from the values of the environment
/// variables `XDG_CONFIG_HOME` and `HOME`.
pub fn config_path(xdg_config_home: Option<&str>, home: Option<&str>) -> (r: String)
    ensures
        r@ == joined(
            joined(
                config_dir(
                    match xdg_config_home {
                        Some(s) => Some(s@),
                        None => None,
                    },
                    match home {
                        Some(s) => Some(s@),
                        None => None,
                    },
                ),
                "app-powerd"@,
            ),
            "config.yaml"@,
        ),
{
    let dir = match xdg_config_home {
        Some(d) => d.to_owned(),
        None => match home {
            Some(h) => join_path(h, ".config"),
            None => join_path("/tmp", ".config"),
        },
    };
    let app = join_path(&dir, "app-powerd");
    join_path(&app, "config.yaml")
}

/// A configuration that was accepted keeps every promise that is made about it:
/// rule ids are there and unique, profiles exist, and throttle parameters are in
/// range.
pub proof fn accepted_config_is_sound(config: Config)
    requires
        config_fault(config) is None,
    ensures
        config.version == 1,
        forall|i: int|
            0 <= i < config.rules@.len() ==> (#[trigger] config.rules@[i]).id@.len() > 0,
        forall|i: int, j: int|
            0 <= i < j < config.rules@.len() ==> (#[trigger] config.rules@[i]).id@ != (
            #[trigger] config.rules@[j]).id@,
        forall|i: int|
            0 <= i < config.rules@.len() && (
            #[trigger] config.rules@[i]).policy.use_profile is Some ==> profile_named(
                config.profiles@,
                config.rules@[i].policy.use_profile->0@,
            ) is Some,
        forall|i: int|
            0 <= i < config.rules@.len() ==> throttle_fault(
                rule_ctx((#[trigger] config.rules@[i]).id@),
                config.rules@[i].policy.nice,
                config.rules@[i].policy.cpu_weight,
                quota_text(config.rules@[i].policy.cpu_quota),
            ) is None,
        forall|i: int|
            0 <= i < config.profiles@.len() ==> throttle_fault(
                profile_ctx((#[trigger] config.profiles@[i]).0@),
                config.profiles@[i].1.nice,
                config.profiles@[i].1.cpu_weight,
                quota_text(config.profiles@[i].1.cpu_quota),
            ) is None,
{
    assert forall|i: int| 0 <= i < config.rules@.len() implies rule_fault(
        config,
        #[trigger] config.rules@[i],
    ) is None && !id_taken(config.rules@, i) && throttle_fault(
        rule_ctx(config.rules@[i].id@),
        config.rules@[i].policy.nice,
        config.rules@[i].policy.cpu_weight,
        quota_text(config.rules@[i].policy.cpu_quota),
    ) is None by {
        lemma_rules_clean(config, 0, i);
        lemma_ids_clean(config.rules@, 0, i);
        lemma_overrides_clean(config.rules@, 0, i);
    }
    assert forall|i: int, j: int| 0 <= i < j < config.rules@.len() implies (
    #[trigger] config.rules@[i]).id@ != (#[trigger] config.rules@[j]).id@ by {
        assert(!id_taken(config.rules@, j));
    }
    assert forall|i: int| 0 <= i < config.profiles@.len() implies throttle_fault(
        profile_ctx((#[trigger] config.profiles@[i]).0@),
        config.profiles@[i].1.nice,
        config.profiles@[i].1.cpu_weight,
        quota_text(config.profiles@[i].1.cpu_quota),
    ) is None by {
        lemma_profiles_clean(config.profiles@, 0, i);
    }
}

proof fn lemma_rules_clean(config: Config, from: int, i: int)
    requires
        0 <= from <= i < config.rules@.len(),
        rules_fault(config, from) is None,
    ensures
        rule_fault(config, config.rules@[i]) is None,
    decreases i - from,
{
    if from < i {
        lemma_rules_clean(config, from + 1, i);
    }
}

proof fn lemma_ids_clean(rules: Seq<Rule>, from: int, i: int)
    requires
        0 <= from <= i < rules.len(),
        duplicate_fault(rules, from) is None,
    ensures
        !id_taken(rules, i),
    decreases i - from,
{
    if from < i {
        lemma_ids_clean(rules, from + 1, i);
    }
}

proof fn lemma_profiles_clean(profiles: Seq<(String, Profile)>, from: int, i: int)
    requires
        0 <= from <= i < profiles.len(),
        profiles_fault(profiles, from) is None,
    ensures
        throttle_fault(
            profile_ctx(profiles[i].0@),
            profiles[i].1.nice,
            profiles[i].1.cpu_weight,
            quota_text(profiles[i].1.cpu_quota),
        ) is None,
    decreases i - from,
{
    if from < i {
        lemma_profiles_clean(profiles, from + 1, i);
    }
}

proof fn lemma_overrides_clean(rules: Seq<Rule>, from: int, i: int)
    requires
        0 <= from <= i < rules.len(),
        overrides_fault(rules, from) is None,
    ensures
        throttle_fault(
            rule_ctx(rules[i].id@),
            rules[i].policy.nice,
            rules[i].policy.cpu_weight,
            quota_text(rules[i].policy.cpu_quota),
        ) is None,
    decreases i - from,
{
    if from < i {
        lemma_overrides_clean(rules, from + 1, i);
    }
}

// --- What is refused ---

/// Throttle parameters are accepted exactly where the niceness, the weight and the
/// quota that are given lie in their ranges; a refusal names where they stand.
pub proof fn throttle_parameters_stay_in_range(
    ctx: Seq<char>,
    nice: Option<i32>,
    cpu_weight: Option<u32>,
    cpu_quota: Option<Seq<char>>,
)
    ensures
        throttle_fault(ctx, nice, cpu_weight, cpu_quota) is None <==> {
            &&& nice matches Some(n) ==> -20 <= n <= 19
            &&& cpu_weight matches Some(w) ==> 1 <= w <= 10000
            &&& cpu_quota matches Some(q) ==> parse_bounded(quota_number(q), u32::MAX as nat)
                matches Some(v) && 1 <= v <= 100
        },
        throttle_fault(ctx, nice, cpu_weight, cpu_quota) matches Some(m) ==> ctx.is_prefix_of(m),
{
}

/// A quota is accepted as the percentage that was written, with one percent sign or
/// without.
pub proof fn written_quota_is_accepted(ctx: Seq<char>, n: nat)
    ensures
        1 <= n <= 100 ==> throttle_fault(ctx, None, None, Some(decimal(n).push('%'))) is None,
        1 <= n <= 100 ==> throttle_fault(ctx, None, None, Some(decimal(n))) is None,
        n > 100 ==> throttle_fault(ctx, None, None, Some(decimal(n).push('%'))) is Some,
        throttle_fault(ctx, None, None, Some(decimal(0))) is Some,
{
    crate::text::numbers_are_read_as_written(Seq::empty(), n, u32::MAX as nat);
    crate::text::numbers_are_read_as_written(Seq::empty(), 0, u32::MAX as nat);
    crate::text::decimal_round_trip(n);
    crate::text::decimal_round_trip(0);
    crate::text::numbers_are_written_plainly(n);
    crate::text::numbers_are_written_plainly(0);
    let d = decimal(n);
    let z = decimal(0);
    assert(crate::text::is_digit(d[d.len() - 1]));
    assert(crate::text::is_digit(z[z.len() - 1]));
    assert(d.push('%').drop_last() =~= d);
}

/// Whether a configuration is one that can be used: of the known version, its rules
/// named, each differently, with profiles that exist, and every throttle parameter in
/// its range.
pub open spec fn usable(config: Config) -> bool {
    &&& config.version == 1
    &&& forall|i: int| 0 <= i < config.rules@.len() ==> (#[trigger] config.rules@[i]).id@.len() > 0
    &&& forall|i: int, j: int|
        0 <= i < j < config.rules@.len() ==> (#[trigger] config.rules@[i]).id@ != (
        #[trigger] config.rules@[j]).id@
    &&& forall|i: int|
        0 <= i < config.rules@.len() && (
        #[trigger] config.rules@[i]).policy.use_profile is Some ==> profile_named(
            config.profiles@,
            config.rules@[i].policy.use_profile->0@,
        ) is Some
    &&& forall|i: int|
        0 <= i < config.rules@.len() ==> in_range(
            (#[trigger] config.rules@[i]).policy.nice,
            config.rules@[i].policy.cpu_weight,
            config.rules@[i].policy.cpu_quota,
        )
    &&& forall|i: int|
        0 <= i < config.profiles@.len() ==> in_range(
            (#[trigger] config.profiles@[i]).1.nice,
            config.profiles@[i].1.cpu_weight,
            config.profiles@[i].1.cpu_quota,
        )
}

/// Whether throttle parameters lie in their ranges.
pub open spec fn in_range(
    nice: Option<i32>,
    cpu_weight: Option<u32>,
    cpu_quota: Option<String>,
) -> bool {
    &&& nice matches Some(n) ==> -20 <= n <= 19
    &&& cpu_weight matches Some(w) ==> 1 <= w <= 10000
    &&& cpu_quota matches Some(q) ==> parse_bounded(quota_number(q@), u32::MAX as nat) matches Some(
        v,
    ) && 1 <= v <= 100
}

proof fn lemma_usable_is_clean(config: Config, i: int)
    requires
        usable(config),
        0 <= i,
    ensures
        rules_fault(config, i) is None,
        duplicate_fault(config.rules@, i) is None,
        overrides_fault(config.rules@, i) is None,
    decreases config.rules@.len() - i,
{
    if i < config.rules@.len() {
        lemma_usable_is_clean(config, i + 1);
        let rule = config.rules@[i];
        assert(rule.id@.len() > 0);
        assert(in_range(rule.policy.nice, rule.policy.cpu_weight, rule.policy.cpu_quota));
        assert(!id_taken(config.rules@, i)) by {
            if id_taken(config.rules@, i) {
                let j = choose|j: int|
                    0 <= j < i && (#[trigger] config.rules@[j]).id@ == config.rules@[i].id@;
                assert(config.rules@[j].id@ != config.rules@[i].id@);
            }
        }
    }
}

proof fn lemma_usable_profiles(config: Config, i: int)
    requires
        usable(config),
        0 <= i,
    ensures
        profiles_fault(config.profiles@, i) is None,
    decreases config.profiles@.len() - i,
{
    if i < config.profiles@.len() {
        lemma_usable_profiles(config, i + 1);
        let p = config.profiles@[i].1;
        assert(in_range(p.nice, p.cpu_weight, p.cpu_quota));
    }
}

/// A configuration is accepted exactly where it can be used.
pub proof fn usable_configurations_are_accepted(config: Config)
    ensures
        config_fault(config) is None <==> usable(config),
{
    if usable(config) {
        lemma_usable_is_clean(config, 0);
        lemma_usable_profiles(config, 0);
    }
    if config_fault(config) is None {
        accepted_config_is_sound(config);
        assert forall|i: int| 0 <= i < config.rules@.len() implies in_range(
            (#[trigger] config.rules@[i]).policy.nice,
            config.rules@[i].policy.cpu_weight,
            config.rules@[i].policy.cpu_quota,
        ) by {
            let p = config.rules@[i].policy;
            assert(throttle_fault(
                rule_ctx(config.rules@[i].id@),
                p.nice,
                p.cpu_weight,
                quota_text(p.cpu_quota),
            ) is None);
        }
        assert forall|i: int| 0 <= i < config.profiles@.len() implies in_range(
            (#[trigger] config.profiles@[i]).1.nice,
            config.profiles@[i].1.cpu_weight,
            config.profiles@[i].1.cpu_quota,
        ) by {
            let p = config.profiles@[i].1;
            assert(throttle_fault(
                profile_ctx(config.profiles@[i].0@),
                p.nice,
                p.cpu_weight,
                quota_text(p.cpu_quota),
            ) is None);
        }
    }
}

/// A configuration of another version is refused for its version, whatever else is
/// wrong with it; a rule without a name or with an unknown profile is refused as such.
pub proof fn refusals_name_the_fault(config: Config, rule: Rule)
    ensures
        config.version != 1 ==> config_fault(config) == Some(
            Fault::Validation(
                "unsupported config version: "@ + decimal(config.version as nat),
            ),
        ),
        rule.id@.len() == 0 ==> rule_fault(config, rule) == Some(
            Fault::Validation("rule id cannot be empty"@),
        ),
        rule.id@.len() > 0 && rule.policy.use_profile is Some && profile_named(
            config.profiles@,
            rule.policy.use_profile->0@,
        ) is None ==> rule_fault(config, rule) == Some(
            Fault::UnknownProfile { rule_id: rule.id@, profile: rule.policy.use_profile->0@ },
        ),
        config.version == 1 && config.rules@.len() > 0 && rule_fault(
            config,
            config.rules@[0],
        ) is Some ==> config_fault(config) == rule_fault(config, config.rules@[0]),
{
}

/// The configuration is looked for where the session says, else in the user's home.
pub proof fn configuration_is_looked_for_at_home(dir: Seq<char>, home: Option<Seq<char>>)
    ensures
        config_dir(Some(dir), home) == dir,
        home matches Some(h) ==> config_dir(None, home) == joined(h, ".config"@),
        config_dir(None, None) == joined("/tmp"@, ".config"@),
{
}

} // verus!
