use app_powerd_core::config::loader::{
    config_or_default, config_path, load_config, load_config_or_default, validate,
    validate_throttle_params, ConfigSource,
};
use app_powerd_core::config::matching::{
    criteria_match, MatchContext, RulePatterns, RulesEngine,
};
use app_powerd_core::config::{
    default_version, Action, Config, MatchCriteria, PolicyConfig, Profile, Rule,
};
use app_powerd_core::error::ConfigError;

const SECOND: u128 = 1_000_000_000;

fn no_criteria() -> MatchCriteria {
    MatchCriteria {
        executable: vec![],
        cmdline_regex: None,
        wm_class: vec![],
        app_id: vec![],
        desktop_file: vec![],
        window_title_regex: None,
    }
}

fn no_policy() -> PolicyConfig {
    PolicyConfig {
        use_profile: None,
        action: None,
        suspend_delay: None,
        nice: None,
        cpu_weight: None,
        cpu_quota: None,
        maintenance_resume: None,
        guards: None,
    }
}

fn rule(id: &str, match_criteria: MatchCriteria, policy: PolicyConfig) -> Rule {
    Rule {
        id: id.to_string(),
        match_criteria,
        policy,
    }
}

fn profile(action: Action) -> Profile {
    Profile {
        action,
        suspend_delay: None,
        nice: None,
        cpu_weight: None,
        cpu_quota: None,
        maintenance_resume: None,
        guards: None,
    }
}

fn executables(names: &[&str]) -> MatchCriteria {
    MatchCriteria {
        executable: names.iter().map(|n| n.to_string()).collect(),
        ..no_criteria()
    }
}

#[test]
fn validate_rejects_wrong_version() {
    let config = Config {
        version: 2,
        ..Config::default()
    };
    assert!(validate(&config).is_err());
}

#[test]
fn validate_rejects_empty_rule_id() {
    let mut config = Config::default();
    config
        .rules
        .push(rule("", executables(&["test"]), no_policy()));
    assert!(validate(&config).is_err());
}

#[test]
fn validate_rejects_unknown_profile() {
    let mut config = Config::default();
    config.rules.push(rule(
        "test",
        executables(&["test"]),
        PolicyConfig {
            use_profile: Some("nonexistent".into()),
            ..no_policy()
        },
    ));
    assert!(validate(&config).is_err());
    assert!(matches!(
        validate(&config),
        Err(ConfigError::UnknownProfile { rule_id, profile })
            if rule_id == "test" && profile == "nonexistent"
    ));
}

#[test]
fn validate_accepts_valid_config() {
    let config = Config::default();
    assert!(validate(&config).is_ok());
}

#[test]
fn load_config_or_default_returns_defaults() {
    let config = load_config_or_default("/nonexistent/path/config.yaml", ConfigSource::Missing);
    assert_eq!(config.version, 1);
    assert!(config.defaults.enabled);
}

#[test]
fn nice_boundary_values() {
    // -20 is the valid minimum
    assert!(validate_throttle_params("ctx", Some(-20), None, None).is_ok());
    // -21 is below minimum
    assert!(validate_throttle_params("ctx", Some(-21), None, None).is_err());
    // 19 is the valid maximum
    assert!(validate_throttle_params("ctx", Some(19), None, None).is_ok());
    // 20 is above maximum
    assert!(validate_throttle_params("ctx", Some(20), None, None).is_err());
}

#[test]
fn cpu_weight_boundary_values() {
    // 0 is below minimum
    assert!(validate_throttle_params("ctx", None, Some(0), None).is_err());
    // 1 is the valid minimum
    assert!(validate_throttle_params("ctx", None, Some(1), None).is_ok());
    // 10000 is the valid maximum
    assert!(validate_throttle_params("ctx", None, Some(10000), None).is_ok());
    // 10001 is above maximum
    assert!(validate_throttle_params("ctx", None, Some(10001), None).is_err());
}

#[test]
fn cpu_quota_boundary_values() {
    // "0%" is below minimum (1%)
    assert!(validate_throttle_params("ctx", None, None, Some("0%")).is_err());
    // "1%" is the valid minimum
    assert!(validate_throttle_params("ctx", None, None, Some("1%")).is_ok());
    // "100%" is the valid maximum
    assert!(validate_throttle_params("ctx", None, None, Some("100%")).is_ok());
    // "101%" is above maximum
    assert!(validate_throttle_params("ctx", None, None, Some("101%")).is_err());
}

#[test]
fn first_match_wins() {
    let config = Config {
        profiles: vec![
            ("freeze".to_string(), profile(Action::Freeze)),
            ("throttle".to_string(), profile(Action::Throttle)),
        ],
        rules: vec![
            rule(
                "chrome-throttle",
                executables(&["chrome"]),
                PolicyConfig {
                    use_profile: Some("throttle".into()),
                    ..no_policy()
                },
            ),
            rule(
                "catch-all",
                no_criteria(),
                PolicyConfig {
                    use_profile: Some("freeze".into()),
                    ..no_policy()
                },
            ),
        ],
        ..Config::default()
    };
    let engine = RulesEngine::new(config).unwrap();

    let ctx = MatchContext {
        executable: "chrome".into(),
        ..Default::default()
    };
    let policy = engine.match_window(&ctx);
    assert_eq!(policy.action, Action::Throttle);
    assert_eq!(policy.matched_rule.as_deref(), Some("chrome-throttle"));
    assert_eq!(policy.matched_profile.as_deref(), Some("throttle"));
}

#[test]
fn regex_match() {
    let config = Config {
        rules: vec![rule(
            "electron",
            MatchCriteria {
                cmdline_regex: Some("--type=renderer".into()),
                ..no_criteria()
            },
            PolicyConfig {
                action: Some(Action::Throttle),
                ..no_policy()
            },
        )],
        ..Config::default()
    };
    let engine = RulesEngine::new(config).unwrap();

    let ctx = MatchContext {
        cmdline: "/usr/bin/chrome --type=renderer --field-trial".into(),
        ..Default::default()
    };
    let policy = engine.match_window(&ctx);
    assert_eq!(policy.action, Action::Throttle);

    // Another command line does not match.
    let other = MatchContext {
        cmdline: "/usr/bin/chrome --type=gpu".into(),
        ..Default::default()
    };
    assert_eq!(engine.match_window(&other).action, Action::Freeze);
}

#[test]
fn and_across_fields() {
    let config = Config {
        rules: vec![rule(
            "specific",
            MatchCriteria {
                executable: vec!["firefox".into()],
                wm_class: vec!["Navigator".into()],
                ..no_criteria()
            },
            PolicyConfig {
                action: Some(Action::Throttle),
                ..no_policy()
            },
        )],
        ..Config::default()
    };
    let engine = RulesEngine::new(config).unwrap();

    // Only executable matches — should NOT match (AND logic)
    let ctx = MatchContext {
        executable: "firefox".into(),
        wm_class: "Other".into(),
        ..Default::default()
    };
    let policy = engine.match_window(&ctx);
    // Falls through to default which is Freeze, NOT Throttle
    assert_eq!(policy.action, Action::Freeze);

    // Both fields match — should match the rule (Throttle)
    let ctx2 = MatchContext {
        executable: "firefox".into(),
        wm_class: "Navigator".into(),
        ..Default::default()
    };
    let policy2 = engine.match_window(&ctx2);
    assert_eq!(policy2.action, Action::Throttle);
}

#[test]
fn resolve_policy_with_profile_and_override() {
    let config = Config {
        profiles: vec![(
            "throttle".to_string(),
            Profile {
                nice: Some(5),
                cpu_weight: Some(20),
                ..profile(Action::Throttle)
            },
        )],
        rules: vec![rule(
            "test",
            executables(&["test"]),
            PolicyConfig {
                use_profile: Some("throttle".into()),
                suspend_delay: Some(60 * SECOND),
                ..no_policy()
            },
        )],
        ..Config::default()
    };
    let resolved = config.resolve_policy(&config.rules[0].policy);
    assert_eq!(resolved.action, Action::Throttle);
    assert_eq!(resolved.suspend_delay, 60 * SECOND);
    assert_eq!(resolved.nice, Some(5));
    assert_eq!(resolved.cpu_weight, Some(20));
}

#[test]
fn defaults_are_documented_values() {
    let config = Config::default();
    assert_eq!(config.version, default_version());
    assert_eq!(config.defaults.timing.suspend_delay, 30 * SECOND);
    assert_eq!(config.defaults.timing.resume_grace, 3 * SECOND);
    assert_eq!(config.defaults.timing.min_suspend, 5 * SECOND);
    assert_eq!(config.defaults.reconcile_interval, 30 * SECOND);
    let policy = config.default_policy();
    assert_eq!(policy.action, Action::Freeze);
    assert_eq!(policy.suspend_delay, 30 * SECOND);
    assert!(policy.matched_rule.is_none());
}

#[test]
fn rule_overrides_outrank_the_profile() {
    let config = Config {
        profiles: vec![(
            "p".to_string(),
            Profile {
                suspend_delay: Some(10 * SECOND),
                ..profile(Action::Throttle)
            },
        )],
        ..Config::default()
    };
    let policy = PolicyConfig {
        use_profile: Some("p".into()),
        action: Some(Action::Ignore),
        ..no_policy()
    };
    let resolved = config.resolve_policy(&policy);
    assert_eq!(resolved.action, Action::Ignore);
    assert_eq!(resolved.suspend_delay, 10 * SECOND);
}

#[test]
fn profiles_with_cpu_limits_are_listed() {
    let config = Config {
        profiles: vec![
            ("plain".to_string(), profile(Action::Freeze)),
            (
                "quota".to_string(),
                Profile {
                    cpu_quota: Some("40%".into()),
                    ..profile(Action::Throttle)
                },
            ),
        ],
        ..Config::default()
    };
    assert_eq!(config.profiles_requiring_cpu_control(), vec!["quota"]);
    assert!(config.find_profile("plain").is_some());
    assert!(config.find_profile("nope").is_none());
}

#[test]
fn names_match_without_regard_to_ascii_case() {
    let c = MatchCriteria {
        wm_class: vec!["Navigator".into()],
        ..no_criteria()
    };
    let ctx = MatchContext {
        wm_class: "NAVIGATOR".into(),
        ..Default::default()
    };
    assert!(criteria_match(&c, &ctx, false, false));
}

#[test]
fn a_pattern_that_misses_rules_the_window_out() {
    let c = MatchCriteria {
        cmdline_regex: Some("x".into()),
        ..no_criteria()
    };
    let ctx = MatchContext::default();
    assert!(!criteria_match(&c, &ctx, false, true));
    assert!(criteria_match(&c, &ctx, true, false));
}

#[test]
fn a_bad_pattern_names_its_rule() {
    let config = Config {
        rules: vec![rule(
            "broken",
            MatchCriteria {
                window_title_regex: Some("(".into()),
                ..no_criteria()
            },
            no_policy(),
        )],
        ..Config::default()
    };
    match RulesEngine::new(config) {
        Err(e @ ConfigError::InvalidRegex { .. }) => {
            assert!(e.message().starts_with("invalid regex in rule 'broken': "));
            assert_eq!(e.exceeded_limit(), None);
        }
        _ => panic!("expected an invalid pattern"),
    }
}

#[test]
fn the_first_bad_pattern_is_the_one_that_is_named() {
    let patterns = |cmdline: Option<&str>, title: Option<&str>| MatchCriteria {
        cmdline_regex: cmdline.map(|s| s.to_string()),
        window_title_regex: title.map(|s| s.to_string()),
        ..no_criteria()
    };
    let refused = |rules: Vec<Rule>| {
        let config = Config {
            rules,
            ..Config::default()
        };
        match RulesEngine::new(config) {
            Err(e) => e.message(),
            Ok(_) => panic!("expected an invalid pattern"),
        }
    };
    // A sound rule before it does not hide the bad one.
    let message = refused(vec![
        rule("sound", patterns(Some("^a+$"), Some("b")), no_policy()),
        rule("bad", patterns(Some("c"), Some("d)")), no_policy()),
        rule("worse", patterns(Some("e["), None), no_policy()),
    ]);
    assert!(message.starts_with("invalid regex in rule 'bad': "));
    assert!(message.contains("d)"));
    // Within a rule the command line's pattern comes first.
    let message = refused(vec![rule(
        "both",
        patterns(Some("x("), Some("y)")),
        no_policy(),
    )]);
    assert!(message.contains("x(") && !message.contains("y)"));
}

#[test]
fn a_pattern_that_grows_too_large_is_refused_with_the_limit() {
    let config = Config {
        rules: vec![rule(
            "huge",
            MatchCriteria {
                cmdline_regex: Some(r"\w{1000}".into()),
                ..no_criteria()
            },
            no_policy(),
        )],
        ..Config::default()
    };
    match RulesEngine::new(config) {
        Err(e) => assert_eq!(e.exceeded_limit(), Some(65536)),
        Ok(_) => panic!("expected a pattern that is too large"),
    }
    assert_eq!(ConfigError::Io { reason: "x".into() }.exceeded_limit(), None);
}

#[test]
fn a_refused_configuration_falls_back_to_the_defaults() {
    let (config, error) = config_or_default(load_config("/c", ConfigSource::Missing));
    assert!(config.rules.is_empty() && config.profiles.is_empty());
    assert!(matches!(error, Some(ConfigError::NotFound { .. })));
    let mut wanted = Config::default();
    wanted.defaults.enabled = false;
    let (config, error) = config_or_default(load_config("/c", ConfigSource::Parsed(wanted)));
    assert!(!config.defaults.enabled);
    assert!(error.is_none());
}

#[test]
fn compiled_patterns_are_assembled_with_their_rules() {
    let config = Config {
        rules: vec![rule(
            "titled",
            MatchCriteria {
                window_title_regex: Some("^Inbox".into()),
                ..no_criteria()
            },
            PolicyConfig {
                action: Some(Action::Ignore),
                ..no_policy()
            },
        )],
        ..Config::default()
    };
    let patterns = vec![RulePatterns {
        cmdline: None,
        window_title: Some(Ok(regex::Regex::new("^Inbox").unwrap())),
    }];
    let engine = RulesEngine::assemble(config, patterns).unwrap();
    let hit = MatchContext {
        window_title: "Inbox (3)".into(),
        ..Default::default()
    };
    assert_eq!(engine.match_window(&hit).action, Action::Ignore);
    let miss = MatchContext {
        window_title: "Outbox".into(),
        ..Default::default()
    };
    assert_eq!(engine.match_window(&miss).action, Action::Freeze);
}

#[test]
fn loading_reports_what_went_wrong() {
    let path = "/etc/app-powerd.yaml";
    assert!(matches!(
        load_config(path, ConfigSource::Missing),
        Err(ConfigError::NotFound { path: p }) if p == path
    ));
    assert!(matches!(
        load_config(path, ConfigSource::Unreadable { reason: "denied".to_string() }),
        Err(ConfigError::Io { reason }) if reason == "denied"
    ));
    assert!(matches!(
        load_config(path, ConfigSource::Malformed { reason: "line 3".to_string() }),
        Err(ConfigError::Parse { reason }) if reason == "line 3"
    ));
    let wrong = Config {
        version: 7,
        ..Config::default()
    };
    assert!(matches!(
        load_config(path, ConfigSource::Parsed(wrong)),
        Err(ConfigError::Validation { .. })
    ));
    assert!(load_config(path, ConfigSource::Parsed(Config::default())).is_ok());
}

#[test]
fn configuration_lives_under_the_config_home() {
    assert_eq!(
        config_path(Some("/cfg"), Some("/home/u")),
        "/cfg/app-powerd/config.yaml"
    );
    assert_eq!(
        config_path(None, Some("/home/u")),
        "/home/u/.config/app-powerd/config.yaml"
    );
}

#[test]
fn config_errors_have_their_texts() {
    assert_eq!(
        ConfigError::NotFound {
            path: "/x".to_string()
        }
        .message(),
        "config file not found: /x"
    );
    assert_eq!(
        ConfigError::UnknownProfile {
            rule_id: "r".to_string(),
            profile: "p".to_string()
        }
        .message(),
        "unknown profile 'p' in rule 'r'"
    );
    assert_eq!(
        ConfigError::Validation {
            message: "m".to_string()
        }
        .message(),
        "validation error: m"
    );
    assert_eq!(
        ConfigError::Parse {
            reason: "r".to_string()
        }
        .message(),
        "parse error: r"
    );
    assert_eq!(
        ConfigError::Io {
            reason: "r".to_string()
        }
        .message(),
        "io error: r"
    );
}
