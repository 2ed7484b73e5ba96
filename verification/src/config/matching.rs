//! Matching windows against the configured rules.
use vstd::prelude::*;

use crate::config::pattern::{
    compile_pattern, pattern_finds, refusal_of, regex_finds, respects_limit, syntax_refusal,
    PATTERN_LENGTH_LIMIT,
};
use crate::config::{fallback, resolved, Config, MatchCriteria, ResolvedPolicy, Rule};
use crate::desktop::window::WindowInfo;
use crate::error::ConfigError;
use crate::text::{ascii_lowercase, eq_ignore_ascii_case, text_or_empty, to_chars};

verus! {

/// Limit on the size of a compiled pattern, in bytes.
pub const REGEX_SIZE_LIMIT: usize = 65536;

/// Info about the window and process being matched.
#[derive(Debug)]
pub struct MatchContext {
    pub executable: String,
    pub cmdline: String,
    pub wm_class: String,
    pub app_id: String,
    pub desktop_file: String,
    pub window_title: String,
}

/// What a [`MatchContext`] says.
pub ghost struct ContextModel {
    pub executable: Seq<char>,
    pub cmdline: Seq<char>,
    pub wm_class: Seq<char>,
    pub app_id: Seq<char>,
    pub desktop_file: Seq<char>,
    pub window_title: Seq<char>,
}

impl View for MatchContext {
    type V = ContextModel;

    open spec fn view(&self) -> ContextModel {
        ContextModel {
            executable: self.executable@,
            cmdline: self.cmdline@,
            wm_class: self.wm_class@,
            app_id: self.app_id@,
            desktop_file: self.desktop_file@,
            window_title: self.window_title@,
        }
    }
}

impl Default for MatchContext {
    /// Every field is empty.
    fn default() -> (r: Self)
        ensures
            r.executable@.len() == 0,
            r.cmdline@.len() == 0,
            r.wm_class@.len() == 0,
            r.app_id@.len() == 0,
            r.desktop_file@.len() == 0,
            r.window_title@.len() == 0,
    {
        MatchContext {
            executable: String::new(),
            cmdline: String::new(),
            wm_class: String::new(),
            app_id: String::new(),
            desktop_file: String::new(),
            window_title: String::new(),
        }
    }
}

fn text_of(s: &Option<String>) -> (r: String)
    ensures
        r@ == text_or_empty(*s),
{
    match s {
        Some(t) => t.clone(),
        None => String::new(),
    }
}

/// The context of a window, whose desktop file is `desktop_file`.
pub open spec fn context_of(w: WindowInfo, desktop_file: Seq<char>) -> ContextModel {
    ContextModel {
        executable: text_or_empty(w.executable),
        cmdline: text_or_empty(w.cmdline),
        wm_class: text_or_empty(w.wm_class),
        app_id: text_or_empty(w.app_id),
        desktop_file,
        window_title: text_or_empty(w.title),
    }
}

impl MatchContext {
    /// The context of a window, without a desktop file.
    pub fn from_window(w: &WindowInfo) -> (r: Self)
        ensures
            r@ == context_of(*w, Seq::empty()),
    {
        MatchContext {
            executable: text_of(&w.executable),
            cmdline: text_of(&w.cmdline),
            wm_class: text_of(&w.wm_class),
            app_id: text_of(&w.app_id),
            desktop_file: String::new(),
            window_title: text_of(&w.title),
        }
    }
}

/// Whether two names are the same up to ASCII case.
pub open spec fn same_name(a: Seq<char>, b: Seq<char>) -> bool {
    ascii_lowercase(a) == ascii_lowercase(b)
}

/// Whether a list of names accepts a value: it is empty, or one of its names is
/// the value up to ASCII case.
pub open spec fn list_accepts(names: Seq<String>, value: Seq<char>) -> bool {
    names.len() == 0 || exists|i: int|
        0 <= i < names.len() && same_name((#[trigger] names[i])@, value)
}

/// Whether criteria accept a window: every field that is given accepts it.
/// `cmdline_hit` and `title_hit` say whether the patterns for the command line
/// and the title were found.
pub open spec fn criteria_accept(
    c: MatchCriteria,
    ctx: ContextModel,
    cmdline_hit: bool,
    title_hit: bool,
) -> bool {
    &&& list_accepts(c.executable@, ctx.executable)
    &&& list_accepts(c.wm_class@, ctx.wm_class)
    &&& list_accepts(c.app_id@, ctx.app_id)
    &&& list_accepts(c.desktop_file@, ctx.desktop_file)
    &&& c.cmdline_regex is Some ==> cmdline_hit
    &&& c.window_title_regex is Some ==> title_hit
}

/// Whether the pattern that is given, if one is, matches in a text.
pub open spec fn pattern_hit(pattern: Option<String>, text: Seq<char>) -> bool {
    match pattern {
        Some(p) => pattern_finds(p@, text),
        None => true,
    }
}

/// Whether a rule matches a window.
pub open spec fn rule_accepts(rule: Rule, ctx: ContextModel) -> bool {
    criteria_accept(
        rule.match_criteria,
        ctx,
        pattern_hit(rule.match_criteria.cmdline_regex, ctx.cmdline),
        pattern_hit(rule.match_criteria.window_title_regex, ctx.window_title),
    )
}

/// The first rule from `i` on that matches.
pub open spec fn first_match(rules: Seq<Rule>, ctx: ContextModel, i: int) -> Option<int>
    decreases rules.len() - i,
{
    if i < 0 || i >= rules.len() {
        None
    } else if rule_accepts(rules[i], ctx) {
        Some(i)
    } else {
        first_match(rules, ctx, i + 1)
    }
}

/// The policy for a window: that of the first rule that matches, else the
/// default one.
pub open spec fn policy_for(config: Config, ctx: ContextModel) -> ResolvedPolicy {
    match first_match(config.rules@, ctx, 0) {
        Some(i) => ResolvedPolicy {
            matched_rule: Some(config.rules@[i].id),
            ..resolved(config, config.rules@[i].policy)
        },
        None => fallback(config),
    }
}

fn list_matches(names: &Vec<String>, value: &str) -> (r: bool)
    ensures
        r == list_accepts(names@, value@),
{
    if names.len() == 0 {
        return true;
    }
    let wanted = to_chars(value);
    let mut i: usize = 0;
    while i < names.len()
        invariant
            i <= names@.len(),
            wanted@ == value@,
            forall|j: int| 0 <= j < i ==> !same_name((#[trigger] names@[j])@, value@),
        decreases names@.len() - i,
    {
        let name = to_chars(&names[i]);
        if eq_ignore_ascii_case(&name, &wanted) {
            proof {
                assert(same_name(names@[i as int]@, value@));
            }
            return true;
        }
        i = i + 1;
    }
    false
}

/// AND across fields, OR within field values, given what the patterns found.
pub fn criteria_match(
    c: &MatchCriteria,
    ctx: &MatchContext,
    cmdline_hit: bool,
    title_hit: bool,
) -> (r: bool)
    ensures
        r == criteria_accept(*c, ctx@, cmdline_hit, title_hit),
{
    list_matches(&c.executable, &ctx.executable) && list_matches(&c.wm_class, &ctx.wm_class)
        && list_matches(&c.app_id, &ctx.app_id) && list_matches(
        &c.desktop_file,
        &ctx.desktop_file,
    ) && (c.cmdline_regex.is_none() || cmdline_hit) && (c.window_title_regex.is_none()
        || title_hit)
}

/// The patterns of one rule, compiled.
#[derive(Debug)]
pub struct CompiledRule {
    pub cmdline_regex: Option<regex::Regex>,
    pub window_title_regex: Option<regex::Regex>,
}

/// Whether a compiled pattern finds what the given pattern does.
pub open spec fn compiled_from(re: Option<regex::Regex>, pattern: Option<String>) -> bool {
    match pattern {
        Some(p) => re matches Some(x) && forall|text: Seq<char>| #[trigger]
            regex_finds(x, text) == pattern_finds(p@, text),
        None => re is None,
    }
}

/// Whether a compiled rule belongs to a rule.
pub open spec fn compiled_for(c: CompiledRule, rule: Rule) -> bool {
    &&& compiled_from(c.cmdline_regex, rule.match_criteria.cmdline_regex)
    &&& compiled_from(c.window_title_regex, rule.match_criteria.window_title_regex)
}

/// Compiles rules and matches windows against them.
#[derive(Debug)]
pub struct RulesEngine {
    compiled: Vec<CompiledRule>,
    config: Config,
}

/// What compiling the patterns of one rule gave; `None` where the rule has no
/// such pattern.
#[derive(Debug)]
pub struct RulePatterns {
    pub cmdline: Option<Result<regex::Regex, regex::Error>>,
    pub window_title: Option<Result<regex::Regex, regex::Error>>,
}

/// Whether a pattern, where there is one, is not refused for its syntax. Of a
/// pattern beyond the length limit nothing is said.
pub open spec fn syntax_accepted(pattern: Option<String>) -> bool {
    pattern is Some && pattern->0@.len() < PATTERN_LENGTH_LIMIT ==> syntax_refusal(
        pattern->0@,
    ) is None
}

/// Whether `e` is an error with which `pattern` can be refused: one on its syntax
/// where that is refused, else one on its size.
pub open spec fn refused_with(pattern: Option<String>, e: regex::Error) -> bool {
    &&& pattern is Some
    &&& pattern->0@.len() < PATTERN_LENGTH_LIMIT ==> syntax_refusal(pattern->0@) == refusal_of(e)
}

/// Whether `result` is an outcome of compiling `pattern`.
pub open spec fn outcome_of(
    result: Option<Result<regex::Regex, regex::Error>>,
    pattern: Option<String>,
) -> bool {
    match result {
        Some(Ok(re)) => compiled_from(Some(re), pattern) && syntax_accepted(pattern),
        Some(Err(e)) => refused_with(pattern, e),
        None => pattern is None,
    }
}

/// Whether `patterns` are outcomes of compiling the patterns of `rules`.
pub open spec fn outcomes_of(patterns: Seq<RulePatterns>, rules: Seq<Rule>) -> bool {
    &&& patterns.len() == rules.len()
    &&& forall|i: int|
        0 <= i < patterns.len() ==> outcome_of(
            (#[trigger] patterns[i]).cmdline,
            rules[i].match_criteria.cmdline_regex,
        ) && outcome_of(patterns[i].window_title, rules[i].match_criteria.window_title_regex)
}

/// Why the patterns of one rule are refused: the command line's comes first.
pub open spec fn pattern_error(p: RulePatterns) -> Option<regex::Error> {
    match p.cmdline {
        Some(Err(e)) => Some(e),
        _ => match p.window_title {
            Some(Err(e)) => Some(e),
            _ => None,
        },
    }
}

/// The first rule from `i` on whose patterns are refused.
pub open spec fn first_refused(patterns: Seq<RulePatterns>, i: int) -> Option<int>
    decreases patterns.len() - i,
{
    if i < 0 || i >= patterns.len() {
        None
    } else if pattern_error(patterns[i]) is Some {
        Some(i)
    } else {
        first_refused(patterns, i + 1)
    }
}

proof fn lemma_none_refused(patterns: Seq<RulePatterns>, from: int, i: int)
    requires
        0 <= from <= i < patterns.len(),
        first_refused(patterns, from) is None,
    ensures
        pattern_error(patterns[i]) is None,
    decreases i - from,
{
    if from < i {
        lemma_none_refused(patterns, from + 1, i);
    }
}

proof fn lemma_some_refused(patterns: Seq<RulePatterns>, from: int)
    requires
        0 <= from,
        first_refused(patterns, from) is Some,
    ensures
        from <= first_refused(patterns, from)->0 < patterns.len(),
        pattern_error(patterns[first_refused(patterns, from)->0]) is Some,
        forall|j: int|
            from <= j < first_refused(patterns, from)->0 ==> pattern_error(
                #[trigger] patterns[j],
            ) is None,
    decreases patterns.len() - from,
{
    if from < patterns.len() && pattern_error(patterns[from]) is None {
        lemma_some_refused(patterns, from + 1);
    }
}

/// Whether a refusal, where there is one, is by the size limit for patterns or on
/// other grounds.
pub open spec fn held_to_limit(r: Option<Result<regex::Regex, regex::Error>>) -> bool {
    match r {
        Some(Err(e)) => respects_limit(e, REGEX_SIZE_LIMIT),
        _ => true,
    }
}

/// Whether no pattern of a rule is refused for its syntax.
pub open spec fn rule_accepted(rule: Rule) -> bool {
    &&& syntax_accepted(rule.match_criteria.cmdline_regex)
    &&& syntax_accepted(rule.match_criteria.window_title_regex)
}

/// Whether no pattern of a configuration is refused for its syntax.
pub open spec fn patterns_accepted(config: Config) -> bool {
    forall|i: int| 0 <= i < config.rules@.len() ==> rule_accepted(#[trigger] config.rules@[i])
}

/// Whether `e` is an error with which the patterns of a rule can be refused: the
/// command line's comes first.
pub open spec fn rule_refused_with(rule: Rule, e: regex::Error) -> bool {
    ||| refused_with(rule.match_criteria.cmdline_regex, e)
    ||| syntax_accepted(rule.match_criteria.cmdline_regex) && refused_with(
        rule.match_criteria.window_title_regex,
        e,
    )
}

/// Whether `e` refuses a configuration for the rule at `i`: it is an error of a
/// pattern of this rule, and no rule before it is refused for its syntax.
pub open spec fn refuses_at(config: Config, e: ConfigError, i: int) -> bool {
    &&& 0 <= i < config.rules@.len()
    &&& e->InvalidRegex_rule_id == config.rules@[i].id
    &&& rule_refused_with(config.rules@[i], e->InvalidRegex_source)
    &&& forall|j: int| 0 <= j < i ==> rule_accepted(#[trigger] config.rules@[j])
}

/// Whether `e` refuses a configuration: it is the error of a pattern of a rule, and
/// where it is about size it names the size limit for patterns.
pub open spec fn refuses(config: Config, e: ConfigError) -> bool {
    &&& e is InvalidRegex
    &&& respects_limit(e->InvalidRegex_source, REGEX_SIZE_LIMIT)
    &&& exists|i: int| #[trigger] refuses_at(config, e, i)
}

fn compile_optional_regex(pattern: &Option<String>) -> (r: Option<
    Result<regex::Regex, regex::Error>,
>)
    ensures
        outcome_of(r, *pattern),
        held_to_limit(r),
{
    match pattern {
        Some(p) => Some(compile_pattern(p, REGEX_SIZE_LIMIT)),
        None => None,
    }
}

fn compile_rule(rule: &Rule) -> (r: RulePatterns)
    ensures
        outcome_of(r.cmdline, rule.match_criteria.cmdline_regex),
        outcome_of(r.window_title, rule.match_criteria.window_title_regex),
        held_to_limit(r.cmdline) && held_to_limit(r.window_title),
{
    RulePatterns {
        cmdline: compile_optional_regex(&rule.match_criteria.cmdline_regex),
        window_title: compile_optional_regex(&rule.match_criteria.window_title_regex),
    }
}

fn find_refused(patterns: &Vec<RulePatterns>) -> (r: Option<usize>)
    ensures
        match r {
            Some(i) => first_refused(patterns@, 0) == Some(i as int),
            None => first_refused(patterns@, 0) is None,
        },
{
    let mut i: usize = 0;
    while i < patterns.len()
        invariant
            i <= patterns@.len(),
            first_refused(patterns@, 0) == first_refused(patterns@, i as int),
        decreases patterns@.len() - i,
    {
        let p = &patterns[i];
        if matches!(p.cmdline, Some(Err(_))) || matches!(p.window_title, Some(Err(_))) {
            return Some(i);
        }
        i = i + 1;
    }
    None
}

fn accept(result: Option<Result<regex::Regex, regex::Error>>) -> (r: Option<regex::Regex>)
    ensures
        r == (match result {
            Some(Ok(re)) => Some(re),
            _ => None,
        }),
{
    match result {
        Some(Ok(re)) => Some(re),
        _ => None,
    }
}

/// Whether a rule has a pattern to compile.
pub open spec fn has_pattern(rule: Rule) -> bool {
    rule.match_criteria.cmdline_regex is Some || rule.match_criteria.window_title_regex is Some
}

fn regex_hit(re: &Option<regex::Regex>, text: &str, Ghost(pattern): Ghost<Option<String>>) -> (r:
    bool)
    requires
        compiled_from(*re, pattern),
    ensures
        r == pattern_hit(pattern, text@),
{
    match re {
        Some(x) => x.is_match(text),
        None => true,
    }
}

impl RulesEngine {
    /// The configuration whose rules were compiled.
    pub closed spec fn settings(&self) -> Config {
        self.config
    }

    /// There is one compiled rule for each rule, and it belongs to it.
    #[verifier::type_invariant]
    spec fn inv(self) -> bool {
        &&& self.compiled@.len() == self.config.rules@.len()
        &&& forall|i: int|
            0 <= i < self.compiled@.len() ==> compiled_for(
                #[trigger] self.compiled@[i],
                self.config.rules@[i],
            )
    }

    /// Compile all rules of a configuration.
    ///
    /// Fails with the first pattern that does not compile, each being held to the
    /// size limit for patterns. A configuration without patterns is always
    /// accepted, and one with a pattern of bad syntax never.
    /// [`RulesEngine::assemble`] says what follows from each outcome of compiling.
    pub fn new(config: Config) -> (r: Result<Self, ConfigError>)
        ensures
            match r {
                Ok(engine) => engine.settings() == config && patterns_accepted(config),
                Err(e) => refuses(config, e),
            },
            (forall|i: int|
                0 <= i < config.rules@.len() ==> !has_pattern(#[trigger] config.rules@[i]))
                ==> r is Ok,
    {
        let mut patterns: Vec<RulePatterns> = Vec::new();
        let mut i: usize = 0;
        while i < config.rules.len()
            invariant
                i <= config.rules@.len(),
                patterns@.len() == i,
                forall|j: int|
                    0 <= j < i ==> outcome_of(
                        (#[trigger] patterns@[j]).cmdline,
                        config.rules@[j].match_criteria.cmdline_regex,
                    ) && outcome_of(
                        patterns@[j].window_title,
                        config.rules@[j].match_criteria.window_title_regex,
                    ) && held_to_limit(patterns@[j].cmdline) && held_to_limit(
                        patterns@[j].window_title,
                    ),
            decreases config.rules@.len() - i,
        {
            let p = compile_rule(&config.rules[i]);
            patterns.push(p);
            i = i + 1;
        }
        proof {
            if first_refused(patterns@, 0) is Some {
                lemma_some_refused(patterns@, 0);
                let k = first_refused(patterns@, 0)->0;
                let e = ConfigError::InvalidRegex {
                    rule_id: config.rules@[k].id,
                    source: pattern_error(patterns@[k])->0,
                };
                assert(outcome_of(
                    patterns@[k].cmdline,
                    config.rules@[k].match_criteria.cmdline_regex,
                ));
                assert forall|j: int| 0 <= j < k implies rule_accepted(
                    #[trigger] config.rules@[j],
                ) by {
                    assert(pattern_error(patterns@[j]) is None);
                }
                assert(refuses_at(config, e, k));
            } else {
                assert forall|j: int| 0 <= j < config.rules@.len() implies rule_accepted(
                    #[trigger] config.rules@[j],
                ) by {
                    lemma_none_refused(patterns@, 0, j);
                    assert(pattern_error(patterns@[j]) is None);
                }
            }
        }
        RulesEngine::assemble(config, patterns)
    }

    /// Builds the engine from what compiling the patterns of the rules gave.
    ///
    /// Fails with the first pattern that was refused: by the order of the rules,
    /// and within a rule the command line's before the title's.
    pub fn assemble(config: Config, patterns: Vec<RulePatterns>) -> (r: Result<Self, ConfigError>)
        requires
            outcomes_of(patterns@, config.rules@),
        ensures
            match first_refused(patterns@, 0) {
                Some(i) => r == Result::<RulesEngine, ConfigError>::Err(
                    ConfigError::InvalidRegex {
                        rule_id: config.rules@[i].id,
                        source: pattern_error(patterns@[i])->0,
                    },
                ),
                None => r is Ok && r->Ok_0.settings() == config,
            },
    {
        let mut patterns = patterns;
        let ghost all = patterns@;
        if let Some(i) = find_refused(&patterns) {
            proof {
                lemma_some_refused(all, 0);
            }
            let rule_id = config.rules[i].id.clone();
            let p = patterns.remove(i);
            let source = match p.cmdline {
                Some(Err(e)) => Some(e),
                _ => match p.window_title {
                    Some(Err(e)) => Some(e),
                    _ => None,
                },
            };
            if let Some(source) = source {
                return Err(ConfigError::InvalidRegex { rule_id, source });
            }
        }
        let mut compiled: Vec<CompiledRule> = Vec::new();
        proof {
            assert(all.skip(0) =~= all);
        }
        while patterns.len() > 0
            invariant
                patterns@ == all.skip(compiled@.len() as int),
                compiled@.len() <= all.len(),
                outcomes_of(all, config.rules@),
                first_refused(all, 0) is None,
                forall|j: int|
                    0 <= j < compiled@.len() ==> compiled_for(
                        #[trigger] compiled@[j],
                        config.rules@[j],
                    ),
            decreases patterns@.len(),
        {
            let ghost n = compiled@.len() as int;
            let p = patterns.remove(0);
            proof {
                lemma_none_refused(all, 0, n);
                assert(p == all[n]);
                assert(outcome_of(all[n].cmdline, config.rules@[n].match_criteria.cmdline_regex));
                assert(all.skip(n).remove(0) =~= all.skip(n + 1));
            }
            compiled.push(
                CompiledRule {
                    cmdline_regex: accept(p.cmdline),
                    window_title_regex: accept(p.window_title),
                },
            );
        }
        Ok(RulesEngine { compiled, config })
    }

    /// Find the first matching rule and resolve its policy.
    pub fn match_window(&self, ctx: &MatchContext) -> (r: ResolvedPolicy)
        ensures
            r == policy_for(self.settings(), ctx@),
    {
        proof {
            use_type_invariant(self);
        }
        let mut i: usize = 0;
        while i < self.config.rules.len()
            invariant
                i <= self.config.rules@.len(),
                self.inv(),
                first_match(self.config.rules@, ctx@, 0) == first_match(
                    self.config.rules@,
                    ctx@,
                    i as int,
                ),
            decreases self.config.rules@.len() - i,
        {
            let rule = &self.config.rules[i];
            let c = &self.compiled[i];
            let cmdline_hit = regex_hit(
                &c.cmdline_regex,
                &ctx.cmdline,
                Ghost(rule.match_criteria.cmdline_regex),
            );
            let title_hit = regex_hit(
                &c.window_title_regex,
                &ctx.window_title,
                Ghost(rule.match_criteria.window_title_regex),
            );
            if criteria_match(&rule.match_criteria, ctx, cmdline_hit, title_hit) {
                let base = self.config.resolve_policy(&rule.policy);
                return ResolvedPolicy { matched_rule: Some(rule.id.clone()), ..base };
            }
            i = i + 1;
        }
        self.config.default_policy()
    }

    /// The configuration whose rules were compiled.
    pub fn config(&self) -> (r: &Config)
        ensures
            *r == self.settings(),
    {
        &self.config
    }
}

// --- Laws ---

/// The first rule that matches wins: no earlier rule matches.
pub proof fn first_match_is_first(rules: Seq<Rule>, ctx: ContextModel, from: int)
    requires
        0 <= from,
    ensures
        match first_match(rules, ctx, from) {
            Some(i) => {
                &&& from <= i < rules.len()
                &&& rule_accepts(rules[i], ctx)
                &&& forall|j: int| from <= j < i ==> !rule_accepts(#[trigger] rules[j], ctx)
            },
            None => forall|j: int|
                from <= j < rules.len() ==> !rule_accepts(#[trigger] rules[j], ctx),
        },
    decreases rules.len() - from,
{
    if from < rules.len() && !rule_accepts(rules[from], ctx) {
        first_match_is_first(rules, ctx, from + 1);
    }
}

/// Criteria without any field match every window.
pub proof fn empty_criteria_match_all(rule: Rule, ctx: ContextModel)
    requires
        rule.match_criteria.executable@.len() == 0,
        rule.match_criteria.wm_class@.len() == 0,
        rule.match_criteria.app_id@.len() == 0,
        rule.match_criteria.desktop_file@.len() == 0,
        !has_pattern(rule),
    ensures
        rule_accepts(rule, ctx),
{
}

/// Name matching does not depend on ASCII case, neither of the rule nor of the
/// window.
pub proof fn name_matching_ignores_case(names: Seq<String>, a: Seq<char>, b: Seq<char>)
    requires
        same_name(a, b),
    ensures
        list_accepts(names, a) == list_accepts(names, b),
{
    if list_accepts(names, a) && names.len() > 0 {
        let i = choose|i: int| 0 <= i < names.len() && same_name((#[trigger] names[i])@, a);
        assert(same_name(names[i]@, b));
    }
    if list_accepts(names, b) && names.len() > 0 {
        let i = choose|i: int| 0 <= i < names.len() && same_name((#[trigger] names[i])@, b);
        assert(same_name(names[i]@, a));
    }
}

/// Whether one of the names equals a value up to ASCII case.
pub open spec fn names_value(names: Seq<String>, value: Seq<char>) -> bool {
    exists|i: int|
        0 <= i < names.len() && ascii_lowercase((#[trigger] names[i])@) == ascii_lowercase(value)
}

/// A rule that lists executables matches no window of another executable.
pub proof fn listed_executable_is_demanded(rule: Rule, ctx: ContextModel)
    requires
        rule.match_criteria.executable@.len() > 0,
        forall|i: int|
            0 <= i < rule.match_criteria.executable@.len() ==> ascii_lowercase(
                (#[trigger] rule.match_criteria.executable@[i])@,
            ) != ascii_lowercase(ctx.executable),
    ensures
        !rule_accepts(rule, ctx),
{
}

/// A rule that lists window classes matches no window of another class.
pub proof fn listed_class_is_demanded(rule: Rule, ctx: ContextModel)
    requires
        rule.match_criteria.wm_class@.len() > 0,
        forall|i: int|
            0 <= i < rule.match_criteria.wm_class@.len() ==> ascii_lowercase(
                (#[trigger] rule.match_criteria.wm_class@[i])@,
            ) != ascii_lowercase(ctx.wm_class),
    ensures
        !rule_accepts(rule, ctx),
{
}

/// A rule that lists application ids matches no window with another id.
pub proof fn listed_app_id_is_demanded(rule: Rule, ctx: ContextModel)
    requires
        rule.match_criteria.app_id@.len() > 0,
        forall|i: int|
            0 <= i < rule.match_criteria.app_id@.len() ==> ascii_lowercase(
                (#[trigger] rule.match_criteria.app_id@[i])@,
            ) != ascii_lowercase(ctx.app_id),
    ensures
        !rule_accepts(rule, ctx),
{
}

/// A rule that lists desktop files matches no window with another desktop file.
pub proof fn listed_desktop_file_is_demanded(rule: Rule, ctx: ContextModel)
    requires
        rule.match_criteria.desktop_file@.len() > 0,
        forall|i: int|
            0 <= i < rule.match_criteria.desktop_file@.len() ==> ascii_lowercase(
                (#[trigger] rule.match_criteria.desktop_file@[i])@,
            ) != ascii_lowercase(ctx.desktop_file),
    ensures
        !rule_accepts(rule, ctx),
{
}

/// A rule with a pattern for the command line matches no window in whose command
/// line the pattern is not found.
pub proof fn cmdline_pattern_is_demanded(rule: Rule, ctx: ContextModel, pattern: String)
    requires
        rule.match_criteria.cmdline_regex == Some(pattern),
        !pattern_finds(pattern@, ctx.cmdline),
    ensures
        !rule_accepts(rule, ctx),
{
}

/// A rule with a pattern for the title matches no window in whose title the pattern
/// is not found.
pub proof fn title_pattern_is_demanded(rule: Rule, ctx: ContextModel, pattern: String)
    requires
        rule.match_criteria.window_title_regex == Some(pattern),
        !pattern_finds(pattern@, ctx.window_title),
    ensures
        !rule_accepts(rule, ctx),
{
}

/// A rule demands nothing else: a window that has a listed name in every field for
/// which the rule lists names, and in which every given pattern is found, is
/// matched.
pub proof fn a_rule_demands_no_more(rule: Rule, ctx: ContextModel)
    requires
        ({
            let c = rule.match_criteria;
            &&& c.executable@.len() == 0 || names_value(c.executable@, ctx.executable)
            &&& c.wm_class@.len() == 0 || names_value(c.wm_class@, ctx.wm_class)
            &&& c.app_id@.len() == 0 || names_value(c.app_id@, ctx.app_id)
            &&& c.desktop_file@.len() == 0 || names_value(c.desktop_file@, ctx.desktop_file)
            &&& c.cmdline_regex matches Some(p) ==> pattern_finds(p@, ctx.cmdline)
            &&& c.window_title_regex matches Some(p) ==> pattern_finds(p@, ctx.window_title)
        }),
    ensures
        rule_accepts(rule, ctx),
{
    let c = rule.match_criteria;
    if c.executable@.len() > 0 {
        let i = choose|i: int|
            0 <= i < c.executable@.len() && ascii_lowercase((#[trigger] c.executable@[i])@)
                == ascii_lowercase(ctx.executable);
        assert(same_name(c.executable@[i]@, ctx.executable));
    }
    if c.wm_class@.len() > 0 {
        let i = choose|i: int|
            0 <= i < c.wm_class@.len() && ascii_lowercase((#[trigger] c.wm_class@[i])@)
                == ascii_lowercase(ctx.wm_class);
        assert(same_name(c.wm_class@[i]@, ctx.wm_class));
    }
    if c.app_id@.len() > 0 {
        let i = choose|i: int|
            0 <= i < c.app_id@.len() && ascii_lowercase((#[trigger] c.app_id@[i])@)
                == ascii_lowercase(ctx.app_id);
        assert(same_name(c.app_id@[i]@, ctx.app_id));
    }
    if c.desktop_file@.len() > 0 {
        let i = choose|i: int|
            0 <= i < c.desktop_file@.len() && ascii_lowercase((#[trigger] c.desktop_file@[i])@)
                == ascii_lowercase(ctx.desktop_file);
        assert(same_name(c.desktop_file@[i]@, ctx.desktop_file));
    }
}

/// The policy for a window is that of the first rule that matches it, under that
/// rule's id; without one it is the default policy, under no rule's.
pub proof fn policy_comes_from_the_first_match(config: Config, ctx: ContextModel, i: int)
    requires
        0 <= i < config.rules@.len(),
        rule_accepts(config.rules@[i], ctx),
        forall|j: int| 0 <= j < i ==> !rule_accepts(#[trigger] config.rules@[j], ctx),
    ensures
        ({
            let got = policy_for(config, ctx);
            let own = resolved(config, config.rules@[i].policy);
            &&& got.matched_rule == Some(config.rules@[i].id)
            &&& got.action == own.action
            &&& got.suspend_delay == own.suspend_delay
            &&& got.resume_grace == own.resume_grace
            &&& got.min_suspend == own.min_suspend
            &&& got.nice == own.nice
            &&& got.cpu_weight == own.cpu_weight
            &&& got.cpu_quota == own.cpu_quota
            &&& got.maintenance_resume == own.maintenance_resume
            &&& got.guards == own.guards
            &&& got.matched_profile == own.matched_profile
        }),
{
    first_match_is_first(config.rules@, ctx, 0);
}

/// A window that no rule matches gets the default policy.
pub proof fn unmatched_window_gets_the_default(config: Config, ctx: ContextModel)
    requires
        forall|j: int|
            0 <= j < config.rules@.len() ==> !rule_accepts(#[trigger] config.rules@[j], ctx),
    ensures
        policy_for(config, ctx) == fallback(config),
{
    first_match_is_first(config.rules@, ctx, 0);
}

/// A window is matched by what it says of itself: each name by the field it comes
/// from, and a field it does not give by the empty text.
pub proof fn context_speaks_of_the_window(w: WindowInfo, desktop_file: Seq<char>)
    ensures
        ({
            let c = context_of(w, desktop_file);
            &&& w.executable matches Some(t) ==> c.executable == t@
            &&& w.cmdline matches Some(t) ==> c.cmdline == t@
            &&& w.wm_class matches Some(t) ==> c.wm_class == t@
            &&& w.app_id matches Some(t) ==> c.app_id == t@
            &&& w.title matches Some(t) ==> c.window_title == t@
            &&& c.desktop_file == desktop_file
            &&& w.executable is None ==> c.executable.len() == 0
            &&& w.cmdline is None ==> c.cmdline.len() == 0
            &&& w.wm_class is None ==> c.wm_class.len() == 0
            &&& w.app_id is None ==> c.app_id.len() == 0
            &&& w.title is None ==> c.window_title.len() == 0
        }),
{
}

/// A pattern that was looked for and not found rules a window out; one that is not
/// given rules none out, whatever was found.
pub proof fn a_pattern_not_found_rules_out(
    c: MatchCriteria,
    ctx: ContextModel,
    cmdline_hit: bool,
    title_hit: bool,
)
    ensures
        c.cmdline_regex is Some && !cmdline_hit ==> !criteria_accept(
            c,
            ctx,
            cmdline_hit,
            title_hit,
        ),
        c.window_title_regex is Some && !title_hit ==> !criteria_accept(
            c,
            ctx,
            cmdline_hit,
            title_hit,
        ),
        c.cmdline_regex is None ==> criteria_accept(c, ctx, true, title_hit) == criteria_accept(
            c,
            ctx,
            false,
            title_hit,
        ),
        c.window_title_regex is None ==> criteria_accept(c, ctx, cmdline_hit, true)
            == criteria_accept(c, ctx, cmdline_hit, false),
{
}

/// A configuration is refused for a pattern of one of its rules, which the error names;
/// one whose rules have no pattern is not refused. A refusal for size names the limit.
pub proof fn a_refusal_names_its_rule(config: Config, e: ConfigError)
    requires
        refuses(config, e),
    ensures
        e is InvalidRegex,
        exists|i: int|
            0 <= i < config.rules@.len() && (#[trigger] config.rules@[i]).id
                == e->InvalidRegex_rule_id && (
            config.rules@[i].match_criteria.cmdline_regex is Some
                || config.rules@[i].match_criteria.window_title_regex is Some),
        crate::config::pattern::regex_error_limit(e->InvalidRegex_source) matches Some(limit)
            ==> limit == 65536,
{
    let i = choose|i: int| #[trigger] refuses_at(config, e, i);
    assert(config.rules@[i].id == e->InvalidRegex_rule_id);
}

/// Of the patterns of a rule the one for the command line is refused first; a rule
/// whose patterns all compiled is not refused. Of several rules the first is.
pub proof fn the_first_bad_pattern_is_refused(patterns: Seq<RulePatterns>, from: int)
    requires
        0 <= from,
    ensures
        match first_refused(patterns, from) {
            Some(i) => from <= i < patterns.len() && pattern_error(patterns[i]) is Some
                && forall|j: int| from <= j < i ==> pattern_error(#[trigger] patterns[j]) is None,
            None => forall|j: int|
                from <= j < patterns.len() ==> pattern_error(#[trigger] patterns[j]) is None,
        },
        forall|p: RulePatterns|
            p.cmdline is Some && p.cmdline->0 is Err ==> #[trigger] pattern_error(p) == Some(
                p.cmdline->0->Err_0,
            ),
        forall|p: RulePatterns| #[trigger]
            pattern_error(p) is None <==> !(p.cmdline is Some && p.cmdline->0 is Err) && !(
            p.window_title is Some && p.window_title->0 is Err),
    decreases patterns.len() - from,
{
    if from < patterns.len() && pattern_error(patterns[from]) is None {
        the_first_bad_pattern_is_refused(patterns, from + 1);
    }
}

/// A window is found by its names whatever their case.
pub proof fn names_match_in_any_case(name: Seq<char>)
    ensures
        same_name(name, ascii_lowercase(name)),
        same_name(ascii_lowercase(name), name),
{
    crate::text::lowercase_idempotent(name);
}

} // verus!
