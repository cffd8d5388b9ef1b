//! Time-to-live configuration: a default and per-reference glob rules.
//!
//! Durations are parsed with `humantime` and patterns are matched with
//! `globset`; both are called through the trusted items below. Times to live
//! are whole seconds.
use vstd::prelude::*;

verus! {

/// The time to live used when the configuration names none: one day.
pub const DEFAULT_TTL_SECONDS: u64 = 86400;

#[verifier::external_type_specification]
#[verifier::external_body]
pub struct ExGlobError(globset::Error);

#[verifier::external_type_specification]
#[verifier::external_body]
pub struct ExDurationError(humantime::DurationError);

/// Whether `globset::Glob::new` accepts the pattern.
pub uninterp spec fn glob_accepts(pattern: Seq<char>) -> bool;

/// Whether `GlobSetBuilder::build` builds the set of the one glob of an
/// accepted pattern (it refuses one whose regex exceeds globset's size
/// limit).
pub uninterp spec fn glob_set_builds(pattern: Seq<char>) -> bool;

/// Whether the set of the one glob built from `pattern` matches `path`
/// (`GlobSet::is_match`).
pub uninterp spec fn glob_matches(pattern: Seq<char>, path: Seq<char>) -> bool;

/// The whole seconds of the duration that `humantime::parse_duration`
/// reads from `text`, or `None` where it refuses the text.
pub uninterp spec fn humantime_seconds(text: Seq<char>) -> Option<u64>;

/// The longest glob pattern, in characters, that a rule may have: globset
/// unwraps the building of its literal matchers, whose automaton has about
/// one state per byte of the literal, and aho-corasick refuses more than
/// `i32::MAX - 1` states. At four bytes a character this bound stays below.
pub const MAX_PATTERN_CHARS: usize = 500000000;

/// The most digits a duration text with sub-second parts may hold. humantime
/// checks every overflow but one: when its nanoseconds add up to a whole
/// second while the seconds stand at `u64::MAX`,
/// `Duration::new(u64::MAX, 1_000_000_000)` panics. With at most eleven
/// digits the seconds stay far below `u64::MAX`; without sub-second parts
/// the nanoseconds stay zero.
pub const MAX_DURATION_DIGITS: usize = 11;

/// Whether `a` followed by `b` occurs in every sub-second unit of humantime
/// (`ns`, `nsec`, `nanos`, `us`, `usec`, `µs`, `ms`, `msec`, `millis`): one of
/// `ns`, `us`, `µs`, `ms`, `os`, `ll`.
pub open spec fn subsecond_pair(a: char, b: char) -> bool {
    (b == 's' && (a == 'n' || a == 'u' || a == 'µ' || a == 'm' || a == 'o')) || (a == 'l' && b
        == 'l')
}

/// Whether a duration text can hold no sub-second part: it has no decimal
/// point and no two characters that every sub-second unit contains.
pub open spec fn no_subseconds(t: Seq<char>) -> bool {
    &&& !t.contains('.')
    &&& forall|i: int| 0 <= i < t.len() - 1 ==> !#[trigger] subsecond_pair(t[i], t[i + 1])
}

/// Whether humantime may be given `t`: its nanoseconds stay zero, or its
/// digits are few enough that its seconds cannot reach `u64::MAX`.
pub open spec fn duration_admitted(t: Seq<char>) -> bool {
    no_subseconds(t) || digit_count(t) <= MAX_DURATION_DIGITS
}

/// The number of decimal digits in `s`.
pub open spec fn digit_count(s: Seq<char>) -> nat
    decreases s.len(),
{
    if s.len() == 0 {
        0
    } else {
        digit_count(s.drop_last()) + if '0' <= s.last() && s.last() <= '9' {
            1nat
        } else {
            0nat
        }
    }
}

/// Whether a rule's pattern is usable: not too long, accepted by
/// `Glob::new`, and its set builds.
pub open spec fn pattern_ok(pattern: Seq<char>) -> bool {
    pattern.len() <= MAX_PATTERN_CHARS && glob_accepts(pattern) && glob_set_builds(pattern)
}

/// The seconds of a duration text: humantime's reading of an admitted
/// text ([`duration_admitted`]); `None` for any other text.
pub open spec fn duration_seconds(text: Seq<char>) -> Option<u64> {
    if duration_admitted(text) {
        humantime_seconds(text)
    } else {
        None
    }
}

/// `globset::Glob::new(pattern)`: succeeds exactly when the pattern is one
/// that globset accepts; the glob itself is not kept.
#[verifier::external_body]
fn glob_new_ok(pattern: &str) -> (r: Result<(), globset::Error>)
    ensures
        r is Ok <==> glob_accepts(pattern@),
{
    globset::Glob::new(pattern).map(|_| ())
}

/// `GlobSetBuilder::build` of the set of the one glob of an accepted,
/// bounded pattern: succeeds exactly where the named result says so.
#[verifier::external_body]
fn glob_set_ok(pattern: &str) -> (r: Result<(), globset::Error>)
    requires
        glob_accepts(pattern@),
        pattern@.len() <= MAX_PATTERN_CHARS,
    ensures
        r is Ok <==> glob_set_builds(pattern@),
{
    let mut builder = globset::GlobSetBuilder::new();
    builder.add(globset::Glob::new(pattern).unwrap());
    builder.build().map(|_| ())
}

/// `GlobSet::is_match` for the set of the one glob of a usable pattern: its
/// answer is the named result `glob_matches`.
#[verifier::external_body]
fn glob_is_match(pattern: &str, path: &str) -> (r: bool)
    requires
        pattern_ok(pattern@),
    ensures
        r == glob_matches(pattern@, path@),
{
    let mut builder = globset::GlobSetBuilder::new();
    builder.add(globset::Glob::new(pattern).unwrap());
    builder.build().unwrap().is_match(path)
}

/// `humantime::parse_duration(text)` in whole seconds
/// (`Duration::as_secs`), for an admitted text ([`duration_admitted`]): an
/// error exactly where the named result is `None`.
#[verifier::external_body]
fn parse_duration_secs(text: &str) -> (r: Result<u64, humantime::DurationError>)
    requires
        duration_admitted(text@),
    ensures
        r is Ok <==> humantime_seconds(text@) is Some,
        r matches Ok(n) ==> humantime_seconds(text@) == Some(n),
{
    humantime::parse_duration(text).map(|d| d.as_secs())
}

/// The number of decimal digits in `text`.
pub fn count_digits(text: &str) -> (n: usize)
    ensures
        n == digit_count(text@),
{
    let c = crate::text::chars_of(text);
    let mut n: usize = 0;
    let mut i: usize = 0;
    while i < c.len()
        invariant
            i <= c.len(),
            c@ == text@,
            n == digit_count(c@.take(i as int)),
            n <= i,
        decreases c.len() - i,
    {
        proof {
            assert(c@.take(i + 1).drop_last() =~= c@.take(i as int));
        }
        if '0' <= c[i] && c[i] <= '9' {
            n = n + 1;
        }
        i = i + 1;
    }
    proof {
        assert(c@.take(c.len() as int) =~= c@);
    }
    n
}

/// Whether `text` can hold no sub-second part ([`no_subseconds`]).
pub fn has_no_subseconds(text: &str) -> (r: bool)
    ensures
        r == no_subseconds(text@),
{
    let c = crate::text::chars_of(text);
    let mut i: usize = 0;
    while i < c.len()
        invariant
            i <= c.len(),
            c@ == text@,
            forall|j: int| 0 <= j < i ==> c@[j] != '.',
            forall|j: int| 0 <= j < i && j + 1 < c.len() ==> !#[trigger] subsecond_pair(c@[j], c@[j + 1]),
        decreases c.len() - i,
    {
        if c[i] == '.' {
            return false;
        }
        if i + 1 < c.len() {
            let a = c[i];
            let b = c[i + 1];
            if (b == 's' && (a == 'n' || a == 'u' || a == 'µ' || a == 'm' || a == 'o')) || (a == 'l'
                && b == 'l') {
                proof {
                    assert(subsecond_pair(c@[i as int], c@[i + 1]));
                }
                return false;
            }
        }
        i = i + 1;
    }
    true
}

/// The seconds of the duration in `text` ([`duration_seconds`]): `None`
/// where humantime refuses it, or where it has sub-second parts together
/// with more than [`MAX_DURATION_DIGITS`] digits.
pub fn parse_ttl(text: &str) -> (r: Option<u64>)
    ensures
        r == duration_seconds(text@),
{
    if !has_no_subseconds(text) && count_digits(text) > MAX_DURATION_DIGITS {
        return None;
    }
    match parse_duration_secs(text) {
        Ok(n) => Some(n),
        Err(_) => None,
    }
}

/// Why a configuration was refused.
#[derive(Debug)]
pub enum ConfigError {
    /// `default_ttl` is not a duration.
    InvalidDefaultTtl,
    /// The time to live of the rule for `pattern` is not a duration.
    InvalidTtl { pattern: String },
    /// `pattern` is not a glob pattern.
    InvalidPattern { pattern: String },
    /// The overriding default time to live is not a duration.
    InvalidDefaultTtlOverride,
}

/// A time-to-live rule: references that match the glob pattern live for
/// `ttl` seconds. The pattern is always one that globset accepts.
pub struct TtlRule {
    pattern: String,
    ttl: u64,
}

impl TtlRule {
    #[verifier::type_invariant]
    spec fn valid(self) -> bool {
        pattern_ok(self.pattern@)
    }

    /// The rule's glob pattern.
    pub closed spec fn pattern_view(self) -> Seq<char> {
        self.pattern@
    }

    /// The rule's time to live, in seconds.
    pub closed spec fn ttl_view(self) -> u64 {
        self.ttl
    }

    /// A rule for `pattern`; refused exactly when the pattern is not usable
    /// ([`pattern_ok`]).
    pub fn new(pattern: &str, ttl: u64) -> (r: Result<TtlRule, ConfigError>)
        ensures
            r is Ok <==> pattern_ok(pattern@),
            r matches Ok(rule) ==> rule.pattern_view() == pattern@ && rule.ttl_view() == ttl,
            r matches Err(e) ==> e matches ConfigError::InvalidPattern { pattern: p } && p@
                == pattern@,
    {
        if pattern.unicode_len() > MAX_PATTERN_CHARS {
            return Err(ConfigError::InvalidPattern { pattern: pattern.to_owned() });
        }
        match glob_new_ok(pattern) {
            Ok(()) => {},
            Err(_) => return Err(ConfigError::InvalidPattern { pattern: pattern.to_owned() }),
        }
        match glob_set_ok(pattern) {
            Ok(()) => Ok(TtlRule { pattern: pattern.to_owned(), ttl }),
            Err(_) => Err(ConfigError::InvalidPattern { pattern: pattern.to_owned() }),
        }
    }

    /// Whether the rule's pattern matches `reference`.
    pub fn matches(&self, reference: &str) -> (r: bool)
        ensures
            r == glob_matches(self.pattern_view(), reference@),
    {
        proof {
            use_type_invariant(self);
        }
        glob_is_match(self.pattern.as_str(), reference)
    }

    /// The rule's time to live, in seconds.
    pub fn ttl(&self) -> (r: u64)
        ensures
            r == self.ttl_view(),
    {
        self.ttl
    }
}

/// The time to live for `reference`: that of the first rule whose pattern
/// matches it, else the default.
pub open spec fn ttl_for(rules: Seq<TtlRule>, default_ttl: u64, reference: Seq<char>) -> u64
    decreases rules.len(),
{
    if rules.len() == 0 {
        default_ttl
    } else if glob_matches(rules[0].pattern_view(), reference) {
        rules[0].ttl_view()
    } else {
        ttl_for(rules.drop_first(), default_ttl, reference)
    }
}

/// The configuration file's contents before validation: an optional default
/// time to live and, per glob pattern, a time to live, in the order given.
pub struct RawConfig {
    pub default_ttl: Option<String>,
    pub ttl: Vec<(String, String)>,
}

/// Whether a raw rule is valid: its time to live parses and its pattern is
/// a glob.
pub open spec fn raw_rule_ok(rule: (Seq<char>, Seq<char>)) -> bool {
    duration_seconds(rule.1) is Some && pattern_ok(rule.0)
}

/// The index of the first invalid raw rule at or after `i`, or the number of
/// rules if there is none.
pub open spec fn first_bad_rule(rules: Seq<(Seq<char>, Seq<char>)>, i: int) -> int
    decreases rules.len() - i,
{
    if i < 0 || i >= rules.len() {
        rules.len() as int
    } else if !raw_rule_ok(rules[i]) {
        i
    } else {
        first_bad_rule(rules, i + 1)
    }
}

/// The default time to live that a raw default gives, if it is valid.
pub open spec fn raw_default_ttl(default_ttl: Option<Seq<char>>) -> Option<u64> {
    match default_ttl {
        None => Some(DEFAULT_TTL_SECONDS),
        Some(t) => duration_seconds(t),
    }
}

pub open spec fn raw_rules_view(rules: Seq<(String, String)>) -> Seq<(Seq<char>, Seq<char>)> {
    rules.map_values(|r: (String, String)| (r.0@, r.1@))
}

pub open spec fn raw_default_view(d: Option<String>) -> Option<Seq<char>> {
    match d {
        Some(s) => Some(s@),
        None => None,
    }
}

/// The loaded configuration.
pub struct Config {
    /// Time to live, in seconds, of references that no rule matches.
    pub default_ttl: u64,
    /// The rules, tried in order.
    pub ttl_rules: Vec<TtlRule>,
}

impl Config {
    /// The time to live, in seconds, for `reference`: that of the first rule
    /// that matches it, else the default.
    pub fn resolve_ttl(&self, reference: &str) -> (ttl: u64)
        ensures
            ttl == ttl_for(self.ttl_rules@, self.default_ttl, reference@),
    {
        let mut i: usize = 0;
        proof {
            assert(self.ttl_rules@.skip(0) =~= self.ttl_rules@);
        }
        while i < self.ttl_rules.len()
            invariant
                i <= self.ttl_rules.len(),
                ttl_for(self.ttl_rules@, self.default_ttl, reference@) == ttl_for(
                    self.ttl_rules@.skip(i as int),
                    self.default_ttl,
                    reference@,
                ),
            decreases self.ttl_rules.len() - i,
        {
            proof {
                assert(self.ttl_rules@.skip(i as int).drop_first() =~= self.ttl_rules@.skip(i + 1));
                assert(self.ttl_rules@.skip(i as int)[0] == self.ttl_rules@[i as int]);
            }
            if self.ttl_rules[i].matches(reference) {
                return self.ttl_rules[i].ttl();
            }
            i = i + 1;
        }
        proof {
            assert(self.ttl_rules@.skip(i as int).len() == 0);
        }
        self.default_ttl
    }

    /// Validates a raw configuration: the default time to live (one day if
    /// absent) and, in order, each rule's time to live and pattern. The first
    /// invalid item is reported.
    pub fn from_raw(raw: RawConfig) -> (r: Result<Config, ConfigError>)
        ensures
            ({
                let d = raw_default_ttl(raw_default_view(raw.default_ttl));
                let rules = raw_rules_view(raw.ttl@);
                let k = first_bad_rule(rules, 0);
                match r {
                    Ok(c) => {
                        &&& d == Some(c.default_ttl)
                        &&& k == rules.len()
                        &&& c.ttl_rules@.len() == rules.len()
                        &&& forall|i: int|
                            0 <= i < rules.len() ==> (#[trigger] c.ttl_rules@[i]).pattern_view()
                                == rules[i].0 && duration_seconds(rules[i].1) == Some(
                                c.ttl_rules@[i].ttl_view(),
                            )
                    },
                    Err(ConfigError::InvalidDefaultTtl) => d is None,
                    Err(ConfigError::InvalidTtl { pattern }) => {
                        &&& d is Some
                        &&& 0 <= k < rules.len()
                        &&& duration_seconds(rules[k].1) is None
                        &&& pattern@ == rules[k].0
                    },
                    Err(ConfigError::InvalidPattern { pattern }) => {
                        &&& d is Some
                        &&& 0 <= k < rules.len()
                        &&& duration_seconds(rules[k].1) is Some
                        &&& !pattern_ok(rules[k].0)
                        &&& pattern@ == rules[k].0
                    },
                    Err(ConfigError::InvalidDefaultTtlOverride) => false,
                }
            }),
    {
        let default_ttl = match &raw.default_ttl {
            Some(text) => match parse_ttl(text.as_str()) {
                Some(n) => n,
                None => return Err(ConfigError::InvalidDefaultTtl),
            },
            None => DEFAULT_TTL_SECONDS,
        };
        let ghost rules = raw_rules_view(raw.ttl@);
        let mut ttl_rules: Vec<TtlRule> = Vec::new();
        let mut i: usize = 0;
        while i < raw.ttl.len()
            invariant
                i <= raw.ttl.len(),
                rules == raw_rules_view(raw.ttl@),
                raw_default_ttl(raw_default_view(raw.default_ttl)) == Some(default_ttl),
                first_bad_rule(rules, 0) == first_bad_rule(rules, i as int),
                ttl_rules@.len() == i,
                forall|j: int|
                    0 <= j < i ==> (#[trigger] ttl_rules@[j]).pattern_view() == rules[j].0
                        && duration_seconds(rules[j].1) == Some(ttl_rules@[j].ttl_view()),
            decreases raw.ttl.len() - i,
        {
            let pattern = &raw.ttl[i].0;
            let text = &raw.ttl[i].1;
            proof {
                assert(rules[i as int] == (pattern@, text@));
            }
            let ttl = match parse_ttl(text.as_str()) {
                Some(n) => n,
                None => {
                    proof {
                        assert(!raw_rule_ok(rules[i as int]));
                        assert(first_bad_rule(rules, i as int) == i);
                    }
                    return Err(ConfigError::InvalidTtl { pattern: pattern.clone() });
                },
            };
            let rule = match TtlRule::new(pattern.as_str(), ttl) {
                Ok(rule) => rule,
                Err(e) => {
                    proof {
                        assert(!raw_rule_ok(rules[i as int]));
                        assert(first_bad_rule(rules, i as int) == i);
                    }
                    return Err(e);
                },
            };
            ttl_rules.push(rule);
            i = i + 1;
        }
        Ok(Config { default_ttl, ttl_rules })
    }

    /// This configuration with its default time to live replaced by the
    /// duration in `text` (the `OP_FAST_DEFAULT_TTL` override); refused
    /// exactly when `text` is not a duration.
    pub fn with_default_ttl_override(self, text: &str) -> (r: Result<Config, ConfigError>)
        ensures
            r is Ok <==> duration_seconds(text@) is Some,
            r matches Ok(c) ==> Some(c.default_ttl) == duration_seconds(text@) && c.ttl_rules@
                == self.ttl_rules@,
            r matches Err(e) ==> e is InvalidDefaultTtlOverride,
    {
        match parse_ttl(text) {
            Some(n) => Ok(Config { default_ttl: n, ttl_rules: self.ttl_rules }),
            None => Err(ConfigError::InvalidDefaultTtlOverride),
        }
    }
}

} // verus!
