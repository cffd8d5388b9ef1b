use op_fast::config::{
    count_digits, has_no_subseconds, parse_ttl, Config, ConfigError, RawConfig, TtlRule, DEFAULT_TTL_SECONDS,
    MAX_PATTERN_CHARS,
};

fn raw(default_ttl: Option<&str>, rules: &[(&str, &str)]) -> RawConfig {
    RawConfig {
        default_ttl: default_ttl.map(|s| s.to_string()),
        ttl: rules.iter().map(|(p, t)| (p.to_string(), t.to_string())).collect(),
    }
}

#[test]
fn default_ttl_is_one_day() {
    let config = Config::from_raw(raw(None, &[])).unwrap();
    assert_eq!(config.default_ttl, DEFAULT_TTL_SECONDS);
    assert_eq!(config.default_ttl, 86400);
    assert_eq!(config.resolve_ttl("op://any/thing/here"), 86400);
}

#[test]
fn first_matching_rule_wins() {
    let config = Config::from_raw(raw(
        Some("12h"),
        &[("op://prod/*", "1hour"), ("op://*/ssh/*", "30days"), ("op://dev/*", "7days")],
    ))
    .unwrap();
    assert_eq!(config.default_ttl, 12 * 3600);
    assert_eq!(config.resolve_ttl("op://prod/db/password"), 3600);
    assert_eq!(config.resolve_ttl("op://prod/ssh/key"), 3600);
    assert_eq!(config.resolve_ttl("op://stage/ssh/key"), 30 * 86400);
    assert_eq!(config.resolve_ttl("op://dev/db/password"), 7 * 86400);
    assert_eq!(config.resolve_ttl("op://other/db/password"), 12 * 3600);
}

#[test]
fn ttl_formats_of_the_readme() {
    for (text, secs) in [("30s", 30), ("5m", 300), ("1h", 3600), ("1day", 86400), ("1w", 604800)] {
        let config = Config::from_raw(raw(Some(text), &[])).unwrap();
        assert_eq!(config.default_ttl, secs, "{}", text);
    }
}

#[test]
fn invalid_items_are_reported_in_order() {
    assert!(matches!(Config::from_raw(raw(Some("soon"), &[])), Err(ConfigError::InvalidDefaultTtl)));
    match Config::from_raw(raw(Some("1h"), &[("op://a/*", "1h"), ("op://b/*", "never"), ("[", "x")])) {
        Err(ConfigError::InvalidTtl { pattern }) => assert_eq!(pattern, "op://b/*"),
        other => panic!("unexpected {:?}", other.map(|c| c.default_ttl)),
    }
    match Config::from_raw(raw(None, &[("op://a/[", "1h")])) {
        Err(ConfigError::InvalidPattern { pattern }) => assert_eq!(pattern, "op://a/["),
        other => panic!("unexpected {:?}", other.map(|c| c.default_ttl)),
    }
}

#[test]
fn rule_matching_and_override() {
    let rule = TtlRule::new("op://prod/*", 60).unwrap();
    assert!(rule.matches("op://prod/x"));
    assert!(!rule.matches("op://dev/x"));
    assert_eq!(rule.ttl(), 60);
    assert!(TtlRule::new("{a", 1).is_err());
    let config = Config::from_raw(raw(None, &[])).unwrap();
    let config = config.with_default_ttl_override("2m").unwrap();
    assert_eq!(config.default_ttl, 120);
    assert!(matches!(
        Config::from_raw(raw(None, &[])).unwrap().with_default_ttl_override("x"),
        Err(ConfigError::InvalidDefaultTtlOverride)
    ));
}

#[test]
fn long_durations_are_read_and_the_panicking_ones_refused() {
    assert_eq!(parse_ttl("123456789012s"), Some(123_456_789_012));
    assert_eq!(parse_ttl("18446744073709551615s"), Some(u64::MAX));
    assert_eq!(parse_ttl("18446744073709551615s 1000ms"), None);
    assert_eq!(parse_ttl("99999999999s"), Some(99_999_999_999));
    assert_eq!(parse_ttl("1h 30m"), Some(5400));
    assert_eq!(parse_ttl("1.5h"), Some(5400));
    assert_eq!(parse_ttl("500ms"), Some(0));
    assert_eq!(parse_ttl("later"), None);
    assert_eq!(count_digits("1a22b333"), 6);
    assert!(has_no_subseconds("123456789012s 4h"));
    assert!(!has_no_subseconds("1ms"));
    assert!(!has_no_subseconds("1.5s"));
    assert!(!has_no_subseconds("3nanos"));
    assert!(!has_no_subseconds("3millis"));
    let config = Config::from_raw(raw(Some("123456789012s"), &[])).unwrap();
    assert_eq!(config.default_ttl, 123_456_789_012);
    assert!(matches!(
        Config::from_raw(raw(Some("18446744073709551615s 1000ms"), &[])),
        Err(ConfigError::InvalidDefaultTtl)
    ));
    let config = Config::from_raw(raw(None, &[])).unwrap().with_default_ttl_override("123456789012s").unwrap();
    assert_eq!(config.default_ttl, 123_456_789_012);
}

#[test]
fn long_patterns_are_matched() {
    assert!(MAX_PATTERN_CHARS >= 100_000);
    let fits = "a".repeat(100_000);
    let rule = TtlRule::new(&fits, 1).unwrap();
    assert!(rule.matches(&fits));
    assert!(!rule.matches("a"));
}
