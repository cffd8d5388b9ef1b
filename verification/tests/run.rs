use op_fast::command::run::{merge_environment, resolve_arguments, resolve_environment};
use op_fast::delegate::pair_values;
use op_fast::text::trim_end_str;

fn pairs(entries: &[(&str, &str)]) -> Vec<(String, String)> {
    entries.iter().map(|(k, v)| (k.to_string(), v.to_string())).collect()
}

fn value_of<'a>(table: &'a [(String, String)], key: &str) -> Option<&'a str> {
    table.iter().find(|(k, _)| k == key).map(|(_, v)| v.as_str())
}

#[test]
fn environment_files_take_precedence_over_the_shell() {
    let shell = pairs(&[("HOME", "/home/me"), ("DB_PASSWORD", "from-shell"), ("APP_ENV", "dev")]);
    let files = pairs(&[("DB_PASSWORD", "op://app/db/password"), ("NEW", "1"), ("NEW", "2")]);
    let merged = merge_environment(&shell, &files);
    assert_eq!(merged.len(), 4);
    assert_eq!(value_of(&merged, "DB_PASSWORD"), Some("op://app/db/password"));
    assert_eq!(value_of(&merged, "NEW"), Some("2"));
    assert_eq!(value_of(&merged, "HOME"), Some("/home/me"));
    assert_eq!(value_of(&merged, "APP_ENV"), Some("dev"));
    assert_eq!(value_of(&merged, "MISSING"), None);
}

#[test]
fn merging_nothing_keeps_the_shell_environment() {
    let shell = pairs(&[("A", "1"), ("B", "2")]);
    assert_eq!(merge_environment(&shell, &Vec::new()), shell);
    assert_eq!(merge_environment(&Vec::new(), &Vec::new()), Vec::new());
}

#[test]
fn environment_values_are_expanded_then_substituted() {
    let vars = pairs(&[("DB_PASSWORD", "op://$APP_ENV/db/password"), ("PLAIN", "x")]);
    let environment = pairs(&[("APP_ENV", "prod")]);
    let values = pairs(&[("op://prod/db/password", "s3cret")]);
    assert_eq!(
        resolve_environment(&vars, &environment, &values),
        pairs(&[("DB_PASSWORD", "s3cret"), ("PLAIN", "x")])
    );
}

#[test]
fn arguments_are_expanded_then_substituted() {
    let args = vec![
        "printenv".to_string(),
        "{{ op://v/i/f }}".to_string(),
        "${MISSING:-op://v/i/f}".to_string(),
        "op://v/other/f".to_string(),
    ];
    let values = pairs(&[("op://v/i/f", "value")]);
    assert_eq!(
        resolve_arguments(&args, &Vec::new(), &values),
        vec!["printenv", "value", "value", "op://v/other/f"]
    );
}

#[test]
fn read_values_pair_with_their_references() {
    let values = vec!["one".to_string(), "two".to_string()];
    assert_eq!(pair_values(&["op://a", "op://b"], &values), pairs(&[("op://a", "one"), ("op://b", "two")]));
    assert_eq!(pair_values(&["op://a", "op://b", "op://c"], &values).len(), 2);
    assert_eq!(pair_values(&["op://a"], &values), pairs(&[("op://a", "one")]));
}

#[test]
fn read_output_loses_its_trailing_white_space() {
    assert_eq!(trim_end_str("s3cret\n"), "s3cret");
    assert_eq!(trim_end_str("  a b \t\r\n\u{3000}"), "  a b");
    assert_eq!(trim_end_str(""), "");
    assert_eq!(trim_end_str("\n\n"), "");
}
