use std::collections::HashSet;

use fancy_regex::Regex;
use op_fast::template::{extract_references, resolve_variables, substitute_references};

// The template grammar written as regular expressions, to hold the scanner
// against a regex engine.
const UNENCLOSED_REF: &str = r"(?<![A-Za-z0-9\-+\\.])(op://[A-Za-z0-9\-?_./[\s&&[^\r\n]]]+)";
const ENCLOSED_REF: &str = r"\{\{\s*(op://[^\}]+)\s*\}\}";
const UNENCLOSED_VAR: &str = r"\$([A-Za-z_][A-Za-z0-9_]*)";
const VAR_WITH_DEFAULT: &str = r"\$\{\s*([A-Za-z_][A-Za-z0-9_]*)\s*:-(.*?)\}";
const ENCLOSED_VAR: &str = r"\$\{\s*([A-Za-z_][A-Za-z0-9_]*)\s*\}";

fn lookup(table: &[(String, String)], key: &str) -> Option<String> {
    table.iter().find(|(k, _)| k == key).map(|(_, v)| v.clone())
}

struct Engine {
    unenclosed_ref: Regex,
    enclosed_ref: Regex,
    unenclosed_var: Regex,
    var_with_default: Regex,
    enclosed_var: Regex,
}

impl Engine {
    fn new() -> Engine {
        Engine {
            unenclosed_ref: Regex::new(UNENCLOSED_REF).unwrap(),
            enclosed_ref: Regex::new(ENCLOSED_REF).unwrap(),
            unenclosed_var: Regex::new(UNENCLOSED_VAR).unwrap(),
            var_with_default: Regex::new(VAR_WITH_DEFAULT).unwrap(),
            enclosed_var: Regex::new(ENCLOSED_VAR).unwrap(),
        }
    }

    fn references(&self, input: &str) -> HashSet<String> {
        let mut refs = HashSet::new();
        for re in [&self.unenclosed_ref, &self.enclosed_ref] {
            for cap in re.captures_iter(input).flatten() {
                if let Some(m) = cap.get(1) {
                    refs.insert(m.as_str().trim().to_string());
                }
            }
        }
        refs
    }

    fn resolve(&self, input: &str, env: &[(String, String)]) -> String {
        let input = self.var_with_default.replace_all(input, |caps: &fancy_regex::Captures<'_, str>| {
            let name = caps.get(1).unwrap().as_str();
            let default = caps.get(2).unwrap().as_str();
            lookup(env, name).unwrap_or_else(|| default.to_string())
        });
        let input = self.enclosed_var.replace_all(&input, |caps: &fancy_regex::Captures<'_, str>| {
            let name = caps.get(1).unwrap().as_str().trim();
            lookup(env, name).unwrap_or_else(|| format!("${{{}}}", name))
        });
        self.unenclosed_var
            .replace_all(&input, |caps: &fancy_regex::Captures<'_, str>| {
                let name = caps.get(1).unwrap().as_str();
                lookup(env, name).unwrap_or_else(|| format!("${}", name))
            })
            .into_owned()
    }

    fn substitute(&self, input: &str, values: &[(String, String)]) -> String {
        let input = self.enclosed_ref.replace_all(input, |caps: &fancy_regex::Captures<'_, str>| {
            let r = caps.get(1).unwrap().as_str().trim();
            lookup(values, r).unwrap_or_else(|| caps.get(0).unwrap().as_str().to_string())
        });
        self.unenclosed_ref
            .replace_all(&input, |caps: &fancy_regex::Captures<'_, str>| {
                let r = caps.get(1).unwrap().as_str().trim();
                lookup(values, r).unwrap_or_else(|| caps.get(0).unwrap().as_str().to_string())
            })
            .into_owned()
    }
}

fn pairs(items: &[(&str, &str)]) -> Vec<(String, String)> {
    items.iter().map(|(k, v)| (k.to_string(), v.to_string())).collect()
}

fn as_set(v: Vec<String>) -> HashSet<String> {
    let n = v.len();
    let s: HashSet<String> = v.into_iter().collect();
    assert_eq!(s.len(), n, "references are listed once each");
    s
}

#[test]
fn extracts_enclosed_and_unenclosed_references() {
    let refs = as_set(extract_references("password: {{ op://app-prod/db/password }}\nuser: op://app-prod/db/user\n"));
    let expected: HashSet<String> =
        ["op://app-prod/db/password", "op://app-prod/db/user"].iter().map(|s| s.to_string()).collect();
    assert_eq!(refs, expected);
}

#[test]
fn reference_needs_a_clean_left_boundary() {
    assert!(extract_references("xop://a/b/c").is_empty());
    assert!(extract_references("-op://a/b/c").is_empty());
    assert_eq!(extract_references("=op://a/b/c"), vec!["op://a/b/c".to_string()]);
    assert!(extract_references("op://").is_empty());
}

#[test]
fn resolves_variables_in_three_passes() {
    let env = pairs(&[("ENV", "prod"), ("VAULT", "v1")]);
    assert_eq!(resolve_variables("db: op://$ENV/db/password", &env), "db: op://prod/db/password");
    assert_eq!(resolve_variables("${VAULT}/${ MISSING }", &env), "v1/${MISSING}");
    assert_eq!(resolve_variables("${MISSING:-dev} ${ENV:-dev}", &env), "dev prod");
    assert_eq!(resolve_variables("$MISSING and $", &env), "$MISSING and $");
    assert_eq!(resolve_variables("a $FOO ${FOO} b", &env), "a $FOO ${FOO} b");
    assert_eq!(resolve_variables("a $FOO ${FOO} b", &Vec::new()), "a $FOO ${FOO} b");
    assert_eq!(resolve_variables("no variables: op://v/i/f {{ x }}", &env), "no variables: op://v/i/f {{ x }}");
}

#[test]
fn substitutes_known_references_and_keeps_unknown_ones() {
    let values = pairs(&[("op://app/db/password", "hunter2")]);
    assert_eq!(
        substitute_references("password: {{ op://app/db/password }}", &values),
        "password: hunter2"
    );
    assert_eq!(substitute_references("pw=op://app/db/password", &values), "pw=hunter2");
    assert_eq!(
        substitute_references("{{ op://other/x/y }} op://other/x/y", &values),
        "{{ op://other/x/y }} op://other/x/y"
    );
    let values = pairs(&[("op://v/i/f", "1"), ("op://v/i/g", "2")]);
    assert_eq!(substitute_references("a: op://v/i/f\nb: op://v/i/g\n", &values), "a: 1\nb: 2\n");
}

#[test]
fn unenclosed_reference_runs_over_white_space() {
    // White space within a line belongs to an unenclosed reference; only its
    // ends are trimmed, and a line break ends it.
    assert_eq!(extract_references("op://a/b c:"), vec!["op://a/b c".to_string()]);
    assert_eq!(extract_references("op://a/b\u{a0}\n"), vec!["op://a/b".to_string()]);
    let mut refs = extract_references("user: op://app/db/user\npass: op://app/db/pass\n");
    refs.sort();
    assert_eq!(refs, vec!["op://app/db/pass".to_string(), "op://app/db/user".to_string()]);
    assert_eq!(extract_references("op://a/b\r\nop://c/d"), vec!["op://a/b".to_string(), "op://c/d".to_string()]);
}

// A deterministic pseudo-random stream of template fragments.
struct Lcg(u64);

impl Lcg {
    fn next(&mut self) -> u64 {
        self.0 = self.0.wrapping_mul(6364136223846793005).wrapping_add(1442695040888963407);
        self.0 >> 33
    }
}

const FRAGMENTS: &[&str] = &[
    "op://", "op:/", "{{", "}}", "}", "{", "${", "$", ":-", ":", "-", "A", "b", "_x", "Z9", " ", "\n", "\r", "\t",
    ".", "+", "\\", "/", "?", "\u{a0}", "\u{2003}", "é", "1", "=", "ENV", "VAULT", "#",
];

fn random_text(rng: &mut Lcg) -> String {
    let n = (rng.next() % 12) as usize;
    (0..n).map(|_| FRAGMENTS[(rng.next() as usize) % FRAGMENTS.len()]).collect()
}

#[test]
fn scanner_agrees_with_regex_engine_on_generated_templates() {
    let env = pairs(&[("ENV", "prod"), ("A", "x y"), ("_x", ""), ("b", "$ENV")]);
    let engine = Engine::new();
    let mut rng = Lcg(12345);
    for _ in 0..3000 {
        let text = random_text(&mut rng);
        assert_eq!(as_set(extract_references(&text)), engine.references(&text), "refs of {:?}", text);
        assert_eq!(resolve_variables(&text, &env), engine.resolve(&text, &env), "resolve {:?}", text);
        let refs: Vec<String> = engine.references(&text).into_iter().collect();
        let values: Vec<(String, String)> =
            refs.iter().enumerate().map(|(i, r)| (r.clone(), format!("<{}>", i))).collect();
        assert_eq!(
            substitute_references(&text, &values),
            engine.substitute(&text, &values),
            "substitute {:?}",
            text
        );
    }
}
