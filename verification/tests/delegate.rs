use op_fast::delegate::{build_batch_template, parse_batch_output, sentinel, BatchError};

// What `op inject` produces for a template: each reference line replaced by
// its value, all other lines passed through verbatim.
fn simulate_inject(template: &str, values: &[&str]) -> String {
    let mut out = String::new();
    let mut value_iter = values.iter();
    for line in template.lines() {
        if line.starts_with("op://") {
            out.push_str(value_iter.next().expect("more refs than values"));
        } else {
            out.push_str(line);
        }
        out.push('\n');
    }
    out
}

#[test]
fn template_wraps_each_reference_in_sentinels() {
    let template = build_batch_template(&["op://a/b/c", "op://d/e/f"], 42);
    assert_eq!(
        template,
        "--OPFAST:42:BEGIN:0--\nop://a/b/c\n--OPFAST:42:END:0--\n\
         --OPFAST:42:BEGIN:1--\nop://d/e/f\n--OPFAST:42:END:1--\n"
    );
}

#[test]
fn parse_assigns_single_line_values_in_order() {
    let refs = ["op://a/b/c", "op://d/e/f"];
    let template = build_batch_template(&refs, 7);
    let output = simulate_inject(&template, &["first", "second"]);
    let values = parse_batch_output(&output, 2, 7).unwrap();
    assert_eq!(values, vec!["first".to_string(), "second".to_string()]);
}

#[test]
fn parse_preserves_multi_line_values() {
    let refs = ["op://vault/ssh/key"];
    let template = build_batch_template(&refs, 7);
    let output = simulate_inject(&template, &["-----BEGIN KEY-----\nabc\n-----END KEY-----"]);
    let values = parse_batch_output(&output, 1, 7).unwrap();
    assert_eq!(values, vec!["-----BEGIN KEY-----\nabc\n-----END KEY-----".to_string()]);
}

#[test]
fn parse_empty_value_yields_empty_string() {
    let refs = ["op://a/b/c"];
    let template = build_batch_template(&refs, 7);
    let output = simulate_inject(&template, &[""]);
    let values = parse_batch_output(&output, 1, 7).unwrap();
    assert_eq!(values, vec![String::new()]);
}

#[test]
fn parse_regression_multiline_plus_empty_do_not_misassign() {
    // A value "x\ny" next to a value "" must not shift "y" to the second reference.
    let refs = ["op://a/b/c", "op://d/e/f"];
    let template = build_batch_template(&refs, 7);
    let output = simulate_inject(&template, &["x\ny", ""]);
    let values = parse_batch_output(&output, 2, 7).unwrap();
    assert_eq!(values, vec!["x\ny".to_string(), String::new()]);
}

#[test]
fn parse_fails_on_missing_end_marker() {
    let output = "--OPFAST:7:BEGIN:0--\nvalue\n";
    assert!(parse_batch_output(output, 1, 7).is_err());
}

#[test]
fn parse_fails_on_section_count_mismatch() {
    let refs = ["op://a/b/c"];
    let template = build_batch_template(&refs, 7);
    let output = simulate_inject(&template, &["only"]);
    assert!(parse_batch_output(&output, 2, 7).is_err());
}

#[test]
fn parse_fails_closed_when_a_value_forges_aligned_sentinels() {
    // Value 0 forges an early END:0 and a BEGIN:1 so that the real markers
    // land inside section 1 while the section count still matches.
    let refs = ["op://a/b/c", "op://d/e/f"];
    let template = build_batch_template(&refs, 7);
    let forged = "real\n--OPFAST:7:END:0--\n--OPFAST:7:BEGIN:1--\nPWNED";
    let output = simulate_inject(&template, &[forged, "actual"]);
    assert!(parse_batch_output(&output, 2, 7).is_err());
}

#[test]
fn parse_fails_on_unexpected_content_outside_sections() {
    let refs = ["op://a/b/c"];
    let template = build_batch_template(&refs, 7);
    let mut output = String::from("unexpected preamble\n");
    output.push_str(&simulate_inject(&template, &["value"]));
    assert!(parse_batch_output(&output, 1, 7).is_err());
}

#[test]
fn sentinel_formats_tag_kind_and_index() {
    assert_eq!(sentinel(4294967295, 0, false), "--OPFAST:4294967295:BEGIN:0--");
    assert_eq!(sentinel(0, 1234, true), "--OPFAST:0:END:1234--");
}

#[test]
fn parse_reports_each_refusal_reason() {
    assert_eq!(parse_batch_output("junk\n", 0, 1), Err(BatchError::UnexpectedContent));
    assert_eq!(
        parse_batch_output("--OPFAST:1:BEGIN:0--\n--OPFAST:1:BEGIN:1--\n", 1, 1),
        Err(BatchError::MisplacedSentinel)
    );
    assert_eq!(
        parse_batch_output("--OPFAST:1:BEGIN:0--\nv\n", 1, 1),
        Err(BatchError::UnterminatedSection)
    );
    assert_eq!(
        parse_batch_output("--OPFAST:1:BEGIN:0--\nv\n--OPFAST:1:END:0--\n", 3, 1),
        Err(BatchError::SectionCountMismatch { found: 1, expected: 3 })
    );
    assert_eq!(parse_batch_output("", 0, 1), Ok(vec![]));
}

#[test]
fn parse_handles_crlf_and_other_tags() {
    // A carriage return before a line feed ends the line.
    let out = "--OPFAST:9:BEGIN:0--\r\nv\r\n--OPFAST:9:END:0--\r\n";
    assert_eq!(parse_batch_output(out, 1, 9), Ok(vec!["v".to_string()]));
    // A sentinel-like line of another tag is an ordinary value line.
    let out = "--OPFAST:9:BEGIN:0--\n--OPFAST:8:END:0--\n--OPFAST:9:END:0--\n";
    assert_eq!(parse_batch_output(out, 1, 9), Ok(vec!["--OPFAST:8:END:0--".to_string()]));
}

#[test]
fn round_trip_of_values_through_a_batch() {
    let refs = ["op://v/a/x", "op://v/b/y", "op://v/c/z"];
    let values = ["line one\nline two", "", "trailing newline\n"];
    let template = build_batch_template(&refs, 31337);
    let output = simulate_inject(&template, &values);
    let parsed = parse_batch_output(&output, 3, 31337).unwrap();
    assert_eq!(parsed, values.iter().map(|v| v.to_string()).collect::<Vec<_>>());
}
