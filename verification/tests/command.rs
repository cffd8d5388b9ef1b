use op_fast::command::{
    chrono_conversion, chrono_conversion_at, collect_references, mask_secrets, parse_env_file,
    parse_file_mode, InvalidFileMode,
};

#[test]
fn file_modes_are_octal() {
    assert_eq!(parse_file_mode("600"), Ok(0o600));
    assert_eq!(parse_file_mode("+644"), Ok(0o644));
    assert_eq!(parse_file_mode("0"), Ok(0));
    assert_eq!(parse_file_mode("37777777777"), Ok(u32::MAX));
    assert_eq!(parse_file_mode("40000000000"), Err(InvalidFileMode));
    assert_eq!(parse_file_mode(""), Err(InvalidFileMode));
    assert_eq!(parse_file_mode("+"), Err(InvalidFileMode));
    assert_eq!(parse_file_mode("-1"), Err(InvalidFileMode));
    assert_eq!(parse_file_mode("8"), Err(InvalidFileMode));
    assert_eq!(parse_file_mode(" 600"), Err(InvalidFileMode));
    for s in ["", "+", "7", "17", "0755", "999", "+12", "-3", "4294967295", "37777777777", "777777777777"] {
        assert_eq!(parse_file_mode(s).ok(), u32::from_str_radix(s, 8).ok(), "{:?}", s);
    }
}

#[test]
fn secrets_are_masked_in_output() {
    let secrets = vec!["hunter2".to_string(), String::new(), "abc".to_string()];
    assert_eq!(
        mask_secrets("pw=hunter2 x=abcabc", &secrets),
        "pw=<concealed by 1Password> x=<concealed by 1Password><concealed by 1Password>"
    );
    assert_eq!(mask_secrets("nothing here", &secrets), "nothing here");
    assert_eq!(mask_secrets("aaa", &["aa".to_string()]), "<concealed by 1Password>a");
}

#[test]
fn env_files_are_read_line_by_line() {
    let contents = "# comment\n\nDB_PASSWORD=op://app-dev/db/password\n  KEY = \"quoted value\" \nSINGLE='x'\nNOEQ\nEMPTY=\nHALF=\"\nA=b=c\r\n";
    let entries = parse_env_file(contents);
    let expected: Vec<(String, String)> = [
        ("DB_PASSWORD", "op://app-dev/db/password"),
        ("KEY", "quoted value"),
        ("SINGLE", "x"),
        ("EMPTY", ""),
        ("HALF", "\""),
        ("A", "b=c"),
    ]
    .iter()
    .map(|(k, v)| (k.to_string(), v.to_string()))
    .collect();
    assert_eq!(entries, expected);
}

#[test]
fn references_are_collected_once() {
    let texts = vec![
        "op://a/b/c".to_string(),
        "x {{ op://a/b/c }} op://d/e/f".to_string(),
        "plain".to_string(),
    ];
    let mut refs = collect_references(&texts);
    refs.sort();
    assert_eq!(refs, vec!["op://a/b/c".to_string(), "op://d/e/f".to_string()]);
}

#[test]
fn ages_are_labelled_by_unit() {
    assert_eq!(chrono_conversion_at(100, 100), "0s ago");
    assert_eq!(chrono_conversion_at(159, 100), "59s ago");
    assert_eq!(chrono_conversion_at(160, 100), "1m ago");
    assert_eq!(chrono_conversion_at(3699, 100), "59m ago");
    assert_eq!(chrono_conversion_at(3700, 100), "1h ago");
    assert_eq!(chrono_conversion_at(86500, 100), "1d ago");
    assert_eq!(chrono_conversion_at(100 + 86400 * 45 + 5, 100), "45d ago");
    assert_eq!(chrono_conversion_at(5, 100), "0s ago");
    assert!(chrono_conversion(0).ends_with("d ago"));
}
