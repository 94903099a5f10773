use docfresh::git::{nonempty_lines_of, parse_log, parse_name_list, parse_log_line, parse_sha};

#[test]
fn log_lines_split_at_first_space() {
    let log = parse_log("abc1234 add refresh token\n\ndef5678 fix: typo in docs\nlonely\n");
    let v: Vec<(String, String)> = log.iter().map(|e| (e.sha.clone(), e.message.clone())).collect();
    assert_eq!(
        v,
        vec![
            ("abc1234".to_string(), "add refresh token".to_string()),
            ("def5678".to_string(), "fix: typo in docs".to_string()),
            ("lonely".to_string(), String::new()),
        ]
    );
}

#[test]
fn single_log_line() {
    let e = parse_log_line(&"abc  two spaces".chars().collect());
    assert_eq!(e.sha, "abc");
    assert_eq!(e.message, " two spaces");
}

#[test]
fn name_lists_skip_empty_lines() {
    assert_eq!(
        parse_name_list("src/a.rs\n\nsrc/b.rs\n"),
        vec!["src/a.rs".to_string(), "src/b.rs".to_string()]
    );
    assert!(parse_name_list("").is_empty());
    assert_eq!(nonempty_lines_of("x\r\ny"), vec!["x".to_string(), "y".to_string()]);
}

#[test]
fn sha_is_trimmed() {
    assert_eq!(parse_sha("  abc1234\n"), "abc1234");
    assert_eq!(parse_sha(""), "");
}
