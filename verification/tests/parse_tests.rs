use todo_report::parse::blame;
use todo_report::parse::extract_comment;

#[test]
fn comment_is_text_after_first_close_paren_trimmed() {
    assert_eq!(extract_comment("   1) # TODO fix this"), "# TODO fix this".to_string());
    assert_eq!(extract_comment("a)  hi  "), "hi".to_string());
}

#[test]
fn comment_without_close_paren_is_whole_field_trimmed() {
    assert_eq!(extract_comment("  # TODO no prefix  "), "# TODO no prefix".to_string());
}

#[test]
fn comment_uses_first_close_paren_only() {
    assert_eq!(extract_comment("1) a) b"), "a) b".to_string());
}

#[test]
fn comment_of_lone_close_paren_is_empty() {
    assert_eq!(extract_comment(")"), "".to_string());
    assert_eq!(extract_comment(""), "".to_string());
}

#[test]
fn blame_extracts_date_and_comment() {
    let lines = vec![
        "abc123\t(Author\t2024-01-05 10:00:00 +0000\t   1) # TODO fix this".to_string(),
    ];
    let pairs = blame(&lines).unwrap();
    assert_eq!(pairs.len(), 1);
    assert_eq!(pairs[0].0, "2024-01-05 10:00:00 +0000".to_string());
    assert_eq!(pairs[0].1, "# TODO fix this".to_string());
}

#[test]
fn blame_skips_lines_without_marker() {
    let lines = vec![
        "abc123\t(Author\t2024-01-05\t1) nothing here".to_string(),
        "abc124\t(Author\t2024-01-06\t2) # TODO real work".to_string(),
    ];
    let pairs = blame(&lines).unwrap();
    assert_eq!(pairs.len(), 1);
    assert_eq!(pairs[0].0, "2024-01-06".to_string());
    assert_eq!(pairs[0].1, "# TODO real work".to_string());
}

#[test]
fn blame_of_empty_output_is_empty() {
    let lines: Vec<String> = Vec::new();
    let pairs = blame(&lines).unwrap();
    assert!(pairs.is_empty());
}

#[test]
fn blame_reports_first_malformed_flagged_line() {
    let lines = vec![
        "abc123\t(Author\t2024-01-05\t1) fine, no marker, few fields ok".to_string(),
        "short line".to_string(),
        "TODO but only one field".to_string(),
        "also TODO malformed".to_string(),
    ];
    let err = blame(&lines).unwrap_err();
    assert_eq!(err.line, 2);
}

#[test]
fn blame_accepts_short_unflagged_lines() {
    let lines = vec!["no tabs at all".to_string()];
    let pairs = blame(&lines).unwrap();
    assert!(pairs.is_empty());
}

#[test]
fn blame_keeps_output_order() {
    let lines = vec![
        "a\tx\t2024-03-01\t1) TODO later".to_string(),
        "b\ty\t2024-01-01\t2) TODO sooner".to_string(),
    ];
    let pairs = blame(&lines).unwrap();
    assert_eq!(pairs.len(), 2);
    assert_eq!(pairs[0].0, "2024-03-01".to_string());
    assert_eq!(pairs[1].0, "2024-01-01".to_string());
}
