use todo_report::marker::contains_todos;
use todo_report::marker::line_has_marker;
use todo_report::text::find_char;
use todo_report::text::split_char;
use todo_report::text::str_lt;
use todo_report::text::trim_str;

#[test]
fn marker_found_in_plain_line() {
    assert!(line_has_marker("# TODO fix this"));
}

#[test]
fn marker_is_case_insensitive() {
    assert!(line_has_marker("todo: later"));
    assert!(line_has_marker("ToDo item"));
    assert!(line_has_marker("all done? tOdO"));
}

#[test]
fn marker_matches_inside_longer_words() {
    assert!(line_has_marker("see the TODOLIST"));
}

#[test]
fn marker_absent() {
    assert!(!line_has_marker("nothing to see here"));
    assert!(!line_has_marker(""));
    assert!(!line_has_marker("TOD"));
    assert!(!line_has_marker("T O D O"));
}

#[test]
fn prefilter_flags_lowercase_todo_in_string_literal() {
    let contents = "fn main() {\n    let s = \"todo\";\n}\n";
    assert!(contains_todos(contents));
}

#[test]
fn prefilter_skips_clean_contents() {
    let contents = "fn main() {\n    println!(\"hello\");\n}\n";
    assert!(!contains_todos(contents));
}

#[test]
fn prefilter_on_empty_contents() {
    assert!(!contains_todos(""));
}

#[test]
fn prefilter_handles_carriage_returns_and_missing_final_newline() {
    assert!(contains_todos("# TODO x\r\nrest\n"));
    assert!(contains_todos("first\nlast line TODO"));
}

#[test]
fn clean_files_trigger_no_attribution_query() {
    let files = vec![("clean.txt", "nothing\n"), ("dirty.txt", "# TODO\n")];
    let mut queries: Vec<&str> = Vec::new();
    for (name, contents) in files {
        if contains_todos(contents) {
            // only here would the attribution tool be invoked
            queries.push(name);
        }
    }
    assert_eq!(queries, vec!["dirty.txt"]);
}

#[test]
fn split_keeps_empty_pieces() {
    let pieces = split_char("a\tb\t", '\t');
    assert_eq!(pieces, vec!["a".to_string(), "b".to_string(), "".to_string()]);
}

#[test]
fn split_of_empty_text_is_one_empty_piece() {
    let pieces = split_char("", '\n');
    assert_eq!(pieces, vec!["".to_string()]);
}

#[test]
fn split_without_separator_is_whole_text() {
    let pieces = split_char("abc", '\t');
    assert_eq!(pieces, vec!["abc".to_string()]);
}

#[test]
fn find_char_first_occurrence() {
    assert_eq!(find_char("ab)cd)e", ')'), 2);
    assert_eq!(find_char("abc", ')'), 3);
    assert_eq!(find_char("", ')'), 0);
}

#[test]
fn trim_removes_surrounding_whitespace() {
    assert_eq!(trim_str("  # TODO fix this \t"), "# TODO fix this".to_string());
    assert_eq!(trim_str("x"), "x".to_string());
    assert_eq!(trim_str("   "), "".to_string());
    assert_eq!(trim_str(""), "".to_string());
}

#[test]
fn string_order_is_lexicographic() {
    assert!(str_lt("2024-01-05", "2024-02-01"));
    assert!(!str_lt("2024-02-01", "2024-01-05"));
    assert!(!str_lt("2024-01-05", "2024-01-05"));
    assert!(str_lt("abc", "abcd"));
    assert!(!str_lt("abcd", "abc"));
}
