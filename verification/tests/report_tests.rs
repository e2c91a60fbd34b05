use todo_report::marker::contains_todos;
use todo_report::parse::blame;
use todo_report::report::TodoRecord;
use todo_report::report::assemble_records;
use todo_report::report::render_report;
use todo_report::report::sort_records;

fn record(file: &str, date: &str, comment: &str) -> TodoRecord {
    TodoRecord { file: file.to_string(), date: date.to_string(), comment: comment.to_string() }
}

#[test]
fn empty_workspace_gives_empty_report() {
    let records: Vec<TodoRecord> = Vec::new();
    let sorted = sort_records(records);
    assert!(sorted.is_empty());
    let lines = render_report(&sorted);
    assert!(lines.is_empty());
}

#[test]
fn report_is_sorted_by_date_ascending() {
    let records = vec![
        record("b.txt", "2024-03-01", "later"),
        record("a.txt", "2024-01-05", "sooner"),
        record("c.txt", "2024-02-10", "middle"),
    ];
    let sorted = sort_records(records);
    let dates: Vec<&str> = sorted.iter().map(|r| r.date.as_str()).collect();
    assert_eq!(dates, vec!["2024-01-05", "2024-02-10", "2024-03-01"]);
    for pair in sorted.windows(2) {
        assert!(pair[0].date <= pair[1].date);
    }
}

#[test]
fn equal_dates_keep_input_order() {
    let records = vec![
        record("a.txt", "2024-01-05", "one"),
        record("b.txt", "2024-01-05", "two"),
    ];
    let sorted = sort_records(records);
    assert_eq!(sorted[0].comment, "one".to_string());
    assert_eq!(sorted[1].comment, "two".to_string());
}

#[test]
fn assemble_names_the_file_on_every_record() {
    let mut collected: Vec<TodoRecord> = Vec::new();
    let pairs = vec![
        ("2024-01-05".to_string(), "# TODO a".to_string()),
        ("2024-01-06".to_string(), "# TODO b".to_string()),
    ];
    assemble_records(&"a.txt".to_string(), &pairs, &mut collected);
    assert_eq!(collected.len(), 2);
    assert_eq!(collected[0].file, "a.txt".to_string());
    assert_eq!(collected[0].date, "2024-01-05".to_string());
    assert_eq!(collected[0].comment, "# TODO a".to_string());
    assert_eq!(collected[1].file, "a.txt".to_string());
}

#[test]
fn render_emits_two_lines_per_record() {
    let sorted = vec![record("a.txt", "2024-01-05", "# TODO fix this")];
    let lines = render_report(&sorted);
    assert_eq!(lines, vec!["2024-01-05\t# TODO fix this".to_string(), "  a.txt".to_string()]);
}

#[test]
fn one_file_scenario_end_to_end() {
    let contents = "# TODO fix this\n";
    assert!(contains_todos(contents));
    let attribution = vec![
        "abc123\t(Author\t2024-01-05 10:00:00 +0000\t   1) # TODO fix this".to_string(),
    ];
    let pairs = blame(&attribution).unwrap();
    let mut collected: Vec<TodoRecord> = Vec::new();
    assemble_records(&"a.txt".to_string(), &pairs, &mut collected);
    let sorted = sort_records(collected);
    assert_eq!(sorted.len(), 1);
    assert_eq!(sorted[0].date, "2024-01-05 10:00:00 +0000".to_string());
    assert_eq!(sorted[0].comment, "# TODO fix this".to_string());
    assert_eq!(sorted[0].file, "a.txt".to_string());
}

#[test]
fn two_files_interleave_by_date() {
    let mut collected: Vec<TodoRecord> = Vec::new();

    let first_contents = "# TODO early\nfine\n# TODO late\n";
    assert!(contains_todos(first_contents));
    let first_attribution = vec![
        "r1\t(Author\t2024-01-02\t1) # TODO early".to_string(),
        "r3\t(Author\t2024-05-01\t3) # TODO late".to_string(),
    ];
    let pairs = blame(&first_attribution).unwrap();
    assert_eq!(pairs.len(), 2);
    assemble_records(&"a.txt".to_string(), &pairs, &mut collected);

    let second_contents = "# TODO middle\n";
    assert!(contains_todos(second_contents));
    let second_attribution = vec!["r2\t(Author\t2024-03-03\t1) # TODO middle".to_string()];
    let pairs = blame(&second_attribution).unwrap();
    assemble_records(&"b.txt".to_string(), &pairs, &mut collected);

    let clean_contents = "nothing here\n";
    assert!(!contains_todos(clean_contents));
    // the prefilter said no: this file gets no attribution query and no records

    let sorted = sort_records(collected);
    let summary: Vec<(&str, &str)> =
        sorted.iter().map(|r| (r.date.as_str(), r.file.as_str())).collect();
    assert_eq!(
        summary,
        vec![
            ("2024-01-02", "a.txt"),
            ("2024-03-03", "b.txt"),
            ("2024-05-01", "a.txt"),
        ]
    );

    let lines = render_report(&sorted);
    assert_eq!(lines.len(), 6);
    assert_eq!(lines[0], "2024-01-02\t# TODO early".to_string());
    assert_eq!(lines[1], "  a.txt".to_string());
}

#[test]
fn report_unchanged_when_run_twice_on_same_observations() {
    let build = || {
        let attribution = vec![
            "r1\t(Author\t2024-01-02\t1) # TODO early".to_string(),
            "r2\t(Author\t2024-03-03\t2) # TODO late".to_string(),
        ];
        let pairs = blame(&attribution).unwrap();
        let mut collected: Vec<TodoRecord> = Vec::new();
        assemble_records(&"a.txt".to_string(), &pairs, &mut collected);
        render_report(&sort_records(collected))
    };
    assert_eq!(build(), build());
}
