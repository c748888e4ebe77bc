use bma_benchmark::staged::build_table;
use bma_benchmark::BenchmarkError;
use bma_benchmark::BenchmarkResult;
use bma_benchmark::CellStyle;

fn stage(name: &str, elapsed_ns: u64, iterations: u32, errors: u32) -> (String, BenchmarkResult) {
    (name.to_owned(), BenchmarkResult::of(elapsed_ns, iterations, errors))
}

#[test]
fn headers_without_errors_or_reference() {
    let results = vec![stage("a", 1_000_000_000, 100, 0)];
    let table = build_table(&results, None).unwrap();
    let headers: Vec<&str> = table.headers.iter().map(|h| h.as_str()).collect();
    assert_eq!(headers, ["stage", "iters", "secs", "msecs", "iters/s"]);
}

#[test]
fn error_columns_appear_exactly_when_some_stage_has_errors() {
    // One stage with errors brings the three error columns for every row.
    let results = vec![
        stage("clean", 1_000_000_000, 100, 0),
        stage("dirty", 1_000_000_000, 100, 5),
    ];
    let table = build_table(&results, None).unwrap();
    let headers: Vec<&str> = table.headers.iter().map(|h| h.as_str()).collect();
    assert_eq!(
        headers,
        ["stage", "iters", "succs", "errs", "err.rate", "secs", "msecs", "iters/s"]
    );
    // The clean row shows blanks in the error columns.
    assert_eq!(table.rows[0][3].text, "");
    assert_eq!(table.rows[0][4].text, "");
    // The dirty row shows the counts and the rate.
    assert_eq!(table.rows[1][2].text, "95");
    assert_eq!(table.rows[1][3].text, "5");
    assert_eq!(table.rows[1][4].text, "5.00%");
    assert_eq!(table.rows[1][4].style, CellStyle::Failure);
}

#[test]
fn no_error_columns_when_all_clean() {
    let results = vec![
        stage("one", 1_000_000_000, 100, 0),
        stage("two", 2_000_000_000, 100, 0),
    ];
    let table = build_table(&results, None).unwrap();
    assert_eq!(table.headers.len(), 5);
    assert_eq!(table.rows[0].len(), 5);
}

#[test]
fn diff_cell_blank_for_equal_speeds() {
    // Both stages at 1000 iterations per second: no diff cell at all.
    let results = vec![
        stage("r", 1_000_000_000, 1000, 0),
        stage("x", 1_000_000_000, 1000, 0),
    ];
    let table = build_table(&results, Some("r")).unwrap();
    let headers: Vec<&str> = table.headers.iter().map(|h| h.as_str()).collect();
    assert_eq!(headers, ["stage", "iters", "secs", "msecs", "iters/s", "diff.s"]);
    // Five data cells, no sixth diff cell in either row.
    assert_eq!(table.rows[0].len(), 5);
    assert_eq!(table.rows[1].len(), 5);
}

#[test]
fn diff_cell_shows_faster_stage_as_positive() {
    let results = vec![
        stage("r", 1_000_000_000, 1000, 0),
        stage("x", 1_000_000_000, 1100, 0),
    ];
    let table = build_table(&results, Some("r")).unwrap();
    assert_eq!(table.rows[1].len(), 6);
    assert_eq!(table.rows[1][5].text, "+10.00%");
    assert_eq!(table.rows[1][5].style, CellStyle::Success);
}

#[test]
fn diff_cell_shows_slower_stage_as_negative() {
    let results = vec![
        stage("r", 1_000_000_000, 1000, 0),
        stage("x", 1_000_000_000, 900, 0),
    ];
    let table = build_table(&results, Some("r")).unwrap();
    assert_eq!(table.rows[1].len(), 6);
    assert_eq!(table.rows[1][5].text, "-10.00%");
    assert_eq!(table.rows[1][5].style, CellStyle::Failure);
}

#[test]
fn diff_cell_blank_inside_tie_band() {
    // 10000 vs 10001 per second differ by 0.01%, inside the tie band.
    let results = vec![
        stage("r", 1_000_000_000, 10000, 0),
        stage("x", 1_000_000_000, 10001, 0),
    ];
    let table = build_table(&results, Some("r")).unwrap();
    assert_eq!(table.rows[1].len(), 5);
}

#[test]
fn table_cells_group_digits() {
    let results = vec![stage("big", 1_000_000_000, 1_234_567, 0)];
    let table = build_table(&results, None).unwrap();
    assert_eq!(table.rows[0][1].text, "1_234_567");
    assert_eq!(table.rows[0][4].text, "1_234_567");
}

#[test]
fn table_time_cells_have_three_decimals() {
    // Exactly 2.5 seconds.
    let results = vec![stage("t", 2_500_000_000, 10, 0)];
    let table = build_table(&results, None).unwrap();
    assert_eq!(table.rows[0][2].text, "2.500");
    assert_eq!(table.rows[0][3].text, "2500.000");
}

#[test]
fn unknown_reference_fails() {
    let results = vec![stage("a", 1_000_000_000, 10, 0)];
    match build_table(&results, Some("b")) {
        Err(BenchmarkError::UnknownStage(name)) => assert_eq!(name, "b"),
        other => panic!("expected UnknownStage, got {:?}", other),
    }
}
