use bma_benchmark::perf::CheckpointStats;
use bma_benchmark::perf::PerfStats;
use bma_benchmark::BenchmarkError;
use bma_benchmark::CellStyle;
use bma_benchmark::LatencyBenchmark;
use bma_benchmark::Perf;

#[test]
fn perf_records_two_checkpoints_per_round() {
    let k = 3;
    let mut p = Perf::new();
    for _ in 0..k {
        p.start();
        p.checkpoint("a");
        p.checkpoint("b");
    }
    assert_eq!(p.iterations, k);
    assert_eq!(p.checkpoints, ["a", "b"]);
    for name in ["a", "b"] {
        let series = p
            .measurements
            .iter()
            .find(|entry| entry.0 == name)
            .expect("series recorded for each checkpoint");
        assert_eq!(series.1.len(), k);
    }
}

#[test]
fn perf_checkpoint_order_is_first_seen_only() {
    let mut p = Perf::new();
    p.start();
    p.checkpoint("b");
    p.checkpoint("a");
    p.start();
    p.checkpoint("b");
    p.checkpoint("a");
    assert_eq!(p.checkpoints, ["b", "a"]);
}

#[test]
fn perf_reset_clears_everything() {
    let mut p = Perf::new();
    p.start();
    p.checkpoint("a");
    p.reset();
    assert_eq!(p.iterations, 0);
    assert!(p.checkpoints.is_empty());
    assert!(p.measurements.is_empty());
}

#[test]
fn perf_stats_without_rounds_is_empty_profile() {
    let p = Perf::new();
    match p.stats() {
        Err(BenchmarkError::EmptyProfile) => {}
        other => panic!("expected EmptyProfile, got {:?}", other),
    }
}

#[test]
fn perf_stats_counts_rounds_and_checkpoints() {
    let mut p = Perf::new();
    for _ in 0..4 {
        p.start();
        p.checkpoint("parse");
        p.checkpoint("eval");
    }
    let st = p.stats().unwrap();
    assert_eq!(st.iterations, 4);
    assert_eq!(st.rows.len(), 2);
    assert_eq!(st.rows[0].name, "parse");
    assert_eq!(st.rows[1].name, "eval");
    for row in &st.rows {
        assert!(row.min_ns <= row.avg_ns);
        assert!(row.avg_ns <= row.max_ns);
    }
    assert!(st.total_min_ns <= st.total_avg_ns);
    assert!(st.total_avg_ns <= st.total_max_ns);
}

#[test]
fn perf_stats_table_has_rule_and_total_rows() {
    let st = PerfStats {
        iterations: 2,
        rows: vec![
            CheckpointStats { name: "a", min_ns: 1_000, max_ns: 3_000, avg_ns: 2_000 },
            CheckpointStats { name: "b", min_ns: 2_000_000, max_ns: 2_000_000, avg_ns: 2_000_000 },
        ],
        total_min_ns: 2_001_000,
        total_max_ns: 2_003_000,
        total_avg_ns: 2_002_000,
    };
    let table = st.to_table();
    let headers: Vec<&str> = table.headers.iter().map(|h| h.as_str()).collect();
    assert_eq!(headers, ["checkpoint", "min", "max", "avg"]);
    assert_eq!(table.rows.len(), 4);
    // Values are reported in microseconds with digit grouping.
    assert_eq!(table.rows[0][0].text, "a");
    assert_eq!(table.rows[0][1].text, "1");
    assert_eq!(table.rows[0][2].text, "3");
    assert_eq!(table.rows[0][3].text, "2");
    assert_eq!(table.rows[1][1].text, "2_000");
    assert_eq!(table.rows[2][0].text, "-----");
    assert_eq!(table.rows[3][0].text, "TOTAL");
    assert_eq!(table.rows[3][0].style, CellStyle::Highlight);
    assert_eq!(table.rows[3][1].text, "2_001");
    assert_eq!(table.rows[3][2].text, "2_003");
    assert_eq!(table.rows[3][3].text, "2_002");
}

#[test]
fn latency_benchmark_aggregates() {
    let mut l = LatencyBenchmark::new();
    l.push(10);
    l.push(30);
    l.push(21);
    assert_eq!(l.min(), 10);
    assert_eq!(l.max(), 30);
    // (10 + 30 + 21) / 3 rounded down.
    assert_eq!(l.avg(), 20);
}

#[test]
fn latency_benchmark_empty_min_max_are_zero() {
    let l = LatencyBenchmark::new();
    assert_eq!(l.min(), 0);
    assert_eq!(l.max(), 0);
}

#[test]
fn latency_benchmark_ops_record() {
    let mut l = LatencyBenchmark::new();
    l.op_start();
    l.op_finish();
    assert_eq!(l.latencies.len(), 1);
    l.clear();
    assert!(l.latencies.is_empty());
}
