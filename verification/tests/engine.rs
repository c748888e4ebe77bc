use bma_benchmark::Benchmark;
use bma_benchmark::BenchmarkError;
use bma_benchmark::BenchmarkResult;
use bma_benchmark::StagedBenchmark;

#[test]
fn result_speed_is_successes_per_second() {
    // 100 iterations over exactly two seconds: 50 per second.
    let r = BenchmarkResult::of(2_000_000_000, 100, 0);
    assert_eq!(r.speed, 50);
    assert_eq!(r.iterations, 100);
    assert_eq!(r.errors, 0);
}

#[test]
fn result_speed_subtracts_errors() {
    // 100 iterations, 25 failed, over one second: 75 successes per second.
    let r = BenchmarkResult::of(1_000_000_000, 100, 25);
    assert_eq!(r.speed, 75);
}

#[test]
fn result_speed_zero_elapsed_is_zero() {
    let r = BenchmarkResult::of(0, 100, 0);
    assert_eq!(r.speed, 0);
}

#[test]
fn result_speed_clamps_at_u32_max() {
    // u32::MAX successes in one nanosecond overflows the u32 range.
    let r = BenchmarkResult::of(1, u32::MAX, 0);
    assert_eq!(r.speed, u32::MAX);
}

#[test]
fn result_speed_rounds_down() {
    // 3 successes over 2 seconds: 1.5 per second, reported as 1.
    let r = BenchmarkResult::of(2_000_000_000, 3, 0);
    assert_eq!(r.speed, 1);
}

#[test]
fn result_more_errors_than_iterations_counts_no_successes() {
    let r = BenchmarkResult::of(1_000_000_000, 3, 7);
    assert_eq!(r.speed, 0);
}

#[test]
fn benchmark_finish_overrides_counters() {
    let mut b = Benchmark::new(100);
    b.finish(None, Some(5));
    let r = b.result0();
    assert_eq!(r.iterations, 100);
    assert_eq!(r.errors, 5);
    // The elapsed time is whatever the clock gave; the speed follows it.
    let expected = BenchmarkResult::of(r.elapsed_ns, 100, 5);
    assert_eq!(r.speed, expected.speed);
}

#[test]
fn benchmark_new_presets_iterations() {
    let b = Benchmark::new(42);
    assert_eq!(b.iterations, 42);
    assert_eq!(b.set_iterations, 42);
    assert_eq!(b.errors, 0);
    assert!(b.elapsed.is_none());
}

#[test]
fn benchmark_increment_counts() {
    let mut b = Benchmark::new0();
    b.increment();
    b.increment();
    b.increment_errors();
    assert_eq!(b.iterations, 2);
    assert_eq!(b.errors, 1);
}

#[test]
fn benchmark_reset_restores_preset_and_restarts() {
    let mut b = Benchmark::new(10);
    b.increment();
    b.increment_errors();
    b.finish0();
    b.reset();
    assert_eq!(b.iterations, 10);
    assert_eq!(b.errors, 0);
    assert!(b.elapsed.is_none());
}

#[test]
fn reset_timer_measures_less_than_unreset_timer() {
    // The older timer keeps accumulating; a reset timer starts over, so the
    // older one must show strictly more elapsed time afterwards.
    let older = Benchmark::new0();
    let mut fresh = Benchmark::new0();
    // Let a measurable amount of time pass on both timers.
    loop {
        if older.result0().elapsed_ns > 5_000_000 {
            break;
        }
    }
    fresh.reset();
    let fresh_elapsed = fresh.result0().elapsed_ns;
    let older_elapsed = older.result0().elapsed_ns;
    assert!(older_elapsed > fresh_elapsed);
}

#[test]
fn duplicate_stage_is_rejected() {
    let mut sb = StagedBenchmark::new();
    assert!(sb.start("a").is_ok());
    match sb.start("a") {
        Err(BenchmarkError::DuplicateStage(name)) => assert_eq!(name, "a"),
        other => panic!("expected DuplicateStage, got {:?}", other),
    }
}

#[test]
fn unknown_stage_is_rejected() {
    let mut sb = StagedBenchmark::new();
    match sb.finish("missing", 10, 0) {
        Err(BenchmarkError::UnknownStage(name)) => assert_eq!(name, "missing"),
        other => panic!("expected UnknownStage, got {:?}", other),
    }
}

#[test]
fn finish_current_without_start_is_rejected() {
    let mut sb = StagedBenchmark::new();
    match sb.finish_current(10, 0) {
        Err(BenchmarkError::NoActiveStage) => {}
        other => panic!("expected NoActiveStage, got {:?}", other),
    }
}

#[test]
fn finish_current_closes_the_last_started_stage() {
    let mut sb = StagedBenchmark::new();
    sb.start("only").unwrap();
    assert!(sb.finish_current(100, 1).is_ok());
    assert!(sb.current_stage.is_none());
    let results = sb.results();
    assert_eq!(results.len(), 1);
    assert_eq!(results[0].0, "only");
    assert_eq!(results[0].1.iterations, 100);
    assert_eq!(results[0].1.errors, 1);
}

#[test]
fn table_rows_are_sorted_by_stage_name() {
    let mut sb = StagedBenchmark::new();
    sb.start("z").unwrap();
    sb.start("a").unwrap();
    sb.finish("z", 100, 0).unwrap();
    sb.finish("a", 100, 0).unwrap();
    let table = sb.result_table();
    assert_eq!(table.rows.len(), 2);
    assert_eq!(table.rows[0][0].text, "a");
    assert_eq!(table.rows[1][0].text, "z");
}

#[test]
fn reset_clears_stages_and_current() {
    let mut sb = StagedBenchmark::new();
    sb.start("a").unwrap();
    sb.reset();
    assert_eq!(sb.stages.len(), 0);
    assert!(sb.current_stage.is_none());
    assert!(sb.start("a").is_ok());
}

#[test]
fn reference_table_rejects_unknown_stage() {
    let mut sb = StagedBenchmark::new();
    sb.start("a").unwrap();
    sb.finish("a", 10, 0).unwrap();
    match sb.result_table_for("nope") {
        Err(BenchmarkError::UnknownStage(name)) => assert_eq!(name, "nope"),
        other => panic!("expected UnknownStage, got {:?}", other),
    }
}

#[test]
fn many_stages_stay_sorted() {
    let mut sb = StagedBenchmark::new();
    for name in ["pear", "apple", "fig", "banana", "date"] {
        sb.start(name).unwrap();
        sb.finish_current(10, 0).unwrap();
    }
    let names: Vec<&str> = sb.stages.iter().map(|e| e.name.as_str()).collect();
    assert_eq!(names, ["apple", "banana", "date", "fig", "pear"]);
    let table = sb.result_table();
    assert_eq!(table.rows.len(), 5);
    assert_eq!(table.rows[0][0].text, "apple");
    assert_eq!(table.rows[4][0].text, "pear");
}

#[test]
fn finish_by_name_clears_matching_current() {
    let mut sb = StagedBenchmark::new();
    sb.start("a").unwrap();
    sb.finish("a", 10, 0).unwrap();
    assert!(sb.current_stage.is_none());
    // Finishing a non-current stage leaves the marker standing.
    sb.start("b").unwrap();
    sb.start("c").unwrap();
    sb.finish("b", 10, 0).unwrap();
    assert_eq!(sb.current_stage.as_deref(), Some("c"));
}
