use bma_benchmark::numfmt::group_u128;
use bma_benchmark::numfmt::group_u64;
use bma_benchmark::numfmt::rounded_div_u64;
use bma_benchmark::numfmt::to_decimal;
use bma_benchmark::numfmt::to_fixed3;
use bma_benchmark::numfmt::to_padded;
use bma_benchmark::numfmt::to_percent2;
use bma_benchmark::table::separator_line;
use bma_benchmark::Benchmark;
use bma_benchmark::BenchmarkResult;

#[test]
fn grouping_inserts_underscores_every_three_digits() {
    assert_eq!(group_u64(0), "0");
    assert_eq!(group_u64(999), "999");
    assert_eq!(group_u64(1000), "1_000");
    assert_eq!(group_u64(1_234_567), "1_234_567");
    assert_eq!(group_u64(u64::MAX), "18_446_744_073_709_551_615");
    assert_eq!(group_u128(1_000_000_000_000_000_000_000), "1_000_000_000_000_000_000_000");
}

#[test]
fn decimal_and_padding() {
    assert_eq!(to_decimal(0), "0");
    assert_eq!(to_decimal(90210), "90210");
    assert_eq!(to_padded(7, 3), "007");
    assert_eq!(to_padded(345, 3), "345");
}

#[test]
fn fixed_point_three_decimals() {
    assert_eq!(to_fixed3(0), "0.000");
    assert_eq!(to_fixed3(12034), "12.034");
    assert_eq!(to_fixed3(999), "0.999");
}

#[test]
fn percent_two_decimals() {
    assert_eq!(to_percent2(0), "0.00%");
    assert_eq!(to_percent2(1050), "10.50%");
    assert_eq!(to_percent2(5), "0.05%");
}

#[test]
fn rounded_division_half_away_from_zero() {
    assert_eq!(rounded_div_u64(10, 4), 3);
    assert_eq!(rounded_div_u64(9, 4), 2);
    assert_eq!(rounded_div_u64(10, 0), 0);
    assert_eq!(rounded_div_u64(1_500_000, 1_000_000), 2);
    assert_eq!(rounded_div_u64(1_499_999, 1_000_000), 1);
}

#[test]
fn result_text_without_errors() {
    let r = BenchmarkResult::of(2_000_000_000, 100, 0);
    assert_eq!(
        r.to_text(),
        "Iterations: 100, success: 100, errors: None\n\
         Elapsed:\n 2.000 secs (2000.000 msecs)\n 50 iters/s\n 20_000_000 ns per iter"
    );
}

#[test]
fn result_text_with_errors_shows_rate() {
    let r = BenchmarkResult::of(1_000_000_000, 100, 5);
    assert_eq!(
        r.to_text(),
        "Iterations: 100, success: 95, errors: 5, error rate: 5.00%\n\
         Elapsed:\n 1.000 secs (1000.000 msecs)\n 95 iters/s\n 10_526_315 ns per iter"
    );
}

#[test]
fn benchmark_to_string_for_uses_overrides() {
    let mut b = Benchmark::new0();
    b.finish(Some(10), Some(0));
    let text = b.to_string_for(Some(10), Some(0));
    assert!(text.starts_with("Iterations: 10, success: 10, errors: None"));
}

#[test]
fn separator_pads_title_with_dashes() {
    let s = separator_line("--- results ", 20);
    assert_eq!(s, "--- results --------");
    assert_eq!(s.chars().count(), 20);
}

#[test]
fn separator_keeps_wide_title() {
    let s = separator_line("a very long title here", 10);
    assert_eq!(s, "a very long title here");
}

#[test]
fn result_text_with_zero_speed() {
    // Zero elapsed time: the speed is defined as zero, and so is the
    // per-iteration time.
    let r = BenchmarkResult::of(0, 100, 0);
    assert_eq!(
        r.to_text(),
        "Iterations: 100, success: 100, errors: None\n\
         Elapsed:\n 0.000 secs (0.000 msecs)\n 0 iters/s\n 0 ns per iter"
    );
}
