//! A micro-benchmark measurement and aggregation engine.
//!
//! The crate times repeated executions of caller code, aggregates iteration
//! counts, elapsed time and error counts into throughput statistics, and
//! builds comparison tables across named stages.  All durations are carried
//! as plain nanosecond counts; rendering (colors, terminal tables) is left to
//! the embedding application, which receives structured rows and cells.

pub mod benchmark;
pub mod clock;
pub mod errors;
pub mod latency;
pub mod numfmt;
pub mod perf;
pub mod staged;
pub mod stats;
pub mod strutil;
pub mod table;

pub use benchmark::Benchmark;
pub use benchmark::BenchmarkResult;
pub use errors::BenchmarkError;
pub use latency::LatencyBenchmark;
pub use perf::Perf;
pub use staged::StagedBenchmark;
pub use table::Cell;
pub use table::CellStyle;
pub use table::Table;
