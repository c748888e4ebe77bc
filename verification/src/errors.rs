use vstd::prelude::*;

verus! {

/// The failure conditions of the engine.  Every operation either succeeds
/// deterministically or fails immediately with one of these; nothing is
/// retried or swallowed.
#[derive(Debug, Clone)]
pub enum BenchmarkError {
    /// `start` was given a stage name that is already present.
    DuplicateStage(String),
    /// `finish` or a reference-stage lookup was given a name that is absent.
    UnknownStage(String),
    /// `finish_current` was called while no stage was open.
    NoActiveStage,
    /// Profile statistics were requested with zero recorded iterations.
    EmptyProfile,
}

} // verus!
