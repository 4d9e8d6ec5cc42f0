//! Deterministic selection and extraction of still frames from a video.
//!
//! The library plans which frame indices to pull from a video, derives a
//! content-addressed cache directory from the source path, builds the
//! selection expression handed to an external decoder, and validates the
//! set of files the decoder produced.  All decisions are made here; the
//! external probe and decode capabilities themselves are driven by the
//! caller, which feeds their outcomes back into the pipeline.

use vstd::prelude::*;

pub mod collect;
pub mod digits;
pub mod hashing;
pub mod order;
pub mod pipeline;
pub mod plan;
pub mod probe;
pub mod select;

verus! {

/// A typed failure of the extraction pipeline.
#[derive(Clone, Copy, Debug, PartialEq, Eq, Structural)]
pub enum ExtractError {
    /// The source file is missing, or its path could not be canonicalized,
    /// or the cache directory could not be prepared.
    PathResolution,
    /// The external probe could not be run or exited with failure.
    ProbeExecution,
    /// The probe's output was not text, or not a single unsigned number.
    ProbeParse,
    /// A request for zero frames is invalid.
    ZeroFramesRequested,
    /// More frames were requested than the video holds (or it holds none).
    InsufficientFrames { requested: usize, available: u64 },
    /// The external decode step could not be run or exited with failure.
    DecodeExecution,
    /// The cache directory held a different number of frames than expected.
    CountMismatch { expected: usize, actual: usize },
}

} // verus!
