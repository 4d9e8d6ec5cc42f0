//! The extraction pipeline: a strictly sequential state machine from the
//! request to the validated result.  The pipeline makes every decision —
//! validation, cache naming, planning, the selection expression, the final
//! count check — while the caller performs the external work (resolving
//! the path, preparing the directory, running the probe and the decoder,
//! listing the directory) and feeds each outcome back in as an event.

use vstd::prelude::*;
use crate::collect::{collect, collect_post};
use crate::hashing::{cache_dir_name, dir_name_of};
use crate::plan::{plan, plan_result};
use crate::probe::{parse_frame_count, parse_result};
use crate::select::{select_expr, select_expr_of, output_pattern};
use crate::ExtractError;

verus! {

/// What the external probe invocation came back with.
pub enum ProbeOutcome {
    /// The probe could not be run, or exited with failure, or the file
    /// has no video stream to report on.
    Failed,
    /// The probe ran but its output was not valid text.
    NotText,
    /// The probe's textual output.
    Text(String),
}

/// The outcome of one external action, handed back to the pipeline.
pub enum Event {
    /// Start the request.
    Begin,
    /// The source path was canonicalized — or could not be (`None`).
    Canonicalized { canonical: Option<String> },
    /// The cache directory exists now (created, or already there) — or
    /// could not be prepared.
    DirectoryReady { ok: bool },
    /// The probe ran.
    Probed { outcome: ProbeOutcome },
    /// The decoder ran; `ok` iff it exited successfully.
    Decoded { ok: bool },
    /// The names of the entries found in the cache directory.
    Listed { names: Vec<String> },
}

/// The next external action the caller is asked to perform.
pub enum Action {
    /// Canonicalize the source path.
    Canonicalize,
    /// Ensure the cache directory of this name exists under the system
    /// temporary root: create it if absent; finding it already there is
    /// success, not an error.
    EnsureDirectory { dir_name: String },
    /// Probe the source's primary video stream for its exact frame count.
    Probe,
    /// Run the decoder over the source with this selection expression,
    /// writing files named by the fixed-width pattern into the cache
    /// directory.
    Decode { dir_name: String, select: String, pattern: String, total_frames: u64 },
    /// List the names of the entries in the cache directory.
    ListDirectory { dir_name: String },
    /// The request is finished; take the outcome from the stage.
    Stop,
}

/// Where a request stands.
pub enum Stage {
    /// Nothing has happened yet.
    Start,
    /// Waiting for the canonical source path.
    Resolving,
    /// Waiting for the cache directory to exist.
    Preparing { dir_name: String },
    /// Waiting for the probe's outcome.
    Counting { dir_name: String },
    /// Waiting for the decoder to finish.
    Decoding { dir_name: String },
    /// Waiting for the directory listing.
    Collecting { dir_name: String },
    /// Done: the ordered frame paths, or the typed error.
    Finished { outcome: Result<Vec<String>, ExtractError> },
}

/// One frame-extraction request being driven through its stages.
pub struct Pipeline {
    /// How many frames were asked for.
    pub requested: usize,
    /// Whether the decoder's own diagnostic output is to be suppressed.
    /// This never suppresses the pipeline's own errors.
    pub quiet: bool,
    /// Where the request stands.
    pub stage: Stage,
}

/// Which event answers which stage: the pipeline is strictly sequential,
/// so each stage waits for exactly one kind of outcome.
pub open spec fn event_fits(stage: Stage, event: Event) -> bool {
    match (stage, event) {
        (Stage::Start, Event::Begin) => true,
        (Stage::Resolving, Event::Canonicalized { .. }) => true,
        (Stage::Preparing { .. }, Event::DirectoryReady { .. }) => true,
        (Stage::Counting { .. }, Event::Probed { .. }) => true,
        (Stage::Decoding { .. }, Event::Decoded { .. }) => true,
        (Stage::Collecting { .. }, Event::Listed { .. }) => true,
        _ => false,
    }
}

/// Everything one step decides, for every stage and event: which stage
/// follows and which action the caller is asked to perform next.
pub open spec fn step_post(pre: Pipeline, event: Event, post: Pipeline, action: Action) -> bool {
    match (pre.stage, event) {
        (Stage::Start, Event::Begin) => {
            if pre.requested == 0 {
                &&& post.stage == (Stage::Finished {
                    outcome: Err::<Vec<String>, ExtractError>(ExtractError::ZeroFramesRequested),
                })
                &&& action == Action::Stop
            } else {
                &&& post.stage == Stage::Resolving
                &&& action == Action::Canonicalize
            }
        },
        (Stage::Resolving, Event::Canonicalized { canonical }) => {
            match canonical {
                None => {
                    &&& post.stage == (Stage::Finished {
                        outcome: Err::<Vec<String>, ExtractError>(ExtractError::PathResolution),
                    })
                    &&& action == Action::Stop
                },
                Some(path) => {
                    &&& (post.stage matches Stage::Preparing { dir_name }
                        && dir_name@ == dir_name_of(path@))
                    &&& (action matches Action::EnsureDirectory { dir_name }
                        && dir_name@ == dir_name_of(path@))
                },
            }
        },
        (Stage::Preparing { dir_name }, Event::DirectoryReady { ok }) => {
            if ok {
                &&& (post.stage matches Stage::Counting { dir_name: d } && d@ == dir_name@)
                &&& action == Action::Probe
            } else {
                &&& post.stage == (Stage::Finished {
                    outcome: Err::<Vec<String>, ExtractError>(ExtractError::PathResolution),
                })
                &&& action == Action::Stop
            }
        },
        (Stage::Counting { dir_name }, Event::Probed { outcome }) => {
            match outcome {
                ProbeOutcome::Failed => {
                    &&& post.stage == (Stage::Finished {
                        outcome: Err::<Vec<String>, ExtractError>(ExtractError::ProbeExecution),
                    })
                    &&& action == Action::Stop
                },
                ProbeOutcome::NotText => {
                    &&& post.stage == (Stage::Finished {
                        outcome: Err::<Vec<String>, ExtractError>(ExtractError::ProbeParse),
                    })
                    &&& action == Action::Stop
                },
                ProbeOutcome::Text(out) => {
                    match parse_result(out@) {
                        Err(e) => {
                            &&& post.stage == (Stage::Finished {
                                outcome: Err::<Vec<String>, ExtractError>(e),
                            })
                            &&& action == Action::Stop
                        },
                        Ok(total) => {
                            match plan_result(total, pre.requested) {
                                Err(e) => {
                                    &&& post.stage == (Stage::Finished {
                                        outcome: Err::<Vec<String>, ExtractError>(e),
                                    })
                                    &&& action == Action::Stop
                                },
                                Ok(indices) => {
                                    &&& (post.stage matches Stage::Decoding { dir_name: d }
                                        && d@ == dir_name@)
                                    &&& (action matches Action::Decode {
                                        dir_name: d,
                                        select,
                                        pattern,
                                        total_frames,
                                    } && d@ == dir_name@ && select@ == select_expr_of(indices)
                                        && pattern@ == "frame_%04d.png"@ && total_frames == total)
                                },
                            }
                        },
                    }
                },
            }
        },
        (Stage::Decoding { dir_name }, Event::Decoded { ok }) => {
            if ok {
                &&& (post.stage matches Stage::Collecting { dir_name: d } && d@ == dir_name@)
                &&& (action matches Action::ListDirectory { dir_name: d } && d@ == dir_name@)
            } else {
                &&& post.stage == (Stage::Finished {
                    outcome: Err::<Vec<String>, ExtractError>(ExtractError::DecodeExecution),
                })
                &&& action == Action::Stop
            }
        },
        (Stage::Collecting { dir_name: _ }, Event::Listed { names }) => {
            &&& (post.stage matches Stage::Finished { outcome } && collect_post(
                names@,
                pre.requested,
                outcome,
            ))
            &&& action == Action::Stop
        },
        _ => false,
    }
}

impl Pipeline {
    /// A fresh request for `requested` frames.
    pub fn new(requested: usize, quiet: bool) -> (p: Pipeline)
        ensures
            p.requested == requested,
            p.quiet == quiet,
            p.stage == Stage::Start,
    {
        Pipeline { requested, quiet, stage: Stage::Start }
    }

    /// Consumes the outcome of the previous external action and decides
    /// the following stage and the next action, exactly as `step_post`
    /// says for every stage and event.  The request's parameters never
    /// change along the way.
    pub fn step(self, event: Event) -> (r: (Pipeline, Action))
        requires
            event_fits(self.stage, event),
        ensures
            step_post(self, event, r.0, r.1),
            r.0.requested == self.requested,
            r.0.quiet == self.quiet,
    {
        let Pipeline { requested, quiet, stage } = self;
        match (stage, event) {
            (Stage::Start, Event::Begin) => {
                if requested == 0 {
                    (
                        Pipeline {
                            requested,
                            quiet,
                            stage: Stage::Finished {
                                outcome: Err(ExtractError::ZeroFramesRequested),
                            },
                        },
                        Action::Stop,
                    )
                } else {
                    (Pipeline { requested, quiet, stage: Stage::Resolving }, Action::Canonicalize)
                }
            },
            (Stage::Resolving, Event::Canonicalized { canonical }) => {
                match canonical {
                    None => (
                        Pipeline {
                            requested,
                            quiet,
                            stage: Stage::Finished {
                                outcome: Err(ExtractError::PathResolution),
                            },
                        },
                        Action::Stop,
                    ),
                    Some(path) => {
                        let dir_name = cache_dir_name(path.as_str());
                        let dir_name_again = dir_name.clone();
                        (
                            Pipeline {
                                requested,
                                quiet,
                                stage: Stage::Preparing { dir_name },
                            },
                            Action::EnsureDirectory { dir_name: dir_name_again },
                        )
                    },
                }
            },
            (Stage::Preparing { dir_name }, Event::DirectoryReady { ok }) => {
                if ok {
                    (
                        Pipeline { requested, quiet, stage: Stage::Counting { dir_name } },
                        Action::Probe,
                    )
                } else {
                    (
                        Pipeline {
                            requested,
                            quiet,
                            stage: Stage::Finished {
                                outcome: Err(ExtractError::PathResolution),
                            },
                        },
                        Action::Stop,
                    )
                }
            },
            (Stage::Counting { dir_name }, Event::Probed { outcome }) => {
                match outcome {
                    ProbeOutcome::Failed => (
                        Pipeline {
                            requested,
                            quiet,
                            stage: Stage::Finished {
                                outcome: Err(ExtractError::ProbeExecution),
                            },
                        },
                        Action::Stop,
                    ),
                    ProbeOutcome::NotText => (
                        Pipeline {
                            requested,
                            quiet,
                            stage: Stage::Finished { outcome: Err(ExtractError::ProbeParse) },
                        },
                        Action::Stop,
                    ),
                    ProbeOutcome::Text(out) => {
                        match parse_frame_count(out.as_str()) {
                            Err(e) => (
                                Pipeline {
                                    requested,
                                    quiet,
                                    stage: Stage::Finished { outcome: Err(e) },
                                },
                                Action::Stop,
                            ),
                            Ok(total) => {
                                match plan(total, requested) {
                                    Err(e) => (
                                        Pipeline {
                                            requested,
                                            quiet,
                                            stage: Stage::Finished { outcome: Err(e) },
                                        },
                                        Action::Stop,
                                    ),
                                    Ok(indices) => {
                                        let select = select_expr(&indices);
                                        let pattern = output_pattern();
                                        let dir_name_again = dir_name.clone();
                                        (
                                            Pipeline {
                                                requested,
                                                quiet,
                                                stage: Stage::Decoding { dir_name },
                                            },
                                            Action::Decode {
                                                dir_name: dir_name_again,
                                                select,
                                                pattern,
                                                total_frames: total,
                                            },
                                        )
                                    },
                                }
                            },
                        }
                    },
                }
            },
            (Stage::Decoding { dir_name }, Event::Decoded { ok }) => {
                if ok {
                    let dir_name_again = dir_name.clone();
                    (
                        Pipeline { requested, quiet, stage: Stage::Collecting { dir_name } },
                        Action::ListDirectory { dir_name: dir_name_again },
                    )
                } else {
                    (
                        Pipeline {
                            requested,
                            quiet,
                            stage: Stage::Finished {
                                outcome: Err(ExtractError::DecodeExecution),
                            },
                        },
                        Action::Stop,
                    )
                }
            },
            (Stage::Collecting { dir_name: _ }, Event::Listed { names }) => {
                let outcome = collect(names, requested);
                (
                    Pipeline { requested, quiet, stage: Stage::Finished { outcome } },
                    Action::Stop,
                )
            },
            (other_stage, _) => {
                proof {
                    assert(false);
                }
                (Pipeline { requested, quiet, stage: other_stage }, Action::Stop)
            },
        }
    }
}

/// A request for zero frames is rejected with the validation error at the
/// very first step, before any external action is ever asked for.
pub proof fn lemma_zero_rejected_at_start(
    pre: Pipeline,
    event: Event,
    post: Pipeline,
    action: Action,
)
    requires
        step_post(pre, event, post, action),
        pre.stage == Stage::Start,
        pre.requested == 0,
    ensures
        action == Action::Stop,
        post.stage == (Stage::Finished {
            outcome: Err::<Vec<String>, ExtractError>(ExtractError::ZeroFramesRequested),
        }),
{
}

/// The pipeline never asks for a decode unless the request was valid:
/// at least one frame, and no more frames than the video holds.  An
/// empty or oversized request finishes with its typed error before the
/// extraction step is ever reached.
pub proof fn lemma_decode_only_for_valid_requests(
    pre: Pipeline,
    event: Event,
    post: Pipeline,
    action: Action,
)
    requires
        step_post(pre, event, post, action),
    ensures
        action matches Action::Decode { total_frames, .. } ==> 1 <= pre.requested
            && pre.requested as int <= total_frames as int,
{
}

} // verus!
