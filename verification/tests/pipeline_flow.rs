use framepick::hashing::cache_dir_name;
use framepick::pipeline::{Action, Event, Pipeline, ProbeOutcome, Stage};
use framepick::ExtractError;

/// What a driven request did: its outcome, the kinds of external actions
/// it asked for (in order), and what the decode action carried.
struct Run {
    outcome: Result<Vec<String>, ExtractError>,
    asked: Vec<&'static str>,
    dir_names: Vec<String>,
    decode_select: Option<String>,
    decode_pattern: Option<String>,
    decode_total: Option<u64>,
}

/// Drives one request against a fake capability: the canonical path (or
/// None when resolution fails), whether the directory can be prepared,
/// the probe's outcome, whether the decoder succeeds, and the directory
/// listing seen afterwards.
fn run_pipeline(
    requested: usize,
    canonical: Option<&str>,
    dir_ok: bool,
    probe: ProbeOutcome,
    decode_ok: bool,
    listing: Vec<String>,
) -> Run {
    let mut probe = Some(probe);
    let mut listing = Some(listing);
    let mut asked = Vec::new();
    let mut dir_names = Vec::new();
    let mut decode_select = None;
    let mut decode_pattern = None;
    let mut decode_total = None;
    let mut p = Pipeline::new(requested, true);
    let mut event = Event::Begin;
    loop {
        let (next, action) = p.step(event);
        p = next;
        event = match action {
            Action::Canonicalize => {
                asked.push("canonicalize");
                Event::Canonicalized { canonical: canonical.map(|s| s.to_string()) }
            }
            Action::EnsureDirectory { dir_name } => {
                asked.push("ensure_directory");
                dir_names.push(dir_name);
                Event::DirectoryReady { ok: dir_ok }
            }
            Action::Probe => {
                asked.push("probe");
                Event::Probed { outcome: probe.take().expect("probe asked twice") }
            }
            Action::Decode { dir_name, select, pattern, total_frames } => {
                asked.push("decode");
                dir_names.push(dir_name);
                decode_select = Some(select);
                decode_pattern = Some(pattern);
                decode_total = Some(total_frames);
                Event::Decoded { ok: decode_ok }
            }
            Action::ListDirectory { dir_name } => {
                asked.push("list_directory");
                dir_names.push(dir_name);
                Event::Listed { names: listing.take().expect("listing asked twice") }
            }
            Action::Stop => break,
        };
    }
    match p.stage {
        Stage::Finished { outcome } => Run {
            outcome,
            asked,
            dir_names,
            decode_select,
            decode_pattern,
            decode_total,
        },
        _ => panic!("the pipeline stopped without finishing"),
    }
}

fn strings(names: &[&str]) -> Vec<String> {
    names.iter().map(|s| s.to_string()).collect()
}

#[test]
fn scenario_single_frame_of_sixty() {
    // 60 frames, one requested: the single planned index is 60 / 2 = 30.
    let run = run_pipeline(
        1,
        Some("/videos/a.mp4"),
        true,
        ProbeOutcome::Text("60\n".to_string()),
        true,
        strings(&["frame_0001.png"]),
    );
    let paths = run.outcome.unwrap();
    assert_eq!(paths.len(), 1);
    assert_eq!(run.decode_select.unwrap(), "eq(n\\,30)");
    assert_eq!(run.decode_total.unwrap(), 60);
}

#[test]
fn scenario_five_frames_of_a_hundred() {
    // 100 frames, five requested: floor(i * 99 / 4) plans 0, 24, 49, 74, 99;
    // the result comes back with five paths in ascending file name order.
    let run = run_pipeline(
        5,
        Some("/videos/b.mp4"),
        true,
        ProbeOutcome::Text("100\n".to_string()),
        true,
        strings(&[
            "frame_0004.png",
            "frame_0001.png",
            "frame_0005.png",
            "frame_0002.png",
            "frame_0003.png",
        ]),
    );
    assert_eq!(
        run.decode_select.unwrap(),
        "eq(n\\,0)+eq(n\\,24)+eq(n\\,49)+eq(n\\,74)+eq(n\\,99)"
    );
    let paths = run.outcome.unwrap();
    assert_eq!(
        paths,
        strings(&[
            "frame_0001.png",
            "frame_0002.png",
            "frame_0003.png",
            "frame_0004.png",
            "frame_0005.png",
        ])
    );
}

#[test]
fn scenario_zero_frames_rejected_before_any_external_call() {
    let run = run_pipeline(
        0,
        Some("/videos/c.mp4"),
        true,
        ProbeOutcome::Text("100\n".to_string()),
        true,
        strings(&[]),
    );
    assert_eq!(run.outcome, Err(ExtractError::ZeroFramesRequested));
    assert!(run.asked.is_empty());
}

#[test]
fn scenario_partial_decode_is_a_count_mismatch() {
    // the decoder produced only four files where five were expected
    let run = run_pipeline(
        5,
        Some("/videos/d.mp4"),
        true,
        ProbeOutcome::Text("100\n".to_string()),
        true,
        strings(&[
            "frame_0001.png",
            "frame_0002.png",
            "frame_0003.png",
            "frame_0004.png",
        ]),
    );
    assert_eq!(
        run.outcome,
        Err(ExtractError::CountMismatch { expected: 5, actual: 4 })
    );
}

#[test]
fn oversized_request_stops_before_decode() {
    let run = run_pipeline(
        5,
        Some("/videos/e.mp4"),
        true,
        ProbeOutcome::Text("3\n".to_string()),
        true,
        strings(&[]),
    );
    assert_eq!(
        run.outcome,
        Err(ExtractError::InsufficientFrames { requested: 5, available: 3 })
    );
    assert!(!run.asked.contains(&"decode"));
    assert!(!run.asked.contains(&"list_directory"));
}

#[test]
fn probe_failure_is_fatal() {
    let run = run_pipeline(
        2,
        Some("/videos/f.mp4"),
        true,
        ProbeOutcome::Failed,
        true,
        strings(&[]),
    );
    assert_eq!(run.outcome, Err(ExtractError::ProbeExecution));
    assert!(!run.asked.contains(&"decode"));
}

#[test]
fn unreadable_probe_output_is_a_parse_error() {
    let run = run_pipeline(
        2,
        Some("/videos/g.mp4"),
        true,
        ProbeOutcome::Text("n/a".to_string()),
        true,
        strings(&[]),
    );
    assert_eq!(run.outcome, Err(ExtractError::ProbeParse));
    let run = run_pipeline(2, Some("/videos/g.mp4"), true, ProbeOutcome::NotText, true, vec![]);
    assert_eq!(run.outcome, Err(ExtractError::ProbeParse));
}

#[test]
fn decode_failure_is_fatal() {
    let run = run_pipeline(
        2,
        Some("/videos/h.mp4"),
        true,
        ProbeOutcome::Text("50".to_string()),
        false,
        strings(&[]),
    );
    assert_eq!(run.outcome, Err(ExtractError::DecodeExecution));
    assert!(!run.asked.contains(&"list_directory"));
}

#[test]
fn unpreparable_directory_is_fatal() {
    let run = run_pipeline(
        2,
        Some("/videos/i.mp4"),
        false,
        ProbeOutcome::Text("50".to_string()),
        true,
        strings(&[]),
    );
    assert_eq!(run.outcome, Err(ExtractError::PathResolution));
    assert!(!run.asked.contains(&"probe"));
}

#[test]
fn every_stage_uses_the_same_cache_directory() {
    let run = run_pipeline(
        2,
        Some("/videos/j.mp4"),
        true,
        ProbeOutcome::Text("50".to_string()),
        true,
        strings(&["frame_0001.png", "frame_0002.png"]),
    );
    assert!(run.outcome.is_ok());
    let expected = cache_dir_name("/videos/j.mp4");
    assert_eq!(run.dir_names.len(), 3);
    for name in &run.dir_names {
        assert_eq!(name, &expected);
    }
    assert_eq!(run.decode_pattern.unwrap(), "frame_%04d.png");
}

#[test]
fn test_extract_frames_using_videotools_nonexistent_file() {
    // "nonexistent_video.mp4" cannot be canonicalized, so resolution fails
    let run = run_pipeline(
        3,
        None,
        true,
        ProbeOutcome::Failed,
        true,
        strings(&[]),
    );
    assert!(run.outcome.is_err());
}

#[test]
fn test_get_video_frame_count_invalid_file() {
    // probing "invalid_video.mp4" fails: the probe exits with failure
    let run = run_pipeline(
        1,
        Some("/videos/invalid_video.mp4"),
        true,
        ProbeOutcome::Failed,
        true,
        strings(&[]),
    );
    assert!(run.outcome.is_err());
}

#[test]
fn test_create_output_directory_invalid_path() {
    // "/invalid/path/to/video.mp4" cannot be canonicalized
    let run = run_pipeline(
        1,
        None,
        true,
        ProbeOutcome::Failed,
        true,
        strings(&[]),
    );
    assert_eq!(run.outcome, Err(ExtractError::PathResolution));
}
