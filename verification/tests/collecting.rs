use framepick::collect::{collect, is_frame_file};
use framepick::ExtractError;

fn strings(names: &[&str]) -> Vec<String> {
    names.iter().map(|s| s.to_string()).collect()
}

#[test]
fn collect_sorts_frame_files() {
    let listing = strings(&[
        "frame_0003.png",
        "frame_0001.png",
        "frame_0002.png",
    ]);
    let got = collect(listing, 3).unwrap();
    assert_eq!(
        got,
        strings(&["frame_0001.png", "frame_0002.png", "frame_0003.png"])
    );
}

#[test]
fn collect_filters_foreign_entries() {
    let listing = strings(&[
        "frame_0002.png",
        "notes.txt",
        "frame_0001.png",
        "frame_0001.jpg",
        "other_0001.png",
        ".png",
    ]);
    let got = collect(listing, 2).unwrap();
    assert_eq!(got, strings(&["frame_0001.png", "frame_0002.png"]));
}

#[test]
fn collect_reports_count_mismatch() {
    let listing = strings(&[
        "frame_0001.png",
        "frame_0002.png",
        "frame_0003.png",
        "frame_0004.png",
    ]);
    assert_eq!(
        collect(listing, 5),
        Err(ExtractError::CountMismatch { expected: 5, actual: 4 })
    );
}

#[test]
fn collect_of_empty_directory() {
    assert_eq!(collect(vec![], 0).unwrap(), Vec::<String>::new());
    assert_eq!(
        collect(vec![], 1),
        Err(ExtractError::CountMismatch { expected: 1, actual: 0 })
    );
}

#[test]
fn frame_file_names_are_recognized() {
    assert!(is_frame_file("frame_0001.png"));
    assert!(is_frame_file("frame_.png"));
    assert!(!is_frame_file("frame_0001.jpg"));
    assert!(!is_frame_file("Frame_0001.png"));
    assert!(!is_frame_file("x_frame_0001.png"));
    assert!(!is_frame_file("frame_0001png"));
    assert!(!is_frame_file(""));
}
