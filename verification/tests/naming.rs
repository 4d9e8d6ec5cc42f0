use framepick::hashing::cache_dir_name;
use framepick::select::{frame_filename, output_pattern, select_expr};

#[test]
fn cache_dir_name_is_prefixed_digest() {
    // SHA-256 of "abc" is the well-known digest below.
    let name = cache_dir_name("abc");
    assert_eq!(
        name,
        "videohash_ba7816bf8f01cfea414140de5dae2223b00361a396177a9cb410ff61f20015ad"
    );
}

#[test]
fn cache_dir_name_is_deterministic() {
    let a = cache_dir_name("/videos/clip.mp4");
    let b = cache_dir_name("/videos/clip.mp4");
    assert_eq!(a, b);
    assert_eq!(a.len(), 74);
    assert!(a.starts_with("videohash_"));
}

#[test]
fn cache_dir_name_distinguishes_paths() {
    let a = cache_dir_name("/videos/clip.mp4");
    let b = cache_dir_name("/videos/clip2.mp4");
    assert_ne!(a, b);
}

#[test]
fn select_expr_joins_equality_terms() {
    assert_eq!(select_expr(&vec![30]), "eq(n\\,30)");
    assert_eq!(
        select_expr(&vec![0, 24, 49, 74, 99]),
        "eq(n\\,0)+eq(n\\,24)+eq(n\\,49)+eq(n\\,74)+eq(n\\,99)"
    );
    assert_eq!(select_expr(&vec![]), "");
}

#[test]
fn frame_filenames_are_fixed_width() {
    assert_eq!(frame_filename(1), "frame_0001.png");
    assert_eq!(frame_filename(42), "frame_0042.png");
    assert_eq!(frame_filename(123), "frame_0123.png");
    assert_eq!(frame_filename(9999), "frame_9999.png");
    assert_eq!(frame_filename(10000), "frame_10000.png");
}

#[test]
fn output_pattern_matches_the_filenames() {
    assert_eq!(output_pattern(), "frame_%04d.png");
}
