use framepick::probe::parse_frame_count;
use framepick::ExtractError;

#[test]
fn parse_plain_number() {
    assert_eq!(parse_frame_count("60"), Ok(60));
    assert_eq!(parse_frame_count("0"), Ok(0));
}

#[test]
fn parse_trims_whitespace() {
    assert_eq!(parse_frame_count("60\n"), Ok(60));
    assert_eq!(parse_frame_count("  123 \r\n"), Ok(123));
    assert_eq!(parse_frame_count("\t7\t"), Ok(7));
}

#[test]
fn parse_accepts_leading_plus() {
    assert_eq!(parse_frame_count("+42"), Ok(42));
}

#[test]
fn parse_rejects_empty_and_garbage() {
    assert_eq!(parse_frame_count(""), Err(ExtractError::ProbeParse));
    assert_eq!(parse_frame_count("   \n"), Err(ExtractError::ProbeParse));
    assert_eq!(parse_frame_count("abc"), Err(ExtractError::ProbeParse));
    assert_eq!(parse_frame_count("12a"), Err(ExtractError::ProbeParse));
    assert_eq!(parse_frame_count("1 2"), Err(ExtractError::ProbeParse));
    assert_eq!(parse_frame_count("-5"), Err(ExtractError::ProbeParse));
    assert_eq!(parse_frame_count("+"), Err(ExtractError::ProbeParse));
}

#[test]
fn parse_respects_the_64_bit_limit() {
    assert_eq!(parse_frame_count("18446744073709551615"), Ok(u64::MAX));
    assert_eq!(
        parse_frame_count("18446744073709551616"),
        Err(ExtractError::ProbeParse)
    );
    assert_eq!(
        parse_frame_count("99999999999999999999999"),
        Err(ExtractError::ProbeParse)
    );
}
