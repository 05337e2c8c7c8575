use corpus_stats::checkpoint::{
    load_checkpoint, next_checkpoint, parse_checkpoint, read_number, resume_offset,
    CheckpointLoadError,
};

#[test]
fn checkpoint_is_read_as_a_decimal_number() {
    assert_eq!(parse_checkpoint("42"), 42);
    assert_eq!(parse_checkpoint(" 42\n"), 42);
    assert_eq!(parse_checkpoint("0"), 0);
    assert_eq!(parse_checkpoint("007"), 7);
    assert_eq!(parse_checkpoint("+7"), 7);
    assert_eq!(parse_checkpoint("1234567"), 1234567);
    assert_eq!(parse_checkpoint(&usize::MAX.to_string()), usize::MAX);
}

#[test]
fn unreadable_checkpoint_is_zero() {
    assert_eq!(parse_checkpoint(""), 0);
    assert_eq!(parse_checkpoint("   "), 0);
    assert_eq!(parse_checkpoint("abc"), 0);
    assert_eq!(parse_checkpoint("12a"), 0);
    assert_eq!(parse_checkpoint("-3"), 0);
    assert_eq!(parse_checkpoint("+"), 0);
    assert_eq!(parse_checkpoint("++1"), 0);
    assert_eq!(parse_checkpoint("1 2"), 0);
    assert_eq!(parse_checkpoint("4.5"), 0);
    assert_eq!(parse_checkpoint("99999999999999999999999999"), 0);
    assert_eq!(parse_checkpoint("18446744073709551616"), 0);
}

#[test]
fn checkpoint_agrees_with_the_standard_parser() {
    for text in ["42", " 42\n", "+7", "-3", "", "abc", "007", "18446744073709551615", "18446744073709551616", "+", "1_000"] {
        assert_eq!(parse_checkpoint(text), text.trim().parse::<usize>().unwrap_or(0));
    }
}

#[test]
fn resume_offset_needs_the_flag_and_a_stored_value() {
    assert_eq!(resume_offset(true, Some("12\n")), 12);
    assert_eq!(resume_offset(false, Some("12\n")), 0);
    assert_eq!(resume_offset(true, None), 0);
    assert_eq!(resume_offset(true, Some("corrupt")), 0);
    assert_eq!(resume_offset(false, None), 0);
}

#[test]
fn next_checkpoint_counts_lines_consumed() {
    assert_eq!(next_checkpoint(0, 10), 10);
    assert_eq!(next_checkpoint(4, 10), 10);
    assert_eq!(next_checkpoint(10, 10), 10);
    assert_eq!(next_checkpoint(12, 10), 12);
    assert_eq!(next_checkpoint(0, 0), 0);
}

#[test]
fn loading_tells_a_missing_checkpoint_from_a_corrupt_one() {
    assert_eq!(load_checkpoint(None), Err(CheckpointLoadError::Missing));
    assert_eq!(load_checkpoint(Some("")), Err(CheckpointLoadError::Corrupt));
    assert_eq!(load_checkpoint(Some("x1")), Err(CheckpointLoadError::Corrupt));
    assert_eq!(load_checkpoint(Some("18446744073709551616")), Err(CheckpointLoadError::Corrupt));
    assert_eq!(load_checkpoint(Some(" 31 ")), Ok(31));
    assert_eq!(load_checkpoint(Some("0")), Ok(0));
    assert_eq!(read_number("0"), Some(0));
    assert_eq!(read_number("+0012"), Some(12));
    assert_eq!(read_number("zero"), None);
    assert_eq!(read_number(""), None);
}
