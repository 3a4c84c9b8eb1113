use fclones_report::cli::{extract_error_cause, join_cause_lines};

#[test]
fn test_extract_error_cause_strips_error_prefix() {
    assert_eq!(extract_error_cause("error: foo"), "foo");
}

#[test]
fn test_extract_error_cause_joins_lines() {
    assert_eq!(extract_error_cause("line1:\n    line2"), "line1: line2");
}

#[test]
fn test_extract_error_cause_strips_usage() {
    assert_eq!(
        extract_error_cause("error message\n\nUSAGE:\n blah blah blah"),
        "error message"
    );
}

#[test]
fn extract_error_cause_drops_color_codes() {
    assert_eq!(
        extract_error_cause("\u{1b}[1;31merror:\u{1b}[0m bad flag\n"),
        "bad flag"
    );
}

#[test]
fn join_cause_lines_trims_and_skips_blank_lines() {
    assert_eq!(join_cause_lines("  a  \n\n b\nUSAGE: x\nc"), "a b");
    assert_eq!(join_cause_lines(""), "");
    assert_eq!(join_cause_lines("USAGE:"), "");
}
