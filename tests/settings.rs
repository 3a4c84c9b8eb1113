use fclones_report::files::Timestamp;
use fclones_report::settings::{main_pool_parallelism, resolve_dedupe_settings, DedupeSettings, Parallelism};

fn p(sequential: usize, random: usize) -> Parallelism {
    Parallelism { sequential, random }
}

#[test]
fn main_pool_is_preferred_over_default() {
    let sizes = vec![("default".to_owned(), p(1, 8)), ("main".to_owned(), p(2, 4))];
    assert_eq!(main_pool_parallelism(&sizes), p(2, 4));
}

#[test]
fn default_pool_is_used_without_main() {
    let sizes = vec![("/dev/sda".to_owned(), p(1, 1)), ("default".to_owned(), p(1, 8))];
    assert_eq!(main_pool_parallelism(&sizes), p(1, 8));
}

#[test]
fn no_named_pool_gives_zero_widths() {
    let sizes = vec![("mainly".to_owned(), p(3, 3))];
    assert_eq!(main_pool_parallelism(&sizes), p(0, 0));
    assert_eq!(main_pool_parallelism(&vec![]), p(0, 0));
}

fn ts(secs: i64) -> Timestamp {
    Timestamp { secs, nanos: 0, offset_secs: 0 }
}

#[test]
fn earlier_rf_over_takes_precedence() {
    let s = resolve_dedupe_settings(Some(2), Some(5), None, ts(100)).unwrap();
    assert_eq!(s, DedupeSettings { rf_over: 2, modified_before: ts(100) });
}

#[test]
fn given_rf_over_is_used_when_earlier_is_unknown() {
    let s = resolve_dedupe_settings(None, Some(5), Some(ts(7)), ts(100)).unwrap();
    assert_eq!(s, DedupeSettings { rf_over: 5, modified_before: ts(7) });
}

#[test]
fn unknown_rf_over_refuses() {
    assert_eq!(resolve_dedupe_settings(None, None, Some(ts(7)), ts(100)), None);
}
