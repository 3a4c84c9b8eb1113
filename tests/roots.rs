use fclones_report::roots::{check_roots, RootKind, RootsError};

#[test]
fn streamed_roots_are_all_kept() {
    let roots = vec![RootKind::Inaccessible, RootKind::Dir];
    assert_eq!(check_roots(true, Some(0), &roots), Ok(vec![0, 1]));
}

#[test]
fn inaccessible_root_is_fatal() {
    let roots = vec![RootKind::File, RootKind::Inaccessible];
    assert_eq!(check_roots(false, None, &roots), Err(RootsError::SomeInaccessible));
}

#[test]
fn directories_are_skipped_at_depth_zero() {
    let roots = vec![RootKind::Dir, RootKind::File, RootKind::Dir];
    assert_eq!(check_roots(false, Some(0), &roots), Ok(vec![1]));
    assert_eq!(check_roots(false, Some(1), &roots), Ok(vec![0, 1, 2]));
    assert_eq!(check_roots(false, None, &roots), Ok(vec![0, 1, 2]));
}

#[test]
fn no_roots_left_is_no_input() {
    assert_eq!(check_roots(false, Some(0), &vec![RootKind::Dir]), Err(RootsError::NoInputFiles));
    assert_eq!(check_roots(false, None, &vec![]), Err(RootsError::NoInputFiles));
}
