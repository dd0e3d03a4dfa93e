//! Bounds resolution, checking, and display.

use makepass::util::{Bounds, BoundsError, InvalidBoundsError};

#[test]
fn resolve_valid_pair_is_verbatim() {
    let b = Bounds::resolve(Some(3), Some(9), 24, usize::MAX).unwrap();
    assert_eq!(b, Bounds { min: 3, max: 9 });
    let b = Bounds::resolve(Some(7), Some(7), 24, usize::MAX).unwrap();
    assert_eq!(b, Bounds { min: 7, max: 7 });
}

#[test]
fn resolve_inverted_pair_is_error_with_both_values() {
    let e = Bounds::resolve(Some(10), Some(9), 24, usize::MAX).unwrap_err();
    assert_eq!(e, InvalidBoundsError { min: 10, max: 9 });
}

#[test]
fn resolve_defaults_when_both_absent() {
    let b = Bounds::resolve(None, None, 24, usize::MAX).unwrap();
    assert_eq!(b, Bounds { min: 24, max: usize::MAX });
}

#[test]
fn resolve_only_max_lowers_default_min() {
    let b = Bounds::resolve(None, Some(10), 24, usize::MAX).unwrap();
    assert_eq!(b, Bounds { min: 10, max: 10 });
}

#[test]
fn resolve_only_min_keeps_unbounded_max() {
    let b = Bounds::resolve(Some(30), None, 24, usize::MAX).unwrap();
    assert_eq!(b, Bounds { min: 30, max: usize::MAX });
}

#[test]
fn resolve_word_defaults() {
    // The word-length rules: defaults (4, 8), a lone minimum raises the
    // default maximum if needed, a lone maximum lowers the default minimum.
    assert_eq!(
        Bounds::resolve(None, None, 4, 8).unwrap(),
        Bounds { min: 4, max: 8 }
    );
    assert_eq!(
        Bounds::resolve(Some(10), None, 4, 8).unwrap(),
        Bounds { min: 10, max: 10 }
    );
    assert_eq!(
        Bounds::resolve(None, Some(3), 4, 8).unwrap(),
        Bounds { min: 3, max: 3 }
    );
    assert_eq!(
        Bounds::resolve(Some(5), None, 4, 8).unwrap(),
        Bounds { min: 5, max: 8 }
    );
}

#[test]
fn check_inside_is_ok() {
    let b = Bounds { min: 2, max: 5 };
    assert_eq!(b.check(2), Ok(2));
    assert_eq!(b.check(4), Ok(4));
    assert_eq!(b.check(5), Ok(5));
}

#[test]
fn check_below_is_too_low() {
    let b = Bounds { min: 2, max: 5 };
    assert_eq!(b.check(1), Err(BoundsError::TooLow(2)));
    assert_eq!(b.check(0), Err(BoundsError::TooLow(2)));
}

#[test]
fn check_above_is_too_high() {
    let b = Bounds { min: 2, max: 5 };
    assert_eq!(b.check(6), Err(BoundsError::TooHigh(5)));
}

#[test]
fn check_len_measures_bytes() {
    let b = Bounds { min: 2, max: 4 };
    assert_eq!(b.check_len(String::from("abc")), Ok(String::from("abc")));
    assert_eq!(b.check_len(String::from("a")), Err(BoundsError::TooLow(2)));
    // Two characters, four bytes: inside the byte bounds.
    assert_eq!(b.check_len(String::from("éé")), Ok(String::from("éé")));
    assert_eq!(
        b.check_len(String::from("abcde")),
        Err(BoundsError::TooHigh(4))
    );
}

#[test]
fn display_phrases() {
    assert_eq!(Bounds { min: 24, max: 24 }.display(), "exactly 24");
    assert_eq!(
        Bounds { min: 0, max: usize::MAX }.display(),
        "any number of"
    );
    assert_eq!(
        Bounds { min: 1, max: usize::MAX }.display(),
        "any number of"
    );
    assert_eq!(Bounds { min: 1, max: 30 }.display(), "up to 30");
    assert_eq!(Bounds { min: 0, max: 7 }.display(), "up to 7");
    assert_eq!(Bounds { min: 24, max: usize::MAX }.display(), "at least 24");
    assert_eq!(Bounds { min: 12, max: 40 }.display(), "between 12 and 40");
}
