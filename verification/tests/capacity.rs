use linktree::bounds::BASE_FOOTPRINT;
use linktree::bounds::LINK_FOOTPRINT;
use linktree::bounds::MAX_FOOTPRINT;
use linktree::bounds::required_footprint;
use linktree::error::ErrorCode;
use linktree::storage::Storage;

#[test]
fn footprint_formula_exact_values() {
    assert_eq!(BASE_FOOTPRINT, 76);
    assert_eq!(LINK_FOOTPRINT, 267);
    assert_eq!(MAX_FOOTPRINT, 2746);
    assert_eq!(required_footprint(0), 76);
    assert_eq!(required_footprint(1), 343);
    assert_eq!(required_footprint(3), 877);
    assert_eq!(required_footprint(10), 2746);
}

#[test]
fn footprint_is_monotone_over_the_capacity_range() {
    let mut previous = required_footprint(0);
    for n in 1..=10 {
        let next = required_footprint(n);
        assert!(previous < next);
        previous = next;
    }
}

#[test]
fn resize_grows_with_zero_fill_and_preserves_content() {
    let mut storage = Storage::new(100);
    assert_eq!(storage.try_resize(4), Ok(()));
    storage.data[0] = 9;
    storage.data[3] = 7;
    assert_eq!(storage.try_resize(8), Ok(()));
    assert_eq!(storage.data, vec![9, 0, 0, 7, 0, 0, 0, 0]);
}

#[test]
fn resize_shrinks_to_the_exact_size() {
    let mut storage = Storage::new(100);
    assert_eq!(storage.try_resize(8), Ok(()));
    storage.data[1] = 5;
    assert_eq!(storage.try_resize(2), Ok(()));
    assert_eq!(storage.data, vec![0, 5]);
}

#[test]
fn resize_past_the_budget_fails_atomically() {
    let mut storage = Storage::new(10);
    assert_eq!(storage.try_resize(6), Ok(()));
    storage.data[5] = 1;
    assert_eq!(storage.try_resize(11), Err(ErrorCode::ResizeFailed));
    // storage is observably untouched
    assert_eq!(storage.data, vec![0, 0, 0, 0, 0, 1]);
    assert_eq!(storage.limit, 10);
}

#[test]
fn error_descriptions_are_distinct_and_nonempty() {
    let errors = [
        ErrorCode::Unauthorized,
        ErrorCode::NotFound,
        ErrorCode::AlreadyExists,
        ErrorCode::LengthMismatch,
        ErrorCode::FieldTooLong,
        ErrorCode::CapacityExceeded,
        ErrorCode::HandleTooLong,
        ErrorCode::ResizeFailed,
    ];
    for (i, a) in errors.iter().enumerate() {
        assert!(!a.describe().is_empty());
        for b in errors.iter().skip(i + 1) {
            assert_ne!(a.describe(), b.describe());
        }
    }
}
