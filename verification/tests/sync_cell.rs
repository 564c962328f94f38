use coupler::sync_cell::{borrow_outcome, BorrowFlag, BorrowMutError};

#[test]
fn borrow_outcome_fails_only_when_already_borrowed() {
    assert_eq!(borrow_outcome(false), Ok(()));
    assert_eq!(borrow_outcome(true), Err(BorrowMutError));
    assert_eq!(BorrowMutError.message(), "SyncCell already borrowed");
}

#[test]
fn flag_allows_one_borrow_at_a_time() {
    let flag = BorrowFlag::new();
    assert_eq!(flag.try_acquire(), Ok(()));
    assert_eq!(flag.try_acquire(), Err(BorrowMutError));
    flag.release();
    assert_eq!(flag.try_acquire(), Ok(()));
}
