use vstd::prelude::*;

use std::sync::atomic::AtomicBool;

use crate::bitset::MemoryOrder;

verus! {

/// The error of trying to borrow a cell that is already borrowed.
#[derive(Debug, PartialEq, Eq, Clone, Copy)]
pub struct BorrowMutError;

impl BorrowMutError {
    /// The message that describes the error.
    pub fn message(&self) -> (r: &'static str)
        ensures
            r@ == "SyncCell already borrowed"@,
    {
        "SyncCell already borrowed"
    }
}

/// The outcome of an attempt to borrow, given whether the cell was already borrowed.
pub fn borrow_outcome(was_borrowed: bool) -> (r: Result<(), BorrowMutError>)
    ensures
        r is Ok <==> !was_borrowed,
{
    if was_borrowed {
        Err(BorrowMutError)
    } else {
        Ok(())
    }
}

/// The flag that makes borrows of a cell shared between threads exclusive.
pub struct BorrowFlag {
    borrowed: AtomicBool,
}

impl BorrowFlag {
    /// A flag for a cell that is not borrowed.
    pub fn new() -> BorrowFlag {
        BorrowFlag { borrowed: AtomicBool::new(false) }
    }

    /// Marks the cell borrowed with one atomic exchange; fails when it already was.
    pub fn try_acquire(&self) -> Result<(), BorrowMutError> {
        let was_borrowed = self.borrowed.swap(true, MemoryOrder::Acquire.to_std());
        borrow_outcome(was_borrowed)
    }

    /// Marks the cell no longer borrowed.
    pub fn release(&self) {
        self.borrowed.store(false, MemoryOrder::Release.to_std());
    }
}

} // verus!
