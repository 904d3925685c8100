//! The backing storage of one record: a byte buffer that is resized to
//! exactly the footprint the record's link count requires, within a fixed
//! budget granted at allocation time.

use vstd::prelude::*;

use crate::error::ErrorCode;

verus! {

/// One record's backing storage. `limit` models the resource budget the
/// host granted when the record was allocated: a resize past it fails.
#[derive(Debug)]
pub struct Storage {
    pub data: Vec<u8>,
    pub limit: usize,
}

/// The mathematical image of a [`Storage`].
#[verifier::ext_equal]
pub ghost struct StorageModel {
    pub data: Seq<u8>,
    pub limit: usize,
}

impl View for Storage {
    type V = StorageModel;

    open spec fn view(&self) -> StorageModel {
        StorageModel { data: self.data@, limit: self.limit }
    }
}

impl Storage {
    /// Fresh, empty storage with the given resource budget.
    pub fn new(limit: usize) -> (r: Storage)
        ensures
            r@.data.len() == 0,
            r@.limit == limit,
    {
        Storage { data: Vec::new(), limit }
    }

    /// Resizes the buffer to exactly `new_size` bytes, which the budget is
    /// known to grant: existing content within the new size is preserved and
    /// newly exposed bytes are zero-filled.
    pub fn resize_exact(&mut self, new_size: usize)
        requires
            new_size <= old(self).limit,
        ensures
            final(self)@.limit == old(self)@.limit,
            final(self)@.data.len() == new_size,
            forall|i: int|
                0 <= i < new_size && i < old(self)@.data.len() ==> final(self)@.data[i] == old(
                    self,
                )@.data[i],
            forall|i: int| old(self)@.data.len() <= i < new_size ==> final(self)@.data[i] == 0u8,
    {
        let ghost d0 = self.data@;
        if new_size <= self.data.len() {
            self.data.truncate(new_size);
        } else {
            while self.data.len() < new_size
                invariant
                    self.limit == old(self).limit,
                    d0.len() < new_size ==> d0.len() <= self.data@.len() <= new_size,
                    d0.len() >= new_size ==> self.data@.len() == d0.len(),
                    forall|i: int| 0 <= i < d0.len() ==> self.data@[i] == d0[i],
                    forall|i: int| d0.len() <= i < self.data@.len() ==> self.data@[i] == 0u8,
                decreases new_size - self.data@.len(),
            {
                self.data.push(0u8);
            }
        }
    }

    /// Attempts to resize the buffer to exactly `new_size` bytes. Fails
    /// atomically — storage untouched — with [`ErrorCode::ResizeFailed`]
    /// exactly when the budget cannot grant the requested footprint.
    pub fn try_resize(&mut self, new_size: usize) -> (r: Result<(), ErrorCode>)
        ensures
            final(self)@.limit == old(self)@.limit,
            match r {
                Ok(()) => {
                    &&& new_size <= old(self)@.limit
                    &&& final(self)@.data.len() == new_size
                    &&& (forall|i: int|
                        0 <= i < new_size && i < old(self)@.data.len() ==> final(self)@.data[i]
                            == old(self)@.data[i])
                    &&& (forall|i: int|
                        old(self)@.data.len() <= i < new_size ==> final(self)@.data[i] == 0u8)
                },
                Err(e) => {
                    &&& new_size > old(self)@.limit
                    &&& e == ErrorCode::ResizeFailed
                    &&& final(self)@ == old(self)@
                },
            },
    {
        if new_size > self.limit {
            return Err(ErrorCode::ResizeFailed);
        }
        self.resize_exact(new_size);
        Ok(())
    }
}

} // verus!
