//! Stores whose length can be changed.
use crate::cast::u64_into_usize;
use crate::store::{resized, ByteStore, MemoryStore, StoreError};
use vstd::prelude::*;

verus! {

/// A store that can be cut short, or lengthened with zero bytes. A position
/// before the new end should stay; one past it should move to the last valid
/// position.
pub trait Truncate: ByteStore {
    /// Sets the length to `new_len`.
    fn truncate(&mut self, new_len: u64) -> (r: Result<(), StoreError>)
        ensures
            old(self).reliable() ==> final(self).reliable() && r is Ok,
            r is Ok ==> final(self).bytes() == resized(old(self).bytes(), new_len as nat),
            r is Ok ==> final(self).pos() == (if old(self).pos() >= new_len {
                if new_len == 0 {
                    0
                } else {
                    new_len - 1
                }
            } else {
                old(self).pos() as int
            }),
    ;
}

impl Truncate for MemoryStore {
    fn truncate(&mut self, new_len: u64) -> (r: Result<(), StoreError>) {
        let new_len = u64_into_usize(new_len);
        self.resize(new_len);
        Ok(())
    }
}

} // verus!
