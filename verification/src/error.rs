//! The ways in which an operation of the store can fail.

use vstd::prelude::*;

verus! {

/// Why an operation of the store failed.
#[derive(Debug, Clone, Copy, PartialEq, Eq, Hash, Structural)]
pub enum StoreError {
    /// The backing page could not be read or written, or what was read is not
    /// a page that the store could have written.
    IOError,
    /// A key or a value does not have its fixed size.
    InvalidSize,
    /// The page has no room for another record.
    OutOfSpace,
}

} // verus!
