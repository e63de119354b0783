use vstd::prelude::*;

use crate::page::PageId;

verus! {

/// Every failure that the storage core reports to its callers.
#[derive(Debug, Clone, PartialEq, Eq)]
pub enum BustubxError {
    /// No column stands at this position of a schema.
    ColumnIndexOutOfRange(usize),
    /// No column of a schema carries this name.
    ColumnNotFound(String),
    /// A page image whose length is not the page size.
    PageSizeMismatch(usize),
    /// A page image whose type tag is neither leaf nor internal.
    InvalidPageType(u32),
    /// A page image that ends before the entries its header announces.
    TruncatedData,
    /// A page image whose header gives a current size (first) above its maximum (second).
    InvalidPageSize(u32, u32),
    /// Every frame of the buffer pool is pinned.
    PoolExhausted,
    /// The page is not held by any frame.
    PageNotResident(PageId),
    /// The page is resident but nobody holds a pin on it.
    PageNotPinned(PageId),
    /// The page is still pinned and cannot be deleted.
    PagePinned(PageId),
    /// The disk store holds no image of this page.
    PageNotOnDisk(PageId),
    /// A unique index already holds this key.
    DuplicateKey,
    /// The index holds no entry with this key.
    KeyNotFound,
}

pub type BustubxResult<T> = Result<T, BustubxError>;

} // verus!
