use vstd::prelude::*;

verus! {

/// Identifier of a page slot in the backing store.
pub type PageId = u32;

/// The identifier that stands for "no page".
pub const INVALID_PAGE_ID: PageId = 4294967295;

/// Length in bytes of every page.
pub const BUSTUBX_PAGE_SIZE: usize = 4096;

} // verus!
