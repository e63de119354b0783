use vstd::prelude::*;

use crate::error::{BustubxError, BustubxResult};
use crate::page::{PageId, BUSTUBX_PAGE_SIZE, INVALID_PAGE_ID};

verus! {

/// The page store under the buffer pool: page `i` is the `i`-th slot. Identifiers are handed
/// out in increasing order and never reused; a slot holds an image once the page is written
/// and loses it when the page is deallocated.
#[derive(Debug)]
pub struct DiskManager {
    pub pages: Vec<Option<Vec<u8>>>,
}

impl DiskManager {
    /// What each slot holds.
    pub open spec fn images(&self) -> Seq<Option<Seq<u8>>> {
        self.pages@.map_values(|p: Option<Vec<u8>>| match p {
            Some(v) => Some(v@),
            None => None,
        })
    }

    /// The identifier the next allocation returns.
    pub open spec fn next_page_id(&self) -> nat {
        self.pages@.len()
    }

    /// Every stored image is one full page.
    pub open spec fn wf(&self) -> bool {
        forall|i: int| 0 <= i < self.images().len() && #[trigger] self.images()[i] is Some ==> self.images()[i]->Some_0.len()
            == BUSTUBX_PAGE_SIZE
    }

    pub fn new() -> (r: Self)
        ensures
            r.wf(),
            r.images().len() == 0,
    {
        DiskManager { pages: Vec::new() }
    }

    /// A fresh identifier: one past the last one handed out.
    pub fn allocate_page(&mut self) -> (r: PageId)
        requires
            old(self).next_page_id() < INVALID_PAGE_ID,
        ensures
            r == old(self).next_page_id(),
            final(self).next_page_id() == old(self).next_page_id() + 1,
            final(self).images() == old(self).images().push(None),
            old(self).wf() ==> final(self).wf(),
    {
        let id = self.pages.len() as PageId;
        self.pages.push(None);
        assert(self.images() =~= old(self).images().push(None));
        id
    }

    /// Drops the image of the page; the identifier is not handed out again.
    pub fn deallocate_page(&mut self, page_id: PageId)
        ensures
            final(self).next_page_id() == old(self).next_page_id(),
            old(self).wf() ==> final(self).wf(),
            page_id < old(self).images().len() ==> final(self).images() == old(self).images().update(
                page_id as int,
                None,
            ),
            page_id >= old(self).images().len() ==> final(self).images() == old(self).images(),
    {
        if (page_id as usize) < self.pages.len() {
            self.pages.set(page_id as usize, None);
            assert(self.images() =~= old(self).images().update(page_id as int, None));
        }
    }

    /// The image of the page, or `PageNotOnDisk` where it was never written or was dropped.
    pub fn read_page(&self, page_id: PageId) -> (r: BustubxResult<Vec<u8>>)
        ensures
            (page_id < self.images().len() && self.images()[page_id as int] is Some) <==> r is Ok,
            r is Ok ==> r->Ok_0@ == self.images()[page_id as int]->Some_0,
            r is Err ==> r->Err_0 == BustubxError::PageNotOnDisk(page_id),
    {
        if (page_id as usize) < self.pages.len() {
            match &self.pages[page_id as usize] {
                Some(data) => {
                    return Ok(vstd::slice::slice_to_vec(data.as_slice()));
                },
                None => {},
            }
        }
        Err(BustubxError::PageNotOnDisk(page_id))
    }

    /// Stores the image of an allocated page.
    pub fn write_page(&mut self, page_id: PageId, data: &[u8])
        requires
            data@.len() == BUSTUBX_PAGE_SIZE,
        ensures
            final(self).next_page_id() == old(self).next_page_id(),
            old(self).wf() ==> final(self).wf(),
            page_id < old(self).images().len() ==> final(self).images() == old(self).images().update(
                page_id as int,
                Some(data@),
            ),
            page_id >= old(self).images().len() ==> final(self).images() == old(self).images(),
    {
        if (page_id as usize) < self.pages.len() {
            self.pages.set(page_id as usize, Some(vstd::slice::slice_to_vec(data)));
            assert(self.images() =~= old(self).images().update(page_id as int, Some(data@)));
        }
    }
}

} // verus!
