use vstd::prelude::*;

use crate::disk::DiskManager;
use crate::error::{BustubxError, BustubxResult};
use crate::page::{PageId, BUSTUBX_PAGE_SIZE, INVALID_PAGE_ID};
use crate::replacer::{history_after_access, LRUKReplacer};

verus! {

/// One frame of the pool. A frame whose `page_id` is the invalid id holds no page.
#[derive(Debug)]
pub struct Page {
    pub page_id: PageId,
    pub data: Vec<u8>,
    pub is_dirty: bool,
    pub pin_count: u32,
}

/// A fixed number of frames caching pages of the disk store.
#[derive(Debug)]
pub struct BufferPoolManager {
    pub pool: Vec<Page>,
    pub free_list: Vec<usize>,
    pub replacer: LRUKReplacer,
    pub disk: DiskManager,
}

pub open spec fn zeros(n: nat) -> Seq<u8> {
    Seq::new(n, |i: int| 0u8)
}

impl BufferPoolManager {
    pub open spec fn resident(&self, f: int) -> bool {
        self.pool@[f].page_id != INVALID_PAGE_ID
    }

    /// Frame `f` holds page `page_id`.
    pub open spec fn holds(&self, f: int, page_id: PageId) -> bool {
        &&& 0 <= f < self.pool@.len()
        &&& page_id != INVALID_PAGE_ID
        &&& self.pool@[f].page_id == page_id
    }

    pub open spec fn is_resident(&self, page_id: PageId) -> bool {
        exists|f: int| self.holds(f, page_id)
    }

    /// Frame `f` is free, or holds a page that nobody pins.
    pub open spec fn available(&self, f: int) -> bool {
        !self.resident(f) || self.pool@[f].pin_count == 0
    }

    pub open spec fn has_available_frame(&self) -> bool {
        exists|f: int| 0 <= f < self.pool@.len() && #[trigger] self.available(f)
    }

    /// What holds of each frame: a full page buffer; evictable exactly when it holds a page
    /// that nobody pins; free exactly when listed as free, and then unpinned and clean; and a
    /// held page id is one the disk store handed out. A free frame has no access history.
    pub open spec fn frame_ok(&self, f: int) -> bool {
        &&& self.pool@[f].data@.len() == BUSTUBX_PAGE_SIZE
        &&& (self.replacer.evictable()[f] <==> (self.resident(f) && self.pool@[f].pin_count == 0))
        &&& (!self.resident(f) ==> self.pool@[f].pin_count == 0 && !self.pool@[f].is_dirty
            && self.replacer.histories()[f].len() == 0)
        &&& (!self.resident(f) <==> self.free_list@.contains(f as usize))
        &&& (self.resident(f) ==> self.pool@[f].page_id < self.disk.next_page_id())
    }

    pub open spec fn wf(&self) -> bool {
        &&& self.replacer.wf()
        &&& self.replacer.nodes@.len() == self.pool@.len()
        &&& self.pool@.len() <= usize::MAX
        &&& self.disk.wf()
        &&& self.disk.next_page_id() <= INVALID_PAGE_ID
        &&& self.free_list@.no_duplicates()
        &&& forall|i: int| 0 <= i < self.free_list@.len() ==> #[trigger] self.free_list@[i] < self.pool@.len()
        &&& forall|f: int| 0 <= f < self.pool@.len() ==> #[trigger] self.frame_ok(f)
        &&& forall|f: int, g: int|
            0 <= f < self.pool@.len() && 0 <= g < self.pool@.len() && self.resident(f)
                && #[trigger] self.pool@[f].page_id == #[trigger] self.pool@[g].page_id ==> f == g
    }

    pub fn new(pool_size: usize, replacer_k: usize) -> (r: Self)
        requires
            replacer_k >= 1,
        ensures
            r.wf(),
            r.pool@.len() == pool_size,
            forall|f: int| 0 <= f < pool_size ==> !r.resident(f),
            r.disk.images().len() == 0,
            r.replacer.current_timestamp == 0,
    {
        let mut pool: Vec<Page> = Vec::new();
        let mut free_list: Vec<usize> = Vec::new();
        for i in 0..pool_size
            invariant
                pool@.len() == i,
                free_list@.len() == i,
                forall|j: int| 0 <= j < i ==> #[trigger] free_list@[j] == j,
                forall|f: int|
                    0 <= f < i ==> (#[trigger] pool@[f]).page_id == INVALID_PAGE_ID && pool@[f].pin_count == 0
                        && !pool@[f].is_dirty && pool@[f].data@.len() == BUSTUBX_PAGE_SIZE,
        {
            let data = Self::zeroed_page();
            pool.push(Page { page_id: INVALID_PAGE_ID, data, is_dirty: false, pin_count: 0 });
            free_list.push(i);
        }
        let r = BufferPoolManager {
            pool,
            free_list,
            replacer: LRUKReplacer::new(pool_size, replacer_k),
            disk: DiskManager::new(),
        };
        assert(r.replacer.evictable() =~= Seq::new(pool_size as nat, |f: int| false));
        assert forall|f: int| 0 <= f < pool_size implies #[trigger] r.frame_ok(f) by {
            assert(r.free_list@[f] == f);
        }
        r
    }

    fn zeroed_page() -> (r: Vec<u8>)
        ensures
            r@ == zeros(BUSTUBX_PAGE_SIZE as nat),
    {
        let mut data: Vec<u8> = Vec::new();
        for i in 0..BUSTUBX_PAGE_SIZE
            invariant
                data@ == zeros(i as nat),
        {
            data.push(0);
            assert(data@ =~= zeros((i + 1) as nat));
        }
        data
    }

    /// The frame that holds the page, if any.
    pub fn find_frame(&self, page_id: PageId) -> (r: Option<usize>)
        ensures
            r is None <==> !self.is_resident(page_id),
            r is Some ==> self.holds(r->Some_0 as int, page_id),
    {
        if page_id == INVALID_PAGE_ID {
            return None;
        }
        let n = self.pool.len();
        for i in 0..n
            invariant
                n == self.pool@.len(),
                page_id != INVALID_PAGE_ID,
                forall|f: int| 0 <= f < i ==> !self.holds(f, page_id),
        {
            if self.pool[i].page_id == page_id {
                assert(self.holds(i as int, page_id));
                return Some(i);
            }
        }
        None
    }

    /// Whether a frame can be had without touching a pinned page.
    pub fn has_free_frame(&self) -> (r: bool)
        ensures
            r == self.has_available_frame(),
    {
        let n = self.pool.len();
        for i in 0..n
            invariant
                n == self.pool@.len(),
                forall|f: int| 0 <= f < i ==> !#[trigger] self.available(f),
        {
            if self.pool[i].page_id == INVALID_PAGE_ID || self.pool[i].pin_count == 0 {
                assert(self.available(i as int));
                return true;
            }
        }
        false
    }

    /// The disk images after the page in frame `f` is let go: written back if dirty.
    pub open spec fn images_after_release(&self, f: int) -> Seq<Option<Seq<u8>>> {
        if self.resident(f) && self.pool@[f].is_dirty {
            self.disk.images().update(self.pool@[f].page_id as int, Some(self.pool@[f].data@))
        } else {
            self.disk.images()
        }
    }

    /// Puts `page_id` with `data` into a frame, pinned once: a free frame if there is one,
    /// else the replacer's victim, whose image is first written back if dirty.
    fn install(&mut self, page_id: PageId, data: Vec<u8>) -> (r: usize)
        requires
            old(self).wf(),
            old(self).has_available_frame(),
            page_id != INVALID_PAGE_ID,
            page_id < old(self).disk.next_page_id(),
            !old(self).is_resident(page_id),
            data@.len() == BUSTUBX_PAGE_SIZE,
            old(self).replacer.current_timestamp < u64::MAX,
        ensures
            final(self).wf(),
            r < old(self).pool@.len(),
            old(self).available(r as int),
            final(self).pool@ == old(self).pool@.update(
                r as int,
                (Page { page_id, data, is_dirty: false, pin_count: 1 }),
            ),
            final(self).disk.images() == old(self).images_after_release(r as int),
            final(self).disk.next_page_id() == old(self).disk.next_page_id(),
            final(self).replacer.current_timestamp == old(self).replacer.current_timestamp + 1,
            final(self).replacer.k == old(self).replacer.k,
            final(self).replacer.histories() == old(self).replacer.histories().update(
                r as int,
                history_after_access(Seq::empty(), old(self).replacer.current_timestamp, old(self).replacer.k as nat),
            ),
    {
        let ghost old_free = self.free_list@;
        let f: usize;
        if self.free_list.len() > 0 {
            let popped = self.free_list.pop();
            f = popped.unwrap();
            proof {
                assert(old_free.contains(f));
                let fi = f as int;
                assert(old(self).frame_ok(fi));
                if self.resident(fi) {
                    assert(!old_free.contains(f));
                }
                assert(old(self).replacer.histories()[fi] =~= Seq::<u64>::empty());
                assert(self.replacer.histories() =~= old(self).replacer.histories().update(fi, Seq::empty()));
                assert forall|g: usize| g < self.pool@.len() && g != f implies
                    (#[trigger] self.free_list@.contains(g) <==> old_free.contains(g)) by {
                    if old_free.contains(g) {
                        let j = choose|j: int| 0 <= j < old_free.len() && old_free[j] == g;
                        assert(j != old_free.len() - 1);
                        assert(self.free_list@[j] == g);
                    }
                }
                assert(!self.free_list@.contains(f)) by {
                    if self.free_list@.contains(f) {
                        let j = choose|j: int| 0 <= j < self.free_list@.len() && self.free_list@[j] == f;
                        assert(old_free[j] == old_free[old_free.len() - 1]);
                    }
                }
            }
        } else {
            proof {
                let w = choose|w: int| 0 <= w < self.pool@.len() && #[trigger] self.available(w);
                assert(self.frame_ok(w));
                if !self.resident(w) {
                    assert(self.free_list@.contains(w as usize));
                }
                assert(self.replacer.evictable()[w]);
            }
            let victim = self.replacer.evict();
            f = victim.unwrap();
            assert(old(self).frame_ok(f as int));
            if self.pool[f].is_dirty {
                self.disk.write_page(self.pool[f].page_id, self.pool[f].data.as_slice());
            }
            proof {
                if !self.resident(f as int) {
                    assert(self.free_list@.contains(f));
                }
            }
        }
        assert(self.available(f as int));
        assert(self.disk.images() == old(self).images_after_release(f as int));
        assert(self.replacer.histories() == old(self).replacer.histories().update(f as int, Seq::empty()));
        self.pool.set(f, Page { page_id, data, is_dirty: false, pin_count: 1 });
        assert(self.replacer.nodes@[f as int]@ == self.replacer.histories()[f as int]);
        assert(self.replacer.nodes@[f as int]@ =~= Seq::<u64>::empty());
        self.replacer.record_access(f);
        self.replacer.set_evictable(f, false);
        proof {
            let fi = f as int;
            assert(self.replacer.histories() =~= old(self).replacer.histories().update(
                fi,
                history_after_access(Seq::empty(), old(self).replacer.current_timestamp, old(self).replacer.k as nat),
            ));
            assert(self.disk.next_page_id() == old(self).disk.next_page_id());
            assert forall|g: int, h: int|
                0 <= g < self.pool@.len() && 0 <= h < self.pool@.len() && self.resident(g)
                    && #[trigger] self.pool@[g].page_id == #[trigger] self.pool@[h].page_id implies g == h by {
                if g == fi && h != fi {
                    assert(old(self).holds(h, page_id));
                } else if h == fi && g != fi {
                    assert(old(self).holds(g, page_id));
                }
            }
            assert forall|g: int| 0 <= g < self.pool@.len() implies #[trigger] self.frame_ok(g) by {
                if g != fi {
                    assert(self.pool@[g] == old(self).pool@[g]);
                    assert(old(self).frame_ok(g));
                }
            }
        }
        f
    }

    /// A new page, zero-filled and pinned once, in a free frame or in the frame of the
    /// replacer's victim (written back first if dirty). Fails with `PoolExhausted`, changing
    /// nothing, when every frame holds a pinned page.
    pub fn new_page(&mut self) -> (r: BustubxResult<PageId>)
        requires
            old(self).wf(),
            old(self).disk.next_page_id() < INVALID_PAGE_ID,
            old(self).replacer.current_timestamp < u64::MAX,
        ensures
            final(self).wf(),
            final(self).pool@.len() == old(self).pool@.len(),
            final(self).replacer.k == old(self).replacer.k,
            r is Err <==> !old(self).has_available_frame(),
            r is Err ==> r->Err_0 == BustubxError::PoolExhausted && *final(self) == *old(self),
            r is Ok ==> {
                let id = r->Ok_0;
                &&& id == old(self).disk.next_page_id()
                &&& final(self).disk.next_page_id() == old(self).disk.next_page_id() + 1
                &&& final(self).replacer.current_timestamp == old(self).replacer.current_timestamp + 1
                &&& exists|f: int|
                    0 <= f < old(self).pool@.len() && #[trigger] old(self).available(f) && final(self).holds(f, id)
                        && final(self).pool@[f].data@ == zeros(BUSTUBX_PAGE_SIZE as nat)
                        && final(self).pool@[f].pin_count == 1 && !final(self).pool@[f].is_dirty
                        && (forall|g: int| 0 <= g < old(self).pool@.len() && g != f ==> final(self).pool@[g] == old(self).pool@[g])
                        && final(self).disk.images() == old(self).images_after_release(f).push(None)
                        && final(self).replacer.histories() == old(self).replacer.histories().update(
                        f,
                        history_after_access(Seq::empty(), old(self).replacer.current_timestamp, old(self).replacer.k as nat),
                    )
            },
    {
        if !self.has_free_frame() {
            return Err(BustubxError::PoolExhausted);
        }
        let page_id = self.disk.allocate_page();
        proof {
            assert forall|g: int| 0 <= g < self.pool@.len() implies #[trigger] self.frame_ok(g) by {
                assert(old(self).frame_ok(g));
            }
            assert(!self.is_resident(page_id)) by {
                if self.is_resident(page_id) {
                    let g = choose|g: int| self.holds(g, page_id);
                    assert(old(self).frame_ok(g));
                }
            }
        }
        proof {
            let w = choose|w: int| 0 <= w < old(self).pool@.len() && #[trigger] old(self).available(w);
            assert(self.available(w));
        }
        let data = Self::zeroed_page();
        let ghost mid = *self;
        let f = self.install(page_id, data);
        proof {
            assert(old(self).frame_ok(f as int));
            assert(old(self).disk.images().len() == old(self).disk.next_page_id());
            assert(mid.images_after_release(f as int) =~= old(self).images_after_release(f as int).push(None));
            assert(self.holds(f as int, page_id));
            assert(old(self).available(f as int));
            assert(self.pool@[f as int].data@ == zeros(BUSTUBX_PAGE_SIZE as nat));
            assert(forall|g: int| 0 <= g < old(self).pool@.len() && g != f ==> self.pool@[g] == old(self).pool@[g]);
        }
        Ok(page_id)
    }

    /// Pins the page: once more where it is resident, else read from the disk store into a
    /// frame obtained as `new_page` does. Fails with `PoolExhausted` when it is not resident
    /// and every frame is pinned, and with `PageNotOnDisk` when the store holds no image of it;
    /// a failure changes nothing.
    pub fn fetch_page(&mut self, page_id: PageId) -> (r: BustubxResult<()>)
        requires
            old(self).wf(),
            old(self).replacer.current_timestamp < u64::MAX,
            forall|f: int| old(self).holds(f, page_id) ==> old(self).pool@[f].pin_count < u32::MAX,
        ensures
            final(self).wf(),
            final(self).pool@.len() == old(self).pool@.len(),
            final(self).replacer.k == old(self).replacer.k,
            r is Ok ==> final(self).replacer.current_timestamp == old(self).replacer.current_timestamp + 1
                && final(self).disk.next_page_id() == old(self).disk.next_page_id(),
            old(self).is_resident(page_id) ==> r is Ok && exists|f: int|
                #[trigger] old(self).holds(f, page_id) && final(self).pool@[f].pin_count == old(self).pool@[f].pin_count + 1
                    && final(self).pool@[f].data == old(self).pool@[f].data
                    && final(self).pool@[f].is_dirty == old(self).pool@[f].is_dirty
                    && final(self).pool@[f].page_id == page_id
                    && (forall|g: int| 0 <= g < old(self).pool@.len() && g != f ==> final(self).pool@[g] == old(self).pool@[g])
                    && final(self).disk == old(self).disk
                    && final(self).replacer.histories() == old(self).replacer.histories().update(
                    f,
                    history_after_access(
                        old(self).replacer.histories()[f],
                        old(self).replacer.current_timestamp,
                        old(self).replacer.k as nat,
                    ),
                ),
            !old(self).is_resident(page_id) && !old(self).has_available_frame() ==> r == Err::<(), BustubxError>(
                BustubxError::PoolExhausted,
            ) && *final(self) == *old(self),
            !old(self).is_resident(page_id) && old(self).has_available_frame() && !(page_id
                < old(self).disk.images().len() && old(self).disk.images()[page_id as int] is Some) ==> r
                == Err::<(), BustubxError>(BustubxError::PageNotOnDisk(page_id)) && *final(self) == *old(self),
            !old(self).is_resident(page_id) && old(self).has_available_frame() && (page_id
                < old(self).disk.images().len() && old(self).disk.images()[page_id as int] is Some) ==> r is Ok
                && exists|f: int|
                0 <= f < old(self).pool@.len() && #[trigger] old(self).available(f) && final(self).holds(f, page_id)
                    && final(self).pool@[f].data@ == old(self).disk.images()[page_id as int]->Some_0
                    && final(self).pool@[f].pin_count == 1 && !final(self).pool@[f].is_dirty
                    && (forall|g: int| 0 <= g < old(self).pool@.len() && g != f ==> final(self).pool@[g] == old(self).pool@[g])
                    && final(self).disk.images() == old(self).images_after_release(f)
                    && final(self).replacer.histories() == old(self).replacer.histories().update(
                    f,
                    history_after_access(Seq::empty(), old(self).replacer.current_timestamp, old(self).replacer.k as nat),
                ),
    {
        match self.find_frame(page_id) {
            Some(f) => {
                let ghost before = *self;
                let mut page = Page { page_id: INVALID_PAGE_ID, data: Vec::new(), is_dirty: false, pin_count: 0 };
                std::mem::swap(&mut page, &mut self.pool[f]);
                page.pin_count = page.pin_count + 1;
                std::mem::swap(&mut page, &mut self.pool[f]);
                self.replacer.record_access(f);
                self.replacer.set_evictable(f, false);
                proof {
                    assert(before.frame_ok(f as int));
                    assert(self.pool@ =~= before.pool@.update(f as int, self.pool@[f as int]));
                    lemma_frame_update(before, *self, f as int);
                }
                Ok(())
            },
            None => {
                if !self.has_free_frame() {
                    return Err(BustubxError::PoolExhausted);
                }
                let data = match self.disk.read_page(page_id) {
                    Ok(d) => d,
                    Err(e) => {
                        return Err(e);
                    },
                };
                let f = self.install(page_id, data);
                assert(self.holds(f as int, page_id));
                Ok(())
            },
        }
    }

    /// Drops one pin and marks the page dirty if `is_dirty`; at zero pins the frame becomes
    /// evictable. Fails with `PageNotResident` or `PageNotPinned`, changing nothing.
    pub fn unpin_page(&mut self, page_id: PageId, is_dirty: bool) -> (r: BustubxResult<()>)
        requires
            old(self).wf(),
        ensures
            final(self).wf(),
            final(self).pool@.len() == old(self).pool@.len(),
            final(self).replacer.k == old(self).replacer.k,
            final(self).replacer.current_timestamp == old(self).replacer.current_timestamp,
            final(self).disk.next_page_id() == old(self).disk.next_page_id(),
            !old(self).is_resident(page_id) ==> r == Err::<(), BustubxError>(BustubxError::PageNotResident(page_id))
                && *final(self) == *old(self),
            forall|f: int| #[trigger] old(self).holds(f, page_id) ==> {
                &&& old(self).pool@[f].pin_count == 0 ==> r == Err::<(), BustubxError>(
                    BustubxError::PageNotPinned(page_id),
                ) && *final(self) == *old(self)
                &&& old(self).pool@[f].pin_count > 0 ==> {
                    &&& r is Ok
                    &&& final(self).pool@[f].pin_count == old(self).pool@[f].pin_count - 1
                    &&& final(self).pool@[f].is_dirty == (old(self).pool@[f].is_dirty || is_dirty)
                    &&& final(self).pool@[f].page_id == page_id
                    &&& final(self).pool@[f].data == old(self).pool@[f].data
                    &&& forall|g: int| 0 <= g < old(self).pool@.len() && g != f ==> final(self).pool@[g] == old(self).pool@[g]
                    &&& final(self).disk == old(self).disk
                }
            },
    {
        match self.find_frame(page_id) {
            None => Err(BustubxError::PageNotResident(page_id)),
            Some(f) => {
                proof {
                    assert forall|g: int| #[trigger] old(self).holds(g, page_id) implies g == f by {
                        assert(old(self).frame_ok(g));
                    }
                }
                if self.pool[f].pin_count == 0 {
                    return Err(BustubxError::PageNotPinned(page_id));
                }
                let ghost before = *self;
                let mut page = Page { page_id: INVALID_PAGE_ID, data: Vec::new(), is_dirty: false, pin_count: 0 };
                std::mem::swap(&mut page, &mut self.pool[f]);
                page.pin_count = page.pin_count - 1;
                page.is_dirty = page.is_dirty || is_dirty;
                let now_unpinned = page.pin_count == 0;
                std::mem::swap(&mut page, &mut self.pool[f]);
                if now_unpinned {
                    self.replacer.set_evictable(f, true);
                }
                proof {
                    assert(before.frame_ok(f as int));
                    assert(self.pool@ =~= before.pool@.update(f as int, self.pool@[f as int]));
                    lemma_frame_update(before, *self, f as int);
                }
                Ok(())
            },
        }
    }

    /// Writes the page's bytes to the disk store and marks it clean, pinned or not. Fails with
    /// `PageNotResident`, changing nothing.
    pub fn flush_page(&mut self, page_id: PageId) -> (r: BustubxResult<()>)
        requires
            old(self).wf(),
        ensures
            final(self).wf(),
            final(self).pool@.len() == old(self).pool@.len(),
            final(self).replacer.k == old(self).replacer.k,
            final(self).replacer.current_timestamp == old(self).replacer.current_timestamp,
            final(self).disk.next_page_id() == old(self).disk.next_page_id(),
            !old(self).is_resident(page_id) ==> r == Err::<(), BustubxError>(BustubxError::PageNotResident(page_id))
                && *final(self) == *old(self),
            forall|f: int| #[trigger] old(self).holds(f, page_id) ==> {
                &&& r is Ok
                &&& final(self).disk.images() == old(self).disk.images().update(
                    page_id as int,
                    Some(old(self).pool@[f].data@),
                )
                &&& !final(self).pool@[f].is_dirty
                &&& final(self).pool@[f].page_id == page_id
                &&& final(self).pool@[f].pin_count == old(self).pool@[f].pin_count
                &&& final(self).pool@[f].data == old(self).pool@[f].data
                &&& forall|g: int| 0 <= g < old(self).pool@.len() && g != f ==> final(self).pool@[g] == old(self).pool@[g]
            },
    {
        match self.find_frame(page_id) {
            None => Err(BustubxError::PageNotResident(page_id)),
            Some(f) => {
                proof {
                    assert forall|g: int| #[trigger] old(self).holds(g, page_id) implies g == f by {
                        assert(old(self).frame_ok(g));
                    }
                }
                self.flush_frame(f);
                Ok(())
            },
        }
    }

    /// Writes a resident frame back and marks it clean.
    fn flush_frame(&mut self, f: usize)
        requires
            old(self).wf(),
            f < old(self).pool@.len(),
            old(self).resident(f as int),
        ensures
            final(self).wf(),
            final(self).disk.images() == old(self).disk.images().update(
                old(self).pool@[f as int].page_id as int,
                Some(old(self).pool@[f as int].data@),
            ),
            !final(self).pool@[f as int].is_dirty,
            final(self).pool@[f as int].page_id == old(self).pool@[f as int].page_id,
            final(self).pool@[f as int].pin_count == old(self).pool@[f as int].pin_count,
            final(self).pool@[f as int].data == old(self).pool@[f as int].data,
            forall|g: int| 0 <= g < old(self).pool@.len() && g != f ==> final(self).pool@[g] == old(self).pool@[g],
            final(self).replacer == old(self).replacer,
            final(self).disk.next_page_id() == old(self).disk.next_page_id(),
    {
        let ghost before = *self;
        proof {
            assert(before.frame_ok(f as int));
        }
        self.disk.write_page(self.pool[f].page_id, self.pool[f].data.as_slice());
        let mut page = Page { page_id: INVALID_PAGE_ID, data: Vec::new(), is_dirty: false, pin_count: 0 };
        std::mem::swap(&mut page, &mut self.pool[f]);
        page.is_dirty = false;
        std::mem::swap(&mut page, &mut self.pool[f]);
        proof {
            assert(before.disk.images().len() == before.disk.next_page_id());
            assert(self.pool@ =~= before.pool@.update(f as int, self.pool@[f as int]));
            lemma_frame_update(before, *self, f as int);
        }
    }

    /// Flushes every resident dirty page.
    #[verifier::rlimit(40)]
    pub fn flush_all_pages(&mut self)
        requires
            old(self).wf(),
        ensures
            final(self).wf(),
            final(self).replacer.k == old(self).replacer.k,
            final(self).replacer.current_timestamp == old(self).replacer.current_timestamp,
            final(self).disk.next_page_id() == old(self).disk.next_page_id(),
            final(self).pool@.len() == old(self).pool@.len(),
            forall|f: int| 0 <= f < old(self).pool@.len() ==> {
                &&& !(#[trigger] final(self).pool@[f]).is_dirty
                &&& final(self).pool@[f].page_id == old(self).pool@[f].page_id
                &&& final(self).pool@[f].pin_count == old(self).pool@[f].pin_count
                &&& final(self).pool@[f].data == old(self).pool@[f].data
                &&& (old(self).resident(f) && old(self).pool@[f].is_dirty) ==> final(self).disk.images()[old(
                    self,
                ).pool@[f].page_id as int] == Some(old(self).pool@[f].data@)
            },
    {
        let n = self.pool.len();
        for i in 0..n
            invariant
                self.wf(),
                n == self.pool@.len(),
                n == old(self).pool@.len(),
                self.replacer == old(self).replacer,
                self.disk.next_page_id() == old(self).disk.next_page_id(),
                forall|f: int| 0 <= f < n ==> {
                    &&& (#[trigger] self.pool@[f]).page_id == old(self).pool@[f].page_id
                    &&& self.pool@[f].pin_count == old(self).pool@[f].pin_count
                    &&& self.pool@[f].data == old(self).pool@[f].data
                    &&& f < i ==> !self.pool@[f].is_dirty
                    &&& f >= i ==> self.pool@[f].is_dirty == old(self).pool@[f].is_dirty
                    &&& (f < i && old(self).resident(f) && old(self).pool@[f].is_dirty) ==> self.disk.images()[old(
                        self,
                    ).pool@[f].page_id as int] == Some(old(self).pool@[f].data@)
                },
        {
            if self.pool[i].page_id != INVALID_PAGE_ID && self.pool[i].is_dirty {
                let ghost before = *self;
                proof {
                    assert(before.frame_ok(i as int));
                    assert(before.disk.images().len() == before.disk.next_page_id());
                }
                self.flush_frame(i);
                proof {
                    assert forall|f: int| 0 <= f < i && old(self).resident(f) && old(self).pool@[f].is_dirty implies
                        self.disk.images()[#[trigger] old(self).pool@[f].page_id as int] == Some(old(self).pool@[f].data@) by {
                        let pf = before.pool@[f].page_id;
                        let pi = before.pool@[i as int].page_id;
                        assert(before.pool@[f].page_id == old(self).pool@[f].page_id);
                        assert(pf != pi) by {
                            if pf == pi {
                                assert(before.resident(f));
                            }
                        }
                        assert(before.frame_ok(i as int));
                        assert(before.frame_ok(f));
                        assert(before.disk.images().len() == before.disk.next_page_id());
                        assert(before.disk.images()[pf as int] == Some(old(self).pool@[f].data@));
                    }
                }
            } else {
                proof {
                    assert(self.frame_ok(i as int));
                }
            }
        }
    }

    /// Removes an unpinned page from the pool, frees its frame, and drops it from the disk
    /// store. A page that is not resident is only dropped from the store. Fails with
    /// `PagePinned`, changing nothing, while the page is pinned.
    pub fn delete_page(&mut self, page_id: PageId) -> (r: BustubxResult<()>)
        requires
            old(self).wf(),
        ensures
            final(self).wf(),
            final(self).pool@.len() == old(self).pool@.len(),
            final(self).replacer.k == old(self).replacer.k,
            final(self).replacer.current_timestamp == old(self).replacer.current_timestamp,
            final(self).disk.next_page_id() == old(self).disk.next_page_id(),
            !old(self).is_resident(page_id) ==> r is Ok && final(self).pool == old(self).pool
                && (page_id < old(self).disk.images().len() ==> final(self).disk.images() == old(
                self,
            ).disk.images().update(page_id as int, None)),
            forall|f: int| #[trigger] old(self).holds(f, page_id) ==> {
                &&& old(self).pool@[f].pin_count > 0 ==> r == Err::<(), BustubxError>(
                    BustubxError::PagePinned(page_id),
                ) && *final(self) == *old(self)
                &&& old(self).pool@[f].pin_count == 0 ==> {
                    &&& r is Ok
                    &&& !final(self).resident(f)
                    &&& forall|g: int| 0 <= g < old(self).pool@.len() && g != f ==> final(self).pool@[g] == old(self).pool@[g]
                    &&& final(self).disk.images() == old(self).disk.images().update(page_id as int, None)
                }
            },
    {
        match self.find_frame(page_id) {
            None => {
                self.disk.deallocate_page(page_id);
                proof {
                    assert forall|g: int| 0 <= g < self.pool@.len() implies #[trigger] self.frame_ok(g) by {
                        assert(old(self).frame_ok(g));
                    }
                }
                Ok(())
            },
            Some(f) => {
                proof {
                    assert forall|g: int| #[trigger] old(self).holds(g, page_id) implies g == f by {
                        assert(old(self).frame_ok(g));
                    }
                    assert(old(self).frame_ok(f as int));
                }
                if self.pool[f].pin_count > 0 {
                    return Err(BustubxError::PagePinned(page_id));
                }
                let ghost before = *self;
                self.replacer.remove(f);
                let mut page = Page { page_id: INVALID_PAGE_ID, data: Vec::new(), is_dirty: false, pin_count: 0 };
                std::mem::swap(&mut page, &mut self.pool[f]);
                page.page_id = INVALID_PAGE_ID;
                page.is_dirty = false;
                std::mem::swap(&mut page, &mut self.pool[f]);
                self.free_list.push(f);
                self.disk.deallocate_page(page_id);
                proof {
                    let fi = f as int;
                    assert(self.pool@ =~= before.pool@.update(fi, self.pool@[fi]));
                    assert(!before.free_list@.contains(f));
                    assert(self.free_list@.no_duplicates()) by {
                        assert forall|i: int, j: int| 0 <= i < j < self.free_list@.len() implies
                            self.free_list@[i] != self.free_list@[j] by {
                            if j == self.free_list@.len() - 1 {
                                assert(before.free_list@[i] == self.free_list@[i]);
                            }
                        }
                    }
                    assert forall|g: int| 0 <= g < self.pool@.len() implies #[trigger] self.frame_ok(g) by {
                        assert(before.frame_ok(g));
                        if g != fi {
                            assert(self.pool@[g] == before.pool@[g]);
                            assert(self.free_list@.contains(g as usize) <==> before.free_list@.contains(g as usize)) by {
                                if before.free_list@.contains(g as usize) {
                                    let j = choose|j: int| 0 <= j < before.free_list@.len() && before.free_list@[j] == g as usize;
                                    assert(self.free_list@[j] == g as usize);
                                }
                                if self.free_list@.contains(g as usize) {
                                    let j = choose|j: int| 0 <= j < self.free_list@.len() && self.free_list@[j] == g as usize;
                                    assert(j != self.free_list@.len() - 1);
                                    assert(before.free_list@[j] == g as usize);
                                }
                            }
                        } else {
                            assert(self.free_list@[self.free_list@.len() - 1] == f);
                        }
                    }
                    assert forall|g: int, h: int|
                        0 <= g < self.pool@.len() && 0 <= h < self.pool@.len() && self.resident(g)
                            && #[trigger] self.pool@[g].page_id == #[trigger] self.pool@[h].page_id implies g == h by {
                        if g != fi && h != fi {
                            assert(before.pool@[g] == self.pool@[g]);
                            assert(before.pool@[h] == self.pool@[h]);
                        }
                    }
                }
                Ok(())
            },
        }
    }

    /// The bytes of a resident page.
    pub fn page_data(&self, page_id: PageId) -> (r: Option<&Vec<u8>>)
        requires
            self.wf(),
        ensures
            r is Some <==> self.is_resident(page_id),
            forall|f: int| #[trigger] self.holds(f, page_id) ==> r == Some(&self.pool@[f].data),
    {
        match self.find_frame(page_id) {
            None => None,
            Some(f) => {
                proof {
                    assert forall|g: int| #[trigger] self.holds(g, page_id) implies g == f by {
                        assert(self.frame_ok(g));
                    }
                }
                Some(&self.pool[f].data)
            },
        }
    }

    /// The pin count of a resident page.
    pub fn pin_count(&self, page_id: PageId) -> (r: Option<u32>)
        requires
            self.wf(),
        ensures
            r is Some <==> self.is_resident(page_id),
            forall|f: int| #[trigger] self.holds(f, page_id) ==> r == Some(self.pool@[f].pin_count),
    {
        match self.find_frame(page_id) {
            None => None,
            Some(f) => {
                proof {
                    assert forall|g: int| #[trigger] self.holds(g, page_id) implies g == f by {
                        assert(self.frame_ok(g));
                    }
                }
                Some(self.pool[f].pin_count)
            },
        }
    }

    /// Replaces the bytes of a pinned page and marks it dirty. Fails with `PageNotResident` or
    /// `PageNotPinned`, changing nothing.
    pub fn write_page_data(&mut self, page_id: PageId, data: &[u8]) -> (r: BustubxResult<()>)
        requires
            old(self).wf(),
            data@.len() == BUSTUBX_PAGE_SIZE,
        ensures
            final(self).wf(),
            final(self).pool@.len() == old(self).pool@.len(),
            final(self).replacer.k == old(self).replacer.k,
            final(self).replacer.current_timestamp == old(self).replacer.current_timestamp,
            final(self).disk.next_page_id() == old(self).disk.next_page_id(),
            !old(self).is_resident(page_id) ==> r == Err::<(), BustubxError>(BustubxError::PageNotResident(page_id))
                && *final(self) == *old(self),
            forall|f: int| #[trigger] old(self).holds(f, page_id) ==> {
                &&& old(self).pool@[f].pin_count == 0 ==> r == Err::<(), BustubxError>(
                    BustubxError::PageNotPinned(page_id),
                ) && *final(self) == *old(self)
                &&& old(self).pool@[f].pin_count > 0 ==> {
                    &&& r is Ok
                    &&& final(self).pool@[f].data@ == data@
                    &&& final(self).pool@[f].is_dirty
                    &&& final(self).pool@[f].page_id == page_id
                    &&& final(self).pool@[f].pin_count == old(self).pool@[f].pin_count
                    &&& forall|g: int| 0 <= g < old(self).pool@.len() && g != f ==> final(self).pool@[g] == old(self).pool@[g]
                }
            },
    {
        match self.find_frame(page_id) {
            None => Err(BustubxError::PageNotResident(page_id)),
            Some(f) => {
                proof {
                    assert forall|g: int| #[trigger] old(self).holds(g, page_id) implies g == f by {
                        assert(old(self).frame_ok(g));
                    }
                    assert(old(self).frame_ok(f as int));
                }
                if self.pool[f].pin_count == 0 {
                    return Err(BustubxError::PageNotPinned(page_id));
                }
                let ghost before = *self;
                let mut page = Page { page_id: INVALID_PAGE_ID, data: Vec::new(), is_dirty: false, pin_count: 0 };
                std::mem::swap(&mut page, &mut self.pool[f]);
                page.data = vstd::slice::slice_to_vec(data);
                page.is_dirty = true;
                std::mem::swap(&mut page, &mut self.pool[f]);
                proof {
                    assert(self.pool@ =~= before.pool@.update(f as int, self.pool@[f as int]));
                    lemma_frame_update(before, *self, f as int);
                }
                Ok(())
            },
        }
    }
}

} // verus!

verus! {

/// Changing one frame in place, keeping its page id, the free list and the disk store's
/// allocation, keeps the pool well formed where the frame itself is in order.
proof fn lemma_frame_update(a: BufferPoolManager, b: BufferPoolManager, f: int)
    requires
        a.wf(),
        0 <= f < a.pool@.len(),
        b.pool@ == a.pool@.update(f, b.pool@[f]),
        b.pool@[f].page_id == a.pool@[f].page_id,
        b.replacer.wf(),
        b.replacer.nodes@.len() == a.replacer.nodes@.len(),
        forall|g: int| 0 <= g < a.pool@.len() && g != f ==> b.replacer.evictable()[g] == a.replacer.evictable()[g],
        forall|g: int| 0 <= g < a.pool@.len() && g != f ==> b.replacer.histories()[g] == a.replacer.histories()[g],
        b.free_list@ == a.free_list@,
        b.disk.wf(),
        b.disk.next_page_id() == a.disk.next_page_id(),
        b.frame_ok(f),
    ensures
        b.wf(),
{
    assert forall|g: int| 0 <= g < b.pool@.len() implies #[trigger] b.frame_ok(g) by {
        if g != f {
            assert(a.frame_ok(g));
            assert(b.pool@[g] == a.pool@[g]);
        }
    }
    assert forall|g: int, h: int|
        0 <= g < b.pool@.len() && 0 <= h < b.pool@.len() && b.resident(g)
            && #[trigger] b.pool@[g].page_id == #[trigger] b.pool@[h].page_id implies g == h by {
        assert(a.pool@[g].page_id == b.pool@[g].page_id);
        assert(a.pool@[h].page_id == b.pool@[h].page_id);
    }
}

} // verus!

verus! {

/// In a well-formed pool the replacer may only choose frames that hold a page nobody pins, so
/// a pinned page is never evicted.
pub proof fn lemma_evictable_frame_is_unpinned(bpm: BufferPoolManager, f: int)
    requires
        bpm.wf(),
        0 <= f < bpm.pool@.len(),
        bpm.replacer.evictable()[f],
    ensures
        bpm.resident(f),
        bpm.pool@[f].pin_count == 0,
{
    assert(bpm.frame_ok(f));
}

} // verus!
