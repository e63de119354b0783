use bustubx::buffer_pool::BufferPoolManager;
use bustubx::replacer::LRUKReplacer;
use bustubx::{BustubxError, BUSTUBX_PAGE_SIZE};

#[test]
fn exhausted_pool_recovers_after_unpin() {
    let mut bpm = BufferPoolManager::new(2, 2);
    let first = bpm.new_page().unwrap();
    let second = bpm.new_page().unwrap();
    assert_eq!((first, second), (0, 1));
    assert_eq!(bpm.new_page(), Err(BustubxError::PoolExhausted));
    bpm.unpin_page(first, false).unwrap();
    let third = bpm.new_page().unwrap();
    assert_eq!(third, 2);
    assert_eq!(bpm.pin_count(first), None);
    assert_eq!(bpm.pin_count(second), Some(1));
    assert_eq!(bpm.pin_count(third), Some(1));
}

#[test]
fn unpin_at_zero_is_rejected() {
    let mut bpm = BufferPoolManager::new(3, 2);
    let p = bpm.new_page().unwrap();
    assert_eq!(bpm.unpin_page(p, false), Ok(()));
    assert_eq!(bpm.pin_count(p), Some(0));
    assert_eq!(bpm.unpin_page(p, false), Err(BustubxError::PageNotPinned(p)));
    assert_eq!(bpm.pin_count(p), Some(0));
    assert_eq!(bpm.unpin_page(42, true), Err(BustubxError::PageNotResident(42)));
}

#[test]
fn pinned_pages_are_never_evicted() {
    let mut bpm = BufferPoolManager::new(2, 2);
    let a = bpm.new_page().unwrap();
    let b = bpm.new_page().unwrap();
    bpm.unpin_page(b, false).unwrap();
    let c = bpm.new_page().unwrap();
    assert_eq!(bpm.pin_count(a), Some(1));
    assert_eq!(bpm.pin_count(b), None);
    assert_eq!(bpm.pin_count(c), Some(1));
}

#[test]
fn dirty_page_is_written_back_and_fetched() {
    let mut bpm = BufferPoolManager::new(1, 2);
    let p = bpm.new_page().unwrap();
    let mut data = vec![0u8; BUSTUBX_PAGE_SIZE];
    data[0] = 7;
    data[BUSTUBX_PAGE_SIZE - 1] = 9;
    bpm.write_page_data(p, &data).unwrap();
    bpm.unpin_page(p, true).unwrap();
    let q = bpm.new_page().unwrap();
    assert_eq!(bpm.pin_count(p), None);
    bpm.unpin_page(q, false).unwrap();
    bpm.fetch_page(p).unwrap();
    assert_eq!(bpm.page_data(p).unwrap(), &data);
    assert_eq!(bpm.pin_count(p), Some(1));
    bpm.fetch_page(p).unwrap();
    assert_eq!(bpm.pin_count(p), Some(2));
}

#[test]
fn fetch_failures() {
    let mut bpm = BufferPoolManager::new(1, 2);
    assert_eq!(bpm.fetch_page(5), Err(BustubxError::PageNotOnDisk(5)));
    let p = bpm.new_page().unwrap();
    assert_eq!(bpm.fetch_page(7), Err(BustubxError::PoolExhausted));
    assert_eq!(bpm.write_page_data(9, &vec![0u8; BUSTUBX_PAGE_SIZE]), Err(BustubxError::PageNotResident(9)));
    bpm.unpin_page(p, false).unwrap();
    assert_eq!(bpm.write_page_data(p, &vec![1u8; BUSTUBX_PAGE_SIZE]), Err(BustubxError::PageNotPinned(p)));
}

#[test]
fn flush_and_delete() {
    let mut bpm = BufferPoolManager::new(2, 2);
    let p = bpm.new_page().unwrap();
    let data = vec![3u8; BUSTUBX_PAGE_SIZE];
    bpm.write_page_data(p, &data).unwrap();
    assert_eq!(bpm.flush_page(p), Ok(()));
    assert_eq!(bpm.disk.read_page(p), Ok(data.clone()));
    assert_eq!(bpm.flush_page(11), Err(BustubxError::PageNotResident(11)));
    assert_eq!(bpm.delete_page(p), Err(BustubxError::PagePinned(p)));
    bpm.unpin_page(p, false).unwrap();
    assert_eq!(bpm.delete_page(p), Ok(()));
    assert_eq!(bpm.pin_count(p), None);
    assert_eq!(bpm.disk.read_page(p), Err(BustubxError::PageNotOnDisk(p)));
    let q = bpm.new_page().unwrap();
    let r = bpm.new_page().unwrap();
    assert_eq!((q, r), (1, 2));
}

#[test]
fn flush_all_writes_every_dirty_page() {
    let mut bpm = BufferPoolManager::new(3, 2);
    let a = bpm.new_page().unwrap();
    let b = bpm.new_page().unwrap();
    bpm.write_page_data(a, &vec![1u8; BUSTUBX_PAGE_SIZE]).unwrap();
    bpm.write_page_data(b, &vec![2u8; BUSTUBX_PAGE_SIZE]).unwrap();
    bpm.flush_all_pages();
    assert_eq!(bpm.disk.read_page(a), Ok(vec![1u8; BUSTUBX_PAGE_SIZE]));
    assert_eq!(bpm.disk.read_page(b), Ok(vec![2u8; BUSTUBX_PAGE_SIZE]));
    assert!(bpm.pool.iter().all(|p| !p.is_dirty));
}

#[test]
fn lru_k_prefers_infinite_distance_then_oldest() {
    let mut r = LRUKReplacer::new(3, 2);
    for f in [0usize, 1, 2, 0, 1] {
        r.record_access(f);
    }
    for f in 0..3 {
        r.set_evictable(f, true);
    }
    assert_eq!(r.size(), 3);
    assert_eq!(r.evict(), Some(2));
    assert_eq!(r.evict(), Some(0));
    assert_eq!(r.size(), 1);
    r.set_evictable(1, false);
    assert_eq!(r.evict(), None);
    assert_eq!(r.size(), 0);
}

#[test]
fn lru_k_infinite_ties_break_on_latest_access() {
    let mut r = LRUKReplacer::new(2, 3);
    r.record_access(0);
    r.record_access(1);
    r.record_access(0);
    r.set_evictable(0, true);
    r.set_evictable(1, true);
    assert_eq!(r.evict(), Some(1));
    r.record_access(7);
    r.set_evictable(7, true);
    r.remove(7);
    assert_eq!(r.size(), 1);
}
