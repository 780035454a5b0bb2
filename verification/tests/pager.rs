use zawgl::repository::pager::page_cache::PageCache;
use zawgl::repository::pager::{make_empty_heap_page, make_heap_page, page_in_file, Bounds, HeaderPage, HeaderPageMap, Page, PagerCache};

fn header() -> HeaderPage {
    HeaderPage::new(make_empty_heap_page(0))
}

#[test]
fn test_bounds_arithmetic() {
    let b = Bounds::new(3, 10);
    assert_eq!(b.len(), 7);
    let s = b.shift(4);
    assert_eq!((s.begin, s.end), (10, 14));
    let sub = b.sub(2, 3);
    assert_eq!((sub.begin, sub.end), (5, 8));
    let f = Bounds::from_offset_and_len(6, 2);
    assert_eq!((f.begin, f.end), (6, 8));
    let _ = HeaderPageMap::new();
}

#[test]
fn test_header_counters_read_back_what_was_written() {
    let mut h = header();
    assert!(h.is_empty());
    h.set_page_count(12);
    h.set_header_first_free_page_ptr(7);
    h.set_header_records_counter(1000);
    h.set_header_records_version_counter(33);
    assert_eq!(h.get_page_count(), 12);
    assert_eq!(h.get_header_first_free_page_ptr(), 7);
    assert_eq!(h.get_header_records_counter(), 1000);
    assert_eq!(h.get_header_records_version_counter(), 33);
    assert!(!h.is_empty());
    h.set_header_records_counter(5);
    assert_eq!(h.get_header_records_counter(), 5);
    assert_eq!(h.get_header_records_version_counter(), 33);
    assert_eq!(h.get_page_count(), 12);
}

#[test]
fn test_header_counters_layout() {
    let mut h = header();
    h.set_page_count(0x0102);
    assert_eq!(h.page.data[6], 1);
    assert_eq!(h.page.data[7], 2);
    h.set_header_first_free_page_ptr(3);
    assert_eq!(h.page.data[15], 3);
    h.set_header_records_counter(4);
    assert_eq!(h.page.data[23], 4);
    h.set_header_records_version_counter(5);
    assert_eq!(h.page.data[31], 5);
}

#[test]
fn test_header_payload_bounds() {
    let mut h = header();
    h.write_header_payload_to_bounds(Bounds::new(10, 13), &[9, 8, 7]);
    let mut out = [0u8; 3];
    h.read_header_payload_from_bounds(Bounds::new(10, 13), &mut out);
    assert_eq!(out, [9, 8, 7]);
    assert_eq!(h.page.data[24 + 10], 9);
    let mut raw = [0u8; 2];
    h.write_header_to_bounds(Bounds::new(100, 102), &[1, 2]);
    h.read_header_from_bounds(Bounds::new(100, 102), &mut raw);
    assert_eq!(raw, [1, 2]);
}

#[test]
fn test_pages() {
    let mut data = [0u8; 4096];
    data[5] = 42;
    let p = make_heap_page(3, data);
    assert_eq!(p.id, 3);
    assert_eq!(p.data[5], 42);
    let q = Page::new(4, [1u8; 4096]);
    assert_eq!(q.data[4095], 1);
}

#[test]
fn test_page_cache_put_get_drop() {
    let mut cache = PageCache::new(10);
    let mut a = [0u8; 4096];
    a[0] = 1;
    let mut b = [0u8; 4096];
    b[0] = 2;
    cache.put(a, 10).unwrap()[1] = 11;
    cache.put(b, 20);
    assert!(cache.contains_page_id(&10));
    assert_eq!(cache.get_ref(&10).unwrap()[0], 1);
    assert_eq!(cache.get_ref(&10).unwrap()[1], 11);
    assert_eq!(cache.get_ref(&20).unwrap()[0], 2);
    assert!(cache.get_ref(&30).is_none());
    cache.get_mut(&20).unwrap()[3] = 5;
    assert_eq!(cache.get_ref(&20).unwrap()[3], 5);
    let mut ids = cache.get_page_ids();
    ids.sort();
    assert_eq!(ids, vec![10, 20]);
    cache.drop_page(&10);
    assert!(!cache.contains_page_id(&10));
    let mut c = [0u8; 4096];
    c[0] = 3;
    cache.put(c, 30);
    assert_eq!(cache.get_ref(&30).unwrap()[0], 3);
    assert!(cache.get_mut(&99).is_none());
}

#[test]
fn test_pager_cache_positions() {
    let mut c = PagerCache::new();
    assert_eq!(c.position(3), None);
    let p0 = c.insert(make_empty_heap_page(3));
    let p1 = c.insert(make_empty_heap_page(5));
    assert_eq!((p0, p1), (0, 1));
    assert_eq!(c.position(5), Some(1));
    c.page_data_mut(1)[7] = 9;
    assert_eq!(c.page_ref(1).data[7], 9);
    assert_eq!(c.page_ref(1).id, 5);
    let mut ids = c.page_ids();
    ids.sort();
    assert_eq!(ids, vec![3, 5]);
    assert!(page_in_file(4, 4));
    assert!(!page_in_file(4, 5));
}
