use zawgl::repository::records::{
    compute_freelist_size, compute_location, compute_nb_pages_per_record, compute_page_map, compute_unused_page_size,
    copy_payload_to_buffer, max_nb_records, RecordPageWrapper,
};

#[test]
fn test_page_map_layout() {
    let m = compute_page_map(10, 0);
    assert_eq!((m.header_flags.begin, m.header_flags.end), (0, 1));
    assert_eq!((m.next_free_page_ptr.begin, m.next_free_page_ptr.end), (1, 9));
    assert_eq!((m.free_list_len.begin, m.free_list_len.end), (9, 13));
    assert_eq!((m.free_list.begin, m.free_list.end), (13, 53));
    assert_eq!((m.payload.begin, m.payload.end), (53, 4096));
    assert!(!m.is_multi_page_record);
    assert!(compute_page_map(1, 2).is_multi_page_record);
    assert_eq!(max_nb_records(32), (4096 - 13) / 32);
    assert_eq!(compute_unused_page_size(32), (4096 - 13) % 32);
    assert_eq!(compute_freelist_size(5), 20);
    assert_eq!(compute_nb_pages_per_record(9000, 4000), 2);
}

#[test]
fn test_record_locations() {
    let m = compute_page_map(10, 0);
    let size = 100;
    let per_page = (4096 - 53) / 100;
    let first = compute_location(&m, size, 1);
    assert_eq!(first.page_id, 1);
    assert_eq!(first.record_id_in_page, 0);
    assert_eq!(first.page_record_address, 53);
    let l = compute_location(&m, size, per_page as u64 + 2);
    assert_eq!(l.page_id, 2);
    assert_eq!(l.record_id_in_page, 1);
    assert_eq!(l.payload_record_address, 100);
    assert!(!l.is_multi_pages_record);
    let mm = compute_page_map(1, 2);
    let big = compute_location(&mm, 9000, 3);
    assert!(big.is_multi_pages_record);
    assert_eq!(big.nb_pages_per_record, 9000 / (4096 - 17));
    assert_eq!(big.page_id, 1 + 2 * 2);
}

#[test]
fn test_free_list_of_a_page() {
    let m = compute_page_map(4, 0);
    let mut w = RecordPageWrapper::new(5, [0u8; 4096], m);
    assert_eq!(w.get_id(), 5);
    assert!(w.is_page_free_list_empty());
    w.init_page_free_list();
    assert_eq!(w.get_free_list_len(), 4);
    assert_eq!(w.get_page_free_list(), vec![0, 1, 2, 3]);
    assert_eq!(w.pop_free_list_item(), Some(3));
    assert_eq!(w.get_page_free_list(), vec![0, 1, 2]);
    w.set_free_next_page_ptr(77);
    assert_eq!(w.get_free_next_page_ptr(), 77);
    assert!(!w.is_page_in_use());
    w.set_page_in_use();
    assert!(w.is_page_in_use());
    assert!(!w.has_next_page_record());
    w.set_free_list_len(0);
    assert_eq!(w.pop_free_list_item(), None);
}

#[test]
fn test_append_free_list_item_writes_after_the_list() {
    let m = compute_page_map(4, 0);
    let mut w = RecordPageWrapper::new(1, [0u8; 4096], m);
    w.init_page_free_list();
    w.set_free_list_len(2);
    w.append_free_list_item(1);
    assert_eq!(w.get_free_list_len(), 3);
    let page = w.into_page();
    assert_eq!(&page[29..41], &[0, 0, 0, 0, 0, 0, 0, 1, 0, 0, 0, 1]);
}

#[test]
fn test_copy_payload_to_buffer() {
    let mut small = [0u8; 2];
    copy_payload_to_buffer(&mut small, &[1, 2, 3]);
    assert_eq!(small, [1, 2]);
    let mut big = [9u8; 4];
    copy_payload_to_buffer(&mut big, &[1, 2]);
    assert_eq!(big, [1, 2, 9, 9]);
}
