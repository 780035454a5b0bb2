use zawgl::repository::index::model::{BTreeNode, Cell};
use zawgl::repository::index::store::records::BNodeRecord;
use zawgl::repository::index::store::{
    active_prefix_len, append_key, append_list_ptr, cell_from_records, deactivate_cells, fill_list_ptr_cells, node_from_record, node_record_of, plan_cell_data_ptrs, read_overflow_cells, insert_data_ptr, move_old_cells, read_counter,
    replay_change_log, split_cell, update_counter, BTreeNodePool, CellChangeContext, CellLoadRes,
};
use zawgl::repository::index::store::records::CellRecord;

#[test]
fn test_cell_data_ptrs() {
    let mut c = Cell::new_leaf("k", 1);
    c.append_data_ptr(2);
    c.append_data_ptr(1);
    assert_eq!(c.get_data_ptrs_ref(), &vec![1, 2, 1]);
    c.delete_data_ptr(1);
    assert_eq!(c.get_data_ptrs_ref(), &vec![2]);
    assert!(c.get_change_state().did_list_data_ptr_changed());
    assert_eq!(c.get_key(), "k");
    assert_eq!(c.get_node_ptr(), None);
    c.set_node_ptr(Some(9));
    assert_eq!(c.get_node_ptr(), Some(9));
    let p = Cell::new_ptr("p", Some(4));
    assert_eq!(p.get_node_ptr(), Some(4));
    assert!(p.get_data_ptrs_ref().is_empty());
    let loaded = Cell::new("l", None, vec![5, 6], false);
    assert!(!loaded.get_change_state().is_added());
    assert!(!loaded.get_change_state().did_list_data_ptr_changed());
}

#[test]
fn test_node_cells_and_log() {
    let mut n = BTreeNode::new(true, false, vec![Cell::new_leaf("b", 2)]);
    assert!(n.is_leaf());
    assert!(!n.is_root());
    assert!(n.get_node_changes_state().is_new_instance());
    n.insert_cell(0, Cell::new_leaf("a", 1));
    assert_eq!(n.get_keys(), vec!["a", "b"]);
    assert!(n.get_cell_ref(0).get_change_state().is_added());
    n.remove_cell(1);
    assert!(n.get_cell_ref(1).get_change_state().is_removed());
    assert_eq!(n.get_cells_ref().len(), 2);
    let popped = n.pop_cell().unwrap();
    assert_eq!(popped.get_key(), "b");
    assert!(popped.get_change_state().is_removed());
    let log = n.get_node_changes_state().get_list_change_log();
    assert_eq!(log.len(), 3);
    assert!(log[0].is_add() && log[0].index() == 0);
    assert!(log[1].is_remove() && log[1].index() == 1);
    assert!(log[2].is_remove() && log[2].index() == 1);
    n.get_cell_mut(0).append_data_ptr(7);
    assert_eq!(n.get_cell_ref(0).get_data_ptrs_ref(), &vec![1, 7]);
    n.set_node_ptr(Some(3));
    assert!(n.get_node_changes_state().did_node_ptr_changed());
    assert_eq!(n.get_node_ptr(), Some(3));
    n.set_id(8);
    assert_eq!(n.get_id(), Some(8));
    n.set_is_root(true);
    assert!(n.is_root());
    assert!(!n.is_full());
    let mut empty = BTreeNode::new_with_id(Some(1), None, false, true, vec![]);
    assert!(!empty.get_node_changes_state().is_new_instance());
    assert!(empty.pop_cell().is_none());
    assert!(empty.get_node_changes_state().get_list_change_log().is_empty());
}

#[test]
fn test_node_full_and_inactive_keys() {
    let mut cells = Vec::new();
    for i in 0..10u64 {
        cells.push(Cell::new("x", None, vec![i], i % 2 == 0));
    }
    let n = BTreeNode::new(true, true, cells);
    assert!(n.is_full());
    assert_eq!(n.get_keys().len(), 5);
}

#[test]
fn test_key_and_ptr_buffers() {
    let mut key = vec![b'a'];
    append_key(&mut key, &[b'b', b'c', 0, b'd']);
    assert_eq!(key, vec![b'a', b'b', b'c']);
    append_key(&mut key, &[b'e']);
    assert_eq!(key, vec![b'a', b'b', b'c', b'e']);
    let mut buf = [0u8; 64];
    assert_eq!(update_counter(&mut buf, 2), 2);
    assert_eq!(insert_data_ptr(&mut buf, 2, &0x0102), 8);
    assert_eq!(insert_data_ptr(&mut buf, 10, &7), 8);
    assert_eq!(read_counter(&buf), 2);
    let mut ptrs = vec![9];
    append_list_ptr(&mut ptrs, &buf);
    assert_eq!(ptrs, vec![9, 0x0102, 7]);
}

#[test]
fn test_split_cell_into_records() {
    let cell = Cell::new("abc", None, vec![1, 2, 3, 4, 5, 6, 7, 8, 9], true);
    let records = split_cell(&cell);
    assert_eq!(records.len(), 3);
    assert_eq!(records[0].header, 0b0100_0000);
    assert_eq!(&records[0].key[0..4], &[b'a', b'b', b'c', 0]);
    assert_eq!(records[1].header, 0b0110_0000);
    assert_eq!(read_counter(&records[1].key), 7);
    assert_eq!(read_counter(&records[2].key), 2);
    let mut ptrs = Vec::new();
    append_list_ptr(&mut ptrs, &records[1].key);
    append_list_ptr(&mut ptrs, &records[2].key);
    assert_eq!(ptrs, vec![1, 2, 3, 4, 5, 6, 7, 8, 9]);
    let mut key = Vec::new();
    append_key(&mut key, &records[0].key);
    assert_eq!(key, b"abc".to_vec());
}

#[test]
fn test_split_cell_long_key_no_ptrs() {
    let long = "k".repeat(70);
    let cell = Cell::new(&long, Some(4), vec![], true);
    let records = split_cell(&cell);
    assert_eq!(records.len(), 2);
    assert_eq!(records[0].key, [b'k'; 64]);
    assert_eq!(&records[1].key[0..7], &[b'k', b'k', b'k', b'k', b'k', b'k', 0]);
    let exact = Cell::new(&"x".repeat(64), None, vec![10; 7], true);
    let r = split_cell(&exact);
    assert_eq!(r.len(), 2);
    assert_eq!(read_counter(&r[1].key), 7);
}

#[test]
fn test_replay_change_log() {
    let cells = vec![Cell::new_leaf("a", 1), Cell::new_leaf("b", 2), Cell::new_leaf("c", 3)];
    let mut node = BTreeNode::new_with_id(Some(1), None, true, false, cells);
    node.insert_cell(1, Cell::new_leaf("x", 9));
    node.remove_cell(0);
    let (ctxs, deleted) = replay_change_log(3, node.get_node_changes_state().get_list_change_log());
    assert_eq!(ctxs.len(), 3);
    assert!(ctxs[0].is_added);
    assert_eq!((ctxs[1].old_cell_id, ctxs[1].is_added), (1, false));
    assert_eq!((ctxs[2].old_cell_id, ctxs[2].is_added), (2, false));
    assert_eq!(deleted, vec![0]);
    let (fresh, none) = replay_change_log(2, &node_log_of_new_node());
    assert_eq!(fresh.len(), 2);
    assert!(none.is_empty());
}

fn node_log_of_new_node() -> Vec<zawgl::repository::index::model::CellChangeLogItem> {
    Vec::new()
}

#[test]
fn test_record_cell_moves() {
    let mut rec = BNodeRecord::new();
    rec.cells[0].set_is_active();
    rec.cells[1].set_is_active();
    rec.cells[1].node_ptr = 11;
    rec.cells[2].node_ptr = 22;
    assert_eq!(active_prefix_len(&rec), 2);
    deactivate_cells(&mut rec, &vec![0]);
    assert!(!rec.cells[0].is_active());
    assert!(rec.cells[1].is_active());
    assert_eq!(active_prefix_len(&rec), 0);
    move_old_cells(&mut rec, &[CellChangeContext::old_cell(2), CellChangeContext::added(), CellChangeContext::old_cell(1)]);
    assert_eq!(rec.cells[0].node_ptr, 22);
    assert_eq!(rec.cells[1].node_ptr, 11);
    assert_eq!(rec.cells[2].node_ptr, 11);
}

#[test]
fn test_node_pool() {
    let mut pool = BTreeNodePool::new();
    assert_eq!(pool.put(BTreeNode::new(true, true, vec![])), None);
    let mut n = BTreeNode::new(true, false, vec![]);
    n.set_id(7);
    assert_eq!(pool.put(n), Some(7));
    assert!(pool.contains(&7));
    assert!(pool.get_ref(&7).unwrap().is_leaf());
    pool.get_mut(&7).unwrap().set_is_root(true);
    assert!(pool.get_ref(&7).unwrap().is_root());
    assert!(pool.get_ref(&8).is_none());
    pool.clear();
    assert!(!pool.contains(&7));
}

fn read_back(records: &[CellRecord]) -> Cell {
    let mut chain: Vec<CellRecord> = records[1..].to_vec();
    chain.reverse();
    cell_from_records(&records[0], &chain)
}

#[test]
fn test_cell_records_read_back_leaf() {
    let key = "x".repeat(150);
    let ptrs: Vec<u64> = (1..=16).collect();
    let cell = Cell::new(&key, None, ptrs.clone(), true);
    let records = split_cell(&cell);
    assert_eq!(records.len(), 3 + 3);
    let back = read_back(&records);
    assert_eq!(back.get_key(), &key);
    assert_eq!(back.get_data_ptrs_ref(), &ptrs);
    assert_eq!(back.get_node_ptr(), None);
}

#[test]
fn test_cell_records_read_back_interior() {
    let cell = Cell::new("short", Some(42), vec![], true);
    let mut records = split_cell(&cell);
    assert_eq!(records.len(), 1);
    records[0].node_ptr = 42;
    let back = read_back(&records);
    assert_eq!(back.get_key(), "short");
    assert_eq!(back.get_node_ptr(), Some(42));
    assert!(back.get_data_ptrs_ref().is_empty());
}

#[test]
fn test_read_overflow_cells_order() {
    let mut a = CellRecord::new();
    a.key[0] = b'a';
    a.node_ptr = 7;
    let mut b = CellRecord::new();
    b.key[0] = b'b';
    b.node_ptr = 8;
    let root = CellRecord::new();
    let mut key = Vec::new();
    match read_overflow_cells(&root, &vec![a, b], &mut key) {
        CellLoadRes::InteriorCell(id) => assert_eq!(id, 8),
        CellLoadRes::LeafCell(_) => panic!("no list record"),
    }
    assert_eq!(key, b"ba".to_vec());
    let mut none = Vec::new();
    match read_overflow_cells(&root, &vec![], &mut none) {
        CellLoadRes::InteriorCell(id) => assert_eq!(id, 0),
        CellLoadRes::LeafCell(_) => panic!("empty chain"),
    }
}

fn list_record(ptrs: &[u64]) -> CellRecord {
    let mut r = CellRecord::new();
    r.set_is_active();
    r.set_is_list_ptr();
    update_counter(&mut r.key, ptrs.len() as u16);
    for (i, p) in ptrs.iter().enumerate() {
        insert_data_ptr(&mut r.key, 2 + 8 * i, p);
    }
    r
}

fn listed(r: &CellRecord) -> Vec<u64> {
    let mut v = Vec::new();
    append_list_ptr(&mut v, &r.key);
    v
}

#[test]
fn test_fill_list_ptr_cells_appends_then_creates() {
    let first = list_record(&[1, 2, 3, 4, 5]);
    let data: Vec<u64> = (1..=14).collect();
    let (updated, created, unused) = fill_list_ptr_cells(vec![first], &data, 6).unwrap();
    assert_eq!(updated.len(), 1);
    assert_eq!(listed(&updated[0]), vec![1, 2, 3, 4, 5, 6, 7]);
    assert_eq!(created.len(), 1);
    assert_eq!(listed(&created[0]), vec![8, 9, 10, 11, 12, 13, 14]);
    assert_eq!(created[0].header, 0b0110_0000);
    assert!(unused.is_empty());
}

#[test]
fn test_fill_list_ptr_cells_reuses_chain_from_its_end() {
    let a = list_record(&[1, 2, 3, 4, 5, 6, 7]);
    let b = list_record(&[8, 9]);
    let c = list_record(&[100, 101, 102, 103, 104, 105, 106]);
    let data: Vec<u64> = vec![20, 21, 22];
    let (updated, created, unused) = fill_list_ptr_cells(vec![a, b, c], &data, 1).unwrap();
    assert_eq!(updated.len(), 2);
    assert_eq!(listed(&updated[0]), vec![100, 101, 102, 103, 104, 105, 106]);
    assert_eq!(listed(&updated[1]), vec![20, 21, 22]);
    assert!(created.is_empty());
    assert_eq!(unused.len(), 1);
    assert_eq!(listed(&unused[0]), vec![1, 2, 3, 4, 5, 6, 7]);
    assert!(fill_list_ptr_cells(vec![], &data, 1).is_none());
}

#[test]
fn test_plan_cell_data_ptrs_keeps_list_records() {
    let mut key_rec = CellRecord::new();
    key_rec.set_is_active();
    key_rec.key[0] = b'k';
    let lst = list_record(&[1]);
    let (updated, created, unused) = plan_cell_data_ptrs(&vec![key_rec, lst], &vec![1, 2, 3], 2).unwrap();
    assert_eq!(listed(&updated[0]), vec![1, 2, 3]);
    assert!(created.is_empty());
    assert!(unused.is_empty());
    assert!(plan_cell_data_ptrs(&vec![key_rec], &vec![1], 1).is_none());
}

#[test]
fn test_node_record_of_and_back() {
    let mut node = BTreeNode::new(true, true, vec![Cell::new_leaf("a", 1), Cell::new_leaf("b", 2)]);
    node.set_node_ptr(Some(77));
    let mut r0 = CellRecord::new();
    r0.key[0] = b'a';
    let mut r1 = CellRecord::new();
    r1.key[0] = b'b';
    let record = node_record_of(&node, &vec![r0, r1]);
    assert_eq!(record.header, 0b1101_0000);
    assert_eq!(record.ptr, 77);
    assert_eq!(record.cells[1].key[0], b'b');
    assert_eq!(record.cells[2].header, 0);
    assert!(record.is_leaf() && record.is_root() && record.has_next_node() && !record.is_overflow_node());
    let back = node_from_record(5, &record, vec![Cell::new_leaf("a", 1)]);
    assert_eq!(back.get_id(), Some(5));
    assert!(back.is_leaf());
    assert!(back.is_root());
    assert_eq!(back.get_node_ptr(), Some(77));
    assert_eq!(back.get_cells_ref().len(), 1);
    let plain = BTreeNode::new(false, false, vec![]);
    let rec = node_record_of(&plain, &vec![]);
    assert_eq!(rec.header, 0);
    assert_eq!(rec.ptr, 0);
    let back = node_from_record(1, &rec, vec![]);
    assert_eq!(back.get_node_ptr(), None);
    assert!(!back.is_leaf());
}
