use zawgl::byte_utils::{u64_from_bytes, u64_to_bytes};
use zawgl::repository::index::store::records::BNodeRecord;
use zawgl::repository::store::records::{
    dr_from_bytes, dr_to_bytes, pr_from_bytes, pr_to_bytes, DynamicStoreRecord, NodeRecord, PropertyRecord,
    RelationshipRecord,
};

#[test]
fn test_u64() {
    let val = 977856654765u64;
    let bytes = u64_to_bytes(val);
    assert_eq!(u64_from_bytes(&bytes), val);
}

#[test]
fn test_node_record() {
    let val = NodeRecord { next_prop_id: 100, first_inbound_edge: 32, first_outbound_edge: 55, node_type: 4 };
    let bytes = val.to_bytes();
    let nr = NodeRecord::from_bytes(bytes);
    assert_eq!(nr.first_outbound_edge, 55);
    assert_eq!(nr.first_inbound_edge, 32);
    assert_eq!(nr.next_prop_id, 100u64);
    assert_eq!(nr.node_type, 4);
}

#[test]
fn test_relationship_record() {
    let val = RelationshipRecord {
        source: 2,
        target: 3,
        next_inbound_edge: 4,
        next_outbound_edge: 5,
        relationship_type: 33,
        next_prop_id: 100,
    };
    let bytes = val.to_bytes();
    let rr = RelationshipRecord::from_bytes(bytes);
    assert_eq!(rr.source, 2);
    assert_eq!(rr.target, 3);
    assert_eq!(rr.next_inbound_edge, 4);
    assert_eq!(rr.next_outbound_edge, 5);
    assert_eq!(rr.relationship_type, 33);
    assert_eq!(rr.next_prop_id, 100);
}

#[test]
fn test_bytes() {
    let mut node = BNodeRecord::new();
    node.set_leaf();
    node.next_free_cells_node_ptr = 28967;
    node.set_has_next_node();
    node.cells[0].set_is_active();
    let bytes = node.to_bytes();
    let mut from = BNodeRecord::from_bytes(&bytes);

    assert!(from.is_leaf());
    assert_eq!(from.next_free_cells_node_ptr, 28967);
    assert!(from.has_next_node());
    assert!(from.cells[0].is_active());
    from.cells[0].set_is_list_ptr();
    from.cells[0].set_inactive();

    let fbytes = from.to_bytes();
    let from_1 = BNodeRecord::from_bytes(&fbytes);

    assert!(from_1.is_leaf());
    assert!(from_1.has_next_node());
    assert!(!from_1.cells[0].is_active());
    assert!(from_1.cells[0].is_list_ptr());
}

#[test]
fn test_u64_big_endian_layout() {
    assert_eq!(u64_to_bytes(0x0102030405060708), [1, 2, 3, 4, 5, 6, 7, 8]);
}

#[test]
fn test_node_record_layout() {
    let val = NodeRecord { first_outbound_edge: 1, first_inbound_edge: 2, next_prop_id: 3, node_type: 0x0a0b };
    let b = val.to_bytes();
    assert_eq!(b[7], 1);
    assert_eq!(b[15], 2);
    assert_eq!(b[23], 3);
    assert_eq!(b[30], 0x0a);
    assert_eq!(b[31], 0x0b);
    let new = NodeRecord::new();
    assert_eq!(new.to_bytes(), [0u8; 32]);
}

#[test]
fn test_relationship_record_new() {
    let r = RelationshipRecord::new(7, 9);
    assert_eq!(r.source, 7);
    assert_eq!(r.target, 9);
    assert_eq!(r.relationship_type, 0);
    assert_eq!(r.next_prop_id, 0);
}

#[test]
fn test_dynamic_record_roundtrip() {
    let mut data = [0u8; 120];
    data[0] = 9;
    data[119] = 200;
    let dr = DynamicStoreRecord { in_use: true, has_next: true, next: 77, data };
    let b = dr_to_bytes(&dr);
    assert_eq!(b[0], 0b0000_1001);
    assert_eq!(b[9], 9);
    assert_eq!(b[128], 200);
    let back = dr_from_bytes(b);
    assert!(back.in_use);
    assert!(back.has_next);
    assert_eq!(back.next, 77);
    assert_eq!(back.data, data);
}

#[test]
fn test_property_record_roundtrip() {
    let mut block = [0u8; 24];
    block[5] = 42;
    let pr = PropertyRecord {
        in_use: true,
        key_inlined: true,
        full_inlined: false,
        has_next: true,
        prop_type: 3,
        key_id: 1234,
        prop_block: block,
        next_prop_id: 99,
    };
    let b = pr_to_bytes(&pr);
    assert_eq!(b[0], 0b0000_1101);
    assert_eq!(b[1], 3);
    let back = pr_from_bytes(b);
    assert!(back.in_use);
    assert!(back.key_inlined);
    assert!(!back.full_inlined);
    assert!(back.has_next);
    assert_eq!(back.prop_type, 3);
    assert_eq!(back.key_id, 1234);
    assert_eq!(back.prop_block, block);
    assert_eq!(back.next_prop_id, 99);
}

#[test]
fn test_cell_record_fields_roundtrip() {
    let mut node = BNodeRecord::new();
    node.set_root();
    node.set_overflow_node();
    node.ptr = 5;
    node.cells[9].node_ptr = 123456789;
    node.cells[9].overflow_cell_ptr = 7;
    node.cells[9].key[63] = b'z';
    node.cells[9].set_has_overflow();
    for i in 0..10 {
        node.cells[i].set_is_active();
    }
    assert!(node.is_full());
    let back = BNodeRecord::from_bytes(&node.to_bytes());
    assert!(back.is_root());
    assert!(back.is_overflow_node());
    assert!(!back.is_leaf());
    assert_eq!(back.ptr, 5);
    assert_eq!(back.get_ptr_value(9), 123456789);
    assert_eq!(back.cells[9].get_next_cell_location(), (123456789, 7));
    assert_eq!(back.cells[9].key[63], b'z');
    assert!(back.cells[9].has_overflow());
    assert!(back.is_full());
    let mut other = back;
    other.set_is_not_root();
    assert!(!other.is_root());
    other.cells[3].set_inactive();
    assert!(!other.is_full());
    other.cells[3].chain_with_cell_location((1, 2));
    assert_eq!(other.cells[3].get_next_cell_location(), (1, 2));
}
