use vstd::prelude::*;
use crate::buf_config::{NODE_RECORD_SIZE, RELATIONSHIP_RECORD_SIZE, RELATIONSHIP_ID_SIZE, PROPERTY_ID_SIZE, NODE_ID_SIZE, RELATIONSHIP_TYPE_SIZE, NODE_TYPE_SIZE};
use crate::byte_utils::{
    spec_u64_to_be, spec_u64_from_be, lemma_u64_be_value_roundtrip, lemma_u64_be_bytes_roundtrip,
    u64_to_bytes, u64_from_bytes_at, write_at, read_array,
};

verus! {

/// A node as stored in the nodes file.
pub struct NodeRecord {
    pub first_outbound_edge: u64,
    pub first_inbound_edge: u64,
    pub next_prop_id: u64,
    pub node_type: u64,
}

/// The bytes of a node record: its four fields, big-endian, in order.
pub open spec fn node_record_bytes(r: NodeRecord) -> Seq<u8> {
    spec_u64_to_be(r.first_outbound_edge) + spec_u64_to_be(r.first_inbound_edge) + spec_u64_to_be(
        r.next_prop_id,
    ) + spec_u64_to_be(r.node_type)
}

/// The node record held by 32 bytes.
pub open spec fn node_record_from(b: Seq<u8>) -> NodeRecord {
    NodeRecord {
        first_outbound_edge: spec_u64_from_be(b.subrange(0, 8)),
        first_inbound_edge: spec_u64_from_be(b.subrange(8, 16)),
        next_prop_id: spec_u64_from_be(b.subrange(16, 24)),
        node_type: spec_u64_from_be(b.subrange(24, 32)),
    }
}

impl NodeRecord {
    pub fn new() -> (r: Self)
        ensures
            r == (NodeRecord { first_outbound_edge: 0, first_inbound_edge: 0, next_prop_id: 0, node_type: 0 }),
    {
        NodeRecord { first_outbound_edge: 0, first_inbound_edge: 0, next_prop_id: 0, node_type: 0 }
    }

    pub fn to_bytes(&self) -> (r: [u8; NODE_RECORD_SIZE])
        ensures
            r@ == node_record_bytes(*self),
    {
        let mut bytes: [u8; NODE_RECORD_SIZE] = [0; NODE_RECORD_SIZE];
        let mut offset: usize = 0;
        write_at(&mut bytes, offset, &u64_to_bytes(self.first_outbound_edge));
        offset += RELATIONSHIP_ID_SIZE;
        write_at(&mut bytes, offset, &u64_to_bytes(self.first_inbound_edge));
        offset += RELATIONSHIP_ID_SIZE;
        write_at(&mut bytes, offset, &u64_to_bytes(self.next_prop_id));
        offset += PROPERTY_ID_SIZE;
        write_at(&mut bytes, offset, &u64_to_bytes(self.node_type));
        assert(bytes@ =~= node_record_bytes(*self));
        bytes
    }

    pub fn from_bytes(bytes: [u8; NODE_RECORD_SIZE]) -> (r: NodeRecord)
        ensures
            r == node_record_from(bytes@),
    {
        let mut offset: usize = 0;
        let out_rel_id = u64_from_bytes_at(&bytes, offset);
        offset += RELATIONSHIP_ID_SIZE;
        let in_rel_id = u64_from_bytes_at(&bytes, offset);
        offset += RELATIONSHIP_ID_SIZE;
        let prop_id = u64_from_bytes_at(&bytes, offset);
        offset += NODE_TYPE_SIZE;
        let node_type = u64_from_bytes_at(&bytes, offset);
        NodeRecord { first_outbound_edge: out_rel_id, first_inbound_edge: in_rel_id, next_prop_id: prop_id, node_type }
    }
}

/// Reading back the bytes of a node record gives the record; writing the
/// record read from 32 bytes gives the bytes.
pub proof fn lemma_node_record_roundtrip(r: NodeRecord, b: Seq<u8>)
    requires
        b.len() == NODE_RECORD_SIZE,
    ensures
        node_record_from(node_record_bytes(r)) == r,
        node_record_bytes(node_record_from(b)) == b,
{
    let e = node_record_bytes(r);
    assert(e.subrange(0, 8) =~= spec_u64_to_be(r.first_outbound_edge));
    assert(e.subrange(8, 16) =~= spec_u64_to_be(r.first_inbound_edge));
    assert(e.subrange(16, 24) =~= spec_u64_to_be(r.next_prop_id));
    assert(e.subrange(24, 32) =~= spec_u64_to_be(r.node_type));
    lemma_u64_be_value_roundtrip(r.first_outbound_edge);
    lemma_u64_be_value_roundtrip(r.first_inbound_edge);
    lemma_u64_be_value_roundtrip(r.next_prop_id);
    lemma_u64_be_value_roundtrip(r.node_type);
    lemma_u64_be_bytes_roundtrip(b.subrange(0, 8));
    lemma_u64_be_bytes_roundtrip(b.subrange(8, 16));
    lemma_u64_be_bytes_roundtrip(b.subrange(16, 24));
    lemma_u64_be_bytes_roundtrip(b.subrange(24, 32));
    assert(node_record_bytes(node_record_from(b)) =~= b);
}

/// A relationship as stored in the relationships file.
pub struct RelationshipRecord {
    pub source: u64,
    pub target: u64,
    pub relationship_type: u64,
    pub next_outbound_edge: u64,
    pub next_inbound_edge: u64,
    pub next_prop_id: u64,
}

/// The bytes of a relationship record: its six fields, big-endian, in order.
pub open spec fn relationship_record_bytes(r: RelationshipRecord) -> Seq<u8> {
    spec_u64_to_be(r.source) + spec_u64_to_be(r.target) + spec_u64_to_be(r.relationship_type) + spec_u64_to_be(
        r.next_outbound_edge,
    ) + spec_u64_to_be(r.next_inbound_edge) + spec_u64_to_be(r.next_prop_id)
}

/// The relationship record held by 48 bytes.
pub open spec fn relationship_record_from(b: Seq<u8>) -> RelationshipRecord {
    RelationshipRecord {
        source: spec_u64_from_be(b.subrange(0, 8)),
        target: spec_u64_from_be(b.subrange(8, 16)),
        relationship_type: spec_u64_from_be(b.subrange(16, 24)),
        next_outbound_edge: spec_u64_from_be(b.subrange(24, 32)),
        next_inbound_edge: spec_u64_from_be(b.subrange(32, 40)),
        next_prop_id: spec_u64_from_be(b.subrange(40, 48)),
    }
}

impl RelationshipRecord {
    pub fn new(first_node: u64, second_node: u64) -> (r: Self)
        ensures
            r == (RelationshipRecord {
                source: first_node,
                target: second_node,
                relationship_type: 0,
                next_outbound_edge: 0,
                next_inbound_edge: 0,
                next_prop_id: 0,
            }),
    {
        RelationshipRecord {
            source: first_node,
            target: second_node,
            relationship_type: 0,
            next_outbound_edge: 0,
            next_inbound_edge: 0,
            next_prop_id: 0,
        }
    }

    pub fn to_bytes(&self) -> (r: [u8; RELATIONSHIP_RECORD_SIZE])
        ensures
            r@ == relationship_record_bytes(*self),
    {
        let mut bytes: [u8; RELATIONSHIP_RECORD_SIZE] = [0; RELATIONSHIP_RECORD_SIZE];
        let mut offset: usize = 0;
        write_at(&mut bytes, offset, &u64_to_bytes(self.source));
        offset += NODE_ID_SIZE;
        write_at(&mut bytes, offset, &u64_to_bytes(self.target));
        offset += NODE_ID_SIZE;
        write_at(&mut bytes, offset, &u64_to_bytes(self.relationship_type));
        offset += RELATIONSHIP_TYPE_SIZE;
        write_at(&mut bytes, offset, &u64_to_bytes(self.next_outbound_edge));
        offset += RELATIONSHIP_ID_SIZE;
        write_at(&mut bytes, offset, &u64_to_bytes(self.next_inbound_edge));
        offset += RELATIONSHIP_ID_SIZE;
        write_at(&mut bytes, offset, &u64_to_bytes(self.next_prop_id));
        assert(bytes@ =~= relationship_record_bytes(*self));
        bytes
    }

    pub fn from_bytes(bytes: [u8; RELATIONSHIP_RECORD_SIZE]) -> (r: RelationshipRecord)
        ensures
            r == relationship_record_from(bytes@),
    {
        let mut offset: usize = 0;
        let s = u64_from_bytes_at(&bytes, offset);
        offset += NODE_ID_SIZE;
        let t = u64_from_bytes_at(&bytes, offset);
        offset += NODE_ID_SIZE;
        let rt = u64_from_bytes_at(&bytes, offset);
        offset += RELATIONSHIP_TYPE_SIZE;
        let out_rel = u64_from_bytes_at(&bytes, offset);
        offset += RELATIONSHIP_ID_SIZE;
        let in_rel = u64_from_bytes_at(&bytes, offset);
        offset += RELATIONSHIP_ID_SIZE;
        let p = u64_from_bytes_at(&bytes, offset);
        RelationshipRecord {
            source: s,
            target: t,
            relationship_type: rt,
            next_outbound_edge: out_rel,
            next_inbound_edge: in_rel,
            next_prop_id: p,
        }
    }
}

/// Reading back the bytes of a relationship record gives the record; writing
/// the record read from 48 bytes gives the bytes.
pub proof fn lemma_relationship_record_roundtrip(r: RelationshipRecord, b: Seq<u8>)
    requires
        b.len() == RELATIONSHIP_RECORD_SIZE,
    ensures
        relationship_record_from(relationship_record_bytes(r)) == r,
        relationship_record_bytes(relationship_record_from(b)) == b,
{
    let e = relationship_record_bytes(r);
    assert(e.subrange(0, 8) =~= spec_u64_to_be(r.source));
    assert(e.subrange(8, 16) =~= spec_u64_to_be(r.target));
    assert(e.subrange(16, 24) =~= spec_u64_to_be(r.relationship_type));
    assert(e.subrange(24, 32) =~= spec_u64_to_be(r.next_outbound_edge));
    assert(e.subrange(32, 40) =~= spec_u64_to_be(r.next_inbound_edge));
    assert(e.subrange(40, 48) =~= spec_u64_to_be(r.next_prop_id));
    lemma_u64_be_value_roundtrip(r.source);
    lemma_u64_be_value_roundtrip(r.target);
    lemma_u64_be_value_roundtrip(r.relationship_type);
    lemma_u64_be_value_roundtrip(r.next_outbound_edge);
    lemma_u64_be_value_roundtrip(r.next_inbound_edge);
    lemma_u64_be_value_roundtrip(r.next_prop_id);
    lemma_u64_be_bytes_roundtrip(b.subrange(0, 8));
    lemma_u64_be_bytes_roundtrip(b.subrange(8, 16));
    lemma_u64_be_bytes_roundtrip(b.subrange(16, 24));
    lemma_u64_be_bytes_roundtrip(b.subrange(24, 32));
    lemma_u64_be_bytes_roundtrip(b.subrange(32, 40));
    lemma_u64_be_bytes_roundtrip(b.subrange(40, 48));
    assert(relationship_record_bytes(relationship_record_from(b)) =~= b);
}


/// A property as stored in the properties file.
pub struct PropertyRecord {
    pub in_use: bool,
    pub key_inlined: bool,
    pub full_inlined: bool,
    pub has_next: bool,
    pub prop_type: u8,
    pub key_id: u64,
    pub prop_block: [u8; 24],
    pub next_prop_id: u64,
}

/// A chunk of a value that does not fit in a property record.
pub struct DynamicStoreRecord {
    pub in_use: bool,
    pub has_next: bool,
    pub next: u64,
    pub data: [u8; 120],
}

/// The byte with bit 0 set when `in_use` and bit 3 set when `has_next`.
pub open spec fn dr_flags(in_use: bool, has_next: bool) -> u8 {
    (if in_use { 1u8 } else { 0u8 }) | (if has_next { 8u8 } else { 0u8 })
}

/// The bytes of a dynamic store record: the flags byte, the next record id
/// big-endian, then the payload.
pub open spec fn dr_bytes(dr: DynamicStoreRecord) -> Seq<u8> {
    seq![dr_flags(dr.in_use, dr.has_next)] + spec_u64_to_be(dr.next) + dr.data@
}

pub fn dr_to_bytes(dr: &DynamicStoreRecord) -> (r: [u8; 129])
    ensures
        r@ == dr_bytes(*dr),
{
    let mut bytes: [u8; 129] = [0; 129];
    bytes[0] = (if dr.in_use { 0b0000_0001u8 } else { 0u8 }) | (if dr.has_next { 0b0000_1000u8 } else { 0u8 });
    write_at(&mut bytes, 1, &u64_to_bytes(dr.next));
    write_at(&mut bytes, 9, &dr.data);
    assert(bytes@ =~= dr_bytes(*dr));
    bytes
}

pub fn dr_from_bytes(bytes: [u8; 129]) -> (r: DynamicStoreRecord)
    ensures
        r.in_use == (bytes@[0] & 1u8 > 0),
        r.has_next == (bytes@[0] & 8u8 > 0),
        r.next == spec_u64_from_be(bytes@.subrange(1, 9)),
        r.data@ == bytes@.subrange(9, 129),
{
    let in_use = bytes[0] & 0b0000_0001 > 0;
    let has_next = bytes[0] & 0b0000_1000 > 0;
    let next = u64_from_bytes_at(&bytes, 1);
    let data: [u8; 120] = read_array(&bytes, 9);
    DynamicStoreRecord { in_use, has_next, next, data }
}


/// The fields read back from the bytes of a dynamic store record are the
/// record's; a record whose fields are read from 129 bytes whose flags byte
/// has no other bit than bits 0 and 3 is written back to those bytes.
pub proof fn lemma_dr_roundtrip(dr: DynamicStoreRecord, b: Seq<u8>, back: DynamicStoreRecord)
    requires
        b.len() == 129,
        b[0] & !9u8 == 0,
        back.in_use == (b[0] & 1u8 > 0),
        back.has_next == (b[0] & 8u8 > 0),
        back.next == spec_u64_from_be(b.subrange(1, 9)),
        back.data@ == b.subrange(9, 129),
    ensures
        (dr_bytes(dr)[0] & 1u8 > 0) == dr.in_use,
        (dr_bytes(dr)[0] & 8u8 > 0) == dr.has_next,
        spec_u64_from_be(dr_bytes(dr).subrange(1, 9)) == dr.next,
        dr_bytes(dr).subrange(9, 129) == dr.data@,
        dr_bytes(back) == b,
{
    let (i, h) = (dr.in_use, dr.has_next);
    assert(((((if i { 1u8 } else { 0u8 }) | (if h { 8u8 } else { 0u8 })) & 1u8 > 0) == i)
        && ((((if i { 1u8 } else { 0u8 }) | (if h { 8u8 } else { 0u8 })) & 8u8 > 0) == h)) by (bit_vector);
    let e = dr_bytes(dr);
    assert(e.subrange(1, 9) =~= spec_u64_to_be(dr.next));
    assert(e.subrange(9, 129) =~= dr.data@);
    lemma_u64_be_value_roundtrip(dr.next);
    let b0 = b[0];
    assert(((if b0 & 1u8 > 0 { 1u8 } else { 0u8 }) | (if b0 & 8u8 > 0 { 8u8 } else { 0u8 })) == b0) by (bit_vector)
        requires
            b0 & !9u8 == 0,
    ;
    lemma_u64_be_bytes_roundtrip(b.subrange(1, 9));
    assert(dr_bytes(back) =~= b);
}

/// The byte with bit 0 set when `in_use`, bit 1 when `full_inlined`, bit 2
/// when `key_inlined` and bit 3 when `has_next`.
pub open spec fn pr_flags(in_use: bool, full_inlined: bool, key_inlined: bool, has_next: bool) -> u8 {
    (if in_use { 1u8 } else { 0u8 }) | (if full_inlined { 2u8 } else { 0u8 }) | (if key_inlined { 4u8 } else { 0u8 })
        | (if has_next { 8u8 } else { 0u8 })
}

/// The bytes of a property record: the flags byte, the property type, the
/// key id big-endian, the value block, then the next property id
/// big-endian.
pub open spec fn pr_bytes(pr: PropertyRecord) -> Seq<u8> {
    seq![pr_flags(pr.in_use, pr.full_inlined, pr.key_inlined, pr.has_next), pr.prop_type] + spec_u64_to_be(pr.key_id)
        + pr.prop_block@ + spec_u64_to_be(pr.next_prop_id)
}

pub fn pr_to_bytes(pr: &PropertyRecord) -> (r: [u8; 42])
    ensures
        r@ == pr_bytes(*pr),
{
    let mut bytes: [u8; 42] = [0; 42];
    bytes[0] = (if pr.in_use { 0b0000_0001u8 } else { 0u8 }) | (if pr.full_inlined { 0b0000_0010u8 } else { 0u8 })
        | (if pr.key_inlined { 0b0000_0100u8 } else { 0u8 }) | (if pr.has_next { 0b0000_1000u8 } else { 0u8 });
    bytes[1] = pr.prop_type;
    write_at(&mut bytes, 2, &u64_to_bytes(pr.key_id));
    write_at(&mut bytes, 10, &pr.prop_block);
    write_at(&mut bytes, 34, &u64_to_bytes(pr.next_prop_id));
    assert(bytes@ =~= pr_bytes(*pr));
    bytes
}

pub fn pr_from_bytes(bytes: [u8; 42]) -> (r: PropertyRecord)
    ensures
        r.in_use == (bytes@[0] & 1u8 > 0),
        r.full_inlined == (bytes@[0] & 2u8 > 0),
        r.key_inlined == (bytes@[0] & 4u8 > 0),
        r.has_next == (bytes@[0] & 8u8 > 0),
        r.prop_type == bytes@[1],
        r.key_id == spec_u64_from_be(bytes@.subrange(2, 10)),
        r.prop_block@ == bytes@.subrange(10, 34),
        r.next_prop_id == spec_u64_from_be(bytes@.subrange(34, 42)),
{
    let in_use = bytes[0] & 0b0000_0001 > 0;
    let inlined = bytes[0] & 0b0000_0010 > 0;
    let key_inlined = bytes[0] & 0b0000_0100 > 0;
    let has_next = bytes[0] & 0b0000_1000 > 0;
    let ptype = bytes[1];
    let key = u64_from_bytes_at(&bytes, 2);
    let block: [u8; 24] = read_array(&bytes, 10);
    let next = u64_from_bytes_at(&bytes, 34);
    PropertyRecord {
        in_use,
        full_inlined: inlined,
        key_inlined,
        has_next,
        prop_type: ptype,
        key_id: key,
        prop_block: block,
        next_prop_id: next,
    }
}

/// The fields read back from the bytes of a property record are the
/// record's; a record whose fields are read from 42 bytes whose flags byte
/// has no other bit than bits 0 to 3 is written back to those bytes.
pub proof fn lemma_pr_roundtrip(pr: PropertyRecord, b: Seq<u8>, back: PropertyRecord)
    requires
        b.len() == 42,
        b[0] & !15u8 == 0,
        back.in_use == (b[0] & 1u8 > 0),
        back.full_inlined == (b[0] & 2u8 > 0),
        back.key_inlined == (b[0] & 4u8 > 0),
        back.has_next == (b[0] & 8u8 > 0),
        back.prop_type == b[1],
        back.key_id == spec_u64_from_be(b.subrange(2, 10)),
        back.prop_block@ == b.subrange(10, 34),
        back.next_prop_id == spec_u64_from_be(b.subrange(34, 42)),
    ensures
        (pr_bytes(pr)[0] & 1u8 > 0) == pr.in_use,
        (pr_bytes(pr)[0] & 2u8 > 0) == pr.full_inlined,
        (pr_bytes(pr)[0] & 4u8 > 0) == pr.key_inlined,
        (pr_bytes(pr)[0] & 8u8 > 0) == pr.has_next,
        pr_bytes(pr)[1] == pr.prop_type,
        spec_u64_from_be(pr_bytes(pr).subrange(2, 10)) == pr.key_id,
        pr_bytes(pr).subrange(10, 34) == pr.prop_block@,
        spec_u64_from_be(pr_bytes(pr).subrange(34, 42)) == pr.next_prop_id,
        pr_bytes(back) == b,
{
    let (i, f, k, h) = (pr.in_use, pr.full_inlined, pr.key_inlined, pr.has_next);
    assert({
        let x = (if i { 1u8 } else { 0u8 }) | (if f { 2u8 } else { 0u8 }) | (if k { 4u8 } else { 0u8 }) | (if h { 8u8 } else { 0u8 });
        &&& (x & 1u8 > 0) == i
        &&& (x & 2u8 > 0) == f
        &&& (x & 4u8 > 0) == k
        &&& (x & 8u8 > 0) == h
    }) by (bit_vector);
    let e = pr_bytes(pr);
    assert(e.subrange(2, 10) =~= spec_u64_to_be(pr.key_id));
    assert(e.subrange(10, 34) =~= pr.prop_block@);
    assert(e.subrange(34, 42) =~= spec_u64_to_be(pr.next_prop_id));
    lemma_u64_be_value_roundtrip(pr.key_id);
    lemma_u64_be_value_roundtrip(pr.next_prop_id);
    let b0 = b[0];
    assert(((if b0 & 1u8 > 0 { 1u8 } else { 0u8 }) | (if b0 & 2u8 > 0 { 2u8 } else { 0u8 }) | (if b0 & 4u8 > 0 {
        4u8
    } else {
        0u8
    }) | (if b0 & 8u8 > 0 { 8u8 } else { 0u8 })) == b0) by (bit_vector)
        requires
            b0 & !15u8 == 0,
    ;
    lemma_u64_be_bytes_roundtrip(b.subrange(2, 10));
    lemma_u64_be_bytes_roundtrip(b.subrange(34, 42));
    assert(pr_bytes(back) =~= b);
}

} // verus!
