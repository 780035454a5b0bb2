use vstd::prelude::*;
use crate::repository::store::records::{NodeRecord, RelationshipRecord};

verus! {

/// The links of a stored node: its first inbound and outbound relationships.
#[derive(Copy, Clone)]
pub struct DbVertexData {
    pub first_inbound_edge: Option<u64>,
    pub first_outbound_edge: Option<u64>,
}

impl DbVertexData {
    pub fn new() -> (r: Self)
        ensures
            r == (DbVertexData { first_inbound_edge: None, first_outbound_edge: None }),
    {
        DbVertexData { first_inbound_edge: None, first_outbound_edge: None }
    }
}

/// The links of a stored relationship: its end nodes and the next
/// relationships of the outbound list of its source and of the inbound list
/// of its target.
#[derive(Copy, Clone)]
pub struct DbEdgeData {
    pub source: u64,
    pub target: u64,
    pub next_outbound_edge: Option<u64>,
    pub next_inbound_edge: Option<u64>,
}

impl DbEdgeData {
    pub fn new(source: u64, target: u64) -> (r: Self)
        ensures
            r == (DbEdgeData { source, target, next_outbound_edge: None, next_inbound_edge: None }),
    {
        DbEdgeData { source, target, next_outbound_edge: None, next_inbound_edge: None }
    }
}

/// A stored id, where zero stands for no id.
pub open spec fn stored_link(id: u64) -> Option<u64> {
    if id != 0 {
        Some(id)
    } else {
        None
    }
}

/// The links of the node stored as `nr`.
pub fn vertex_data_from_record(nr: &NodeRecord) -> (r: DbVertexData)
    ensures
        r == (DbVertexData {
            first_inbound_edge: stored_link(nr.first_inbound_edge),
            first_outbound_edge: stored_link(nr.first_outbound_edge),
        }),
{
    let mut vertex = DbVertexData::new();
    if nr.first_inbound_edge != 0 {
        vertex.first_inbound_edge = Some(nr.first_inbound_edge);
    }
    if nr.first_outbound_edge != 0 {
        vertex.first_outbound_edge = Some(nr.first_outbound_edge);
    }
    vertex
}

/// The links of the relationship stored as `rr`.
pub fn edge_data_from_record(rr: &RelationshipRecord) -> (r: DbEdgeData)
    ensures
        r == (DbEdgeData {
            source: rr.source,
            target: rr.target,
            next_outbound_edge: stored_link(rr.next_outbound_edge),
            next_inbound_edge: stored_link(rr.next_inbound_edge),
        }),
{
    let mut edge = DbEdgeData::new(rr.source, rr.target);
    if rr.next_inbound_edge != 0 {
        edge.next_inbound_edge = Some(rr.next_inbound_edge);
    }
    if rr.next_outbound_edge != 0 {
        edge.next_outbound_edge = Some(rr.next_outbound_edge);
    }
    edge
}

/// The record of a new relationship from `source` to `target`, whose end
/// nodes are stored as `source_record` and `target_record`: it is to head
/// the outbound list of its source and the inbound list of its target, so
/// it links to their current first relationships.
pub fn new_relationship_record(source: u64, target: u64, source_record: &NodeRecord, target_record: &NodeRecord) -> (r:
    RelationshipRecord)
    ensures
        r == (RelationshipRecord {
            source,
            target,
            relationship_type: 0,
            next_outbound_edge: source_record.first_outbound_edge,
            next_inbound_edge: target_record.first_inbound_edge,
            next_prop_id: 0,
        }),
{
    let mut rr = RelationshipRecord::new(source, target);
    rr.next_outbound_edge = source_record.first_outbound_edge;
    rr.next_inbound_edge = target_record.first_inbound_edge;
    rr
}

/// Makes the relationship `rid` the first one of the outbound list of its
/// source and of the inbound list of its target. For a relationship from a
/// node to itself only the source record changes, and only its outbound
/// list.
pub fn link_relationship(source: u64, target: u64, rid: u64, source_record: &mut NodeRecord, target_record: &mut NodeRecord)
    ensures
        *final(source_record) == (NodeRecord { first_outbound_edge: rid, ..*old(source_record) }),
        source == target ==> *final(target_record) == *old(target_record),
        source != target ==> *final(target_record) == (NodeRecord { first_inbound_edge: rid, ..*old(target_record) }),
{
    if source == target {
        source_record.first_outbound_edge = rid;
    } else {
        source_record.first_outbound_edge = rid;
        target_record.first_inbound_edge = rid;
    }
}

} // verus!
