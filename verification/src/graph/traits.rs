use vstd::prelude::*;

verus! {

/// Identifier of an element of an in-memory graph: the element's position in
/// the graph's storage.
pub trait MemGraphId {
    spec fn mem_index(&self) -> usize;

    fn get_index(&self) -> (r: usize)
        ensures
            r == self.mem_index(),
    ;
}

/// Read access to the shape of a graph.
pub trait GraphTrait<NodeId: MemGraphId, EdgeId: MemGraphId> {
    spec fn spec_nodes_len(&self) -> nat;

    spec fn spec_edges_len(&self) -> nat;

    spec fn spec_source(&self, e: EdgeId) -> NodeId;

    spec fn spec_target(&self, e: EdgeId) -> NodeId;

    fn get_source_index(&self, edge_index: &EdgeId) -> (r: NodeId)
        requires
            edge_index.mem_index() < self.spec_edges_len(),
        ensures
            r == self.spec_source(*edge_index),
    ;

    fn get_target_index(&self, edge_index: &EdgeId) -> (r: NodeId)
        requires
            edge_index.mem_index() < self.spec_edges_len(),
        ensures
            r == self.spec_target(*edge_index),
    ;

    fn nodes_len(&self) -> (r: usize)
        ensures
            r == self.spec_nodes_len(),
    ;

    fn edges_len(&self) -> (r: usize)
        ensures
            r == self.spec_edges_len(),
    ;

    fn get_nodes_ids(&self) -> (r: Vec<NodeId>)
        ensures
            r@.len() == self.spec_nodes_len(),
            forall|i: int| 0 <= i < r@.len() ==> (#[trigger] r@[i]).mem_index() == i,
    ;
}

/// A graph whose nodes and relationships can be read and updated in place.
pub trait GraphContainerTrait<NID: MemGraphId, EID: MemGraphId, NODE, RELATIONSHIP>: GraphTrait<NID, EID> {
    fn get_node_mut(&mut self, id: &NID) -> &mut NODE;

    fn get_relationship_mut(&mut self, id: &EID) -> &mut RELATIONSHIP;

    fn get_node_ref(&self, id: &NID) -> &NODE;

    fn get_relationship_ref(&self, id: &EID) -> &RELATIONSHIP;
}

/// Shape of a graph that is loaded lazily.
pub trait GrowableGraphTrait<NodeId: MemGraphId, EdgeId: MemGraphId> {
    fn get_source_index(&self, edge_index: &EdgeId) -> NodeId;

    fn get_target_index(&self, edge_index: &EdgeId) -> NodeId;

    fn nodes_len(&self) -> usize;

    fn edges_len(&self) -> usize;

    fn get_nodes_ids(&self) -> Vec<NodeId>;
}

/// Element access of a graph that is loaded lazily.
pub trait GrowableGraphContainerTrait<NID: MemGraphId, EID: MemGraphId, NODE, RELATIONSHIP>: GrowableGraphTrait<NID, EID> {
    fn get_node_ref(&mut self, id: &NID) -> Option<&NODE>;

    fn get_relationship_ref(&mut self, id: &EID) -> Option<&RELATIONSHIP>;
}

} // verus!
