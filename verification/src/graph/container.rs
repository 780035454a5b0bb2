use vstd::prelude::*;
use super::{Graph, NodeIndex, EdgeIndex, VertexData, EdgeData, same_links, node_ids_up_to, graph_wf, lemma_wf_same_links, out_list, in_list};
use super::traits::{GraphTrait, MemGraphId};

verus! {

/// A graph of nodes and relationships that hands out references to its
/// elements.
pub struct GraphContainer<NODE: Clone, RELATIONSHIP: Clone> {
    graph: Graph<NODE, RELATIONSHIP>,
}

impl<NODE: Clone, RELATIONSHIP: Clone> View for GraphContainer<NODE, RELATIONSHIP> {
    type V = (Seq<VertexData<EdgeIndex, NODE>>, Seq<EdgeData<NodeIndex, EdgeIndex, RELATIONSHIP>>);

    closed spec fn view(&self) -> Self::V {
        self.graph@
    }
}

impl<N: Clone, R: Clone> Clone for GraphContainer<N, R> {
    fn clone(&self) -> (r: Self)
        ensures
            self.wf() ==> r.wf(),
            r@.0.len() == self@.0.len(),
            r@.1.len() == self@.1.len(),
            forall|v: int| 0 <= v < self@.0.len() ==> {
                &&& (#[trigger] r@.0[v]).first_outbound_edge == self@.0[v].first_outbound_edge
                &&& r@.0[v].first_inbound_edge == self@.0[v].first_inbound_edge
                &&& cloned(self@.0[v].node, r@.0[v].node)
            },
            forall|e: int| 0 <= e < self@.1.len() ==> {
                &&& same_links(#[trigger] r@.1[e], self@.1[e])
                &&& cloned(self@.1[e].relationship, r@.1[e].relationship)
            },
    {
        Self { graph: self.graph.clone() }
    }
}

impl<NODE: Clone, RELATIONSHIP: Clone> GraphContainer<NODE, RELATIONSHIP> {
    /// The container's edge lists are consistent.
    pub closed spec fn wf(&self) -> bool {
        self.graph.wf()
    }

    /// The graph held by the container.
    pub closed spec fn inner(&self) -> Graph<NODE, RELATIONSHIP> {
        self.graph
    }

    /// The inner graph is what the container views.
    pub broadcast proof fn lemma_inner(&self)
        ensures
            #[trigger] self.inner()@ == self@,
            self.inner().wf() == self.wf(),
    {
    }

    pub fn get_node_mut(&mut self, id: &NodeIndex) -> (r: &mut NODE)
        requires
            id@ < old(self)@.0.len(),
        ensures
            *r == old(self)@.0[id@ as int].node,
            final(self)@.1 == old(self)@.1,
            final(self)@.0 == old(self)@.0.update(id@ as int, VertexData {
                first_outbound_edge: old(self)@.0[id@ as int].first_outbound_edge,
                first_inbound_edge: old(self)@.0[id@ as int].first_inbound_edge,
                node: *final(r),
            }),
            old(self).wf() ==> final(self).wf(),
    {
        &mut self.graph.vertices[id.index].node
    }

    pub fn get_relationship_mut(&mut self, id: &EdgeIndex) -> (r: &mut RELATIONSHIP)
        requires
            id@ < old(self)@.1.len(),
        ensures
            *r == old(self)@.1[id@ as int].relationship,
            final(self)@.0 == old(self)@.0,
            final(self)@.1 == old(self)@.1.update(id@ as int, EdgeData {
                id: old(self)@.1[id@ as int].id,
                source: old(self)@.1[id@ as int].source,
                target: old(self)@.1[id@ as int].target,
                next_outbound_edge: old(self)@.1[id@ as int].next_outbound_edge,
                next_inbound_edge: old(self)@.1[id@ as int].next_inbound_edge,
                relationship: *final(r),
            }),
            old(self).wf() ==> final(self).wf(),
    {
        let ghost vs = self@.0;
        let ghost es = self@.1;
        proof {
            assert forall|es2: Seq<EdgeData<NodeIndex, EdgeIndex, RELATIONSHIP>>|
                graph_wf(vs, es) && es2.len() == es.len() && (forall|e: int|
                    0 <= e < es.len() ==> same_links(#[trigger] es[e], es2[e])) implies #[trigger] graph_wf(vs, es2) by {
                lemma_wf_same_links(vs, es, es2);
            }
        }
        &mut self.graph.edges[id.index].relationship
    }

    pub fn get_node_ref(&self, id: &NodeIndex) -> (r: &NODE)
        requires
            id@ < self@.0.len(),
        ensures
            *r == self@.0[id@ as int].node,
    {
        &self.graph.vertices[id.index].node
    }

    pub fn get_relationship_ref(&self, id: &EdgeIndex) -> (r: &RELATIONSHIP)
        requires
            id@ < self@.1.len(),
        ensures
            *r == self@.1[id@ as int].relationship,
    {
        &self.graph.edges[id.index].relationship
    }

    /// The edges leaving `source`, from the most recently added to the oldest.
    pub fn out_edges(&self, source: &NodeIndex) -> (r: Vec<EdgeIndex>)
        requires
            self.wf(),
            source@ < self@.0.len(),
        ensures
            super::edge_positions(r@) == self.inner().spec_out_edges(source@ as int),
    {
        self.graph.out_edges(source)
    }

    /// The edges entering `target`, from the most recently added to the oldest.
    pub fn in_edges(&self, target: &NodeIndex) -> (r: Vec<EdgeIndex>)
        requires
            self.wf(),
            target@ < self@.0.len(),
        ensures
            super::edge_positions(r@) == self.inner().spec_in_edges(target@ as int),
    {
        self.graph.in_edges(target)
    }

    pub fn in_degree(&self, node: &NodeIndex) -> (r: usize)
        requires
            self.wf(),
            node@ < self@.0.len(),
        ensures
            r == self.inner().spec_in_edges(node@ as int).len(),
    {
        self.graph.in_degree(node)
    }

    pub fn out_degree(&self, node: &NodeIndex) -> (r: usize)
        requires
            self.wf(),
            node@ < self@.0.len(),
        ensures
            r == self.inner().spec_out_edges(node@ as int).len(),
    {
        self.graph.out_degree(node)
    }

    pub fn get_source_index(&self, edge_index: &EdgeIndex) -> (r: NodeIndex)
        requires
            edge_index@ < self@.1.len(),
        ensures
            r == self@.1[edge_index@ as int].source,
    {
        self.graph.get_source_index(edge_index)
    }

    pub fn get_target_index(&self, edge_index: &EdgeIndex) -> (r: NodeIndex)
        requires
            edge_index@ < self@.1.len(),
        ensures
            r == self@.1[edge_index@ as int].target,
    {
        self.graph.get_target_index(edge_index)
    }

    pub fn nodes_len(&self) -> (r: usize)
        ensures
            r == self@.0.len(),
    {
        self.graph.nodes_len()
    }

    pub fn edges_len(&self) -> (r: usize)
        ensures
            r == self@.1.len(),
    {
        self.graph.edges_len()
    }

    pub fn get_nodes_ids(&self) -> (r: Vec<NodeIndex>)
        ensures
            r@.len() == self@.0.len(),
            forall|i: int| 0 <= i < r@.len() ==> (#[trigger] r@[i])@ == i,
    {
        node_ids_up_to(self.graph.nodes_len())
    }

    pub fn new() -> (r: Self)
        ensures
            r@.0.len() == 0,
            r@.1.len() == 0,
            r.wf(),
    {
        GraphContainer { graph: Graph::new() }
    }

    pub fn add_node(&mut self, node: NODE) -> (r: NodeIndex)
        requires
            old(self).wf(),
        ensures
            final(self).wf(),
            r@ == old(self)@.0.len(),
            final(self)@.0 == old(self)@.0.push(VertexData { first_outbound_edge: None, first_inbound_edge: None, node }),
            final(self)@.1 == old(self)@.1,
            final(self).inner().spec_out_edges(r@ as int) == Seq::<int>::empty(),
            final(self).inner().spec_in_edges(r@ as int) == Seq::<int>::empty(),
    {
        self.graph.add_vertex(node)
    }

    pub fn add_relationship(&mut self, rel: RELATIONSHIP, source: NodeIndex, target: NodeIndex) -> (r: EdgeIndex)
        requires
            old(self).wf(),
            source@ < old(self)@.0.len(),
            target@ < old(self)@.0.len(),
        ensures
            final(self).wf(),
            r@ == old(self)@.1.len(),
            final(self)@.1 == old(self)@.1.push(EdgeData {
                id: r,
                source,
                target,
                next_outbound_edge: old(self)@.0[source@ as int].first_outbound_edge,
                next_inbound_edge: old(self)@.0[target@ as int].first_inbound_edge,
                relationship: rel,
            }),
            final(self)@.0.len() == old(self)@.0.len(),
            forall|v: int| 0 <= v < old(self)@.0.len() ==> {
                &&& (#[trigger] final(self)@.0[v]).node == old(self)@.0[v].node
                &&& final(self)@.0[v].first_outbound_edge == if v == source@ { Some(r) } else { old(self)@.0[v].first_outbound_edge }
                &&& final(self)@.0[v].first_inbound_edge == if v == target@ { Some(r) } else { old(self)@.0[v].first_inbound_edge }
            },
            forall|v: int| #[trigger] final(self).inner().spec_out_edges(v) == if v == source@ {
                seq![r@ as int] + old(self).inner().spec_out_edges(v)
            } else {
                old(self).inner().spec_out_edges(v)
            },
            forall|v: int| #[trigger] final(self).inner().spec_in_edges(v) == if v == target@ {
                seq![r@ as int] + old(self).inner().spec_in_edges(v)
            } else {
                old(self).inner().spec_in_edges(v)
            },
    {
        self.graph.add_edge(rel, source, target)
    }

    pub fn get_inner_graph(&self) -> (r: &Graph<NODE, RELATIONSHIP>)
        ensures
            *r == self.inner(),
    {
        &self.graph
    }

    /// All the edges of the graph, in the order they were added.
    pub fn get_relationships_and_edges(&self) -> (r: Vec<&EdgeData<NodeIndex, EdgeIndex, RELATIONSHIP>>)
        ensures
            r@.len() == self@.1.len(),
            forall|i: int| 0 <= i < r@.len() ==> *(#[trigger] r@[i]) == self@.1[i],
    {
        self.get_edges()
    }

    /// Each node with its index, in the order the nodes were added.
    pub fn get_nodes_with_ids(&self) -> (r: Vec<(&NODE, NodeIndex)>)
        ensures
            r@.len() == self@.0.len(),
            forall|i: int| 0 <= i < r@.len() ==> *(#[trigger] r@[i]).0 == self@.0[i].node && r@[i].1@ == i,
    {
        let mut res: Vec<(&NODE, NodeIndex)> = Vec::new();
        let mut i: usize = 0;
        while i < self.graph.vertices.len()
            invariant
                i <= self@.0.len(),
                self@ == self.graph@,
                res@.len() == i,
                forall|j: int| 0 <= j < i ==> *(#[trigger] res@[j]).0 == self@.0[j].node && res@[j].1@ == j,
            decreases self@.0.len() - i,
        {
            res.push((&self.graph.vertices[i].node, NodeIndex::new(i)));
            i = i + 1;
        }
        res
    }

    /// The relationships of the graph, in the order they were added.
    pub fn get_relationships(&self) -> (r: Vec<&RELATIONSHIP>)
        ensures
            r@.len() == self@.1.len(),
            forall|i: int| 0 <= i < r@.len() ==> *(#[trigger] r@[i]) == self@.1[i].relationship,
    {
        let mut res: Vec<&RELATIONSHIP> = Vec::new();
        let mut i: usize = 0;
        while i < self.graph.edges.len()
            invariant
                i <= self@.1.len(),
                self@ == self.graph@,
                res@.len() == i,
                forall|j: int| 0 <= j < i ==> *(#[trigger] res@[j]) == self@.1[j].relationship,
            decreases self@.1.len() - i,
        {
            res.push(&self.graph.edges[i].relationship);
            i = i + 1;
        }
        res
    }

    /// All the edges of the graph, in the order they were added.
    pub fn get_edges(&self) -> (r: Vec<&EdgeData<NodeIndex, EdgeIndex, RELATIONSHIP>>)
        ensures
            r@.len() == self@.1.len(),
            forall|i: int| 0 <= i < r@.len() ==> *(#[trigger] r@[i]) == self@.1[i],
    {
        let mut res: Vec<&EdgeData<NodeIndex, EdgeIndex, RELATIONSHIP>> = Vec::new();
        let mut i: usize = 0;
        while i < self.graph.edges.len()
            invariant
                i <= self@.1.len(),
                self@ == self.graph@,
                res@.len() == i,
                forall|j: int| 0 <= j < i ==> *(#[trigger] res@[j]) == self@.1[j],
            decreases self@.1.len() - i,
        {
            res.push(&self.graph.edges[i]);
            i = i + 1;
        }
        res
    }

    /// The edge storage itself, for in-place updates.
    pub fn get_edges_mut(&mut self) -> (r: &mut Vec<EdgeData<NodeIndex, EdgeIndex, RELATIONSHIP>>)
        ensures
            r@ == old(self)@.1,
            final(self)@ == (old(self)@.0, final(r)@),
    {
        &mut self.graph.edges
    }

    /// The nodes of the graph, in the order they were added.
    pub fn get_nodes(&self) -> (r: Vec<&NODE>)
        ensures
            r@.len() == self@.0.len(),
            forall|i: int| 0 <= i < r@.len() ==> *(#[trigger] r@[i]) == self@.0[i].node,
    {
        let mut res: Vec<&NODE> = Vec::new();
        let mut i: usize = 0;
        while i < self.graph.vertices.len()
            invariant
                i <= self@.0.len(),
                self@ == self.graph@,
                res@.len() == i,
                forall|j: int| 0 <= j < i ==> *(#[trigger] res@[j]) == self@.0[j].node,
            decreases self@.0.len() - i,
        {
            res.push(&self.graph.vertices[i].node);
            i = i + 1;
        }
        res
    }
}

impl<NODE: Clone, RELATIONSHIP: Clone> Default for GraphContainer<NODE, RELATIONSHIP> {
    fn default() -> (r: Self)
        ensures
            r@.0.len() == 0,
            r@.1.len() == 0,
            r.wf(),
    {
        Self::new()
    }
}

/// The number of edges among the first `k` whose source is node `v`.
pub open spec fn count_out<R: Clone>(es: Seq<EdgeData<NodeIndex, EdgeIndex, R>>, v: int, k: int) -> nat
    decreases k,
{
    if k <= 0 {
        0
    } else {
        count_out(es, v, k - 1) + if es[k - 1].source@ == v {
            1nat
        } else {
            0nat
        }
    }
}

/// The number of edges among the first `k` whose target is node `v`.
pub open spec fn count_in<R: Clone>(es: Seq<EdgeData<NodeIndex, EdgeIndex, R>>, v: int, k: int) -> nat
    decreases k,
{
    if k <= 0 {
        0
    } else {
        count_in(es, v, k - 1) + if es[k - 1].target@ == v {
            1nat
        } else {
            0nat
        }
    }
}

proof fn lemma_lists_count<R: Clone>(es: Seq<EdgeData<NodeIndex, EdgeIndex, R>>, v: int, k: int)
    ensures
        out_list(es, v, k).len() == count_out(es, v, k),
        in_list(es, v, k).len() == count_in(es, v, k),
    decreases k,
{
    if k > 0 {
        lemma_lists_count(es, v, k - 1);
    }
}

/// The out-degree of a node (what `out_degree` answers) is the number of
/// edges whose source it is, and its in-degree (what `in_degree` answers)
/// the number of edges whose target it is; a loop on the node counts once
/// in each.
pub proof fn lemma_degrees_count<NODE: Clone, RELATIONSHIP: Clone>(g: GraphContainer<NODE, RELATIONSHIP>, v: int)
    ensures
        g.inner().spec_out_edges(v).len() == count_out(g@.1, v, g@.1.len() as int),
        g.inner().spec_in_edges(v).len() == count_in(g@.1, v, g@.1.len() as int),
{
    g.lemma_inner();
    lemma_lists_count(g@.1, v, g@.1.len() as int);
}

/// The edges of `later` begin with those of `earlier`: `later` comes from
/// `earlier` by any number of `add_node` and `add_relationship` calls,
/// which keep the edges and push one at the end.
pub open spec fn edges_extend<R: Clone>(
    earlier: Seq<EdgeData<NodeIndex, EdgeIndex, R>>,
    later: Seq<EdgeData<NodeIndex, EdgeIndex, R>>,
) -> bool {
    earlier.len() <= later.len() && forall|e: int| 0 <= e < earlier.len() ==> #[trigger] later[e] == earlier[e]
}

/// Adding a node keeps the edges, and adding a relationship pushes one edge
/// after them; so each extends the edges it was given, and extension
/// chains.
pub proof fn lemma_edges_extend_steps<R: Clone>(
    a: Seq<EdgeData<NodeIndex, EdgeIndex, R>>,
    b: Seq<EdgeData<NodeIndex, EdgeIndex, R>>,
    c: Seq<EdgeData<NodeIndex, EdgeIndex, R>>,
    x: EdgeData<NodeIndex, EdgeIndex, R>,
)
    ensures
        edges_extend(a, a),
        edges_extend(a, a.push(x)),
        edges_extend(a, b) && edges_extend(b, c) ==> edges_extend(a, c),
{
    if edges_extend(a, b) && edges_extend(b, c) {
        assert forall|e: int| 0 <= e < a.len() implies #[trigger] c[e] == a[e] by {
            assert(c[e] == b[e]);
        }
    }
}

/// Once an edge is added from `s` to `t`, the edge at its index keeps
/// source `s` and target `t` (what `get_source_index` and
/// `get_target_index` answer) through any later additions of nodes and
/// relationships.
pub proof fn lemma_edge_ends_kept<R: Clone>(
    earlier: Seq<EdgeData<NodeIndex, EdgeIndex, R>>,
    later: Seq<EdgeData<NodeIndex, EdgeIndex, R>>,
    e: int,
)
    requires
        edges_extend(earlier, later),
        0 <= e < earlier.len(),
    ensures
        later[e].source == earlier[e].source,
        later[e].target == earlier[e].target,
{
    assert(later[e] == earlier[e]);
}

} // verus!
