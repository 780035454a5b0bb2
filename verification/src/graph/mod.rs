pub mod traits;
pub mod container;

use vstd::prelude::*;
use self::traits::{MemGraphId, GraphTrait};

verus! {

/// Position of an edge in a graph's edge storage.
#[derive(PartialEq, Eq, Copy, Clone, Debug, Hash, Structural)]
pub struct EdgeIndex {
    index: usize,
}

impl View for EdgeIndex {
    type V = usize;

    closed spec fn view(&self) -> usize {
        self.index
    }
}

/// Two edge indexes with the same position are equal.
pub broadcast proof fn lemma_edge_index_view_injective(a: EdgeIndex, b: EdgeIndex)
    ensures
        #[trigger] a@ == #[trigger] b@ ==> a == b,
{
}

impl EdgeIndex {
    pub fn new(index: usize) -> (r: Self)
        ensures
            r@ == index,
    {
        EdgeIndex { index }
    }
}

impl MemGraphId for EdgeIndex {
    open spec fn mem_index(&self) -> usize {
        self@
    }

    fn get_index(&self) -> (r: usize) {
        self.index
    }
}

/// Position of a node in a graph's node storage.
#[derive(PartialEq, Eq, Copy, Clone, Debug, Hash, Structural)]
pub struct NodeIndex {
    index: usize,
}

impl View for NodeIndex {
    type V = usize;

    closed spec fn view(&self) -> usize {
        self.index
    }
}

/// Two node indexes with the same position are equal.
pub broadcast proof fn lemma_node_index_view_injective(a: NodeIndex, b: NodeIndex)
    ensures
        #[trigger] a@ == #[trigger] b@ ==> a == b,
{
}

impl NodeIndex {
    pub fn new(index: usize) -> (r: Self)
        ensures
            r@ == index,
    {
        NodeIndex { index }
    }
}

impl MemGraphId for NodeIndex {
    open spec fn mem_index(&self) -> usize {
        self@
    }

    fn get_index(&self) -> (r: usize) {
        self.index
    }
}

/// A node of a graph together with the heads of its outbound and inbound
/// edge lists.
pub struct VertexData<EID: MemGraphId, N> {
    pub first_outbound_edge: Option<EID>,
    pub first_inbound_edge: Option<EID>,
    pub node: N,
}

impl<EID: MemGraphId + Copy, N: Clone> Clone for VertexData<EID, N> {
    fn clone(&self) -> (r: Self)
        ensures
            r.first_outbound_edge == self.first_outbound_edge,
            r.first_inbound_edge == self.first_inbound_edge,
            cloned(self.node, r.node),
    {
        VertexData {
            first_outbound_edge: self.first_outbound_edge,
            first_inbound_edge: self.first_inbound_edge,
            node: self.node.clone(),
        }
    }
}

impl<EID: MemGraphId + Copy, N> VertexData<EID, N> {
    pub fn new(n: N) -> (r: Self)
        ensures
            r.first_outbound_edge is None,
            r.first_inbound_edge is None,
            r.node == n,
    {
        VertexData { first_outbound_edge: None, first_inbound_edge: None, node: n }
    }

    pub fn get_first_outbound_edge(&self) -> (r: Option<EID>)
        ensures
            r == self.first_outbound_edge,
    {
        self.first_outbound_edge
    }

    pub fn get_first_inbound_edge(&self) -> (r: Option<EID>)
        ensures
            r == self.first_inbound_edge,
    {
        self.first_inbound_edge
    }
}

/// An edge of a graph: its own position, its end points, the next edges of
/// the outbound list of its source and of the inbound list of its target, and
/// the relationship it carries.
#[derive(Debug)]
pub struct EdgeData<NID: MemGraphId, EID: MemGraphId, R: Clone> {
    pub id: EID,
    pub source: NID,
    pub target: NID,
    pub next_outbound_edge: Option<EID>,
    pub next_inbound_edge: Option<EID>,
    pub relationship: R,
}

impl<NID: MemGraphId + Copy, EID: MemGraphId + Copy, R: Clone> Clone for EdgeData<NID, EID, R> {
    fn clone(&self) -> (r: Self)
        ensures
            same_links(*self, r),
            cloned(self.relationship, r.relationship),
    {
        EdgeData {
            id: self.id,
            source: self.source,
            target: self.target,
            next_outbound_edge: self.next_outbound_edge,
            next_inbound_edge: self.next_inbound_edge,
            relationship: self.relationship.clone(),
        }
    }
}

/// Two edges agree on everything but the relationship they carry.
pub open spec fn same_links<NID: MemGraphId, EID: MemGraphId, R: Clone>(
    a: EdgeData<NID, EID, R>,
    b: EdgeData<NID, EID, R>,
) -> bool {
    &&& a.id == b.id
    &&& a.source == b.source
    &&& a.target == b.target
    &&& a.next_outbound_edge == b.next_outbound_edge
    &&& a.next_inbound_edge == b.next_inbound_edge
}

impl<NID: MemGraphId + Copy, EID: MemGraphId + Copy, R: Clone> EdgeData<NID, EID, R> {
    pub fn get_source(&self) -> (r: NID)
        ensures
            r == self.source,
    {
        self.source
    }

    pub fn get_target(&self) -> (r: NID)
        ensures
            r == self.target,
    {
        self.target
    }

    pub fn get_next_outbound_edge(&self) -> (r: Option<EID>)
        ensures
            r == self.next_outbound_edge,
    {
        self.next_outbound_edge
    }

    pub fn get_next_inbound_edge(&self) -> (r: Option<EID>)
        ensures
            r == self.next_inbound_edge,
    {
        self.next_inbound_edge
    }
}

/// Position held by an optional edge index.
pub open spec fn opt_pos(e: Option<EdgeIndex>) -> Option<int> {
    match e {
        Some(i) => Some(i@ as int),
        None => None,
    }
}

/// Position of the last edge among the first `k` whose source is node `v`.
pub open spec fn last_out<R: Clone>(es: Seq<EdgeData<NodeIndex, EdgeIndex, R>>, v: int, k: int) -> Option<int>
    decreases k,
{
    if k <= 0 {
        None
    } else if es[k - 1].source@ == v {
        Some(k - 1)
    } else {
        last_out(es, v, k - 1)
    }
}

/// Position of the last edge among the first `k` whose target is node `v`.
pub open spec fn last_in<R: Clone>(es: Seq<EdgeData<NodeIndex, EdgeIndex, R>>, v: int, k: int) -> Option<int>
    decreases k,
{
    if k <= 0 {
        None
    } else if es[k - 1].target@ == v {
        Some(k - 1)
    } else {
        last_in(es, v, k - 1)
    }
}

/// Positions of the edges among the first `k` whose source is node `v`, the
/// most recently added first.
pub open spec fn out_list<R: Clone>(es: Seq<EdgeData<NodeIndex, EdgeIndex, R>>, v: int, k: int) -> Seq<int>
    decreases k,
{
    if k <= 0 {
        seq![]
    } else if es[k - 1].source@ == v {
        seq![k - 1] + out_list(es, v, k - 1)
    } else {
        out_list(es, v, k - 1)
    }
}

/// Positions of the edges among the first `k` whose target is node `v`, the
/// most recently added first.
pub open spec fn in_list<R: Clone>(es: Seq<EdgeData<NodeIndex, EdgeIndex, R>>, v: int, k: int) -> Seq<int>
    decreases k,
{
    if k <= 0 {
        seq![]
    } else if es[k - 1].target@ == v {
        seq![k - 1] + in_list(es, v, k - 1)
    } else {
        in_list(es, v, k - 1)
    }
}

/// A graph stored as two arrays, with one singly linked list of outbound
/// edges and one of inbound edges per node.
pub struct Graph<N: Clone, R: Clone> {
    vertices: Vec<VertexData<EdgeIndex, N>>,
    edges: Vec<EdgeData<NodeIndex, EdgeIndex, R>>,
}

impl<N: Clone, R: Clone> View for Graph<N, R> {
    type V = (Seq<VertexData<EdgeIndex, N>>, Seq<EdgeData<NodeIndex, EdgeIndex, R>>);

    closed spec fn view(&self) -> Self::V {
        (self.vertices@, self.edges@)
    }
}

/// The linked edge lists of a graph are consistent: each edge knows its own
/// position and links end points that exist, and the outbound (inbound) list
/// of each node runs through all the edges that leave (enter) it, from the
/// most recent to the oldest.
pub open spec fn graph_wf<N, R: Clone>(vs: Seq<VertexData<EdgeIndex, N>>, es: Seq<EdgeData<NodeIndex, EdgeIndex, R>>) -> bool {
    &&& forall|e: int|
        0 <= e < es.len() ==> {
            &&& (#[trigger] es[e]).id@ == e
            &&& es[e].source@ < vs.len()
            &&& es[e].target@ < vs.len()
            &&& opt_pos(es[e].next_outbound_edge) == last_out(es, es[e].source@ as int, e)
            &&& opt_pos(es[e].next_inbound_edge) == last_in(es, es[e].target@ as int, e)
        }
    &&& forall|v: int|
        0 <= v < vs.len() ==> {
            &&& opt_pos((#[trigger] vs[v]).first_outbound_edge) == last_out(es, v, es.len() as int)
            &&& opt_pos(vs[v].first_inbound_edge) == last_in(es, v, es.len() as int)
        }
}

/// Appending an edge leaves the lists over the older edges unchanged.
proof fn lemma_last_push<R: Clone>(
    es: Seq<EdgeData<NodeIndex, EdgeIndex, R>>,
    x: EdgeData<NodeIndex, EdgeIndex, R>,
    v: int,
    k: int,
)
    requires
        k <= es.len(),
    ensures
        last_out(es.push(x), v, k) == last_out(es, v, k),
        last_in(es.push(x), v, k) == last_in(es, v, k),
    decreases k,
{
    if k > 0 {
        lemma_last_push(es, x, v, k - 1);
    }
}

/// A node that no edge touches has empty lists.
proof fn lemma_last_untouched<R: Clone>(es: Seq<EdgeData<NodeIndex, EdgeIndex, R>>, v: int, k: int)
    requires
        k <= es.len(),
        forall|e: int| 0 <= e < k ==> (#[trigger] es[e]).source@ != v && es[e].target@ != v,
    ensures
        last_out(es, v, k) is None,
        last_in(es, v, k) is None,
    decreases k,
{
    if k > 0 {
        lemma_last_untouched(es, v, k - 1);
    }
}

/// The last outbound edge of a node heads its outbound list.
proof fn lemma_out_list_head<R: Clone>(es: Seq<EdgeData<NodeIndex, EdgeIndex, R>>, v: int, k: int)
    requires
        k <= es.len(),
    ensures
        match last_out(es, v, k) {
            Some(j) => j < k && es[j].source@ == v && out_list(es, v, k) == seq![j] + out_list(es, v, j),
            None => out_list(es, v, k) == Seq::<int>::empty(),
        },
    decreases k,
{
    if k > 0 {
        lemma_out_list_head(es, v, k - 1);
    }
}

/// The last inbound edge of a node heads its inbound list.
proof fn lemma_in_list_head<R: Clone>(es: Seq<EdgeData<NodeIndex, EdgeIndex, R>>, v: int, k: int)
    requires
        k <= es.len(),
    ensures
        match last_in(es, v, k) {
            Some(j) => j < k && es[j].target@ == v && in_list(es, v, k) == seq![j] + in_list(es, v, j),
            None => in_list(es, v, k) == Seq::<int>::empty(),
        },
    decreases k,
{
    if k > 0 {
        lemma_in_list_head(es, v, k - 1);
    }
}

/// Positions held by a sequence of edge indexes.
pub open spec fn edge_positions(s: Seq<EdgeIndex>) -> Seq<int> {
    s.map_values(|e: EdgeIndex| e@ as int)
}

/// Appending an edge puts it at the head of the outbound list of its source
/// and of the inbound list of its target, and leaves every other list as it
/// was.
pub proof fn lemma_lists_after_push<R: Clone>(
    es: Seq<EdgeData<NodeIndex, EdgeIndex, R>>,
    x: EdgeData<NodeIndex, EdgeIndex, R>,
    v: int,
)
    ensures
        out_list(es.push(x), v, es.len() + 1int) == if x.source@ == v {
            seq![es.len() as int] + out_list(es, v, es.len() as int)
        } else {
            out_list(es, v, es.len() as int)
        },
        in_list(es.push(x), v, es.len() + 1int) == if x.target@ == v {
            seq![es.len() as int] + in_list(es, v, es.len() as int)
        } else {
            in_list(es, v, es.len() as int)
        },
{
    lemma_lists_prefix(es, x, v, es.len() as int);
}

/// Appending an edge leaves the lists over the older edges unchanged.
proof fn lemma_lists_prefix<R: Clone>(
    es: Seq<EdgeData<NodeIndex, EdgeIndex, R>>,
    x: EdgeData<NodeIndex, EdgeIndex, R>,
    v: int,
    k: int,
)
    requires
        k <= es.len(),
    ensures
        out_list(es.push(x), v, k) == out_list(es, v, k),
        in_list(es.push(x), v, k) == in_list(es, v, k),
    decreases k,
{
    if k > 0 {
        lemma_lists_prefix(es, x, v, k - 1);
    }
}

/// The outbound list of a node holds exactly the positions, below `k`, of the
/// edges that leave it, each once and in decreasing order.
pub proof fn lemma_out_list_members<R: Clone>(es: Seq<EdgeData<NodeIndex, EdgeIndex, R>>, v: int, k: int)
    requires
        0 <= k <= es.len(),
    ensures
        forall|i: int|
            0 <= i < out_list(es, v, k).len() ==> (#[trigger] out_list(es, v, k)[i]) < k && es[out_list(es, v, k)[i]].source@ == v,
        forall|i: int, j: int|
            0 <= i < j < out_list(es, v, k).len() ==> #[trigger] out_list(es, v, k)[i] > #[trigger] out_list(es, v, k)[j],
        forall|e: int| 0 <= e < k && (#[trigger] es[e]).source@ == v ==> out_list(es, v, k).contains(e),
    decreases k,
{
    if k > 0 {
        lemma_out_list_members(es, v, k - 1);
        let l = out_list(es, v, k - 1);
        let big = out_list(es, v, k);
        if es[k - 1].source@ == v {
            assert(big == seq![k - 1] + l);
            assert forall|i: int| 0 <= i < big.len() implies (#[trigger] big[i]) < k && es[big[i]].source@ == v by {
                if i > 0 {
                    assert(big[i] == l[i - 1]);
                }
            }
            assert forall|i: int, j: int| 0 <= i < j < big.len() implies #[trigger] big[i] > #[trigger] big[j] by {
                assert(big[j] == l[j - 1]);
                if i > 0 {
                    assert(big[i] == l[i - 1]);
                }
            }
            assert forall|e: int| 0 <= e < k && (#[trigger] es[e]).source@ == v implies big.contains(e) by {
                if e == k - 1 {
                    assert(big[0] == e);
                } else {
                    assert(l.contains(e));
                    let i = choose|i: int| 0 <= i < l.len() && l[i] == e;
                    assert(big[i + 1] == e);
                }
            }
        }
    }
}

/// The inbound list of a node holds exactly the positions, below `k`, of the
/// edges that enter it, each once and in decreasing order.
pub proof fn lemma_in_list_members<R: Clone>(es: Seq<EdgeData<NodeIndex, EdgeIndex, R>>, v: int, k: int)
    requires
        0 <= k <= es.len(),
    ensures
        forall|i: int|
            0 <= i < in_list(es, v, k).len() ==> (#[trigger] in_list(es, v, k)[i]) < k && es[in_list(es, v, k)[i]].target@ == v,
        forall|i: int, j: int|
            0 <= i < j < in_list(es, v, k).len() ==> #[trigger] in_list(es, v, k)[i] > #[trigger] in_list(es, v, k)[j],
        forall|e: int| 0 <= e < k && (#[trigger] es[e]).target@ == v ==> in_list(es, v, k).contains(e),
    decreases k,
{
    if k > 0 {
        lemma_in_list_members(es, v, k - 1);
        let l = in_list(es, v, k - 1);
        let big = in_list(es, v, k);
        if es[k - 1].target@ == v {
            assert(big == seq![k - 1] + l);
            assert forall|i: int| 0 <= i < big.len() implies (#[trigger] big[i]) < k && es[big[i]].target@ == v by {
                if i > 0 {
                    assert(big[i] == l[i - 1]);
                }
            }
            assert forall|i: int, j: int| 0 <= i < j < big.len() implies #[trigger] big[i] > #[trigger] big[j] by {
                assert(big[j] == l[j - 1]);
                if i > 0 {
                    assert(big[i] == l[i - 1]);
                }
            }
            assert forall|e: int| 0 <= e < k && (#[trigger] es[e]).target@ == v implies big.contains(e) by {
                if e == k - 1 {
                    assert(big[0] == e);
                } else {
                    assert(l.contains(e));
                    let i = choose|i: int| 0 <= i < l.len() && l[i] == e;
                    assert(big[i + 1] == e);
                }
            }
        }
    }
}

impl<N: Clone, R: Clone> Graph<N, R> {
    /// Positions of the edges leaving node `v`, the most recent first.
    pub open spec fn spec_out_edges(&self, v: int) -> Seq<int> {
        out_list(self@.1, v, self@.1.len() as int)
    }

    /// Positions of the edges entering node `v`, the most recent first.
    pub open spec fn spec_in_edges(&self, v: int) -> Seq<int> {
        in_list(self@.1, v, self@.1.len() as int)
    }

    /// The edges leaving `source`, from the most recently added to the oldest.
    pub fn out_edges(&self, source: &NodeIndex) -> (r: Vec<EdgeIndex>)
        requires
            self.wf(),
            source@ < self@.0.len(),
        ensures
            edge_positions(r@) == self.spec_out_edges(source@ as int),
    {
        let ghost es = self.edges@;
        let ghost v = source@ as int;
        let mut res: Vec<EdgeIndex> = Vec::new();
        let mut cur = self.vertices[source.index].first_outbound_edge;
        proof {
            lemma_out_list_head(es, v, es.len() as int);
        }
        while cur.is_some()
            invariant
                graph_wf(self@.0, es),
                es == self.edges@,
                match cur {
                    Some(c) => c@ < es.len() && es[c@ as int].source@ == v
                        && edge_positions(res@) + seq![c@ as int] + out_list(es, v, c@ as int) == out_list(es, v, es.len() as int),
                    None => edge_positions(res@) == out_list(es, v, es.len() as int),
                },
            decreases
                match cur {
                    Some(c) => c@ + 1,
                    None => 0,
                },
        {
            let c = cur.unwrap();
            let ghost before = res@;
            res.push(c);
            proof {
                assert(edge_positions(res@) == edge_positions(before) + seq![c@ as int]);
                lemma_out_list_head(es, v, c@ as int);
            }
            cur = self.edges[c.index].next_outbound_edge;
            proof {
                match cur {
                    Some(n) => {
                        assert(edge_positions(res@) + seq![n@ as int] + out_list(es, v, n@ as int)
                            == edge_positions(before) + (seq![c@ as int] + (seq![n@ as int] + out_list(es, v, n@ as int))));
                    },
                    None => {
                        assert(edge_positions(res@) == edge_positions(before) + seq![c@ as int] + out_list(es, v, c@ as int));
                    },
                }
            }
        }
        res
    }

    /// The edges entering `target`, from the most recently added to the oldest.
    pub fn in_edges(&self, target: &NodeIndex) -> (r: Vec<EdgeIndex>)
        requires
            self.wf(),
            target@ < self@.0.len(),
        ensures
            edge_positions(r@) == self.spec_in_edges(target@ as int),
    {
        let ghost es = self.edges@;
        let ghost v = target@ as int;
        let mut res: Vec<EdgeIndex> = Vec::new();
        let mut cur = self.vertices[target.index].first_inbound_edge;
        proof {
            lemma_in_list_head(es, v, es.len() as int);
        }
        while cur.is_some()
            invariant
                graph_wf(self@.0, es),
                es == self.edges@,
                match cur {
                    Some(c) => c@ < es.len() && es[c@ as int].target@ == v
                        && edge_positions(res@) + seq![c@ as int] + in_list(es, v, c@ as int) == in_list(es, v, es.len() as int),
                    None => edge_positions(res@) == in_list(es, v, es.len() as int),
                },
            decreases
                match cur {
                    Some(c) => c@ + 1,
                    None => 0,
                },
        {
            let c = cur.unwrap();
            let ghost before = res@;
            res.push(c);
            proof {
                assert(edge_positions(res@) == edge_positions(before) + seq![c@ as int]);
                lemma_in_list_head(es, v, c@ as int);
            }
            cur = self.edges[c.index].next_inbound_edge;
            proof {
                match cur {
                    Some(n) => {
                        assert(edge_positions(res@) + seq![n@ as int] + in_list(es, v, n@ as int)
                            == edge_positions(before) + (seq![c@ as int] + (seq![n@ as int] + in_list(es, v, n@ as int))));
                    },
                    None => {
                        assert(edge_positions(res@) == edge_positions(before) + seq![c@ as int] + in_list(es, v, c@ as int));
                    },
                }
            }
        }
        res
    }

    /// Number of edges entering `node`.
    pub fn in_degree(&self, node: &NodeIndex) -> (r: usize)
        requires
            self.wf(),
            node@ < self@.0.len(),
        ensures
            r == self.spec_in_edges(node@ as int).len(),
    {
        self.in_edges(node).len()
    }

    /// Number of edges leaving `node`.
    pub fn out_degree(&self, node: &NodeIndex) -> (r: usize)
        requires
            self.wf(),
            node@ < self@.0.len(),
        ensures
            r == self.spec_out_edges(node@ as int).len(),
    {
        self.out_edges(node).len()
    }
}

impl<N: Clone, R: Clone> Graph<N, R> {
    /// The graph's edge lists are consistent.
    pub open spec fn wf(&self) -> bool {
        graph_wf(self@.0, self@.1)
    }

    pub fn new() -> (r: Self)
        ensures
            r@.0 == Seq::<VertexData<EdgeIndex, N>>::empty(),
            r@.1 == Seq::<EdgeData<NodeIndex, EdgeIndex, R>>::empty(),
            r.wf(),
    {
        Graph { vertices: Vec::new(), edges: Vec::new() }
    }

    fn new_clone(nodes: Vec<VertexData<EdgeIndex, N>>, edges: Vec<EdgeData<NodeIndex, EdgeIndex, R>>) -> (r: Self)
        ensures
            r@ == (nodes@, edges@),
    {
        Graph { vertices: nodes, edges }
    }

    pub fn add_vertex(&mut self, node: N) -> (r: NodeIndex)
        requires
            old(self).wf(),
        ensures
            final(self).wf(),
            r@ == old(self)@.0.len(),
            final(self)@.0 == old(self)@.0.push(VertexData { first_outbound_edge: None, first_inbound_edge: None, node }),
            final(self)@.1 == old(self)@.1,
            final(self).spec_out_edges(r@ as int) == Seq::<int>::empty(),
            final(self).spec_in_edges(r@ as int) == Seq::<int>::empty(),
    {
        let index = self.vertices.len();
        self.vertices.push(VertexData::<EdgeIndex, N> { first_outbound_edge: None, first_inbound_edge: None, node });
        proof {
            let es = self.edges@;
            lemma_last_untouched(es, index as int, es.len() as int);
            lemma_out_list_head(es, index as int, es.len() as int);
            lemma_in_list_head(es, index as int, es.len() as int);
        }
        NodeIndex::new(index)
    }

    pub fn get_vertex(&self, id: NodeIndex) -> (r: &VertexData<EdgeIndex, N>)
        requires
            id@ < self@.0.len(),
        ensures
            *r == self@.0[id@ as int],
    {
        &self.vertices[id.index]
    }

    pub fn get_edge_data(&self, id: EdgeIndex) -> (r: EdgeData<NodeIndex, EdgeIndex, R>)
        requires
            id@ < self@.1.len(),
        ensures
            same_links(r, self@.1[id@ as int]),
            cloned(self@.1[id@ as int].relationship, r.relationship),
    {
        self.edges[id.index].clone()
    }

    pub fn add_edge(&mut self, rel: R, source: NodeIndex, target: NodeIndex) -> (r: EdgeIndex)
        requires
            old(self).wf(),
            source@ < old(self)@.0.len(),
            target@ < old(self)@.0.len(),
        ensures
            final(self).wf(),
            r@ == old(self)@.1.len(),
            final(self)@.1 == old(self)@.1.push(EdgeData {
                id: r,
                source,
                target,
                next_outbound_edge: old(self)@.0[source@ as int].first_outbound_edge,
                next_inbound_edge: old(self)@.0[target@ as int].first_inbound_edge,
                relationship: rel,
            }),
            final(self)@.0.len() == old(self)@.0.len(),
            forall|v: int| 0 <= v < old(self)@.0.len() ==> {
                &&& (#[trigger] final(self)@.0[v]).node == old(self)@.0[v].node
                &&& final(self)@.0[v].first_outbound_edge == if v == source@ { Some(r) } else { old(self)@.0[v].first_outbound_edge }
                &&& final(self)@.0[v].first_inbound_edge == if v == target@ { Some(r) } else { old(self)@.0[v].first_inbound_edge }
            },
            forall|v: int| #[trigger] final(self).spec_out_edges(v) == if v == source@ {
                seq![r@ as int] + old(self).spec_out_edges(v)
            } else {
                old(self).spec_out_edges(v)
            },
            forall|v: int| #[trigger] final(self).spec_in_edges(v) == if v == target@ {
                seq![r@ as int] + old(self).spec_in_edges(v)
            } else {
                old(self).spec_in_edges(v)
            },
    {
        let index = self.edges.len();
        let ghost old_vs = self.vertices@;
        let ghost old_es = self.edges@;
        {
            let next_inbound_edge = self.vertices[target.index].first_inbound_edge;
            let next_outbound_edge = self.vertices[source.index].first_outbound_edge;
            self.edges.push(EdgeData {
                id: EdgeIndex::new(index),
                source,
                target,
                next_inbound_edge,
                next_outbound_edge,
                relationship: rel,
            });
        }
        let ms = &mut self.vertices[source.index];
        ms.first_outbound_edge = Some(EdgeIndex::new(index));
        let mt = &mut self.vertices[target.index];
        mt.first_inbound_edge = Some(EdgeIndex::new(index));
        proof {
            let es = self.edges@;
            let vs = self.vertices@;
            assert(es[index as int].id@ == index);
            assert forall|e: int| 0 <= e < old_es.len() implies
                last_out(es, es[e].source@ as int, e) == last_out(old_es, old_es[e].source@ as int, e)
                && last_in(es, es[e].target@ as int, e) == last_in(old_es, old_es[e].target@ as int, e) by {
                lemma_last_push(old_es, es[index as int], es[e].source@ as int, e);
                lemma_last_push(old_es, es[index as int], es[e].target@ as int, e);
            }
            lemma_last_push(old_es, es[index as int], source@ as int, index as int);
            lemma_last_push(old_es, es[index as int], target@ as int, index as int);
            assert forall|v: int| 0 <= v < vs.len() implies
                #[trigger] last_out(es, v, es.len() as int) == if v == source@ { Some(index as int) } else { last_out(old_es, v, old_es.len() as int) }
                && last_in(es, v, es.len() as int) == if v == target@ { Some(index as int) } else { last_in(old_es, v, old_es.len() as int) } by {
                lemma_last_push(old_es, es[index as int], v, index as int);
            }
            assert forall|e: int| 0 <= e < es.len() implies {
                &&& (#[trigger] es[e]).id@ == e
                &&& es[e].source@ < vs.len()
                &&& es[e].target@ < vs.len()
                &&& opt_pos(es[e].next_outbound_edge) == last_out(es, es[e].source@ as int, e)
                &&& opt_pos(es[e].next_inbound_edge) == last_in(es, es[e].target@ as int, e)
            } by {
                if e < index {
                    assert(es[e] == old_es[e]);
                }
            }
            assert forall|v: int| #[trigger] out_list(es, v, es.len() as int) == if v == source@ {
                seq![index as int] + out_list(old_es, v, old_es.len() as int)
            } else {
                out_list(old_es, v, old_es.len() as int)
            } by {
                lemma_lists_after_push(old_es, es[index as int], v);
                assert(es == old_es.push(es[index as int]));
            }
            assert forall|v: int| #[trigger] in_list(es, v, es.len() as int) == if v == target@ {
                seq![index as int] + in_list(old_es, v, old_es.len() as int)
            } else {
                in_list(old_es, v, old_es.len() as int)
            } by {
                lemma_lists_after_push(old_es, es[index as int], v);
                assert(es == old_es.push(es[index as int]));
            }
            assert forall|v: int| 0 <= v < vs.len() implies {
                &&& opt_pos((#[trigger] vs[v]).first_outbound_edge) == last_out(es, v, es.len() as int)
                &&& opt_pos(vs[v].first_inbound_edge) == last_in(es, v, es.len() as int)
            } by {
                lemma_last_push(old_es, es[index as int], v, index as int);
            }
        }
        EdgeIndex::new(index)
    }
}

impl<N: Clone, R: Clone> GraphTrait<NodeIndex, EdgeIndex> for Graph<N, R> {
    open spec fn spec_nodes_len(&self) -> nat {
        self@.0.len()
    }

    open spec fn spec_edges_len(&self) -> nat {
        self@.1.len()
    }

    open spec fn spec_source(&self, e: EdgeIndex) -> NodeIndex {
        self@.1[e@ as int].source
    }

    open spec fn spec_target(&self, e: EdgeIndex) -> NodeIndex {
        self@.1[e@ as int].target
    }

    fn get_source_index(&self, edge_index: &EdgeIndex) -> (r: NodeIndex) {
        self.edges[edge_index.index].source
    }

    fn get_target_index(&self, edge_index: &EdgeIndex) -> (r: NodeIndex) {
        self.edges[edge_index.index].target
    }

    fn nodes_len(&self) -> (r: usize) {
        self.vertices.len()
    }

    fn edges_len(&self) -> (r: usize) {
        self.edges.len()
    }

    fn get_nodes_ids(&self) -> (r: Vec<NodeIndex>) {
        node_ids_up_to(self.vertices.len())
    }
}

/// The node indexes `0, 1, .., n - 1`.
pub fn node_ids_up_to(n: usize) -> (r: Vec<NodeIndex>)
    ensures
        r@.len() == n,
        forall|i: int| 0 <= i < r@.len() ==> (#[trigger] r@[i]).mem_index() == i,
{
    let mut res: Vec<NodeIndex> = Vec::new();
    let mut i: usize = 0;
    while i < n
        invariant
            i <= n,
            res@.len() == i,
            forall|j: int| 0 <= j < i ==> (#[trigger] res@[j]).mem_index() == j,
        decreases n - i,
    {
        res.push(NodeIndex::new(i));
        i = i + 1;
    }
    res
}

/// Edges with the same links give the same lists.
proof fn lemma_lists_same_links<R: Clone>(
    a: Seq<EdgeData<NodeIndex, EdgeIndex, R>>,
    b: Seq<EdgeData<NodeIndex, EdgeIndex, R>>,
    v: int,
    k: int,
)
    requires
        a.len() == b.len(),
        k <= a.len(),
        forall|e: int| 0 <= e < a.len() ==> same_links(#[trigger] a[e], b[e]),
    ensures
        last_out(a, v, k) == last_out(b, v, k),
        last_in(a, v, k) == last_in(b, v, k),
    decreases k,
{
    if k > 0 {
        assert(same_links(a[k - 1], b[k - 1]));
        lemma_lists_same_links(a, b, v, k - 1);
    }
}

/// Edges that keep their links, whatever relationships they carry, keep the
/// edge lists consistent.
pub(crate) proof fn lemma_wf_same_links<N, R: Clone>(
    vs: Seq<VertexData<EdgeIndex, N>>,
    es: Seq<EdgeData<NodeIndex, EdgeIndex, R>>,
    es2: Seq<EdgeData<NodeIndex, EdgeIndex, R>>,
)
    requires
        graph_wf(vs, es),
        es2.len() == es.len(),
        forall|e: int| 0 <= e < es.len() ==> same_links(#[trigger] es[e], es2[e]),
    ensures
        graph_wf(vs, es2),
{
    assert forall|e: int| 0 <= e < es2.len() implies {
        &&& (#[trigger] es2[e]).id@ == e
        &&& es2[e].source@ < vs.len()
        &&& es2[e].target@ < vs.len()
        &&& opt_pos(es2[e].next_outbound_edge) == last_out(es2, es2[e].source@ as int, e)
        &&& opt_pos(es2[e].next_inbound_edge) == last_in(es2, es2[e].target@ as int, e)
    } by {
        assert(es[e].id@ == e);
        assert(same_links(es[e], es2[e]));
        lemma_lists_same_links(es, es2, es[e].source@ as int, e);
        lemma_lists_same_links(es, es2, es[e].target@ as int, e);
    }
    assert forall|v: int| 0 <= v < vs.len() implies {
        &&& opt_pos((#[trigger] vs[v]).first_outbound_edge) == last_out(es2, v, es2.len() as int)
        &&& opt_pos(vs[v].first_inbound_edge) == last_in(es2, v, es2.len() as int)
    } by {
        lemma_lists_same_links(es, es2, v, es.len() as int);
    }
}

impl<N: Clone, R: Clone> Clone for Graph<N, R> {
    fn clone(&self) -> (r: Self)
        ensures
            self.wf() ==> r.wf(),
            r@.0.len() == self@.0.len(),
            r@.1.len() == self@.1.len(),
            forall|v: int| 0 <= v < self@.0.len() ==> {
                &&& (#[trigger] r@.0[v]).first_outbound_edge == self@.0[v].first_outbound_edge
                &&& r@.0[v].first_inbound_edge == self@.0[v].first_inbound_edge
                &&& cloned(self@.0[v].node, r@.0[v].node)
            },
            forall|e: int| 0 <= e < self@.1.len() ==> {
                &&& same_links(#[trigger] r@.1[e], self@.1[e])
                &&& cloned(self@.1[e].relationship, r@.1[e].relationship)
            },
    {
        let mut vertices: Vec<VertexData<EdgeIndex, N>> = Vec::new();
        let mut i: usize = 0;
        while i < self.vertices.len()
            invariant
                i <= self@.0.len(),
                vertices@.len() == i,
                forall|v: int| 0 <= v < i ==> {
                    &&& (#[trigger] vertices@[v]).first_outbound_edge == self@.0[v].first_outbound_edge
                    &&& vertices@[v].first_inbound_edge == self@.0[v].first_inbound_edge
                    &&& cloned(self@.0[v].node, vertices@[v].node)
                },
            decreases self@.0.len() - i,
        {
            vertices.push(self.vertices[i].clone());
            i = i + 1;
        }
        let mut edges: Vec<EdgeData<NodeIndex, EdgeIndex, R>> = Vec::new();
        let mut j: usize = 0;
        while j < self.edges.len()
            invariant
                j <= self@.1.len(),
                edges@.len() == j,
                forall|e: int| 0 <= e < j ==> {
                    &&& same_links(#[trigger] edges@[e], self@.1[e])
                    &&& cloned(self@.1[e].relationship, edges@[e].relationship)
                },
            decreases self@.1.len() - j,
        {
            edges.push(self.edges[j].clone());
            j = j + 1;
        }
        proof {
            if self.wf() {
                let a = edges@;
                let b = self.edges@;
                assert forall|e: int| 0 <= e < a.len() implies {
                    &&& (#[trigger] a[e]).id@ == e
                    &&& a[e].source@ < vertices@.len()
                    &&& a[e].target@ < vertices@.len()
                    &&& opt_pos(a[e].next_outbound_edge) == last_out(a, a[e].source@ as int, e)
                    &&& opt_pos(a[e].next_inbound_edge) == last_in(a, a[e].target@ as int, e)
                } by {
                    assert(same_links(a[e], b[e]));
                    lemma_lists_same_links(a, b, a[e].source@ as int, e);
                    lemma_lists_same_links(a, b, a[e].target@ as int, e);
                }
                assert forall|v: int| 0 <= v < vertices@.len() implies {
                    &&& opt_pos((#[trigger] vertices@[v]).first_outbound_edge) == last_out(a, v, a.len() as int)
                    &&& opt_pos(vertices@[v].first_inbound_edge) == last_in(a, v, a.len() as int)
                } by {
                    lemma_lists_same_links(a, b, v, a.len() as int);
                }
            }
        }
        Graph::new_clone(vertices, edges)
    }
}

impl<N: Clone, R: Clone> Default for Graph<N, R> {
    fn default() -> (r: Self)
        ensures
            r@.0.len() == 0,
            r@.1.len() == 0,
            r.wf(),
    {
        Self::new()
    }
}

} // verus!
