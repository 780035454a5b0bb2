use zawgl::graph::container::GraphContainer;
use zawgl::graph::traits::GraphTrait;
use zawgl::graph::{EdgeIndex, Graph, NodeIndex};

#[test]
fn test_small_graph_it() {
    let mut graph = Graph::new();
    let n0 = graph.add_vertex(1);
    let n1 = graph.add_vertex(2);
    let n2 = graph.add_vertex(3);

    let e0 = graph.add_edge(4, n0, n1);
    let _e1 = graph.add_edge(4, n1, n2);
    let e2 = graph.add_edge(5, n0, n2);

    let ed0 = graph.get_edge_data(e0);
    assert_eq!(ed0.source, n0);
    assert_eq!(ed0.target, n1);
    assert_eq!(ed0.next_outbound_edge, None);

    let nd0 = graph.get_vertex(n0);
    assert_eq!(nd0.first_outbound_edge, Some(e2));

    let ed2 = graph.get_edge_data(e2);
    assert_eq!(ed2.source, n0);
    assert_eq!(ed2.target, n2);
    assert_eq!(ed2.next_outbound_edge, Some(e0));
}

#[test]
fn test_out_and_in_edges_newest_first() {
    let mut graph: Graph<i32, i32> = Graph::new();
    let n0 = graph.add_vertex(1);
    let n1 = graph.add_vertex(2);
    let n2 = graph.add_vertex(3);
    let e0 = graph.add_edge(4, n0, n1);
    let e1 = graph.add_edge(4, n1, n2);
    let e2 = graph.add_edge(5, n0, n2);
    assert_eq!(graph.out_edges(&n0), vec![e2, e0]);
    assert_eq!(graph.out_edges(&n1), vec![e1]);
    assert_eq!(graph.out_edges(&n2), Vec::<EdgeIndex>::new());
    assert_eq!(graph.in_edges(&n2), vec![e2, e1]);
    assert_eq!(graph.in_edges(&n0), Vec::<EdgeIndex>::new());
    assert_eq!(graph.out_degree(&n0), 2);
    assert_eq!(graph.in_degree(&n2), 2);
    assert_eq!(graph.in_degree(&n1), 1);
}

#[test]
fn test_graph_trait_queries() {
    let mut graph: Graph<&str, u8> = Graph::new();
    let a = graph.add_vertex("a");
    let b = graph.add_vertex("b");
    let e = graph.add_edge(7, a, b);
    assert_eq!(graph.get_source_index(&e), a);
    assert_eq!(graph.get_target_index(&e), b);
    assert_eq!(graph.nodes_len(), 2);
    assert_eq!(graph.edges_len(), 1);
    assert_eq!(graph.get_nodes_ids(), vec![NodeIndex::new(0), NodeIndex::new(1)]);
    let copy = graph.clone();
    assert_eq!(copy.nodes_len(), 2);
    assert_eq!(copy.get_edge_data(e).relationship, 7);
}

#[test]
fn test_container_access_and_update() {
    let mut c: GraphContainer<String, u32> = GraphContainer::new();
    let a = c.add_node("a".to_string());
    let b = c.add_node("b".to_string());
    let r = c.add_relationship(10, a, b);
    *c.get_node_mut(&a) = "z".to_string();
    *c.get_relationship_mut(&r) = 11;
    assert_eq!(c.get_node_ref(&a), "z");
    assert_eq!(*c.get_relationship_ref(&r), 11);
    assert_eq!(c.nodes_len(), 2);
    assert_eq!(c.edges_len(), 1);
    assert_eq!(c.out_degree(&a), 1);
    assert_eq!(c.in_degree(&b), 1);
    assert_eq!(c.out_edges(&a), vec![r]);
    assert_eq!(c.in_edges(&a), Vec::<EdgeIndex>::new());
    assert_eq!(c.get_source_index(&r), a);
    assert_eq!(c.get_target_index(&r), b);
    let nodes = c.get_nodes();
    assert_eq!(nodes.len(), 2);
    assert_eq!(nodes[1], "b");
    let with_ids = c.get_nodes_with_ids();
    assert_eq!(with_ids[0].1, a);
    assert_eq!(c.get_relationships(), vec![&11]);
    assert_eq!(c.get_edges().len(), 1);
    assert_eq!(c.get_relationships_and_edges()[0].target, b);
    assert_eq!(c.get_nodes_ids(), vec![a, b]);
    c.get_edges_mut()[0].relationship = 12;
    assert_eq!(*c.get_relationship_ref(&r), 12);
    assert_eq!(c.get_inner_graph().nodes_len(), 2);
}

#[test]
fn test_degrees_count_edges_and_ends_are_kept() {
    let mut g: GraphContainer<u32, u32> = GraphContainer::new();
    let a = g.add_node(1);
    let b = g.add_node(2);
    let e0 = g.add_relationship(10, a, b);
    let e1 = g.add_relationship(11, a, a);
    let c = g.add_node(3);
    let e2 = g.add_relationship(12, c, b);
    let count_out = |n: NodeIndex| (0..g.edges_len()).filter(|&e| g.get_source_index(&EdgeIndex::new(e)) == n).count();
    let count_in = |n: NodeIndex| (0..g.edges_len()).filter(|&e| g.get_target_index(&EdgeIndex::new(e)) == n).count();
    for n in [a, b, c] {
        assert_eq!(g.out_degree(&n), count_out(n));
        assert_eq!(g.in_degree(&n), count_in(n));
    }
    assert_eq!(g.out_degree(&a), 2);
    assert_eq!(g.in_degree(&a), 1);
    assert_eq!(g.get_source_index(&e0), a);
    assert_eq!(g.get_target_index(&e0), b);
    assert_eq!(g.get_source_index(&e1), a);
    assert_eq!(g.get_target_index(&e1), a);
    assert_eq!(g.get_source_index(&e2), c);
    *g.get_relationship_mut(&e0) = 99;
    assert_eq!(*g.get_relationship_ref(&e0), 99);
    assert_eq!(g.out_degree(&a), 2);
}
