use opgraph::graph::traverser::{Traversable, TraverserTraits};
use opgraph::graph::GraphTraits;
use opgraph::undirected_graph::UnGraph;

#[test]
fn undirected_graph_test_create_graph() {
    let _ = UnGraph::<usize, (), ()>::new();
}

#[test]
fn undirected_graph_test_add_node() {
    let mut graph = UnGraph::<usize, (), ()>::new();
    assert!( graph.add_node( 1, () ).is_ok() );
    assert!( graph.contains_node( 1 ) );
}

#[test]
fn undirected_graph_test_get_node() {
    let mut graph = UnGraph::<usize, (), ()>::new();
    graph.add_node( 1, () ).unwrap();
    assert!( graph.get_node( 1 ).is_some() );
    assert!( graph.get_node( 4 ).is_none() );
}

#[test]
fn undirected_graph_test_get_node_mut() {
    let mut graph = UnGraph::<usize, (), ()>::new();
    graph.add_node( 1, () ).unwrap();
    assert!( graph.get_node_mut( 1 ).is_some() );
    assert!( graph.get_node_mut( 4 ).is_none() );
}

#[test]
fn undirected_graph_test_contains_node() {
    let mut graph = UnGraph::<usize, (), ()>::new();
    graph.add_node( 1, () ).unwrap();
    assert!( graph.contains_node( 1 ) );
    assert!( !graph.contains_node( 4 ) );
}

#[test]
fn undirected_graph_test_remove_node() {
    let mut graph = UnGraph::<usize, (), ()>::new();
    graph.add_node( 1, () ).unwrap();
    assert!( graph.remove_node( 1 ).is_ok() );
    assert!( !graph.contains_node( 1 ) );
}

#[test]
fn undirected_graph_test_add_edge() {
    let mut graph = UnGraph::<usize, (), ()>::new();
    graph.add_node( 1, () ).unwrap();
    graph.add_node( 3, () ).unwrap();
    assert!( graph.add_edge( 1, 3, () ).is_ok() );
    assert!( graph.contains_edge( 1, 3 ) );
}

#[test]
fn undirected_graph_test_get_edge() {
    let mut graph = UnGraph::<usize, (), ()>::new();
    graph.add_node( 1, () ).unwrap();
    graph.add_node( 2, () ).unwrap();
    graph.add_edge( 1, 2, () ).unwrap();
    assert!( graph.get_edge( 1, 2 ).is_some() );
    assert!( graph.get_edge( 1, 3 ).is_none() );
}

#[test]
fn undirected_graph_test_contains_edge() {
    let mut graph = UnGraph::<usize, (), ()>::new();
    graph.add_node( 1, () ).unwrap();
    graph.add_node( 2, () ).unwrap();
    graph.add_edge( 1, 2, () ).unwrap();
    assert!( graph.contains_edge( 1, 2 ) );
    assert!( !graph.contains_edge( 1, 3 ) );
}

#[test]
fn undirected_graph_test_remove_edge() {
    let mut graph = UnGraph::<usize, (), ()>::new();
    graph.add_node( 1, () ).unwrap();
    graph.add_node( 2, () ).unwrap();
    graph.add_edge( 1, 2, () ).unwrap();
    assert!( graph.remove_edge( 1, 2 ).is_ok() );
    assert!( !graph.contains_edge( 1, 2 ) );
}

#[test]
fn undirected_graph_test_bfs() {
    let mut graph = UnGraph::<usize, (), ()>::new();
    graph.add_node( 1, () ).unwrap();
    graph.traverser().bfs( 1 );
}

#[test]
fn undirected_graph_test_dfs() {
    let mut graph = UnGraph::<usize, (), ()>::new();
    graph.add_node( 1, () ).unwrap();
    graph.traverser().dfs( 1 );
}

#[test]
fn undirected_graph_test_is_complete() {
    let mut graph = UnGraph::<usize, (), ()>::new();
    graph.add_node( 1, () ).unwrap();
    graph.add_node( 2, () ).unwrap();
    graph.add_edge( 1, 2, () ).unwrap();
    assert!( graph.is_complete() );
}

#[test]
fn undirected_graph_test_is_empty() {
    let graph = UnGraph::<usize, (), ()>::new();
    assert!( graph.is_empty() );
}

#[test]
fn undirected_graph_test_is_trivial() {
    let mut graph = UnGraph::<usize, (), ()>::new();
    graph.add_node( 1, () ).unwrap();
    assert!( graph.is_trivial() );
}

#[test]
fn undirected_graph_test_is_null() {
    let graph = UnGraph::<usize, (), ()>::new();
    assert!( graph.is_null() );
}

#[test]
fn undirected_graph_test_order() {
    let mut graph = UnGraph::<usize, (), ()>::new();
    graph.add_node( 1, () ).unwrap();
    graph.add_node( 2, () ).unwrap();
    graph.add_node( 3, () ).unwrap();
    assert_eq!( graph.order(), 3 );
}

#[test]
fn undirected_graph_test_size() {
    let mut graph = UnGraph::<usize, (), ()>::new();
    graph.add_node( 1, () ).unwrap();
    graph.add_node( 2, () ).unwrap();
    graph.add_edge( 1, 2, () ).unwrap();
    assert_eq!( graph.size(), 1 );
}
