use opgraph::directed_graph::Directed;
use opgraph::graph::{Graph, GraphTraits};

#[test]
fn directed_graph_test_create_graph() {
    let _ = Graph::<Directed, usize, (), ()>::new();
}

#[test]
fn directed_graph_test_add_node() {
    let mut graph = Graph::<Directed, usize, (), ()>::new();
    assert!(graph.add_node(1, ()).is_ok());
    assert!(graph.contains_node(1));
}

#[test]
fn directed_graph_test_get_node() {
    let mut graph = Graph::<Directed, usize, (), ()>::new();
    graph.add_node(1, ()).unwrap();
    assert!(graph.get_node(1).is_some());
    assert!(graph.get_node(4).is_none());
}

#[test]
fn directed_graph_test_get_node_mut() {
    let mut graph = Graph::<Directed, usize, (), ()>::new();
    graph.add_node(1, ()).unwrap();
    assert!(graph.get_node_mut(1).is_some());
    assert!(graph.get_node_mut(4).is_none());
}

#[test]
fn directed_graph_test_contains_node() {
    let mut graph = Graph::<Directed, usize, (), ()>::new();
    graph.add_node(1, ()).unwrap();
    assert!(graph.contains_node(1));
    assert!(!graph.contains_node(4));
}

#[test]
fn directed_graph_test_remove_node() {
    let mut graph = Graph::<Directed, usize, (), ()>::new();
    graph.add_node(1, ()).unwrap();
    assert!(graph.remove_node(1).is_ok());
    assert!(!graph.contains_node(1));
}

#[test]
fn directed_graph_test_add_edge() {
    let mut graph = Graph::<Directed, usize, (), ()>::new();
    graph.add_node(1, ()).unwrap();
    graph.add_node(3, ()).unwrap();
    assert!(graph.add_edge(1, 3, ()).is_ok());
    assert!(graph.contains_edge(1, 3));
}

#[test]
fn directed_graph_test_get_edge() {
    let mut graph = Graph::<Directed, usize, (), ()>::new();
    graph.add_node(1, ()).unwrap();
    graph.add_node(2, ()).unwrap();
    graph.add_edge(1, 2, ()).unwrap();
    assert!(graph.get_edge(1, 2).is_some());
    assert!(graph.get_edge(1, 3).is_none());
}

#[test]
fn directed_graph_test_contains_edge() {
    let mut graph = Graph::<Directed, usize, (), ()>::new();
    graph.add_node(1, ()).unwrap();
    graph.add_node(2, ()).unwrap();
    graph.add_edge(1, 2, ()).unwrap();
    assert!(graph.contains_edge(1, 2));
    assert!(!graph.contains_edge(1, 3));
}

#[test]
fn directed_graph_test_remove_edge() {
    let mut graph = Graph::<Directed, usize, (), ()>::new();
    graph.add_node(1, ()).unwrap();
    graph.add_node(2, ()).unwrap();
    graph.add_edge(1, 2, ()).unwrap();
    assert!(graph.remove_edge(1, 2).is_ok());
    assert!(!graph.contains_edge(1, 2));
}

#[test]
fn directed_graph_test_bfs() {
    let mut graph = Graph::<Directed, usize, (), ()>::new();
    graph.add_node(1, ()).unwrap();
    graph.bfs(1);
}

#[test]
fn directed_graph_test_dfs() {
    let mut graph = Graph::<Directed, usize, (), ()>::new();
    graph.add_node(1, ()).unwrap();
    graph.dfs(1);
}

#[test]
fn directed_graph_test_is_complete() {
    let mut graph = Graph::<Directed, usize, (), ()>::new();
    graph.add_node(1, ()).unwrap();
    graph.add_node(2, ()).unwrap();
    graph.add_edge(1, 2, ()).unwrap();
    graph.add_edge(2, 1, ()).unwrap();
    assert!(graph.is_complete());
}

#[test]
fn directed_graph_test_is_empty() {
    let graph = Graph::<Directed, usize, (), ()>::new();
    assert!(graph.is_empty());
}

#[test]
fn directed_graph_test_is_trivial() {
    let mut graph = Graph::<Directed, usize, (), ()>::new();
    graph.add_node(1, ()).unwrap();
    assert!(graph.is_trivial());
}

#[test]
fn directed_graph_test_is_null() {
    let graph = Graph::<Directed, usize, (), ()>::new();
    assert!(graph.is_null());
}

#[test]
fn directed_graph_test_order() {
    let mut graph = Graph::<Directed, usize, (), ()>::new();
    graph.add_node(1, ()).unwrap();
    graph.add_node(2, ()).unwrap();
    graph.add_node(3, ()).unwrap();
    assert_eq!(graph.order(), 3);
}

#[test]
fn directed_graph_test_size() {
    let mut graph = Graph::<Directed, usize, (), ()>::new();
    graph.add_node(1, ()).unwrap();
    graph.add_node(2, ()).unwrap();
    graph.add_edge(1, 2, ()).unwrap();
    assert_eq!(graph.size(), 1);
}
