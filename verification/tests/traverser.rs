use opgraph::directed_graph::{Directed, DirectedGraph};
use opgraph::graph::traverser::{Traversable, TraverserTraits};
use opgraph::graph::{Error, Graph, GraphTraits};
use opgraph::undirected_graph::{UnGraph, UndirectedGraph};
use std::collections::{BTreeSet, VecDeque};

#[test]
fn traverser_test_dfs() {
    let mut graph = Graph::<Directed, usize, (), ()>::new();
    graph.add_node(1, ()).unwrap();
    graph.add_node(2, ()).unwrap();
    graph.add_node(3, ()).unwrap();
    graph.add_edge(1, 2, ()).unwrap();
    graph.add_edge(2, 3, ()).unwrap();
    graph.add_edge(3, 1, ()).unwrap();
    graph.traverser().dfs(1);
}

#[test]
fn traverser_test_bfs() {
    let mut graph = Graph::<Directed, usize, (), ()>::new();
    graph.add_node(1, ()).unwrap();
    graph.add_node(2, ()).unwrap();
    graph.add_node(3, ()).unwrap();
    graph.add_edge(1, 2, ()).unwrap();
    graph.add_edge(2, 3, ()).unwrap();
    graph.add_edge(3, 1, ()).unwrap();
    graph.traverser().bfs(1);
}

fn route_graph() -> Graph<Directed, &'static str, &'static str, &'static str> {
    let mut graph = Graph::<Directed, &'static str, &'static str, &'static str>::new();

    graph.add_node("a", "a").unwrap();
    graph.add_node("b_a", "b_a").unwrap();
    graph.add_node("b_b", "b_b").unwrap();
    graph.add_node("b_c", "b_c").unwrap();
    graph.add_node("c_a", "c_a").unwrap();
    graph.add_node("c_b", "c_b").unwrap();
    graph.add_node("d_a", "d_a").unwrap();
    graph.add_node("d_b", "d_b").unwrap();
    graph.add_node("d_c", "d_c").unwrap();
    graph.add_node("e", "e").unwrap();

    graph.add_edge("a", "b_a", "a -> b_a").unwrap();
    graph.add_edge("b_a", "c_b", "b_a -> c_b").unwrap();

    graph.add_edge("b_c", "c_b", "b_c -> c_b").unwrap();
    graph.add_edge("c_a", "d_b", "c_a -> d_b").unwrap();
    graph.add_edge("d_a", "e", "d_a -> e").unwrap();

    graph.add_edge("a", "b_b", "a -> b_b").unwrap();
    graph.add_edge("b_b", "c_a", "b_b -> c_a").unwrap();
    graph.add_edge("c_a", "d_c", "c_a -> d_c").unwrap();
    graph.add_edge("d_c", "e", "d_c -> e").unwrap();
    graph
}

#[test]
fn test_dijkstra() {
    let graph = route_graph();

    let start = std::time::Instant::now();
    let path = graph.traverser().dijkstra("a", "e");
    let duration = start.elapsed();
    println!("Time taken to traverse the graph: {:?}", duration);

    assert!(path.is_some());
    let path = path.unwrap();
    println!("path: {:?}", path);
}

#[test]
fn dijkstra_finds_the_only_route() {
    let graph = route_graph();
    let path = graph.traverser().dijkstra("a", "e");
    assert_eq!(path, Some(vec!["a", "b_b", "c_a", "d_c", "e"]));
}

#[test]
fn dijkstra_answers_none_where_no_path_leads() {
    let graph = route_graph();
    assert_eq!(graph.traverser().dijkstra("e", "a"), None);
    assert_eq!(graph.traverser().dijkstra("b_a", "e"), None);
    assert_eq!(graph.traverser().dijkstra("a", "nowhere"), None);
}

#[test]
fn dijkstra_from_an_id_to_itself_is_that_id() {
    let graph = route_graph();
    assert_eq!(graph.traverser().dijkstra("c_a", "c_a"), Some(vec!["c_a"]));
    assert_eq!(graph.traverser().dijkstra("nowhere", "nowhere"), Some(vec!["nowhere"]));
}

#[test]
fn dijkstra_takes_the_path_with_fewest_edges() {
    // 0 -> 1 -> 3 -> 4 is longer than 0 -> 2 -> 4, and the ids of the longer
    // path are the greater ones.
    let mut graph = Graph::<Directed, u32, (), u8>::new();
    for id in 0..7 {
        graph.add_node(id, ()).unwrap();
    }
    graph.add_edge(0, 5, 1).unwrap();
    graph.add_edge(5, 6, 1).unwrap();
    graph.add_edge(6, 4, 1).unwrap();
    graph.add_edge(0, 2, 200).unwrap();
    graph.add_edge(2, 4, 200).unwrap();
    graph.add_edge(0, 1, 1).unwrap();
    graph.add_edge(1, 3, 1).unwrap();
    graph.add_edge(3, 4, 1).unwrap();
    let path = graph.traverser().dijkstra(0, 4).unwrap();
    assert_eq!(path, vec![0, 2, 4]);
}

#[test]
fn dijkstra_path_is_as_long_as_the_breadth_first_distance() {
    let mut graph = Graph::<Directed, u32, (), ()>::new();
    for id in 0..6 {
        graph.add_node(id, ()).unwrap();
    }
    graph.add_edge(0, 1, ()).unwrap();
    graph.add_edge(1, 2, ()).unwrap();
    graph.add_edge(2, 3, ()).unwrap();
    graph.add_edge(0, 4, ()).unwrap();
    graph.add_edge(4, 3, ()).unwrap();
    graph.add_edge(3, 5, ()).unwrap();
    let path = graph.traverser().dijkstra(0, 5).unwrap();
    assert_eq!(path.first(), Some(&0));
    assert_eq!(path.last(), Some(&5));
    assert_eq!(path.len(), 4);
    assert_eq!(path, vec![0, 4, 3, 5]);
}

#[test]
fn test_directed_graph() -> Result<(), Error> {
    let mut graph = DirectedGraph::new();
    graph.add_node(0, "Node 0")?;
    graph.add_node(1, "Node 1")?;
    graph.add_node(2, "Node 2")?;
    graph.add_node(3, "Node 3")?;
    graph.add_edge(0, 1, "Edge 0-1")?;
    graph.add_edge(0, 2, "Edge 0-2")?;
    graph.add_edge(1, 3, "Edge 1-3")?;
    graph.add_edge(2, 3, "Edge 2-3")?;
    println!("Depth First Search:");
    graph.dfs(0);
    println!("Breadth First Search:");
    graph.bfs(0);
    Ok(())
}

#[test]
fn test_undirected_graph() -> Result<(), Error> {
    let mut graph = UndirectedGraph::new();
    graph.add_node(0, "Node 0")?;
    graph.add_node(1, "Node 1")?;
    graph.add_node(2, "Node 2")?;
    graph.add_node(3, "Node 3")?;
    graph.add_edge(0, 1, "Edge 0-1")?;
    graph.add_edge(0, 2, "Edge 0-2")?;
    graph.add_edge(1, 3, "Edge 1-3")?;
    graph.add_edge(2, 3, "Edge 2-3")?;
    println!("Depth First Search:");
    graph.dfs(3);
    println!("Breadth First Search:");
    graph.bfs(3);
    Ok(())
}

#[test]
fn walks_visit_in_the_order_of_the_frontier() {
    // The diamond 0 -> 1, 0 -> 2, 1 -> 3, 2 -> 3.
    let mut graph = Graph::<Directed, u32, (), ()>::new();
    for id in 0..4 {
        graph.add_node(id, ()).unwrap();
    }
    graph.add_edge(0, 1, ()).unwrap();
    graph.add_edge(0, 2, ()).unwrap();
    graph.add_edge(1, 3, ()).unwrap();
    graph.add_edge(2, 3, ()).unwrap();
    assert_eq!(graph.order(), 4);
    assert_eq!(graph.size(), 4);
    // Breadth first: the queue is served from the front.
    assert_eq!(graph.traverser().bfs(0), vec![0, 1, 2, 3]);
    // Depth first: the neighbor pushed last is taken first.
    assert_eq!(graph.traverser().dfs(0), vec![0, 2, 3, 1]);
    assert_eq!(graph.traverser().bfs(1), vec![1, 3]);
    assert_eq!(graph.traverser().dfs(3), vec![3]);
}

#[test]
fn diamond_depth_first_visits_each_node_once() {
    let mut graph = Graph::<Directed, u32, (), ()>::new();
    for id in 0..4 {
        graph.add_node(id, ()).unwrap();
    }
    graph.add_edge(0, 1, ()).unwrap();
    graph.add_edge(0, 2, ()).unwrap();
    graph.add_edge(1, 3, ()).unwrap();
    graph.add_edge(2, 3, ()).unwrap();
    let mut order = graph.traverser().dfs(0);
    assert_eq!(order.len(), 4);
    order.sort();
    assert_eq!(order, vec![0, 1, 2, 3]);
}

#[test]
fn walks_visit_ids_that_edges_lead_to_even_if_no_node_has_them() {
    let mut graph = Graph::<Directed, u32, (), ()>::new();
    graph.add_node(1, ()).unwrap();
    // Only a write to the edges themselves leaves an edge without its end.
    graph.edges_mut(1).unwrap().insert(9, ());
    assert_eq!(graph.traverser().bfs(1), vec![1, 9]);
    assert_eq!(graph.traverser().dfs(1), vec![1, 9]);
    // A start that is no node is visited and leads nowhere.
    assert_eq!(graph.traverser().bfs(7), vec![7]);
}

#[test]
fn steps_skip_what_was_visited() {
    let mut graph = Graph::<Directed, u32, (), ()>::new();
    for id in 1..4 {
        graph.add_node(id, ()).unwrap();
    }
    graph.add_edge(1, 2, ()).unwrap();
    graph.add_edge(1, 3, ()).unwrap();
    graph.add_edge(2, 3, ()).unwrap();
    let traverser = graph.traverser();

    let mut queue = VecDeque::from(vec![1, 1, 2]);
    let mut visited = BTreeSet::new();
    assert_eq!(traverser.bfs_step(&mut queue, &mut visited), Some(1));
    assert_eq!(queue, VecDeque::from(vec![1, 2, 2, 3]));
    // 1 leaves the queue unvisited no more; 2 is found, and its neighbor 3 joins again.
    assert_eq!(traverser.bfs_step(&mut queue, &mut visited), Some(2));
    assert_eq!(queue, VecDeque::from(vec![2, 3, 3]));
    assert_eq!(traverser.bfs_step(&mut queue, &mut visited), Some(3));
    assert_eq!(queue, VecDeque::from(vec![3]));
    assert_eq!(traverser.bfs_step(&mut queue, &mut visited), None);
    assert!(queue.is_empty());
    assert_eq!(visited.len(), 3);

    let mut stack = vec![1];
    let mut visited = BTreeSet::new();
    assert_eq!(traverser.dfs_step(&mut stack, &mut visited), Some(1));
    assert_eq!(stack, vec![2, 3]);
    assert_eq!(traverser.dfs_step(&mut stack, &mut visited), Some(3));
    assert_eq!(stack, vec![2]);
    assert_eq!(traverser.dfs_step(&mut stack, &mut visited), Some(2));
    assert!(stack.is_empty());
    assert_eq!(traverser.dfs_step(&mut stack, &mut visited), None);
}

#[test]
fn an_undirected_graph_is_walked_both_ways() {
    let mut graph = UnGraph::<u32, (), ()>::new();
    for id in 0..5 {
        graph.add_node(id, ()).unwrap();
    }
    graph.add_edge(3, 1, ()).unwrap();
    graph.add_edge(1, 0, ()).unwrap();
    graph.add_edge(0, 2, ()).unwrap();
    assert_eq!(graph.traverser().bfs(3), vec![3, 1, 0, 2]);
    assert_eq!(graph.traverser().dfs(0), vec![0, 2, 1, 3]);
    assert_eq!(graph.bfs(0), vec![0, 1, 2, 3]);
    assert_eq!(graph.dfs(4), vec![4]);
    assert_eq!(graph.traverser().dijkstra(3, 2), Some(vec![3, 1, 0, 2]));
    assert_eq!(graph.traverser().dijkstra(2, 3), Some(vec![2, 0, 1, 3]));
    assert_eq!(graph.traverser().dijkstra(2, 4), None);
}

#[test]
fn a_walk_visits_what_can_be_reached_and_nothing_twice() {
    // Two rings that share the node 0, and a node that nothing leads to.
    let mut graph = Graph::<Directed, u32, (), ()>::new();
    for id in 0..8 {
        graph.add_node(id, ()).unwrap();
    }
    for (from, to) in [(0, 1), (1, 2), (2, 0), (0, 3), (3, 4), (4, 0), (5, 0), (6, 6), (2, 4)] {
        graph.add_edge(from, to, ()).unwrap();
    }
    let reachable: BTreeSet<u32> = [0, 1, 2, 3, 4].into_iter().collect();
    for start in [0, 1, 2, 3, 4] {
        let breadth = graph.traverser().bfs(start);
        let depth = graph.traverser().dfs(start);
        assert_eq!(breadth.len(), reachable.len());
        assert_eq!(depth.len(), reachable.len());
        assert_eq!(breadth.iter().copied().collect::<BTreeSet<u32>>(), reachable);
        assert_eq!(depth.iter().copied().collect::<BTreeSet<u32>>(), reachable);
        assert_eq!(breadth[0], start);
        assert_eq!(depth[0], start);
    }
    assert_eq!(graph.traverser().bfs(5), vec![5, 0, 1, 3, 2, 4]);
    assert_eq!(graph.traverser().dfs(5), vec![5, 0, 3, 4, 1, 2]);
    assert_eq!(graph.traverser().bfs(6), vec![6]);
    assert_eq!(graph.traverser().bfs(7), vec![7]);
}
