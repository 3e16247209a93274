use opgraph::async_function_graph::operation::AsyncOperation;
use opgraph::async_function_graph::{AsyncFnGraph, Error as GatedError, GatedGraph};
use opgraph::function_graph::operation::Operation;
use opgraph::function_graph::variable::{Variable, Variables};
use opgraph::function_graph::FnGraph;
use opgraph::graph::traverser::{Traversable, TraverserTraits};
use opgraph::graph::{Error as GraphError, GraphTraits};
use std::collections::{BTreeSet, VecDeque};

fn chain(input: i32) -> (FnGraph<char, char>, Variable) {
    let source = Variable::shared(input);
    let middle = Variable::shared(0);
    let result = Variable::shared(0);
    let mut graph = FnGraph::<char, char>::new();
    graph
        .add_operation('a', [('i', source.clone()), ('o', middle.clone())], |variables| {
            if let (Some(i), Some(o)) = (
                variables.read(&'i').downcast_ref::<i32>(),
                variables.write(&'o').downcast_mut::<i32>(),
            ) {
                *o = *i + 2;
            }
        })
        .unwrap();
    graph
        .add_operation('b', [('i', middle.clone()), ('o', result.clone())], |variables| {
            if let (Some(i), Some(o)) = (
                variables.read(&'i').downcast_ref::<i32>(),
                variables.write(&'o').downcast_mut::<i32>(),
            ) {
                *o = *i * 4;
            }
        })
        .unwrap();
    graph.add_operation('c', [('r', result.clone())], |_| {}).unwrap();
    graph.add_edge('a', 'b', ()).unwrap();
    graph.add_edge('b', 'c', ()).unwrap();
    (graph, result)
}

#[test]
fn a_walk_runs_the_operations_in_the_order_of_the_visits() {
    let (graph, result) = chain(5);
    assert_eq!(graph.traverser().bfs('a'), vec!['a', 'b', 'c']);
    assert_eq!(*result.read().downcast_ref::<i32>().unwrap(), (5 + 2) * 4);

    let (graph, result) = chain(-3);
    assert_eq!(graph.traverser().dfs('a'), vec!['a', 'b', 'c']);
    assert_eq!(*result.read().downcast_ref::<i32>().unwrap(), (-3 + 2) * 4);
}

#[test]
fn a_node_reached_twice_runs_once() {
    let count = Variable::shared(0u32);
    let mut graph = FnGraph::<u32, char>::new();
    for id in 0..4 {
        graph
            .add_operation(id, [('n', count.clone())], |variables| {
                if let Some(n) = variables.write(&'n').downcast_mut::<u32>() {
                    *n += 1;
                }
            })
            .unwrap();
    }
    graph.add_edge(0, 1, ()).unwrap();
    graph.add_edge(0, 2, ()).unwrap();
    graph.add_edge(1, 3, ()).unwrap();
    graph.add_edge(2, 3, ()).unwrap();
    graph.add_edge(3, 0, ()).unwrap();
    assert_eq!(graph.traverser().bfs(0).len(), 4);
    assert_eq!(*count.read().downcast_ref::<u32>().unwrap(), 4);
    assert_eq!(graph.traverser().dfs(0).len(), 4);
    assert_eq!(*count.read().downcast_ref::<u32>().unwrap(), 8);
}

#[test]
fn a_function_that_finds_another_type_leaves_the_value_alone() {
    let text = Variable::shared(String::from("text"));
    let mut graph = FnGraph::<u32, char>::new();
    graph
        .add_operation(1, [('t', text.clone())], |variables| {
            if let Some(n) = variables.write(&'t').downcast_mut::<i32>() {
                *n = 1;
            }
        })
        .unwrap();
    assert_eq!(graph.traverser().bfs(1), vec![1]);
    assert_eq!(text.read().downcast_ref::<String>().unwrap(), "text");
}

#[test]
fn an_operation_holds_its_variables_and_runs_its_function() {
    let mut operation = Operation::new([("x", Variable::owned(1))], |variables: &Variables<&str>| {
        if let Some(x) = variables.write(&"x").downcast_mut::<i32>() {
            *x += 1;
        }
    });
    assert!(operation.execute().is_ok());
    assert!(operation.execute_mut().is_ok());
    assert_eq!(*operation.variables().read(&"x").downcast_ref::<i32>().unwrap(), 3);
    assert!(operation.variables_mut().get(&"y").is_none());
    operation.function().call(operation.variables());
    assert_eq!(*operation.variables().read(&"x").downcast_ref::<i32>().unwrap(), 4);
    let other = Operation::new([], |_: &Variables<&str>| {});
    *operation.function_mut() = other.function().clone();
    assert!(operation.execute().is_ok());
    assert_eq!(*operation.variables().read(&"x").downcast_ref::<i32>().unwrap(), 4);
    assert!(operation == other);
}

fn gated() -> GatedGraph<u32, &'static str> {
    let mut graph = GatedGraph::<u32, &'static str>::new();
    graph.add_node(0, "branch").unwrap();
    graph.add_node(1, "open").unwrap();
    graph.add_node(2, "shut").unwrap();
    graph.add_node(3, "behind the shut one").unwrap();
    graph.add_node(4, "behind the open one").unwrap();
    graph.add_edge(0, 1, true).unwrap();
    graph.add_edge(0, 2, false).unwrap();
    graph.add_edge(2, 3, true).unwrap();
    graph.add_edge(1, 4, true).unwrap();
    graph
}

#[test]
fn a_walk_does_not_pass_a_shut_gate() {
    let graph = gated();
    assert_eq!(graph.traverser().bfs(0), vec![0, 1, 4]);
    assert_eq!(graph.traverser().dfs(0), vec![0, 1, 4]);
    // The edge is there all the same.
    assert!(graph.contains_edge(0, 2));
    assert_eq!(graph.get_edge(0, 2), Some(&false));
    // A walk that starts behind the shut edge follows the open ones there.
    assert_eq!(graph.traverser().bfs(2), vec![2, 3]);
    assert_eq!(graph.traverser().dijkstra(0, 4), Some(vec![0, 1, 4]));
    assert_eq!(graph.traverser().dijkstra(0, 3), None);
}

#[test]
fn a_gate_that_opens_lets_the_walk_pass() {
    let mut graph = gated();
    *graph.get_edge_mut(0, 2).unwrap() = true;
    assert_eq!(graph.traverser().bfs(0), vec![0, 1, 2, 4, 3]);
    assert_eq!(graph.traverser().dfs(0), vec![0, 2, 3, 1, 4]);
    *graph.get_edge_mut(0, 1).unwrap() = false;
    assert_eq!(graph.traverser().bfs(0), vec![0, 2, 3]);
}

#[test]
fn gated_steps_take_open_edges_only() {
    let graph = gated();
    let traverser = graph.traverser();
    let mut queue = VecDeque::from(vec![0]);
    let mut visited = BTreeSet::new();
    assert_eq!(traverser.bfs_step(&mut queue, &mut visited), Some(0));
    assert_eq!(queue, VecDeque::from(vec![1]));
    let mut stack = vec![0];
    let mut visited = BTreeSet::new();
    assert_eq!(traverser.dfs_step(&mut stack, &mut visited), Some(0));
    assert_eq!(stack, vec![1]);
}

#[test]
fn an_asynchronous_operation_holds_its_variables_and_its_function() {
    let mut operation = AsyncOperation::new([("x", Variable::owned(1))], 17u8);
    assert_eq!(*operation.function(), 17);
    *operation.function_mut() = 18;
    assert_eq!(*operation.function(), 18);
    assert_eq!(*operation.variables().read(&"x").downcast_ref::<i32>().unwrap(), 1);
    assert!(operation.variables_mut().get(&"x").is_some());

    let mut graph = AsyncFnGraph::<u32, &str, u8>::new();
    assert!(graph.add_operation(1, [("x", Variable::owned(1))], 1).is_ok());
    assert!(matches!(
        graph.add_operation(1, [], 2),
        Err(GatedError::GraphError(GraphError::NodeAlreadyExists))
    ));
    assert_eq!(*graph.get_node(1).unwrap().function(), 1);
}
