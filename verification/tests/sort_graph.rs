use kopye::graph::sort_graph;
use kopye::graph::Graph;
use kopye::graph::SortError;

fn place<T: PartialEq>(order: &[T], item: &T) -> usize {
    order.iter().position(|x| x == item).expect("every vertex is in the order")
}

#[test]
fn test_sort_graph_is_ok_integer() {
    let nodes: Vec<usize> = vec![2, 3, 5, 7, 8, 9, 10, 11];
    let edges: Vec<(usize, usize)> = vec![
        (5, 11),
        (7, 8),
        (7, 11),
        (3, 8),
        (3, 10),
        (11, 2),
        (11, 9),
        (11, 10),
        (8, 9),
    ];
    let graph: Graph<usize> = Graph { nodes, edges };
    let sorted = sort_graph::<usize>(&graph);

    assert!(sorted.is_ok());
}

#[test]
fn test_sort_graph_is_err_integer() {
    let nodes: Vec<usize> = vec![2, 3, 5, 7, 8, 9, 10, 11];
    let edges: Vec<(usize, usize)> = vec![
        (5, 11),
        (7, 8),
        (7, 11),
        (3, 8),
        (3, 10),
        (11, 2),
        (11, 9),
        (11, 10),
        (8, 9),
        (9, 11), // <-- cycle introduced
    ];
    let graph: Graph<usize> = Graph { nodes, edges };
    let sorted = sort_graph::<usize>(&graph);

    assert!(sorted.is_err());
}

#[test]
fn test_sort_graph_is_ok_strings() {
    let nodes = vec![
        "shirt",
        "hoodie",
        "socks",
        "underwear",
        "pants",
        "shoes",
        "glasses",
        "watch",
        "school",
    ];
    let edges = vec![
        ("shirt", "hoodie"),
        ("hoodie", "school"),
        ("underwear", "pants"),
        ("pants", "shoes"),
        ("socks", "shoes"),
        ("shoes", "school"),
    ];
    let graph: Graph<&str> = Graph { nodes, edges };
    let sorted = sort_graph::<&str>(&graph);

    assert!(sorted.is_ok());
}

#[test]
fn test_is_err_strings() {
    let nodes = vec![
        "shirt",
        "hoodie",
        "socks",
        "underwear",
        "pants",
        "shoes",
        "glasses",
        "watch",
        "school",
    ];
    let edges = vec![
        ("shirt", "hoodie"),
        ("hoodie", "school"),
        ("school", "shirt"), // <-- cycle introduced
        ("underwear", "pants"),
        ("pants", "shoes"),
        ("socks", "shoes"),
        ("shoes", "school"),
    ];
    let graph: Graph<&str> = Graph { nodes, edges };
    let sorted = sort_graph::<&str>(&graph);

    assert!(sorted.is_err());
}

#[test]
fn sorted_order_has_every_edge_pointing_forward() {
    let nodes: Vec<usize> = vec![2, 3, 5, 7, 8, 9, 10, 11];
    let edges: Vec<(usize, usize)> =
        vec![(5, 11), (7, 8), (7, 11), (3, 8), (3, 10), (11, 2), (11, 9), (11, 10), (8, 9)];
    let graph: Graph<usize> = Graph { nodes: nodes.clone(), edges: edges.clone() };
    let sorted = sort_graph(&graph).unwrap();
    assert_eq!(sorted.len(), nodes.len());
    for node in &nodes {
        assert_eq!(sorted.iter().filter(|x| *x == node).count(), 1);
    }
    for (from, to) in &edges {
        assert!(place(&sorted, from) < place(&sorted, to));
    }
}

#[test]
fn cycle_error_carries_every_edge() {
    let graph: Graph<&str> = Graph {
        nodes: vec!["a", "b", "c"],
        edges: vec![("a", "b"), ("b", "c"), ("c", "a")],
    };
    match sort_graph(&graph) {
        Err(SortError::CycleDetected(edges)) => {
            assert!(!edges.is_empty());
            assert_eq!(edges, vec![("a", "b"), ("b", "c"), ("c", "a")]);
        }
        Ok(_) => panic!("a cycle has no order"),
    }
}

#[test]
fn edge_from_an_unknown_source_binds_nothing() {
    let graph: Graph<usize> = Graph { nodes: vec![1], edges: vec![(7, 1)] };
    assert_eq!(sort_graph(&graph).unwrap(), vec![1]);
    let mixed: Graph<usize> = Graph { nodes: vec![3, 2, 1], edges: vec![(7, 3), (1, 2), (2, 3)] };
    assert_eq!(sort_graph(&mixed).unwrap(), vec![1, 2, 3]);
}

#[test]
fn a_cycle_beside_an_unknown_source_is_still_a_cycle() {
    let graph: Graph<usize> = Graph { nodes: vec![1, 2], edges: vec![(7, 1), (1, 2), (2, 1)] };
    match sort_graph(&graph) {
        Err(SortError::CycleDetected(edges)) => assert_eq!(edges, vec![(7, 1), (1, 2), (2, 1)]),
        Ok(order) => panic!("a cycle has no order, got {:?}", order),
    }
}

#[test]
fn edge_target_that_was_not_declared_is_sorted_too() {
    let graph: Graph<usize> = Graph { nodes: vec![1], edges: vec![(1, 2)] };
    assert_eq!(sort_graph(&graph).unwrap(), vec![1, 2]);
}

#[test]
fn declared_twice_is_sorted_once() {
    let graph: Graph<String> =
        Graph { nodes: vec!["a".to_string(), "a".to_string()], edges: vec![] };
    assert_eq!(sort_graph(&graph).unwrap(), vec!["a".to_string()]);
}

#[test]
fn empty_graph_sorts_to_nothing() {
    let graph: Graph<usize> = Graph { nodes: vec![], edges: vec![] };
    assert_eq!(sort_graph(&graph).unwrap(), Vec::<usize>::new());
}
