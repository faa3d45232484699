use kopye::graph::sort_graph;
use kopye::graph::Graph;
use kopye::stabilize::stablize_topological_order;

fn texts(items: &[&str]) -> Vec<String> {
    items.iter().map(|s| s.to_string()).collect()
}

fn edges(items: &[(&str, &str)]) -> Vec<(String, String)> {
    items.iter().map(|(a, b)| (a.to_string(), b.to_string())).collect()
}

#[test]
fn independent_nodes_come_first_as_declared() {
    let graph = Graph { nodes: texts(&["a", "b", "c", "d"]), edges: edges(&[("c", "b")]) };
    let sorted = sort_graph(&graph).unwrap();
    let stable = stablize_topological_order(&graph, sorted);
    assert_eq!(stable, texts(&["a", "c", "d", "b"]));
}

#[test]
fn dependent_nodes_keep_the_order_of_the_sort() {
    let graph = Graph {
        nodes: texts(&["late", "early", "root"]),
        edges: edges(&[("root", "early"), ("early", "late")]),
    };
    let stable = stablize_topological_order(&graph, texts(&["root", "early", "late"]));
    assert_eq!(stable, texts(&["root", "early", "late"]));
}

#[test]
fn stabilized_order_keeps_every_edge_pointing_forward() {
    let graph = Graph {
        nodes: texts(&["shirt", "hoodie", "socks", "underwear", "pants", "shoes", "glasses", "watch", "school"]),
        edges: edges(&[
            ("shirt", "hoodie"),
            ("hoodie", "school"),
            ("underwear", "pants"),
            ("pants", "shoes"),
            ("socks", "shoes"),
            ("shoes", "school"),
        ]),
    };
    let sorted = sort_graph(&graph).unwrap();
    let stable = stablize_topological_order(&graph, sorted);
    assert_eq!(&stable[..5], &texts(&["shirt", "socks", "underwear", "glasses", "watch"])[..]);
    assert_eq!(stable.len(), 9);
    for (from, to) in &graph.edges {
        let a = stable.iter().position(|x| x == from).unwrap();
        let b = stable.iter().position(|x| x == to).unwrap();
        assert!(a < b);
    }
}

#[test]
fn numbers_are_stabilized_like_texts() {
    let graph: Graph<usize> = Graph { nodes: vec![3, 1, 2], edges: vec![(2, 3)] };
    let stable = stablize_topological_order(&graph, vec![2, 3, 1]);
    assert_eq!(stable, vec![1, 2, 3]);
}

#[test]
fn sorted_entries_that_were_not_declared_are_kept() {
    let graph: Graph<usize> = Graph { nodes: vec![1], edges: vec![(1, 9)] };
    let stable = stablize_topological_order(&graph, vec![1, 9]);
    assert_eq!(stable, vec![1, 9]);
}
