//! Stabilizing a topological order: the nodes that depend on nothing come
//! first, in the order they were declared, and the others follow in the order
//! the sort gave them.

use vstd::prelude::*;
use crate::graph::has_incoming;
use crate::graph::is_topological_order;
use crate::graph::is_vertex;
use crate::graph::keys_of;
use crate::graph::pairs_of;
use crate::graph::position_of;
use crate::graph::precedes;
use crate::graph::respects_edges;
use crate::graph::Graph;
use crate::graph::GraphNode;

verus! {

/// A declared node that no edge points at.
pub open spec fn is_independent<K>(nodes: Seq<K>, edges: Seq<(K, K)>, k: K) -> bool {
    nodes.contains(k) && !has_incoming(edges, k)
}

/// The declared nodes that are independent, as they were declared.
pub open spec fn independent_nodes<K>(nodes: Seq<K>, edges: Seq<(K, K)>) -> Seq<K> {
    nodes.filter(|k: K| is_independent(nodes, edges, k))
}

/// What is left of `sorted` once the independent nodes are taken out.
pub open spec fn dependent_nodes<K>(nodes: Seq<K>, edges: Seq<(K, K)>, sorted: Seq<K>) -> Seq<K> {
    sorted.filter(|k: K| !is_independent(nodes, edges, k))
}

/// The stabilized order.
pub open spec fn stabilized<K>(nodes: Seq<K>, edges: Seq<(K, K)>, sorted: Seq<K>) -> Seq<K> {
    independent_nodes(nodes, edges) + dependent_nodes(nodes, edges, sorted)
}

/// Whether some edge points at `node`.
fn has_edge_into<Node: GraphNode>(edges: &Vec<(Node, Node)>, node: &Node) -> (r: bool)
    ensures
        r == has_incoming(pairs_of(edges@), node@),
{
    let mut i: usize = 0;
    while i < edges.len()
        invariant
            i <= edges.len(),
            forall|j: int| 0 <= j < i ==> edges[j].1@ != node@,
        decreases edges.len() - i,
    {
        if edges[i].1.same(node) {
            proof {
                assert(pairs_of(edges@)[i as int].1 == node@);
            }
            return true;
        }
        i += 1;
    }
    proof {
        let pairs = pairs_of(edges@);
        assert forall|j: int| 0 <= j < pairs.len() implies (#[trigger] pairs[j]).1 != node@ by {
            assert(edges[j].1@ != node@);
        }
    }
    false
}

/// Whether `node` is a declared node that no edge points at.
fn independent<Node: GraphNode>(graph: &Graph<Node>, node: &Node) -> (r: bool)
    ensures
        r == is_independent(graph.node_keys(), graph.edge_keys(), node@),
{
    let place = position_of(&graph.nodes, node);
    proof {
        let nk = graph.node_keys();
        if place < graph.nodes.len() {
            assert(nk[place as int] == node@);
        } else {
            assert forall|j: int| 0 <= j < nk.len() implies nk[j] != node@ by {
                assert(graph.nodes[j]@ != node@);
            }
        }
    }
    place < graph.nodes.len() && !has_edge_into(&graph.edges, node)
}

/// Reorders a topologically sorted list of nodes so that the nodes no edge
/// points at come first, in the order the graph declares them, followed by
/// the remaining nodes in the order `sorted` gives them.
pub fn stablize_topological_order<Node: GraphNode>(graph: &Graph<Node>, sorted: Vec<Node>) -> (stable:
    Vec<Node>)
    ensures
        keys_of(stable@) == stabilized(graph.node_keys(), graph.edge_keys(), keys_of(sorted@)),
{
    let ghost nk = graph.node_keys();
    let ghost ek = graph.edge_keys();
    let ghost sk = keys_of(sorted@);
    let ghost free = |k: Node::V| is_independent(nk, ek, k);
    let ghost bound = |k: Node::V| !is_independent(nk, ek, k);
    let mut stable: Vec<Node> = Vec::new();
    let mut i: usize = 0;
    proof {
        assert(nk.take(0) =~= Seq::<Node::V>::empty());
        reveal(Seq::filter);
        assert(keys_of(stable@) =~= nk.take(0).filter(free));
    }
    while i < graph.nodes.len()
        invariant
            i <= graph.nodes.len(),
            nk == graph.node_keys(),
            ek == graph.edge_keys(),
            free == |k: Node::V| is_independent(nk, ek, k),
            keys_of(stable@) == nk.take(i as int).filter(free),
        decreases graph.nodes.len() - i,
    {
        let ghost before = keys_of(stable@);
        let keep = independent(graph, &graph.nodes[i]);
        if keep {
            stable.push(graph.nodes[i].duplicate());
        }
        proof {
            assert(nk[i as int] == graph.nodes[i as int]@);
            nk.lemma_take_succ_push(i as int);
            nk.take(i as int).lemma_filter_push(nk[i as int], free);
            if keep {
                assert(keys_of(stable@) =~= before.push(nk[i as int]));
            }
        }
        i += 1;
    }
    let ghost first = keys_of(stable@);
    let mut j: usize = 0;
    proof {
        assert(nk.take(nk.len() as int) =~= nk);
        assert(sk.take(0) =~= Seq::<Node::V>::empty());
        reveal(Seq::filter);
        assert(keys_of(stable@) =~= first + sk.take(0).filter(bound));
    }
    while j < sorted.len()
        invariant
            j <= sorted.len(),
            nk == graph.node_keys(),
            ek == graph.edge_keys(),
            sk == keys_of(sorted@),
            bound == |k: Node::V| !is_independent(nk, ek, k),
            first == independent_nodes(nk, ek),
            keys_of(stable@) == first + sk.take(j as int).filter(bound),
        decreases sorted.len() - j,
    {
        let ghost before = keys_of(stable@);
        let keep = !independent(graph, &sorted[j]);
        if keep {
            stable.push(sorted[j].duplicate());
        }
        proof {
            assert(sk[j as int] == sorted[j as int]@);
            sk.lemma_take_succ_push(j as int);
            sk.take(j as int).lemma_filter_push(sk[j as int], bound);
            if keep {
                assert(keys_of(stable@) =~= before.push(sk[j as int]));
            }
            assert(keys_of(stable@) =~= first + sk.take(j + 1).filter(bound));
        }
        j += 1;
    }
    proof {
        assert(sk.take(sk.len() as int) =~= sk);
    }
    stable
}

/// Filtering keeps the order of what it keeps: two kept entries of `s`, one
/// before the other, stand in that order in the filtered sequence.
pub proof fn lemma_filter_keeps_order<K>(s: Seq<K>, pred: spec_fn(K) -> bool, x: int, y: int)
    requires
        0 <= x < y < s.len(),
        pred(s[x]),
        pred(s[y]),
    ensures
        precedes(s.filter(pred), s[x], s[y]),
    decreases s.len(),
{
    let front = s.drop_last();
    let kept = front.filter(pred);
    assert(s =~= front.push(s.last()));
    front.lemma_filter_push(s.last(), pred);
    if y == s.len() - 1 {
        assert(front[x] == s[x]);
        front.lemma_filter_contains(pred, x);
        let a = choose|a: int| 0 <= a < kept.len() && kept[a] == s[x];
        let all = s.filter(pred);
        assert(all == kept.push(s[y]));
        assert(all[a] == s[x]);
        assert(all[kept.len() as int] == s[y]);
    } else {
        lemma_filter_keeps_order(front, pred, x, y);
        let (a, b): (int, int) = choose|a: int, b: int|
            0 <= a < b < kept.len() && #[trigger] kept[a] == front[x] && #[trigger] kept[b]
                == front[y];
        let all = s.filter(pred);
        assert(all[a] == s[x]);
        assert(all[b] == s[y]);
    }
}

/// The stabilized form of a topological order still has every edge's source
/// before its target, wherever the source is in the order at all.
pub proof fn lemma_stabilized_respects_edges<K>(nodes: Seq<K>, edges: Seq<(K, K)>, sorted: Seq<K>)
    requires
        is_topological_order(nodes, edges, sorted),
    ensures
        respects_edges(edges, stabilized(nodes, edges, sorted)),
{
    let free = |k: K| is_independent(nodes, edges, k);
    let bound = |k: K| !is_independent(nodes, edges, k);
    let first = independent_nodes(nodes, edges);
    let rest = dependent_nodes(nodes, edges, sorted);
    let stable = stabilized(nodes, edges, sorted);
    assert forall|i: int| 0 <= i < edges.len() && stable.contains((#[trigger] edges[i]).0) implies precedes(
        stable,
        edges[i].0,
        edges[i].1,
    ) by {
        let from = edges[i].0;
        let to = edges[i].1;
        assert(has_incoming(edges, to));
        let at = choose|at: int| 0 <= at < stable.len() && stable[at] == from;
        if at < first.len() {
            assert(first.contains(stable[at]));
            nodes.lemma_filter_contains_rev(free, from);
        } else {
            assert(rest.contains(stable[at]));
            sorted.lemma_filter_contains_rev(bound, from);
        }
        assert(sorted.contains(from));
        let (x, y): (int, int) = choose|x: int, y: int|
            0 <= x < y < sorted.len() && #[trigger] sorted[x] == from && #[trigger] sorted[y] == to;
        assert(bound(sorted[y]));
        if is_independent(nodes, edges, from) {
            let p = choose|p: int| 0 <= p < nodes.len() && nodes[p] == from;
            assert(free(nodes[p]));
            nodes.lemma_filter_contains(free, p);
            let a = choose|a: int| 0 <= a < first.len() && first[a] == from;
            sorted.lemma_filter_contains(bound, y);
            let b = choose|b: int| 0 <= b < rest.len() && rest[b] == to;
            assert(stable[a] == from);
            assert(stable[first.len() + b] == to);
        } else {
            assert(bound(sorted[x]));
            lemma_filter_keeps_order(sorted, bound, x, y);
            let (a, b): (int, int) = choose|a: int, b: int|
                0 <= a < b < rest.len() && #[trigger] rest[a] == from && #[trigger] rest[b] == to;
            assert(stable[first.len() + a] == from);
            assert(stable[first.len() + b] == to);
        }
    }
}

/// In a graph whose edges all start at a vertex, the stabilized form of a
/// topological order has the source of every edge before its target.
pub proof fn lemma_stabilized_orders_every_edge<K>(nodes: Seq<K>, edges: Seq<(K, K)>, sorted: Seq<K>)
    requires
        is_topological_order(nodes, edges, sorted),
        forall|i: int| 0 <= i < edges.len() ==> is_vertex(nodes, edges, (#[trigger] edges[i]).0),
    ensures
        forall|i: int|
            0 <= i < edges.len() ==> precedes(
                stabilized(nodes, edges, sorted),
                (#[trigger] edges[i]).0,
                edges[i].1,
            ),
{
    let free = |k: K| is_independent(nodes, edges, k);
    let bound = |k: K| !is_independent(nodes, edges, k);
    let first = independent_nodes(nodes, edges);
    let rest = dependent_nodes(nodes, edges, sorted);
    let stable = stabilized(nodes, edges, sorted);
    lemma_stabilized_respects_edges(nodes, edges, sorted);
    assert forall|i: int| 0 <= i < edges.len() implies stable.contains((#[trigger] edges[i]).0) by {
        let from = edges[i].0;
        assert(sorted.contains(from));
        if is_independent(nodes, edges, from) {
            let p = choose|p: int| 0 <= p < nodes.len() && nodes[p] == from;
            assert(free(nodes[p]));
            nodes.lemma_filter_contains(free, p);
            let a = choose|a: int| 0 <= a < first.len() && first[a] == from;
            assert(stable[a] == from);
        } else {
            let p = choose|p: int| 0 <= p < sorted.len() && sorted[p] == from;
            assert(bound(sorted[p]));
            sorted.lemma_filter_contains(bound, p);
            let b = choose|b: int| 0 <= b < rest.len() && rest[b] == from;
            assert(stable[first.len() + b] == from);
        }
    }
}

/// In the stabilized order the nodes that no edge points at come first, as
/// the graph declares them, and every vertex after them has an edge pointing
/// at it.
pub proof fn lemma_stabilized_independent_first<K>(nodes: Seq<K>, edges: Seq<(K, K)>, sorted: Seq<K>)
    requires
        forall|i: int| 0 <= i < sorted.len() ==> is_vertex(nodes, edges, #[trigger] sorted[i]),
    ensures
        ({
            let stable = stabilized(nodes, edges, sorted);
            let first = independent_nodes(nodes, edges);
            &&& first.len() <= stable.len()
            &&& stable.take(first.len() as int) == first
            &&& forall|i: int| 0 <= i < first.len() ==> !has_incoming(edges, #[trigger] stable[i])
            &&& forall|i: int|
                first.len() <= i < stable.len() ==> has_incoming(edges, #[trigger] stable[i])
        }),
{
    let free = |k: K| is_independent(nodes, edges, k);
    let bound = |k: K| !is_independent(nodes, edges, k);
    let first = independent_nodes(nodes, edges);
    let rest = dependent_nodes(nodes, edges, sorted);
    let stable = stabilized(nodes, edges, sorted);
    assert(stable.take(first.len() as int) =~= first);
    assert forall|i: int| 0 <= i < first.len() implies !has_incoming(edges, #[trigger] stable[i]) by {
        nodes.lemma_filter_pred(free, i);
        assert(stable[i] == first[i]);
    }
    assert forall|i: int| first.len() <= i < stable.len() implies has_incoming(
        edges,
        #[trigger] stable[i],
    ) by {
        let k = stable[i];
        assert(k == rest[i - first.len()]);
        sorted.lemma_filter_pred(bound, i - first.len());
        assert(rest.contains(k));
        sorted.lemma_filter_contains_rev(bound, k);
        let p = choose|p: int| 0 <= p < sorted.len() && sorted[p] == k;
        assert(is_vertex(nodes, edges, sorted[p]));
    }
}

} // verus!
