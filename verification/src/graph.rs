//! Directed graphs given as a node list and an edge list, and their
//! topological order.

use vstd::prelude::*;
use crate::kahn::blocked;
use crate::kahn::kahn_order;
use crate::kahn::sources_first;
use crate::text::same_text;

verus! {

/// What a graph's nodes must offer: a view that identifies the node, a test
/// for two nodes having the same view, and a way to copy a node.
pub trait GraphNode: View + Sized {
    fn same(&self, other: &Self) -> (r: bool)
        ensures
            r == (self@ == other@),
    ;

    fn duplicate(&self) -> (r: Self)
        ensures
            r@ == self@,
    ;
}

impl GraphNode for usize {
    fn same(&self, other: &Self) -> (r: bool) {
        *self == *other
    }

    fn duplicate(&self) -> (r: Self) {
        *self
    }
}

impl GraphNode for String {
    fn same(&self, other: &Self) -> (r: bool) {
        *self == *other
    }

    fn duplicate(&self) -> (r: Self) {
        self.clone()
    }
}

impl<'a> GraphNode for &'a str {
    fn same(&self, other: &Self) -> (r: bool) {
        same_text(*self, *other)
    }

    fn duplicate(&self) -> (r: Self) {
        *self
    }
}

/// A directed graph as a list of edges, each from a node to one that depends
/// on it.
pub type DAGAsAdjacencyList<Node> = Vec<(Node, Node)>;

/// A graph to be sorted.
#[derive(Debug, Clone)]
pub struct Graph<Node> {
    /// All nodes of the graph, in the order they were declared.
    pub nodes: Vec<Node>,
    /// The directed edges: `(a, b)` says that `a` comes before `b`.
    pub edges: DAGAsAdjacencyList<Node>,
}

/// Why a graph could not be sorted.
#[derive(Debug, Eq, PartialEq)]
pub enum SortError<Node> {
    /// The graph has no topological order; the payload is its whole edge list.
    CycleDetected(Vec<(Node, Node)>),
}

/// The views of a list of nodes.
pub open spec fn keys_of<Node: GraphNode>(nodes: Seq<Node>) -> Seq<Node::V> {
    Seq::new(nodes.len(), |i: int| nodes[i]@)
}

/// The views of a list of edges.
pub open spec fn pairs_of<Node: GraphNode>(edges: Seq<(Node, Node)>) -> Seq<(Node::V, Node::V)> {
    Seq::new(edges.len(), |i: int| (edges[i].0@, edges[i].1@))
}

impl<Node: GraphNode> Graph<Node> {
    pub open spec fn node_keys(&self) -> Seq<Node::V> {
        keys_of(self.nodes@)
    }

    pub open spec fn edge_keys(&self) -> Seq<(Node::V, Node::V)> {
        pairs_of(self.edges@)
    }
}

/// Some edge points at `k`: its in-degree is not zero.
pub open spec fn has_incoming<K>(edges: Seq<(K, K)>, k: K) -> bool {
    exists|i: int| 0 <= i < edges.len() && (#[trigger] edges[i]).1 == k
}

/// The vertices of a graph are its declared nodes and every edge's target.
/// The source of an edge is a vertex only if it is one of these.
pub open spec fn is_vertex<K>(nodes: Seq<K>, edges: Seq<(K, K)>, k: K) -> bool {
    nodes.contains(k) || has_incoming(edges, k)
}

/// `a` stands at an earlier place of `order` than `b`.
pub open spec fn precedes<K>(order: Seq<K>, a: K, b: K) -> bool {
    exists|i: int, j: int| 0 <= i < j < order.len() && #[trigger] order[i] == a && #[trigger] order[j] == b
}

/// Every edge whose source stands in `order` has its source before its
/// target. An edge from a node that stands nowhere in the order asks nothing
/// of it.
pub open spec fn respects_edges<K>(edges: Seq<(K, K)>, order: Seq<K>) -> bool {
    forall|i: int|
        0 <= i < edges.len() && order.contains((#[trigger] edges[i]).0) ==> precedes(
            order,
            edges[i].0,
            edges[i].1,
        )
}

/// `order` lists every vertex once, and every edge's source, where it is a
/// vertex, before the edge's target.
pub open spec fn is_topological_order<K>(nodes: Seq<K>, edges: Seq<(K, K)>, order: Seq<K>) -> bool {
    &&& order.no_duplicates()
    &&& forall|k: K| #[trigger] order.contains(k) <==> is_vertex(nodes, edges, k)
    &&& respects_edges(edges, order)
}

/// The edges whose source is one of `keys`.
pub open spec fn edges_from<K>(keys: Seq<K>, edges: Seq<(K, K)>) -> Seq<(K, K)> {
    edges.filter(|e: (K, K)| keys.contains(e.0))
}

/// `order` lists every vertex once, and the source of every edge before its
/// target.
pub open spec fn is_strict_order<K>(nodes: Seq<K>, edges: Seq<(K, K)>, order: Seq<K>) -> bool {
    &&& order.no_duplicates()
    &&& forall|k: K| #[trigger] order.contains(k) <==> is_vertex(nodes, edges, k)
    &&& forall|i: int| 0 <= i < edges.len() ==> precedes(order, (#[trigger] edges[i]).0, edges[i].1)
}

/// The first place at which `node` stands in `keys`, or `keys.len()` if it
/// stands nowhere.
pub(crate) fn position_of<Node: GraphNode>(keys: &Vec<Node>, node: &Node) -> (r: usize)
    ensures
        r <= keys.len(),
        r < keys.len() ==> keys[r as int]@ == node@,
        forall|j: int| 0 <= j < r ==> keys[j]@ != node@,
{
    let mut i: usize = 0;
    while i < keys.len()
        invariant
            i <= keys.len(),
            forall|j: int| 0 <= j < i ==> keys[j]@ != node@,
        decreases keys.len() - i,
    {
        if keys[i].same(node) {
            return i;
        }
        i += 1;
    }
    i
}

/// `k` stands among the first `n` entries of `s`.
pub open spec fn occurs_before<K>(s: Seq<K>, n: int, k: K) -> bool {
    exists|j: int| 0 <= j < n && j < s.len() && #[trigger] s[j] == k
}

/// One of the first `n` edges points at `k`.
pub open spec fn incoming_before<K>(edges: Seq<(K, K)>, n: int, k: K) -> bool {
    exists|j: int| 0 <= j < n && j < edges.len() && (#[trigger] edges[j]).1 == k
}

/// Appends a copy of `node` unless a node with its view is already there.
fn push_if_new<Node: GraphNode>(keys: &mut Vec<Node>, node: &Node)
    requires
        keys_of(old(keys)@).no_duplicates(),
    ensures
        keys_of(final(keys)@).no_duplicates(),
        forall|k: Node::V| #[trigger]
            keys_of(final(keys)@).contains(k) <==> keys_of(old(keys)@).contains(k) || k == node@,
{
    let ghost before = keys_of(keys@);
    let found = position_of(keys, node);
    if found == keys.len() {
        keys.push(node.duplicate());
        proof {
            let now = keys_of(keys@);
            assert(now =~= before.push(node@));
            assert(now[now.len() - 1] == node@);
            assert forall|k: Node::V| #[trigger] now.contains(k) <==> before.contains(k) || k == node@ by {
                if before.contains(k) {
                    let p = choose|p: int| 0 <= p < before.len() && before[p] == k;
                    assert(now[p] == k);
                }
            }
        }
    } else {
        proof {
            assert(before[found as int] == node@);
        }
    }
}

/// The distinct vertices of the graph: declared nodes first, then edge
/// targets that were not declared, each in order of first appearance.
fn collect_vertices<Node: GraphNode>(graph: &Graph<Node>) -> (keys: Vec<Node>)
    ensures
        keys_of(keys@).no_duplicates(),
        forall|k: Node::V| #[trigger]
            keys_of(keys@).contains(k) <==> is_vertex(graph.node_keys(), graph.edge_keys(), k),
{
    let mut keys: Vec<Node> = Vec::new();
    let mut i: usize = 0;
    while i < graph.nodes.len()
        invariant
            i <= graph.nodes.len(),
            keys_of(keys@).no_duplicates(),
            forall|k: Node::V| #[trigger]
                keys_of(keys@).contains(k) <==> occurs_before(graph.node_keys(), i as int, k),
        decreases graph.nodes.len() - i,
    {
        push_if_new(&mut keys, &graph.nodes[i]);
        proof {
            let nk = graph.node_keys();
            assert(nk[i as int] == graph.nodes[i as int]@);
            assert forall|k: Node::V|
                occurs_before(nk, i + 1, k) <==> occurs_before(nk, i as int, k) || k == nk[i as int] by {
                if occurs_before(nk, i + 1, k) {
                    let j = choose|j: int| 0 <= j < i + 1 && j < nk.len() && #[trigger] nk[j] == k;
                }
            }
        }
        i += 1;
    }
    let mut j: usize = 0;
    while j < graph.edges.len()
        invariant
            j <= graph.edges.len(),
            keys_of(keys@).no_duplicates(),
            forall|k: Node::V| #[trigger]
                keys_of(keys@).contains(k) <==> graph.node_keys().contains(k) || incoming_before(
                    graph.edge_keys(),
                    j as int,
                    k,
                ),
        decreases graph.edges.len() - j,
    {
        push_if_new(&mut keys, &graph.edges[j].1);
        proof {
            let ek = graph.edge_keys();
            assert(ek[j as int].1 == graph.edges[j as int].1@);
            assert forall|k: Node::V|
                incoming_before(ek, j + 1, k) <==> incoming_before(ek, j as int, k) || k
                    == ek[j as int].1 by {
                if incoming_before(ek, j + 1, k) {
                    let p = choose|p: int| 0 <= p < j + 1 && p < ek.len() && (#[trigger] ek[p]).1 == k;
                }
            }
        }
        j += 1;
    }
    keys
}

/// `src` and `dst` give, for every edge, the place of its source and of its
/// target in `keys`; a source that stands nowhere gets `keys.len()`.
pub open spec fn indexes_edges<K>(
    keys: Seq<K>,
    edges: Seq<(K, K)>,
    src: Seq<usize>,
    dst: Seq<usize>,
) -> bool {
    &&& src.len() == edges.len()
    &&& dst.len() == edges.len()
    &&& forall|i: int|
        0 <= i < edges.len() ==> #[trigger] dst[i] < keys.len() && keys[dst[i] as int] == edges[i].1
    &&& forall|i: int|
        0 <= i < edges.len() ==> {
            &&& #[trigger] src[i] <= keys.len()
            &&& src[i] < keys.len() ==> keys[src[i] as int] == edges[i].0
            &&& src[i] == keys.len() ==> !keys.contains(edges[i].0)
        }
}

/// What is known of the vertices, their numbering and the order in which
/// Kahn's algorithm emitted them.
pub open spec fn numbered<K>(
    nodes: Seq<K>,
    edges: Seq<(K, K)>,
    keys: Seq<K>,
    src: Seq<usize>,
    dst: Seq<usize>,
    emitted: Seq<usize>,
) -> bool {
    &&& keys.len() <= usize::MAX
    &&& keys.no_duplicates()
    &&& forall|k: K| #[trigger] keys.contains(k) <==> is_vertex(nodes, edges, k)
    &&& indexes_edges(keys, edges, src, dst)
    &&& emitted.no_duplicates()
    &&& forall|p: int| 0 <= p < emitted.len() ==> #[trigger] emitted[p] < keys.len()
    &&& sources_first(src, dst, keys.len() as int, emitted)
}

/// When every vertex was emitted, the emitted vertices are a topological
/// order.
proof fn lemma_emitted_is_topological<K>(
    nodes: Seq<K>,
    edges: Seq<(K, K)>,
    keys: Seq<K>,
    src: Seq<usize>,
    dst: Seq<usize>,
    emitted: Seq<usize>,
    order: Seq<K>,
)
    requires
        numbered(nodes, edges, keys, src, dst, emitted),
        forall|v: usize| v < keys.len() ==> emitted.contains(v),
        order.len() == emitted.len(),
        forall|p: int| 0 <= p < order.len() ==> #[trigger] order[p] == keys[emitted[p] as int],
    ensures
        is_strict_order(nodes, edges, order),
{
    assert forall|k: K| #[trigger] order.contains(k) <==> is_vertex(nodes, edges, k) by {
        if order.contains(k) {
            let p = choose|p: int| 0 <= p < order.len() && order[p] == k;
            assert(keys[emitted[p] as int] == k);
            assert(keys.contains(k));
        }
        if is_vertex(nodes, edges, k) {
            assert(keys.contains(k));
            let v = choose|v: int| 0 <= v < keys.len() && keys[v] == k;
            assert(emitted.contains(v as usize));
            let p = choose|p: int| 0 <= p < emitted.len() && emitted[p] == v as usize;
            assert(order[p] == k);
        }
    }
    assert forall|i: int| 0 <= i < edges.len() implies precedes(
        order,
        (#[trigger] edges[i]).0,
        edges[i].1,
    ) by {
        assert(dst[i] < keys.len());
        assert(emitted.contains(dst[i]));
        let (a, b): (int, int) = choose|a: int, b: int|
            0 <= a < b < emitted.len() && #[trigger] emitted[a] == src[i] && #[trigger] emitted[b]
                == dst[i];
        assert(order[a] == edges[i].0);
        assert(order[b] == edges[i].1);
    }
}

/// In a topological order, no vertex that was not emitted stands among the
/// first `upto` places while every such vertex is blocked.
proof fn lemma_unemitted_not_in_prefix<K>(
    nodes: Seq<K>,
    edges: Seq<(K, K)>,
    keys: Seq<K>,
    src: Seq<usize>,
    dst: Seq<usize>,
    emitted: Seq<usize>,
    order: Seq<K>,
    upto: int,
)
    requires
        numbered(nodes, edges, keys, src, dst, emitted),
        forall|v: usize|
            v < keys.len() && !emitted.contains(v) ==> #[trigger] blocked(
                src,
                dst,
                keys.len() as int,
                emitted,
                v as int,
            ),
        is_strict_order(nodes, edges, order),
        0 <= upto <= order.len(),
    ensures
        forall|v: usize, q: int|
            #![trigger keys[v as int], order[q]]
            v < keys.len() && !emitted.contains(v) && 0 <= q < upto ==> order[q] != keys[v as int],
    decreases upto,
{
    if upto > 0 {
        lemma_unemitted_not_in_prefix(nodes, edges, keys, src, dst, emitted, order, upto - 1);
        let last = upto - 1;
        assert forall|v: usize| v < keys.len() && !emitted.contains(v) implies order[last]
            != #[trigger] keys[v as int] by {
            if order[last] == keys[v as int] {
                assert(blocked(src, dst, keys.len() as int, emitted, v as int));
                let i = choose|i: int|
                    0 <= i < dst.len() && #[trigger] dst[i] == v as int && !(src[i] < keys.len()
                        && emitted.contains(src[i]));
                assert(edges[i].1 == keys[v as int]);
                assert(precedes(order, edges[i].0, edges[i].1));
                let (a, b): (int, int) = choose|a: int, b: int|
                    0 <= a < b < order.len() && #[trigger] order[a] == edges[i].0
                        && #[trigger] order[b] == edges[i].1;
                assert(b == last);
                assert(order.contains(edges[i].0));
                assert(is_vertex(nodes, edges, edges[i].0));
                assert(keys.contains(edges[i].0));
                assert(src[i] < keys.len());
                assert(!emitted.contains(src[i]));
                assert(order[a] != keys[src[i] as int]);
            }
        }
    }
}

/// While some vertex was not emitted and every such vertex is blocked, the
/// graph has no topological order.
proof fn lemma_stuck_has_no_order<K>(
    nodes: Seq<K>,
    edges: Seq<(K, K)>,
    keys: Seq<K>,
    src: Seq<usize>,
    dst: Seq<usize>,
    emitted: Seq<usize>,
    stuck: usize,
    order: Seq<K>,
)
    requires
        numbered(nodes, edges, keys, src, dst, emitted),
        forall|v: usize|
            v < keys.len() && !emitted.contains(v) ==> #[trigger] blocked(
                src,
                dst,
                keys.len() as int,
                emitted,
                v as int,
            ),
        stuck < keys.len(),
        !emitted.contains(stuck),
    ensures
        !is_strict_order(nodes, edges, order),
{
    if is_strict_order(nodes, edges, order) {
        lemma_unemitted_not_in_prefix(nodes, edges, keys, src, dst, emitted, order, order.len() as int);
        assert(keys.contains(keys[stuck as int]));
        assert(order.contains(keys[stuck as int]));
        let q = choose|q: int| 0 <= q < order.len() && order[q] == keys[stuck as int];
        assert(order[q] != keys[stuck as int]);
    }
}

/// Numbers the ends of every edge by their place among the vertices.
fn index_edges<Node: GraphNode>(graph: &Graph<Node>, keys: &Vec<Node>) -> (r: (Vec<usize>, Vec<usize>))
    requires
        forall|k: Node::V| #[trigger]
            keys_of(keys@).contains(k) <==> is_vertex(graph.node_keys(), graph.edge_keys(), k),
    ensures
        indexes_edges(keys_of(keys@), graph.edge_keys(), r.0@, r.1@),
{
    let mut src: Vec<usize> = Vec::new();
    let mut dst: Vec<usize> = Vec::new();
    let ghost kk = keys_of(keys@);
    let ghost ek = graph.edge_keys();
    let mut i: usize = 0;
    while i < graph.edges.len()
        invariant
            i <= graph.edges.len(),
            kk == keys_of(keys@),
            ek == graph.edge_keys(),
            forall|k: Node::V| #[trigger] kk.contains(k) <==> is_vertex(graph.node_keys(), ek, k),
            src.len() == i,
            dst.len() == i,
            forall|j: int| 0 <= j < i ==> #[trigger] dst[j] < kk.len() && kk[dst[j] as int] == ek[j].1,
            forall|j: int|
                0 <= j < i ==> {
                    &&& #[trigger] src[j] <= kk.len()
                    &&& src[j] < kk.len() ==> kk[src[j] as int] == ek[j].0
                    &&& src[j] == kk.len() ==> !kk.contains(ek[j].0)
                },
        decreases graph.edges.len() - i,
    {
        let from: usize = position_of(keys, &graph.edges[i].0);
        let to: usize = position_of(keys, &graph.edges[i].1);
        proof {
            assert(ek[i as int] == (graph.edges[i as int].0@, graph.edges[i as int].1@));
            assert(has_incoming(ek, ek[i as int].1));
            assert(kk.contains(ek[i as int].1));
            let p = choose|p: int| 0 <= p < kk.len() && kk[p] == ek[i as int].1;
            assert(keys[p]@ == graph.edges[i as int].1@);
            if from == keys.len() {
                assert forall|p: int| 0 <= p < kk.len() implies kk[p] != ek[i as int].0 by {
                    assert(keys[p]@ != graph.edges[i as int].0@);
                }
            }
        }
        src.push(from);
        dst.push(to);
        i += 1;
    }
    (src, dst)
}

/// A copy of an edge list.
fn copy_edges<Node: GraphNode>(edges: &Vec<(Node, Node)>) -> (r: Vec<(Node, Node)>)
    ensures
        pairs_of(r@) == pairs_of(edges@),
{
    let mut copy: Vec<(Node, Node)> = Vec::new();
    let mut i: usize = 0;
    while i < edges.len()
        invariant
            i <= edges.len(),
            copy.len() == i,
            forall|j: int|
                0 <= j < i ==> (#[trigger] copy[j]).0@ == edges[j].0@ && copy[j].1@ == edges[j].1@,
        decreases edges.len() - i,
    {
        copy.push((edges[i].0.duplicate(), edges[i].1.duplicate()));
        i += 1;
    }
    proof {
        assert(pairs_of(copy@) =~= pairs_of(edges@));
    }
    copy
}

/// Kahn's algorithm on a graph in which every edge binds: in-degrees are
/// counted from the edges, the vertices of in-degree zero are queued, and
/// each vertex taken from the queue lowers the in-degree of its dependents.
/// Fails when a vertex is never queued, which is when no order lists every
/// vertex with every edge's source before its target.
fn sort_bound<Node: GraphNode>(graph: &Graph<Node>) -> (result: Result<
    Vec<Node>,
    SortError<Node>,
>)
    ensures
        match result {
            Ok(sorted) => is_strict_order(
                graph.node_keys(),
                graph.edge_keys(),
                keys_of(sorted@),
            ),
            Err(SortError::CycleDetected(edges)) => {
                &&& pairs_of(edges@) == graph.edge_keys()
                &&& edges.len() > 0
                &&& forall|order: Seq<Node::V>|
                    !#[trigger] is_strict_order(graph.node_keys(), graph.edge_keys(), order)
            },
        },
{
    let keys = collect_vertices(graph);
    let (src, dst) = index_edges(graph, &keys);
    let (emitted, stuck) = kahn_order(keys.len(), &src, &dst);
    let ghost nk = graph.node_keys();
    let ghost ek = graph.edge_keys();
    let ghost kk = keys_of(keys@);
    proof {
        assert(numbered(nk, ek, kk, src@, dst@, emitted@));
    }
    match stuck {
        None => {
            let mut sorted: Vec<Node> = Vec::new();
            let mut p: usize = 0;
            while p < emitted.len()
                invariant
                    p <= emitted.len(),
                    sorted.len() == p,
                    kk == keys_of(keys@),
                    forall|q: int| 0 <= q < emitted.len() ==> #[trigger] emitted[q] < keys.len(),
                    forall|q: int| 0 <= q < p ==> #[trigger] sorted[q]@ == kk[emitted[q] as int],
                decreases emitted.len() - p,
            {
                sorted.push(keys[emitted[p]].duplicate());
                p += 1;
            }
            proof {
                lemma_emitted_is_topological(nk, ek, kk, src@, dst@, emitted@, keys_of(sorted@));
            }
            Ok(sorted)
        },
        Some(v) => {
            proof {
                assert(blocked(src@, dst@, keys.len() as int, emitted@, v as int));
                assert forall|order: Seq<Node::V>| !#[trigger] is_strict_order(nk, ek, order) by {
                    lemma_stuck_has_no_order(nk, ek, kk, src@, dst@, emitted@, v, order);
                }
            }
            Err(SortError::CycleDetected(copy_edges(&graph.edges)))
        },
    }
}

/// The edges whose source is one of `keys`, as they stand in `edges`.
fn keep_edges_from<Node: GraphNode>(keys: &Vec<Node>, edges: &Vec<(Node, Node)>) -> (kept: Vec<
    (Node, Node),
>)
    ensures
        pairs_of(kept@) == edges_from(keys_of(keys@), pairs_of(edges@)),
{
    let ghost kk = keys_of(keys@);
    let ghost ek = pairs_of(edges@);
    let ghost from_key = |e: (Node::V, Node::V)| kk.contains(e.0);
    let mut kept: Vec<(Node, Node)> = Vec::new();
    let mut i: usize = 0;
    proof {
        assert(ek.take(0) =~= Seq::<(Node::V, Node::V)>::empty());
        reveal(Seq::filter);
        assert(pairs_of(kept@) =~= ek.take(0).filter(from_key));
    }
    while i < edges.len()
        invariant
            i <= edges.len(),
            kk == keys_of(keys@),
            ek == pairs_of(edges@),
            from_key == |e: (Node::V, Node::V)| kk.contains(e.0),
            pairs_of(kept@) == ek.take(i as int).filter(from_key),
        decreases edges.len() - i,
    {
        let ghost before = pairs_of(kept@);
        let place = position_of(keys, &edges[i].0);
        let keep = place < keys.len();
        if keep {
            kept.push((edges[i].0.duplicate(), edges[i].1.duplicate()));
        }
        proof {
            assert(ek[i as int] == (edges[i as int].0@, edges[i as int].1@));
            if keep {
                assert(kk[place as int] == ek[i as int].0);
                assert(pairs_of(kept@) =~= before.push(ek[i as int]));
            } else {
                assert forall|p: int| 0 <= p < kk.len() implies kk[p] != ek[i as int].0 by {
                    assert(keys[p]@ != edges[i as int].0@);
                }
            }
            ek.lemma_take_succ_push(i as int);
            ek.take(i as int).lemma_filter_push(ek[i as int], from_key);
        }
        i += 1;
    }
    proof {
        assert(ek.take(ek.len() as int) =~= ek);
    }
    kept
}

/// With the vertices listed in `keys`, an order is topological exactly when
/// it orders every edge that starts at a vertex.
proof fn lemma_binding_edges<K>(nodes: Seq<K>, edges: Seq<(K, K)>, keys: Seq<K>, order: Seq<K>)
    requires
        forall|k: K| #[trigger] keys.contains(k) <==> is_vertex(nodes, edges, k),
    ensures
        is_topological_order(nodes, edges, order) <==> is_strict_order(
            keys,
            edges_from(keys, edges),
            order,
        ),
{
    let from_key = |e: (K, K)| keys.contains(e.0);
    let bound = edges_from(keys, edges);
    assert forall|k: K| is_vertex(keys, bound, k) <==> is_vertex(nodes, edges, k) by {
        if has_incoming(bound, k) {
            let j = choose|j: int| 0 <= j < bound.len() && (#[trigger] bound[j]).1 == k;
            assert(bound.contains(bound[j]));
            edges.lemma_filter_contains_rev(from_key, bound[j]);
            let i = choose|i: int| 0 <= i < edges.len() && edges[i] == bound[j];
            assert(edges[i].1 == k);
            assert(has_incoming(edges, k));
        }
    }
    if is_topological_order(nodes, edges, order) {
        assert forall|j: int| 0 <= j < bound.len() implies precedes(
            order,
            (#[trigger] bound[j]).0,
            bound[j].1,
        ) by {
            edges.lemma_filter_pred(from_key, j);
            assert(bound.contains(bound[j]));
            edges.lemma_filter_contains_rev(from_key, bound[j]);
            let i = choose|i: int| 0 <= i < edges.len() && edges[i] == bound[j];
            assert(order.contains(edges[i].0));
        }
        assert forall|k: K| #[trigger] order.contains(k) <==> is_vertex(keys, bound, k) by {}
    }
    if is_strict_order(keys, bound, order) {
        assert forall|i: int| 0 <= i < edges.len() && order.contains(
            (#[trigger] edges[i]).0,
        ) implies precedes(order, edges[i].0, edges[i].1) by {
            assert(is_vertex(keys, bound, edges[i].0));
            assert(from_key(edges[i]));
            edges.lemma_filter_contains(from_key, i);
            let j = choose|j: int| 0 <= j < bound.len() && bound[j] == edges[i];
            assert(precedes(order, bound[j].0, bound[j].1));
        }
        assert forall|k: K| #[trigger] order.contains(k) <==> is_vertex(nodes, edges, k) by {}
    }
}

/// Sorts the graph's vertices, which are its nodes and every edge's target,
/// by Kahn's algorithm. An edge binds the order if its source is a vertex;
/// an edge from a node that is no vertex has nothing to wait for and leaves
/// its target free.
///
/// The result is a topological order if the graph has one. If it has none,
/// which is when the binding edges hold a cycle, the error carries the whole
/// edge list.
pub fn sort_graph<Node: GraphNode>(graph: &Graph<Node>) -> (result: Result<
    Vec<Node>,
    SortError<Node>,
>)
    ensures
        match result {
            Ok(sorted) => is_topological_order(
                graph.node_keys(),
                graph.edge_keys(),
                keys_of(sorted@),
            ),
            Err(SortError::CycleDetected(edges)) => {
                &&& pairs_of(edges@) == graph.edge_keys()
                &&& edges.len() > 0
                &&& forall|order: Seq<Node::V>|
                    !#[trigger] is_topological_order(graph.node_keys(), graph.edge_keys(), order)
            },
        },
{
    let ghost nk = graph.node_keys();
    let ghost ek = graph.edge_keys();
    let keys = collect_vertices(graph);
    let kept = keep_edges_from(&keys, &graph.edges);
    let ghost kk = keys_of(keys@);
    let bound = Graph { nodes: keys, edges: kept };
    match sort_bound(&bound) {
        Ok(sorted) => {
            proof {
                lemma_binding_edges(nk, ek, kk, keys_of(sorted@));
            }
            Ok(sorted)
        },
        Err(_) => {
            proof {
                ek.lemma_filter_len(|e: (Node::V, Node::V)| kk.contains(e.0));
                assert forall|order: Seq<Node::V>| !#[trigger] is_topological_order(nk, ek, order) by {
                    lemma_binding_edges(nk, ek, kk, order);
                    assert(!is_strict_order(bound.node_keys(), bound.edge_keys(), order));
                }
            }
            Err(SortError::CycleDetected(copy_edges(&graph.edges)))
        },
    }
}

} // verus!
