//! What a sorting error says in words: the nodes that its edges name, in
//! order and each once, and then the edges.

use vstd::prelude::*;
use vstd::string::StringExecFns;
use crate::graph::pairs_of;
use crate::graph::SortError;
use crate::prompt::texts;

verus! {

/// Whether one text sorts before another, as `str`'s `<` orders them: by
/// the first character in which they differ, the one with the lower code
/// point first, and a text before every longer text that starts with it.
pub open spec fn text_before(a: Seq<char>, b: Seq<char>) -> bool
    decreases a.len(),
{
    if b.len() == 0 {
        false
    } else if a.len() == 0 {
        true
    } else if a[0] == b[0] {
        text_before(a.drop_first(), b.drop_first())
    } else {
        (a[0] as u32) < (b[0] as u32)
    }
}

/// `str`'s `<`, which orders texts by their bytes and so by the code points
/// of their characters.
#[verifier::external_body]
fn sorts_before(a: &str, b: &str) -> (r: bool)
    ensures
        r == text_before(a@, b@),
{
    a < b
}

/// The first place from `from` on at which `list` holds `x` or a text that
/// `x` sorts before; the length of `list` if there is none.
pub open spec fn slot_from(list: Seq<Seq<char>>, x: Seq<char>, from: int) -> int
    decreases list.len() - from,
{
    if from >= list.len() {
        from
    } else if list[from] == x || text_before(x, list[from]) {
        from
    } else {
        slot_from(list, x, from + 1)
    }
}

/// The list with `x` put in its place, unless it is there already.
pub open spec fn with_node(list: Seq<Seq<char>>, x: Seq<char>) -> Seq<Seq<char>> {
    let at = slot_from(list, x, 0);
    if at < list.len() && list[at] == x {
        list
    } else {
        list.insert(at, x)
    }
}

/// The nodes that the edges name, each put in its place as it comes up.
pub open spec fn named_nodes(edges: Seq<(Seq<char>, Seq<char>)>) -> Seq<Seq<char>>
    decreases edges.len(),
{
    if edges.len() == 0 {
        Seq::empty()
    } else {
        with_node(with_node(named_nodes(edges.drop_last()), edges.last().0), edges.last().1)
    }
}

/// The nodes on one line, each followed by a blank.
pub open spec fn nodes_line(nodes: Seq<Seq<char>>) -> Seq<char>
    decreases nodes.len(),
{
    if nodes.len() == 0 {
        Seq::empty()
    } else {
        nodes_line(nodes.drop_last()) + nodes.last() + " "@
    }
}

/// One edge on a line of its own, with an arrow that points forward when
/// the source sorts before the target and back when it does not.
pub open spec fn edge_line(edge: (Seq<char>, Seq<char>)) -> Seq<char> {
    "  "@ + edge.0 + (if text_before(edge.0, edge.1) {
        " → "@
    } else {
        " ↖ "@
    }) + edge.1 + "\n"@
}

/// The edges, one line each.
pub open spec fn edge_lines(edges: Seq<(Seq<char>, Seq<char>)>) -> Seq<char>
    decreases edges.len(),
{
    if edges.len() == 0 {
        Seq::empty()
    } else {
        edge_lines(edges.drop_last()) + edge_line(edges.last())
    }
}

/// The whole report of a graph that could not be sorted.
pub open spec fn cycle_report(edges: Seq<(Seq<char>, Seq<char>)>) -> Seq<char> {
    "Cycle detected in the following DAG:\n"@ + "Nodes:\n"@ + nodes_line(named_nodes(edges))
        + "\n\n"@ + "Edges:\n"@ + edge_lines(edges)
}

/// Puts a node in its place in the list, unless it is there already.
fn insert_node(list: &mut Vec<String>, node: &String)
    ensures
        texts(final(list)@) == with_node(texts(old(list)@), node@),
{
    let ghost before = texts(list@);
    let mut at: usize = 0;
    let mut found = false;
    while at < list.len()
        invariant_except_break
            slot_from(before, node@, 0) == slot_from(before, node@, at as int),
            !found,
        invariant
            at <= list.len(),
            before == texts(list@),
        ensures
            at <= list.len(),
            before == texts(list@),
            at == slot_from(before, node@, 0),
            found == (at < list.len() && before[at as int] == node@),
        decreases list.len() - at,
    {
        proof {
            assert(before[at as int] == list[at as int]@);
        }
        if list[at] == *node {
            found = true;
            break ;
        }
        if sorts_before(node.as_str(), list[at].as_str()) {
            break ;
        }
        at += 1;
    }
    if !found {
        list.insert(at, node.clone());
        proof {
            assert(texts(list@) =~= before.insert(at as int, node@));
        }
    }
}

impl SortError<String> {
    /// The error in words: the nodes that the edges name, in order and each
    /// once, and the edges, one line each.
    pub fn to_string(&self) -> (report: String)
        ensures
            match self {
                SortError::CycleDetected(edges) => report@ == cycle_report(pairs_of(edges@)),
            },
    {
        match self {
            SortError::CycleDetected(edges) => {
                let ghost pairs = pairs_of(edges@);
                let mut nodes: Vec<String> = Vec::new();
                let mut i: usize = 0;
                proof {
                    assert(texts(nodes@) =~= named_nodes(pairs.take(0)));
                }
                while i < edges.len()
                    invariant
                        i <= edges.len(),
                        pairs == pairs_of(edges@),
                        texts(nodes@) == named_nodes(pairs.take(i as int)),
                    decreases edges.len() - i,
                {
                    insert_node(&mut nodes, &edges[i].0);
                    insert_node(&mut nodes, &edges[i].1);
                    proof {
                        let next = pairs.take(i + 1);
                        assert(next.drop_last() =~= pairs.take(i as int));
                        assert(next.last() == (edges[i as int].0@, edges[i as int].1@));
                    }
                    i += 1;
                }
                proof {
                    assert(pairs.take(pairs.len() as int) =~= pairs);
                }
                let mut report = String::from_str("Cycle detected in the following DAG:\n");
                report.append("Nodes:\n");
                let ghost head = report@;
                let ghost names = texts(nodes@);
                let mut n: usize = 0;
                proof {
                    assert(report@ =~= head + nodes_line(names.take(0)));
                }
                while n < nodes.len()
                    invariant
                        n <= nodes.len(),
                        names == texts(nodes@),
                        report@ == head + nodes_line(names.take(n as int)),
                    decreases nodes.len() - n,
                {
                    report.append(nodes[n].as_str());
                    report.append(" ");
                    proof {
                        let next = names.take(n + 1);
                        assert(next.drop_last() =~= names.take(n as int));
                        assert(next.last() == nodes[n as int]@);
                        assert(report@ =~= head + nodes_line(next));
                    }
                    n += 1;
                }
                proof {
                    assert(names.take(names.len() as int) =~= names);
                }
                report.append("\n\n");
                report.append("Edges:\n");
                let ghost top = report@;
                let mut e: usize = 0;
                proof {
                    assert(report@ =~= top + edge_lines(pairs.take(0)));
                }
                while e < edges.len()
                    invariant
                        e <= edges.len(),
                        pairs == pairs_of(edges@),
                        report@ == top + edge_lines(pairs.take(e as int)),
                    decreases edges.len() - e,
                {
                    let ghost so_far = report@;
                    report.append("  ");
                    report.append(edges[e].0.as_str());
                    if sorts_before(edges[e].0.as_str(), edges[e].1.as_str()) {
                        report.append(" → ");
                    } else {
                        report.append(" ↖ ");
                    }
                    report.append(edges[e].1.as_str());
                    report.append("\n");
                    proof {
                        let next = pairs.take(e + 1);
                        assert(next.drop_last() =~= pairs.take(e as int));
                        assert(next.last() == (edges[e as int].0@, edges[e as int].1@));
                        assert(report@ =~= so_far + edge_line(next.last()));
                        assert(report@ =~= top + edge_lines(next));
                    }
                    e += 1;
                }
                proof {
                    assert(report@ =~= cycle_report(pairs));
                }
                report
            },
        }
    }
}

} // verus!
