//! Kahn's algorithm on vertices numbered `0..n`: in-degrees, a queue of the
//! vertices whose in-degree is zero, and the facts that hold when it stops.

use vstd::prelude::*;
use std::collections::VecDeque;
use crate::graph::precedes;

verus! {

/// How many of the first `upto` edges point at `v` and are not yet consumed.
pub open spec fn live(dst: Seq<usize>, consumed: Set<int>, v: int, upto: int) -> nat
    decreases upto,
{
    if upto <= 0 {
        0
    } else {
        live(dst, consumed, v, upto - 1) + if dst[upto - 1] == v && !consumed.contains(upto - 1) {
            1nat
        } else {
            0nat
        }
    }
}

/// Every edge whose target was emitted has a vertex as its source, emitted
/// earlier.
pub open spec fn sources_first(src: Seq<usize>, dst: Seq<usize>, n: int, emitted: Seq<usize>) -> bool {
    forall|i: int|
        0 <= i < dst.len() && emitted.contains(#[trigger] dst[i]) ==> src[i] < n && precedes(
            emitted,
            src[i],
            dst[i],
        )
}

/// Some edge into `v` comes from a source that was not emitted.
pub open spec fn blocked(src: Seq<usize>, dst: Seq<usize>, n: int, emitted: Seq<usize>, v: int) -> bool {
    exists|i: int|
        0 <= i < dst.len() && #[trigger] dst[i] == v && !(src[i] < n && emitted.contains(src[i]))
}

pub proof fn lemma_live_bound(dst: Seq<usize>, consumed: Set<int>, v: int, upto: int)
    requires
        0 <= upto,
    ensures
        live(dst, consumed, v, upto) <= upto,
    decreases upto,
{
    if upto > 0 {
        lemma_live_bound(dst, consumed, v, upto - 1);
    }
}

/// Consuming one more edge lowers the count of its target by one and leaves
/// every other count as it was.
pub proof fn lemma_live_consume(dst: Seq<usize>, consumed: Set<int>, edge: int, v: int, upto: int)
    requires
        0 <= edge,
        0 <= upto <= dst.len(),
        !consumed.contains(edge),
    ensures
        live(dst, consumed, v, upto) == live(dst, consumed.insert(edge), v, upto) + if edge < upto
            && dst[edge] == v {
            1nat
        } else {
            0nat
        },
    decreases upto,
{
    if upto > 0 {
        lemma_live_consume(dst, consumed, edge, v, upto - 1);
    }
}

/// A count of zero: every edge into `v` was consumed.
pub proof fn lemma_live_zero(dst: Seq<usize>, consumed: Set<int>, v: int, upto: int)
    requires
        0 <= upto <= dst.len(),
        live(dst, consumed, v, upto) == 0,
    ensures
        forall|i: int| 0 <= i < upto && #[trigger] dst[i] == v ==> consumed.contains(i),
    decreases upto,
{
    if upto > 0 {
        lemma_live_zero(dst, consumed, v, upto - 1);
    }
}

/// A count above zero: some edge into `v` is not consumed.
pub proof fn lemma_live_positive(dst: Seq<usize>, consumed: Set<int>, v: int, upto: int) -> (i: int)
    requires
        0 <= upto <= dst.len(),
        live(dst, consumed, v, upto) > 0,
    ensures
        0 <= i < upto,
        dst[i] == v,
        !consumed.contains(i),
    decreases upto,
{
    if dst[upto - 1] == v && !consumed.contains(upto - 1) {
        upto - 1
    } else {
        lemma_live_positive(dst, consumed, v, upto - 1)
    }
}

/// Distinct numbers below `n` are at most `n` many.
pub proof fn lemma_distinct_below(s: Seq<usize>, n: int)
    requires
        0 <= n,
        s.no_duplicates(),
        forall|i: int| 0 <= i < s.len() ==> #[trigger] s[i] < n,
    ensures
        s.len() <= n,
    decreases n,
{
    if s.len() > 0 {
        assert(s[0] < n);
        if exists|i: int| 0 <= i < s.len() && #[trigger] s[i] == n - 1 {
            let i = choose|i: int| 0 <= i < s.len() && #[trigger] s[i] == n - 1;
            let t = s.remove(i);
            assert forall|a: int| 0 <= a < t.len() implies #[trigger] t[a] < n - 1 by {
                if a < i {
                    assert(t[a] == s[a]);
                } else {
                    assert(t[a] == s[a + 1]);
                }
            }
            assert forall|a: int, b: int| 0 <= a < t.len() && 0 <= b < t.len() && a != b implies t[a]
                != t[b] by {
                let sa = if a < i { a } else { a + 1 };
                let sb = if b < i { b } else { b + 1 };
                assert(t[a] == s[sa]);
                assert(t[b] == s[sb]);
            }
            lemma_distinct_below(t, n - 1);
            assert(t.len() == s.len() - 1);
        } else {
            assert forall|a: int| 0 <= a < s.len() implies #[trigger] s[a] < n - 1 by {
                assert(s[a] < n);
            }
            lemma_distinct_below(s, n - 1);
        }
    }
}

/// The in-degree of every vertex: the number of edges that point at it.
fn count_incoming(n: usize, dst: &Vec<usize>) -> (indeg: Vec<usize>)
    requires
        forall|i: int| 0 <= i < dst.len() ==> #[trigger] dst[i] < n,
    ensures
        indeg.len() == n,
        forall|v: usize| v < n ==> #[trigger] indeg[v as int] == live(dst@, Set::empty(), v as int, dst.len() as int),
{
    let mut indeg: Vec<usize> = Vec::new();
    let mut v: usize = 0;
    while v < n
        invariant
            v <= n,
            indeg.len() == v,
            forall|w: int| 0 <= w < v ==> #[trigger] indeg[w] == 0,
        decreases n - v,
    {
        indeg.push(0);
        v += 1;
    }
    let mut j: usize = 0;
    while j < dst.len()
        invariant
            j <= dst.len(),
            indeg.len() == n,
            forall|i: int| 0 <= i < dst.len() ==> #[trigger] dst[i] < n,
            forall|w: int| 0 <= w < n ==> #[trigger] indeg[w] == live(dst@, Set::empty(), w, j as int),
        decreases dst.len() - j,
    {
        let d: usize = dst[j];
        proof {
            lemma_live_bound(dst@, Set::empty(), d as int, j as int);
        }
        let bumped: usize = indeg[d] + 1;
        indeg.set(d, bumped);
        j += 1;
    }
    indeg
}

/// Runs Kahn's algorithm on the vertices `0..n` and the edges
/// `(src[i], dst[i])`, where `src[i] == n` stands for a source that is no
/// vertex. Returns the vertices in the order they left the queue, and one
/// vertex that never entered it, if there is any.
pub(crate) fn kahn_order(n: usize, src: &Vec<usize>, dst: &Vec<usize>) -> (r: (
    Vec<usize>,
    Option<usize>,
))
    requires
        src.len() == dst.len(),
        forall|i: int| 0 <= i < dst.len() ==> #[trigger] dst[i] < n,
        forall|i: int| 0 <= i < src.len() ==> #[trigger] src[i] <= n,
    ensures
        r.0@.no_duplicates(),
        forall|p: int| 0 <= p < r.0.len() ==> #[trigger] r.0[p] < n,
        sources_first(src@, dst@, n as int, r.0@),
        forall|v: usize|
            v < n && !r.0@.contains(v) ==> #[trigger] blocked(
                src@,
                dst@,
                n as int,
                r.0@,
                v as int,
            ),
        match r.1 {
            Some(v) => v < n && !r.0@.contains(v),
            None => forall|v: usize| v < n ==> r.0@.contains(v),
        },
{
    let mut indeg: Vec<usize> = count_incoming(n, dst);
    let ghost mut consumed: Set<int> = Set::empty();
    let mut queue: VecDeque<usize> = VecDeque::new();
    let mut seed: usize = 0;
    while seed < n
        invariant
            seed <= n,
            indeg.len() == n,
            queue@.no_duplicates(),
            forall|q: int| 0 <= q < queue@.len() ==> #[trigger] queue@[q] < seed,
            forall|w: usize| w < seed ==> (#[trigger] indeg[w as int] == 0 <==> queue@.contains(w)),
        decreases n - seed,
    {
        if indeg[seed] == 0 {
            let ghost before = queue@;
            queue.push_back(seed);
            proof {
                assert forall|w: usize| w < seed + 1 implies (#[trigger] indeg[w as int] == 0
                    <==> queue@.contains(w)) by {
                    if w < seed && before.contains(w) {
                        let q = choose|q: int| 0 <= q < before.len() && before[q] == w;
                        assert(queue@[q] == w);
                    }
                    if w == seed {
                        assert(queue@[before.len() as int] == seed);
                    }
                }
            }
        }
        seed += 1;
    }
    let mut emitted: Vec<usize> = Vec::new();
    let mut done: Vec<bool> = Vec::new();
    let mut fill: usize = 0;
    while fill < n
        invariant
            fill <= n,
            done.len() == fill,
            forall|w: int| 0 <= w < fill ==> !#[trigger] done[w],
        decreases n - fill,
    {
        done.push(false);
        fill += 1;
    }
    while queue.len() > 0
        invariant
            src.len() == dst.len(),
            forall|i: int| 0 <= i < dst.len() ==> #[trigger] dst[i] < n,
            forall|i: int| 0 <= i < src.len() ==> #[trigger] src[i] <= n,
            indeg.len() == n,
            done.len() == n,
            queue@.no_duplicates(),
            emitted@.no_duplicates(),
            forall|q: int| 0 <= q < queue@.len() ==> #[trigger] queue@[q] < n,
            forall|p: int| 0 <= p < emitted.len() ==> #[trigger] emitted[p] < n,
            forall|p: int, q: int|
                0 <= p < emitted.len() && 0 <= q < queue@.len() ==> #[trigger] emitted[p]
                    != #[trigger] queue@[q],
            forall|v: usize| v < n ==> (#[trigger] done[v as int] <==> emitted@.contains(v)),
            forall|v: usize|
                v < n ==> #[trigger] indeg[v as int] == live(dst@, consumed, v as int, dst.len() as int),
            forall|i: int|
                0 <= i < dst.len() ==> (consumed.contains(i) <==> #[trigger] src[i] < n
                    && emitted@.contains(src[i])),
            forall|v: usize|
                v < n ==> (#[trigger] indeg[v as int] == 0 <==> emitted@.contains(v)
                    || queue@.contains(v)),
            sources_first(src@, dst@, n as int, emitted@),
        decreases n - emitted.len(),
    {
        let ghost queue_before = queue@;
        let ghost emitted_before = emitted@;
        let popped = queue.pop_back();
        let u: usize = match popped {
            Some(u) => u,
            None => 0,
        };
        proof {
            assert(u == queue_before[queue_before.len() - 1]);
            assert(queue_before.contains(u));
            assert(indeg[u as int] == 0);
            assert(!emitted_before.contains(u));
            let grown = emitted_before.push(u);
            assert(grown.no_duplicates());
            lemma_distinct_below(grown, n as int);
            lemma_live_zero(dst@, consumed, u as int, dst.len() as int);
        }
        emitted.push(u);
        done.set(u, true);
        proof {
            assert(emitted@[emitted_before.len() as int] == u);
            assert forall|x: usize| #[trigger]
                emitted@.contains(x) <==> emitted_before.contains(x) || x == u by {
                if emitted_before.contains(x) {
                    let p = choose|p: int| 0 <= p < emitted_before.len() && emitted_before[p] == x;
                    assert(emitted@[p] == x);
                }
                if emitted@.contains(x) && x != u {
                    let p = choose|p: int| 0 <= p < emitted@.len() && emitted@[p] == x;
                    assert(emitted_before[p] == x);
                }
            }
            assert forall|p: int, q: int| 0 <= p < emitted.len() && 0 <= q < queue@.len() implies #[trigger] emitted[p]
                != #[trigger] queue@[q] by {
                assert(queue@[q] == queue_before[q]);
            }
            assert forall|i: int| 0 <= i < dst.len() && emitted@.contains(#[trigger] dst[i]) implies src[i]
                < n && precedes(emitted@, src[i], dst[i]) by {
                if dst[i] == u {
                    assert(consumed.contains(i));
                    let a = choose|a: int|
                        0 <= a < emitted_before.len() && emitted_before[a] == src[i];
                    assert(emitted@[a] == src[i]);
                    assert(emitted@[emitted_before.len() as int] == dst[i]);
                } else {
                    let b = choose|b: int| 0 <= b < emitted@.len() && emitted@[b] == dst[i];
                    assert(emitted_before[b] == dst[i]);
                    assert(emitted_before.contains(dst[i]));
                    let (x, y): (int, int) = choose|x: int, y: int|
                        0 <= x < y < emitted_before.len() && #[trigger] emitted_before[x] == src[i]
                            && #[trigger] emitted_before[y] == dst[i];
                    assert(emitted@[x] == src[i]);
                    assert(emitted@[y] == dst[i]);
                }
            }
            assert forall|v: usize| v < n implies (#[trigger] indeg[v as int] == 0 <==> emitted@.contains(
                v,
            ) || queue@.contains(v)) by {
                if queue_before.contains(v) && v != u {
                    let q = choose|q: int|
                        0 <= q < queue_before.len() && queue_before[q] == v;
                    assert(queue@[q] == v);
                }
                if queue@.contains(v) {
                    let q = choose|q: int| 0 <= q < queue@.len() && queue@[q] == v;
                    assert(queue_before[q] == v);
                }
            }
        }
        let mut j: usize = 0;
        while j < src.len()
            invariant
                j <= src.len(),
                u < n,
                src.len() == dst.len(),
                forall|i: int| 0 <= i < dst.len() ==> #[trigger] dst[i] < n,
                forall|i: int| 0 <= i < src.len() ==> #[trigger] src[i] <= n,
                indeg.len() == n,
                done.len() == n,
                queue@.no_duplicates(),
                emitted@.no_duplicates(),
                emitted@.contains(u),
                emitted.len() == emitted_before.len() + 1,
                forall|q: int| 0 <= q < queue@.len() ==> #[trigger] queue@[q] < n,
                forall|p: int| 0 <= p < emitted.len() ==> #[trigger] emitted[p] < n,
                forall|p: int, q: int|
                    0 <= p < emitted.len() && 0 <= q < queue@.len() ==> #[trigger] emitted[p]
                        != #[trigger] queue@[q],
                forall|v: usize| v < n ==> (#[trigger] done[v as int] <==> emitted@.contains(v)),
                forall|v: usize|
                    v < n ==> #[trigger] indeg[v as int] == live(dst@, consumed, v as int, dst.len() as int),
                forall|i: int|
                    0 <= i < dst.len() ==> (consumed.contains(i) <==> #[trigger] src[i] < n
                        && emitted@.contains(src[i]) && (src[i] != u || i < j)),
                forall|v: usize|
                    v < n ==> (#[trigger] indeg[v as int] == 0 <==> emitted@.contains(v)
                        || queue@.contains(v)),
                sources_first(src@, dst@, n as int, emitted@),
            decreases src.len() - j,
        {
            if src[j] == u {
                let d: usize = dst[j];
                let ghost consumed_before = consumed;
                let ghost queue_mid = queue@;
                proof {
                    assert(!consumed.contains(j as int));
                    assert forall|v: int|
                        live(dst@, consumed, v as int, dst.len() as int) == live(
                            dst@,
                            consumed.insert(j as int),
                            v,
                            dst.len() as int,
                        ) + if dst[j as int] == v {
                            1nat
                        } else {
                            0nat
                        } by {
                        lemma_live_consume(dst@, consumed, j as int, v, dst.len() as int);
                    }
                    assert(indeg[d as int] >= 1);
                    consumed = consumed.insert(j as int);
                }
                let lowered: usize = indeg[d] - 1;
                indeg.set(d, lowered);
                if lowered == 0 {
                    queue.push_front(d);
                    proof {
                        assert(!queue_mid.contains(d));
                        assert(!emitted@.contains(d));
                        assert(queue@[0] == d);
                        assert forall|q: int| 0 < q < queue@.len() implies queue@[q] == queue_mid[q - 1] by {}
                        assert forall|a: int, b: int|
                            0 <= a < queue@.len() && 0 <= b < queue@.len() && a != b implies queue@[a]
                            != queue@[b] by {
                            if a > 0 {
                                assert(queue@[a] == queue_mid[a - 1]);
                            }
                            if b > 0 {
                                assert(queue@[b] == queue_mid[b - 1]);
                            }
                        }
                        assert forall|q: int| 0 <= q < queue@.len() implies #[trigger] queue@[q] < n by {
                            if q > 0 {
                                assert(queue@[q] == queue_mid[q - 1]);
                            }
                        }
                        assert forall|p: int, q: int|
                            0 <= p < emitted.len() && 0 <= q < queue@.len() implies #[trigger] emitted[p]
                            != #[trigger] queue@[q] by {
                            if q > 0 {
                                assert(queue@[q] == queue_mid[q - 1]);
                            }
                        }
                        assert forall|v: usize| v < n implies (#[trigger] indeg[v as int] == 0
                            <==> emitted@.contains(v) || queue@.contains(v)) by {
                            if queue_mid.contains(v) {
                                let q = choose|q: int|
                                    0 <= q < queue_mid.len() && queue_mid[q] == v;
                                assert(queue@[q + 1] == v);
                            }
                            if queue@.contains(v) && v != d {
                                let q = choose|q: int|
                                    0 <= q < queue@.len() && queue@[q] == v;
                                assert(queue_mid[q - 1] == v);
                            }
                        }
                    }
                }
            }
            j += 1;
        }
    }
    proof {
        assert forall|v: usize| v < n && !emitted@.contains(v) implies #[trigger] blocked(
            src@,
            dst@,
            n as int,
            emitted@,
            v as int,
        ) by {
            assert(!queue@.contains(v));
            assert(indeg[v as int] != 0);
            let i = lemma_live_positive(dst@, consumed, v as int, dst.len() as int);
            assert(dst[i] == v);
        }
    }
    let mut scan: usize = 0;
    let mut stuck: Option<usize> = None;
    while scan < n
        invariant
            scan <= n,
            done.len() == n,
            forall|v: usize| v < n ==> (#[trigger] done[v as int] <==> emitted@.contains(v)),
            match stuck {
                Some(v) => v < n && !emitted@.contains(v),
                None => forall|v: usize| v < scan ==> emitted@.contains(v),
            },
        decreases n - scan,
    {
        if !done[scan] {
            stuck = Some(scan);
        }
        scan += 1;
    }
    (emitted, stuck)
}

} // verus!
