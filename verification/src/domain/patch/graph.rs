//! Directed graphs over node indices `0..n`, given as successor lists, and
//! the facts about paths and cycles that cycle detection rests on.
use vstd::prelude::*;

verus! {

/// The successor lists of a graph as sequences.
pub open spec fn succ_view(adj: Seq<Vec<usize>>) -> Seq<Seq<usize>> {
    adj.map_values(|v: Vec<usize>| v@)
}

/// Every successor names a node of the graph.
pub open spec fn graph_wf(g: Seq<Seq<usize>>) -> bool {
    forall|u: int, k: int| 0 <= u < g.len() && 0 <= k < g[u].len() ==> g[u][k] < g.len()
}

/// There is an edge from `u` to `v`.
pub open spec fn edge(g: Seq<Seq<usize>>, u: usize, v: usize) -> bool {
    u < g.len() && g[u as int].contains(v)
}

/// `p` is a walk along edges of `g`.
pub open spec fn is_path(g: Seq<Seq<usize>>, p: Seq<usize>) -> bool {
    &&& forall|i: int| 0 <= i < p.len() ==> p[i] < g.len()
    &&& forall|i: int| 0 <= i < p.len() - 1 ==> #[trigger] edge(g, p[i], p[i + 1])
}

/// `p` is a walk that returns to its start: a cycle.
pub open spec fn is_cycle(g: Seq<Seq<usize>>, p: Seq<usize>) -> bool {
    &&& p.len() > 0
    &&& is_path(g, p)
    &&& edge(g, p.last(), p[0])
}

/// `g` has a cycle.
pub open spec fn has_cycle(g: Seq<Seq<usize>>) -> bool {
    exists|p: Seq<usize>| is_cycle(g, p)
}

/// A stretch of a walk is a walk.
pub proof fn lemma_subpath(g: Seq<Seq<usize>>, p: Seq<usize>, a: int, b: int)
    requires
        is_path(g, p),
        0 <= a <= b <= p.len(),
    ensures
        is_path(g, p.subrange(a, b)),
{
    let q = p.subrange(a, b);
    assert forall|i: int| 0 <= i < q.len() - 1 implies #[trigger] edge(g, q[i], q[i + 1]) by {
        assert(q[i] == p[a + i]);
        assert(q[i + 1] == p[a + i + 1]);
        assert(edge(g, p[a + i], p[a + i + 1]));
    }
}

/// Starting a cycle at another of its nodes gives a cycle that ends at the
/// node before it.
pub proof fn lemma_rotate_cycle(g: Seq<Seq<usize>>, p: Seq<usize>, k: int)
    requires
        is_cycle(g, p),
        0 <= k < p.len(),
    ensures
        is_cycle(g, p.subrange(k, p.len() as int) + p.subrange(0, k)),
        (p.subrange(k, p.len() as int) + p.subrange(0, k))[0] == p[k],
        (p.subrange(k, p.len() as int) + p.subrange(0, k)).last() == if k == 0 {
            p.last()
        } else {
            p[k - 1]
        },
{
    let n = p.len() as int;
    let q = p.subrange(k, n) + p.subrange(0, k);
    assert(q.len() == n);
    assert forall|i: int| 0 <= i < q.len() implies q[i] == p[(i + k) % n] by {
        if i < n - k {
            assert(q[i] == p[k + i]);
            assert((i + k) % n == i + k) by (nonlinear_arith)
                requires
                    0 <= i + k < n,
            ;
        } else {
            assert(q[i] == p[i - (n - k)]);
            assert((i + k) % n == i + k - n) by (nonlinear_arith)
                requires
                    n <= i + k < 2 * n,
            ;
        }
    }
    assert forall|i: int| 0 <= i < q.len() - 1 implies #[trigger] edge(g, q[i], q[i + 1]) by {
        let a = (i + k) % n;
        let b = (i + 1 + k) % n;
        if i + k + 1 < n {
            assert(a == i + k && b == i + k + 1) by (nonlinear_arith)
                requires
                    0 <= i + k,
                    i + k + 1 < n,
                    a == (i + k) % n,
                    b == (i + 1 + k) % n,
            ;
            assert(edge(g, p[a], p[a + 1]));
        } else if i + k + 1 == n {
            assert(a == n - 1 && b == 0) by (nonlinear_arith)
                requires
                    i + k + 1 == n,
                    0 < n,
                    a == (i + k) % n,
                    b == (i + 1 + k) % n,
            ;
        } else {
            assert(a == i + k - n && b == i + k + 1 - n) by (nonlinear_arith)
                requires
                    n < i + k + 1 < 2 * n,
                    a == (i + k) % n,
                    b == (i + 1 + k) % n,
            ;
            assert(edge(g, p[a], p[a + 1]));
        }
    }
    let l = (n - 1 + k) % n;
    assert(q.last() == p[l]);
    if k == 0 {
        assert(l == n - 1) by (nonlinear_arith)
            requires
                l == (n - 1) % n,
                0 < n,
        ;
        assert(edge(g, q.last(), q[0]));
    } else {
        assert(l == k - 1) by (nonlinear_arith)
            requires
                l == (n - 1 + k) % n,
                0 < k < n,
        ;
        let j = k - 1;
        assert(edge(g, p[j], p[j + 1]));
        assert(edge(g, q.last(), q[0]));
    }
    assert forall|i: int| 0 <= i < q.len() implies q[i] < g.len() by {
        assert(q[i] == p[(i + k) % n]);
        assert(0 <= (i + k) % n < n) by (nonlinear_arith)
            requires
                0 < n,
                0 <= i + k,
        ;
    }
}

} // verus!
