//! Paths in a directed graph of file ids.
use vstd::prelude::*;

verus! {

/// A graph: for each node that has outgoing edges, its successors in order.
pub type Adjacency = Map<u32, Seq<u32>>;

/// The successors of `v`, in order.
pub open spec fn succ(g: Adjacency, v: u32) -> Seq<u32> {
    if g.contains_key(v) {
        g[v]
    } else {
        Seq::empty()
    }
}

/// Whether there is an edge from `u` to `v`.
pub open spec fn has_edge(g: Adjacency, u: u32, v: u32) -> bool {
    succ(g, u).contains(v)
}

/// Whether `p` is a non-empty walk along edges of `g`.
pub open spec fn is_path(g: Adjacency, p: Seq<u32>) -> bool {
    &&& p.len() > 0
    &&& forall|i: int| 0 < i < p.len() ==> has_edge(g, p[i - 1], #[trigger] p[i])
}

/// Whether `v` can be reached from `u` by following zero or more edges.
#[verifier::opaque]
pub open spec fn reaches(g: Adjacency, u: u32, v: u32) -> bool {
    exists|p: Seq<u32>| #[trigger] is_path(g, p) && p[0] == u && p.last() == v
}

/// Every node reaches itself.
pub proof fn lemma_reaches_refl(g: Adjacency, u: u32)
    ensures
        reaches(g, u, u),
{
    reveal(reaches);
    assert(is_path(g, seq![u]));
}

/// An edge is a path.
pub proof fn lemma_reaches_edge(g: Adjacency, u: u32, v: u32)
    requires
        has_edge(g, u, v),
    ensures
        reaches(g, u, v),
{
    reveal(reaches);
    assert(is_path(g, seq![u, v]));
}

/// Reachability is transitive.
pub proof fn lemma_reaches_trans(g: Adjacency, u: u32, v: u32, w: u32)
    requires
        reaches(g, u, v),
        reaches(g, v, w),
    ensures
        reaches(g, u, w),
{
    reveal(reaches);
    let p = choose|p: Seq<u32>| #[trigger] is_path(g, p) && p[0] == u && p.last() == v;
    let q = choose|p: Seq<u32>| #[trigger] is_path(g, p) && p[0] == v && p.last() == w;
    let r = p + q.skip(1);
    assert forall|i: int| 0 < i < r.len() implies has_edge(g, r[i - 1], #[trigger] r[i]) by {
        if i < p.len() {
            assert(r[i] == p[i]);
            assert(r[i - 1] == p[i - 1]);
        } else {
            assert(r[i] == q[i - p.len() + 1]);
            assert(r[i - 1] == q[i - p.len()]);
        }
    }
    assert(is_path(g, r));
    assert(r.last() == w) by {
        if q.len() > 1 {
            assert(r.last() == q.last());
        }
    }
}

/// A set of nodes that is closed under edges holds all that is reachable from it.
pub proof fn lemma_closed_under_reach(g: Adjacency, s: Set<u32>, u: u32, v: u32)
    requires
        reaches(g, u, v),
        s.contains(u),
        forall|a: u32, b: u32| s.contains(a) && #[trigger] has_edge(g, a, b) ==> s.contains(b),
    ensures
        s.contains(v),
{
    reveal(reaches);
    let p = choose|p: Seq<u32>| #[trigger] is_path(g, p) && p[0] == u && p.last() == v;
    lemma_path_stays(g, s, p, p.len() - 1);
}

proof fn lemma_path_stays(g: Adjacency, s: Set<u32>, p: Seq<u32>, i: int)
    requires
        is_path(g, p),
        s.contains(p[0]),
        0 <= i < p.len(),
        forall|a: u32, b: u32| s.contains(a) && #[trigger] has_edge(g, a, b) ==> s.contains(b),
    ensures
        s.contains(p[i]),
    decreases i,
{
    if i > 0 {
        lemma_path_stays(g, s, p, i - 1);
        assert(has_edge(g, p[i - 1], p[i]));
    }
}

/// Whether `u` and `v` lie on a common cycle, or are the same node.
pub open spec fn mutually_reachable(g: Adjacency, u: u32, v: u32) -> bool {
    reaches(g, u, v) && reaches(g, v, u)
}

} // verus!
