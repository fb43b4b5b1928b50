//! The state of a depth-first search for strongly connected components, what
//! holds of it between two steps, and why each step keeps it.
use super::reach::{
    has_edge, lemma_closed_under_reach, lemma_reaches_edge, lemma_reaches_refl,
    lemma_reaches_trans, reaches, succ, Adjacency,
};
use vstd::prelude::*;

verus! {

/// A snapshot of the search.
pub struct Search {
    /// The visited nodes, each with its position in the order of visits.
    pub idx: Map<u32, nat>,
    /// The smallest position that each visited node is known to lead to.
    pub low: Map<u32, nat>,
    /// The visited nodes whose component is not known yet, oldest first.
    pub stack: Seq<u32>,
    /// The components that are complete, oldest first.
    pub comps: Seq<Seq<u32>>,
    /// The nodes that are being expanded, each with the number of its
    /// successors that have been looked at.
    pub work: Seq<(u32, nat)>,
}

/// Whether one of the first `n` components holds `v`.
pub open spec fn in_first(comps: Seq<Seq<u32>>, n: int, v: u32) -> bool {
    exists|i: int| 0 <= i < n && (#[trigger] comps[i]).contains(v)
}

/// What holds of a list of complete components: no node occurs twice, the
/// nodes of one component reach each other, and no edge leads from a component
/// to anything but itself and earlier ones.
pub open spec fn components_ok(g: Adjacency, comps: Seq<Seq<u32>>) -> bool {
    &&& forall|i: int| 0 <= i < comps.len() ==> (#[trigger] comps[i]).no_duplicates()
    &&& forall|i: int, j: int, v: u32|
        0 <= i < j < comps.len() && (#[trigger] comps[i].contains(v)) ==> !(
        #[trigger] comps[j].contains(v))
    &&& forall|i: int, u: u32, v: u32|
        0 <= i < comps.len() && #[trigger] comps[i].contains(u) && #[trigger] comps[i].contains(v)
            ==> reaches(g, u, v)
    &&& forall|i: int, u: u32, t: u32|
        0 <= i < comps.len() && #[trigger] comps[i].contains(u) && #[trigger] has_edge(g, u, t)
            ==> in_first(comps, i + 1, t)
}

/// A complete component holds every node that is on a cycle with one of its own.
pub proof fn lemma_component_maximal(g: Adjacency, comps: Seq<Seq<u32>>, i: int, u: u32, x: u32)
    requires
        components_ok(g, comps),
        0 <= i < comps.len(),
        comps[i].contains(u),
        reaches(g, u, x),
        reaches(g, x, u),
    ensures
        comps[i].contains(x),
{
    lemma_first_closed(g, comps, i + 1, u, x);
    let j = choose|j: int| 0 <= j < i + 1 && (#[trigger] comps[j]).contains(x);
    if j < i {
        lemma_first_closed(g, comps, j + 1, x, u);
        let k = choose|k: int| 0 <= k < j + 1 && (#[trigger] comps[k]).contains(u);
        assert(comps[k].contains(u) && comps[i].contains(u));
    }
}

proof fn lemma_first_closed(g: Adjacency, comps: Seq<Seq<u32>>, n: int, u: u32, x: u32)
    requires
        components_ok(g, comps),
        0 <= n <= comps.len(),
        in_first(comps, n, u),
        reaches(g, u, x),
    ensures
        in_first(comps, n, x),
{
    let s = Set::new(|v: u32| in_first(comps, n, v));
    assert forall|a: u32, b: u32| s.contains(a) && #[trigger] has_edge(g, a, b) implies s.contains(
        b,
    ) by {
        let i = choose|i: int| 0 <= i < n && (#[trigger] comps[i]).contains(a);
        assert(in_first(comps, i + 1, b));
        let j = choose|j: int| 0 <= j < i + 1 && (#[trigger] comps[j]).contains(b);
        assert(0 <= j < n && comps[j].contains(b));
    }
    lemma_closed_under_reach(g, s, u, x);
}

impl Search {
    pub open spec fn visited(self, v: u32) -> bool {
        self.idx.contains_key(v)
    }

    pub open spec fn on_stack(self, v: u32) -> bool {
        self.stack.contains(v)
    }

    /// Whether `v` is being expanded.
    pub open spec fn open_node(self, v: u32) -> bool {
        exists|i: int| 0 <= i < self.work.len() && (#[trigger] self.work[i]).0 == v
    }

    pub open spec fn numbering(self) -> bool {
        &&& self.idx.dom().finite()
        &&& self.low.dom() == self.idx.dom()
        &&& forall|v: u32| #[trigger]
            self.visited(v) ==> self.idx[v] < self.idx.dom().len()
        &&& forall|u: u32, v: u32| #[trigger]
            self.visited(u) && #[trigger] self.visited(v) && self.idx[u] == self.idx[v] ==> u == v
    }

    pub open spec fn stack_ok(self) -> bool {
        &&& forall|i: int| 0 <= i < self.stack.len() ==> self.visited(#[trigger] self.stack[i])
        &&& forall|i: int, j: int|
            0 <= i < j < self.stack.len() ==> self.idx[#[trigger] self.stack[i]] < self.idx[
                #[trigger] self.stack[j]]
    }

    /// Each visited node is on the stack or in a complete component, not both.
    pub open spec fn split_ok(self) -> bool {
        &&& forall|v: u32| #[trigger]
            self.visited(v) ==> self.on_stack(v) || in_first(self.comps, self.comps.len() as int, v)
        &&& forall|i: int, v: u32|
            0 <= i < self.comps.len() && #[trigger] self.comps[i].contains(v) ==> self.visited(v)
                && !self.on_stack(v)
    }

    pub open spec fn rooted(self, g: Adjacency, roots: Set<u32>) -> bool {
        forall|v: u32| #[trigger]
            self.visited(v) ==> exists|r: u32| #[trigger] roots.contains(r) && reaches(g, r, v)
    }

    /// Successors that have been looked at are visited.
    pub open spec fn looked_at(self, g: Adjacency) -> bool {
        &&& forall|u: u32, t: u32|
            self.visited(u) && !self.open_node(u) && #[trigger] has_edge(g, u, t) ==> self.visited(
                t,
            )
        &&& forall|i: int, c: int|
            0 <= i < self.work.len() && 0 <= c < self.work[i].1 ==> self.visited(
                #[trigger] succ(g, (#[trigger] self.work[i]).0)[c],
            )
    }

    pub open spec fn work_ok(self, g: Adjacency) -> bool {
        &&& forall|i: int|
            0 <= i < self.work.len() ==> self.on_stack((#[trigger] self.work[i]).0)
                && self.work[i].1 <= succ(g, self.work[i].0).len()
        &&& forall|i: int, j: int|
            0 <= i < j < self.work.len() ==> self.idx[(#[trigger] self.work[i]).0] < self.idx[(
            #[trigger] self.work[j]).0]
    }

    /// A node that is being expanded reaches all that was put on the stack
    /// after it, and everything on the stack reaches a node below it that is
    /// being expanded.
    pub open spec fn linked(self, g: Adjacency) -> bool {
        &&& forall|i: int, y: u32|
            0 <= i < self.work.len() && #[trigger] self.on_stack(y) && self.idx[(
            #[trigger] self.work[i]).0] <= self.idx[y] ==> reaches(g, self.work[i].0, y)
        &&& forall|y: u32| #[trigger]
            self.on_stack(y) ==> self.leads_down(g, y)
    }

    #[verifier::opaque]
    pub open spec fn leads_down(self, g: Adjacency, y: u32) -> bool {
        exists|i: int|
            0 <= i < self.work.len() && self.idx[(#[trigger] self.work[i]).0] <= self.idx[y]
                && reaches(g, y, self.work[i].0)
    }

    /// The recorded position of an open node is one that it does lead to.
    pub open spec fn low_sound(self, g: Adjacency) -> bool {
        forall|i: int|
            0 <= i < self.work.len() ==> {
                &&& self.low[(#[trigger] self.work[i]).0] <= self.idx[self.work[i].0]
                &&& self.low_witness(g, self.work[i].0)
            }
    }

    #[verifier::opaque]
    pub open spec fn low_witness(self, g: Adjacency, v: u32) -> bool {
        exists|t: u32| #[trigger]
            self.on_stack(t) && self.idx[t] == self.low[v] && reaches(g, v, t)
    }

    /// Whether the edge from `z` to `t` has been looked at in the part of the
    /// search that belongs to the open node number `i`.
    pub open spec fn seen_edge(self, g: Adjacency, i: int, z: u32, t: u32) -> bool {
        &&& self.idx[self.work[i].0] <= self.idx[z]
        &&& i + 1 < self.work.len() ==> self.idx[z] < self.idx[self.work[i + 1].0]
        &&& if z == self.work[i].0 {
            exists|c: int| 0 <= c < self.work[i].1 && #[trigger] succ(g, z)[c] == t
        } else {
            has_edge(g, z, t)
        }
    }

    /// The recorded position of an open node is at most that of every older
    /// stack node that its part of the search has an edge to.
    pub open spec fn low_complete(self, g: Adjacency) -> bool {
        forall|i: int, z: u32, t: u32|
            0 <= i < self.work.len() && self.on_stack(z) && self.on_stack(t)
                && #[trigger] self.seen_edge(g, i, z, t) && self.idx[t] < self.idx[self.work[i].0]
                ==> self.low[self.work[i].0] <= self.idx[t]
    }

    /// What holds between two steps of the search.
    pub open spec fn inv(self, g: Adjacency, roots: Set<u32>) -> bool {
        &&& self.numbering()
        &&& self.stack_ok()
        &&& self.split_ok()
        &&& self.rooted(g, roots)
        &&& self.looked_at(g)
        &&& self.work_ok(g)
        &&& self.linked(g)
        &&& self.low_sound(g)
        &&& self.low_complete(g)
        &&& components_ok(g, self.comps)
    }

    /// The node being expanded looks at one more successor.
    pub open spec fn advance(self) -> Search {
        if self.work.len() == 0 {
            self
        } else {
            let top = self.work.last();
            Search { work: self.work.update(self.work.len() - 1, (top.0, top.1 + 1)), ..self }
        }
    }

    /// `w` is visited and becomes the node being expanded.
    pub open spec fn visit(self, w: u32) -> Search {
        let n = self.idx.dom().len();
        Search {
            idx: self.idx.insert(w, n),
            low: self.low.insert(w, n),
            stack: self.stack.push(w),
            work: self.work.push((w, 0nat)),
            ..self
        }
    }

    /// The recorded position of `v` becomes `n` if that is smaller.
    pub open spec fn lower(self, v: u32, n: nat) -> Search {
        if n < self.low[v] {
            Search { low: self.low.insert(v, n), ..self }
        } else {
            self
        }
    }

    /// The node being expanded looks at a successor that has been visited.
    pub open spec fn look(self, g: Adjacency) -> Search {
        let v = self.work.last().0;
        let w = succ(g, v)[self.work.last().1 as int];
        if self.on_stack(w) {
            self.advance().lower(v, self.idx[w])
        } else {
            self.advance()
        }
    }

    /// The nodes from position `p` of the stack on leave it as a component.
    pub open spec fn close(self, p: int) -> Search {
        Search {
            stack: self.stack.take(p),
            comps: self.comps.push(self.stack.skip(p).reverse()),
            ..self
        }
    }

    /// The node being expanded is done, and hands its recorded position to the
    /// node below it.
    pub open spec fn retire(self) -> Search {
        let v = self.work.last().0;
        let rest = Search { work: self.work.drop_last(), ..self };
        if rest.work.len() == 0 {
            rest
        } else {
            rest.lower(rest.work.last().0, self.low[v])
        }
    }
}

/// Looking at a successor that is not visited yet, or starting at a root.
pub proof fn lemma_visit(g: Adjacency, roots: Set<u32>, m: Search, w: u32)
    requires
        m.inv(g, roots),
        !m.visited(w),
        m.work.len() == 0 ==> roots.contains(w),
        m.work.len() > 0 ==> m.work.last().1 < succ(g, m.work.last().0).len() && succ(
            g,
            m.work.last().0,
        )[m.work.last().1 as int] == w,
    ensures
        m.advance().visit(w).inv(g, roots),
{
    let m2 = m.advance().visit(w);
    let k = m.work.len() as int;
    lemma_reaches_refl(g, w);
    assert(m2.stack[m.stack.len() as int] == w);
    assert forall|y: u32| m2.on_stack(y) <==> (m.on_stack(y) || y == w) by {
        if m.on_stack(y) {
            let i = choose|i: int| 0 <= i < m.stack.len() && m.stack[i] == y;
            assert(m2.stack[i] == y);
        }
        if m2.on_stack(y) {
            let i = choose|i: int| 0 <= i < m2.stack.len() && m2.stack[i] == y;
            if i < m.stack.len() {
                assert(m.stack[i] == y);
            }
        }
    }
    assert(forall|v: u32| m2.visited(v) <==> (m.visited(v) || v == w));
    assert(forall|y: u32| m.on_stack(y) ==> m.visited(y));
    assert forall|i: int| 0 <= i < k implies (#[trigger] m2.work[i]).0 == m.work[i].0 by {}
    assert(m2.work[k] == (w, 0nat));
    // Reachability of `w`.
    assert forall|i: int| 0 <= i < k implies reaches(g, (#[trigger] m.work[i]).0, w) by {
        let v = m.work[k - 1].0;
        assert(m.on_stack(v));
        assert(m.idx[m.work[i].0] <= m.idx[v]);
        assert(reaches(g, m.work[i].0, v));
        assert(has_edge(g, v, w));
        lemma_reaches_edge(g, v, w);
        lemma_reaches_trans(g, m.work[i].0, v, w);
    }
    assert(m2.numbering());
    assert(m2.stack_ok());
    assert(m2.split_ok()) by {
        assert forall|i: int, v: u32|
            0 <= i < m2.comps.len() && #[trigger] m2.comps[i].contains(v) implies m2.visited(v)
            && !m2.on_stack(v) by {
            assert(m.comps[i].contains(v));
        }
    }
    assert(m2.rooted(g, roots)) by {
        assert forall|v: u32| #[trigger] m2.visited(v) implies exists|r: u32| #[trigger]
            roots.contains(r) && reaches(g, r, v) by {
            if v == w {
                if k > 0 {
                    let u = m.work[k - 1].0;
                    assert(m.on_stack(u));
                    assert(m.visited(u));
                    let r = choose|r: u32| #[trigger] roots.contains(r) && reaches(g, r, u);
                    lemma_reaches_trans(g, r, u, w);
                    assert(roots.contains(r) && reaches(g, r, w));
                } else {
                    assert(roots.contains(w) && reaches(g, w, w));
                }
            } else {
                assert(m.visited(v));
            }
        }
    }
    assert(m2.looked_at(g)) by {
        assert forall|u: u32, t: u32|
            m2.visited(u) && !m2.open_node(u) && #[trigger] has_edge(g, u, t) implies m2.visited(
            t,
        ) by {
            assert(u != w) by {
                assert(m2.work[k].0 == w);
            }
            if m.open_node(u) {
                let i = choose|i: int| 0 <= i < m.work.len() && (#[trigger] m.work[i]).0 == u;
                assert(m2.work[i].0 == u);
            }
            assert(m.visited(t));
        }
        assert forall|i: int, c: int|
            0 <= i < m2.work.len() && 0 <= c < m2.work[i].1 implies m2.visited(
            #[trigger] succ(g, (#[trigger] m2.work[i]).0)[c],
        ) by {
            if i < k {
                assert(m2.work[i].0 == m.work[i].0);
                if c < m.work[i].1 {
                    assert(m.visited(succ(g, m.work[i].0)[c]));
                } else {
                    assert(i == k - 1);
                    assert(succ(g, m.work[i].0)[c] == w);
                }
            }
        }
    }
    assert(m2.work_ok(g)) by {
        assert forall|i: int| 0 <= i < m2.work.len() implies m2.on_stack(
            (#[trigger] m2.work[i]).0,
        ) && m2.work[i].1 <= succ(g, m2.work[i].0).len() by {
            if i < k {
                assert(m.on_stack(m.work[i].0));
            }
        }
        assert forall|i: int, j: int| 0 <= i < j < m2.work.len() implies m2.idx[(
        #[trigger] m2.work[i]).0] < m2.idx[(#[trigger] m2.work[j]).0] by {
            assert(m2.work[i].0 == m.work[i].0);
            assert(m.on_stack(m.work[i].0));
            assert(m.visited(m.work[i].0));
            if j < k {
                assert(m2.work[j].0 == m.work[j].0);
                assert(m.on_stack(m.work[j].0));
                assert(m.visited(m.work[j].0));
            }
        }
    }
    assert(m2.linked(g)) by {
        assert forall|i: int, y: u32|
            0 <= i < m2.work.len() && #[trigger] m2.on_stack(y) && m2.idx[(
            #[trigger] m2.work[i]).0] <= m2.idx[y] implies reaches(g, m2.work[i].0, y) by {
            if i < k {
                assert(m2.work[i].0 == m.work[i].0);
                assert(m.on_stack(m.work[i].0));
                if y != w {
                    assert(m.on_stack(y));
                    assert(m.visited(y));
                }
            } else if y != w {
                assert(m.on_stack(y));
                assert(m.visited(y));
            }
        }
        assert forall|y: u32| #[trigger] m2.on_stack(y) implies m2.leads_down(g, y) by {
            reveal(Search::leads_down);
            if y == w {
                assert(m2.idx[m2.work[k].0] <= m2.idx[y] && reaches(g, y, m2.work[k].0));
            } else {
                assert(m.on_stack(y));
                assert(m.leads_down(g, y));
                let i = choose|i: int|
                    0 <= i < m.work.len() && m.idx[(#[trigger] m.work[i]).0] <= m.idx[y] && reaches(
                        g,
                        y,
                        m.work[i].0,
                    );
                assert(m.on_stack(m.work[i].0));
                assert(m2.work[i].0 == m.work[i].0);
                assert(m2.idx[m2.work[i].0] <= m2.idx[y]);
            }
        }
    }
    assert(m2.low_sound(g)) by {
        assert forall|i: int| 0 <= i < m2.work.len() implies ({
            &&& m2.low[(#[trigger] m2.work[i]).0] <= m2.idx[m2.work[i].0]
            &&& m2.low_witness(g, m2.work[i].0)
        }) by {
            reveal(Search::low_witness);
            if i < k {
                let v = m.work[i].0;
                assert(m2.work[i].0 == v);
                assert(m.on_stack(v));
                assert(m.low[v] <= m.idx[v]);
                assert(m.low_witness(g, v));
                let t = choose|t: u32| #[trigger]
                    m.on_stack(t) && m.idx[t] == m.low[v] && reaches(g, v, t);
                assert(m2.on_stack(t) && m2.idx[t] == m2.low[v]);
            } else {
                assert(m2.on_stack(w) && m2.idx[w] == m2.low[w] && reaches(g, w, w));
            }
        }
    }
    assert(m2.low_complete(g)) by {
        assert forall|i: int, z: u32, t: u32|
            0 <= i < m2.work.len() && m2.on_stack(z) && m2.on_stack(t) && #[trigger] m2.seen_edge(
                g,
                i,
                z,
                t,
            ) && m2.idx[t] < m2.idx[m2.work[i].0] implies m2.low[m2.work[i].0] <= m2.idx[t] by {
            if i == k {
                // Nothing above `w` is on the stack, and `w` has looked at nothing.
                if z != w {
                    assert(m.on_stack(z));
                    assert(m.visited(z));
                    assert(m2.idx[z] < m2.idx[w]);
                }
            } else {
                let v = m.work[i].0;
                assert(m2.work[i].0 == v);
                assert(m.on_stack(v));
                assert(t != w);
                assert(m.on_stack(t));
                assert(m.visited(t));
                if z == w {
                    assert(i + 1 < m2.work.len());
                    if i + 1 < k {
                        assert(m.on_stack(m.work[i + 1].0));
                        assert(m.visited(m.work[i + 1].0));
                    }
                    assert(false);
                }
                assert(m.on_stack(z));
                assert(m.visited(z));
                if i + 1 < k {
                    assert(m.on_stack(m.work[i + 1].0));
                    assert(m2.work[i + 1].0 == m.work[i + 1].0);
                }
                if z == v {
                    let c = choose|c: int|
                        0 <= c < m2.work[i].1 && #[trigger] succ(g, z)[c] == t;
                    assert(c < m.work[i].1);
                }
                assert(m.seen_edge(g, i, z, t));
            }
        }
    }
}

/// Looking at a successor that has been visited before.
pub proof fn lemma_seen(g: Adjacency, roots: Set<u32>, m: Search)
    requires
        m.inv(g, roots),
        m.work.len() > 0,
        m.work.last().1 < succ(g, m.work.last().0).len(),
        m.visited(succ(g, m.work.last().0)[m.work.last().1 as int]),
    ensures
        m.look(g).inv(g, roots),
{
    let v = m.work.last().0;
    let w = succ(g, v)[m.work.last().1 as int];
    let m2 = m.look(g);
    let k = m.work.len() as int;
    assert(has_edge(g, v, w));
    lemma_reaches_edge(g, v, w);
    assert(m.work[k - 1].0 == v);
    assert(m.on_stack(v));
    assert(m.visited(v));
    assert forall|i: int| 0 <= i < k implies (#[trigger] m2.work[i]).0 == m.work[i].0 by {}
    assert(m2.low.dom() =~= m.low.dom());
    assert(forall|y: u32| m2.on_stack(y) == m.on_stack(y));
    assert(forall|y: u32| m2.visited(y) == m.visited(y));
    assert(m2.looked_at(g)) by {
        assert forall|u: u32, t: u32|
            m2.visited(u) && !m2.open_node(u) && #[trigger] has_edge(g, u, t) implies m2.visited(
            t,
        ) by {
            if m.open_node(u) {
                let i = choose|i: int| 0 <= i < m.work.len() && (#[trigger] m.work[i]).0 == u;
                assert(m2.work[i].0 == u);
            }
        }
        assert forall|i: int, c: int|
            0 <= i < m2.work.len() && 0 <= c < m2.work[i].1 implies m2.visited(
            #[trigger] succ(g, (#[trigger] m2.work[i]).0)[c],
        ) by {
            assert(m2.work[i].0 == m.work[i].0);
            if c < m.work[i].1 {
                assert(m.visited(succ(g, m.work[i].0)[c]));
            }
        }
    }
    assert(m2.work_ok(g)) by {
        assert forall|i: int| 0 <= i < m2.work.len() implies m2.on_stack(
            (#[trigger] m2.work[i]).0,
        ) && m2.work[i].1 <= succ(g, m2.work[i].0).len() by {
            assert(m.on_stack(m.work[i].0));
        }
        assert forall|i: int, j: int| 0 <= i < j < m2.work.len() implies m2.idx[(
        #[trigger] m2.work[i]).0] < m2.idx[(#[trigger] m2.work[j]).0] by {
            assert(m2.work[i].0 == m.work[i].0);
            assert(m2.work[j].0 == m.work[j].0);
        }
    }
    assert(m2.linked(g)) by {
        assert forall|i: int, y: u32|
            0 <= i < m2.work.len() && #[trigger] m2.on_stack(y) && m2.idx[(
            #[trigger] m2.work[i]).0] <= m2.idx[y] implies reaches(g, m2.work[i].0, y) by {
            assert(m2.work[i].0 == m.work[i].0);
            assert(m.on_stack(y));
        }
        assert forall|y: u32| #[trigger] m2.on_stack(y) implies m2.leads_down(g, y) by {
            reveal(Search::leads_down);
            assert(m.on_stack(y));
            let i = choose|i: int|
                0 <= i < m.work.len() && m.idx[(#[trigger] m.work[i]).0] <= m.idx[y] && reaches(
                    g,
                    y,
                    m.work[i].0,
                );
            assert(m2.work[i].0 == m.work[i].0);
        }
    }
    assert(m2.low_sound(g)) by {
        assert forall|i: int| 0 <= i < m2.work.len() implies ({
            &&& m2.low[(#[trigger] m2.work[i]).0] <= m2.idx[m2.work[i].0]
            &&& m2.low_witness(g, m2.work[i].0)
        }) by {
            reveal(Search::low_witness);
            let x = m.work[i].0;
            assert(m2.work[i].0 == x);
            assert(m.low_witness(g, x));
            if i == k - 1 && m2.low[v] != m.low[v] {
                assert(m2.on_stack(w) && m2.idx[w] == m2.low[v] && reaches(g, v, w));
            } else {
                let t = choose|t: u32| #[trigger]
                    m.on_stack(t) && m.idx[t] == m.low[x] && reaches(g, x, t);
                if i < k - 1 {
                    assert(m.idx[x] < m.idx[v]);
                }
                assert(m2.low[x] == m.low[x]);
                assert(m2.on_stack(t) && m2.idx[t] == m2.low[x]);
            }
        }
    }
    assert(m2.low_complete(g)) by {
        assert forall|i: int, z: u32, t: u32|
            0 <= i < m2.work.len() && m2.on_stack(z) && m2.on_stack(t) && #[trigger] m2.seen_edge(
                g,
                i,
                z,
                t,
            ) && m2.idx[t] < m2.idx[m2.work[i].0] implies m2.low[m2.work[i].0] <= m2.idx[t] by {
            let x = m.work[i].0;
            assert(m2.work[i].0 == x);
            assert(m.on_stack(x));
            if i + 1 < k {
                assert(m2.work[i + 1].0 == m.work[i + 1].0);
                assert(m.idx[x] < m.idx[v]);
            }
            if z == x && i == k - 1 {
                let c = choose|c: int| 0 <= c < m2.work[i].1 && #[trigger] succ(g, z)[c] == t;
                if c < m.work[i].1 {
                    assert(m.seen_edge(g, i, z, t));
                } else {
                    assert(t == w);
                }
            } else {
                if z == x {
                    let c = choose|c: int| 0 <= c < m2.work[i].1 && #[trigger] succ(g, z)[c] == t;
                    assert(c < m.work[i].1);
                }
                assert(m.seen_edge(g, i, z, t));
            }
        }
    }
}

/// The last successor of a node has been looked at, and the node leads to
/// something older: it stays on the stack.
pub proof fn lemma_keep(g: Adjacency, roots: Set<u32>, m: Search)
    requires
        m.inv(g, roots),
        m.work.len() > 0,
        m.work.last().1 == succ(g, m.work.last().0).len(),
        m.low[m.work.last().0] < m.idx[m.work.last().0],
    ensures
        m.retire().inv(g, roots),
{
    let v = m.work.last().0;
    let m2 = m.retire();
    let k = m.work.len() as int;
    assert(m.work[k - 1].0 == v);
    assert(m.on_stack(v));
    assert(m.visited(v));
    // Some stack node below `v` that is still open is reached from `v`.
    assert(m.low_witness(g, v));
    let t0 = lemma_low_witness(g, m, v);
    assert(m.leads_down(g, t0));
    let j0 = lemma_leads_down(g, m, t0);
    assert(m.idx[m.work[j0].0] < m.idx[v]);
    assert(j0 < k - 1);
    lemma_reaches_trans(g, v, t0, m.work[j0].0);
    let p = m.work[k - 2].0;
    assert(m.on_stack(p));
    assert(m.visited(p));
    assert(m.idx[p] < m.idx[v]);
    assert(reaches(g, p, v));
    assert(m2.work =~= m.work.drop_last());
    assert forall|i: int| 0 <= i < k - 1 implies (#[trigger] m2.work[i]) == m.work[i] by {}
    assert(m2.work.last() == m.work[k - 2]);
    assert(m2.low.dom() =~= m.low.dom());
    assert(forall|y: u32| m2.on_stack(y) == m.on_stack(y));
    assert(forall|y: u32| m2.visited(y) == m.visited(y));
    assert(m2.looked_at(g)) by {
        assert forall|u: u32, t: u32|
            m2.visited(u) && !m2.open_node(u) && #[trigger] has_edge(g, u, t) implies m2.visited(
            t,
        ) by {
            if u == v {
                let c = choose|c: int| 0 <= c < succ(g, v).len() && succ(g, v)[c] == t;
                assert(m.visited(succ(g, m.work[k - 1].0)[c]));
            } else if m.open_node(u) {
                let i = choose|i: int| 0 <= i < m.work.len() && (#[trigger] m.work[i]).0 == u;
                assert(m2.work[i].0 == u);
            }
        }
        assert forall|i: int, c: int|
            0 <= i < m2.work.len() && 0 <= c < m2.work[i].1 implies m2.visited(
            #[trigger] succ(g, (#[trigger] m2.work[i]).0)[c],
        ) by {
            assert(m.visited(succ(g, m.work[i].0)[c]));
        }
    }
    assert(m2.work_ok(g)) by {
        assert forall|i: int| 0 <= i < m2.work.len() implies m2.on_stack(
            (#[trigger] m2.work[i]).0,
        ) && m2.work[i].1 <= succ(g, m2.work[i].0).len() by {
            assert(m.on_stack(m.work[i].0));
        }
        assert forall|i: int, j: int| 0 <= i < j < m2.work.len() implies m2.idx[(
        #[trigger] m2.work[i]).0] < m2.idx[(#[trigger] m2.work[j]).0] by {
            assert(m.idx[m.work[i].0] < m.idx[m.work[j].0]);
        }
    }
    assert(m2.linked(g)) by {
        assert forall|i: int, y: u32|
            0 <= i < m2.work.len() && #[trigger] m2.on_stack(y) && m2.idx[(
            #[trigger] m2.work[i]).0] <= m2.idx[y] implies reaches(g, m2.work[i].0, y) by {
            assert(m.on_stack(y));
            assert(m.idx[m.work[i].0] <= m.idx[y]);
        }
        assert forall|y: u32| #[trigger] m2.on_stack(y) implies m2.leads_down(g, y) by {
            assert(m.on_stack(y));
            let i = lemma_leads_down(g, m, y);
            reveal(Search::leads_down);
            if i == k - 1 {
                lemma_reaches_trans(g, y, v, m.work[j0].0);
                assert(m2.work[j0] == m.work[j0]);
                assert(m2.idx[m2.work[j0].0] <= m2.idx[y]);
            } else {
                assert(m2.work[i] == m.work[i]);
            }
        }
    }
    assert(m2.low_sound(g)) by {
        assert forall|i: int| 0 <= i < m2.work.len() implies ({
            &&& m2.low[(#[trigger] m2.work[i]).0] <= m2.idx[m2.work[i].0]
            &&& m2.low_witness(g, m2.work[i].0)
        }) by {
            let x = m.work[i].0;
            assert(m2.work[i].0 == x);
            assert(m.low_witness(g, x));
            let t = lemma_low_witness(g, m, x);
            reveal(Search::low_witness);
            if i == k - 2 && m2.low[p] != m.low[p] {
                assert(m2.low[p] == m.low[v]);
                lemma_reaches_trans(g, p, v, t0);
                assert(m2.on_stack(t0) && m2.idx[t0] == m2.low[p] && reaches(g, p, t0));
            } else {
                if i < k - 2 {
                    assert(m.idx[x] < m.idx[p]);
                }
                assert(m2.low[x] == m.low[x]);
                assert(m2.on_stack(t) && m2.idx[t] == m2.low[x]);
            }
        }
    }
    assert(m2.low_complete(g)) by {
        assert forall|i: int, z: u32, t: u32|
            0 <= i < m2.work.len() && m2.on_stack(z) && m2.on_stack(t) && #[trigger] m2.seen_edge(
                g,
                i,
                z,
                t,
            ) && m2.idx[t] < m2.idx[m2.work[i].0] implies m2.low[m2.work[i].0] <= m2.idx[t] by {
            let x = m.work[i].0;
            assert(m2.work[i] == m.work[i]);
            assert(m.on_stack(x));
            if i < k - 2 {
                assert(m2.work[i + 1] == m.work[i + 1]);
                assert(m.idx[x] < m.idx[p]);
                assert(m.seen_edge(g, i, z, t));
            } else if m.idx[z] < m.idx[v] {
                assert(m.seen_edge(g, i, z, t));
            } else {
                assert(z != x);
                if z == v {
                    let c = choose|c: int| 0 <= c < succ(g, v).len() && succ(g, v)[c] == t;
                    assert(succ(g, z)[c] == t);
                }
                assert(m.seen_edge(g, k - 1, z, t));
            }
        }
    }
}

proof fn lemma_low_witness(g: Adjacency, m: Search, v: u32) -> (t: u32)
    requires
        m.low_witness(g, v),
    ensures
        m.on_stack(t),
        m.idx[t] == m.low[v],
        reaches(g, v, t),
{
    reveal(Search::low_witness);
    choose|t: u32| #[trigger] m.on_stack(t) && m.idx[t] == m.low[v] && reaches(g, v, t)
}

proof fn lemma_leads_down(g: Adjacency, m: Search, y: u32) -> (i: int)
    requires
        m.leads_down(g, y),
    ensures
        0 <= i < m.work.len(),
        m.idx[m.work[i].0] <= m.idx[y],
        reaches(g, y, m.work[i].0),
{
    reveal(Search::leads_down);
    choose|i: int|
        0 <= i < m.work.len() && m.idx[(#[trigger] m.work[i]).0] <= m.idx[y] && reaches(
            g,
            y,
            m.work[i].0,
        )
}

/// The last successor of a node has been looked at, and the node leads to
/// nothing older: it and all above it on the stack are a component.
pub proof fn lemma_close(g: Adjacency, roots: Set<u32>, m: Search, p: int)
    requires
        m.inv(g, roots),
        m.work.len() > 0,
        m.work.last().1 == succ(g, m.work.last().0).len(),
        m.low[m.work.last().0] == m.idx[m.work.last().0],
        0 <= p < m.stack.len(),
        m.stack[p] == m.work.last().0,
    ensures
        m.close(p).retire().inv(g, roots),
{
    let m1 = m.close(p);
    let m2 = m1.retire();
    lemma_close_frame(g, roots, m, p);
    lemma_close_components(g, roots, m, p);
    lemma_close_work(g, roots, m, p);
    lemma_close_linked(g, roots, m, p);
    lemma_close_sound(g, roots, m, p);
    lemma_close_complete(g, roots, m, p);
    assert(forall|y: u32| m2.visited(y) == m.visited(y) && m1.visited(y) == m.visited(y));
    assert(forall|y: u32| m2.on_stack(y) == m1.on_stack(y));
    assert(m2.numbering());
    assert(m2.stack_ok());
    assert(m2.split_ok());
    assert(m2.rooted(g, roots));
}

/// What closing a component leaves as it was.
proof fn lemma_close_frame(g: Adjacency, roots: Set<u32>, m: Search, p: int)
    requires
        m.inv(g, roots),
        m.work.len() > 0,
        m.work.last().1 == succ(g, m.work.last().0).len(),
        m.low[m.work.last().0] == m.idx[m.work.last().0],
        0 <= p < m.stack.len(),
        m.stack[p] == m.work.last().0,
    ensures
        m.close(p).retire().idx == m.idx,
        m.close(p).retire().low == m.low,
        m.close(p).retire().stack == m.close(p).stack,
        m.close(p).retire().comps == m.close(p).comps,
        m.close(p).retire().work == m.work.drop_last(),
        forall|y: u32| #[trigger]
            m.close(p).retire().on_stack(y) <==> (m.on_stack(y) && m.idx[y] < m.idx[m.stack[p]]),
        forall|i: int|
            0 <= i < m.work.len() - 1 ==> m.close(p).retire().on_stack((#[trigger] m.work[i]).0)
                && m.idx[m.work[i].0] < m.idx[m.stack[p]],
{
    let v = m.work.last().0;
    let m2 = m.close(p).retire();
    let k = m.work.len() as int;
    assert(m.work[k - 1].0 == v);
    assert(m.on_stack(v));
    assert(m.visited(v));
    let m1 = m.close(p);
    lemma_close_shape(g, roots, m, p);
    assert(m2.stack == m1.stack && m2.comps == m1.comps);
    assert(forall|y: u32| m2.on_stack(y) == m1.on_stack(y));
    assert(m2.work == m.work.drop_last());
    assert forall|i: int| 0 <= i < k - 1 implies (#[trigger] m2.work[i]) == m.work[i] && m2.on_stack(
        m.work[i].0,
    ) && m.idx[m.work[i].0] < m.idx[v] by {
        assert(m.on_stack(m.work[i].0));
        assert(m.idx[m.work[i].0] < m.idx[m.work[k - 1].0]);
    }
    if k > 1 {
        let q = m.work[k - 2].0;
        assert(m2.work.last() == m.work[k - 2]);
        assert(m.low[q] <= m.idx[q]);
    }
    assert(m2.low == m.low);
    assert(m2.idx == m.idx);
}

/// Closing a component keeps what is known of the nodes being expanded.
proof fn lemma_close_work(g: Adjacency, roots: Set<u32>, m: Search, p: int)
    requires
        m.inv(g, roots),
        m.work.len() > 0,
        m.work.last().1 == succ(g, m.work.last().0).len(),
        m.low[m.work.last().0] == m.idx[m.work.last().0],
        0 <= p < m.stack.len(),
        m.stack[p] == m.work.last().0,
    ensures
        m.close(p).retire().looked_at(g),
        m.close(p).retire().work_ok(g),
{
    let v = m.work.last().0;
    let m2 = m.close(p).retire();
    let k = m.work.len() as int;
    assert(m.work[k - 1].0 == v);
    assert(m.on_stack(v));
    assert(m.visited(v));
    lemma_close_frame(g, roots, m, p);
    assert forall|i: int| 0 <= i < k - 1 implies (#[trigger] m2.work[i]) == m.work[i] && m2.on_stack(
        m.work[i].0,
    ) && m.idx[m.work[i].0] < m.idx[v] by {}
    assert(forall|y: u32| m2.visited(y) == m.visited(y));
    assert(m2.looked_at(g)) by {
        assert forall|u: u32, t: u32|
            m2.visited(u) && !m2.open_node(u) && #[trigger] has_edge(g, u, t) implies m2.visited(
            t,
        ) by {
            if u == v {
                let c = choose|c: int| 0 <= c < succ(g, v).len() && succ(g, v)[c] == t;
                assert(m.visited(succ(g, m.work[k - 1].0)[c]));
            } else if m.open_node(u) {
                let i = choose|i: int| 0 <= i < m.work.len() && (#[trigger] m.work[i]).0 == u;
                assert(m2.work[i].0 == u);
            }
        }
        assert forall|i: int, c: int|
            0 <= i < m2.work.len() && 0 <= c < m2.work[i].1 implies m2.visited(
            #[trigger] succ(g, (#[trigger] m2.work[i]).0)[c],
        ) by {
            assert(m.visited(succ(g, m.work[i].0)[c]));
        }
    }
    assert(m2.work_ok(g)) by {
        assert forall|i: int, j: int| 0 <= i < j < m2.work.len() implies m2.idx[(
        #[trigger] m2.work[i]).0] < m2.idx[(#[trigger] m2.work[j]).0] by {
            assert(m.idx[m.work[i].0] < m.idx[m.work[j].0]);
        }
    }
}

/// Closing a component keeps the stack linked.
proof fn lemma_close_linked(g: Adjacency, roots: Set<u32>, m: Search, p: int)
    requires
        m.inv(g, roots),
        m.work.len() > 0,
        m.work.last().1 == succ(g, m.work.last().0).len(),
        m.low[m.work.last().0] == m.idx[m.work.last().0],
        0 <= p < m.stack.len(),
        m.stack[p] == m.work.last().0,
    ensures
        m.close(p).retire().linked(g),
{
    let v = m.work.last().0;
    let m2 = m.close(p).retire();
    let k = m.work.len() as int;
    assert(m.work[k - 1].0 == v);
    assert(m.on_stack(v));
    assert(m.visited(v));
    lemma_close_frame(g, roots, m, p);
    assert forall|i: int| 0 <= i < k - 1 implies (#[trigger] m2.work[i]) == m.work[i] && m2.on_stack(
        m.work[i].0,
    ) && m.idx[m.work[i].0] < m.idx[v] by {}
    assert(m2.linked(g)) by {
        assert forall|i: int, y: u32|
            0 <= i < m2.work.len() && #[trigger] m2.on_stack(y) && m2.idx[(
            #[trigger] m2.work[i]).0] <= m2.idx[y] implies reaches(g, m2.work[i].0, y) by {
            assert(m.on_stack(y));
            assert(m.idx[m.work[i].0] <= m.idx[y]);
        }
        assert forall|y: u32| #[trigger] m2.on_stack(y) implies m2.leads_down(g, y) by {
            assert(m.on_stack(y));
            let i = lemma_leads_down(g, m, y);
            assert(i < k - 1);
            assert(m2.work[i] == m.work[i]);
            reveal(Search::leads_down);
        }
    }
}

/// Closing a component keeps the recorded positions within reach.
proof fn lemma_close_sound(g: Adjacency, roots: Set<u32>, m: Search, p: int)
    requires
        m.inv(g, roots),
        m.work.len() > 0,
        m.work.last().1 == succ(g, m.work.last().0).len(),
        m.low[m.work.last().0] == m.idx[m.work.last().0],
        0 <= p < m.stack.len(),
        m.stack[p] == m.work.last().0,
    ensures
        m.close(p).retire().low_sound(g),
{
    let v = m.work.last().0;
    let m2 = m.close(p).retire();
    let k = m.work.len() as int;
    assert(m.work[k - 1].0 == v);
    assert(m.on_stack(v));
    assert(m.visited(v));
    lemma_close_frame(g, roots, m, p);
    assert forall|i: int| 0 <= i < k - 1 implies (#[trigger] m2.work[i]) == m.work[i] && m2.on_stack(
        m.work[i].0,
    ) && m.idx[m.work[i].0] < m.idx[v] by {}
    assert(m2.low_sound(g)) by {
        assert forall|i: int| 0 <= i < m2.work.len() implies ({
            &&& m2.low[(#[trigger] m2.work[i]).0] <= m2.idx[m2.work[i].0]
            &&& m2.low_witness(g, m2.work[i].0)
        }) by {
            let x = m.work[i].0;
            assert(m2.work[i].0 == x);
            assert(m.low_witness(g, x));
            let t = lemma_low_witness(g, m, x);
            reveal(Search::low_witness);
            assert(m2.on_stack(t) && m2.idx[t] == m2.low[x]);
        }
    }
}

/// Closing a component keeps the recorded positions low enough.
proof fn lemma_close_complete(g: Adjacency, roots: Set<u32>, m: Search, p: int)
    requires
        m.inv(g, roots),
        m.work.len() > 0,
        m.work.last().1 == succ(g, m.work.last().0).len(),
        m.low[m.work.last().0] == m.idx[m.work.last().0],
        0 <= p < m.stack.len(),
        m.stack[p] == m.work.last().0,
    ensures
        m.close(p).retire().low_complete(g),
{
    let v = m.work.last().0;
    let m2 = m.close(p).retire();
    let k = m.work.len() as int;
    assert(m.work[k - 1].0 == v);
    assert(m.on_stack(v));
    assert(m.visited(v));
    lemma_close_frame(g, roots, m, p);
    assert forall|i: int| 0 <= i < k - 1 implies (#[trigger] m2.work[i]) == m.work[i] && m2.on_stack(
        m.work[i].0,
    ) && m.idx[m.work[i].0] < m.idx[v] by {}
    assert(m2.low_complete(g)) by {
        assert forall|i: int, z: u32, t: u32|
            0 <= i < m2.work.len() && m2.on_stack(z) && m2.on_stack(t) && #[trigger] m2.seen_edge(
                g,
                i,
                z,
                t,
            ) && m2.idx[t] < m2.idx[m2.work[i].0] implies m2.low[m2.work[i].0] <= m2.idx[t] by {
            assert(m2.work[i] == m.work[i]);
            if i < k - 2 {
                assert(m2.work[i + 1] == m.work[i + 1]);
            }
            assert(m.seen_edge(g, i, z, t));
        }
    }
}

/// What `close` takes off the stack and what it leaves there.
proof fn lemma_close_shape(g: Adjacency, roots: Set<u32>, m: Search, p: int)
    requires
        m.inv(g, roots),
        m.work.len() > 0,
        m.work.last().1 == succ(g, m.work.last().0).len(),
        m.low[m.work.last().0] == m.idx[m.work.last().0],
        0 <= p < m.stack.len(),
        m.stack[p] == m.work.last().0,
    ensures
        forall|y: u32| #[trigger]
            m.stack.skip(p).reverse().contains(y) <==> (m.on_stack(y) && m.idx[m.stack[p]]
                <= m.idx[y]),
        forall|y: u32| #[trigger]
            m.close(p).on_stack(y) <==> (m.on_stack(y) && m.idx[y] < m.idx[m.stack[p]]),
{
    let v = m.work.last().0;
    let m2 = m.close(p);
    let k = m.work.len() as int;
    let n = m.comps.len() as int;
    let c0 = m.stack.skip(p).reverse();
    assert(m.work[k - 1].0 == v);
    assert(m.on_stack(v));
    assert(m.visited(v));
    assert forall|y: u32| #[trigger] c0.contains(y) <==> (m.on_stack(y) && m.idx[v] <= m.idx[y]) by {
        if c0.contains(y) {
            let i = choose|i: int| 0 <= i < c0.len() && c0[i] == y;
            let j = m.stack.len() - 1 - i;
            assert(m.stack[j] == y);
            assert(m.idx[m.stack[p]] <= m.idx[m.stack[j]]);
        }
        if m.on_stack(y) && m.idx[v] <= m.idx[y] {
            let j = choose|j: int| 0 <= j < m.stack.len() && m.stack[j] == y;
            if j < p {
                assert(m.idx[m.stack[j]] < m.idx[m.stack[p]]);
            }
            assert(c0[m.stack.len() - 1 - j] == y);
        }
    }
    assert(m2.stack == m.stack.take(p));
    assert forall|y: u32| #[trigger] m2.on_stack(y) <==> (m.on_stack(y) && m.idx[y] < m.idx[v]) by {
        if m2.on_stack(y) {
            let i = choose|i: int| 0 <= i < p && m2.stack[i] == y;
            assert(m.stack[i] == y);
            assert(m.idx[m.stack[i]] < m.idx[m.stack[p]]);
        }
        if m.on_stack(y) && m.idx[y] < m.idx[v] {
            let j = choose|j: int| 0 <= j < m.stack.len() && m.stack[j] == y;
            if j > p {
                assert(m.idx[m.stack[p]] < m.idx[m.stack[j]]);
            }
            assert(j < p);
            assert(m2.stack[j] == y);
        }
    }
}

/// What `close` takes off the stack is a component.
proof fn lemma_close_components(g: Adjacency, roots: Set<u32>, m: Search, p: int)
    requires
        m.inv(g, roots),
        m.work.len() > 0,
        m.work.last().1 == succ(g, m.work.last().0).len(),
        m.low[m.work.last().0] == m.idx[m.work.last().0],
        0 <= p < m.stack.len(),
        m.stack[p] == m.work.last().0,
    ensures
        components_ok(g, m.close(p).comps),
        m.close(p).split_ok(),
{
    let v = m.work.last().0;
    let m2 = m.close(p);
    let k = m.work.len() as int;
    let n = m.comps.len() as int;
    let c0 = m.stack.skip(p).reverse();
    assert(m.work[k - 1].0 == v);
    assert(m.on_stack(v));
    assert(m.visited(v));
    lemma_close_shape(g, roots, m, p);
    lemma_top_closed(g, roots, m);
    assert(c0.no_duplicates()) by {
        assert forall|i: int, j: int| 0 <= i < j < c0.len() implies c0[i] != c0[j] by {
            let a = m.stack.len() - 1 - j;
            let b = m.stack.len() - 1 - i;
            assert(m.idx[m.stack[a]] < m.idx[m.stack[b]]);
        }
    }
    assert(m2.comps == m.comps.push(c0));
    assert forall|i: int| 0 <= i < n implies (#[trigger] m2.comps[i]) == m.comps[i] by {}
    assert(m2.comps[n] == c0);
    assert(components_ok(g, m2.comps)) by {
        assert forall|i: int, j: int, x: u32|
            0 <= i < j < m2.comps.len() && (#[trigger] m2.comps[i].contains(x)) implies !(
        #[trigger] m2.comps[j].contains(x)) by {
            assert(m.comps[i].contains(x));
            if j < n {
                assert(m2.comps[j] == m.comps[j]);
            }
        }
        assert forall|i: int, x: u32, y: u32|
            0 <= i < m2.comps.len() && #[trigger] m2.comps[i].contains(x)
                && #[trigger] m2.comps[i].contains(y) implies reaches(g, x, y) by {
            if i < n {
                assert(m.comps[i].contains(x) && m.comps[i].contains(y));
            } else {
                assert(m.on_stack(x) && m.on_stack(y));
                assert(reaches(g, m.work[k - 1].0, y));
                lemma_reaches_trans(g, x, v, y);
            }
        }
        assert forall|i: int, x: u32, t: u32|
            0 <= i < m2.comps.len() && #[trigger] m2.comps[i].contains(x)
                && #[trigger] has_edge(g, x, t) implies in_first(m2.comps, i + 1, t) by {
            if i < n {
                assert(m.comps[i].contains(x));
                assert(in_first(m.comps, i + 1, t));
                let j = choose|j: int| 0 <= j < i + 1 && (#[trigger] m.comps[j]).contains(t);
                assert(m2.comps[j].contains(t));
            } else {
                if in_first(m.comps, n, t) {
                    let j = choose|j: int| 0 <= j < n && (#[trigger] m.comps[j]).contains(t);
                    assert(m2.comps[j].contains(t));
                } else {
                    assert(m2.comps[n].contains(t));
                }
            }
        }
    }
    assert(forall|y: u32| m2.visited(y) == m.visited(y));
    assert(m2.split_ok()) by {
        assert forall|y: u32| #[trigger] m2.visited(y) implies m2.on_stack(y) || in_first(
            m2.comps,
            n + 1,
            y,
        ) by {
            assert(m.visited(y));
            if m.on_stack(y) {
                if m.idx[v] <= m.idx[y] {
                    assert(m2.comps[n].contains(y));
                }
            } else {
                let j = choose|j: int| 0 <= j < n && (#[trigger] m.comps[j]).contains(y);
                assert(m2.comps[j].contains(y));
            }
        }
        assert forall|i: int, y: u32|
            0 <= i < m2.comps.len() && #[trigger] m2.comps[i].contains(y) implies m2.visited(y)
            && !m2.on_stack(y) by {
            if i < n {
                assert(m.comps[i].contains(y));
            } else {
                assert(m.on_stack(y));
            }
        }
    }
}

/// With nothing left to look at above the last open node, and no edge to
/// anything older, what is at or above that node leads only to itself and to
/// complete components, and all of it leads back to that node.
proof fn lemma_top_closed(g: Adjacency, roots: Set<u32>, m: Search)
    requires
        m.inv(g, roots),
        m.work.len() > 0,
        m.work.last().1 == succ(g, m.work.last().0).len(),
        m.low[m.work.last().0] == m.idx[m.work.last().0],
    ensures
        forall|y: u32, t: u32|
            m.on_stack(y) && m.idx[m.work.last().0] <= m.idx[y] && #[trigger] has_edge(g, y, t)
                ==> in_first(m.comps, m.comps.len() as int, t) || (m.on_stack(t) && m.idx[
                m.work.last().0] <= m.idx[t]),
        forall|y: u32| #[trigger]
            m.on_stack(y) && m.idx[m.work.last().0] <= m.idx[y] ==> reaches(
                g,
                y,
                m.work.last().0,
            ),
{
    let v = m.work.last().0;
    let k = m.work.len() as int;
    let n = m.comps.len() as int;
    assert(m.work[k - 1].0 == v);
    assert(m.on_stack(v));
    assert(m.visited(v));
    assert forall|y: u32, t: u32|
        m.on_stack(y) && m.idx[v] <= m.idx[y] && #[trigger] has_edge(g, y, t) implies in_first(
        m.comps,
        n,
        t,
    ) || (m.on_stack(t) && m.idx[v] <= m.idx[t]) by {
        assert(m.visited(y));
        if y == v {
            let c = choose|c: int| 0 <= c < succ(g, v).len() && succ(g, v)[c] == t;
            assert(m.visited(succ(g, m.work[k - 1].0)[c]));
        } else {
            if m.open_node(y) {
                let i = choose|i: int| 0 <= i < k && (#[trigger] m.work[i]).0 == y;
                assert(m.idx[m.work[i].0] < m.idx[m.work[k - 1].0]);
            }
            assert(m.visited(t));
        }
        if m.on_stack(t) && m.idx[t] < m.idx[v] {
            if y == v {
                let c = choose|c: int| 0 <= c < succ(g, v).len() && succ(g, v)[c] == t;
                assert(succ(g, y)[c] == t);
            }
            assert(m.seen_edge(g, k - 1, y, t));
            assert(false);
        }
    }
    let s = Set::new(
        |x: u32| in_first(m.comps, n, x) || (m.on_stack(x) && m.idx[v] <= m.idx[x]),
    );
    assert forall|a: u32, b: u32| s.contains(a) && #[trigger] has_edge(g, a, b) implies s.contains(
        b,
    ) by {
        if in_first(m.comps, n, a) {
            let i = choose|i: int| 0 <= i < n && (#[trigger] m.comps[i]).contains(a);
            assert(in_first(m.comps, i + 1, b));
            let j = choose|j: int| 0 <= j < i + 1 && (#[trigger] m.comps[j]).contains(b);
            assert(0 <= j < n && m.comps[j].contains(b));
        }
    }
    assert forall|y: u32| #[trigger] m.on_stack(y) && m.idx[v] <= m.idx[y] implies reaches(
        g,
        y,
        v,
    ) by {
        assert(m.leads_down(g, y));
        let i = lemma_leads_down(g, m, y);
        let x = m.work[i].0;
        if i != k - 1 {
            assert(m.idx[m.work[i].0] < m.idx[m.work[k - 1].0]);
            assert(s.contains(y));
            lemma_closed_under_reach(g, s, y, x);
            assert(m.on_stack(m.work[i].0));
            let j = choose|j: int| 0 <= j < n && (#[trigger] m.comps[j]).contains(x);
            assert(m.comps[j].contains(x));
        }
    }
}

} // verus!
