//! Strongly connected components of the import graph.
use super::reach::{
    has_edge, lemma_closed_under_reach, mutually_reachable, reaches, succ, Adjacency,
};
use super::tarjan_model::{
    components_ok, in_first, lemma_close, lemma_component_maximal, lemma_keep, lemma_seen,
    lemma_visit, Search,
};
use crate::collections::{
    id_map_contains, id_map_get, id_map_insert, id_map_new, id_set_contains, id_set_insert,
    id_set_new, id_set_remove,
};
use rustc_hash::{FxHashMap, FxHashSet};
use vstd::prelude::*;

verus! {

/// The graph that a map from nodes to lists of successors stands for.
pub open spec fn adjacency(edges: FxHashMap<u32, Vec<u32>>) -> Adjacency {
    Map::new(|k: u32| edges@.contains_key(k), |k: u32| edges@[k]@)
}

/// Whether no edge leads to the largest id, which is never given out.
pub open spec fn targets_in_range(g: Adjacency) -> bool {
    forall|u: u32, v: u32| #[trigger] has_edge(g, u, v) ==> v < u32::MAX
}

/// A depth-first search that keeps its own stack, so that long import chains
/// do not use up the call stack.
pub(crate) struct TarjanState {
    next_index: u32,
    indices: FxHashMap<u32, u32>,
    lowlinks: FxHashMap<u32, u32>,
    on_stack: FxHashSet<u32>,
    stack: Vec<u32>,
    pub(crate) components: Vec<Vec<u32>>,
}

/// The contents of a list of lists.
pub open spec fn lists(v: Seq<Vec<u32>>) -> Seq<Seq<u32>> {
    v.map_values(|c: Vec<u32>| c@)
}

/// How many steps are left for the nodes being expanded.
spec fn remaining(g: Adjacency, work: Seq<(u32, usize)>) -> nat
    decreases work.len(),
{
    if work.len() == 0 {
        0
    } else {
        let top = work.last();
        let left = if top.1 <= succ(g, top.0).len() {
            (succ(g, top.0).len() - top.1) as nat
        } else {
            0
        };
        remaining(g, work.drop_last()) + left + 1
    }
}

/// A set of ids below `n` has at most `n` members.
pub proof fn lemma_ids_below(s: Set<u32>, n: nat)
    requires
        s.finite(),
        forall|x: u32| s.contains(x) ==> x < n,
    ensures
        s.len() <= n,
    decreases n,
{
    if n == 0 {
        assert(s =~= Set::empty());
    } else {
        let last = (n - 1) as u32;
        if n - 1 <= u32::MAX {
            assert(last == n - 1);
            lemma_ids_below(s.remove(last), (n - 1) as nat);
        } else {
            lemma_ids_below(s, (n - 1) as nat);
        }
    }
}

impl TarjanState {
    /// The snapshot that the fields and a work stack stand for.
    pub(crate) closed spec fn search(self, work: Seq<(u32, usize)>) -> Search {
        Search {
            idx: self.indices@.map_values(|x: u32| x as nat),
            low: self.lowlinks@.map_values(|x: u32| x as nat),
            stack: self.stack@,
            comps: lists(self.components@),
            work: work.map_values(|p: (u32, usize)| (p.0, p.1 as nat)),
        }
    }

    /// The fields that repeat what others say agree with them.
    spec fn tidy(self) -> bool {
        &&& self.next_index == self.indices@.dom().len()
        &&& forall|v: u32| self.on_stack@.contains(v) <==> self.stack@.contains(v)
        &&& forall|v: u32| #[trigger] self.indices@.contains_key(v) ==> v < u32::MAX
    }

    /// What holds between two runs.
    pub(crate) closed spec fn idle(self, g: Adjacency, roots: Set<u32>) -> bool {
        &&& self.tidy()
        &&& self.search(Seq::empty()).inv(g, roots)
    }

    pub(crate) closed spec fn visited(self, v: u32) -> bool {
        self.indices@.contains_key(v)
    }

    pub(crate) fn new(Ghost(g): Ghost<Adjacency>, Ghost(roots): Ghost<Set<u32>>) -> (r: Self)
        ensures
            r.idle(g, roots),
    {
        let r = Self {
            next_index: 0,
            indices: id_map_new(),
            lowlinks: id_map_new(),
            on_stack: id_set_new(),
            stack: Vec::new(),
            components: Vec::new(),
        };
        proof {
            let m = r.search(Seq::empty());
            assert(r.indices@.dom() =~= Set::empty());
            assert(m.idx.dom() =~= Set::empty());
            assert(m.low.dom() =~= Set::empty());
            assert(m.inv(g, roots));
        }
        r
    }

    /// Whether `v` has been visited.
    pub(crate) fn has_visited(&self, v: u32) -> (r: bool)
        ensures
            r == self.visited(v),
    {
        id_map_contains(&self.indices, v)
    }

    fn assign_index(&mut self, v: u32)
        requires
            old(self).tidy(),
            old(self).next_index < u32::MAX,
            old(self).indices@.dom().finite(),
            !old(self).visited(v),
            v < u32::MAX,
        ensures
            final(self).tidy(),
            final(self).next_index == old(self).next_index + 1,
            final(self).components == old(self).components,
            forall|x: u32| final(self).visited(x) <==> old(self).visited(x) || x == v,
            forall|work: Seq<(u32, usize)>|
                final(self).search(work.push((v, 0usize))) == #[trigger] old(self).search(
                    work,
                ).visit(v),
    {
        let i: u32 = self.next_index;
        self.next_index = i + 1;
        id_map_insert(&mut self.indices, v, i);
        id_map_insert(&mut self.lowlinks, v, i);
        self.stack.push(v);
        id_set_insert(&mut self.on_stack, v);
        proof {
            assert forall|x: u32| self.on_stack@.contains(x) <==> self.stack@.contains(x) by {
                if old(self).stack@.contains(x) {
                    let j = choose|j: int|
                        0 <= j < old(self).stack@.len() && old(self).stack@[j] == x;
                    assert(self.stack@[j] == x);
                }
                assert(self.stack@[self.stack@.len() - 1] == v);
            }
            assert forall|work: Seq<(u32, usize)>|
                self.search(work.push((v, 0usize))) == #[trigger] old(self).search(work).visit(
                    v,
                ) by {
                let a = self.search(work.push((v, 0usize)));
                let b = old(self).search(work).visit(v);
                assert(old(self).search(work).idx.dom() =~= old(self).indices@.dom());
                assert(a.idx =~= b.idx);
                assert(a.low =~= b.low);
                assert(a.stack =~= b.stack);
                assert(a.work =~= b.work);
            }
        }
    }
}

impl TarjanState {
    /// The recorded position of `v` becomes `n` if that is smaller.
    fn lower_link(&mut self, v: u32, n: u32)
        requires
            old(self).tidy(),
            old(self).lowlinks@.contains_key(v),
        ensures
            final(self).tidy(),
            final(self).next_index == old(self).next_index,
            final(self).indices == old(self).indices,
            forall|work: Seq<(u32, usize)>| #[trigger]
                final(self).search(work) == old(self).search(work).lower(v, n as nat),
    {
        let low: u32 = match id_map_get(&self.lowlinks, v) {
            Some(low) => *low,
            None => n,
        };
        if n < low {
            id_map_insert(&mut self.lowlinks, v, n);
        }
        proof {
            assert forall|work: Seq<(u32, usize)>| #[trigger]
                self.search(work) == old(self).search(work).lower(v, n as nat) by {
                let a = self.search(work);
                let b = old(self).search(work).lower(v, n as nat);
                assert(a.low =~= b.low);
            }
        }
    }

    /// Takes `v` and all above it off the stack, as a component.
    fn pop_component(&mut self, v: u32, Ghost(p): Ghost<int>)
        requires
            old(self).tidy(),
            0 <= p < old(self).stack@.len(),
            old(self).stack@[p] == v,
            old(self).stack@.no_duplicates(),
        ensures
            final(self).tidy(),
            final(self).next_index == old(self).next_index,
            final(self).indices == old(self).indices,
            final(self).lowlinks == old(self).lowlinks,
            forall|work: Seq<(u32, usize)>| #[trigger]
                final(self).search(work) == old(self).search(work).close(p),
    {
        let mut component: Vec<u32> = Vec::new();
        let ghost full = self.stack@;
        let mut done = false;
        while !done
            invariant
                self.next_index == old(self).next_index,
                self.indices == old(self).indices,
                self.lowlinks == old(self).lowlinks,
                self.components == old(self).components,
                full == old(self).stack@,
                0 <= p < full.len(),
                full[p] == v,
                full.no_duplicates(),
                self.stack@.len() <= full.len(),
                self.stack@ == full.take(self.stack@.len() as int),
                component@ == full.skip(self.stack@.len() as int).reverse(),
                done ==> self.stack@.len() == p,
                !done ==> self.stack@.len() > p,
                forall|x: u32| self.on_stack@.contains(x) <==> self.stack@.contains(x),
                old(self).tidy(),
            decreases self.stack@.len() + (if done { 0int } else { 1int }),
        {
            let ghost before = self.stack@;
            match self.stack.pop() {
                Some(node) => {
                    id_set_remove(&mut self.on_stack, node);
                    component.push(node);
                    if node == v {
                        done = true;
                    }
                    proof {
                        let n = self.stack@.len() as int;
                        assert(before == full.take(n + 1));
                        assert(node == full[n]);
                        assert(self.stack@ =~= full.take(n));
                        assert(component@ =~= full.skip(n).reverse());
                        assert forall|x: u32|
                            self.on_stack@.contains(x) <==> self.stack@.contains(x) by {
                            if self.stack@.contains(x) {
                                let j = choose|j: int| 0 <= j < n && self.stack@[j] == x;
                                assert(full[j] == x);
                                assert(before[j] == x);
                            }
                            if before.contains(x) && x != node {
                                let j = choose|j: int| 0 <= j < n + 1 && before[j] == x;
                                assert(j < n);
                                assert(self.stack@[j] == x);
                            }
                        }
                    }
                },
                None => {
                    done = true;
                },
            }
        }
        self.components.push(component);
        proof {
            assert forall|work: Seq<(u32, usize)>| #[trigger]
                self.search(work) == old(self).search(work).close(p) by {
                let a = self.search(work);
                let b = old(self).search(work).close(p);
                assert(a.comps =~= b.comps);
            }
        }
    }

    /// Visits all that can be reached from `start`.
    pub(crate) fn run_from(
        &mut self,
        start: u32,
        edges: &FxHashMap<u32, Vec<u32>>,
        Ghost(roots): Ghost<Set<u32>>,
    )
        requires
            old(self).idle(adjacency(*edges), roots),
            targets_in_range(adjacency(*edges)),
            roots.contains(start),
            start < u32::MAX,
            !old(self).visited(start),
        ensures
            final(self).idle(adjacency(*edges), roots),
            final(self).visited(start),
            forall|v: u32| old(self).visited(v) ==> final(self).visited(v),
    {
        let ghost g = adjacency(*edges);
        let mut work: Vec<(u32, usize)> = Vec::new();
        proof {
            assert(work@ =~= Seq::empty());
            self.lemma_room(g, roots, work@, start);
            lemma_visit(g, roots, self.search(work@), start);
        }
        let ghost m0 = self.search(work@);
        self.assign_index(start);
        work.push((start, 0));
        proof {
            assert(m0.advance() == m0) by {
                assert(m0.work.len() == 0);
            }
            assert(self.search(work@) == m0.visit(start));
        }
        while work.len() > 0
            invariant
                g == adjacency(*edges),
                targets_in_range(g),
                self.tidy(),
                self.search(work@).inv(g, roots),
                self.visited(start),
                forall|v: u32| old(self).visited(v) ==> self.visited(v),
            decreases u32::MAX - self.next_index, remaining(g, work@),
        {
            let top: usize = work.len() - 1;
            let v: u32 = work[top].0;
            let cursor: usize = work[top].1;
            let ghost m = self.search(work@);
            let ghost w0 = work@;
            let ghost s0 = *self;
            proof {
                assert(m.work[top as int] == (v, cursor as nat));
                assert(m.work.last() == (v, cursor as nat));
                assert(m.on_stack(v));
                assert(m.visited(v));
                assert(self.indices@.contains_key(v));
                assert(m.low.dom().contains(v));
                assert(self.lowlinks@.contains_key(v));
            }
            match neighbor(edges, v, cursor) {
                Some(w) => {
                    work.set(top, (v, cursor + 1));
                    let ghost w1 = work@;
                    proof {
                        assert(has_edge(g, v, w)) by {
                            assert(succ(g, v)[cursor as int] == w);
                        }
                        assert(self.search(w1).work =~= m.advance().work);
                        assert(self.search(w1) == m.advance());
                        assert(w1.drop_last() =~= w0.drop_last());
                        assert(remaining(g, w1) < remaining(g, w0));
                    }
                    if !id_map_contains(&self.indices, w) {
                        proof {
                            assert(!m.visited(w));
                            self.lemma_room(g, roots, w0, w);
                            lemma_visit(g, roots, m, w);
                        }
                        self.assign_index(w);
                        work.push((w, 0));
                    } else {
                        proof {
                            assert(m.visited(w));
                            lemma_seen(g, roots, m);
                        }
                        if id_set_contains(&self.on_stack, w) {
                            let w_index: u32 = match id_map_get(&self.indices, w) {
                                Some(i) => *i,
                                None => 0,
                            };
                            self.lower_link(v, w_index);
                        }
                    }
                },
                None => {
                    let v_low: u32 = match id_map_get(&self.lowlinks, v) {
                        Some(n) => *n,
                        None => 0,
                    };
                    let v_index: u32 = match id_map_get(&self.indices, v) {
                        Some(n) => *n,
                        None => 0,
                    };
                    proof {
                        assert(m.low[v] == v_low as nat);
                        assert(m.idx[v] == v_index as nat);
                        assert(m.low[m.work[top as int].0] <= m.idx[m.work[top as int].0]);
                        assert(m.work.last().1 <= succ(g, v).len());
                        assert(remaining(g, w0.drop_last()) < remaining(g, w0));
                    }
                    let ghost closed = m;
                    if v_low == v_index {
                        let ghost p = choose|p: int| 0 <= p < m.stack.len() && m.stack[p] == v;
                        proof {
                            assert(m.stack == self.stack@);
                            assert(self.stack@.no_duplicates()) by {
                                assert forall|i: int, j: int|
                                    0 <= i < j < m.stack.len() implies m.stack[i] != m.stack[j] by {
                                    assert(m.idx[m.stack[i]] < m.idx[m.stack[j]]);
                                }
                            }
                            lemma_close(g, roots, m, p);
                            closed = m.close(p);
                        }
                        self.pop_component(v, Ghost(p));
                    } else {
                        proof {
                            lemma_keep(g, roots, m);
                        }
                    }
                    let _ = work.pop();
                    proof {
                        assert(self.search(w0) == closed);
                        assert(closed.retire().inv(g, roots));
                        assert(self.search(work@).work =~= closed.work.drop_last());
                        assert(closed.low[v] == v_low as nat);
                        assert(closed.work.last().0 == v);
                    }
                    if work.len() > 0 {
                        let parent: u32 = work[work.len() - 1].0;
                        proof {
                            assert(m.work[work@.len() - 1].0 == parent);
                            assert(m.on_stack(parent));
                            assert(m.visited(parent));
                            assert(m.low.dom().contains(parent));
                            assert(s0.lowlinks@.contains_key(parent));
                            assert(self.search(work@).work.last().0 == parent);
                        }
                        self.lower_link(parent, v_low);
                    }
                    proof {
                        assert(self.search(work@) == closed.retire());
                    }
                },
            }
        }
        proof {
            assert(work@ =~= Seq::empty());
        }
    }

    /// There is an index left for a node that has not been visited.
    proof fn lemma_room(self, g: Adjacency, roots: Set<u32>, work: Seq<(u32, usize)>, w: u32)
        requires
            self.tidy(),
            self.search(work).inv(g, roots),
            !self.visited(w),
            w < u32::MAX,
        ensures
            self.next_index < u32::MAX,
            self.indices@.dom().finite(),
    {
        assert(self.search(work).idx.dom() =~= self.indices@.dom());
        let s = self.indices@.dom().insert(w);
        lemma_ids_below(s, u32::MAX as nat);
    }
}

/// Successor number `cursor` of `v`, if there are that many.
fn neighbor(edges: &FxHashMap<u32, Vec<u32>>, v: u32, cursor: usize) -> (r: Option<u32>)
    ensures
        match r {
            Some(w) => cursor < usize::MAX && cursor < succ(adjacency(*edges), v).len() && w == succ(
                adjacency(*edges),
                v,
            )[cursor as int],
            None => cursor >= succ(adjacency(*edges), v).len(),
        },
{
    match id_map_get(edges, v) {
        Some(list) => if cursor < list.len() {
            Some(list[cursor])
        } else {
            None
        },
        None => None,
    }
}

/// Whether some root reaches `v`.
pub open spec fn reached_from(g: Adjacency, roots: Set<u32>, v: u32) -> bool {
    exists|r: u32| #[trigger] roots.contains(r) && reaches(g, r, v)
}

/// Whether `c` lists, each once, all the nodes that are mutually reachable with
/// any one of them.
pub open spec fn is_component(g: Adjacency, c: Seq<u32>) -> bool {
    &&& c.len() > 0
    &&& c.no_duplicates()
    &&& forall|u: u32, x: u32| #[trigger]
        c.contains(u) ==> (#[trigger] c.contains(x) <==> mutually_reachable(g, u, x))
}

/// Whether `out` lists the import cycles among the nodes that the roots reach:
/// the components of two or more nodes, each once, in any order.
pub open spec fn lists_cycles(g: Adjacency, roots: Set<u32>, out: Seq<Seq<u32>>) -> bool {
    &&& forall|i: int|
        0 <= i < out.len() ==> (#[trigger] out[i]).len() >= 2 && is_component(g, out[i])
    &&& forall|i: int, j: int, v: u32|
        0 <= i < j < out.len() && #[trigger] out[i].contains(v) ==> !#[trigger] out[j].contains(v)
    &&& forall|i: int, v: u32|
        0 <= i < out.len() && #[trigger] out[i].contains(v) ==> reached_from(g, roots, v)
    &&& forall|u: u32, x: u32|
        reached_from(g, roots, u) && u != x && #[trigger] mutually_reachable(g, u, x)
            ==> exists|i: int| 0 <= i < out.len() && (#[trigger] out[i]).contains(u)
}

/// The components of two or more nodes in what `ids` reach.
pub(crate) fn cycles(ids: &Vec<u32>, edges: &FxHashMap<u32, Vec<u32>>) -> (out: Vec<Vec<u32>>)
    requires
        targets_in_range(adjacency(*edges)),
        forall|i: int| 0 <= i < ids@.len() ==> #[trigger] ids@[i] < u32::MAX,
    ensures
        lists_cycles(adjacency(*edges), ids@.to_set(), lists(out@)),
{
    let ghost g = adjacency(*edges);
    let ghost roots = ids@.to_set();
    let mut state = TarjanState::new(Ghost(g), Ghost(roots));
    let mut i: usize = 0;
    while i < ids.len()
        invariant
            i <= ids@.len(),
            g == adjacency(*edges),
            roots == ids@.to_set(),
            targets_in_range(g),
            state.idle(g, roots),
            forall|j: int| 0 <= j < i ==> state.visited(#[trigger] ids@[j]),
            forall|j: int| 0 <= j < ids@.len() ==> #[trigger] ids@[j] < u32::MAX,
        decreases ids@.len() - i,
    {
        let id: u32 = ids[i];
        proof {
            assert(ids@.contains(id));
        }
        if !state.has_visited(id) {
            state.run_from(id, edges, Ghost(roots));
        }
        i += 1;
    }
    let comps = state.components;
    let ghost all = lists(comps@);
    let mut out: Vec<Vec<u32>> = Vec::new();
    let mut j: usize = 0;
    let ghost mut from: Seq<int> = Seq::empty();
    while j < comps.len()
        invariant
            j <= comps@.len(),
            all == lists(comps@),
            components_ok(g, all),
            from.len() == out@.len(),
            forall|a: int| 0 <= a < from.len() ==> 0 <= #[trigger] from[a] < j,
            forall|a: int, b: int| 0 <= a < b < from.len() ==> #[trigger] from[a] < #[trigger] from[b],
            forall|a: int| #![trigger out@[a]]
                0 <= a < out@.len() ==> out@[a]@ == all[from[a]] && out@[a]@.len() >= 2,
            forall|c: int| 0 <= c < j && (#[trigger] all[c]).len() >= 2 ==> from.contains(c),
        decreases comps@.len() - j,
    {
        assert(all[j as int] == comps@[j as int]@);
        if comps[j].len() >= 2 {
            let ghost old_from = from;
            out.push(comps[j].clone());
            proof {
                from = from.push(j as int);
                assert(out@[out@.len() - 1]@ =~= all[j as int]);
                assert forall|c: int| 0 <= c < j + 1 && (#[trigger] all[c]).len() >= 2 implies from.contains(c) by {
                    if c == j {
                        assert(from[from.len() - 1] == c);
                    } else {
                        assert(old_from.contains(c));
                        let a = choose|a: int| 0 <= a < old_from.len() && old_from[a] == c;
                        assert(from[a] == c);
                    }
                }
            }
        }
        j += 1;
    }
    proof {
        state.lemma_result(g, roots, all, ids@);
        let res = lists(out@);
        assert forall|i: int| 0 <= i < res.len() implies (#[trigger] res[i]).len() >= 2 && is_component(g, res[i]) by {
            let c = from[i];
            assert(res[i] == out@[i]@);
            assert(res[i] == all[c]);
            lemma_is_component(g, all, c);
        }
        assert forall|i: int, k: int, v: u32|
            0 <= i < k < res.len() && #[trigger] res[i].contains(v) implies !#[trigger] res[k].contains(v) by {
            assert(res[i] == out@[i]@ && res[k] == out@[k]@);
            assert(from[i] < from[k]);
            assert(all[from[i]].contains(v));
        }
        assert forall|i: int, v: u32| 0 <= i < res.len() && #[trigger] res[i].contains(v) implies reached_from(g, roots, v) by {
            assert(res[i] == out@[i]@);
            assert(all[from[i]].contains(v));
        }
        assert forall|u: u32, x: u32|
            reached_from(g, roots, u) && u != x && #[trigger] mutually_reachable(g, u, x)
                implies exists|i: int| 0 <= i < res.len() && (#[trigger] res[i]).contains(u) by {
            assert(in_first(all, all.len() as int, u));
            let c = choose|c: int| 0 <= c < all.len() && (#[trigger] all[c]).contains(u);
            lemma_is_component(g, all, c);
            assert(all[c].contains(x));
            lemma_two_members(all[c], u, x);
            let a = choose|a: int| 0 <= a < from.len() && from[a] == c;
            assert(res[a] == out@[a]@);
            assert(res[a].contains(u));
        }
    }
    out
}

proof fn lemma_two_members(c: Seq<u32>, u: u32, x: u32)
    requires
        c.contains(u),
        c.contains(x),
        u != x,
    ensures
        c.len() >= 2,
{
}

proof fn lemma_is_component(g: Adjacency, comps: Seq<Seq<u32>>, c: int)
    requires
        components_ok(g, comps),
        0 <= c < comps.len(),
        comps[c].len() > 0,
    ensures
        is_component(g, comps[c]),
{
    assert forall|u: u32, x: u32| #[trigger] comps[c].contains(u) implies (#[trigger] comps[c].contains(x)
        <==> mutually_reachable(g, u, x)) by {
        if mutually_reachable(g, u, x) {
            lemma_component_maximal(g, comps, c, u, x);
        }
    }
}

impl TarjanState {
    /// What the components say once all roots have been visited.
    proof fn lemma_result(self, g: Adjacency, roots: Set<u32>, all: Seq<Seq<u32>>, ids: Seq<u32>)
        requires
            self.idle(g, roots),
            all == lists(self.components@),
            roots == ids.to_set(),
            forall|j: int| 0 <= j < ids.len() ==> self.visited(#[trigger] ids[j]),
        ensures
            components_ok(g, all),
            forall|i: int, v: u32|
                0 <= i < all.len() && #[trigger] all[i].contains(v) ==> reached_from(g, roots, v),
            forall|u: u32| #[trigger]
                reached_from(g, roots, u) ==> in_first(all, all.len() as int, u),
    {
        let m = self.search(Seq::empty());
        assert(m.comps == all);
        assert forall|i: int, v: u32| 0 <= i < all.len() && #[trigger] all[i].contains(v) implies reached_from(g, roots, v) by {
            assert(m.comps[i].contains(v));
            assert(m.visited(v));
        }
        let s = Set::new(|v: u32| m.visited(v));
        assert(forall|v: u32| !m.open_node(v));
        assert forall|a: u32, b: u32| s.contains(a) && #[trigger] has_edge(g, a, b) implies s.contains(b) by {}
        assert forall|u: u32| #[trigger] reached_from(g, roots, u) implies in_first(all, all.len() as int, u) by {
            let r = choose|r: u32| #[trigger] roots.contains(r) && reaches(g, r, u);
            assert(ids.contains(r));
            let j = choose|j: int| 0 <= j < ids.len() && ids[j] == r;
            assert(self.visited(ids[j]));
            assert(m.visited(r));
            assert(s.contains(r));
            lemma_closed_under_reach(g, s, r, u);
            assert(m.visited(u));
            if m.on_stack(u) {
                assert(m.leads_down(g, u));
                reveal(Search::leads_down);
            }
        }
    }
}

} // verus!
