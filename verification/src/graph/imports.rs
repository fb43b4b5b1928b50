//! Which file imports which, what is reachable, and what is not.
use super::reach::{
    has_edge, lemma_closed_under_reach, lemma_reaches_edge, lemma_reaches_refl,
    lemma_reaches_trans, mutually_reachable, reaches, succ, Adjacency,
};
use super::registry::{FileRegistry, FileView};
use super::resolver::ModuleResolver;
use super::tarjan::{
    adjacency, cycles, is_component, lemma_ids_below, lists, lists_cycles, reached_from,
    targets_in_range,
};
use crate::collections::{
    id_map_get, id_map_is_empty, id_map_keys, id_map_new, id_map_push, id_set_contains,
    id_set_insert, id_set_items, id_set_new,
};
use crate::extract::ParsedModule;
use crate::text::{chars_of, has_prefix, text_between};
use crate::types::{import_views, Edge, EntryPoint, FileId, ImportSpecifier, ImportView};
use rustc_hash::{FxHashMap, FxHashSet};
use vstd::prelude::*;

verus! {

/// What an edge says.
pub struct EdgeView {
    pub from: u32,
    pub to: u32,
    pub specifier: ImportView,
}

impl View for Edge {
    type V = EdgeView;

    open spec fn view(&self) -> EdgeView {
        EdgeView { from: self.from.0, to: self.to.0, specifier: self.specifier@ }
    }
}

pub open spec fn edge_views(v: Seq<Edge>) -> Seq<EdgeView> {
    v.map_values(|e: Edge| e@)
}

/// The edge that an import gives rise to. An import of the file itself gives
/// none, nor does one that never runs: it must not keep a module alive.
pub open spec fn edge_of(r: &ModuleResolver<'_>, from: u32, spec: ImportView) -> Option<EdgeView> {
    match r.resolution(spec, FileId(from)) {
        Some(to) => if to.0 == from || spec.is_type_only {
            None
        } else {
            Some(EdgeView { from, to: to.0, specifier: spec })
        },
        None => None,
    }
}

/// The edges of a file's imports, in order.
pub open spec fn edges_of(r: &ModuleResolver<'_>, from: u32, imports: Seq<ImportView>) -> Seq<
    EdgeView,
>
    decreases imports.len(),
{
    if imports.len() == 0 {
        Seq::empty()
    } else {
        let before = edges_of(r, from, imports.drop_last());
        match edge_of(r, from, imports.last()) {
            Some(e) => before.push(e),
            None => before,
        }
    }
}

/// The edges of the files in `order`, one file after the other.
pub open spec fn edges_in_order(
    r: &ModuleResolver<'_>,
    parsed: Map<u32, ParsedModule>,
    order: Seq<u32>,
) -> Seq<EdgeView>
    decreases order.len(),
{
    if order.len() == 0 {
        Seq::empty()
    } else {
        edges_in_order(r, parsed, order.drop_last()) + edges_of(
            r,
            order.last(),
            import_views(parsed[order.last()].imports@),
        )
    }
}

/// The graph that a list of edges stands for.
pub open spec fn graph_of(edges: Seq<EdgeView>) -> Adjacency
    decreases edges.len(),
{
    if edges.len() == 0 {
        Map::empty()
    } else {
        let g = graph_of(edges.drop_last());
        let e = edges.last();
        g.insert(e.from, succ(g, e.from).push(e.to))
    }
}

/// The files of a list of entry points.
pub open spec fn entry_ids(v: Seq<EntryPoint>) -> Set<u32> {
    Set::new(|id: u32| exists|i: int| 0 <= i < v.len() && (#[trigger] v[i]).file.0 == id)
}

/// Whether `order` lists each key of `m` once.
pub open spec fn lists_keys(order: Seq<u32>, m: Map<u32, ParsedModule>) -> bool {
    order.no_duplicates() && forall|k: u32| order.contains(k) <==> m.contains_key(k)
}

/// The imports between the files of a project.
pub struct ModuleGraph {
    pub edges: Vec<Edge>,
    pub entry_points: FxHashSet<u32>,
    pub entry_point_meta: Vec<EntryPoint>,
    /// The targets of the edges of each file, in order.
    pub edges_by_source: FxHashMap<u32, Vec<u32>>,
}

/// Adding an edge adds one successor.
proof fn lemma_graph_push(edges: Seq<EdgeView>, e: EdgeView)
    ensures
        graph_of(edges.push(e)) == graph_of(edges).insert(
            e.from,
            succ(graph_of(edges), e.from).push(e.to),
        ),
{
    assert(edges.push(e).drop_last() =~= edges);
}

/// The successors in the graph of a list of edges are the targets of its edges.
pub proof fn graph_has_the_edges(edges: Seq<EdgeView>, u: u32, v: u32)
    ensures
        has_edge(graph_of(edges), u, v) <==> exists|i: int|
            0 <= i < edges.len() && (#[trigger] edges[i]).from == u && edges[i].to == v,
    decreases edges.len(),
{
    if edges.len() > 0 {
        let before = edges.drop_last();
        let e = edges.last();
        graph_has_the_edges(before, u, v);
        let g = graph_of(before);
        let g2 = graph_of(edges);
        assert(succ(g2, u) == (if u == e.from {
            succ(g, u).push(e.to)
        } else {
            succ(g, u)
        }));
        if has_edge(g2, u, v) {
            if u == e.from && v == e.to {
                assert(edges[edges.len() - 1] == e);
            } else {
                if u == e.from {
                    let k = choose|k: int| 0 <= k < succ(g2, u).len() && succ(g2, u)[k] == v;
                    assert(succ(g, u)[k] == v);
                }
                assert(has_edge(g, u, v));
                let i = choose|i: int|
                    0 <= i < before.len() && (#[trigger] before[i]).from == u && before[i].to == v;
                assert(edges[i].from == u && edges[i].to == v);
            }
        }
        if exists|i: int| 0 <= i < edges.len() && (#[trigger] edges[i]).from == u && edges[i].to
            == v {
            let i = choose|i: int|
                0 <= i < edges.len() && (#[trigger] edges[i]).from == u && edges[i].to == v;
            if i < before.len() {
                assert(before[i].from == u && before[i].to == v);
                assert(has_edge(g, u, v));
                let k = choose|k: int| 0 <= k < succ(g, u).len() && succ(g, u)[k] == v;
                assert(succ(g2, u)[k] == v);
            } else {
                assert(succ(g2, u)[succ(g2, u).len() - 1] == v);
            }
        }
    }
}

impl ModuleGraph {
    /// The graph of the imports.
    pub open spec fn graph(&self) -> Adjacency {
        graph_of(edge_views(self.edges@))
    }

    /// The successor lists agree with the edges, and no edge leads to the
    /// largest id, which is never given out.
    pub open spec fn wf(&self) -> bool {
        &&& adjacency(self.edges_by_source) == self.graph()
        &&& targets_in_range(self.graph())
    }

    fn add_import(&mut self, resolver: &ModuleResolver<'_>, from: u32, spec: &ImportSpecifier)
        requires
            old(self).wf(),
            resolver.wf(),
        ensures
            final(self).wf(),
            final(self).entry_points == old(self).entry_points,
            final(self).entry_point_meta == old(self).entry_point_meta,
            edge_views(final(self).edges@) == (match edge_of(resolver, from, spec@) {
                Some(e) => edge_views(old(self).edges@).push(e),
                None => edge_views(old(self).edges@),
            }),
    {
        let to = match resolver.resolve(spec, FileId(from)) {
            Some(id) => id,
            None => return ,
        };
        if to.0 == from || spec.is_type_only {
            return;
        }
        let ghost before = edge_views(self.edges@);
        let ghost g = self.graph();
        let edge = Edge { from: FileId(from), to, specifier: spec.clone() };
        let ghost e = edge@;
        self.edges.push(edge);
        id_map_push(&mut self.edges_by_source, from, to.0);
        proof {
            assert(edge_views(self.edges@) =~= before.push(e));
            lemma_graph_push(before, e);
            resolver.lemma_resolution_range(spec@, FileId(from));
            assert(adjacency(self.edges_by_source) =~= self.graph());
            assert forall|u: u32, v: u32| #[trigger] has_edge(self.graph(), u, v) implies v
                < u32::MAX by {
                if u == from {
                    let s = succ(self.graph(), u);
                    let k = choose|k: int| 0 <= k < s.len() && s[k] == v;
                    if k < succ(g, u).len() {
                        assert(succ(g, u)[k] == v);
                        assert(has_edge(g, u, v));
                    }
                } else {
                    assert(has_edge(g, u, v));
                }
            }
        }
    }

    fn add_module(&mut self, resolver: &ModuleResolver<'_>, from: u32, imports: &Vec<ImportSpecifier>)
        requires
            old(self).wf(),
            resolver.wf(),
        ensures
            final(self).wf(),
            final(self).entry_points == old(self).entry_points,
            final(self).entry_point_meta == old(self).entry_point_meta,
            edge_views(final(self).edges@) == edge_views(old(self).edges@) + edges_of(
                resolver,
                from,
                import_views(imports@),
            ),
    {
        let ghost all = import_views(imports@);
        let ghost before = edge_views(self.edges@);
        let mut i: usize = 0;
        assert(all.take(0) =~= Seq::empty());
        assert(before =~= before + edges_of(resolver, from, all.take(0)));
        while i < imports.len()
            invariant
                i <= imports@.len(),
                all == import_views(imports@),
                resolver.wf(),
                self.wf(),
                self.entry_points == old(self).entry_points,
                self.entry_point_meta == old(self).entry_point_meta,
                edge_views(self.edges@) == before + edges_of(resolver, from, all.take(i as int)),
            decreases imports@.len() - i,
        {
            proof {
                assert(all.take(i + 1).drop_last() =~= all.take(i as int));
                assert(all.take(i + 1).last() == imports@[i as int]@);
            }
            self.add_import(resolver, from, &imports[i]);
            i += 1;
            assert(edge_views(self.edges@) =~= before + edges_of(
                resolver,
                from,
                all.take(i as int),
            ));
        }
        assert(all.take(i as int) =~= all);
    }

    /// The graph of the modules in `order`, one after the other.
    pub fn build_in_order(
        resolver: &ModuleResolver<'_>,
        parsed: &FxHashMap<u32, ParsedModule>,
        order: &Vec<u32>,
        entries: Vec<EntryPoint>,
    ) -> (r: ModuleGraph)
        requires
            resolver.wf(),
            forall|i: int| 0 <= i < order@.len() ==> parsed@.contains_key(#[trigger] order@[i]),
        ensures
            r.wf(),
            edge_views(r.edges@) == edges_in_order(resolver, parsed@, order@),
            r.entry_points@ == entry_ids(entries@),
            r.entry_point_meta == entries,
    {
        let entry_points = collect_entries(&entries);
        let mut r = ModuleGraph {
            edges: Vec::new(),
            entry_points,
            entry_point_meta: entries,
            edges_by_source: id_map_new(),
        };
        proof {
            assert(edge_views(r.edges@) =~= Seq::empty());
            assert(adjacency(r.edges_by_source) =~= r.graph());
            assert(edge_views(r.edges@) =~= edges_in_order(resolver, parsed@, order@.take(0)));
        }
        let mut i: usize = 0;
        while i < order.len()
            invariant
                i <= order@.len(),
                resolver.wf(),
                r.wf(),
                r.entry_points == entry_points,
                r.entry_point_meta == entries,
                forall|i: int| 0 <= i < order@.len() ==> parsed@.contains_key(#[trigger] order@[i]),
                edge_views(r.edges@) == edges_in_order(resolver, parsed@, order@.take(i as int)),
            decreases order@.len() - i,
        {
            let from: u32 = order[i];
            proof {
                assert(order@.take(i + 1).drop_last() =~= order@.take(i as int));
                assert(order@.take(i + 1).last() == from);
            }
            if let Some(module) = id_map_get(parsed, from) {
                r.add_module(resolver, from, &module.imports);
            }
            i += 1;
        }
        assert(order@.take(i as int) =~= order@);
        r
    }

    /// The graph of all parsed modules. The order in which these are taken is
    /// left open.
    pub fn build(
        resolver: &ModuleResolver<'_>,
        parsed: &FxHashMap<u32, ParsedModule>,
        entries: Vec<EntryPoint>,
    ) -> (r: ModuleGraph)
        requires
            resolver.wf(),
        ensures
            r.wf(),
            exists|order: Seq<u32>|
                #![trigger lists_keys(order, parsed@)]
                lists_keys(order, parsed@) && edge_views(r.edges@) == edges_in_order(
                    resolver,
                    parsed@,
                    order,
                ),
            r.entry_points@ == entry_ids(entries@),
            r.entry_point_meta == entries,
    {
        let order = id_map_keys(parsed);
        proof {
            assert(lists_keys(order@, parsed@));
            assert forall|i: int| 0 <= i < order@.len() implies parsed@.contains_key(
                #[trigger] order@[i],
            ) by {
                assert(order@.contains(order@[i]));
            }
        }
        ModuleGraph::build_in_order(resolver, parsed, &order, entries)
    }

    /// All files that an entry point reaches.
    pub fn reachable_from_entries(&self) -> (reached: FxHashSet<u32>)
        requires
            self.wf(),
        ensures
            forall|v: u32|
                reached@.contains(v) <==> reached_from(self.graph(), self.entry_points@, v),
    {
        let ghost g = self.graph();
        let ghost roots = self.entry_points@;
        let mut reached = id_set_new();
        let mut frontier = id_set_items(&self.entry_points);
        proof {
            assert forall|v: u32| frontier@.contains(v) implies reached_from(g, roots, v) by {
                lemma_reaches_refl(g, v);
                assert(roots.contains(v));
            }
            lemma_ids_below(reached@, 0x1_0000_0000);
        }
        while frontier.len() > 0
            invariant
                self.wf(),
                g == self.graph(),
                roots == self.entry_points@,
                reached@.finite(),
                reached@.len() <= 0x1_0000_0000,
                forall|v: u32| reached@.contains(v) ==> reached_from(g, roots, v),
                forall|v: u32| frontier@.contains(v) ==> reached_from(g, roots, v),
                forall|v: u32|
                    roots.contains(v) ==> reached@.contains(v) || frontier@.contains(v),
                forall|u: u32, v: u32|
                    reached@.contains(u) && #[trigger] has_edge(g, u, v) ==> reached@.contains(v)
                        || frontier@.contains(v),
            decreases 0x1_0000_0000 - reached@.len(), frontier@.len(),
        {
            let ghost f0 = frontier@;
            let ghost r0 = reached@;
            if let Some(id) = frontier.pop() {
                proof {
                    assert(f0[f0.len() - 1] == id);
                    assert(f0.contains(id));
                    assert forall|v: u32| f0.contains(v) implies v == id || frontier@.contains(
                        v,
                    ) by {
                        let i = choose|i: int| 0 <= i < f0.len() && f0[i] == v;
                        if i < f0.len() - 1 {
                            assert(frontier@[i] == v);
                        }
                    }
                    assert forall|v: u32| frontier@.contains(v) implies f0.contains(v) by {
                        let i = choose|i: int| 0 <= i < frontier@.len() && frontier@[i] == v;
                        assert(f0[i] == v);
                    }
                }
                if id_set_insert(&mut reached, id) {
                    proof {
                        lemma_ids_below(reached@, 0x1_0000_0000);
                    }
                    self.push_neighbors(id, &reached, &mut frontier, Ghost(roots));
                }
            }
        }
        proof {
            assert forall|v: u32| reached_from(g, roots, v) implies reached@.contains(v) by {
                let r = choose|r: u32| #[trigger] roots.contains(r) && reaches(g, r, v);
                lemma_closed_under_reach(g, reached@, r, v);
            }
        }
        reached
    }

    fn push_neighbors(
        &self,
        id: u32,
        reached: &FxHashSet<u32>,
        frontier: &mut Vec<u32>,
        Ghost(roots): Ghost<Set<u32>>,
    )
        requires
            self.wf(),
            reached_from(self.graph(), roots, id),
            forall|v: u32|
                old(frontier)@.contains(v) ==> reached_from(self.graph(), roots, v),
        ensures
            forall|v: u32| old(frontier)@.contains(v) ==> final(frontier)@.contains(v),
            forall|v: u32|
                final(frontier)@.contains(v) ==> reached_from(self.graph(), roots, v),
            forall|v: u32| #[trigger]
                has_edge(self.graph(), id, v) ==> reached@.contains(v)
                    || final(frontier)@.contains(v),
    {
        let ghost g = self.graph();
        assert(adjacency(self.edges_by_source) == g);
        if let Some(neighbors) = id_map_get(&self.edges_by_source, id) {
            let mut i: usize = 0;
            assert(succ(g, id) == neighbors@);
            while i < neighbors.len()
                invariant
                    i <= neighbors@.len(),
                    succ(g, id) == neighbors@,
                    reached_from(g, roots, id),
                    forall|v: u32| old(frontier)@.contains(v) ==> frontier@.contains(v),
                    forall|v: u32| frontier@.contains(v) ==> reached_from(g, roots, v),
                    forall|j: int|
                        0 <= j < i ==> reached@.contains(#[trigger] neighbors@[j])
                            || frontier@.contains(neighbors@[j]),
                decreases neighbors@.len() - i,
            {
                let n: u32 = neighbors[i];
                if !id_set_contains(reached, n) {
                    let ghost f0 = frontier@;
                    frontier.push(n);
                    proof {
                        assert forall|v: u32|
                            frontier@.contains(v) <==> f0.contains(v) || v == n by {
                            crate::types::lemma_contains_push(f0, n, v);
                        }
                        assert forall|j: int| 0 <= j < i + 1 implies reached@.contains(
                            #[trigger] neighbors@[j],
                        ) || frontier@.contains(neighbors@[j]) by {
                            crate::types::lemma_contains_push(f0, n, neighbors@[j]);
                        }
                        let r = choose|r: u32| #[trigger] roots.contains(r) && reaches(g, r, id);
                        assert(has_edge(g, id, n));
                        lemma_reaches_edge(g, id, n);
                        lemma_reaches_trans(g, r, id, n);
                        assert(roots.contains(r) && reaches(g, r, n));
                    }
                }
                i += 1;
            }
        }
    }
}

fn collect_entries(entries: &Vec<EntryPoint>) -> (r: FxHashSet<u32>)
    ensures
        r@ == entry_ids(entries@),
{
    let mut r = id_set_new();
    let mut i: usize = 0;
    while i < entries.len()
        invariant
            i <= entries@.len(),
            forall|id: u32|
                r@.contains(id) <==> exists|j: int|
                    0 <= j < i && (#[trigger] entries@[j]).file.0 == id,
        decreases entries@.len() - i,
    {
        let ghost before = r@;
        id_set_insert(&mut r, entries[i].file.0);
        proof {
            assert forall|id: u32|
                r@.contains(id) <==> exists|j: int|
                    0 <= j < i + 1 && (#[trigger] entries@[j]).file.0 == id by {
                if r@.contains(id) {
                    if before.contains(id) {
                        let j = choose|j: int|
                            0 <= j < i && (#[trigger] entries@[j]).file.0 == id;
                        assert(entries@[j].file.0 == id);
                    } else {
                        assert(entries@[i as int].file.0 == id);
                    }
                }
            }
        }
        i += 1;
    }
    assert(r@ =~= entry_ids(entries@));
    r
}

/// Whether a file is kept alive: an entry point reaches it, or it is a package
/// that holds a file which an entry point reaches.
pub open spec fn is_live(
    g: Adjacency,
    entries: Set<u32>,
    files: Seq<FileView>,
    r: &ModuleResolver<'_>,
    id: u32,
) -> bool {
    reached_from(g, entries, id) || exists|v: u32|
        #![trigger reached_from(g, entries, v)]
        reached_from(g, entries, v) && is_parent(files, r, v, id)
}

/// Whether the dotted name of `id` is what stands before some dot in the dotted
/// name of `v`.
pub open spec fn is_parent(files: Seq<FileView>, r: &ModuleResolver<'_>, v: u32, id: u32) -> bool {
    v < files.len() && exists|k: int|
        0 <= k < files[v as int].dotted.len() && #[trigger] files[v as int].dotted[k] == '.'
            && r.lookup(files[v as int].dotted.take(k)) == Some(FileId(id))
}

/// Whether `id` is such a package for one of the first `n` files of a list.
spec fn holds_one(
    files: Seq<FileView>,
    r: &ModuleResolver<'_>,
    v: Seq<u32>,
    n: int,
    id: u32,
) -> bool {
    exists|j: int| 0 <= j < n && is_parent(files, r, #[trigger] v[j], id)
}

/// Adds the packages that hold a file.
fn mark_parent_packages(
    id: u32,
    registry: &FileRegistry,
    resolver: &ModuleResolver<'_>,
    reached: &mut FxHashSet<u32>,
)
    requires
        registry.wf(),
    ensures
        forall|x: u32|
            final(reached)@.contains(x) <==> old(reached)@.contains(x) || is_parent(
                registry@,
                resolver,
                id,
                x,
            ),
{
    let dotted = match registry.dotted_of(FileId(id)) {
        Some(d) => d,
        None => return ,
    };
    let ghost d = dotted@;
    let v = chars_of(dotted);
    let mut i: usize = v.len();
    while i > 0
        invariant
            i <= v@.len(),
            v@ == d,
            id < registry@.len(),
            d == registry@[id as int].dotted,
            forall|x: u32|
                reached@.contains(x) <==> old(reached)@.contains(x) || exists|k: int|
                    i <= k < d.len() && #[trigger] d[k] == '.' && resolver.lookup(d.take(k)) == Some(
                        FileId(x),
                    ),
        decreases i,
    {
        let ghost before = reached@;
        i -= 1;
        if v[i] == '.' {
            let prefix = text_between(&v, 0, i);
            assert(prefix@ =~= d.take(i as int));
            if let Some(pkg) = resolver.resolve_dotted(prefix.as_str()) {
                id_set_insert(reached, pkg.0);
            }
        }
        proof {
            assert forall|x: u32|
                reached@.contains(x) <==> old(reached)@.contains(x) || exists|k: int|
                    i <= k < d.len() && #[trigger] d[k] == '.' && resolver.lookup(d.take(k)) == Some(
                        FileId(x),
                    ) by {
                if reached@.contains(x) && !old(reached)@.contains(x) {
                    if before.contains(x) {
                        let k = choose|k: int|
                            i + 1 <= k < d.len() && #[trigger] d[k] == '.' && resolver.lookup(
                                d.take(k),
                            ) == Some(FileId(x));
                        assert(d[k] == '.');
                    } else {
                        assert(d[i as int] == '.');
                    }
                }
                if exists|k: int|
                    i <= k < d.len() && #[trigger] d[k] == '.' && resolver.lookup(d.take(k)) == Some(
                        FileId(x),
                    ) {
                    let k = choose|k: int|
                        i <= k < d.len() && #[trigger] d[k] == '.' && resolver.lookup(d.take(k))
                            == Some(FileId(x));
                    if k > i {
                        assert(before.contains(x));
                    }
                }
            }
        }
    }
}

/// The numbers of a list of files.
pub open spec fn numbers(v: Seq<FileId>) -> Seq<u32> {
    v.map_values(|f: FileId| f.0)
}

impl ModuleGraph {
    /// The files that are not kept alive, each once, in some order.
    pub fn unreachable_files(
        &self,
        registry: &FileRegistry,
        resolver: &ModuleResolver<'_>,
    ) -> (r: Vec<FileId>)
        requires
            self.wf(),
            registry.wf(),
        ensures
            r@.no_duplicates(),
            forall|id: FileId|
                r@.contains(id) <==> id.0 < registry@.len() && !is_live(
                    self.graph(),
                    self.entry_points@,
                    registry@,
                    resolver,
                    id.0,
                ),
    {
        let ghost g = self.graph();
        let ghost entries = self.entry_points@;
        let ghost files = registry@;
        let mut reached = self.reachable_from_entries();
        let initial = id_set_items(&reached);
        let ghost first = reached@;
        let mut i: usize = 0;
        while i < initial.len()
            invariant
                i <= initial@.len(),
                registry.wf(),
                files == registry@,
                forall|x: u32| first.contains(x) <==> reached_from(g, entries, x),
                forall|k: u32| initial@.contains(k) <==> first.contains(k),
                forall|x: u32| #[trigger]
                    reached@.contains(x) <==> first.contains(x) || holds_one(
                        files,
                        resolver,
                        initial@,
                        i as int,
                        x,
                    ),
            decreases initial@.len() - i,
        {
            let ghost before = reached@;
            mark_parent_packages(initial[i], registry, resolver, &mut reached);
            proof {
                assert forall|x: u32| #[trigger]
                    reached@.contains(x) <==> first.contains(x) || holds_one(
                        files,
                        resolver,
                        initial@,
                        i + 1,
                        x,
                    ) by {
                    assert(before.contains(x) <==> first.contains(x) || holds_one(
                        files,
                        resolver,
                        initial@,
                        i as int,
                        x,
                    ));
                    if is_parent(files, resolver, initial@[i as int], x) {
                        assert(holds_one(files, resolver, initial@, i + 1, x));
                    }
                    if holds_one(files, resolver, initial@, i as int, x) {
                        let j = choose|j: int|
                            0 <= j < i && is_parent(files, resolver, #[trigger] initial@[j], x);
                        assert(is_parent(files, resolver, initial@[j], x));
                    }
                    if holds_one(files, resolver, initial@, i + 1, x) {
                        let j = choose|j: int|
                            0 <= j < i + 1 && is_parent(files, resolver, #[trigger] initial@[j], x);
                        if j < i {
                            assert(holds_one(files, resolver, initial@, i as int, x));
                        }
                    }
                }
            }
            i += 1;
        }
        proof {
            assert forall|x: u32| reached@.contains(x) <==> is_live(
                g,
                entries,
                files,
                resolver,
                x,
            ) by {
                if reached@.contains(x) && !first.contains(x) {
                    let j = choose|j: int|
                        0 <= j < initial@.len() && is_parent(
                            files,
                            resolver,
                            #[trigger] initial@[j],
                            x,
                        );
                    assert(initial@.contains(initial@[j]));
                    assert(reached_from(g, entries, initial@[j]));
                }
                if is_live(g, entries, files, resolver, x) && !reached_from(g, entries, x) {
                    let v = choose|v: u32|
                        #![trigger reached_from(g, entries, v)]
                        reached_from(g, entries, v) && is_parent(files, resolver, v, x);
                    assert(initial@.contains(v));
                    let j = choose|j: int| 0 <= j < initial@.len() && initial@[j] == v;
                    assert(is_parent(files, resolver, initial@[j], x));
                }
            }
        }
        let ids = registry.all_ids();
        let r = keep_absent(&ids, &reached);
        proof {
            assert forall|id: FileId|
                r@.contains(id) <==> id.0 < registry@.len() && !is_live(
                    g,
                    entries,
                    files,
                    resolver,
                    id.0,
                ) by {
                assert(r@.contains(id) <==> ids@.contains(id) && !reached@.contains(id.0));
            }
        }
        r
    }

    /// The import cycles: the groups of two or more files that all reach each
    /// other, each once, in some order. An import of a file by itself is no
    /// edge, so that a single file is never a cycle.
    pub fn strongly_connected_components(&self, registry: &FileRegistry) -> (r: Vec<Vec<FileId>>)
        requires
            self.wf(),
            registry.wf(),
        ensures
            lists_cycles(
                self.graph(),
                Set::new(|id: u32| id < registry@.len()),
                r@.map_values(|c: Vec<FileId>| numbers(c@)),
            ),
    {
        let ghost g = self.graph();
        let ghost roots = Set::new(|id: u32| id < registry@.len());
        if id_map_is_empty(&self.edges_by_source) {
            let r: Vec<Vec<FileId>> = Vec::new();
            proof {
                assert forall|u: u32, x: u32| u != x implies !#[trigger] mutually_reachable(
                    g,
                    u,
                    x,
                ) by {
                    if mutually_reachable(g, u, x) {
                        let s = set![u];
                        assert forall|a: u32, b: u32|
                            s.contains(a) && #[trigger] has_edge(g, a, b) implies s.contains(b) by {
                            assert(adjacency(self.edges_by_source) == g);
                            assert(!self.edges_by_source@.contains_key(a));
                            assert(succ(g, a) =~= Seq::empty());
                        }
                        lemma_closed_under_reach(g, s, u, x);
                    }
                }
            }
            return r;
        }
        let ids = registry.all_ids();
        let keys = id_numbers(&ids);
        proof {
            registry.lemma_files_ok();
            assert forall|i: int| 0 <= i < keys@.len() implies #[trigger] keys@[i] < u32::MAX by {
                assert(ids@.contains(ids@[i]));
            }
            assert(keys@.to_set() =~= roots) by {
                assert forall|k: u32| keys@.contains(k) <==> k < registry@.len() by {
                    if keys@.contains(k) {
                        let i = choose|i: int| 0 <= i < keys@.len() && keys@[i] == k;
                        assert(ids@.contains(ids@[i]));
                    }
                    if k < registry@.len() {
                        assert(ids@.contains(FileId(k)));
                        let i = choose|i: int| 0 <= i < ids@.len() && ids@[i] == FileId(k);
                        assert(keys@[i] == k);
                    }
                }
            }
        }
        let found = cycles(&keys, &self.edges_by_source);
        let mut r: Vec<Vec<FileId>> = Vec::new();
        let mut i: usize = 0;
        while i < found.len()
            invariant
                i <= found@.len(),
                r@.len() == i,
                forall|j: int| 0 <= j < i ==> numbers(#[trigger] r@[j]@) == found@[j]@,
            decreases found@.len() - i,
        {
            let c = super::registry::file_ids(&found[i]);
            assert(numbers(c@) =~= found@[i as int]@);
            r.push(c);
            i += 1;
        }
        assert(r@.map_values(|c: Vec<FileId>| numbers(c@)) =~= lists(found@));
        r
    }
}

/// The numbers of a list of files.
fn id_numbers(ids: &Vec<FileId>) -> (r: Vec<u32>)
    ensures
        r@ == numbers(ids@),
{
    let mut r: Vec<u32> = Vec::new();
    let mut i: usize = 0;
    while i < ids.len()
        invariant
            i <= ids@.len(),
            r@ == numbers(ids@).take(i as int),
        decreases ids@.len() - i,
    {
        r.push(ids[i].0);
        i += 1;
        assert(r@ =~= numbers(ids@).take(i as int));
    }
    assert(r@ =~= numbers(ids@));
    r
}

/// The files whose numbers are not in the set.
fn keep_absent(ids: &Vec<FileId>, set: &FxHashSet<u32>) -> (r: Vec<FileId>)
    requires
        ids@.no_duplicates(),
    ensures
        r@.no_duplicates(),
        forall|id: FileId| r@.contains(id) <==> ids@.contains(id) && !set@.contains(id.0),
{
    let mut r: Vec<FileId> = Vec::new();
    let mut i: usize = 0;
    while i < ids.len()
        invariant
            i <= ids@.len(),
            ids@.no_duplicates(),
            r@.no_duplicates(),
            forall|id: FileId|
                r@.contains(id) <==> ids@.take(i as int).contains(id) && !set@.contains(id.0),
        decreases ids@.len() - i,
    {
        let id = ids[i];
        let ghost before = r@;
        let ghost head = ids@.take(i as int);
        if !id_set_contains(set, id.0) {
            r.push(id);
        }
        proof {
            assert(ids@.take(i + 1) =~= head.push(id));
            assert(!head.contains(id)) by {
                if head.contains(id) {
                    let j = choose|j: int| 0 <= j < head.len() && head[j] == id;
                    assert(ids@[j] == ids@[i as int]);
                }
            }
            assert(!before.contains(id));
            assert forall|x: FileId|
                r@.contains(x) <==> ids@.take(i + 1).contains(x) && !set@.contains(x.0) by {
                crate::types::lemma_contains_push(head, id, x);
                crate::types::lemma_contains_push(before, id, x);
            }
            assert(r@.no_duplicates()) by {
                if !set@.contains(id.0) {
                    assert forall|a: int, b: int| 0 <= a < b < r@.len() implies r@[a] != r@[b] by {
                        if b == before.len() {
                            assert(before[a] == r@[a]);
                            assert(before.contains(r@[a]));
                        }
                    }
                }
            }
        }
        i += 1;
    }
    assert(ids@.take(i as int) =~= ids@);
    r
}

/// No edge comes from an import that never runs, or leads from a file to itself.
pub proof fn edges_are_real_imports(
    r: &ModuleResolver<'_>,
    parsed: Map<u32, ParsedModule>,
    order: Seq<u32>,
    i: int,
)
    requires
        0 <= i < edges_in_order(r, parsed, order).len(),
    ensures
        !edges_in_order(r, parsed, order)[i].specifier.is_type_only,
        edges_in_order(r, parsed, order)[i].from != edges_in_order(r, parsed, order)[i].to,
    decreases order.len(),
{
    if order.len() > 0 {
        let before = edges_in_order(r, parsed, order.drop_last());
        let own = import_views(parsed[order.last()].imports@);
        if i < before.len() {
            edges_are_real_imports(r, parsed, order.drop_last(), i);
        } else {
            lemma_own_edges(r, order.last(), own, i - before.len());
        }
    }
}

proof fn lemma_own_edges(r: &ModuleResolver<'_>, from: u32, imports: Seq<ImportView>, i: int)
    requires
        0 <= i < edges_of(r, from, imports).len(),
    ensures
        !edges_of(r, from, imports)[i].specifier.is_type_only,
        edges_of(r, from, imports)[i].from == from,
        edges_of(r, from, imports)[i].to != from,
    decreases imports.len(),
{
    if imports.len() > 0 {
        let before = edges_of(r, from, imports.drop_last());
        if i < before.len() {
            lemma_own_edges(r, from, imports.drop_last(), i);
        }
    }
}

/// Every import that runs and that resolves to another file makes an edge, of
/// whatever kind the import is: for each parsed module and each of its imports that
/// is not type-only and resolves to a file other than the importing one, the graph
/// has an edge from the importing file to that file. Hence, if the importing file
/// is reached from an entry point, the imported file is live.
pub proof fn imports_make_edges(
    r: &ModuleResolver<'_>,
    parsed: Map<u32, ParsedModule>,
    order: Seq<u32>,
    entries: Set<u32>,
    files: Seq<FileView>,
    from: u32,
    k: int,
    to: FileId,
)
    requires
        lists_keys(order, parsed),
        parsed.contains_key(from),
        0 <= k < parsed[from].imports@.len(),
        !parsed[from].imports@[k].is_type_only,
        r.resolution(parsed[from].imports@[k]@, FileId(from)) == Some(to),
        to.0 != from,
    ensures
        exists|i: int|
            0 <= i < edges_in_order(r, parsed, order).len() && (#[trigger] edges_in_order(
                r,
                parsed,
                order,
            )[i]) == (EdgeView { from, to: to.0, specifier: parsed[from].imports@[k]@ }),
        has_edge(graph_of(edges_in_order(r, parsed, order)), from, to.0),
        reached_from(graph_of(edges_in_order(r, parsed, order)), entries, from) ==> is_live(
            graph_of(edges_in_order(r, parsed, order)),
            entries,
            files,
            r,
            to.0,
        ),
{
    let edges = edges_in_order(r, parsed, order);
    let g = graph_of(edges);
    let spec = parsed[from].imports@[k]@;
    assert(order.contains(from));
    lemma_import_has_edge(r, parsed, order, from, k, to);
    let i = choose|i: int|
        0 <= i < edges.len() && (#[trigger] edges[i]) == (EdgeView {
            from,
            to: to.0,
            specifier: spec,
        });
    assert(edges[i].from == from && edges[i].to == to.0);
    graph_has_the_edges(edges, from, to.0);
    lemma_reaches_edge(g, from, to.0);
    if reached_from(g, entries, from) {
        imports_of_reached_files_are_live(g, entries, files, r, from, to.0);
    }
}

proof fn lemma_import_has_edge(
    r: &ModuleResolver<'_>,
    parsed: Map<u32, ParsedModule>,
    order: Seq<u32>,
    from: u32,
    k: int,
    to: FileId,
)
    requires
        order.contains(from),
        0 <= k < parsed[from].imports@.len(),
        !parsed[from].imports@[k].is_type_only,
        r.resolution(parsed[from].imports@[k]@, FileId(from)) == Some(to),
        to.0 != from,
    ensures
        exists|i: int|
            0 <= i < edges_in_order(r, parsed, order).len() && (#[trigger] edges_in_order(
                r,
                parsed,
                order,
            )[i]) == (EdgeView { from, to: to.0, specifier: parsed[from].imports@[k]@ }),
    decreases order.len(),
{
    let e = EdgeView { from, to: to.0, specifier: parsed[from].imports@[k]@ };
    let all = edges_in_order(r, parsed, order);
    let before = edges_in_order(r, parsed, order.drop_last());
    if order.last() == from {
        let own = import_views(parsed[from].imports@);
        assert(own[k] == parsed[from].imports@[k]@);
        lemma_own_import_has_edge(r, from, own, k, to);
        let i = choose|i: int|
            0 <= i < edges_of(r, from, own).len() && (#[trigger] edges_of(r, from, own)[i]) == e;
        assert(all[before.len() + i] == e);
    } else {
        let j = choose|j: int| 0 <= j < order.len() && order[j] == from;
        assert(order.drop_last()[j] == from);
        lemma_import_has_edge(r, parsed, order.drop_last(), from, k, to);
        let i = choose|i: int| 0 <= i < before.len() && (#[trigger] before[i]) == e;
        assert(all[i] == e);
    }
}

proof fn lemma_own_import_has_edge(
    r: &ModuleResolver<'_>,
    from: u32,
    imports: Seq<ImportView>,
    k: int,
    to: FileId,
)
    requires
        0 <= k < imports.len(),
        !imports[k].is_type_only,
        r.resolution(imports[k], FileId(from)) == Some(to),
        to.0 != from,
    ensures
        exists|i: int|
            0 <= i < edges_of(r, from, imports).len() && (#[trigger] edges_of(r, from, imports)[i])
                == (EdgeView { from, to: to.0, specifier: imports[k] }),
    decreases imports.len(),
{
    let e = EdgeView { from, to: to.0, specifier: imports[k] };
    let all = edges_of(r, from, imports);
    let before = edges_of(r, from, imports.drop_last());
    if k == imports.len() - 1 {
        assert(all[before.len() as int] == e);
    } else {
        lemma_own_import_has_edge(r, from, imports.drop_last(), k, to);
        let i = choose|i: int| 0 <= i < before.len() && (#[trigger] before[i]) == e;
        assert(all[i] == e);
    }
}

/// An entry point is never among the files that are not kept alive.
pub proof fn entry_points_are_live(
    g: Adjacency,
    entries: Set<u32>,
    files: Seq<FileView>,
    r: &ModuleResolver<'_>,
    id: u32,
)
    requires
        entries.contains(id),
    ensures
        is_live(g, entries, files, r, id),
{
    lemma_reaches_refl(g, id);
}

/// What a reached file imports is kept alive, at any distance.
pub proof fn imports_of_reached_files_are_live(
    g: Adjacency,
    entries: Set<u32>,
    files: Seq<FileView>,
    r: &ModuleResolver<'_>,
    u: u32,
    v: u32,
)
    requires
        reached_from(g, entries, u),
        reaches(g, u, v),
    ensures
        is_live(g, entries, files, r, v),
{
    let e = choose|e: u32| #[trigger] entries.contains(e) && reaches(g, e, u);
    lemma_reaches_trans(g, e, u, v);
    assert(entries.contains(e) && reaches(g, e, v));
}

/// A reached file keeps the packages that hold it alive: if its dotted name goes on
/// behind the dotted name of a package, that package is live, unless another file
/// has the same dotted name.
pub proof fn packages_of_reached_files_are_live(
    g: Adjacency,
    entries: Set<u32>,
    r: &ModuleResolver<'_>,
    v: u32,
    package: u32,
    rest: Seq<char>,
)
    requires
        r.wf(),
        reached_from(g, entries, v),
        v < r.files().len(),
        package < r.files().len(),
        r.files()[package as int].dotted.len() > 0,
        r.files()[v as int].dotted == r.files()[package as int].dotted + seq!['.'] + rest,
        forall|i: int|
            0 <= i < r.files().len() && (#[trigger] r.files()[i]).dotted
                == r.files()[package as int].dotted ==> i == package,
    ensures
        is_live(g, entries, r.files(), r, package),
{
    let files = r.files();
    let d = files[v as int].dotted;
    let p = files[package as int].dotted;
    assert(d[p.len() as int] == '.');
    assert(d.take(p.len() as int) =~= p);
    r.lookup_finds_files(p);
    assert(is_parent(files, r, v, package));
}

/// Nothing else is live: a live file is reached from an entry point, or its dotted
/// name stands before a dot in the dotted name of a file that is.
pub proof fn live_files_are_reached_or_hold_one(
    g: Adjacency,
    entries: Set<u32>,
    r: &ModuleResolver<'_>,
    id: u32,
)
    requires
        r.wf(),
        is_live(g, entries, r.files(), r, id),
    ensures
        (exists|e: u32| #[trigger] entries.contains(e) && reaches(g, e, id)) || exists|v: u32|
            #![trigger reached_from(g, entries, v)]
            reached_from(g, entries, v) && v < r.files().len() && has_prefix(
                r.files()[v as int].dotted,
                r.files()[id as int].dotted + seq!['.'],
            ),
{
    let files = r.files();
    if !reached_from(g, entries, id) {
        let v = choose|v: u32|
            #![trigger reached_from(g, entries, v)]
            reached_from(g, entries, v) && is_parent(files, r, v, id);
        let d = files[v as int].dotted;
        let k = choose|k: int|
            0 <= k < d.len() && #[trigger] d[k] == '.' && r.lookup(d.take(k)) == Some(FileId(id));
        r.lookup_finds_files(d.take(k));
        let p = files[id as int].dotted;
        assert(p == d.take(k));
        assert(d.take(k + 1) =~= p + seq!['.']);
        assert(has_prefix(d, p + seq!['.']));
    }
}

/// Each edge comes from an import of the file that it starts at, and leads to the
/// file to which that import resolves.
pub proof fn edges_come_from_imports(
    r: &ModuleResolver<'_>,
    parsed: Map<u32, ParsedModule>,
    order: Seq<u32>,
    i: int,
)
    requires
        0 <= i < edges_in_order(r, parsed, order).len(),
    ensures
        order.contains(edges_in_order(r, parsed, order)[i].from),
        r.resolution(
            edges_in_order(r, parsed, order)[i].specifier,
            FileId(edges_in_order(r, parsed, order)[i].from),
        ) == Some(FileId(edges_in_order(r, parsed, order)[i].to)),
        exists|k: int|
            0 <= k < parsed[edges_in_order(r, parsed, order)[i].from].imports@.len()
                && (#[trigger] parsed[edges_in_order(r, parsed, order)[i].from].imports@[k])@
                == edges_in_order(r, parsed, order)[i].specifier,
    decreases order.len(),
{
    let all = edges_in_order(r, parsed, order);
    let before = edges_in_order(r, parsed, order.drop_last());
    if i < before.len() {
        assert(all[i] == before[i]);
        edges_come_from_imports(r, parsed, order.drop_last(), i);
        let j = choose|j: int|
            0 <= j < order.drop_last().len() && order.drop_last()[j] == all[i].from;
        assert(order[j] == all[i].from);
    } else {
        let from = order.last();
        let own = import_views(parsed[from].imports@);
        assert(order[order.len() - 1] == from);
        lemma_own_edges_come_from_imports(r, from, own, i - before.len());
        assert(all[i] == edges_of(r, from, own)[i - before.len()]);
        let k = choose|k: int| 0 <= k < own.len() && #[trigger] own[k] == all[i].specifier;
        assert(parsed[from].imports@[k]@ == own[k]);
    }
}

proof fn lemma_own_edges_come_from_imports(
    r: &ModuleResolver<'_>,
    from: u32,
    imports: Seq<ImportView>,
    i: int,
)
    requires
        0 <= i < edges_of(r, from, imports).len(),
    ensures
        edges_of(r, from, imports)[i].from == from,
        r.resolution(edges_of(r, from, imports)[i].specifier, FileId(from)) == Some(
            FileId(edges_of(r, from, imports)[i].to),
        ),
        exists|k: int|
            0 <= k < imports.len() && #[trigger] imports[k] == edges_of(r, from, imports)[i].specifier,
    decreases imports.len(),
{
    let before = edges_of(r, from, imports.drop_last());
    let all = edges_of(r, from, imports);
    if i < before.len() {
        assert(all[i] == before[i]);
        lemma_own_edges_come_from_imports(r, from, imports.drop_last(), i);
        let k = choose|k: int|
            0 <= k < imports.drop_last().len() && #[trigger] imports.drop_last()[k]
                == all[i].specifier;
        assert(imports[k] == all[i].specifier);
    } else {
        assert(imports[imports.len() - 1] == all[i].specifier);
    }
}

/// The files of a cycle all reach each other, and no file outside it reaches
/// one of them and is reached from one.
pub proof fn cycles_are_complete(
    g: Adjacency,
    roots: Set<u32>,
    out: Seq<Seq<u32>>,
    i: int,
    u: u32,
    v: u32,
)
    requires
        lists_cycles(g, roots, out),
        0 <= i < out.len(),
        out[i].contains(u),
    ensures
        out[i].contains(v) <==> reaches(g, u, v) && reaches(g, v, u),
{
    assert(is_component(g, out[i]));
}

/// A graph without edges back has no cycles to report.
pub proof fn acyclic_graphs_have_no_cycles(g: Adjacency, roots: Set<u32>, out: Seq<Seq<u32>>)
    requires
        lists_cycles(g, roots, out),
        forall|u: u32, v: u32| u != v ==> !#[trigger] mutually_reachable(g, u, v),
    ensures
        out.len() == 0,
{
    if out.len() > 0 {
        let c = out[0];
        assert(c.len() >= 2 && is_component(g, c));
        assert(c.contains(c[0]) && c.contains(c[1]));
        assert(mutually_reachable(g, c[0], c[1]));
        assert(c[0] != c[1]);
    }
}

/// Every cycle is reported: two files that reach each other stand together in one of
/// the cycles, if one of them is reached from a root. Two files that import each
/// other are enough.
pub proof fn every_cycle_is_reported(
    g: Adjacency,
    roots: Set<u32>,
    out: Seq<Seq<u32>>,
    u: u32,
    v: u32,
)
    requires
        lists_cycles(g, roots, out),
        roots.contains(u),
        u != v,
        (has_edge(g, u, v) && has_edge(g, v, u)) || (reaches(g, u, v) && reaches(g, v, u)),
    ensures
        exists|i: int| 0 <= i < out.len() && (#[trigger] out[i]).contains(u) && out[i].contains(v),
{
    if has_edge(g, u, v) && has_edge(g, v, u) {
        lemma_reaches_edge(g, u, v);
        lemma_reaches_edge(g, v, u);
    }
    lemma_reaches_refl(g, u);
    assert(roots.contains(u) && reaches(g, u, u));
    assert(mutually_reachable(g, u, v));
    let i = choose|i: int| 0 <= i < out.len() && (#[trigger] out[i]).contains(u);
    cycles_are_complete(g, roots, out, i, u, v);
    assert(out[i].contains(u) && out[i].contains(v));
}

/// No file makes a cycle by itself: for each file of a cycle there is another one in it
/// that it reaches and that reaches it.
pub proof fn cycles_have_two_files(
    g: Adjacency,
    roots: Set<u32>,
    out: Seq<Seq<u32>>,
    i: int,
    u: u32,
)
    requires
        lists_cycles(g, roots, out),
        0 <= i < out.len(),
        out[i].contains(u),
    ensures
        exists|v: u32| v != u && #[trigger] out[i].contains(v) && reaches(g, u, v) && reaches(g, v, u),
{
    let c = out[i];
    assert(c.len() >= 2 && is_component(g, c));
    let v = if c[0] != u {
        c[0]
    } else {
        c[1]
    };
    assert(c.contains(c[0]) && c.contains(c[1]));
    assert(c[0] != c[1]);
    assert(c.contains(v));
    cycles_are_complete(g, roots, out, i, u, v);
}

/// Every entry point is one that files are reached from, and there are no others.
pub proof fn entry_points_are_roots(v: Vec<EntryPoint>, g: Adjacency, id: u32)
    ensures
        entry_ids(v@).contains(id) <==> exists|i: int|
            0 <= i < v@.len() && (#[trigger] v@[i]).file == FileId(id),
        entry_ids(v@).contains(id) ==> reached_from(g, entry_ids(v@), id),
{
    if entry_ids(v@).contains(id) {
        let i = choose|i: int| 0 <= i < v@.len() && (#[trigger] v@[i]).file.0 == id;
        assert(v@[i].file == FileId(id));
        lemma_reaches_refl(g, id);
    }
    if exists|i: int| 0 <= i < v@.len() && (#[trigger] v@[i]).file == FileId(id) {
        let i = choose|i: int| 0 <= i < v@.len() && (#[trigger] v@[i]).file == FileId(id);
        assert(v@[i].file.0 == id);
    }
}

} // verus!
