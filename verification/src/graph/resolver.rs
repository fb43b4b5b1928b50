//! How imports resolve to registered files.
use super::registry::{FileRegistry, FileView};
use crate::collections::{name_map_contents, name_map_get, name_map_insert, name_map_new};
use crate::text::{join, join_with, lemma_split_join, split, split_on, views};
use crate::types::{FileId, ImportKind, ImportSpecifier, ImportView, ModuleKind};
use rustc_hash::FxHashMap;
use vstd::prelude::*;

verus! {

/// The segments of a dotted name, without empty ones.
pub open spec fn segments_of(dotted: Seq<char>) -> Seq<Seq<char>> {
    split_on(dotted, '.').filter(|s: Seq<char>| s.len() > 0)
}

/// The segments of the package that a module belongs to. A package belongs to
/// itself; a module without a name belongs to none.
pub open spec fn package_of(dotted: Seq<char>, kind: ModuleKind) -> Option<Seq<Seq<char>>> {
    let segments = segments_of(dotted);
    match kind {
        ModuleKind::Module => if segments.len() == 0 {
            None
        } else {
            Some(segments.drop_last())
        },
        _ => Some(segments),
    }
}

/// The package that `level` leading dots stand for: one for the module's own
/// package, each further one for the package above.
pub open spec fn base_of(dotted: Seq<char>, kind: ModuleKind, level: u32) -> Option<Seq<char>> {
    let up = if level == 0 {
        0int
    } else {
        level - 1
    };
    match package_of(dotted, kind) {
        Some(p) => if up > p.len() {
            None
        } else {
            Some(join(p.take(p.len() - up), "."@))
        },
        None => None,
    }
}

/// A name below a package.
pub open spec fn below_base(base: Seq<char>, raw: Seq<char>) -> Seq<char> {
    if raw.len() == 0 {
        base
    } else if base.len() == 0 {
        raw
    } else {
        base + "."@ + raw
    }
}

/// Whether one of the files has the dotted name.
pub open spec fn has_dotted(files: Seq<FileView>, d: Seq<char>) -> bool {
    exists|i: int| 0 <= i < files.len() && (#[trigger] files[i]).dotted == d
}

/// Finds files by their dotted names.
pub struct ModuleResolver<'a> {
    registry: &'a FileRegistry,
    by_dotted: FxHashMap<String, u32>,
}

impl<'a> ModuleResolver<'a> {
    /// The files that imports can resolve to.
    pub closed spec fn files(&self) -> Seq<FileView> {
        self.registry@
    }

    /// The file that a dotted name stands for.
    pub closed spec fn lookup(&self, d: Seq<char>) -> Option<FileId> {
        if name_map_contents(self.by_dotted).contains_key(d) {
            Some(FileId(name_map_contents(self.by_dotted)[d]))
        } else {
            None
        }
    }

    /// A dotted name that is not empty stands for a file exactly if some file
    /// has it, and then for a file that does. Which of several, is left open.
    pub closed spec fn wf(&self) -> bool {
        &&& self.registry.wf()
        &&& forall|d: Seq<char>| #[trigger]
            name_map_contents(self.by_dotted).contains_key(d) <==> d.len() > 0 && has_dotted(
                self.registry@,
                d,
            )
        &&& forall|d: Seq<char>| #[trigger]
            name_map_contents(self.by_dotted).contains_key(d) ==> name_map_contents(
                self.by_dotted,
            )[d] < self.registry@.len() && self.registry@[name_map_contents(
                self.by_dotted,
            )[d] as int].dotted == d
    }

    /// What a lookup says of the files.
    pub proof fn lookup_finds_files(&self, d: Seq<char>)
        requires
            self.wf(),
        ensures
            self.lookup(d) is Some <==> d.len() > 0 && has_dotted(self.files(), d),
            self.lookup(d) matches Some(id) ==> id.0 < self.files().len() && self.files()[id.0 as int].dotted
                == d,
            self.files().len() <= u32::MAX,
    {
        self.registry.lemma_files_ok();
    }

    /// The file that an import in the file `from` resolves to.
    pub open spec fn resolution(&self, spec: ImportView, from: FileId) -> Option<FileId> {
        match spec.kind {
            ImportKind::Absolute => self.lookup(spec.raw),
            ImportKind::DynamicLiteral => self.lookup(spec.raw),
            ImportKind::DynamicOpaque => None,
            ImportKind::Relative { level } => if from.0 >= self.files().len() {
                None
            } else {
                let f = self.files()[from.0 as int];
                match base_of(f.dotted, f.kind, level) {
                    Some(base) => self.lookup(below_base(base, spec.raw)),
                    None => None,
                }
            },
        }
    }

    /// Imports resolve to registered files only.
    pub proof fn lemma_resolution_range(&self, spec: ImportView, from: FileId)
        requires
            self.wf(),
        ensures
            self.resolution(spec, from) matches Some(id) ==> id.0 < self.files().len(),
            self.files().len() <= u32::MAX,
    {
        self.registry.lemma_files_ok();
    }

    /// A resolver for the files of a registry.
    pub fn build(registry: &'a FileRegistry) -> (r: Self)
        requires
            registry.wf(),
        ensures
            r.wf(),
            r.files() == registry@,
    {
        let mut by_dotted = name_map_new();
        let ids = registry.all_ids();
        let ghost files = registry@;
        proof {
            registry.lemma_files_ok();
        }
        let mut i: usize = 0;
        while i < ids.len()
            invariant
                i <= ids@.len(),
                registry.wf(),
                files == registry@,
                forall|id: FileId| ids@.contains(id) <==> id.0 < files.len(),
                forall|d: Seq<char>| #[trigger]
                    name_map_contents(by_dotted).contains_key(d) <==> d.len() > 0 && exists|j: int|
                        0 <= j < i && files[(#[trigger] ids@[j]).0 as int].dotted == d,
                forall|d: Seq<char>| #[trigger]
                    name_map_contents(by_dotted).contains_key(d) ==> name_map_contents(by_dotted)[d]
                        < files.len() && files[name_map_contents(by_dotted)[d] as int].dotted == d,
            decreases ids@.len() - i,
        {
            let id = ids[i];
            let ghost before = name_map_contents(by_dotted);
            assert(ids@.contains(id));
            if let Some(d) = registry.dotted_of(id) {
                if !d.is_empty() {
                    name_map_insert(&mut by_dotted, d.to_owned(), id.0);
                }
                proof {
                    let after = name_map_contents(by_dotted);
                    let own = files[id.0 as int].dotted;
                    assert forall|d: Seq<char>| #[trigger]
                        after.contains_key(d) <==> d.len() > 0 && exists|j: int|
                            0 <= j < i + 1 && files[(#[trigger] ids@[j]).0 as int].dotted == d by {
                        if after.contains_key(d) {
                            if d == own {
                                assert(files[ids@[i as int].0 as int].dotted == d);
                            } else {
                                assert(before.contains_key(d));
                                let j = choose|j: int|
                                    0 <= j < i && files[(#[trigger] ids@[j]).0 as int].dotted == d;
                                assert(files[ids@[j].0 as int].dotted == d);
                            }
                        }
                        if d.len() > 0 && exists|j: int|
                            0 <= j < i + 1 && files[(#[trigger] ids@[j]).0 as int].dotted == d {
                            let j = choose|j: int|
                                0 <= j < i + 1 && files[(#[trigger] ids@[j]).0 as int].dotted == d;
                            if j < i {
                                assert(before.contains_key(d));
                            }
                        }
                    }
                }
            }
            i += 1;
        }
        let r = ModuleResolver { registry, by_dotted };
        proof {
            assert forall|d: Seq<char>| #[trigger]
                name_map_contents(by_dotted).contains_key(d) <==> d.len() > 0 && has_dotted(
                    files,
                    d,
                ) by {
                if name_map_contents(by_dotted).contains_key(d) {
                    assert(files[name_map_contents(by_dotted)[d] as int].dotted == d);
                }
                if d.len() > 0 && has_dotted(files, d) {
                    let k = choose|k: int| 0 <= k < files.len() && (#[trigger] files[k]).dotted
                        == d;
                    assert(ids@.contains(FileId(k as u32)));
                    let j = choose|j: int| 0 <= j < ids@.len() && ids@[j] == FileId(k as u32);
                    assert(files[ids@[j].0 as int].dotted == d);
                }
            }
        }
        r
    }

    /// The file that an import in the file `from` resolves to.
    pub fn resolve(&self, spec: &ImportSpecifier, from: FileId) -> (r: Option<FileId>)
        requires
            self.wf(),
        ensures
            r == self.resolution(spec@, from),
    {
        match spec.kind {
            ImportKind::Absolute => self.resolve_dotted(spec.raw.as_str()),
            ImportKind::Relative { level } => {
                let dotted = match self.registry.dotted_of(from) {
                    Some(d) => d,
                    None => return None,
                };
                let kind = match self.registry.get(from) {
                    Some(n) => n.kind,
                    None => return None,
                };
                let base = match relative_base(dotted, kind, level) {
                    Some(b) => b,
                    None => return None,
                };
                if spec.raw.as_str().is_empty() {
                    return self.resolve_dotted(base.as_str());
                }
                if base.as_str().is_empty() {
                    return self.resolve_dotted(spec.raw.as_str());
                }
                let mut candidate = base;
                candidate.append(".");
                candidate.append(spec.raw.as_str());
                self.resolve_dotted(candidate.as_str())
            },
            ImportKind::DynamicLiteral => self.resolve_dotted(spec.raw.as_str()),
            ImportKind::DynamicOpaque => None,
        }
    }

    /// The file that a dotted name stands for.
    pub fn resolve_dotted(&self, dotted: &str) -> (r: Option<FileId>)
        ensures
            r == self.lookup(dotted@),
    {
        match name_map_get(&self.by_dotted, dotted) {
            Some(id) => Some(FileId(id)),
            None => None,
        }
    }
}

/// A dotted name is the list of its segments: taking apart what was joined with
/// dots gives the segments back.
pub proof fn segments_can_be_joined(segments: Seq<Seq<char>>)
    requires
        forall|i: int|
            0 <= i < segments.len() ==> (#[trigger] segments[i]).len() > 0 && !segments[i].contains(
                '.',
            ),
    ensures
        segments_of(join(segments, "."@)) == segments,
{
    let f = |s: Seq<char>| s.len() > 0;
    reveal_strlit(".");
    assert("."@ =~= seq!['.']);
    if segments.len() == 0 {
        let parts = split_on(Seq::<char>::empty(), '.');
        assert(parts =~= seq![Seq::<char>::empty()]);
        assert(parts.drop_last() =~= Seq::empty());
        reveal(Seq::filter);
        assert(parts.drop_last().filter(f) =~= Seq::empty());
        assert(parts.filter(f) =~= Seq::empty());
        assert(segments =~= Seq::empty());
    } else {
        lemma_split_join(segments, '.');
        lemma_filter_keeps_all(segments);
    }
}

proof fn lemma_filter_keeps_all(v: Seq<Seq<char>>)
    requires
        forall|i: int| 0 <= i < v.len() ==> (#[trigger] v[i]).len() > 0,
    ensures
        v.filter(|s: Seq<char>| s.len() > 0) == v,
    decreases v.len(),
{
    reveal(Seq::filter);
    if v.len() > 0 {
        let rest = v.drop_last();
        assert forall|i: int| 0 <= i < rest.len() implies (#[trigger] rest[i]).len() > 0 by {
            assert(rest[i] == v[i]);
        }
        lemma_filter_keeps_all(rest);
        assert(v[v.len() - 1].len() > 0);
        assert(rest.push(v.last()) =~= v);
    } else {
        assert(v.filter(|s: Seq<char>| s.len() > 0) =~= v);
    }
}

/// An absolute import, and a dynamic one whose name is written out, resolves if and
/// only if a file has its dotted name, and to such a file, whatever file it stands
/// in.
pub proof fn absolute_imports_find_their_module(
    r: &ModuleResolver<'_>,
    spec: ImportView,
    from: FileId,
)
    requires
        r.wf(),
        spec.kind == ImportKind::Absolute || spec.kind == ImportKind::DynamicLiteral,
    ensures
        r.resolution(spec, from) is Some <==> spec.raw.len() > 0 && exists|i: int|
            0 <= i < r.files().len() && (#[trigger] r.files()[i]).dotted == spec.raw,
        r.resolution(spec, from) matches Some(id) ==> r.files()[id.0 as int].dotted == spec.raw,
{
    r.lookup_finds_files(spec.raw);
}

/// A relative import starts at the package that the importing file belongs to, one
/// package up for each dot but the first: in a module `name` of `package`, or in
/// the package itself, it resolves if and only if a file has the dotted name made
/// of the segments of the package that are left and of what is imported, and to such
/// a file. With more dots than there are packages it resolves to nothing.
pub proof fn relative_imports_start_at_the_package(
    r: &ModuleResolver<'_>,
    spec: ImportView,
    from: FileId,
    package: Seq<Seq<char>>,
    name: Seq<char>,
    level: u32,
)
    requires
        r.wf(),
        from.0 < r.files().len(),
        spec.kind == (ImportKind::Relative { level }),
        forall|i: int|
            0 <= i < package.len() ==> (#[trigger] package[i]).len() > 0 && !package[i].contains('.'),
        name.len() > 0,
        !name.contains('.'),
        r.files()[from.0 as int].dotted == join(
            if r.files()[from.0 as int].kind == ModuleKind::Module {
                package.push(name)
            } else {
                package
            },
            "."@,
        ),
    ensures
        level > package.len() + 1 ==> r.resolution(spec, from) is None,
        level <= package.len() + 1 ==> {
            let kept = package.take(
                package.len() - (if level == 0 {
                    0int
                } else {
                    level - 1
                }),
            );
            let target = join(
                if spec.raw.len() == 0 {
                    kept
                } else {
                    kept.push(spec.raw)
                },
                "."@,
            );
            &&& r.resolution(spec, from) is Some <==> target.len() > 0 && exists|i: int|
                0 <= i < r.files().len() && (#[trigger] r.files()[i]).dotted == target
            &&& r.resolution(spec, from) matches Some(id) ==> r.files()[id.0 as int].dotted
                == target
        },
{
    let f = r.files()[from.0 as int];
    let all = if f.kind == ModuleKind::Module {
        package.push(name)
    } else {
        package
    };
    assert forall|i: int| 0 <= i < all.len() implies (#[trigger] all[i]).len() > 0
        && !all[i].contains('.') by {
        if i < package.len() {
            assert(all[i] == package[i]);
        }
    }
    segments_can_be_joined(all);
    assert(package.push(name).drop_last() =~= package);
    assert(package_of(f.dotted, f.kind) == Some(package));
    if level <= package.len() + 1 {
        let up = if level == 0 {
            0int
        } else {
            level - 1
        };
        let kept = package.take(package.len() - up);
        let base = join(kept, "."@);
        let target = join(
            if spec.raw.len() == 0 {
                kept
            } else {
                kept.push(spec.raw)
            },
            "."@,
        );
        reveal_strlit(".");
        assert(base_of(f.dotted, f.kind, level) == Some(base));
        assert(kept.push(spec.raw).drop_last() =~= kept);
        assert(target == below_base(base, spec.raw)) by {
            if kept.len() == 0 {
                assert(base.len() == 0);
            } else if kept.len() == 1 {
                assert(kept[0] == package[0]);
                assert(base.len() > 0);
            } else {
                assert(base.len() > 0);
            }
        }
        r.lookup_finds_files(target);
    }
}

/// A dynamic import whose name is computed resolves to nothing.
pub proof fn computed_imports_resolve_to_nothing(
    r: &ModuleResolver<'_>,
    spec: ImportView,
    from: FileId,
)
    requires
        spec.kind == ImportKind::DynamicOpaque,
    ensures
        r.resolution(spec, from) is None,
{
}

fn dotted_segments(dotted: &str) -> (r: Vec<String>)
    ensures
        views(r@) == segments_of(dotted@),
{
    let all = split(dotted, '.');
    let ghost raw = views(all@);
    let ghost f = |s: Seq<char>| s.len() > 0;
    let mut r: Vec<String> = Vec::new();
    let mut i: usize = 0;
    assert(raw.take(0).filter(f) =~= Seq::empty()) by {
        reveal(Seq::filter);
    }
    while i < all.len()
        invariant
            i <= all@.len(),
            raw == views(all@),
            f == (|s: Seq<char>| s.len() > 0),
            views(r@) == raw.take(i as int).filter(f),
        decreases all@.len() - i,
    {
        let s = all[i].as_str();
        proof {
            assert(raw[i as int] == s@);
            assert(raw.take(i + 1).drop_last() =~= raw.take(i as int));
            assert(raw.take(i + 1).last() == s@);
            reveal(Seq::filter);
        }
        if !s.is_empty() {
            let ghost was = views(r@);
            r.push(all[i].clone());
            assert(views(r@) =~= was.push(s@));
        }
        i += 1;
    }
    assert(raw.take(i as int) =~= raw);
    r
}

fn relative_base(from_dotted: &str, from_kind: ModuleKind, level: u32) -> (r: Option<String>)
    ensures
        match r {
            Some(b) => base_of(from_dotted@, from_kind, level) == Some(b@),
            None => base_of(from_dotted@, from_kind, level) is None,
        },
{
    let mut package = dotted_segments(from_dotted);
    let ghost segments = views(package@);
    match from_kind {
        ModuleKind::Module => {
            if package.len() == 0 {
                return None;
            }
            let _ = package.pop();
            assert(views(package@) =~= segments.drop_last());
        },
        _ => {},
    }
    let ghost p = views(package@);
    let up: usize = if level == 0 {
        0
    } else {
        (level - 1) as usize
    };
    if up > package.len() {
        return None;
    }
    package.truncate(package.len() - up);
    assert(views(package@) =~= p.take(p.len() - up));
    Some(join_with(&package, "."))
}

} // verus!
