//! The files of a project, each with its number and its dotted module name.
use crate::collections::{
    id_map_get, id_map_insert, id_map_keys, id_map_new, name_map_contents, name_map_get,
    name_map_insert, name_map_new,
};
use crate::path::{plain_texts_tell_paths_apart, FilePath, PathView};
use crate::types::{FileId, ModuleKind, ModuleNode};
use rustc_hash::FxHashMap;
use vstd::prelude::*;

verus! {

/// Why a file has no place in the import graph.
#[derive(Debug)]
pub enum GraphError {
    PathOutsideRoots(FilePath),
}

impl GraphError {
    pub open spec fn words(self) -> Seq<char> {
        match self {
            GraphError::PathOutsideRoots(path) => "file path is not under any package root: "@
                + path@.text(),
        }
    }

    /// The error in words.
    pub fn describe(&self) -> (r: String)
        ensures
            r@ == self.words(),
    {
        match self {
            GraphError::PathOutsideRoots(path) => {
                let mut r = "file path is not under any package root: ".to_owned();
                r.append(path.text().as_str());
                r
            },
        }
    }
}

/// What is known of a registered file.
#[verifier::ext_equal]
pub struct FileView {
    pub path: PathView,
    pub dotted: Seq<char>,
    pub kind: ModuleKind,
}

/// The kind of module that a path stands for.
pub open spec fn kind_of(path: PathView) -> ModuleKind {
    if path.is_named("__init__.py"@) {
        ModuleKind::PackageInit
    } else {
        ModuleKind::Module
    }
}

/// Registered files, numbered in the order in which they came.
#[derive(Debug)]
pub struct FileRegistry {
    next_id: u32,
    by_path: FxHashMap<String, u32>,
    nodes: FxHashMap<u32, ModuleNode>,
    dotted: FxHashMap<u32, String>,
}

impl View for FileRegistry {
    type V = Seq<FileView>;

    closed spec fn view(&self) -> Seq<FileView> {
        Seq::new(
            self.next_id as nat,
            |i: int|
                FileView {
                    path: self.nodes@[i as u32].path@,
                    dotted: self.dotted@[i as u32]@,
                    kind: self.nodes@[i as u32].kind,
                },
        )
    }
}

/// Whether one of the files has the path.
pub open spec fn has_path(files: Seq<FileView>, path: PathView) -> bool {
    exists|i: int| 0 <= i < files.len() && (#[trigger] files[i]).path.same(path)
}

/// What holds of the files of a registry: each path is well formed and there
/// once, and gives the kind of the file.
pub open spec fn files_ok(files: Seq<FileView>) -> bool {
    &&& files.len() <= u32::MAX
    &&& forall|i: int|
        0 <= i < files.len() ==> (#[trigger] files[i]).path.wf() && files[i].kind == kind_of(
            files[i].path,
        )
    &&& forall|i: int, j: int|
        0 <= i < files.len() && 0 <= j < files.len() && (#[trigger] files[i]).path.same(
            (#[trigger] files[j]).path,
        ) ==> i == j
}

impl FileRegistry {
    /// The registry is in order.
    pub closed spec fn wf(&self) -> bool {
        &&& files_ok(self@)
        &&& forall|k: u32| #[trigger] self.nodes@.contains_key(k) <==> k < self.next_id
        &&& forall|k: u32| #[trigger] self.dotted@.contains_key(k) <==> k < self.next_id
        &&& forall|k: u32| k < self.next_id ==> (#[trigger] self.nodes@[k]).id == FileId(k)
        &&& forall|t: Seq<char>| #[trigger]
            name_map_contents(self.by_path).contains_key(t) ==> name_map_contents(self.by_path)[t]
                < self.next_id && self@[name_map_contents(self.by_path)[t] as int].path.plain() == t
        &&& forall|i: int|
            0 <= i < self.next_id ==> name_map_contents(self.by_path).contains_key(
                (#[trigger] self@[i]).path.plain(),
            ) && name_map_contents(self.by_path)[self@[i].path.plain()] == i
    }

    /// The files of a registry in order are in order.
    pub proof fn lemma_files_ok(&self)
        requires
            self.wf(),
        ensures
            files_ok(self@),
    {
    }

    /// Registers a file, unless its path is registered already, and gives its
    /// number.
    pub fn register(&mut self, path: FilePath, dotted_module: String) -> (id: FileId)
        requires
            old(self).wf(),
            path@.wf(),
            old(self)@.len() < u32::MAX || has_path(old(self)@, path@),
        ensures
            final(self).wf(),
            id.0 < final(self)@.len(),
            final(self)@[id.0 as int].path.same(path@),
            has_path(old(self)@, path@) ==> final(self)@ == old(self)@,
            !has_path(old(self)@, path@) ==> final(self)@ == old(self)@.push(
                FileView { path: path@, dotted: dotted_module@, kind: kind_of(path@) },
            ) && id.0 == old(self)@.len(),
    {
        let text = path.plain();
        if let Some(id) = name_map_get(&self.by_path, text.as_str()) {
            proof {
                plain_texts_tell_paths_apart(self@[id as int].path, path@);
                assert(self@[id as int].path.same(path@));
            }
            return FileId(id);
        }
        proof {
            assert(!has_path(self@, path@)) by {
                if has_path(self@, path@) {
                    let i = choose|i: int| 0 <= i < self@.len() && (#[trigger] self@[i]).path.same(
                        path@,
                    );
                    plain_texts_tell_paths_apart(self@[i].path, path@);
                    assert(name_map_contents(self.by_path).contains_key(self@[i].path.plain()));
                }
            }
        }
        let id: u32 = self.next_id;
        let kind = if path.is_named("__init__.py") {
            ModuleKind::PackageInit
        } else {
            ModuleKind::Module
        };
        let ghost p = path@;
        let ghost d = dotted_module@;
        self.next_id = id + 1;
        id_map_insert(&mut self.nodes, id, ModuleNode { id: FileId(id), path, kind });
        id_map_insert(&mut self.dotted, id, dotted_module);
        name_map_insert(&mut self.by_path, text, id);
        proof {
            let was = old(self)@;
            let now = self@;
            assert(now =~= was.push(FileView { path: p, dotted: d, kind: kind_of(p) })) by {
                assert forall|i: int| 0 <= i < was.len() implies now[i] == was[i] by {
                    assert(i as u32 != id);
                }
            }
            let m0 = name_map_contents(old(self).by_path);
            let m = name_map_contents(self.by_path);
            assert(m == m0.insert(p.plain(), id));
            assert forall|t: Seq<char>| #[trigger] m.contains_key(t) implies m[t] < self.next_id
                && now[m[t] as int].path.plain() == t by {
                if t != p.plain() {
                    assert(m0.contains_key(t));
                }
            }
            assert forall|i: int| 0 <= i < self.next_id implies m.contains_key(
                (#[trigger] now[i]).path.plain(),
            ) && m[now[i].path.plain()] == i by {
                if i < was.len() {
                    assert(now[i] == was[i]);
                    assert(was[i].path.plain() != p.plain()) by {
                        if was[i].path.plain() == p.plain() {
                            plain_texts_tell_paths_apart(was[i].path, p);
                        }
                    }
                }
            }
            assert forall|i: int, j: int|
                0 <= i < now.len() && 0 <= j < now.len() && (#[trigger] now[i]).path.same(
                    (#[trigger] now[j]).path,
                ) implies i == j by {
                if i < was.len() && j < was.len() {
                    assert(was[i].path.same(was[j].path));
                } else if i < was.len() {
                    assert(was[i].path.same(p));
                } else if j < was.len() {
                    assert(was[j].path.same(p));
                }
            }
        }
        FileId(id)
    }

    /// The file with a number, if there is one.
    pub fn get(&self, id: FileId) -> (r: Option<&ModuleNode>)
        requires
            self.wf(),
        ensures
            match r {
                Some(n) => id.0 < self@.len() && n.id == id && n.path@ == self@[id.0 as int].path
                    && n.kind == self@[id.0 as int].kind,
                None => id.0 >= self@.len(),
            },
    {
        id_map_get(&self.nodes, id.0)
    }

    /// The dotted name of the file with a number, if there is one.
    pub fn dotted_of(&self, id: FileId) -> (r: Option<&str>)
        requires
            self.wf(),
        ensures
            match r {
                Some(d) => id.0 < self@.len() && d@ == self@[id.0 as int].dotted,
                None => id.0 >= self@.len(),
            },
    {
        match id_map_get(&self.dotted, id.0) {
            Some(d) => Some(d.as_str()),
            None => None,
        }
    }

    /// The number of the file with a path, if there is one.
    pub fn id_for(&self, path: &FilePath) -> (r: Option<FileId>)
        requires
            self.wf(),
            path@.wf(),
        ensures
            match r {
                Some(id) => id.0 < self@.len() && self@[id.0 as int].path.same(path@),
                None => !has_path(self@, path@),
            },
    {
        let text = path.plain();
        match name_map_get(&self.by_path, text.as_str()) {
            Some(id) => {
                proof {
                    plain_texts_tell_paths_apart(self@[id as int].path, path@);
                }
                Some(FileId(id))
            },
            None => {
                proof {
                    if has_path(self@, path@) {
                        let i = choose|i: int| 0 <= i < self@.len() && (#[trigger] self@[i]).path.same(
                            path@,
                        );
                        plain_texts_tell_paths_apart(self@[i].path, path@);
                        assert(name_map_contents(self.by_path).contains_key(self@[i].path.plain()));
                    }
                }
                None
            },
        }
    }

    /// The numbers of all files, each once, in some order.
    pub fn all_ids(&self) -> (ids: Vec<FileId>)
        requires
            self.wf(),
        ensures
            ids@.no_duplicates(),
            forall|id: FileId| ids@.contains(id) <==> id.0 < self@.len(),
    {
        let keys = id_map_keys(&self.nodes);
        let ids = file_ids(&keys);
        proof {
            assert forall|i: int, j: int| 0 <= i < j < ids@.len() implies ids@[i] != ids@[j] by {
                assert(keys@[i] != keys@[j]);
            }
            assert forall|id: FileId| ids@.contains(id) <==> id.0 < self@.len() by {
                if ids@.contains(id) {
                    let i = choose|i: int| 0 <= i < ids@.len() && ids@[i] == id;
                    assert(keys@.contains(keys@[i]));
                }
                if id.0 < self@.len() {
                    assert(keys@.contains(id.0));
                    let i = choose|i: int| 0 <= i < keys@.len() && keys@[i] == id.0;
                    assert(ids@[i] == id);
                }
            }
        }
        ids
    }

    /// How many files there are.
    pub fn len(&self) -> (n: usize)
        requires
            self.wf(),
        ensures
            n == self@.len(),
    {
        self.next_id as usize
    }

    /// Whether there are no files.
    pub fn is_empty(&self) -> (r: bool)
        requires
            self.wf(),
        ensures
            r == (self@.len() == 0),
    {
        self.next_id == 0
    }
}

impl Default for FileRegistry {
    /// A registry without files.
    fn default() -> (r: FileRegistry)
        ensures
            r.wf(),
            r@.len() == 0,
    {
        FileRegistry {
            next_id: 0,
            by_path: name_map_new(),
            nodes: id_map_new(),
            dotted: id_map_new(),
        }
    }
}

/// Numbers as file ids.
pub fn file_ids(keys: &Vec<u32>) -> (ids: Vec<FileId>)
    ensures
        ids@ == keys@.map_values(|k: u32| FileId(k)),
{
    let mut ids: Vec<FileId> = Vec::new();
    let mut i: usize = 0;
    while i < keys.len()
        invariant
            i <= keys@.len(),
            ids@ == keys@.map_values(|k: u32| FileId(k)).take(i as int),
        decreases keys@.len() - i,
    {
        ids.push(FileId(keys[i]));
        i += 1;
        assert(ids@ =~= keys@.map_values(|k: u32| FileId(k)).take(i as int));
    }
    assert(ids@ =~= keys@.map_values(|k: u32| FileId(k)));
    ids
}

/// A registry never holds a path twice.
pub proof fn registered_paths_are_unique(files: Seq<FileView>, i: int, j: int)
    requires
        files_ok(files),
        0 <= i < files.len(),
        0 <= j < files.len(),
        i != j,
    ensures
        !files[i].path.same(files[j].path),
{
}

/// A registered file is a package if and only if it is called `__init__.py`, and else
/// a module.
pub proof fn packages_are_called_init(files: Seq<FileView>, i: int)
    requires
        files_ok(files),
        0 <= i < files.len(),
        files[i].path.parts.len() > 0,
    ensures
        files[i].kind == ModuleKind::PackageInit <==> files[i].path.parts.last() == "__init__.py"@,
        files[i].kind == ModuleKind::Module || files[i].kind == ModuleKind::PackageInit,
{
    reveal_strlit("__init__.py");
    assert("__init__.py"@.len() == 11);
}

} // verus!
