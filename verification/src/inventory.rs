//! Listing what a project consists of.
use crate::order::{
    comes_before, text_le, text_order_is_antisymmetric, text_order_is_total,
    text_order_is_transitive,
};
use crate::path::{dot, dot_dot, FilePath, PathView};
use crate::report::grid::{draw, grid_text, row_view, row_views};
use crate::report::Format;
use crate::text::{decimal, decimal_text, join, join_with, same, views};
use crate::types::{EntryPointSource, Inventory, InventoryEntryPoint, InventoryFile, ModuleKind};
use vstd::prelude::*;

verus! {

/// What is listed.
#[derive(Debug, Clone, Copy, PartialEq, Eq, Structural)]
pub enum What {
    All,
    EntryPoints,
    Files,
    Plugins,
}

/// Why an inventory is not written in a format: SARIF is about findings, and
/// for Markdown there is no form.
pub open spec fn refusal_of(format: Format) -> Option<Seq<char>> {
    match format {
        Format::Sarif => Some(
            "`pyllow list --format sarif` is not supported (SARIF is for issue results, not inventories); use --format human or json"@,
        ),
        Format::Markdown => Some(
            "`pyllow list --format markdown` is not implemented yet; use --format human or json"@,
        ),
        _ => None,
    }
}

/// Why an inventory is not written in a format, if it is not.
pub fn refusal(format: Format) -> (r: Option<&'static str>)
    ensures
        match r {
            Some(s) => refusal_of(format) == Some(s@),
            None => refusal_of(format) is None,
        },
{
    match format {
        Format::Sarif => Some(
            "`pyllow list --format sarif` is not supported (SARIF is for issue results, not inventories); use --format human or json",
        ),
        Format::Markdown => Some(
            "`pyllow list --format markdown` is not implemented yet; use --format human or json",
        ),
        _ => None,
    }
}

/// Where an entry point comes from, in a word.
pub open spec fn source_text(source: EntryPointSource) -> Seq<char> {
    match source {
        EntryPointSource::Config => "config"@,
        EntryPointSource::Plugin(name) => "plugin:"@ + name@,
        EntryPointSource::ScriptEntryPoint => "script"@,
        EntryPointSource::ModuleGetattr => "module-getattr"@,
        EntryPointSource::PyprojectEntryPoint(group) => "pyproject:"@ + group@,
        EntryPointSource::LibraryPublicApi => "library-public-api"@,
    }
}

/// Where an entry point comes from, in a word.
pub fn source_label(source: &EntryPointSource) -> (r: String)
    ensures
        r@ == source_text(*source),
{
    match source {
        EntryPointSource::Config => "config".to_owned(),
        EntryPointSource::Plugin(name) => {
            let mut r = "plugin:".to_owned();
            r.append(name.as_str());
            r
        },
        EntryPointSource::ScriptEntryPoint => "script".to_owned(),
        EntryPointSource::ModuleGetattr => "module-getattr".to_owned(),
        EntryPointSource::PyprojectEntryPoint(group) => {
            let mut r = "pyproject:".to_owned();
            r.append(group.as_str());
            r
        },
        EntryPointSource::LibraryPublicApi => "library-public-api".to_owned(),
    }
}

/// Where a kind of component stands: this directory before its parent before
/// names.
pub open spec fn part_rank(part: Seq<char>) -> int {
    if part == dot() {
        0
    } else if part == dot_dot() {
        1
    } else {
        2
    }
}

pub open spec fn part_le(a: Seq<char>, b: Seq<char>) -> bool {
    part_rank(a) < part_rank(b) || (part_rank(a) == part_rank(b) && text_le(a, b))
}

/// Whether components come before others or are the same: by the first in which
/// they differ.
pub open spec fn parts_le(a: Seq<Seq<char>>, b: Seq<Seq<char>>) -> bool
    decreases a.len(),
{
    if a.len() == 0 {
        true
    } else if b.len() == 0 {
        false
    } else if a[0] != b[0] {
        part_le(a[0], b[0])
    } else {
        parts_le(a.skip(1), b.skip(1))
    }
}

/// Whether a path comes before another or is the same: by the first component in
/// which they differ, where the root is one that comes before all others.
pub open spec fn path_le(a: PathView, b: PathView) -> bool {
    if a.absolute && !b.absolute {
        b.parts.len() > 0
    } else if b.absolute && !a.absolute {
        a.parts.len() == 0
    } else {
        parts_le(a.parts, b.parts)
    }
}

proof fn lemma_part_total(a: Seq<char>, b: Seq<char>)
    ensures
        part_le(a, b) || part_le(b, a),
{
    text_order_is_total(a, b);
}

proof fn lemma_part_antisymmetric(a: Seq<char>, b: Seq<char>)
    requires
        part_le(a, b),
        part_le(b, a),
    ensures
        a == b,
{
    if part_rank(a) == part_rank(b) {
        text_order_is_antisymmetric(a, b);
    }
}

proof fn lemma_part_transitive(a: Seq<char>, b: Seq<char>, c: Seq<char>)
    requires
        part_le(a, b),
        part_le(b, c),
    ensures
        part_le(a, c),
{
    if part_rank(a) == part_rank(b) && part_rank(b) == part_rank(c) {
        text_order_is_transitive(a, b, c);
    }
}

proof fn lemma_parts_total(a: Seq<Seq<char>>, b: Seq<Seq<char>>)
    ensures
        parts_le(a, b) || parts_le(b, a),
    decreases a.len(),
{
    if a.len() > 0 && b.len() > 0 {
        if a[0] == b[0] {
            lemma_parts_total(a.skip(1), b.skip(1));
        } else {
            lemma_part_total(a[0], b[0]);
        }
    }
}

proof fn lemma_parts_antisymmetric(a: Seq<Seq<char>>, b: Seq<Seq<char>>)
    requires
        parts_le(a, b),
        parts_le(b, a),
    ensures
        a == b,
    decreases a.len(),
{
    if a.len() > 0 && b.len() > 0 {
        if a[0] == b[0] {
            lemma_parts_antisymmetric(a.skip(1), b.skip(1));
            assert(a =~= seq![a[0]] + a.skip(1));
            assert(b =~= seq![b[0]] + b.skip(1));
        } else {
            lemma_part_antisymmetric(a[0], b[0]);
        }
    } else {
        assert(a =~= b);
    }
}

proof fn lemma_parts_transitive(a: Seq<Seq<char>>, b: Seq<Seq<char>>, c: Seq<Seq<char>>)
    requires
        parts_le(a, b),
        parts_le(b, c),
    ensures
        parts_le(a, c),
    decreases a.len(),
{
    if a.len() > 0 && b.len() > 0 && c.len() > 0 {
        if a[0] == b[0] && b[0] == c[0] {
            lemma_parts_transitive(a.skip(1), b.skip(1), c.skip(1));
        } else if a[0] != b[0] && b[0] != c[0] {
            lemma_part_transitive(a[0], b[0], c[0]);
            if a[0] == c[0] {
                lemma_part_antisymmetric(a[0], b[0]);
            }
        }
    }
}

/// Paths that come before each other are the same.
pub proof fn path_order_is_antisymmetric(a: PathView, b: PathView)
    requires
        path_le(a, b),
        path_le(b, a),
    ensures
        a.same(b),
{
    lemma_parts_antisymmetric(a.parts, b.parts);
}

/// The order of paths goes on.
pub proof fn path_order_is_transitive(a: PathView, b: PathView, c: PathView)
    requires
        path_le(a, b),
        path_le(b, c),
    ensures
        path_le(a, c),
{
    if a.absolute == b.absolute && b.absolute == c.absolute {
        lemma_parts_transitive(a.parts, b.parts, c.parts);
    }
}

/// Every two paths are in order one way or the other.
pub proof fn path_order_is_total(a: PathView, b: PathView)
    ensures
        path_le(a, b) || path_le(b, a),
{
    lemma_parts_total(a.parts, b.parts);
}

fn rank_of(part: &str) -> (r: u32)
    ensures
        r == part_rank(part@),
{
    proof {
        reveal_strlit(".");
        reveal_strlit("..");
        assert("."@ =~= dot());
        assert(".."@ =~= dot_dot());
    }
    if same(part, ".") {
        0
    } else if same(part, "..") {
        1
    } else {
        2
    }
}

fn path_comes_before(a: &FilePath, b: &FilePath) -> (r: bool)
    ensures
        r == path_le(a@, b@),
{
    if a.absolute && !b.absolute {
        return b.parts.len() > 0;
    }
    if b.absolute && !a.absolute {
        return a.parts.len() == 0;
    }
    let ghost p = a@.parts;
    let ghost q = b@.parts;
    let mut i: usize = 0;
    assert(p.skip(0) =~= p);
    assert(q.skip(0) =~= q);
    while i < a.parts.len() && i < b.parts.len()
        invariant
            i <= a.parts@.len(),
            i <= b.parts@.len(),
            p == a@.parts,
            q == b@.parts,
            a.absolute == b.absolute,
            parts_le(p, q) == parts_le(p.skip(i as int), q.skip(i as int)),
        decreases a.parts@.len() - i,
    {
        proof {
            assert(p.skip(i as int).skip(1) =~= p.skip(i + 1));
            assert(q.skip(i as int).skip(1) =~= q.skip(i + 1));
            assert(p.skip(i as int)[0] == a.parts@[i as int]@);
            assert(q.skip(i as int)[0] == b.parts@[i as int]@);
        }
        let x = a.parts[i].as_str();
        let y = b.parts[i].as_str();
        if !same(x, y) {
            let m: u32 = rank_of(x);
            let n: u32 = rank_of(y);
            return m < n || (m == n && comes_before(x, y));
        }
        i += 1;
    }
    i == a.parts.len()
}

/// An entry point with all its sources.
#[derive(Debug)]
pub struct EntryRow {
    pub path: FilePath,
    pub module: String,
    pub sources: Vec<String>,
}

#[verifier::ext_equal]
pub struct EntryGroup {
    pub path: PathView,
    pub module: Seq<char>,
    pub sources: Seq<Seq<char>>,
}

impl View for EntryRow {
    type V = EntryGroup;

    open spec fn view(&self) -> EntryGroup {
        EntryGroup { path: self.path@, module: self.module@, sources: views(self.sources@) }
    }
}

pub open spec fn entry_groups(v: Seq<EntryRow>) -> Seq<EntryGroup> {
    v.map_values(|r: EntryRow| r@)
}

/// The groups with one more entry point: it joins the group of its path, or
/// starts a new one in its place.
pub open spec fn with_entry(groups: Seq<EntryGroup>, e: InventoryEntryPoint) -> Seq<EntryGroup>
    decreases groups.len(),
{
    let fresh = EntryGroup {
        path: e.path@,
        module: e.dotted_module@,
        sources: seq![source_text(e.source)],
    };
    if groups.len() == 0 {
        seq![fresh]
    } else {
        let last = groups.last();
        if last.path.same(e.path@) {
            groups.drop_last().push(
                EntryGroup {
                    path: last.path,
                    module: last.module,
                    sources: last.sources.push(source_text(e.source)),
                },
            )
        } else if path_le(last.path, e.path@) {
            groups.push(fresh)
        } else {
            with_entry(groups.drop_last(), e).push(last)
        }
    }
}

/// The entry points by path, each with all its sources.
pub open spec fn grouped_entries(v: Seq<InventoryEntryPoint>) -> Seq<EntryGroup>
    decreases v.len(),
{
    if v.len() == 0 {
        Seq::empty()
    } else {
        with_entry(grouped_entries(v.drop_last()), v.last())
    }
}

fn one_source(e: &InventoryEntryPoint) -> (r: EntryRow)
    ensures
        r@ == (EntryGroup {
            path: e.path@,
            module: e.dotted_module@,
            sources: seq![source_text(e.source)],
        }),
{
    let mut sources: Vec<String> = Vec::new();
    sources.push(source_label(&e.source));
    assert(views(sources@) =~= seq![source_text(e.source)]);
    EntryRow { path: e.path.clone(), module: e.dotted_module.clone(), sources }
}

fn more_sources(row: &EntryRow, e: &InventoryEntryPoint) -> (r: EntryRow)
    ensures
        r@ == (EntryGroup {
            path: row@.path,
            module: row@.module,
            sources: row@.sources.push(source_text(e.source)),
        }),
{
    let mut sources = crate::path::copy_texts(&row.sources);
    let ghost was = views(sources@);
    sources.push(source_label(&e.source));
    assert(views(sources@) =~= was.push(source_text(e.source)));
    EntryRow { path: row.path.clone(), module: row.module.clone(), sources }
}

fn add_entry(rows: &mut Vec<EntryRow>, e: &InventoryEntryPoint)
    ensures
        entry_groups(final(rows)@) == with_entry(entry_groups(old(rows)@), *e),
{
    let ghost s = entry_groups(rows@);
    let mut i: usize = rows.len();
    assert(s.take(i as int) =~= s);
    assert(with_entry(s, *e) =~= with_entry(s.take(i as int), *e) + s.skip(i as int));
    while i > 0
        invariant
            i <= rows@.len(),
            s == entry_groups(rows@),
            s == entry_groups(old(rows)@),
            with_entry(s, *e) == with_entry(s.take(i as int), *e) + s.skip(i as int),
        decreases i,
    {
        let ghost t = s.take(i as int);
        assert(t.last() == rows@[i - 1]@);
        assert(t.drop_last() =~= s.take(i - 1));
        if rows[i - 1].path.same_as(&e.path) {
            let more = more_sources(&rows[i - 1], e);
            rows.set(i - 1, more);
            proof {
                assert(entry_groups(rows@) =~= s.update(i - 1, more@));
                assert(s.update(i - 1, more@) =~= t.drop_last().push(more@) + s.skip(i as int));
            }
            return;
        }
        if path_comes_before(&rows[i - 1].path, &e.path) {
            let fresh = one_source(e);
            proof {
                assert(t.push(fresh@) + s.skip(i as int) =~= s.insert(i as int, fresh@));
            }
            rows.insert(i, fresh);
            assert(entry_groups(rows@) =~= s.insert(i as int, fresh@));
            return;
        }
        proof {
            assert(with_entry(s.take(i - 1), *e) + s.skip(i - 1) =~= with_entry(t, *e) + s.skip(
                i as int,
            ));
        }
        i -= 1;
    }
    let fresh = one_source(e);
    proof {
        assert(s.take(0) =~= Seq::empty());
        assert(seq![fresh@] + s.skip(0) =~= s.insert(0, fresh@));
    }
    rows.insert(0, fresh);
    assert(entry_groups(rows@) =~= s.insert(0, fresh@));
}

/// The entry points by path, each with all its sources. A file can be one for
/// several reasons.
pub fn group_entries(v: &Vec<InventoryEntryPoint>) -> (r: Vec<EntryRow>)
    ensures
        entry_groups(r@) == grouped_entries(v@),
{
    let mut r: Vec<EntryRow> = Vec::new();
    let mut i: usize = 0;
    assert(entry_groups(r@) =~= grouped_entries(v@.take(0)));
    while i < v.len()
        invariant
            i <= v@.len(),
            entry_groups(r@) == grouped_entries(v@.take(i as int)),
        decreases v@.len() - i,
    {
        assert(v@.take(i + 1).drop_last() =~= v@.take(i as int));
        add_entry(&mut r, &v[i]);
        i += 1;
    }
    assert(v@.take(i as int) =~= v@);
    r
}

/// Whether paths are in order and none stands twice.
pub open spec fn in_path_order(groups: Seq<EntryGroup>) -> bool {
    forall|i: int, j: int|
        0 <= i < j < groups.len() ==> path_le(
            (#[trigger] groups[i]).path,
            (#[trigger] groups[j]).path,
        ) && !groups[i].path.same(groups[j].path)
}

proof fn lemma_with_entry(groups: Seq<EntryGroup>, e: InventoryEntryPoint)
    requires
        in_path_order(groups),
    ensures
        in_path_order(with_entry(groups, e)),
        forall|i: int|
            0 <= i < with_entry(groups, e).len() ==> (#[trigger] with_entry(groups, e)[i]).path
                == e.path@ || has_path(groups, with_entry(groups, e)[i].path),
    decreases groups.len(),
{
    let r = with_entry(groups, e);
    if groups.len() > 0 {
        let front = groups.drop_last();
        let last = groups.last();
        if last.path.same(e.path@) {
            assert forall|i: int, j: int| 0 <= i < j < r.len() implies path_le(
                (#[trigger] r[i]).path,
                (#[trigger] r[j]).path,
            ) && !r[i].path.same(r[j].path) by {
                assert(path_le(groups[i].path, groups[j].path));
            }
            assert forall|i: int| 0 <= i < r.len() implies (#[trigger] r[i]).path == e.path@
                || has_path(groups, r[i].path) by {
                assert(groups[i].path == r[i].path);
            }
        } else if path_le(last.path, e.path@) {
            assert forall|i: int, j: int| 0 <= i < j < r.len() implies path_le(
                (#[trigger] r[i]).path,
                (#[trigger] r[j]).path,
            ) && !r[i].path.same(r[j].path) by {
                if j < groups.len() {
                    assert(path_le(groups[i].path, groups[j].path));
                } else if i < groups.len() - 1 {
                    assert(path_le(groups[i].path, groups[groups.len() - 1].path));
                    path_order_is_transitive(groups[i].path, last.path, e.path@);
                    if groups[i].path.same(e.path@) {
                        path_order_is_antisymmetric(groups[i].path, last.path);
                    }
                }
            }
            assert forall|i: int| 0 <= i < r.len() implies (#[trigger] r[i]).path == e.path@
                || has_path(groups, r[i].path) by {
                if i < groups.len() {
                    assert(groups[i].path == r[i].path);
                }
            }
        } else {
            assert forall|i: int, j: int| 0 <= i < j < front.len() implies path_le(
                (#[trigger] front[i]).path,
                (#[trigger] front[j]).path,
            ) && !front[i].path.same(front[j].path) by {
                assert(path_le(groups[i].path, groups[j].path));
            }
            lemma_with_entry(front, e);
            let q = with_entry(front, e);
            path_order_is_total(e.path@, last.path);
            assert forall|i: int, j: int| 0 <= i < j < r.len() implies path_le(
                (#[trigger] r[i]).path,
                (#[trigger] r[j]).path,
            ) && !r[i].path.same(r[j].path) by {
                if j < q.len() {
                    assert(path_le(q[i].path, q[j].path));
                } else {
                    assert(q[i].path == e.path@ || has_path(front, q[i].path));
                    if q[i].path != e.path@ {
                        let k = choose|k: int|
                            0 <= k < front.len() && (#[trigger] front[k]).path == q[i].path;
                        assert(path_le(groups[k].path, groups[groups.len() - 1].path));
                    }
                }
            }
            assert forall|i: int| 0 <= i < r.len() implies (#[trigger] r[i]).path == e.path@
                || has_path(groups, r[i].path) by {
                if i < q.len() {
                    assert(q[i].path == e.path@ || has_path(front, q[i].path));
                    if q[i].path != e.path@ {
                        let k = choose|k: int|
                            0 <= k < front.len() && (#[trigger] front[k]).path == q[i].path;
                        assert(groups[k].path == r[i].path);
                    }
                } else {
                    assert(groups[groups.len() - 1].path == r[i].path);
                }
            }
        }
    }
}

/// Whether one of the groups is of the path.
pub open spec fn has_path(groups: Seq<EntryGroup>, path: PathView) -> bool {
    exists|k: int| 0 <= k < groups.len() && (#[trigger] groups[k]).path == path
}

/// Every file is listed once as an entry point, and the files are in order.
pub proof fn entry_points_are_listed_once(v: Seq<InventoryEntryPoint>)
    ensures
        in_path_order(grouped_entries(v)),
    decreases v.len(),
{
    if v.len() > 0 {
        entry_points_are_listed_once(v.drop_last());
        lemma_with_entry(grouped_entries(v.drop_last()), v.last());
    }
}

/// The kind of a module in a word.
pub open spec fn kind_text(kind: ModuleKind) -> Seq<char> {
    match kind {
        ModuleKind::Module => "module"@,
        ModuleKind::PackageInit => "packageinit"@,
        ModuleKind::NamespacePackage => "namespacepackage"@,
    }
}

fn kind_label(kind: &ModuleKind) -> (r: String)
    ensures
        r@ == kind_text(*kind),
{
    match kind {
        ModuleKind::Module => "module".to_owned(),
        ModuleKind::PackageInit => "packageinit".to_owned(),
        ModuleKind::NamespacePackage => "namespacepackage".to_owned(),
    }
}

/// The row of an entry point.
pub open spec fn entry_row(g: EntryGroup) -> Seq<Seq<char>> {
    seq![g.path.text(), g.module, join(g.sources, ", "@)]
}

/// The table of entry points.
pub open spec fn entry_table(v: Seq<InventoryEntryPoint>) -> Seq<Seq<Seq<char>>> {
    seq![seq!["path"@, "module"@, "sources"@]] + grouped_entries(v).map_values(
        |g: EntryGroup| entry_row(g),
    )
}

/// The row of a file.
pub open spec fn file_row(f: InventoryFile) -> Seq<Seq<char>> {
    seq![f.path@.text(), f.dotted_module@, kind_text(f.kind)]
}

/// The table of files.
pub open spec fn file_table(v: Seq<InventoryFile>) -> Seq<Seq<Seq<char>>> {
    seq![seq!["path"@, "module"@, "kind"@]] + v.map_values(|f: InventoryFile| file_row(f))
}

/// The table of plugins.
pub open spec fn plugin_table(v: Seq<Seq<char>>) -> Seq<Seq<Seq<char>>> {
    seq![seq!["plugin"@]] + v.map_values(|p: Seq<char>| seq![p])
}

/// A table with a heading, and a line below it.
#[derive(Debug)]
pub struct ListSection {
    pub heading: String,
    pub table: String,
    pub footer: String,
}

#[verifier::ext_equal]
pub struct SectionView {
    pub heading: Seq<char>,
    pub table: Seq<char>,
    pub footer: Seq<char>,
}

impl View for ListSection {
    type V = SectionView;

    open spec fn view(&self) -> SectionView {
        SectionView { heading: self.heading@, table: self.table@, footer: self.footer@ }
    }
}

pub open spec fn section_views(v: Seq<ListSection>) -> Seq<SectionView> {
    v.map_values(|s: ListSection| s@)
}

pub open spec fn entry_section(inv: Inventory) -> SectionView {
    SectionView {
        heading: "## entry points"@,
        table: grid_text(entry_table(inv.entry_points@)),
        footer: decimal(inv.entry_points@.len()) + " entry points ("@ + decimal(
            grouped_entries(inv.entry_points@).len(),
        ) + " unique paths)"@,
    }
}

pub open spec fn file_section(inv: Inventory) -> SectionView {
    SectionView {
        heading: "## files"@,
        table: grid_text(file_table(inv.files@)),
        footer: decimal(inv.files@.len()) + " files"@,
    }
}

pub open spec fn plugin_section(inv: Inventory) -> SectionView {
    SectionView {
        heading: "## plugins"@,
        table: grid_text(plugin_table(views(inv.plugins_run@))),
        footer: decimal(inv.plugins_run@.len()) + " plugins active"@,
    }
}

/// The tables that are shown.
pub open spec fn listing(what: What, inv: Inventory) -> Seq<SectionView> {
    match what {
        What::All => seq![entry_section(inv), file_section(inv), plugin_section(inv)],
        What::EntryPoints => seq![entry_section(inv)],
        What::Files => seq![file_section(inv)],
        What::Plugins => seq![plugin_section(inv)],
    }
}

fn list_entries(inv: &Inventory) -> (r: ListSection)
    ensures
        r@ == entry_section(*inv),
{
    let groups = group_entries(&inv.entry_points);
    let ghost all = entry_groups(groups@);
    let ghost goal = entry_table(inv.entry_points@);
    let head = vec!["path".to_owned(), "module".to_owned(), "sources".to_owned()];
    assert(row_view(head) =~= seq!["path"@, "module"@, "sources"@]);
    let mut rows: Vec<Vec<String>> = Vec::new();
    rows.push(head);
    let mut i: usize = 0;
    assert(row_views(rows@) =~= goal.take(1));
    while i < groups.len()
        invariant
            i <= groups@.len(),
            all == entry_groups(groups@),
            all == grouped_entries(inv.entry_points@),
            goal == entry_table(inv.entry_points@),
            row_views(rows@) == goal.take(1 + i),
        decreases groups@.len() - i,
    {
        let g = &groups[i];
        let row = vec![g.path.text(), g.module.clone(), join_with(&g.sources, ", ")];
        proof {
            assert(all[i as int] == g@);
            assert(row_view(row) =~= entry_row(g@));
            assert(goal[1 + i] == entry_row(g@));
        }
        let ghost was = row_views(rows@);
        rows.push(row);
        assert(row_views(rows@) =~= was.push(goal[1 + i]));
        i += 1;
        assert(row_views(rows@) =~= goal.take(1 + i));
    }
    assert(row_views(rows@) =~= goal);
    assert(all.len() == groups@.len());
    let mut footer = decimal_text(inv.entry_points.len() as u64);
    footer.append(" entry points (");
    footer.append(decimal_text(groups.len() as u64).as_str());
    footer.append(" unique paths)");
    ListSection { heading: "## entry points".to_owned(), table: draw(&rows), footer }
}

fn list_files(inv: &Inventory) -> (r: ListSection)
    ensures
        r@ == file_section(*inv),
{
    let ghost goal = file_table(inv.files@);
    let head = vec!["path".to_owned(), "module".to_owned(), "kind".to_owned()];
    assert(row_view(head) =~= seq!["path"@, "module"@, "kind"@]);
    let mut rows: Vec<Vec<String>> = Vec::new();
    rows.push(head);
    let mut i: usize = 0;
    assert(row_views(rows@) =~= goal.take(1));
    while i < inv.files.len()
        invariant
            i <= inv.files@.len(),
            goal == file_table(inv.files@),
            row_views(rows@) == goal.take(1 + i),
        decreases inv.files@.len() - i,
    {
        let f = &inv.files[i];
        let row = vec![f.path.text(), f.dotted_module.clone(), kind_label(&f.kind)];
        proof {
            assert(row_view(row) =~= file_row(*f));
            assert(goal[1 + i] == file_row(*f));
        }
        let ghost was = row_views(rows@);
        rows.push(row);
        assert(row_views(rows@) =~= was.push(goal[1 + i]));
        i += 1;
        assert(row_views(rows@) =~= goal.take(1 + i));
    }
    assert(row_views(rows@) =~= goal);
    let mut footer = decimal_text(inv.files.len() as u64);
    footer.append(" files");
    ListSection { heading: "## files".to_owned(), table: draw(&rows), footer }
}

fn list_plugins(inv: &Inventory) -> (r: ListSection)
    ensures
        r@ == plugin_section(*inv),
{
    let ghost goal = plugin_table(views(inv.plugins_run@));
    let head = vec!["plugin".to_owned()];
    assert(row_view(head) =~= seq!["plugin"@]);
    let mut rows: Vec<Vec<String>> = Vec::new();
    rows.push(head);
    let mut i: usize = 0;
    assert(row_views(rows@) =~= goal.take(1));
    while i < inv.plugins_run.len()
        invariant
            i <= inv.plugins_run@.len(),
            goal == plugin_table(views(inv.plugins_run@)),
            row_views(rows@) == goal.take(1 + i),
        decreases inv.plugins_run@.len() - i,
    {
        let row = vec![inv.plugins_run[i].clone()];
        proof {
            assert(row_view(row) =~= seq![inv.plugins_run@[i as int]@]);
            assert(goal[1 + i] == seq![views(inv.plugins_run@)[i as int]]);
        }
        let ghost was = row_views(rows@);
        rows.push(row);
        assert(row_views(rows@) =~= was.push(goal[1 + i]));
        i += 1;
        assert(row_views(rows@) =~= goal.take(1 + i));
    }
    assert(row_views(rows@) =~= goal);
    let mut footer = decimal_text(inv.plugins_run.len() as u64);
    footer.append(" plugins active");
    ListSection { heading: "## plugins".to_owned(), table: draw(&rows), footer }
}

/// The tables that are shown.
pub fn list(what: What, inv: &Inventory) -> (r: Vec<ListSection>)
    ensures
        section_views(r@) == listing(what, *inv),
{
    let r = match what {
        What::All => vec![list_entries(inv), list_files(inv), list_plugins(inv)],
        What::EntryPoints => vec![list_entries(inv)],
        What::Files => vec![list_files(inv)],
        What::Plugins => vec![list_plugins(inv)],
    };
    assert(section_views(r@) =~= listing(what, *inv));
    r
}

/// Every entry point is listed under its path with where it comes from, also where
/// several plugins name the same file.
pub proof fn every_source_is_listed(v: Seq<InventoryEntryPoint>, i: int)
    requires
        0 <= i < v.len(),
    ensures
        exists|k: int|
            0 <= k < grouped_entries(v).len() && lists_source(
                #[trigger] grouped_entries(v)[k],
                v[i].path@,
                source_text(v[i].source),
            ),
    decreases v.len(),
{
    let front = v.drop_last();
    let groups = grouped_entries(front);
    if i < v.len() - 1 {
        every_source_is_listed(front, i);
        let k = choose|k: int|
            0 <= k < groups.len() && lists_source(
                #[trigger] groups[k],
                front[i].path@,
                source_text(front[i].source),
            );
        lemma_sources_stay(groups, v.last(), k, v[i].path@, source_text(v[i].source));
    } else {
        lemma_own_source(groups, v.last());
    }
    let all = with_entry(groups, v.last());
    let j = choose|j: int|
        0 <= j < all.len() && lists_source(
            #[trigger] all[j],
            v[i].path@,
            source_text(v[i].source),
        );
    assert(lists_source(grouped_entries(v)[j], v[i].path@, source_text(v[i].source)));
}

/// Whether a group is of a path and names a source.
pub open spec fn lists_source(g: EntryGroup, path: PathView, source: Seq<char>) -> bool {
    g.path.same(path) && g.sources.contains(source)
}

proof fn lemma_sources_stay(
    groups: Seq<EntryGroup>,
    e: InventoryEntryPoint,
    k: int,
    path: PathView,
    source: Seq<char>,
)
    requires
        0 <= k < groups.len(),
        lists_source(groups[k], path, source),
    ensures
        exists|j: int|
            0 <= j < with_entry(groups, e).len() && lists_source(
                #[trigger] with_entry(groups, e)[j],
                path,
                source,
            ),
    decreases groups.len(),
{
    let last = groups.last();
    let all = with_entry(groups, e);
    if last.path.same(e.path@) {
        if k < groups.len() - 1 {
            assert(all[k] == groups[k]);
        } else {
            crate::types::lemma_contains_push(last.sources, source_text(e.source), source);
        }
        assert(lists_source(all[k], path, source));
    } else if path_le(last.path, e.path@) {
        assert(all[k] == groups[k]);
        assert(lists_source(all[k], path, source));
    } else {
        let rest = with_entry(groups.drop_last(), e);
        if k < groups.len() - 1 {
            lemma_sources_stay(groups.drop_last(), e, k, path, source);
            let j = choose|j: int|
                0 <= j < rest.len() && lists_source(#[trigger] rest[j], path, source);
            assert(all[j] == rest[j]);
            assert(lists_source(all[j], path, source));
        } else {
            assert(all[rest.len() as int] == last);
            assert(lists_source(all[rest.len() as int], path, source));
        }
    }
}

proof fn lemma_own_source(groups: Seq<EntryGroup>, e: InventoryEntryPoint)
    ensures
        exists|j: int|
            0 <= j < with_entry(groups, e).len() && lists_source(
                #[trigger] with_entry(groups, e)[j],
                e.path@,
                source_text(e.source),
            ),
    decreases groups.len(),
{
    let all = with_entry(groups, e);
    let t = source_text(e.source);
    if groups.len() == 0 {
        assert(all[0].sources[0] == t);
        assert(lists_source(all[0], e.path@, t));
    } else {
        let last = groups.last();
        if last.path.same(e.path@) {
            let k = groups.len() - 1;
            crate::types::lemma_contains_push(last.sources, t, t);
            assert(lists_source(all[k], e.path@, t));
        } else if path_le(last.path, e.path@) {
            let k = groups.len() as int;
            assert(all[k].sources[0] == t);
            assert(lists_source(all[k], e.path@, t));
        } else {
            let rest = with_entry(groups.drop_last(), e);
            lemma_own_source(groups.drop_last(), e);
            let j = choose|j: int|
                0 <= j < rest.len() && lists_source(#[trigger] rest[j], e.path@, t);
            assert(all[j] == rest[j]);
            assert(lists_source(all[j], e.path@, t));
        }
    }
}

/// A listing shows what is asked for: each table by itself, or all of them.
pub proof fn a_listing_of_all_has_every_table(inv: Inventory)
    ensures
        listing(What::All, inv) == listing(What::EntryPoints, inv) + listing(What::Files, inv)
            + listing(What::Plugins, inv),
        listing(What::Files, inv).len() == 1,
        file_table(inv.files@).len() == inv.files@.len() + 1,
        plugin_table(views(inv.plugins_run@)).len() == inv.plugins_run@.len() + 1,
{
    assert(listing(What::All, inv) =~= listing(What::EntryPoints, inv) + listing(What::Files, inv)
        + listing(What::Plugins, inv));
}

} // verus!
