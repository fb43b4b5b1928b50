//! First settings for a project.
use crate::config::boundaries::KNOWN_BOUNDARY_PRESETS;
use crate::fix::lines_left;
use crate::path::{path_of, FilePath, PathView};
use crate::text::{
    contains, contains_text, ends_with, has_prefix, has_suffix, join, join_with, lines, lines_of, one_of, same,
    str_views, texts_of, trim_start, trimmed_start, views, chars_of,
};
use vstd::prelude::*;

verus! {

pub const DEFAULT_PYLLOW_TOML: &'static str = "# pyllow.toml — codebase intelligence for Python
# https://github.com/carlosarraes/pyllow

# Roots that contain importable Python packages.
# Auto-detected from `src/` layout if omitted.
# packageRoots = [\"src\"]

# Files pyllow should treat as reachability roots beyond what plugins detect.
# Useful for FastAPI factory patterns (`app = create_app(...)` in main.py).
# entryPoints = [\"src/main.py\"]

# Per-plugin overrides. All plugins enabled by default.
# [plugins.fastapi]
# enabled = true
";

pub const DEFAULT_PYLLOWIGNORE: &'static str =
    "# pyllow ignore patterns (gitignore-style globs)\n# Lines starting with # are comments.\n";

/// What a new section in `pyproject.toml` holds.
pub const DEFAULT_SECTION: &'static str =
    "\n[tool.pyllow]\n# Roots that contain importable Python packages (auto-detected if omitted).\n# packageRoots = [\"src\"]\n# entryPoints = [\"src/main.py\"]\n";

/// What of a project's settings is there already.
#[derive(Debug)]
pub struct ProjectFiles {
    pub has_pyllow_toml: bool,
    pub has_pyllowignore: bool,
    /// The text of `pyproject.toml`, if there is one.
    pub pyproject: Option<String>,
}

/// A file to write.
#[derive(Debug)]
pub struct NewFile {
    pub path: FilePath,
    pub text: String,
    /// Whether the file was there before.
    pub updated: bool,
}

#[verifier::ext_equal]
pub struct NewFileView {
    pub path: PathView,
    pub text: Seq<char>,
    pub updated: bool,
}

impl View for NewFile {
    type V = NewFileView;

    open spec fn view(&self) -> NewFileView {
        NewFileView { path: self.path@, text: self.text@, updated: self.updated }
    }
}

pub open spec fn file_views(v: Seq<NewFile>) -> Seq<NewFileView> {
    v.map_values(|f: NewFile| f@)
}

/// Why no settings are written.
#[derive(Debug)]
pub enum InitError {
    /// There is a `pyllow.toml` already.
    AlreadyExists { path: FilePath },
    /// There is no `pyproject.toml` to write into.
    NotFound { path: FilePath },
    /// `pyproject.toml` has a section already.
    HasSection { path: FilePath },
    UnknownPreset { name: String },
}

#[allow(inconsistent_fields)]
pub enum InitErrorView {
    AlreadyExists { path: PathView },
    NotFound { path: PathView },
    HasSection { path: PathView },
    UnknownPreset { name: Seq<char> },
}

impl View for InitError {
    type V = InitErrorView;

    open spec fn view(&self) -> InitErrorView {
        match self {
            InitError::AlreadyExists { path } => InitErrorView::AlreadyExists { path: path@ },
            InitError::NotFound { path } => InitErrorView::NotFound { path: path@ },
            InitError::HasSection { path } => InitErrorView::HasSection { path: path@ },
            InitError::UnknownPreset { name } => InitErrorView::UnknownPreset { name: name@ },
        }
    }
}

impl InitErrorView {
    /// The error in words.
    pub open spec fn words(self) -> Seq<char> {
        match self {
            InitErrorView::AlreadyExists { path } => path.text()
                + " already exists; use --force to overwrite"@,
            InitErrorView::NotFound { path } => path.text()
                + " not found; run `pyllow init` (without --pyproject) to create pyllow.toml instead"@,
            InitErrorView::HasSection { path } => path.text()
                + " already has a [tool.pyllow] section; use --force to overwrite"@,
            InitErrorView::UnknownPreset { name } => "unknown boundary preset `"@ + name
                + "` (expected one of: "@ + join(str_views(KNOWN_BOUNDARY_PRESETS@), ", "@) + ")"@,
        }
    }
}

impl InitError {
    /// The error in words.
    pub fn describe(&self) -> (r: String)
        ensures
            r@ == self@.words(),
    {
        match self {
            InitError::AlreadyExists { path } => {
                let mut r = path.text();
                r.append(" already exists; use --force to overwrite");
                r
            },
            InitError::NotFound { path } => {
                let mut r = path.text();
                r.append(
                    " not found; run `pyllow init` (without --pyproject) to create pyllow.toml instead",
                );
                r
            },
            InitError::HasSection { path } => {
                let mut r = path.text();
                r.append(" already has a [tool.pyllow] section; use --force to overwrite");
                r
            },
            InitError::UnknownPreset { name } => {
                let mut r = "unknown boundary preset `".to_owned();
                r.append(name.as_str());
                r.append("` (expected one of: ");
                r.append(join_with(&texts_of(&KNOWN_BOUNDARY_PRESETS), ", ").as_str());
                r.append(")");
                r
            },
        }
    }
}

/// Whether a line opens a section.
pub open spec fn is_header(line: Seq<char>) -> bool {
    trim_start(line).len() > 0 && trim_start(line)[0] == '['
}

/// Whether a line opens the section of this tool.
pub open spec fn opens_ours(line: Seq<char>) -> bool {
    trim_start(line) == "[tool.pyllow]"@
}

/// Whether what follows the lines belongs to the section of this tool.
pub open spec fn inside_ours(lines: Seq<Seq<char>>) -> bool
    decreases lines.len(),
{
    if lines.len() == 0 {
        false
    } else if is_header(lines.last()) {
        opens_ours(lines.last())
    } else {
        inside_ours(lines.drop_last())
    }
}

/// Whether the last of the lines belongs to another tool.
pub open spec fn is_foreign(lines: Seq<Seq<char>>) -> bool {
    if is_header(lines.last()) {
        !opens_ours(lines.last())
    } else {
        !inside_ours(lines.drop_last())
    }
}

/// The lines that belong to other tools.
pub open spec fn foreign_lines(lines: Seq<Seq<char>>) -> Seq<Seq<char>>
    decreases lines.len(),
{
    if lines.len() == 0 {
        Seq::empty()
    } else {
        let before = foreign_lines(lines.drop_last());
        if is_foreign(lines) {
            before.push(lines.last())
        } else {
            before
        }
    }
}

/// The text of a list of lines, each ended by a line feed.
pub open spec fn ended_lines(lines: Seq<Seq<char>>) -> Seq<char>
    decreases lines.len(),
{
    if lines.len() == 0 {
        Seq::empty()
    } else {
        ended_lines(lines.drop_last()) + lines.last() + "\n"@
    }
}

/// A text that ends with a line feed.
pub open spec fn ended(text: Seq<char>) -> Seq<char> {
    if has_suffix(text, "\n"@) {
        text
    } else {
        text + "\n"@
    }
}

/// A `pyproject.toml` with a new section in place of the one it has.
pub open spec fn replaced(source: Seq<char>) -> Seq<char> {
    ended(ended_lines(foreign_lines(lines(source)))) + DEFAULT_SECTION@
}

/// A `pyproject.toml` with a new section behind what it has.
pub open spec fn extended(source: Seq<char>) -> Seq<char> {
    ended(source) + DEFAULT_SECTION@
}

fn end_text(text: String) -> (r: String)
    ensures
        r@ == ended(text@),
{
    if ends_with(text.as_str(), "\n") {
        text
    } else {
        let mut r = text;
        r.append("\n");
        r
    }
}

fn is_header_line(line: &str) -> (r: bool)
    ensures
        r == is_header(line@),
{
    let t = chars_of(trimmed_start(line).as_str());
    t.len() > 0 && t[0] == '['
}

/// A `pyproject.toml` with a new section in place of the one it has; what
/// belongs to other tools stays.
pub fn replace_tool_pyllow(source: &str) -> (r: String)
    ensures
        r@ == replaced(source@),
{
    let all = lines_of(source);
    let ghost found = views(all@);
    let mut out = String::new();
    let mut inside = false;
    let mut i: usize = 0;
    assert(out@ =~= ended_lines(foreign_lines(found.take(0))));
    while i < all.len()
        invariant
            i <= all@.len(),
            found == views(all@),
            out@ == ended_lines(foreign_lines(found.take(i as int))),
            inside == inside_ours(found.take(i as int)),
        decreases all@.len() - i,
    {
        let line = all[i].as_str();
        proof {
            assert(found.take(i + 1).drop_last() =~= found.take(i as int));
            assert(found.take(i + 1).last() == line@);
        }
        let keep = if is_header_line(line) {
            inside = same(trimmed_start(line).as_str(), "[tool.pyllow]");
            !inside
        } else {
            !inside
        };
        if keep {
            out.append(line);
            out.append("\n");
            proof {
                let before = foreign_lines(found.take(i as int));
                assert(before.push(line@).drop_last() =~= before);
            }
        }
        i += 1;
    }
    assert(found.take(i as int) =~= found);
    let mut r = end_text(out);
    r.append(DEFAULT_SECTION);
    r
}

/// What is added for a layout of boundaries.
pub open spec fn seeded(header: Seq<char>, boundaries: Option<Seq<char>>) -> Seq<char> {
    match boundaries {
        Some(preset) => "\n["@ + header + "]\npreset = \""@ + preset + "\"\n"@,
        None => Seq::empty(),
    }
}

fn seed(header: &str, boundaries: &Option<String>) -> (r: String)
    ensures
        r@ == seeded(header@, preset_view(*boundaries)),
{
    match boundaries {
        Some(preset) => {
            let mut r = "\n[".to_owned();
            r.append(header);
            r.append("]\npreset = \"");
            r.append(preset.as_str());
            r.append("\"\n");
            r
        },
        None => {
            let r = String::new();
            assert(r@ =~= Seq::empty());
            r
        },
    }
}

pub open spec fn preset_view(s: Option<String>) -> Option<Seq<char>> {
    match s {
        Some(s) => Some(s@),
        None => None,
    }
}

/// Whether a layout of boundaries is asked for that does not exist.
pub open spec fn unknown_preset(boundaries: Option<Seq<char>>) -> bool {
    boundaries matches Some(p) && !str_views(KNOWN_BOUNDARY_PRESETS@).contains(p)
}

/// Whether the text of `pyproject.toml` has a section of this tool.
pub open spec fn has_section(text: Seq<char>) -> bool {
    contains_text(text, "[tool.pyllow]"@)
}

/// Why no settings are written, if they are not.
pub open spec fn init_error(
    root: PathView,
    write_pyproject: bool,
    force: bool,
    boundaries: Option<Seq<char>>,
    files: ProjectFiles,
) -> Option<InitErrorView> {
    let toml = root.joined(path_of("pyllow.toml"@));
    let pyproject = root.joined(path_of("pyproject.toml"@));
    if unknown_preset(boundaries) {
        Some(InitErrorView::UnknownPreset { name: boundaries->0 })
    } else if !write_pyproject {
        if files.has_pyllow_toml && !force {
            Some(InitErrorView::AlreadyExists { path: toml })
        } else {
            None
        }
    } else {
        match files.pyproject {
            None => Some(InitErrorView::NotFound { path: pyproject }),
            Some(text) => if has_section(text@) && !force {
                Some(InitErrorView::HasSection { path: pyproject })
            } else {
                None
            },
        }
    }
}

/// The files that are written: `pyllow.toml`, and `.pyllowignore` if there is
/// none; or `pyproject.toml` with a section of this tool.
pub open spec fn new_files(
    root: PathView,
    write_pyproject: bool,
    boundaries: Option<Seq<char>>,
    files: ProjectFiles,
) -> Seq<NewFileView> {
    if write_pyproject {
        let text = files.pyproject->0@;
        seq![
            NewFileView {
                path: root.joined(path_of("pyproject.toml"@)),
                text: (if has_section(text) {
                    replaced(text)
                } else {
                    extended(text)
                }) + seeded("tool.pyllow.boundaries"@, boundaries),
                updated: true,
            },
        ]
    } else {
        let toml = NewFileView {
            path: root.joined(path_of("pyllow.toml"@)),
            text: DEFAULT_PYLLOW_TOML@ + seeded("boundaries"@, boundaries),
            updated: false,
        };
        if files.has_pyllowignore {
            seq![toml]
        } else {
            seq![
                toml,
                NewFileView {
                    path: root.joined(path_of(".pyllowignore"@)),
                    text: DEFAULT_PYLLOWIGNORE@,
                    updated: false,
                },
            ]
        }
    }
}

/// The first settings for a project at `root`: what is written, or why nothing
/// is. What is there already is overwritten only if `force` says so.
pub fn run(
    root: &FilePath,
    write_pyproject: bool,
    force: bool,
    boundaries: Option<String>,
    files: &ProjectFiles,
) -> (r: Result<Vec<NewFile>, InitError>)
    ensures
        match r {
            Ok(v) => init_error(root@, write_pyproject, force, preset_view(boundaries), *files) is None
                && file_views(v@) == new_files(
                root@,
                write_pyproject,
                preset_view(boundaries),
                *files,
            ),
            Err(e) => init_error(root@, write_pyproject, force, preset_view(boundaries), *files)
                == Some(e@),
        },
{
    if let Some(preset) = &boundaries {
        if !one_of(preset.as_str(), &KNOWN_BOUNDARY_PRESETS) {
            return Err(InitError::UnknownPreset { name: preset.clone() });
        }
    }
    let mut r: Vec<NewFile> = Vec::new();
    if write_pyproject {
        let path = root.join(&FilePath::new("pyproject.toml"));
        let text = match &files.pyproject {
            None => {
                return Err(InitError::NotFound { path });
            },
            Some(text) => text,
        };
        let present = contains(text.as_str(), "[tool.pyllow]");
        if present && !force {
            return Err(InitError::HasSection { path });
        }
        let mut out = if present {
            replace_tool_pyllow(text.as_str())
        } else {
            let mut s = end_text(text.clone());
            s.append(DEFAULT_SECTION);
            s
        };
        out.append(seed("tool.pyllow.boundaries", &boundaries).as_str());
        r.push(NewFile { path, text: out, updated: true });
    } else {
        let path = root.join(&FilePath::new("pyllow.toml"));
        if files.has_pyllow_toml && !force {
            return Err(InitError::AlreadyExists { path });
        }
        let mut out = DEFAULT_PYLLOW_TOML.to_owned();
        out.append(seed("boundaries", &boundaries).as_str());
        r.push(NewFile { path, text: out, updated: false });
        if !files.has_pyllowignore {
            r.push(
                NewFile {
                    path: root.join(&FilePath::new(".pyllowignore")),
                    text: DEFAULT_PYLLOWIGNORE.to_owned(),
                    updated: false,
                },
            );
        }
    }
    assert(file_views(r@) =~= new_files(
        root@,
        write_pyproject,
        preset_view(boundaries),
        *files,
    ));
    Ok(r)
}

/// Without `force`, settings that are there are never overwritten.
pub proof fn settings_are_kept_without_force(
    root: PathView,
    write_pyproject: bool,
    boundaries: Option<Seq<char>>,
    files: ProjectFiles,
)
    requires
        if write_pyproject {
            files.pyproject matches Some(text) && has_section(text@)
        } else {
            files.has_pyllow_toml
        },
    ensures
        init_error(root, write_pyproject, false, boundaries, files) is Some,
{
}

/// Replacing the section takes nothing from a file that has none of this tool.
pub proof fn other_sections_stay(lines: Seq<Seq<char>>)
    requires
        forall|i: int| 0 <= i < lines.len() ==> !opens_ours(#[trigger] lines[i]),
    ensures
        foreign_lines(lines) == lines,
        !inside_ours(lines),
    decreases lines.len(),
{
    if lines.len() > 0 {
        let front = lines.drop_last();
        assert forall|i: int| 0 <= i < front.len() implies !opens_ours(#[trigger] front[i]) by {
            assert(front[i] == lines[i]);
        }
        other_sections_stay(front);
        assert(!opens_ours(lines[lines.len() - 1]));
        assert(lines =~= front.push(lines.last()));
    } else {
        assert(lines =~= Seq::empty());
    }
}

/// Replacing the section leaves no header of the old one.
pub proof fn the_old_section_goes(lines: Seq<Seq<char>>, i: int)
    requires
        0 <= i < foreign_lines(lines).len(),
    ensures
        !opens_ours(foreign_lines(lines)[i]),
    decreases lines.len(),
{
    reveal_strlit("[tool.pyllow]");
    let before = foreign_lines(lines.drop_last());
    if i < before.len() {
        the_old_section_goes(lines.drop_last(), i);
    } else {
        assert(opens_ours(lines.last()) ==> is_header(lines.last()));
    }
}

/// The places of the lines that belong to the section of this tool: from its header
/// on, up to the next header.
pub open spec fn our_places(lines: Seq<Seq<char>>) -> Set<int> {
    Set::new(
        |i: int|
            exists|h: int|
                0 <= h <= i < lines.len() && opens_ours(#[trigger] lines[h]) && forall|j: int|
                    h < j <= i ==> !is_header(#[trigger] lines[j]),
    )
}

/// Replacing the section takes away its lines, and no others: from its header up to
/// the next header, whatever section that opens.
pub proof fn exactly_the_old_section_goes(lines: Seq<Seq<char>>)
    ensures
        foreign_lines(lines) == lines_left(lines, our_places(lines)),
    decreases lines.len(),
{
    if lines.len() > 0 {
        let front = lines.drop_last();
        let last = lines.len() - 1;
        exactly_the_old_section_goes(front);
        assert forall|i: int| i < last implies our_places(lines).contains(i) == our_places(
            front,
        ).contains(i) by {
            lemma_places_of_front(lines, i);
        }
        lemma_same_places(front, our_places(lines), our_places(front));
        lemma_last_is_ours(lines);
    } else {
        assert(foreign_lines(lines) =~= lines_left(lines, our_places(lines)));
    }
}

proof fn lemma_places_of_front(lines: Seq<Seq<char>>, i: int)
    requires
        lines.len() > 0,
        i < lines.len() - 1,
    ensures
        our_places(lines).contains(i) == our_places(lines.drop_last()).contains(i),
{
    let front = lines.drop_last();
    if our_places(lines).contains(i) {
        let h = choose|h: int|
            0 <= h <= i < lines.len() && opens_ours(#[trigger] lines[h]) && forall|j: int|
                h < j <= i ==> !is_header(#[trigger] lines[j]);
        assert(front[h] == lines[h]);
        assert forall|j: int| h < j <= i implies !is_header(#[trigger] front[j]) by {
            assert(front[j] == lines[j]);
        }
    }
    if our_places(front).contains(i) {
        let h = choose|h: int|
            0 <= h <= i < front.len() && opens_ours(#[trigger] front[h]) && forall|j: int|
                h < j <= i ==> !is_header(#[trigger] front[j]);
        assert(front[h] == lines[h]);
        assert forall|j: int| h < j <= i implies !is_header(#[trigger] lines[j]) by {
            assert(front[j] == lines[j]);
        }
    }
}

proof fn lemma_same_places(lines: Seq<Seq<char>>, a: Set<int>, b: Set<int>)
    requires
        forall|i: int| i < lines.len() ==> a.contains(i) == b.contains(i),
    ensures
        lines_left(lines, a) == lines_left(lines, b),
    decreases lines.len(),
{
    if lines.len() > 0 {
        lemma_same_places(lines.drop_last(), a, b);
    }
}

proof fn lemma_ours_is_a_header(line: Seq<char>)
    requires
        opens_ours(line),
    ensures
        is_header(line),
{
    reveal_strlit("[tool.pyllow]");
}

proof fn lemma_last_is_ours(lines: Seq<Seq<char>>)
    requires
        lines.len() > 0,
    ensures
        our_places(lines).contains(lines.len() - 1) <==> !is_foreign(lines),
        inside_ours(lines) <==> !is_foreign(lines),
    decreases lines.len(),
{
    let last = lines.len() - 1;
    let front = lines.drop_last();
    assert(lines[last] == lines.last());
    if is_header(lines.last()) {
        if opens_ours(lines.last()) {
            assert(opens_ours(lines[last]));
            assert(our_places(lines).contains(last));
        } else if our_places(lines).contains(last) {
            let h = choose|h: int|
                0 <= h <= last < lines.len() && opens_ours(#[trigger] lines[h]) && forall|j: int|
                    h < j <= last ==> !is_header(#[trigger] lines[j]);
            assert(h < last);
            assert(!is_header(lines[last]));
        }
    } else if front.len() > 0 {
        lemma_last_is_ours(front);
        if our_places(lines).contains(last) {
            let h = choose|h: int|
                0 <= h <= last < lines.len() && opens_ours(#[trigger] lines[h]) && forall|j: int|
                    h < j <= last ==> !is_header(#[trigger] lines[j]);
            lemma_ours_is_a_header(lines[h]);
            assert(h < last);
            assert(front[h] == lines[h]);
            assert forall|j: int| h < j <= last - 1 implies !is_header(#[trigger] front[j]) by {
                assert(front[j] == lines[j]);
            }
            assert(our_places(front).contains(last - 1));
        }
        if our_places(front).contains(last - 1) {
            let h = choose|h: int|
                0 <= h <= last - 1 < front.len() && opens_ours(#[trigger] front[h]) && forall|j: int|
                    h < j <= last - 1 ==> !is_header(#[trigger] front[j]);
            assert(front[h] == lines[h]);
            assert forall|j: int| h < j <= last implies !is_header(#[trigger] lines[j]) by {
                if j < last {
                    assert(front[j] == lines[j]);
                }
            }
            assert(our_places(lines).contains(last));
        }
    } else if our_places(lines).contains(last) {
        let h = choose|h: int|
            0 <= h <= last < lines.len() && opens_ours(#[trigger] lines[h]) && forall|j: int|
                h < j <= last ==> !is_header(#[trigger] lines[j]);
        lemma_ours_is_a_header(lines[h]);
    }
}

/// Writing settings never loses anything: a `pyproject.toml` without a section of this
/// tool keeps all its text at the start, and an ignore file that is there is not
/// written.
pub proof fn written_settings_keep_what_is_there(
    root: PathView,
    boundaries: Option<Seq<char>>,
    files: ProjectFiles,
    i: int,
)
    ensures
        files.pyproject matches Some(text) ==> (!has_section(text@) ==> has_prefix(
            new_files(root, true, boundaries, files)[0].text,
            text@,
        )),
        files.has_pyllowignore ==> new_files(root, false, boundaries, files).len() == 1,
        new_files(root, false, boundaries, files)[0].path == root.joined(path_of("pyllow.toml"@)),
        new_files(root, true, boundaries, files).len() == 1,
        new_files(root, true, boundaries, files)[0].path == root.joined(
            path_of("pyproject.toml"@),
        ),
{
    if let Some(text) = files.pyproject {
        let new = new_files(root, true, boundaries, files)[0].text;
        if !has_section(text@) {
            assert(new.take(text@.len() as int) =~= text@);
        }
    }
}

/// Settings for a layout that does not exist are never written, and for one that does
/// they name it.
pub proof fn layouts_are_named_in_the_settings(
    root: PathView,
    write_pyproject: bool,
    force: bool,
    preset: Seq<char>,
    files: ProjectFiles,
)
    ensures
        !str_views(KNOWN_BOUNDARY_PRESETS@).contains(preset) ==> init_error(
            root,
            write_pyproject,
            force,
            Some(preset),
            files,
        ) is Some,
        has_suffix(
            new_files(root, write_pyproject, Some(preset), files)[0].text,
            "preset = \""@ + preset + "\"\n"@,
        ),
{
    let new = new_files(root, write_pyproject, Some(preset), files)[0].text;
    let end = "preset = \""@ + preset + "\"\n"@;
    reveal_strlit("]\npreset = \"");
    reveal_strlit("preset = \"");
    assert("]\npreset = \""@.skip(2) =~= "preset = \""@);
    assert(new.skip(new.len() - end.len()) =~= end);
}

} // verus!
