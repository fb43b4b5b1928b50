//! Settings for a project that comes from another tool.
//!
//! What can be carried over is; of the rest the user is told what it takes.
use crate::audit::{plural, plural_of};
use crate::text::{
    before_char, chars_of, decimal, decimal_text, has_prefix, is_space, lines, lines_of, occurs_at,
    parted, same, split_once, starts_with, text_before, text_between, texts_part_at_the_first, trim,
    trimmed, trimming_ends_at_the_last_letter, trimming_starts_at_the_first_letter, views,
};
use crate::types::lemma_contains_push;
use vstd::prelude::*;

verus! {

/// A tool whose settings can be read.
#[derive(Debug, Clone, Copy, PartialEq, Eq, Structural)]
pub enum SourceTool {
    /// A whitelist of vulture: names of symbols, one in a line.
    Vulture,
    /// The contracts of import-linter.
    ImportLinter,
}

/// A line for the user.
#[derive(Debug)]
pub enum Note {
    /// What needs attention.
    Warning(String),
    /// What is already taken care of.
    Covered(String),
    /// More on what was said before.
    Detail(String),
}

pub enum NoteView {
    Warning(Seq<char>),
    Covered(Seq<char>),
    Detail(Seq<char>),
}

impl View for Note {
    type V = NoteView;

    open spec fn view(&self) -> NoteView {
        match self {
            Note::Warning(s) => NoteView::Warning(s@),
            Note::Covered(s) => NoteView::Covered(s@),
            Note::Detail(s) => NoteView::Detail(s@),
        }
    }
}

pub open spec fn note_views(v: Seq<Note>) -> Seq<NoteView> {
    v.map_values(|n: Note| n@)
}

/// The settings, and what the user is told.
#[derive(Debug)]
pub struct Migration {
    pub toml: String,
    pub notes: Vec<Note>,
}

/// Whether a line says nothing: it is blank, or a comment.
pub open spec fn is_blank_or_comment(line: Seq<char>) -> bool {
    line.len() == 0 || line[0] == '#'
}

/// The symbols that a whitelist names.
pub open spec fn symbols_in(lines: Seq<Seq<char>>) -> Seq<Seq<char>>
    decreases lines.len(),
{
    if lines.len() == 0 {
        Seq::empty()
    } else {
        let before = symbols_in(lines.drop_last());
        let line = trim(lines.last());
        let symbol = trim(before_char(line, '#'));
        if is_blank_or_comment(line) || symbol.len() == 0 {
            before
        } else {
            before.push(symbol)
        }
    }
}

fn starts_with_char(s: &str, c: char) -> (r: bool)
    ensures
        r == (s@.len() > 0 && s@[0] == c),
{
    let v = chars_of(s);
    v.len() > 0 && v[0] == c
}

fn is_empty_text(s: &str) -> (r: bool)
    ensures
        r == (s@.len() == 0),
{
    chars_of(s).len() == 0
}

fn symbols_of(content: &str) -> (r: Vec<String>)
    ensures
        views(r@) == symbols_in(lines(content@)),
{
    let all = lines_of(content);
    let ghost found = views(all@);
    let mut r: Vec<String> = Vec::new();
    let mut i: usize = 0;
    assert(views(r@) =~= symbols_in(found.take(0)));
    while i < all.len()
        invariant
            i <= all@.len(),
            found == views(all@),
            views(r@) == symbols_in(found.take(i as int)),
        decreases all@.len() - i,
    {
        proof {
            assert(found.take(i + 1).drop_last() =~= found.take(i as int));
            assert(found.take(i + 1).last() == all@[i as int]@);
        }
        let line = trimmed(all[i].as_str());
        if !is_empty_text(line.as_str()) && !starts_with_char(line.as_str(), '#') {
            let symbol = trimmed(text_before(line.as_str(), '#').as_str());
            if !is_empty_text(symbol.as_str()) {
                let ghost was = views(r@);
                r.push(symbol);
                assert(views(r@) =~= was.push(symbol@));
            }
        }
        i += 1;
    }
    assert(found.take(i as int) =~= found);
    r
}

/// What the user is told of symbols that are not carried over.
pub open spec fn symbol_notes(symbols: Seq<Seq<char>>) -> Seq<NoteView> {
    if symbols.len() == 0 {
        Seq::empty()
    } else {
        seq![
            NoteView::Warning(
                "vulture's whitelist is symbol-level; pyllow's ignores are file-level."@,
            ),
            NoteView::Detail(
                "         "@ + decimal(symbols.len()) + " symbol"@ + plural(symbols.len())
                    + " were not auto-translated. Equivalents to consider per case:"@,
            ),
            NoteView::Detail(
                "           - inline `# noqa: F401` (or matching code) on the symbol's line"@,
            ),
            NoteView::Detail(
                "           - `[smells].disabled = [...]` for whole-rule suppression"@,
            ),
            NoteView::Detail(
                "           - `pyllow check --save-baseline FILE` once on a clean ref, then audit with `--baseline FILE`"@,
            ),
            NoteView::Detail("         Symbols pyllow ignored:"@),
        ] + symbols.map_values(|s: Seq<char>| NoteView::Detail("           "@ + s))
    }
}

/// The settings for a project with a whitelist of vulture.
pub open spec fn vulture_toml() -> Seq<char> {
    "# Migrated from vulture whitelist\n# See `pyllow llm` for suppression mechanisms (# noqa, baselines, [smells].disabled)\n\nentryPoints = []\nignorePatterns = []\n"@
}

/// Settings for a project with a whitelist of vulture. Its symbols cannot be
/// carried over; the user is told how to treat them.
pub fn migrate_vulture(content: &str) -> (r: Migration)
    ensures
        r.toml@ == vulture_toml(),
        note_views(r.notes@) == symbol_notes(symbols_in(lines(content@))),
{
    let symbols = symbols_of(content);
    let ghost all = views(symbols@);
    let mut notes: Vec<Note> = Vec::new();
    if symbols.len() > 0 {
        notes.push(
            Note::Warning(
                "vulture's whitelist is symbol-level; pyllow's ignores are file-level.".to_owned(),
            ),
        );
        let mut count = "         ".to_owned();
        count.append(decimal_text(symbols.len() as u64).as_str());
        count.append(" symbol");
        count.append(plural_of(symbols.len()));
        count.append(" were not auto-translated. Equivalents to consider per case:");
        notes.push(Note::Detail(count));
        notes.push(
            Note::Detail(
                "           - inline `# noqa: F401` (or matching code) on the symbol's line".to_owned(),
            ),
        );
        notes.push(
            Note::Detail(
                "           - `[smells].disabled = [...]` for whole-rule suppression".to_owned(),
            ),
        );
        notes.push(
            Note::Detail(
                "           - `pyllow check --save-baseline FILE` once on a clean ref, then audit with `--baseline FILE`".to_owned(),
            ),
        );
        notes.push(Note::Detail("         Symbols pyllow ignored:".to_owned()));
        let ghost goal = symbol_notes(all);
        assert(note_views(notes@) =~= goal.take(6));
        let mut i: usize = 0;
        while i < symbols.len()
            invariant
                i <= symbols@.len(),
                all == views(symbols@),
                all.len() > 0,
                goal == symbol_notes(all),
                note_views(notes@) == goal.take(6 + i),
            decreases symbols@.len() - i,
        {
            let mut s = "           ".to_owned();
            s.append(symbols[i].as_str());
            let ghost was = note_views(notes@);
            notes.push(Note::Detail(s));
            proof {
                assert(all[i as int] == symbols@[i as int]@);
                assert(goal[6 + i] == NoteView::Detail(s@));
                assert(note_views(notes@) =~= was.push(goal[6 + i]));
            }
            i += 1;
            assert(note_views(notes@) =~= goal.take(6 + i));
        }
        assert(note_views(notes@) =~= goal);
    } else {
        assert(note_views(notes@) =~= symbol_notes(all));
    }
    Migration {
        toml: "# Migrated from vulture whitelist\n# See `pyllow llm` for suppression mechanisms (# noqa, baselines, [smells].disabled)\n\nentryPoints = []\nignorePatterns = []\n".to_owned(),
        notes,
    }
}

/// A section of an INI file: its name, and its keys with their values.
#[verifier::ext_equal]
pub struct Section {
    pub name: Seq<char>,
    pub entries: Seq<(Seq<char>, Seq<char>)>,
}

/// How far an INI file is read: the sections that are complete, and the one that
/// is not.
#[verifier::ext_equal]
pub struct IniState {
    pub sections: Seq<Section>,
    pub current: Option<Section>,
}

/// The sections that are complete, and then the one that is not.
pub open spec fn closed(s: IniState) -> Seq<Section> {
    match s.current {
        Some(section) => s.sections.push(section),
        None => s.sections,
    }
}

/// A value with one more line.
pub open spec fn continued(value: Seq<char>, more: Seq<char>) -> Seq<char> {
    if value.len() == 0 {
        more
    } else {
        value + "\n"@ + more
    }
}

/// Whether a line belongs to the value before it: it is indented, and there is
/// one.
pub open spec fn continues(s: IniState, raw: Seq<char>) -> bool {
    raw.len() > 0 && (raw[0] == ' ' || raw[0] == '\t') && s.current is Some
        && s.current->0.entries.len() > 0
}

/// What a line does to the reading of an INI file.
pub open spec fn ini_step(s: IniState, raw: Seq<char>) -> IniState {
    let line = trim(raw);
    if is_blank_or_comment(line) || line[0] == ';' {
        s
    } else if line[0] == '[' && line.last() == ']' {
        IniState {
            sections: closed(s),
            current: Some(
                Section { name: line.subrange(1, line.len() - 1), entries: Seq::empty() },
            ),
        }
    } else if continues(s, raw) {
        let section = s.current->0;
        let last = section.entries.last();
        IniState {
            sections: s.sections,
            current: Some(
                Section {
                    name: section.name,
                    entries: section.entries.drop_last().push(
                        (last.0, continued(last.1, line)),
                    ),
                },
            ),
        }
    } else {
        match (parted(line, "="@), s.current) {
            (Some(t), Some(section)) => IniState {
                sections: s.sections,
                current: Some(
                    Section {
                        name: section.name,
                        entries: section.entries.push((trim(t.0), trim(t.1))),
                    },
                ),
            },
            _ => s,
        }
    }
}

/// How far an INI file is read after its first lines.
pub open spec fn ini_after(lines: Seq<Seq<char>>) -> IniState
    decreases lines.len(),
{
    if lines.len() == 0 {
        IniState { sections: Seq::empty(), current: None }
    } else {
        ini_step(ini_after(lines.drop_last()), lines.last())
    }
}

/// The sections of an INI file, with values that may span several lines.
pub open spec fn ini_sections(content: Seq<char>) -> Seq<Section> {
    closed(ini_after(lines(content)))
}

pub open spec fn entry_views(v: Seq<(String, String)>) -> Seq<(Seq<char>, Seq<char>)> {
    v.map_values(|e: (String, String)| (e.0@, e.1@))
}

pub open spec fn section_view(s: (String, Vec<(String, String)>)) -> Section {
    Section { name: s.0@, entries: entry_views(s.1@) }
}

pub open spec fn section_views(v: Seq<(String, Vec<(String, String)>)>) -> Seq<Section> {
    v.map_values(|s: (String, Vec<(String, String)>)| section_view(s))
}

pub open spec fn current_view(s: Option<(String, Vec<(String, String)>)>) -> Option<Section> {
    match s {
        Some(t) => Some(section_view(t)),
        None => None,
    }
}

fn inner(line: &str) -> (r: String)
    requires
        line@.len() >= 2,
    ensures
        r@ == line@.subrange(1, line@.len() - 1),
{
    let v = chars_of(line);
    let n: usize = v.len();
    text_between(&v, 1, n - 1)
}

fn add_line(entries: &mut Vec<(String, String)>, more: &str)
    requires
        old(entries)@.len() > 0,
    ensures
        entry_views(final(entries)@) == entry_views(old(entries)@).drop_last().push(
            (
                entry_views(old(entries)@).last().0,
                continued(entry_views(old(entries)@).last().1, more@),
            ),
        ),
{
    let ghost was = entry_views(entries@);
    let n: usize = entries.len();
    let key = entries[n - 1].0.clone();
    let mut value = entries[n - 1].1.clone();
    assert(was.last() == (key@, value@));
    let _ = entries.pop();
    if !is_empty_text(value.as_str()) {
        value.append("\n");
    } else {
        assert(value@ + more@ =~= more@);
    }
    value.append(more);
    entries.push((key, value));
    assert(entry_views(entries@) =~= was.drop_last().push(
        (was.last().0, continued(was.last().1, more@)),
    ));
}

/// The sections of an INI file: headers, keys, and values that may span several
/// lines. It is enough for the contracts of import-linter.
pub fn parse_ini(content: &str) -> (r: Vec<(String, Vec<(String, String)>)>)
    ensures
        section_views(r@) == ini_sections(content@),
{
    let all = lines_of(content);
    let ghost found = views(all@);
    let mut sections: Vec<(String, Vec<(String, String)>)> = Vec::new();
    let mut current: Option<(String, Vec<(String, String)>)> = None;
    let mut i: usize = 0;
    assert(section_views(sections@) =~= ini_after(found.take(0)).sections);
    while i < all.len()
        invariant
            i <= all@.len(),
            found == views(all@),
            section_views(sections@) == ini_after(found.take(i as int)).sections,
            current_view(current) == ini_after(found.take(i as int)).current,
        decreases all@.len() - i,
    {
        let raw = all[i].as_str();
        let line = trimmed(raw);
        let ghost state = ini_after(found.take(i as int));
        proof {
            assert(found.take(i + 1).drop_last() =~= found.take(i as int));
            assert(found.take(i + 1).last() == raw@);
            assert(ini_after(found.take(i + 1)) == ini_step(state, raw@));
        }
        i += 1;
        if is_empty_text(line.as_str()) || starts_with_char(line.as_str(), '#') || starts_with_char(
            line.as_str(),
            ';',
        ) {
            continue;
        }
        if starts_with_char(line.as_str(), '[') && last_is(line.as_str(), ']') {
            let ghost was = section_views(sections@);
            if let Some(section) = current {
                sections.push(section);
                assert(section_views(sections@) =~= was.push(section_view(section)));
            }
            let fresh: (String, Vec<(String, String)>) = (inner(line.as_str()), Vec::new());
            assert(section_view(fresh).entries =~= Seq::empty());
            current = Some(fresh);
            continue;
        }
        let indented = starts_with_char(raw, ' ') || starts_with_char(raw, '\t');
        match current {
            None => {
                current = None;
            },
            Some((name, entries)) => {
                let mut entries = entries;
                assert(entry_views(entries@).len() == entries@.len());
                if indented && entries.len() > 0 {
                    add_line(&mut entries, line.as_str());
                } else if let Some((key, value)) = split_once(line.as_str(), "=") {
                    let ghost was = entry_views(entries@);
                    let k = trimmed(key.as_str());
                    let v = trimmed(value.as_str());
                    entries.push((k, v));
                    assert(entry_views(entries@) =~= was.push((k@, v@)));
                }
                current = Some((name, entries));
            },
        }
    }
    assert(found.take(i as int) =~= found);
    let ghost was = section_views(sections@);
    if let Some(section) = current {
        sections.push(section);
        assert(section_views(sections@) =~= was.push(section_view(section)));
    }
    sections
}

fn last_is(s: &str, c: char) -> (r: bool)
    ensures
        r == (s@.len() > 0 && s@.last() == c),
{
    let v = chars_of(s);
    v.len() > 0 && v[v.len() - 1] == c
}

/// The value of a key, if it has one: the first that is given.
pub open spec fn value_of(entries: Seq<(Seq<char>, Seq<char>)>, key: Seq<char>) -> Option<Seq<char>>
    decreases entries.len(),
{
    if entries.len() == 0 {
        None
    } else if entries[0].0 == key {
        Some(entries[0].1)
    } else {
        value_of(entries.skip(1), key)
    }
}

/// Whether a section is a contract.
pub open spec fn is_contract(section: Section) -> bool {
    has_prefix(section.name, "importlinter:contract"@)
}

/// The type of a contract.
pub open spec fn contract_type(section: Section) -> Seq<char> {
    match value_of(section.entries, "type"@) {
        Some(t) => t,
        None => "(unknown)"@,
    }
}

/// The name of a contract: the one it is given, or that of its section.
pub open spec fn contract_name(section: Section) -> Seq<char> {
    match value_of(section.entries, "name"@) {
        Some(n) => n,
        None => section.name,
    }
}

/// What is said of a contract that is not carried over.
pub open spec fn deferred_words(section: Section) -> Seq<char> {
    let t = contract_type(section);
    if t == "layered"@ || t == "forbidden"@ {
        contract_name(section) + " (type="@ + t + ")"@
    } else {
        contract_name(section) + " (type="@ + t + ", unrecognized)"@
    }
}

/// What is said of a contract that cycles are looked for anyway.
pub open spec fn covered_words(section: Section) -> Seq<char> {
    "`"@ + contract_name(section)
        + "` (type=independence) \u{2192} covered by `pyllow check --circular-deps` (built-in, no config needed)"@
}

/// The contracts that are taken care of.
pub open spec fn covered(sections: Seq<Section>) -> Seq<Section>
    decreases sections.len(),
{
    if sections.len() == 0 {
        Seq::empty()
    } else {
        let before = covered(sections.drop_last());
        if is_contract(sections.last()) && contract_type(sections.last()) == "independence"@ {
            before.push(sections.last())
        } else {
            before
        }
    }
}

/// The contracts that are not carried over.
pub open spec fn deferred(sections: Seq<Section>) -> Seq<Section>
    decreases sections.len(),
{
    if sections.len() == 0 {
        Seq::empty()
    } else {
        let before = deferred(sections.drop_last());
        if is_contract(sections.last()) && contract_type(sections.last()) != "independence"@ {
            before.push(sections.last())
        } else {
            before
        }
    }
}

/// What the user is told of the contracts.
pub open spec fn contract_notes(sections: Seq<Section>) -> Seq<NoteView> {
    let late = deferred(sections);
    covered(sections).map_values(|s: Section| NoteView::Covered(covered_words(s))) + (if late.len()
        == 0 {
        Seq::empty()
    } else {
        seq![
            NoteView::Warning(
                decimal(late.len()) + " contract"@ + plural(late.len())
                    + " require pyllow's boundary-violation analysis (not yet shipped):"@,
            ),
        ] + late.map_values(
            |s: Section| NoteView::Detail("           "@ + deferred_words(s)),
        ).push(
            NoteView::Detail(
                "         Track them in your team's notes; pyllow will support them in a future release."@,
            ),
        )
    })
}

/// The entries of the first section with the name.
pub open spec fn section_named(sections: Seq<Section>, name: Seq<char>) -> Option<
    Seq<(Seq<char>, Seq<char>)>,
>
    decreases sections.len(),
{
    if sections.len() == 0 {
        None
    } else if sections[0].name == name {
        Some(sections[0].entries)
    } else {
        section_named(sections.skip(1), name)
    }
}

/// What is in the lines of a value, without blank ones.
pub open spec fn filled_lines(lines: Seq<Seq<char>>) -> Seq<Seq<char>>
    decreases lines.len(),
{
    if lines.len() == 0 {
        Seq::empty()
    } else {
        let before = filled_lines(lines.drop_last());
        if trim(lines.last()).len() == 0 {
            before
        } else {
            before.push(trim(lines.last()))
        }
    }
}

/// The root packages that the settings of import-linter name.
pub open spec fn root_packages(sections: Seq<Section>) -> Seq<Seq<char>> {
    match section_named(sections, "importlinter"@) {
        Some(entries) => match value_of(entries, "root_packages"@) {
            Some(value) => filled_lines(lines(value)),
            None => Seq::empty(),
        },
        None => Seq::empty(),
    }
}

/// A list of packages, one in a line.
pub open spec fn package_lines(packages: Seq<Seq<char>>) -> Seq<char>
    decreases packages.len(),
{
    if packages.len() == 0 {
        Seq::empty()
    } else {
        package_lines(packages.drop_last()) + "    \""@ + packages.last() + "\",\n"@
    }
}

/// The settings for a project with contracts of import-linter.
pub open spec fn import_linter_toml(sections: Seq<Section>) -> Seq<char> {
    let done = covered(sections).len();
    let late = deferred(sections).len();
    let packages = root_packages(sections);
    "# Migrated from import-linter `.importlinter`\n# "@ + decimal(done) + " independence contract"@
        + plural(done) + " are auto-handled by `pyllow check --circular-deps`.\n"@ + (if late == 0 {
        Seq::empty()
    } else {
        "# "@ + decimal(late) + " contract"@ + plural(late)
            + " (layered/forbidden) await pyllow boundary support.\n"@
    }) + "\n"@ + (if packages.len() == 0 {
        Seq::empty()
    } else {
        "# root_packages were lifted from .importlinter; verify they match your layout.\npackageRoots = [\n"@
            + package_lines(packages) + "]\n"@
    })
}

fn value_in(entries: &Vec<(String, String)>, key: &str) -> (r: Option<String>)
    ensures
        match r {
            Some(v) => value_of(entry_views(entries@), key@) == Some(v@),
            None => value_of(entry_views(entries@), key@) is None,
        },
{
    let ghost all = entry_views(entries@);
    let mut i: usize = 0;
    assert(all.skip(0) =~= all);
    while i < entries.len()
        invariant
            i <= entries@.len(),
            all == entry_views(entries@),
            value_of(all, key@) == value_of(all.skip(i as int), key@),
        decreases entries@.len() - i,
    {
        assert(all.skip(i as int)[0] == (entries@[i as int].0@, entries@[i as int].1@));
        assert(all.skip(i as int).skip(1) =~= all.skip(i + 1));
        if same(entries[i].0.as_str(), key) {
            return Some(entries[i].1.clone());
        }
        i += 1;
    }
    None
}

fn type_of(section: &(String, Vec<(String, String)>)) -> (r: String)
    ensures
        r@ == contract_type(section_view(*section)),
{
    match value_in(&section.1, "type") {
        Some(t) => t,
        None => "(unknown)".to_owned(),
    }
}

fn name_of(section: &(String, Vec<(String, String)>)) -> (r: String)
    ensures
        r@ == contract_name(section_view(*section)),
{
    match value_in(&section.1, "name") {
        Some(n) => n,
        None => section.0.clone(),
    }
}

fn deferred_line(section: &(String, Vec<(String, String)>)) -> (r: String)
    ensures
        r@ == deferred_words(section_view(*section)),
{
    let t = type_of(section);
    let mut r = name_of(section);
    r.append(" (type=");
    r.append(t.as_str());
    if same(t.as_str(), "layered") || same(t.as_str(), "forbidden") {
        r.append(")");
    } else {
        r.append(", unrecognized)");
    }
    r
}

fn covered_line(section: &(String, Vec<(String, String)>)) -> (r: String)
    ensures
        r@ == covered_words(section_view(*section)),
{
    let mut r = "`".to_owned();
    r.append(name_of(section).as_str());
    r.append(
        "` (type=independence) \u{2192} covered by `pyllow check --circular-deps` (built-in, no config needed)",
    );
    r
}

fn packages_of(sections: &Vec<(String, Vec<(String, String)>)>) -> (r: Vec<String>)
    ensures
        views(r@) == root_packages(section_views(sections@)),
{
    let ghost all = section_views(sections@);
    let mut i: usize = 0;
    assert(all.skip(0) =~= all);
    while i < sections.len()
        invariant
            i <= sections@.len(),
            all == section_views(sections@),
            section_named(all, "importlinter"@) == section_named(
                all.skip(i as int),
                "importlinter"@,
            ),
        decreases sections@.len() - i,
    {
        assert(all.skip(i as int)[0] == section_view(sections@[i as int]));
        assert(all.skip(i as int).skip(1) =~= all.skip(i + 1));
        if same(sections[i].0.as_str(), "importlinter") {
            return match value_in(&sections[i].1, "root_packages") {
                Some(value) => filled(value.as_str()),
                None => {
                    let r: Vec<String> = Vec::new();
                    assert(views(r@) =~= Seq::empty());
                    r
                },
            };
        }
        i += 1;
    }
    let r: Vec<String> = Vec::new();
    assert(views(r@) =~= Seq::empty());
    r
}

fn filled(value: &str) -> (r: Vec<String>)
    ensures
        views(r@) == filled_lines(lines(value@)),
{
    let all = lines_of(value);
    let ghost found = views(all@);
    let mut r: Vec<String> = Vec::new();
    let mut i: usize = 0;
    assert(views(r@) =~= filled_lines(found.take(0)));
    while i < all.len()
        invariant
            i <= all@.len(),
            found == views(all@),
            views(r@) == filled_lines(found.take(i as int)),
        decreases all@.len() - i,
    {
        proof {
            assert(found.take(i + 1).drop_last() =~= found.take(i as int));
            assert(found.take(i + 1).last() == all@[i as int]@);
        }
        let t = trimmed(all[i].as_str());
        if !is_empty_text(t.as_str()) {
            let ghost was = views(r@);
            r.push(t);
            assert(views(r@) =~= was.push(t@));
        }
        i += 1;
    }
    assert(found.take(i as int) =~= found);
    r
}

fn list_packages(packages: &Vec<String>) -> (r: String)
    ensures
        r@ == package_lines(views(packages@)),
{
    let ghost all = views(packages@);
    let mut r = String::new();
    let mut i: usize = 0;
    assert(r@ =~= package_lines(all.take(0)));
    while i < packages.len()
        invariant
            i <= packages@.len(),
            all == views(packages@),
            r@ == package_lines(all.take(i as int)),
        decreases packages@.len() - i,
    {
        proof {
            assert(all.take(i + 1).drop_last() =~= all.take(i as int));
            assert(all.take(i + 1).last() == packages@[i as int]@);
        }
        r.append("    \"");
        r.append(packages[i].as_str());
        r.append("\",\n");
        i += 1;
    }
    assert(all.take(i as int) =~= all);
    r
}

/// The notes on contracts that are not carried over.
fn deferred_notes(late: &Vec<String>) -> (r: Vec<Note>)
    requires
        late@.len() > 0,
    ensures
        note_views(r@) == seq![
            NoteView::Warning(
                decimal(late@.len()) + " contract"@ + plural(late@.len())
                    + " require pyllow's boundary-violation analysis (not yet shipped):"@,
            ),
        ] + views(late@).map_values(|s: Seq<char>| NoteView::Detail("           "@ + s)).push(
            NoteView::Detail(
                "         Track them in your team's notes; pyllow will support them in a future release."@,
            ),
        ),
{
    let ghost details = views(late@).map_values(|s: Seq<char>| NoteView::Detail("           "@ + s));
    let mut head = decimal_text(late.len() as u64);
    head.append(" contract");
    head.append(plural_of(late.len()));
    head.append(" require pyllow's boundary-violation analysis (not yet shipped):");
    let mut r: Vec<Note> = Vec::new();
    r.push(Note::Warning(head));
    let ghost first = NoteView::Warning(head@);
    let mut i: usize = 0;
    assert(note_views(r@) =~= seq![first] + details.take(0));
    while i < late.len()
        invariant
            i <= late@.len(),
            details == views(late@).map_values(
                |s: Seq<char>| NoteView::Detail("           "@ + s),
            ),
            note_views(r@) == seq![first] + details.take(i as int),
        decreases late@.len() - i,
    {
        let mut s = "           ".to_owned();
        s.append(late[i].as_str());
        let ghost was = note_views(r@);
        r.push(Note::Detail(s));
        proof {
            assert(views(late@)[i as int] == late@[i as int]@);
            assert(details[i as int] == NoteView::Detail(s@));
            assert(note_views(r@) =~= was.push(details[i as int]));
        }
        i += 1;
        assert(note_views(r@) =~= seq![first] + details.take(i as int));
    }
    assert(details.take(i as int) =~= details);
    let ghost was = note_views(r@);
    r.push(
        Note::Detail(
            "         Track them in your team's notes; pyllow will support them in a future release.".to_owned(),
        ),
    );
    proof {
        let last = NoteView::Detail(
            "         Track them in your team's notes; pyllow will support them in a future release."@,
        );
        assert(note_views(r@) =~= was.push(last));
        assert(note_views(r@) =~= seq![first] + details.push(last));
    }
    r
}

/// Settings for a project with contracts of import-linter. Contracts of
/// independence are covered by the search for cycles; the user is told of the
/// others. The root packages are carried over.
pub fn migrate_import_linter(content: &str) -> (r: Migration)
    ensures
        r.toml@ == import_linter_toml(ini_sections(content@)),
        note_views(r.notes@) == contract_notes(ini_sections(content@)),
{
    let sections = parse_ini(content);
    let ghost all = section_views(sections@);
    let mut notes: Vec<Note> = Vec::new();
    let mut late: Vec<String> = Vec::new();
    let mut done: usize = 0;
    let mut i: usize = 0;
    assert(note_views(notes@) =~= covered(all.take(0)).map_values(
        |s: Section| NoteView::Covered(covered_words(s)),
    ));
    assert(views(late@) =~= deferred(all.take(0)).map_values(|s: Section| deferred_words(s)));
    while i < sections.len()
        invariant
            i <= sections@.len(),
            all == section_views(sections@),
            done <= i,
            done == covered(all.take(i as int)).len(),
            note_views(notes@) == covered(all.take(i as int)).map_values(
                |s: Section| NoteView::Covered(covered_words(s)),
            ),
            views(late@) == deferred(all.take(i as int)).map_values(
                |s: Section| deferred_words(s),
            ),
        decreases sections@.len() - i,
    {
        let ghost one = section_view(sections@[i as int]);
        proof {
            assert(all.take(i + 1).drop_last() =~= all.take(i as int));
            assert(all.take(i + 1).last() == one);
        }
        if starts_with(sections[i].0.as_str(), "importlinter:contract") {
            if same(type_of(&sections[i]).as_str(), "independence") {
                done += 1;
                let ghost was = note_views(notes@);
                notes.push(Note::Covered(covered_line(&sections[i])));
                proof {
                    assert(note_views(notes@) =~= was.push(
                        NoteView::Covered(covered_words(one)),
                    ));
                    assert(covered(all.take(i + 1)).map_values(
                        |s: Section| NoteView::Covered(covered_words(s)),
                    ) =~= was.push(NoteView::Covered(covered_words(one))));
                }
            } else {
                let ghost was = views(late@);
                late.push(deferred_line(&sections[i]));
                proof {
                    assert(views(late@) =~= was.push(deferred_words(one)));
                    assert(deferred(all.take(i + 1)).map_values(|s: Section| deferred_words(s))
                        =~= was.push(deferred_words(one)));
                }
            }
        }
        i += 1;
    }
    assert(all.take(i as int) =~= all);
    let ghost covered_part = note_views(notes@);
    let ghost late_sections = deferred(all);
    let mut toml = "# Migrated from import-linter `.importlinter`\n# ".to_owned();
    toml.append(decimal_text(done as u64).as_str());
    toml.append(" independence contract");
    toml.append(plural_of(done));
    toml.append(" are auto-handled by `pyllow check --circular-deps`.\n");
    assert(views(late@).len() == late@.len());
    if late.len() > 0 {
        let mut more = deferred_notes(&late);
        let ghost a = notes@;
        let ghost b = more@;
        notes.append(&mut more);
        proof {
            assert(note_views(a + b) =~= note_views(a) + note_views(b));
            assert(views(late@).map_values(|s: Seq<char>| NoteView::Detail("           "@ + s))
                =~= late_sections.map_values(
                |s: Section| NoteView::Detail("           "@ + deferred_words(s)),
            ));
        }
        toml.append("# ");
        toml.append(decimal_text(late.len() as u64).as_str());
        toml.append(" contract");
        toml.append(plural_of(late.len()));
        toml.append(" (layered/forbidden) await pyllow boundary support.\n");
    } else {
        assert(note_views(notes@) =~= covered_part + Seq::empty());
    }
    toml.append("\n");
    let packages = packages_of(&sections);
    assert(views(packages@).len() == packages@.len());
    if packages.len() > 0 {
        toml.append(
            "# root_packages were lifted from .importlinter; verify they match your layout.\npackageRoots = [\n",
        );
        toml.append(list_packages(&packages).as_str());
        toml.append("]\n");
    }
    assert(toml@ =~= import_linter_toml(all));
    Migration { toml, notes }
}

/// Every contract is either covered or named to the user; none is dropped in
/// silence.
pub proof fn no_contract_is_dropped(sections: Seq<Section>, i: int)
    requires
        0 <= i < sections.len(),
        is_contract(sections[i]),
    ensures
        covered(sections).contains(sections[i]) || deferred(sections).contains(sections[i]),
    decreases sections.len(),
{
    let front = sections.drop_last();
    if i < sections.len() - 1 {
        no_contract_is_dropped(front, i);
        crate::types::lemma_contains_push(covered(front), sections.last(), sections[i]);
        crate::types::lemma_contains_push(deferred(front), sections.last(), sections[i]);
    } else {
        crate::types::lemma_contains_push(covered(front), sections.last(), sections[i]);
        crate::types::lemma_contains_push(deferred(front), sections.last(), sections[i]);
    }
}

/// A contract is covered if and only if it is one of independence, and every other one
/// is named to the user; sections that are no contracts are neither.
pub proof fn contracts_are_covered_by_type(sections: Seq<Section>, section: Section)
    ensures
        covered(sections).contains(section) <==> sections.contains(section) && is_contract(section)
            && contract_type(section) == "independence"@,
        deferred(sections).contains(section) <==> sections.contains(section) && is_contract(section)
            && contract_type(section) != "independence"@,
    decreases sections.len(),
{
    if sections.len() > 0 {
        let front = sections.drop_last();
        contracts_are_covered_by_type(front, section);
        assert(sections =~= front.push(sections.last()));
        lemma_contains_push(front, sections.last(), section);
        lemma_contains_push(covered(front), sections.last(), section);
        lemma_contains_push(deferred(front), sections.last(), section);
    }
}

/// The user is told of every contract, by its name: of those that are covered that
/// they are, and of the others which they are.
pub proof fn every_contract_is_named_to_the_user(sections: Seq<Section>, i: int)
    requires
        0 <= i < sections.len(),
        is_contract(sections[i]),
    ensures
        contract_type(sections[i]) == "independence"@ ==> contract_notes(sections).contains(
            NoteView::Covered(covered_words(sections[i])),
        ),
        contract_type(sections[i]) != "independence"@ ==> contract_notes(sections).contains(
            NoteView::Detail("           "@ + deferred_words(sections[i])),
        ),
{
    let s = sections[i];
    contracts_are_covered_by_type(sections, s);
    assert(sections.contains(s));
    let notes = contract_notes(sections);
    let early = covered(sections);
    let late = deferred(sections);
    if contract_type(s) == "independence"@ {
        let k = choose|k: int| 0 <= k < early.len() && early[k] == s;
        assert(notes[k] == NoteView::Covered(covered_words(s)));
    } else {
        let k = choose|k: int| 0 <= k < late.len() && late[k] == s;
        assert(notes[early.len() + 1 + k] == NoteView::Detail(
            "           "@ + deferred_words(s),
        ));
    }
}

/// Of several values for a key the first counts; a key without an entry has none.
pub proof fn the_first_value_counts(
    entries: Seq<(Seq<char>, Seq<char>)>,
    key: Seq<char>,
    k: int,
)
    requires
        0 <= k <= entries.len(),
        forall|j: int| 0 <= j < k ==> (#[trigger] entries[j]).0 != key,
        k < entries.len() ==> entries[k].0 == key,
    ensures
        k < entries.len() ==> value_of(entries, key) == Some(entries[k].1),
        k == entries.len() ==> value_of(entries, key) is None,
    decreases k,
{
    if k > 0 {
        let rest = entries.skip(1);
        assert(entries[0].0 != key);
        assert forall|j: int| 0 <= j < k - 1 implies (#[trigger] rest[j]).0 != key by {
            assert(rest[j] == entries[j + 1]);
        }
        if k < entries.len() {
            assert(rest[k - 1] == entries[k]);
        }
        the_first_value_counts(rest, key, k - 1);
    }
}

/// A line `[name]` starts a section, and what was read before stays read; a comment
/// and a blank line change nothing.
pub proof fn headers_start_sections(s: IniState, name: Seq<char>, line: Seq<char>)
    requires
        trim(line).len() == 0 || trim(line)[0] == '#' || trim(line)[0] == ';',
    ensures
        ini_step(s, seq!['['] + name + seq![']']) == (IniState {
            sections: match s.current {
                Some(section) => s.sections.push(section),
                None => s.sections,
            },
            current: Some(Section { name, entries: Seq::empty() }),
        }),
        ini_step(s, line) == s,
{
    let raw = seq!['['] + name + seq![']'];
    let e = Seq::<char>::empty();
    assert(e + raw =~= raw);
    assert(raw + e =~= raw);
    assert(raw[0] == '[');
    assert(raw.last() == ']');
    trimming_starts_at_the_first_letter(e, raw);
    trimming_ends_at_the_last_letter(raw, e);
    assert(raw.subrange(1, raw.len() - 1) =~= name);
}

/// A line `key = value` at the start of a line adds an entry to the section that it
/// stands in, without the white space around either, and everything behind the first
/// equals sign is value. The sections before are not touched.
pub proof fn entries_stand_in_their_section(s: IniState, key: Seq<char>, value: Seq<char>)
    requires
        s.current is Some,
        key.len() > 0,
        !key.contains('='),
        !is_space(key[0]),
        key[0] != '#',
        key[0] != ';',
        key[0] != '[',
        value.len() > 0,
        !is_space(value.last()),
    ensures
        ini_step(s, key + "="@ + value) == (IniState {
            sections: s.sections,
            current: Some(
                Section {
                    name: (s.current->0).name,
                    entries: (s.current->0).entries.push((trim(key), trim(value))),
                },
            ),
        }),
{
    reveal_strlit("=");
    let raw = key + "="@ + value;
    let e = Seq::<char>::empty();
    assert(e + raw =~= raw);
    assert(raw + e =~= raw);
    assert(raw[0] == key[0]);
    assert(raw.last() == value.last());
    trimming_starts_at_the_first_letter(e, raw);
    trimming_ends_at_the_last_letter(raw, e);
    assert forall|j: int| 0 <= j < key.len() implies !#[trigger] occurs_at(key + "="@, "="@, j) by {
        if occurs_at(key + "="@, "="@, j) {
            assert((key + "="@).subrange(j, j + 1)[0] == '=');
            assert(key[j] == '=');
        }
    }
    texts_part_at_the_first(key, "="@, value);
}

/// An indented line goes on with the value before it, in a line of its own.
pub proof fn indented_lines_go_on(s: IniState, more: Seq<char>)
    requires
        s.current is Some,
        (s.current->0).entries.len() > 0,
        (s.current->0).entries.last().1.len() > 0,
        more.len() > 0,
        !is_space(more[0]),
        !is_space(more.last()),
        more[0] != '#',
        more[0] != ';',
        more[0] != '[',
    ensures
        ini_step(s, seq![' '] + more).sections == s.sections,
        ini_step(s, seq![' '] + more).current matches Some(section) && section.name == (
        s.current->0).name && section.entries.len() == (s.current->0).entries.len()
            && section.entries.drop_last() == (s.current->0).entries.drop_last()
            && section.entries.last().0 == (s.current->0).entries.last().0
            && section.entries.last().1 == (s.current->0).entries.last().1 + "\n"@ + more,
{
    let raw = seq![' '] + more;
    let e = Seq::<char>::empty();
    assert(more + e =~= more);
    trimming_starts_at_the_first_letter(seq![' '], more);
    trimming_ends_at_the_last_letter(more, e);
    let section = s.current->0;
    let last = section.entries.last();
    assert(section.entries.drop_last().push((last.0, continued(last.1, more))).drop_last()
        =~= section.entries.drop_last());
}

/// Every line of a whitelist that names a symbol, with or without a comment behind
/// it, contributes the symbol.
pub proof fn whitelisted_symbols_are_named(lines: Seq<Seq<char>>, i: int, symbol: Seq<char>)
    requires
        0 <= i < lines.len(),
        trim(lines[i]).len() > 0,
        trim(lines[i])[0] != '#',
        symbol == trim(before_char(trim(lines[i]), '#')),
        symbol.len() > 0,
    ensures
        symbols_in(lines).contains(symbol),
    decreases lines.len(),
{
    let before = symbols_in(lines.drop_last());
    let all = symbols_in(lines);
    if i < lines.len() - 1 {
        whitelisted_symbols_are_named(lines.drop_last(), i, symbol);
        let k = choose|k: int| 0 <= k < before.len() && before[k] == symbol;
        assert(all[k] == symbol);
    } else {
        assert(all[before.len() as int] == symbol);
    }
}

} // verus!
