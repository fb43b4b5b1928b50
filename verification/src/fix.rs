//! Taking unused imports out of files.
use crate::collections::{place_map_contents, place_map_get, place_map_insert, place_map_new};
use crate::issue::{issue_views, Issue, IssueView};
use crate::path::{FilePath, PathView};
use crate::report::{relative_posix, relative_text};
use crate::scope::ResolvedPath;
use crate::text::{
    before_char, before_char_ends_at_the_first, chars_of, contains_text, decimal, decimal_text,
    ends_with, has_char, has_prefix, has_suffix, is_space, join, join_with, lemma_split_nonempty,
    lines, lines_of, occurs_at, parted, same, split_on, split_once, starts_with, strip_cr,
    strip_prefix,     text_before, texts_part_at_the_first, texts_without_the_separator_stay_whole, trim, trim_end,
    trim_start, trimmed, trimmed_end, trimmed_start, trimming_ends_at_the_last_letter,
    trimming_starts_at_the_first_letter, views,
};
use vstd::prelude::*;

verus! {

/// The code of a line: what stands before a comment, without the white space
/// around it.
pub open spec fn code_of(line: Seq<char>) -> Seq<char> {
    trim_end(before_char(trim_start(line), '#'))
}

/// Whether what stands behind `import` binds exactly the name.
pub open spec fn import_binds(rest: Seq<char>, name: Seq<char>) -> bool {
    &&& !rest.contains(',')
    &&& !rest.contains('(')
    &&& match parted(rest, " as "@) {
        Some(t) => trim(t.1) == name,
        None => trim(before_char(rest, '.')) == name,
    }
}

/// Whether what stands behind `from` binds exactly the name.
pub open spec fn from_binds(rest: Seq<char>, name: Seq<char>) -> bool {
    match parted(rest, " import "@) {
        None => false,
        Some(t) => {
            let part = trim(t.1);
            &&& !part.contains(',')
            &&& !has_prefix(part, "("@)
            &&& match parted(part, " as "@) {
                Some(u) => trim(u.1) == name,
                None => part == name,
            }
        },
    }
}

/// Whether a line is an import of exactly the name, so that the whole line can
/// go.
pub open spec fn is_removable(line: Seq<char>, name: Seq<char>) -> bool {
    let code = code_of(line);
    if has_prefix(code, "import "@) {
        import_binds(code.skip("import "@.len() as int), name)
    } else if has_prefix(code, "from "@) {
        from_binds(code.skip("from "@.len() as int), name)
    } else {
        false
    }
}

/// Whether a line is an import of exactly the name. A line that binds several
/// names, or that opens a bracket, is left to the user.
pub fn can_safely_remove(line: &str, name: &str) -> (r: bool)
    ensures
        r == is_removable(line@, name@),
{
    let start = trimmed_start(line);
    let bare = text_before(start.as_str(), '#');
    let code = trimmed_end(bare.as_str());
    if let Some(rest) = strip_prefix(code.as_str(), "import ") {
        if has_char(rest.as_str(), ',') || has_char(rest.as_str(), '(') {
            return false;
        }
        return match split_once(rest.as_str(), " as ") {
            Some((_, alias)) => same(trimmed(alias.as_str()).as_str(), name),
            None => same(trimmed(text_before(rest.as_str(), '.').as_str()).as_str(), name),
        };
    }
    if let Some(rest) = strip_prefix(code.as_str(), "from ") {
        return match split_once(rest.as_str(), " import ") {
            None => false,
            Some((_, tail)) => {
                let part = trimmed(tail.as_str());
                if has_char(part.as_str(), ',') || starts_with(part.as_str(), "(") {
                    false
                } else {
                    match split_once(part.as_str(), " as ") {
                        Some((_, alias)) => same(trimmed(alias.as_str()).as_str(), name),
                        None => same(part.as_str(), name),
                    }
                }
            },
        };
    }
    false
}

/// Whether a text is one word of an import: it holds no white space, and nothing
/// that goes on to another name, opens a bracket or starts a comment.
pub open spec fn is_word(s: Seq<char>) -> bool {
    s.len() > 0 && forall|i: int|
        0 <= i < s.len() ==> !is_space(#[trigger] s[i]) && s[i] != ',' && s[i] != '(' && s[i] != '#'
}

/// Whether a text is nothing but white space.
pub open spec fn is_blank(s: Seq<char>) -> bool {
    forall|i: int| 0 <= i < s.len() ==> is_space(#[trigger] s[i])
}

/// A statement is the code of every line that it stands on, with white space before
/// it and white space and a comment behind it.
pub proof fn code_is_what_is_not_commented(
    lead: Seq<char>,
    code: Seq<char>,
    space: Seq<char>,
    comment: Seq<char>,
)
    requires
        is_blank(lead),
        is_blank(space),
        comment.len() > 0 ==> comment[0] == '#',
        code.len() > 0,
        !is_space(code[0]),
        !is_space(code.last()),
        !code.contains('#'),
    ensures
        code_of(lead + code + space + comment) == code,
{
    let line = lead + code + space + comment;
    let rest = code + space + comment;
    assert(line =~= lead + rest);
    assert(rest[0] == code[0]);
    trimming_starts_at_the_first_letter(lead, rest);
    assert(!(code + space).contains('#')) by {
        if (code + space).contains('#') {
            let k = choose|k: int| 0 <= k < (code + space).len() && (code + space)[k] == '#';
            if k < code.len() {
                assert(code[k] == '#');
            } else {
                assert(is_space(space[k - code.len()]));
            }
        }
    }
    before_char_ends_at_the_first(code + space, comment, '#');
    trimming_ends_at_the_last_letter(code, space);
}

proof fn lemma_words_are_trimmed(a: Seq<char>, b: Seq<char>)
    requires
        is_word(a),
        is_word(b),
    ensures
        trim(a) == a,
        trim(a + " as "@ + b) == a + " as "@ + b,
        parted(a, " as "@) is None,
        parted(a + " as "@ + b, " as "@) == Some((a, b)),
        !a.contains(','),
        !a.contains('('),
        !a.contains('#'),
        !(a + " as "@ + b).contains(','),
        !(a + " as "@ + b).contains('('),
        !(a + " as "@ + b).contains('#'),
{
    reveal_strlit(" as ");
    let p = " as "@;
    let e = Seq::<char>::empty();
    let ab = a + p + b;
    assert(e + a =~= a);
    assert(a + e =~= a);
    assert(e + ab =~= ab);
    assert(ab + e =~= ab);
    assert(ab[0] == a[0]);
    assert(ab.last() == b[b.len() - 1]);
    trimming_starts_at_the_first_letter(e, a);
    trimming_ends_at_the_last_letter(a, e);
    trimming_starts_at_the_first_letter(e, ab);
    trimming_ends_at_the_last_letter(ab, e);
    assert(!contains_text(a, p)) by {
        if contains_text(a, p) {
            let i = choose|i: int| occurs_at(a, p, i);
            assert(a.subrange(i, i + p.len())[0] == ' ');
            assert(!is_space(a[i]));
        }
    }
    texts_without_the_separator_stay_whole(a, p);
    assert forall|j: int| 0 <= j < a.len() implies !#[trigger] occurs_at(a + p, p, j) by {
        if occurs_at(a + p, p, j) {
            assert((a + p).subrange(j, j + p.len())[0] == ' ');
            assert(!is_space(a[j]));
        }
    }
    texts_part_at_the_first(a, p, b);
    assert forall|c: char| (c == ',' || c == '(' || c == '#') implies !#[trigger] ab.contains(c) by {
        if ab.contains(c) {
            let k = choose|k: int| 0 <= k < ab.len() && ab[k] == c;
            if k < a.len() {
                assert(a[k] == c);
            } else if k >= a.len() + 4 {
                assert(b[k - a.len() - 4] == c);
            } else {
                assert(p[k - a.len()] == c);
            }
        }
    }
}

/// Relative or not, `from module import name` alone on its line can go when `name`
/// is unused, and so can `from module import other as name`: whatever the module
/// text is, as long as it holds neither `import` as a word of its own nor a comment,
/// and whatever white space and comment stand around the statement.
pub proof fn single_from_imports_can_go(
    lead: Seq<char>,
    module: Seq<char>,
    other: Seq<char>,
    name: Seq<char>,
    space: Seq<char>,
    comment: Seq<char>,
)
    requires
        is_blank(lead),
        is_blank(space),
        comment.len() > 0 ==> comment[0] == '#',
        is_word(name),
        is_word(other),
        !module.contains('#'),
        !contains_text(module + " "@, " import "@),
    ensures
        is_removable(lead + ("from "@ + module + " import "@ + name) + space + comment, name),
        is_removable(
            lead + ("from "@ + module + " import "@ + (other + " as "@ + name)) + space + comment,
            name,
        ),
{
    lemma_words_are_trimmed(name, name);
    lemma_words_are_trimmed(other, name);
    reveal_strlit(" as ");
    let alias = other + " as "@ + name;
    assert(alias[0] == other[0]);
    assert(alias.last() == name[name.len() - 1]);
    lemma_from_line(lead, module, name, space, comment);
    lemma_from_line(lead, module, alias, space, comment);
    reveal_strlit("(");
    assert(!has_prefix(name, "("@)) by {
        if has_prefix(name, "("@) {
            assert(name.take(1)[0] == '(');
            assert(name[0] == '(');
        }
    }
    assert(!has_prefix(alias, "("@)) by {
        if has_prefix(alias, "("@) {
            assert(alias.take(1)[0] == '(');
            assert(other[0] == '(');
        }
    }
    assert(from_binds(module + " import "@ + name, name));
    assert(from_binds(module + " import "@ + alias, name));
}

/// How a line with `from module import part` is read.
proof fn lemma_from_line(
    lead: Seq<char>,
    module: Seq<char>,
    part: Seq<char>,
    space: Seq<char>,
    comment: Seq<char>,
)
    requires
        is_blank(lead),
        is_blank(space),
        comment.len() > 0 ==> comment[0] == '#',
        part.len() > 0,
        !is_space(part.last()),
        !part.contains('#'),
        !module.contains('#'),
        !contains_text(module + " "@, " import "@),
    ensures
        forall|name: Seq<char>|
            is_removable(
                lead + ("from "@ + module + " import "@ + part) + space + comment,
                name,
            ) == #[trigger] from_binds(module + " import "@ + part, name),
        parted(module + " import "@ + part, " import "@) == Some((module, part)),
{
    reveal_strlit("from ");
    reveal_strlit("import ");
    reveal_strlit(" import ");
    reveal_strlit(" ");
    let p = " import "@;
    let code = "from "@ + module + p + part;
    assert(code[0] == 'f');
    assert(code.last() == part.last());
    assert(!code.contains('#')) by {
        if code.contains('#') {
            let k = choose|k: int| 0 <= k < code.len() && code[k] == '#';
            if k < 5 {
                assert("from "@[k] == '#');
            } else if k < 5 + module.len() {
                assert(module[k - 5] == '#');
            } else if k < 13 + module.len() {
                assert(p[k - 5 - module.len()] == '#');
            } else {
                assert(part[k - 13 - module.len()] == '#');
            }
        }
    }
    code_is_what_is_not_commented(lead, code, space, comment);
    assert(!has_prefix(code, "import "@)) by {
        if has_prefix(code, "import "@) {
            assert(code.take(7)[0] == 'i');
        }
    }
    assert(code.take(5) =~= "from "@);
    assert(has_prefix(code, "from "@));
    assert(code.skip(5) =~= module + p + part);
    assert forall|j: int| 0 <= j < module.len() implies !#[trigger] occurs_at(module + p, p, j) by {
        if occurs_at(module + p, p, j) {
            let both = module + p;
            let here = both.subrange(j, j + 8);
            let d = module.len() - j;
            if d < 8 {
                assert(here[d] == both[module.len() as int]);
                assert(p[d] == ' ');
                assert(d == 7);
            }
            assert((module + " "@).subrange(j, j + 8) =~= here);
            assert(occurs_at(module + " "@, p, j));
        }
    }
    texts_part_at_the_first(module, p, part);
}

/// `import name`, `import name.below` and `import module as name` alone on a line
/// can go when `name` is unused, whatever white space and comment stand around the
/// statement.
pub proof fn single_imports_can_go(
    lead: Seq<char>,
    name: Seq<char>,
    below: Seq<char>,
    module: Seq<char>,
    space: Seq<char>,
    comment: Seq<char>,
)
    requires
        is_blank(lead),
        is_blank(space),
        comment.len() > 0 ==> comment[0] == '#',
        is_word(name),
        !name.contains('.'),
        below.len() > 0 ==> below[0] == '.' && is_word(below),
        is_word(module),
    ensures
        is_removable(lead + ("import "@ + (name + below)) + space + comment, name),
        is_removable(lead + ("import "@ + (module + " as "@ + name)) + space + comment, name),
{
    let whole = name + below;
    assert(is_word(whole)) by {
        assert forall|i: int| 0 <= i < whole.len() implies !is_space(#[trigger] whole[i])
            && whole[i] != ',' && whole[i] != '(' && whole[i] != '#' by {
            if i < name.len() {
                assert(whole[i] == name[i]);
            } else {
                assert(whole[i] == below[i - name.len()]);
            }
        }
    }
    lemma_words_are_trimmed(whole, whole);
    lemma_words_are_trimmed(name, name);
    lemma_words_are_trimmed(module, name);
    reveal_strlit(" as ");
    let alias = module + " as "@ + name;
    assert(whole.last() == whole[whole.len() - 1]);
    assert(alias.last() == name[name.len() - 1]);
    before_char_ends_at_the_first(name, below, '.');
    lemma_import_line(lead, whole, space, comment);
    lemma_import_line(lead, alias, space, comment);
    assert(import_binds(whole, name));
    assert(import_binds(alias, name));
}

/// How a line with `import part` is read.
proof fn lemma_import_line(
    lead: Seq<char>,
    part: Seq<char>,
    space: Seq<char>,
    comment: Seq<char>,
)
    requires
        is_blank(lead),
        is_blank(space),
        comment.len() > 0 ==> comment[0] == '#',
        part.len() > 0,
        !is_space(part.last()),
        !part.contains('#'),
    ensures
        forall|name: Seq<char>|
            is_removable(lead + ("import "@ + part) + space + comment, name)
                == #[trigger] import_binds(part, name),
{
    reveal_strlit("import ");
    let code = "import "@ + part;
    assert(code[0] == 'i');
    assert(code.last() == part.last());
    assert(!code.contains('#')) by {
        if code.contains('#') {
            let k = choose|k: int| 0 <= k < code.len() && code[k] == '#';
            if k < 7 {
                assert("import "@[k] == '#');
            } else {
                assert(part[k - 7] == '#');
            }
        }
    }
    code_is_what_is_not_commented(lead, code, space, comment);
    assert(code.take(7) =~= "import "@);
    assert(has_prefix(code, "import "@));
    assert(code.skip(7) =~= part);
}

/// A line that imports several names, or that opens a bracket for them, stays: it
/// is removable for no name at all.
pub proof fn lines_with_several_names_stay(
    lead: Seq<char>,
    module: Seq<char>,
    names: Seq<char>,
    name: Seq<char>,
    space: Seq<char>,
    comment: Seq<char>,
)
    requires
        is_blank(lead),
        is_blank(space),
        comment.len() > 0 ==> comment[0] == '#',
        names.len() > 0,
        !is_space(names[0]),
        !is_space(names.last()),
        !names.contains('#'),
        names.contains(',') || names[0] == '(',
        !module.contains('#'),
        !contains_text(module + " "@, " import "@),
    ensures
        !is_removable(lead + ("from "@ + module + " import "@ + names) + space + comment, name),
        !is_removable(lead + ("import "@ + names) + space + comment, name),
{
    let e = Seq::<char>::empty();
    assert(e + names =~= names);
    assert(names + e =~= names);
    trimming_starts_at_the_first_letter(e, names);
    trimming_ends_at_the_last_letter(names, e);
    lemma_from_line(lead, module, names, space, comment);
    lemma_import_line(lead, names, space, comment);
    reveal_strlit("(");
    if names[0] == '(' {
        assert(names.take(1) =~= "("@);
        assert(has_prefix(names, "("@));
        assert(names.contains('('));
    }
    assert(!from_binds(module + " import "@ + names, name));
    assert(!import_binds(names, name));
}

/// A line goes for one name at most, and only if it starts with `import` or `from`.
pub proof fn removable_lines_bind_one_name(line: Seq<char>, a: Seq<char>, b: Seq<char>)
    requires
        is_removable(line, a),
    ensures
        is_removable(line, b) ==> a == b,
        has_prefix(trim_start(line), "import"@) || has_prefix(trim_start(line), "from"@),
{
    let start = trim_start(line);
    let bare = before_char(start, '#');
    let code = code_of(line);
    lemma_before_char_is_prefix(start, '#');
    lemma_trim_end_is_prefix(bare);
    reveal_strlit("import ");
    reveal_strlit("from ");
    reveal_strlit("import");
    reveal_strlit("from");
    if has_prefix(code, "import "@) {
        assert(start.take(6) =~= code.take(7).take(6));
        assert("import "@.take(6) =~= "import"@);
    } else {
        assert(start.take(4) =~= code.take(5).take(4));
        assert("from "@.take(4) =~= "from"@);
    }
}

proof fn lemma_before_char_is_prefix(s: Seq<char>, c: char)
    ensures
        before_char(s, c).len() <= s.len(),
        before_char(s, c) == s.take(before_char(s, c).len() as int),
    decreases s.len(),
{
    if s.len() > 0 {
        let rest = s.drop_last();
        lemma_before_char_is_prefix(rest, c);
        lemma_split_nonempty(rest, c);
        let b = before_char(rest, c);
        if before_char(s, c) == b {
            assert(rest.take(b.len() as int) =~= s.take(b.len() as int));
        } else {
            assert(split_on(rest, c).len() == 1);
            assert(before_char(s, c) == b.push(s.last()));
            lemma_single_part_is_whole(rest, c);
            assert(rest.push(s.last()) =~= s);
            assert(s.take(s.len() as int) =~= s);
        }
    } else {
        assert(s.take(0) =~= before_char(s, c));
    }
}

proof fn lemma_single_part_is_whole(s: Seq<char>, c: char)
    requires
        split_on(s, c).len() == 1,
    ensures
        split_on(s, c)[0] == s,
    decreases s.len(),
{
    if s.len() > 0 {
        lemma_split_nonempty(s.drop_last(), c);
        lemma_single_part_is_whole(s.drop_last(), c);
        assert(s.drop_last().push(s.last()) =~= s);
    }
}

proof fn lemma_trim_end_is_prefix(s: Seq<char>)
    ensures
        trim_end(s).len() <= s.len(),
        trim_end(s) == s.take(trim_end(s).len() as int),
    decreases s.len(),
{
    if s.len() > 0 && is_space(s.last()) {
        lemma_trim_end_is_prefix(s.drop_last());
        let n = trim_end(s).len() as int;
        assert(s.drop_last().take(n) =~= s.take(n));
    } else {
        assert(s.take(s.len() as int) =~= s);
    }
}

/// An unused import: its line, counted from 1, and the name.
#[derive(Debug)]
pub struct Unused {
    pub line: u32,
    pub name: String,
}

pub struct UnusedName {
    pub line: u32,
    pub name: Seq<char>,
}

impl View for Unused {
    type V = UnusedName;

    open spec fn view(&self) -> UnusedName {
        UnusedName { line: self.line, name: self.name@ }
    }
}

pub open spec fn unused_names(v: Seq<Unused>) -> Seq<UnusedName> {
    v.map_values(|u: Unused| u@)
}

/// The unused imports of a file.
#[derive(Debug)]
pub struct FileFixes {
    pub path: FilePath,
    pub unused: Vec<Unused>,
}

#[verifier::ext_equal]
pub struct FixGroup {
    pub path: PathView,
    pub unused: Seq<UnusedName>,
}

impl View for FileFixes {
    type V = FixGroup;

    open spec fn view(&self) -> FixGroup {
        FixGroup { path: self.path@, unused: unused_names(self.unused@) }
    }
}

pub open spec fn fix_groups(v: Seq<FileFixes>) -> Seq<FixGroup> {
    v.map_values(|f: FileFixes| f@)
}

/// Whether group `i` is that of the path with the text.
pub open spec fn is_group_of(groups: Seq<FixGroup>, text: Seq<char>, i: int) -> bool {
    0 <= i < groups.len() && groups[i].path.plain() == text
}

/// The groups with one more unused import: it joins the group of its file, or
/// starts a new one.
pub open spec fn with_unused(groups: Seq<FixGroup>, path: PathView, one: UnusedName) -> Seq<FixGroup> {
    if exists|i: int| is_group_of(groups, path.plain(), i) {
        let i = choose|i: int| is_group_of(groups, path.plain(), i);
        groups.update(i, FixGroup { path: groups[i].path, unused: groups[i].unused.push(one) })
    } else {
        groups.push(FixGroup { path, unused: seq![one] })
    }
}

/// The unused imports among the findings, by file.
pub open spec fn grouped(issues: Seq<IssueView>) -> Seq<FixGroup>
    decreases issues.len(),
{
    if issues.len() == 0 {
        Seq::empty()
    } else {
        let before = grouped(issues.drop_last());
        match issues.last() {
            IssueView::UnusedImport { path, line: l, name, .. } => with_unused(
                before,
                path,
                UnusedName { line: l, name },
            ),
            _ => before,
        }
    }
}

/// No two groups are of the same file.
spec fn distinct_groups(groups: Seq<FixGroup>) -> bool {
    forall|i: int, j: int|
        0 <= i < j < groups.len() ==> (#[trigger] groups[i]).path.plain() != (
        #[trigger] groups[j]).path.plain()
}

/// Whether the map leads from the text of each path to its group.
spec fn indexes(m: Map<Seq<char>, usize>, groups: Seq<FixGroup>) -> bool {
    &&& forall|t: Seq<char>| #[trigger]
        m.contains_key(t) ==> is_group_of(groups, t, m[t] as int)
    &&& forall|i: int|
        0 <= i < groups.len() ==> m.contains_key((#[trigger] groups[i]).path.plain())
}

/// The unused imports among the findings, by file, in the order in which the
/// files first occur.
pub fn unused_by_file(issues: &Vec<Issue>) -> (r: Vec<FileFixes>)
    ensures
        fix_groups(r@) == grouped(issue_views(issues@)),
{
    let ghost all = issue_views(issues@);
    let mut r: Vec<FileFixes> = Vec::new();
    let mut places = place_map_new();
    let mut i: usize = 0;
    assert(fix_groups(r@) =~= grouped(all.take(0)));
    while i < issues.len()
        invariant
            i <= issues@.len(),
            all == issue_views(issues@),
            fix_groups(r@) == grouped(all.take(i as int)),
            distinct_groups(fix_groups(r@)),
            indexes(place_map_contents(places), fix_groups(r@)),
        decreases issues@.len() - i,
    {
        proof {
            assert(all.take(i + 1).drop_last() =~= all.take(i as int));
            assert(all.take(i + 1).last() == issues@[i as int]@);
        }
        if let Issue::UnusedImport { path, line: l, name, .. } = &issues[i] {
            let one = Unused { line: *l, name: name.clone() };
            let text = path.plain();
            let ghost was = fix_groups(r@);
            match place_map_get(&places, text.as_str()) {
                Some(at) => {
                    assert(is_group_of(was, text@, at as int));
                    add_to(&mut r, at, one);
                    proof {
                        let c = choose|c: int| is_group_of(was, text@, c);
                        assert(is_group_of(was, text@, c));
                        assert(c == at) by {
                            if c < at {
                                assert(was[c].path.plain() != was[at as int].path.plain());
                            }
                            if at < c {
                                assert(was[at as int].path.plain() != was[c].path.plain());
                            }
                        }
                        let now = fix_groups(r@);
                        assert forall|a: int| 0 <= a < now.len() implies (#[trigger] now[a]).path
                            == was[a].path by {}
                        assert(indexes(place_map_contents(places), now)) by {
                            assert forall|t: Seq<char>| #[trigger]
                                place_map_contents(places).contains_key(t) implies is_group_of(
                                now,
                                t,
                                place_map_contents(places)[t] as int,
                            ) by {
                                assert(is_group_of(was, t, place_map_contents(places)[t] as int));
                            }
                        }
                    }
                },
                None => {
                    let ghost before = place_map_contents(places);
                    let n: usize = r.len();
                    place_map_insert(&mut places, text, n);
                    let mut unused: Vec<Unused> = Vec::new();
                    unused.push(one);
                    assert(unused_names(unused@) =~= seq![one@]);
                    r.push(FileFixes { path: path.clone(), unused });
                    proof {
                        let now = fix_groups(r@);
                        let fresh = FixGroup { path: path@, unused: seq![one@] };
                        assert(now =~= was.push(fresh));
                        assert(!(exists|c: int| is_group_of(was, path@.plain(), c))) by {
                            if exists|c: int| is_group_of(was, path@.plain(), c) {
                                let c = choose|c: int| is_group_of(was, path@.plain(), c);
                                assert(before.contains_key(was[c].path.plain()));
                            }
                        }
                        assert forall|a: int, b: int| 0 <= a < b < now.len() implies (
                        #[trigger] now[a]).path.plain() != (#[trigger] now[b]).path.plain() by {
                            if b == n {
                                assert(before.contains_key(was[a].path.plain()));
                            } else {
                                assert(was[a].path.plain() != was[b].path.plain());
                            }
                        }
                        assert(indexes(place_map_contents(places), now)) by {
                            let m = place_map_contents(places);
                            assert forall|t: Seq<char>| #[trigger]
                                m.contains_key(t) implies is_group_of(now, t, m[t] as int) by {
                                if t != path@.plain() {
                                    assert(before.contains_key(t));
                                    assert(is_group_of(was, t, before[t] as int));
                                }
                            }
                            assert forall|a: int| 0 <= a < now.len() implies m.contains_key(
                                (#[trigger] now[a]).path.plain(),
                            ) by {
                                if a < n {
                                    assert(before.contains_key(was[a].path.plain()));
                                }
                            }
                        }
                    }
                },
            }
        }
        i += 1;
    }
    assert(all.take(i as int) =~= all);
    r
}

fn add_to(r: &mut Vec<FileFixes>, at: usize, one: Unused)
    requires
        at < old(r)@.len(),
    ensures
        final(r)@.len() == old(r)@.len(),
        fix_groups(final(r)@) == fix_groups(old(r)@).update(
            at as int,
            FixGroup {
                path: fix_groups(old(r)@)[at as int].path,
                unused: fix_groups(old(r)@)[at as int].unused.push(one@),
            },
        ),
{
    let ghost was = fix_groups(r@);
    let path = r[at].path.clone();
    let mut unused = copy_unused(&r[at].unused);
    let ghost before = unused_names(unused@);
    unused.push(one);
    assert(unused_names(unused@) =~= before.push(one@));
    r.set(at, FileFixes { path, unused });
    assert(fix_groups(r@) =~= was.update(
        at as int,
        FixGroup { path: was[at as int].path, unused: was[at as int].unused.push(one@) },
    ));
}

fn copy_unused(v: &Vec<Unused>) -> (r: Vec<Unused>)
    ensures
        unused_names(r@) == unused_names(v@),
{
    let mut r: Vec<Unused> = Vec::new();
    let mut i: usize = 0;
    while i < v.len()
        invariant
            i <= v@.len(),
            unused_names(r@) == unused_names(v@).take(i as int),
        decreases v@.len() - i,
    {
        let ghost was = unused_names(r@);
        r.push(Unused { line: v[i].line, name: v[i].name.clone() });
        assert(unused_names(r@) =~= was.push(v@[i as int]@));
        i += 1;
        assert(unused_names(r@) =~= unused_names(v@).take(i as int));
    }
    assert(unused_names(r@) =~= unused_names(v@));
    r
}

/// A list from the last line to the first, with one more import behind those on
/// its line.
pub open spec fn insert_upwards(v: Seq<UnusedName>, x: UnusedName) -> Seq<UnusedName>
    decreases v.len(),
{
    if v.len() == 0 || v.last().line >= x.line {
        v.push(x)
    } else {
        insert_upwards(v.drop_last(), x).push(v.last())
    }
}

/// The imports from the last line to the first, in their order on one line.
pub open spec fn upwards(v: Seq<UnusedName>) -> Seq<UnusedName>
    decreases v.len(),
{
    if v.len() == 0 {
        Seq::empty()
    } else {
        insert_upwards(upwards(v.drop_last()), v.last())
    }
}

fn insert_one(r: &mut Vec<Unused>, x: Unused)
    ensures
        unused_names(final(r)@) == insert_upwards(unused_names(old(r)@), x@),
{
    let ghost s = unused_names(r@);
    let mut i: usize = r.len();
    assert(s.take(i as int) =~= s);
    assert(insert_upwards(s, x@) =~= insert_upwards(s.take(i as int), x@) + s.skip(i as int));
    while i > 0 && r[i - 1].line < x.line
        invariant
            i <= r@.len(),
            s == unused_names(r@),
            insert_upwards(s, x@) == insert_upwards(s.take(i as int), x@) + s.skip(i as int),
        decreases i,
    {
        proof {
            let t = s.take(i as int);
            assert(t.last() == r@[i - 1]@);
            assert(t.drop_last() =~= s.take(i - 1));
            assert(insert_upwards(t, x@) == insert_upwards(t.drop_last(), x@).push(t.last()));
            assert(insert_upwards(s.take(i - 1), x@) + s.skip(i - 1) =~= insert_upwards(t, x@)
                + s.skip(i as int));
        }
        i -= 1;
    }
    proof {
        let t = s.take(i as int);
        if i > 0 {
            assert(t.last() == r@[i - 1]@);
        }
        assert(insert_upwards(t, x@) == t.push(x@));
        assert(t.push(x@) + s.skip(i as int) =~= s.insert(i as int, x@));
    }
    r.insert(i, x);
    assert(unused_names(r@) =~= s.insert(i as int, x@));
}

fn sort_upwards(v: &Vec<Unused>) -> (r: Vec<Unused>)
    ensures
        unused_names(r@) == upwards(unused_names(v@)),
{
    let ghost all = unused_names(v@);
    let mut r: Vec<Unused> = Vec::new();
    let mut i: usize = 0;
    assert(unused_names(r@) =~= upwards(all.take(0)));
    while i < v.len()
        invariant
            i <= v@.len(),
            all == unused_names(v@),
            unused_names(r@) == upwards(all.take(i as int)),
        decreases v@.len() - i,
    {
        proof {
            assert(all.take(i + 1).drop_last() =~= all.take(i as int));
            assert(all.take(i + 1).last() == v@[i as int]@);
        }
        insert_one(&mut r, Unused { line: v[i].line, name: v[i].name.clone() });
        i += 1;
    }
    assert(all.take(i as int) =~= all);
    r
}

/// What a file has come to while imports are taken out of it.
#[verifier::ext_equal]
pub struct Progress {
    pub lines: Seq<Seq<char>>,
    pub removed: nat,
    pub skipped: Seq<UnusedName>,
}

/// The place of a line that is counted from 1.
pub open spec fn place_of(line: u32) -> int {
    if line == 0 {
        0
    } else {
        line - 1
    }
}

/// What one import does to a file: its line goes if it can, else the import is
/// skipped.
pub open spec fn step(p: Progress, one: UnusedName) -> Progress {
    let at = place_of(one.line);
    if at < p.lines.len() && is_removable(p.lines[at], one.name) {
        Progress { lines: p.lines.remove(at), removed: p.removed + 1, skipped: p.skipped }
    } else {
        Progress { lines: p.lines, removed: p.removed, skipped: p.skipped.push(one) }
    }
}

/// What a list of imports does to a file, one after the other.
pub open spec fn steps(lines: Seq<Seq<char>>, unused: Seq<UnusedName>) -> Progress
    decreases unused.len(),
{
    if unused.len() == 0 {
        Progress { lines, removed: 0, skipped: Seq::empty() }
    } else {
        step(steps(lines, unused.drop_last()), unused.last())
    }
}

/// What a file comes to without its unused imports, taken from the last line to
/// the first so that the places of those before stay what they are.
pub open spec fn fixed(text: Seq<char>, unused: Seq<UnusedName>) -> Progress {
    steps(lines(text), upwards(unused))
}

/// The text of a file with the given lines, ended as another text is.
pub open spec fn rejoined(lines: Seq<Seq<char>>, like: Seq<char>) -> Seq<char> {
    join(lines, "\n"@) + (if has_suffix(like, "\n"@) {
        "\n"@
    } else {
        Seq::empty()
    })
}

/// A file without its unused imports.
#[derive(Debug)]
pub struct FixedFile {
    pub text: String,
    pub removed: usize,
    /// The imports that are left to the user.
    pub skipped: Vec<Unused>,
}

/// Takes the unused imports out of a file.
pub fn fix_file(text: &str, unused: &Vec<Unused>) -> (r: FixedFile)
    ensures
        r.removed == fixed(text@, unused_names(unused@)).removed,
        unused_names(r.skipped@) == fixed(text@, unused_names(unused@)).skipped,
        r.text@ == rejoined(fixed(text@, unused_names(unused@)).lines, text@),
{
    let order = sort_upwards(unused);
    let ghost all = unused_names(order@);
    let mut left = lines_of(text);
    let ghost start = views(left@);
    let mut removed: usize = 0;
    let mut skipped: Vec<Unused> = Vec::new();
    let mut i: usize = 0;
    assert(unused_names(skipped@) =~= Seq::empty());
    while i < order.len()
        invariant
            i <= order@.len(),
            all == unused_names(order@),
            removed <= i,
            views(left@) == steps(start, all.take(i as int)).lines,
            removed == steps(start, all.take(i as int)).removed,
            unused_names(skipped@) == steps(start, all.take(i as int)).skipped,
        decreases order@.len() - i,
    {
        let one = &order[i];
        let at: usize = if one.line == 0 {
            0
        } else {
            (one.line - 1) as usize
        };
        proof {
            assert(all.take(i + 1).drop_last() =~= all.take(i as int));
            assert(all.take(i + 1).last() == one@);
        }
        let ghost before = views(left@);
        if at < left.len() && can_safely_remove(left[at].as_str(), one.name.as_str()) {
            let _ = left.remove(at);
            removed += 1;
            assert(views(left@) =~= before.remove(at as int));
        } else {
            let ghost was = unused_names(skipped@);
            skipped.push(Unused { line: one.line, name: one.name.clone() });
            assert(unused_names(skipped@) =~= was.push(one@));
        }
        i += 1;
    }
    assert(all.take(i as int) =~= all);
    let mut out = join_with(&left, "\n");
    if ends_with(text, "\n") {
        out.append("\n");
    } else {
        assert(out@ =~= out@ + Seq::empty());
    }
    FixedFile { text: out, removed, skipped }
}

/// Whether `part` is what is left of `whole` without some of its lines.
pub open spec fn is_part_of(part: Seq<Seq<char>>, whole: Seq<Seq<char>>) -> bool
    decreases whole.len(),
{
    if whole.len() == 0 {
        part.len() == 0
    } else {
        is_part_of(part, whole.drop_last()) || (part.len() > 0 && part.last() == whole.last()
            && is_part_of(part.drop_last(), whole.drop_last()))
    }
}

proof fn lemma_part_of_itself(s: Seq<Seq<char>>)
    ensures
        is_part_of(s, s),
    decreases s.len(),
{
    if s.len() > 0 {
        lemma_part_of_itself(s.drop_last());
    }
}

proof fn lemma_remove_keeps_part(part: Seq<Seq<char>>, whole: Seq<Seq<char>>, at: int)
    requires
        is_part_of(part, whole),
        0 <= at < part.len(),
    ensures
        is_part_of(part.remove(at), whole),
    decreases whole.len(),
{
    if whole.len() > 0 {
        let front = whole.drop_last();
        if is_part_of(part, front) {
            lemma_remove_keeps_part(part, front, at);
        } else if at < part.len() - 1 {
            lemma_remove_keeps_part(part.drop_last(), front, at);
            assert(part.remove(at).drop_last() =~= part.drop_last().remove(at));
            assert(part.remove(at).last() == part.last());
        } else {
            assert(part.remove(at) =~= part.drop_last());
        }
    }
}

/// Fixing a file only takes lines away: what is left is what was there, in its
/// order, and as many lines are gone as are counted.
pub proof fn fixing_only_removes_lines(lines: Seq<Seq<char>>, unused: Seq<UnusedName>)
    ensures
        is_part_of(steps(lines, unused).lines, lines),
        steps(lines, unused).lines.len() + steps(lines, unused).removed == lines.len(),
    decreases unused.len(),
{
    if unused.len() == 0 {
        lemma_part_of_itself(lines);
    } else {
        let p = steps(lines, unused.drop_last());
        fixing_only_removes_lines(lines, unused.drop_last());
        let at = place_of(unused.last().line);
        if at < p.lines.len() && is_removable(p.lines[at], unused.last().name) {
            lemma_remove_keeps_part(p.lines, lines, at);
        }
    }
}

/// Every unused import is either taken out or named as skipped.
pub proof fn every_import_is_accounted_for(lines: Seq<Seq<char>>, unused: Seq<UnusedName>)
    ensures
        steps(lines, unused).removed + steps(lines, unused).skipped.len() == unused.len(),
    decreases unused.len(),
{
    if unused.len() > 0 {
        every_import_is_accounted_for(lines, unused.drop_last());
    }
}

/// Only a line that is an import of the name alone is ever taken out: where an
/// import makes a line go, that line binds the name and nothing else.
pub proof fn only_imports_of_the_name_go(p: Progress, one: UnusedName)
    ensures
        step(p, one).lines != p.lines ==> place_of(one.line) < p.lines.len() && is_removable(
            p.lines[place_of(one.line)],
            one.name,
        ),
        step(p, one).lines == p.lines || step(p, one).lines == p.lines.remove(place_of(one.line)),
{
}

/// The lines that are left when those at the given places are gone.
pub open spec fn lines_left(lines: Seq<Seq<char>>, gone: Set<int>) -> Seq<Seq<char>>
    decreases lines.len(),
{
    if lines.len() == 0 {
        Seq::empty()
    } else {
        let before = lines_left(lines.drop_last(), gone);
        if gone.contains(lines.len() - 1) {
            before
        } else {
            before.push(lines.last())
        }
    }
}

/// The places of the lines that are an import of an unused name that is reported on
/// them, and of nothing else.
pub open spec fn places_that_go(lines: Seq<Seq<char>>, unused: Seq<UnusedName>) -> Set<int> {
    Set::new(
        |at: int|
            0 <= at < lines.len() && exists|i: int|
                0 <= i < unused.len() && (#[trigger] unused[i]).line == at + 1 && is_removable(
                    lines[at],
                    unused[i].name,
                ),
    )
}

/// Whether each import stands on an earlier line than the one before it.
spec fn is_upwards(v: Seq<UnusedName>) -> bool {
    forall|i: int, j: int|
        0 <= i < j < v.len() ==> (#[trigger] v[i]).line > (#[trigger] v[j]).line
}

proof fn lemma_insert_upwards(v: Seq<UnusedName>, x: UnusedName)
    requires
        is_upwards(v),
        forall|i: int| 0 <= i < v.len() ==> (#[trigger] v[i]).line != x.line,
    ensures
        is_upwards(insert_upwards(v, x)),
        forall|y: UnusedName|
            #[trigger] insert_upwards(v, x).contains(y) <==> v.contains(y) || y == x,
    decreases v.len(),
{
    let r = insert_upwards(v, x);
    if v.len() == 0 || v.last().line >= x.line {
        assert forall|i: int, j: int| 0 <= i < j < r.len() implies (#[trigger] r[i]).line > (
        #[trigger] r[j]).line by {
            assert(r[i] == v[i]);
            if j < v.len() {
                assert(r[j] == v[j]);
            } else if i < v.len() - 1 {
                assert(v[i].line > v[v.len() - 1].line);
            } else {
                assert(v[v.len() - 1].line != x.line);
            }
        }
        assert forall|y: UnusedName| #[trigger] r.contains(y) <==> v.contains(y) || y == x by {
            crate::types::lemma_contains_push(v, x, y);
        }
    } else {
        let front = v.drop_last();
        let last = v.last();
        let f = insert_upwards(front, x);
        assert forall|i: int| 0 <= i < front.len() implies (#[trigger] front[i]).line != x.line by {
            assert(front[i] == v[i]);
        }
        lemma_insert_upwards(front, x);
        assert forall|i: int, j: int| 0 <= i < j < r.len() implies (#[trigger] r[i]).line > (
        #[trigger] r[j]).line by {
            assert(r[i] == f[i]);
            if j < f.len() {
                assert(r[j] == f[j]);
            } else {
                assert(f.contains(f[i]));
                if f[i] != x {
                    let k = choose|k: int| 0 <= k < front.len() && front[k] == f[i];
                    assert(v[k].line > v[v.len() - 1].line);
                }
            }
        }
        assert(v =~= front.push(last));
        assert forall|y: UnusedName| #[trigger] r.contains(y) <==> v.contains(y) || y == x by {
            crate::types::lemma_contains_push(f, last, y);
            crate::types::lemma_contains_push(front, last, y);
        }
    }
}

proof fn lemma_upwards(v: Seq<UnusedName>)
    requires
        forall|i: int, j: int|
            0 <= i < j < v.len() ==> (#[trigger] v[i]).line != (#[trigger] v[j]).line,
    ensures
        is_upwards(upwards(v)),
        forall|y: UnusedName| #[trigger] upwards(v).contains(y) <==> v.contains(y),
    decreases v.len(),
{
    if v.len() > 0 {
        let front = v.drop_last();
        let x = v.last();
        assert forall|i: int, j: int| 0 <= i < j < front.len() implies (#[trigger] front[i]).line
            != (#[trigger] front[j]).line by {
            assert(v[i].line != v[j].line);
        }
        lemma_upwards(front);
        let u = upwards(front);
        assert forall|i: int| 0 <= i < u.len() implies (#[trigger] u[i]).line != x.line by {
            assert(u.contains(u[i]));
            let k = choose|k: int| 0 <= k < front.len() && front[k] == u[i];
            assert(v[k].line != v[v.len() - 1].line);
        }
        lemma_insert_upwards(u, x);
        assert(v =~= front.push(x));
        assert forall|y: UnusedName| #[trigger] upwards(v).contains(y) <==> v.contains(y) by {
            crate::types::lemma_contains_push(front, x, y);
        }
    }
}

/// Taking out a line before all that are gone already.
proof fn lemma_one_more_gone(lines: Seq<Seq<char>>, gone: Set<int>, at: int)
    requires
        0 <= at,
        forall|i: int| i <= at ==> !#[trigger] gone.contains(i),
    ensures
        lines_left(lines, gone).len() <= lines.len(),
        at < lines.len() ==> at < lines_left(lines, gone).len() && lines_left(lines, gone)[at]
            == lines[at] && lines_left(lines, gone.insert(at)) == lines_left(lines, gone).remove(
            at,
        ),
        at >= lines.len() ==> lines_left(lines, gone) == lines && lines_left(
            lines,
            gone.insert(at),
        ) == lines,
    decreases lines.len(),
{
    if lines.len() > 0 {
        let front = lines.drop_last();
        let last = lines.len() - 1;
        lemma_one_more_gone(front, gone, at);
        let before = lines_left(front, gone);
        if at < last {
            assert(lines[at] == front[at]);
            if !gone.contains(last) {
                assert(before.push(lines.last()).remove(at) =~= before.remove(at).push(
                    lines.last(),
                ));
            }
        } else {
            assert(front.push(lines.last()) =~= lines);
            if at == last {
                assert(lines_left(lines, gone) =~= lines);
                assert(lines.remove(at) =~= front);
            }
        }
    } else {
        assert(lines_left(lines, gone) =~= lines);
    }
}

proof fn lemma_steps_upwards(lines: Seq<Seq<char>>, w: Seq<UnusedName>)
    requires
        is_upwards(w),
        forall|i: int| 0 <= i < w.len() ==> (#[trigger] w[i]).line > 0,
    ensures
        steps(lines, w).lines == lines_left(lines, places_that_go(lines, w)),
        forall|i: int|
            0 <= i < w.len() ==> (steps(lines, w).skipped.contains(#[trigger] w[i]) <==> !(w[i].line
                <= lines.len() && is_removable(lines[w[i].line - 1], w[i].name))),
        forall|y: UnusedName| #[trigger] steps(lines, w).skipped.contains(y) ==> w.contains(y),
    decreases w.len(),
{
    if w.len() == 0 {
        assert(places_that_go(lines, w) =~= Set::empty());
        lemma_nothing_gone(lines);
    } else {
        let front = w.drop_last();
        let u = w.last();
        let at = u.line - 1;
        assert forall|i: int, j: int| 0 <= i < j < front.len() implies (#[trigger] front[i]).line
            > (#[trigger] front[j]).line by {
            assert(w[i].line > w[j].line);
        }
        assert(u == w[w.len() - 1]);
        lemma_steps_upwards(lines, front);
        let p = steps(lines, front);
        let gone = places_that_go(lines, front);
        assert forall|i: int| i <= at implies !#[trigger] gone.contains(i) by {
            if gone.contains(i) {
                let k = choose|k: int|
                    0 <= k < front.len() && (#[trigger] front[k]).line == i + 1 && is_removable(
                        lines[i],
                        front[k].name,
                    );
                assert(w[k].line > w[w.len() - 1].line);
            }
        }
        lemma_one_more_gone(lines, gone, at);
        let now = places_that_go(lines, w);
        let goes = at < lines.len() && is_removable(lines[at], u.name);
        assert forall|i: int| now.contains(i) <==> gone.contains(i) || (goes && i == at) by {
            if now.contains(i) {
                let k = choose|k: int|
                    0 <= k < w.len() && (#[trigger] w[k]).line == i + 1 && is_removable(
                        lines[i],
                        w[k].name,
                    );
                if k < front.len() {
                    assert(front[k] == w[k]);
                }
            }
            if gone.contains(i) {
                let k = choose|k: int|
                    0 <= k < front.len() && (#[trigger] front[k]).line == i + 1 && is_removable(
                        lines[i],
                        front[k].name,
                    );
                assert(w[k] == front[k]);
            }
            if goes && i == at {
                assert(w[w.len() - 1].line == i + 1);
            }
        }
        if goes {
            assert(now =~= gone.insert(at));
        } else {
            assert(now =~= gone);
        }
        let s = steps(lines, w).skipped;
        assert(!p.skipped.contains(u)) by {
            if p.skipped.contains(u) {
                let k = choose|k: int| 0 <= k < front.len() && front[k] == u;
                assert(w[k].line > w[w.len() - 1].line);
            }
        }
        assert forall|y: UnusedName| #[trigger] s.contains(y) <==> p.skipped.contains(y) || (!goes
            && y == u) by {
            if !goes {
                crate::types::lemma_contains_push(p.skipped, u, y);
            }
        }
        assert forall|i: int| 0 <= i < w.len() implies (s.contains(#[trigger] w[i]) <==> !(w[i].line
            <= lines.len() && is_removable(lines[w[i].line - 1], w[i].name))) by {
            if i < front.len() {
                assert(front[i] == w[i]);
                assert(w[i].line > w[w.len() - 1].line);
            }
        }
        assert(w =~= front.push(u));
        assert forall|y: UnusedName| #[trigger] s.contains(y) implies w.contains(y) by {
            crate::types::lemma_contains_push(front, u, y);
        }
    }
}

proof fn lemma_nothing_gone(lines: Seq<Seq<char>>)
    ensures
        lines_left(lines, Set::empty()) == lines,
    decreases lines.len(),
{
    if lines.len() > 0 {
        lemma_nothing_gone(lines.drop_last());
        assert(lines.drop_last().push(lines.last()) =~= lines);
    } else {
        assert(lines_left(lines, Set::empty()) =~= lines);
    }
}

/// Unused imports on different lines do not get in each other's way: exactly the
/// lines go that are an import of the name that is reported on them and of nothing
/// else, every other line stays, in its order, and exactly the other imports are
/// named as skipped.
pub proof fn imports_go_with_their_own_lines(text: Seq<char>, unused: Seq<UnusedName>)
    requires
        forall|i: int| 0 <= i < unused.len() ==> (#[trigger] unused[i]).line > 0,
        forall|i: int, j: int|
            0 <= i < j < unused.len() ==> (#[trigger] unused[i]).line != (#[trigger] unused[j]).line,
    ensures
        fixed(text, unused).lines == lines_left(
            lines(text),
            places_that_go(lines(text), unused),
        ),
        forall|i: int|
            0 <= i < unused.len() ==> (fixed(text, unused).skipped.contains(#[trigger] unused[i])
                <==> !(unused[i].line <= lines(text).len() && is_removable(
                lines(text)[unused[i].line - 1],
                unused[i].name,
            ))),
{
    let all = lines(text);
    let w = upwards(unused);
    lemma_upwards(unused);
    assert forall|i: int| 0 <= i < w.len() implies (#[trigger] w[i]).line > 0 by {
        assert(w.contains(w[i]));
        let k = choose|k: int| 0 <= k < unused.len() && unused[k] == w[i];
        assert(unused[k].line > 0);
    }
    lemma_steps_upwards(all, w);
    assert(places_that_go(all, w) =~= places_that_go(all, unused)) by {
        assert forall|at: int|
            places_that_go(all, w).contains(at) <==> places_that_go(all, unused).contains(at) by {
            if places_that_go(all, w).contains(at) {
                let k = choose|k: int|
                    0 <= k < w.len() && (#[trigger] w[k]).line == at + 1 && is_removable(
                        all[at],
                        w[k].name,
                    );
                assert(w.contains(w[k]));
                let j = choose|j: int| 0 <= j < unused.len() && unused[j] == w[k];
                assert(unused[j].line == at + 1);
            }
            if places_that_go(all, unused).contains(at) {
                let k = choose|k: int|
                    0 <= k < unused.len() && (#[trigger] unused[k]).line == at + 1 && is_removable(
                        all[at],
                        unused[k].name,
                    );
                assert(unused.contains(unused[k]));
                assert(w.contains(unused[k]));
                let j = choose|j: int| 0 <= j < w.len() && w[j] == unused[k];
                assert(w[j].line == at + 1);
            }
        }
    }
    assert forall|i: int| 0 <= i < unused.len() implies (fixed(text, unused).skipped.contains(
        #[trigger] unused[i],
    ) <==> !(unused[i].line <= all.len() && is_removable(all[unused[i].line - 1], unused[i].name)))
        by {
        assert(unused.contains(unused[i]));
        assert(w.contains(unused[i]));
        let j = choose|j: int| 0 <= j < w.len() && w[j] == unused[i];
        assert(w[j] == unused[i]);
    }
}

/// A file whose one unused import stands alone on its line, relative or not, loses
/// that line and no other.
pub proof fn a_single_unused_import_is_removed(
    text: Seq<char>,
    at: int,
    lead: Seq<char>,
    module: Seq<char>,
    name: Seq<char>,
    space: Seq<char>,
    comment: Seq<char>,
)
    requires
        0 <= at < lines(text).len(),
        at < u32::MAX,
        lines(text)[at] == lead + ("from "@ + module + " import "@ + name) + space + comment,
        is_blank(lead),
        is_blank(space),
        comment.len() > 0 ==> comment[0] == '#',
        is_word(name),
        !module.contains('#'),
        !contains_text(module + " "@, " import "@),
    ensures
        ({
            let one = UnusedName { line: (at + 1) as u32, name };
            &&& fixed(text, seq![one]).lines == lines(text).remove(at)
            &&& fixed(text, seq![one]).removed == 1
            &&& fixed(text, seq![one]).skipped.len() == 0
        }),
{
    let one = UnusedName { line: (at + 1) as u32, name };
    let v = seq![one];
    single_from_imports_can_go(lead, module, name, name, space, comment);
    imports_go_with_their_own_lines(text, v);
    let gone = places_that_go(lines(text), v);
    assert(v[0].line == at + 1);
    assert(gone =~= Set::empty().insert(at));
    lemma_nothing_gone(lines(text));
    lemma_one_more_gone(lines(text), Set::empty(), at);
    assert(v[0] == one);
    assert(upwards(v).len() == 1) by {
        reveal_with_fuel(upwards, 2);
        assert(v.drop_last() =~= Seq::empty());
    }
    every_import_is_accounted_for(lines(text), upwards(v));
    fixing_only_removes_lines(lines(text), upwards(v));
}

/// Putting the lines of a file together again gives the file, as long as its lines
/// end with a line feed alone: a file from which nothing is taken stays as it is.
pub proof fn untouched_files_stay(text: Seq<char>)
    requires
        !text.contains('\r'),
    ensures
        rejoined(lines(text), text) == text,
{
    let raw = split_on(text, '\n');
    lemma_split_nonempty(text, '\n');
    reveal_strlit("\n");
    let nl = "\n"@;
    assert(nl =~= seq!['\n']);
    lemma_lines_join(text);
    let front = raw.drop_last();
    lemma_parts_are_inside(text, '\r');
    assert forall|i: int| 0 <= i < front.len() implies strip_cr(#[trigger] front[i]) == front[i] by {
        assert(front[i] == raw[i]);
        if front[i].len() > 0 && front[i].last() == '\r' {
            assert(raw[i].contains(raw[i][raw[i].len() - 1]));
        }
    }
    assert(front.map_values(|l: Seq<char>| strip_cr(l)) =~= front);
    if raw.last().len() == 0 {
        if raw.len() == 1 {
            assert(raw[0] == raw.last());
            assert(text =~= Seq::empty());
            assert(rejoined(lines(text), text) =~= text);
        } else {
            assert(raw.last() =~= Seq::empty());
            assert(text =~= join(front, nl) + nl);
            assert(text.skip(text.len() - 1) =~= nl);
        }
    } else {
        assert(front.push(raw.last()) =~= raw);
        assert(!has_suffix(text, nl)) by {
            if has_suffix(text, nl) {
                assert(text.skip(text.len() - 1)[0] == '\n');
                assert(text.last() == '\n');
                assert(raw.last().len() == 0);
            }
        }
        assert(rejoined(lines(text), text) =~= text);
    }
}

proof fn lemma_lines_join(s: Seq<char>)
    ensures
        join(split_on(s, '\n'), seq!['\n']) == s,
    decreases s.len(),
{
    if s.len() > 0 {
        let rest = s.drop_last();
        let before = split_on(rest, '\n');
        let all = split_on(s, '\n');
        lemma_lines_join(rest);
        lemma_split_nonempty(rest, '\n');
        assert(rest.push(s.last()) =~= s);
        if s.last() == '\n' {
            assert(all.drop_last() =~= before);
            assert(join(all, seq!['\n']) =~= s);
        } else {
            assert(all.last() == before.last().push(s.last()));
            if before.len() > 1 {
                assert(all.drop_last() =~= before.drop_last());
            }
            assert(join(all, seq!['\n']) =~= s);
        }
    }
}

proof fn lemma_parts_are_inside(s: Seq<char>, c: char)
    requires
        !s.contains(c),
    ensures
        forall|i: int|
            0 <= i < split_on(s, '\n').len() ==> !(#[trigger] split_on(s, '\n')[i]).contains(c),
    decreases s.len(),
{
    if s.len() > 0 {
        let rest = s.drop_last();
        let before = split_on(rest, '\n');
        let all = split_on(s, '\n');
        assert(!rest.contains(c)) by {
            if rest.contains(c) {
                let k = choose|k: int| 0 <= k < rest.len() && rest[k] == c;
                assert(s[k] == c);
            }
        }
        lemma_parts_are_inside(rest, c);
        lemma_split_nonempty(rest, '\n');
        assert(s[s.len() - 1] != c);
        assert forall|i: int| 0 <= i < all.len() implies !(#[trigger] all[i]).contains(c) by {
            if all[i].contains(c) {
                let k = choose|k: int| 0 <= k < all[i].len() && all[i][k] == c;
                if i < before.len() {
                    if k < before[i].len() {
                        assert(before[i][k] == c);
                        assert(before[i].contains(c));
                    }
                }
            }
        }
    }
}

/// A text as it is written between quotes.
pub open spec fn escaped(s: Seq<char>) -> Seq<char>
    decreases s.len(),
{
    if s.len() == 0 {
        Seq::empty()
    } else {
        let before = escaped(s.drop_last());
        if s.last() == '"' || s.last() == '\\' {
            before.push('\\').push(s.last())
        } else {
            before.push(s.last())
        }
    }
}

fn escape(s: &str) -> (r: String)
    ensures
        r@ == escaped(s@),
{
    let v = chars_of(s);
    let mut r = String::new();
    let mut i: usize = 0;
    assert(r@ =~= escaped(s@.take(0)));
    while i < v.len()
        invariant
            i <= v@.len(),
            v@ == s@,
            r@ == escaped(s@.take(i as int)),
        decreases v@.len() - i,
    {
        assert(s@.take(i + 1).drop_last() =~= s@.take(i as int));
        if v[i] == '"' || v[i] == '\\' {
            r.push('\\');
        }
        r.push(v[i]);
        i += 1;
    }
    assert(s@.take(i as int) =~= s@);
    r
}

/// The settings that leave out one finding: those on its line of its file with
/// its rule, or in the whole file if it has no line.
pub open spec fn suppression(issue: IssueView, root: PathView, known: Seq<ResolvedPath>) -> Seq<char> {
    "\n[[suppress]]\npath = \""@ + escaped(relative_text(issue.path(), root, known))
        + "\"\nrules = [\""@ + escaped(issue.rule_key()) + "\"]\n"@ + (match issue.line() {
        Some(n) => "line = "@ + decimal(n as nat) + "\n"@,
        None => Seq::empty(),
    })
}

/// The settings that leave out a list of findings.
pub open spec fn suppressions(v: Seq<IssueView>, root: PathView, known: Seq<ResolvedPath>) -> Seq<char>
    decreases v.len(),
{
    if v.len() == 0 {
        Seq::empty()
    } else {
        suppressions(v.drop_last(), root, known) + suppression(v.last(), root, known)
    }
}

/// The settings that leave out the findings there are, for code that is not to
/// be touched.
pub fn suppress_all(issues: &Vec<Issue>, root: &FilePath, known: &Vec<ResolvedPath>) -> (r: String)
    ensures
        r@ == suppressions(issue_views(issues@), root@, known@),
{
    let ghost all = issue_views(issues@);
    let mut r = String::new();
    let mut i: usize = 0;
    assert(r@ =~= suppressions(all.take(0), root@, known@));
    while i < issues.len()
        invariant
            i <= issues@.len(),
            all == issue_views(issues@),
            r@ == suppressions(all.take(i as int), root@, known@),
        decreases issues@.len() - i,
    {
        let issue = &issues[i];
        let ghost was = r@;
        proof {
            assert(all.take(i + 1).drop_last() =~= all.take(i as int));
            assert(all.take(i + 1).last() == issue@);
        }
        let path = relative_posix(&issue.path(), root, known);
        r.append("\n[[suppress]]\npath = \"");
        r.append(escape(path.as_str()).as_str());
        r.append("\"\nrules = [\"");
        r.append(escape(issue.rule_key().as_str()).as_str());
        r.append("\"]\n");
        if let Some(n) = issue.line() {
            r.append("line = ");
            r.append(decimal_text(n as u64).as_str());
            r.append("\n");
        }
        assert(r@ =~= was + suppression(issue@, root@, known@));
        i += 1;
    }
    assert(all.take(i as int) =~= all);
    r
}

/// Every unused import is to be fixed in its own file, under its own line and name.
pub proof fn every_unused_import_is_grouped(issues: Seq<IssueView>, i: int)
    requires
        0 <= i < issues.len(),
        issues[i] is UnusedImport,
    ensures
        exists|g: int|
            0 <= g < grouped(issues).len() && has_unused(
                #[trigger] grouped(issues)[g],
                issues[i].path(),
                UnusedName { line: issues[i]->UnusedImport_line, name: issues[i]->UnusedImport_name },
            ),
    decreases issues.len(),
{
    let front = issues.drop_last();
    let before = grouped(front);
    let all = grouped(issues);
    let path = issues[i].path();
    let one = UnusedName {
        line: issues[i]->UnusedImport_line,
        name: issues[i]->UnusedImport_name,
    };
    if i < issues.len() - 1 {
        every_unused_import_is_grouped(front, i);
        assert(front[i] == issues[i]);
        let g = choose|g: int| 0 <= g < before.len() && has_unused(#[trigger] before[g], path, one);
        match issues.last() {
            IssueView::UnusedImport { path: p, line: l, name, .. } => {
                let last = UnusedName { line: l, name };
                if exists|k: int| is_group_of(before, p.plain(), k) {
                    let k = choose|k: int| is_group_of(before, p.plain(), k);
                    if k == g {
                        crate::types::lemma_contains_push(before[g].unused, last, one);
                    }
                }
                assert(has_unused(all[g], path, one));
            },
            _ => {
                assert(has_unused(all[g], path, one));
            },
        }
    } else if exists|k: int| is_group_of(before, path.plain(), k) {
        let k = choose|k: int| is_group_of(before, path.plain(), k);
        crate::types::lemma_contains_push(before[k].unused, one, one);
        assert(has_unused(all[k], path, one));
    } else {
        let k = before.len() as int;
        assert(all[k].unused[0] == one);
        assert(has_unused(all[k], path, one));
    }
}

/// Whether a group is of a file and has the unused import.
pub open spec fn has_unused(g: FixGroup, path: PathView, one: UnusedName) -> bool {
    g.path.plain() == path.plain() && g.unused.contains(one)
}

/// A text is escaped letter by letter: quotes and backslashes get a backslash before
/// them, and nothing else changes.
pub proof fn only_quotes_and_backslashes_are_escaped(a: Seq<char>, b: Seq<char>, c: char)
    ensures
        escaped(a + b) == escaped(a) + escaped(b),
        c == '"' || c == '\\' ==> escaped(seq![c]) == seq!['\\', c],
        c != '"' && c != '\\' ==> escaped(seq![c]) == seq![c],
    decreases b.len(),
{
    assert(seq![c].drop_last() =~= Seq::empty());
    reveal_with_fuel(escaped, 2);
    assert(c == '"' || c == '\\' ==> escaped(seq![c]) =~= seq!['\\', c]);
    assert(c != '"' && c != '\\' ==> escaped(seq![c]) =~= seq![c]);
    if b.len() == 0 {
        assert(a + b =~= a);
        assert(escaped(a) + escaped(b) =~= escaped(a));
    } else {
        only_quotes_and_backslashes_are_escaped(a, b.drop_last(), c);
        assert((a + b).drop_last() =~= a + b.drop_last());
        assert((a + b).last() == b.last());
        assert(escaped(a + b) =~= escaped(a) + escaped(b));
    }
}

/// The settings that leave out a list of findings are those that leave out each of
/// them, one after the other.
pub proof fn findings_are_suppressed_one_by_one(
    a: Seq<IssueView>,
    b: Seq<IssueView>,
    root: PathView,
    known: Seq<ResolvedPath>,
)
    ensures
        suppressions(a + b, root, known) == suppressions(a, root, known) + suppressions(
            b,
            root,
            known,
        ),
    decreases b.len(),
{
    if b.len() == 0 {
        assert(a + b =~= a);
        assert(suppressions(a, root, known) + suppressions(b, root, known) =~= suppressions(
            a,
            root,
            known,
        ));
    } else {
        findings_are_suppressed_one_by_one(a, b.drop_last(), root, known);
        assert((a + b).drop_last() =~= a + b.drop_last());
        assert((a + b).last() == b.last());
        assert(suppressions(a + b, root, known) =~= suppressions(a, root, known) + suppressions(
            b,
            root,
            known,
        ));
    }
}

/// The settings that leave out a finding hold its line if it has one, and else none:
/// they end with the line, or with the rule.
pub proof fn suppressions_keep_to_the_line(
    issue: IssueView,
    root: PathView,
    known: Seq<ResolvedPath>,
)
    ensures
        issue.line() matches Some(n) ==> has_suffix(
            suppression(issue, root, known),
            escaped(issue.rule_key()) + "\"]\nline = "@ + decimal(n as nat) + "\n"@,
        ),
        issue.line() is None ==> has_suffix(
            suppression(issue, root, known),
            escaped(issue.rule_key()) + "\"]\n"@,
        ),
        contains_text(
            suppression(issue, root, known),
            "path = \""@ + escaped(relative_text(issue.path(), root, known)) + "\""@,
        ),
{
    let all = suppression(issue, root, known);
    let key = escaped(issue.rule_key());
    reveal_strlit("\"]\n");
    reveal_strlit("line = ");
    reveal_strlit("\"]\nline = ");
    assert("\"]\nline = "@ =~= "\"]\n"@ + "line = "@);
    match issue.line() {
        Some(n) => {
            let end = key + "\"]\nline = "@ + decimal(n as nat) + "\n"@;
            assert(all.skip(all.len() - end.len()) =~= end);
        },
        None => {
            let end = key + "\"]\n"@;
            assert(all.skip(all.len() - end.len()) =~= end);
        },
    }
    reveal_strlit("\n[[suppress]]\npath = \"");
    reveal_strlit("path = \"");
    reveal_strlit("\"");
    reveal_strlit("\"\nrules = [\"");
    let text = escaped(relative_text(issue.path(), root, known));
    let part = "path = \""@ + text + "\""@;
    let head = "\n[[suppress]]\npath = \""@;
    let at = head.len() - "path = \""@.len();
    assert(head.skip(at) =~= "path = \""@);
    assert(all.subrange(at, at + part.len()) =~= part);
    assert(occurs_at(all, part, at));
}

} // verus!
