//! File paths as lists of components, separated by `/` in text.
use crate::text::{
    ends_with, has_suffix, join, join_with, lemma_split_concat, lemma_split_join,
    lemma_split_nonempty, lemma_split_parts, same, split, split_on, views,
};
use vstd::prelude::*;

verus! {

/// A path: whether it starts at the root, its components, and how it is written.
///
/// Empty components are dropped, and so is `.`, except at the start of a
/// relative path. `..` is a component like any other. Paths are compared by
/// their components, and shown as they are written.
#[derive(Debug)]
pub struct FilePath {
    pub absolute: bool,
    pub parts: Vec<String>,
    pub written: String,
}

/// What a path stands for.
#[verifier::ext_equal]
pub struct PathView {
    pub absolute: bool,
    pub parts: Seq<Seq<char>>,
    pub written: Seq<char>,
}

pub open spec fn dot() -> Seq<char> {
    seq!['.']
}

pub open spec fn dot_dot() -> Seq<char> {
    seq!['.', '.']
}

impl View for FilePath {
    type V = PathView;

    open spec fn view(&self) -> PathView {
        PathView { absolute: self.absolute, parts: views(self.parts@), written: self.written@ }
    }
}

impl Clone for FilePath {
    fn clone(&self) -> (r: FilePath)
        ensures
            r@ == self@,
    {
        let parts = copy_texts(&self.parts);
        FilePath { absolute: self.absolute, parts, written: self.written.clone() }
    }
}

/// Whether piece number `i` of a text that was split at `/` is a component.
pub open spec fn keeps(raw: Seq<Seq<char>>, absolute: bool, i: int) -> bool {
    raw[i].len() > 0 && (raw[i] != dot() || (i == 0 && !absolute))
}

/// The components among the first `n` pieces.
pub open spec fn kept(raw: Seq<Seq<char>>, absolute: bool, n: int) -> Seq<Seq<char>>
    decreases n,
{
    if n <= 0 {
        Seq::empty()
    } else if keeps(raw, absolute, n - 1) {
        kept(raw, absolute, n - 1).push(raw[n - 1])
    } else {
        kept(raw, absolute, n - 1)
    }
}

/// The path that a text stands for.
pub open spec fn path_of(text: Seq<char>) -> PathView {
    let raw = split_on(text, '/');
    let absolute = text.len() > 0 && text[0] == '/';
    PathView { absolute, parts: kept(raw, absolute, raw.len() as int), written: text }
}

/// How many of the pieces from number `m` on it takes to have `n` components.
pub open spec fn pieces_for(raw: Seq<Seq<char>>, absolute: bool, n: int, m: int) -> int
    decreases raw.len() - m,
{
    if m >= raw.len() || kept(raw, absolute, m).len() >= n {
        m
    } else {
        pieces_for(raw, absolute, n, m + 1)
    }
}

/// The pieces from one to before another, as they are written.
pub open spec fn pieces_text(raw: Seq<Seq<char>>, from: int, to: int) -> Seq<char> {
    if 0 <= from < to <= raw.len() {
        join(raw.subrange(from, to), seq!['/'])
    } else {
        Seq::empty()
    }
}

impl PathView {
    /// Whether the path has the components that its text stands for.
    pub open spec fn wf(self) -> bool {
        path_of(self.written).same(self)
    }

    /// Whether both have the same components.
    pub open spec fn same(self, other: PathView) -> bool {
        self.absolute == other.absolute && self.parts == other.parts
    }

    /// The path as it is written.
    pub open spec fn text(self) -> Seq<char> {
        self.written
    }

    /// The components with one slash between each two.
    pub open spec fn plain(self) -> Seq<char> {
        if self.absolute {
            seq!['/'] + join(self.parts, seq!['/'])
        } else {
            join(self.parts, seq!['/'])
        }
    }

    /// The last component, unless it is `.` or `..`.
    pub open spec fn file_name(self) -> Option<Seq<char>> {
        if self.parts.len() > 0 && self.parts.last() != dot() && self.parts.last() != dot_dot() {
            Some(self.parts.last())
        } else {
            None
        }
    }

    /// Whether the path names a file with the extension `py`.
    pub open spec fn is_python(self) -> bool {
        match self.file_name() {
            Some(n) => n.len() > 3 && has_suffix(n, ".py"@),
            None => false,
        }
    }

    /// Whether the path names a file called `name`.
    pub open spec fn is_named(self, name: Seq<char>) -> bool {
        self.file_name() == Some(name)
    }

    /// The components without `.` and `..`.
    pub open spec fn names(self) -> Seq<Seq<char>> {
        self.parts.filter(|p: Seq<char>| p != dot() && p != dot_dot())
    }

    /// How the first `n` components are written, with what stands before them.
    pub open spec fn written_up_to(self, n: int) -> Seq<char> {
        let raw = split_on(self.written, '/');
        if n == 0 && self.absolute {
            seq!['/']
        } else {
            pieces_text(raw, 0, pieces_for(raw, self.absolute, n, 0))
        }
    }

    /// How the components behind the first `n` are written.
    pub open spec fn written_from(self, n: int) -> Seq<char> {
        let raw = split_on(self.written, '/');
        if n < self.parts.len() {
            pieces_text(
                raw,
                pieces_for(raw, self.absolute, n + 1, 0) - 1,
                pieces_for(raw, self.absolute, self.parts.len() as int, 0),
            )
        } else {
            Seq::empty()
        }
    }

    /// What is left of the path behind `base`, if it starts with it.
    pub open spec fn behind(self, base: PathView) -> Option<PathView> {
        let n = base.parts.len() as int;
        if !base.absolute && n == 0 {
            Some(PathView { written: self.written_up_to(self.parts.len() as int), ..self })
        } else if self.absolute == base.absolute && n <= self.parts.len() && self.parts.take(n)
            == base.parts {
            Some(
                PathView {
                    absolute: false,
                    parts: self.parts.skip(n),
                    written: self.written_from(n),
                },
            )
        } else {
            None
        }
    }

    /// `tail` as seen from this path; `tail` itself if it starts at the root.
    pub open spec fn joined(self, tail: PathView) -> PathView {
        if tail.absolute {
            tail
        } else if self.parts.len() == 0 && !self.absolute {
            PathView { written: self.written_before(tail), ..tail }
        } else if tail.parts.len() > 0 && tail.parts[0] == dot() {
            PathView {
                absolute: self.absolute,
                parts: self.parts + tail.parts.skip(1),
                written: self.written_before(tail),
            }
        } else {
            PathView {
                absolute: self.absolute,
                parts: self.parts + tail.parts,
                written: self.written_before(tail),
            }
        }
    }

    /// How `tail` is written behind this path.
    pub open spec fn written_before(self, tail: PathView) -> Seq<char> {
        if self.written.len() == 0 || self.written.last() == '/' {
            self.written + tail.written
        } else {
            self.written.push('/') + tail.written
        }
    }

    /// The path without its last component, if it has one.
    pub open spec fn parent(self) -> Option<PathView> {
        if self.parts.len() == 0 {
            None
        } else {
            Some(
                PathView {
                    absolute: self.absolute,
                    parts: self.parts.drop_last(),
                    written: self.written_up_to(self.parts.len() - 1),
                },
            )
        }
    }
}

/// Whether components can be those of a path: none is empty or holds a slash, and
/// `.` stands only at the start of a relative path.
spec fn parts_ok(absolute: bool, parts: Seq<Seq<char>>) -> bool {
    forall|i: int|
        #![trigger parts[i]]
        0 <= i < parts.len() ==> parts[i].len() > 0 && !parts[i].contains('/') && (parts[i]
            == dot() ==> i == 0 && !absolute)
}

proof fn lemma_kept_ok(raw: Seq<Seq<char>>, absolute: bool, n: int)
    requires
        0 <= n <= raw.len(),
        forall|i: int| 0 <= i < raw.len() ==> !(#[trigger] raw[i]).contains('/'),
    ensures
        parts_ok(absolute, kept(raw, absolute, n)),
        kept(raw, absolute, n).len() <= n,
    decreases n,
{
    if n > 0 {
        lemma_kept_ok(raw, absolute, n - 1);
        let before = kept(raw, absolute, n - 1);
        let after = kept(raw, absolute, n);
        assert forall|i: int|
            #![trigger after[i]]
            0 <= i < after.len() implies after[i].len() > 0 && !after[i].contains('/') && (after[i]
            == dot() ==> i == 0 && !absolute) by {
            if i < before.len() {
                assert(after[i] == before[i]);
            } else {
                assert(after[i] == raw[n - 1]);
            }
        }
    }
}

proof fn lemma_parts_ok(p: PathView)
    requires
        p.wf(),
    ensures
        parts_ok(p.absolute, p.parts),
{
    let raw = split_on(p.written, '/');
    lemma_split_parts(p.written, '/');
    lemma_kept_ok(raw, p.absolute, raw.len() as int);
}

proof fn lemma_kept_prefix(a: Seq<Seq<char>>, b: Seq<Seq<char>>, absolute: bool, n: int)
    requires
        0 <= n <= a.len(),
    ensures
        kept(a + b, absolute, n) == kept(a, absolute, n),
    decreases n,
{
    if n > 0 {
        lemma_kept_prefix(a, b, absolute, n - 1);
        assert((a + b)[n - 1] == a[n - 1]);
    }
}

/// Behind the first pieces, `.` is never a component.
proof fn lemma_kept_concat(a: Seq<Seq<char>>, b: Seq<Seq<char>>, absolute: bool, n: int)
    requires
        a.len() > 0,
        0 <= n <= b.len(),
    ensures
        kept(a + b, absolute, a.len() + n) == kept(a, absolute, a.len() as int) + kept(b, true, n),
    decreases n,
{
    if n > 0 {
        lemma_kept_concat(a, b, absolute, n - 1);
        assert((a + b)[a.len() + n - 1] == b[n - 1]);
        assert(keeps(a + b, absolute, a.len() + n - 1) == keeps(b, true, n - 1));
        assert(kept(a + b, absolute, a.len() + n) =~= kept(a, absolute, a.len() as int) + kept(
            b,
            true,
            n,
        ));
    } else {
        lemma_kept_prefix(a, b, absolute, a.len() as int);
        assert(kept(a, absolute, a.len() as int) + kept(b, true, 0) =~= kept(
            a,
            absolute,
            a.len() as int,
        ));
    }
}

/// A `.` at the start is all that makes a difference between pieces at the start
/// of a relative path and pieces behind others.
proof fn lemma_kept_relative(raw: Seq<Seq<char>>)
    requires
        raw.len() > 0,
    ensures
        raw[0] == dot() ==> kept(raw, false, raw.len() as int) == seq![dot()] + kept(
            raw,
            true,
            raw.len() as int,
        ),
        raw[0] != dot() ==> kept(raw, false, raw.len() as int) == kept(
            raw,
            true,
            raw.len() as int,
        ),
{
    let first = seq![raw[0]];
    let rest = raw.skip(1);
    assert(raw =~= first + rest);
    lemma_kept_concat(first, rest, false, rest.len() as int);
    lemma_kept_concat(first, rest, true, rest.len() as int);
    reveal_with_fuel(kept, 2);
    assert(first[0] == raw[0]);
    if raw[0] == dot() {
        assert(kept(first, false, 1) =~= seq![dot()]);
        assert(kept(first, true, 1) =~= Seq::empty());
        assert(Seq::<Seq<char>>::empty() + kept(rest, true, rest.len() as int) =~= kept(
            rest,
            true,
            rest.len() as int,
        ));
    } else {
        assert(kept(first, false, 1) =~= kept(first, true, 1));
    }
}

/// Nothing is written before the first slash exactly if the text starts with it.
proof fn lemma_first_piece(s: Seq<char>, sep: char)
    requires
        s.len() > 0,
    ensures
        s[0] == sep <==> split_on(s, sep)[0].len() == 0,
    decreases s.len(),
{
    let front = s.drop_last();
    lemma_split_nonempty(front, sep);
    if s.len() == 1 {
        assert(front =~= Seq::empty());
    } else {
        lemma_first_piece(front, sep);
        assert(front[0] == s[0]);
        if split_on(front, sep).len() > 1 {
            assert(split_on(s, sep)[0] == split_on(front, sep)[0]);
        } else if s.last() != sep {
            // A single piece that goes on: the text has no slash.
            lemma_single_piece(front, sep);
        }
    }
}

proof fn lemma_single_piece(s: Seq<char>, sep: char)
    requires
        split_on(s, sep).len() == 1,
    ensures
        split_on(s, sep)[0] == s,
        s.len() > 0 ==> s[0] != sep,
    decreases s.len(),
{
    if s.len() > 0 {
        let front = s.drop_last();
        lemma_split_nonempty(front, sep);
        lemma_single_piece(front, sep);
        assert(s =~= front.push(s.last()));
    } else {
        assert(s =~= Seq::empty());
    }
}

proof fn lemma_pieces_for(raw: Seq<Seq<char>>, absolute: bool, n: int, m: int)
    requires
        0 <= m <= raw.len(),
        kept(raw, absolute, m).len() < n <= kept(raw, absolute, raw.len() as int).len(),
    ensures
        m < pieces_for(raw, absolute, n, m) <= raw.len(),
        kept(raw, absolute, pieces_for(raw, absolute, n, m)).len() == n,
        kept(raw, absolute, pieces_for(raw, absolute, n, m) - 1).len() == n - 1,
        keeps(raw, absolute, pieces_for(raw, absolute, n, m) - 1),
    decreases raw.len() - m,
{
    if kept(raw, absolute, m + 1).len() < n {
        lemma_pieces_for(raw, absolute, n, m + 1);
    } else {
        assert(pieces_for(raw, absolute, n, m) == pieces_for(raw, absolute, n, m + 1));
        assert(pieces_for(raw, absolute, n, m + 1) == m + 1);
    }
}

proof fn lemma_kept_grows(raw: Seq<Seq<char>>, absolute: bool, m: int, n: int)
    requires
        0 <= m <= n <= raw.len(),
    ensures
        kept(raw, absolute, m).len() <= kept(raw, absolute, n).len(),
        kept(raw, absolute, n).take(kept(raw, absolute, m).len() as int) == kept(raw, absolute, m),
    decreases n - m,
{
    let short = kept(raw, absolute, m);
    if m < n {
        lemma_kept_grows(raw, absolute, m, n - 1);
        assert(kept(raw, absolute, n).take(short.len() as int) =~= kept(raw, absolute, n - 1).take(
            short.len() as int,
        ));
    } else {
        assert(short.take(short.len() as int) =~= short);
    }
}

/// Pieces of a path read back as those pieces.
proof fn lemma_pieces_text(raw: Seq<Seq<char>>, from: int, to: int)
    requires
        0 <= from < to <= raw.len(),
        forall|i: int| 0 <= i < raw.len() ==> !(#[trigger] raw[i]).contains('/'),
    ensures
        split_on(pieces_text(raw, from, to), '/') == raw.subrange(from, to),
{
    let some = raw.subrange(from, to);
    assert forall|i: int| 0 <= i < some.len() implies !(#[trigger] some[i]).contains('/') by {
        assert(some[i] == raw[from + i]);
    }
    lemma_split_join(some, '/');
}

/// The first components are those of how they are written.
proof fn lemma_written_up_to(p: PathView, n: int)
    requires
        p.wf(),
        0 <= n <= p.parts.len(),
    ensures
        path_of(p.written_up_to(n)).absolute == p.absolute,
        path_of(p.written_up_to(n)).parts == p.parts.take(n),
{
    let raw = split_on(p.written, '/');
    let text = p.written_up_to(n);
    let e = Seq::<char>::empty();
    reveal_with_fuel(kept, 3);
    if n == 0 {
        if p.absolute {
            assert(text =~= e.push('/') + e);
            lemma_split_concat(e, e, '/');
            assert(split_on(e, '/') =~= seq![e]);
            assert(split_on(text, '/') =~= seq![e, e]);
        } else {
            assert(text =~= e);
            assert(split_on(text, '/') =~= seq![e]);
        }
        assert(path_of(text).parts =~= p.parts.take(0));
    } else {
        let m = pieces_for(raw, p.absolute, n, 0);
        lemma_split_parts(p.written, '/');
        lemma_pieces_for(raw, p.absolute, n, 0);
        lemma_pieces_text(raw, 0, m);
        let some = raw.subrange(0, m);
        assert(raw =~= some + raw.skip(m));
        lemma_kept_prefix(some, raw.skip(m), p.absolute, m);
        lemma_kept_grows(raw, p.absolute, m, raw.len() as int);
        assert(text.len() > 0) by {
            if text.len() == 0 {
                assert(text =~= e);
                assert(split_on(text, '/') =~= seq![e]);
                assert(some[m - 1] == raw[m - 1]);
                assert(some[m - 1] == e);
            }
        }
        lemma_first_piece(text, '/');
        assert(some[0] == raw[0]);
        assert(p.written.len() > 0) by {
            if p.written.len() == 0 {
                assert(p.written =~= e);
                assert(raw =~= seq![e]);
                assert(raw[m - 1] == e);
            }
        }
        lemma_first_piece(p.written, '/');
    }
}

/// The components behind the first are those of how they are written.
proof fn lemma_written_from(p: PathView, n: int)
    requires
        p.wf(),
        0 <= n <= p.parts.len(),
        n > 0 || p.absolute,
    ensures
        !path_of(p.written_from(n)).absolute,
        path_of(p.written_from(n)).parts == p.parts.skip(n),
{
    let raw = split_on(p.written, '/');
    let text = p.written_from(n);
    let e = Seq::<char>::empty();
    if n == p.parts.len() {
        reveal_with_fuel(kept, 2);
        assert(text =~= e);
        assert(split_on(text, '/') =~= seq![e]);
        assert(path_of(text).parts =~= p.parts.skip(n));
    } else {
        let from = pieces_for(raw, p.absolute, n + 1, 0) - 1;
        let to = pieces_for(raw, p.absolute, p.parts.len() as int, 0);
        lemma_split_parts(p.written, '/');
        lemma_pieces_for(raw, p.absolute, n + 1, 0);
        lemma_pieces_for(raw, p.absolute, p.parts.len() as int, 0);
        assert(from < to) by {
            if to <= from {
                lemma_kept_grows(raw, p.absolute, to, from);
            }
        }
        lemma_pieces_text(raw, from, to);
        let before = raw.take(from);
        let some = raw.subrange(from, to);
        assert(from > 0) by {
            if from == 0 {
                assert(p.written.len() > 0);
                lemma_first_piece(p.written, '/');
            }
        }
        assert(raw.take(to) =~= before + some);
        assert(raw =~= before + raw.skip(from));
        assert(raw =~= raw.take(to) + raw.skip(to));
        lemma_kept_prefix(before, raw.skip(from), p.absolute, from);
        lemma_kept_prefix(raw.take(to), raw.skip(to), p.absolute, to);
        lemma_kept_concat(before, some, p.absolute, some.len() as int);
        lemma_kept_grows(raw, p.absolute, to, raw.len() as int);
        let all = p.parts;
        assert(all.take(all.len() as int) =~= all);
        assert(kept(raw, p.absolute, to) == all);
        assert(kept(some, true, some.len() as int) =~= all.skip(n));
        assert(some[0] == raw[from]);
        lemma_kept_relative(some);
        assert(text.len() > 0) by {
            if text.len() == 0 {
                assert(text =~= e);
                assert(split_on(text, '/') =~= seq![e]);
            }
        }
        lemma_first_piece(text, '/');
    }
}

/// The components of joined paths are those of how they are written.
proof fn lemma_written_before(base: PathView, tail: PathView)
    requires
        base.wf(),
        tail.wf(),
        !tail.absolute,
    ensures
        base.joined(tail).wf(),
{
    let text = base.written_before(tail);
    let raw = split_on(tail.written, '/');
    let e = Seq::<char>::empty();
    lemma_split_nonempty(tail.written, '/');
    reveal_with_fuel(kept, 2);
    if base.written.len() == 0 {
        assert(base.written =~= e);
        assert(split_on(e, '/') =~= seq![e]);
        assert(base.parts =~= Seq::empty());
        assert(text =~= tail.written);
    } else {
        let body = if base.written.last() == '/' {
            base.written.drop_last()
        } else {
            base.written
        };
        let first = split_on(body, '/');
        assert(text =~= body.push('/') + tail.written);
        lemma_split_concat(body, tail.written, '/');
        lemma_split_nonempty(body, '/');
        lemma_kept_concat(first, raw, base.absolute, raw.len() as int);
        if base.written.last() == '/' {
            let last = seq![e];
            assert(split_on(base.written, '/') =~= first + last);
            lemma_kept_concat(first, last, base.absolute, 1);
            assert(kept(last, true, 1) =~= Seq::empty());
            assert(base.parts =~= kept(first, base.absolute, first.len() as int));
        }
        assert(path_of(text).absolute == base.absolute);
        assert(split_on(text, '/').len() == first.len() + raw.len());
        assert(path_of(text).parts == base.parts + kept(raw, true, raw.len() as int));
        lemma_kept_relative(raw);
        lemma_split_parts(tail.written, '/');
        lemma_kept_ok(raw, true, raw.len() as int);
        if raw[0] == dot() {
            assert(tail.parts.skip(1) =~= kept(raw, true, raw.len() as int));
        }
        if base.parts.len() == 0 && !base.absolute {
            lemma_first_piece(base.written, '/');
            let own = split_on(base.written, '/');
            lemma_split_nonempty(base.written, '/');
            lemma_kept_grows(own, false, 1, own.len() as int);
            assert(keeps(own, false, 0));
            assert(kept(own, false, 1).len() == 1);
        }
    }
}

proof fn lemma_kept_all(raw: Seq<Seq<char>>, absolute: bool, n: int)
    requires
        0 <= n <= raw.len(),
        forall|i: int| 0 <= i < n ==> #[trigger] keeps(raw, absolute, i),
    ensures
        kept(raw, absolute, n) == raw.take(n),
    decreases n,
{
    if n > 0 {
        lemma_kept_all(raw, absolute, n - 1);
        assert(raw.take(n) =~= raw.take(n - 1).push(raw[n - 1]));
        assert(keeps(raw, absolute, n - 1));
    } else {
        assert(raw.take(n) =~= Seq::empty());
    }
}

/// Every text stands for a well-formed path.
pub proof fn path_of_is_wf(text: Seq<char>)
    ensures
        path_of(text).wf(),
{
}

/// A path is written back as it was read, and reading it again gives it back.
pub proof fn path_text_round_trip(text: Seq<char>, p: PathView)
    ensures
        path_of(text).text() == text,
        p.wf() ==> path_of(p.text()) == p,
{
}

/// Reading the components with slashes between them gives the components back.
pub proof fn plain_text_round_trip(p: PathView)
    requires
        p.wf(),
    ensures
        path_of(p.plain()).same(p),
{
    lemma_parts_ok(p);
    let body = join(p.parts, seq!['/']);
    let text = p.plain();
    if p.parts.len() > 0 {
        lemma_split_join(p.parts, '/');
        assert(body.len() > 0 && body[0] != '/') by {
            lemma_join_start(p.parts);
        }
    } else {
        assert(body =~= Seq::empty());
    }
    if p.absolute {
        let e = Seq::<char>::empty();
        assert(text =~= e.push('/') + body);
        lemma_split_concat(e, body, '/');
        assert(split_on(e, '/') =~= seq![e]);
        let raw = split_on(text, '/');
        let tail = split_on(body, '/');
        assert(raw =~= seq![e] + tail);
        lemma_kept_skip_first(raw, tail, raw.len() as int);
        if p.parts.len() > 0 {
            assert(tail == p.parts);
            assert forall|i: int| 0 <= i < tail.len() implies #[trigger] keeps(tail, true, i) by {
                assert(p.parts[i].len() > 0);
            }
            lemma_kept_all(tail, true, tail.len() as int);
            assert(tail.take(tail.len() as int) =~= tail);
        } else {
            assert(tail =~= seq![e]);
            assert(kept(tail, true, 1) =~= Seq::empty()) by {
                assert(!keeps(tail, true, 0));
                assert(kept(tail, true, 0) =~= Seq::empty());
            }
        }
        assert(path_of(text).parts =~= p.parts);
    } else {
        let raw = split_on(text, '/');
        if p.parts.len() > 0 {
            assert(raw == p.parts);
            assert forall|i: int| 0 <= i < raw.len() implies #[trigger] keeps(raw, false, i) by {
                assert(p.parts[i].len() > 0);
            }
            lemma_kept_all(raw, false, raw.len() as int);
            assert(raw.take(raw.len() as int) =~= raw);
        } else {
            assert(raw =~= seq![Seq::<char>::empty()]);
            assert(!keeps(raw, false, 0));
            assert(kept(raw, false, 0) =~= Seq::empty());
        }
        assert(path_of(text).parts =~= p.parts);
    }
}

/// Paths have the same components exactly if these read the same with slashes
/// between them.
pub proof fn plain_texts_tell_paths_apart(p: PathView, q: PathView)
    requires
        p.wf(),
        q.wf(),
    ensures
        p.plain() == q.plain() <==> p.same(q),
{
    plain_text_round_trip(p);
    plain_text_round_trip(q);
}

proof fn lemma_join_start(parts: Seq<Seq<char>>)
    requires
        parts.len() > 0,
        parts[0].len() > 0,
        !parts[0].contains('/'),
    ensures
        join(parts, seq!['/']).len() > 0,
        join(parts, seq!['/'])[0] != '/',
    decreases parts.len(),
{
    if parts.len() > 1 {
        assert(parts.drop_last()[0] == parts[0]);
        lemma_join_start(parts.drop_last());
    } else {
        assert(parts[0].contains(parts[0][0]));
    }
}

proof fn lemma_kept_skip_first(raw: Seq<Seq<char>>, tail: Seq<Seq<char>>, n: int)
    requires
        raw == seq![Seq::<char>::empty()] + tail,
        1 <= n <= raw.len(),
    ensures
        kept(raw, true, n) == kept(tail, true, n - 1),
    decreases n,
{
    if n > 1 {
        lemma_kept_skip_first(raw, tail, n - 1);
        assert(raw[n - 1] == tail[n - 2]);
    } else {
        assert(!keeps(raw, true, 0));
        assert(kept(raw, true, 0) =~= Seq::empty());
    }
}

/// Whether `s` is `.`.
fn is_dot(s: &str) -> (r: bool)
    ensures
        r == (s@ == dot()),
{
    proof {
        reveal_strlit(".");
        assert("."@ =~= dot());
    }
    same(s, ".")
}

/// Whether `s` is `..`.
fn is_dot_dot(s: &str) -> (r: bool)
    ensures
        r == (s@ == dot_dot()),
{
    proof {
        reveal_strlit("..");
        assert(".."@ =~= dot_dot());
    }
    same(s, "..")
}

/// Whether there is nothing to part a text from what is joined to it: it is empty
/// or ends in a slash.
fn ends_in_slash(s: &str) -> (r: bool)
    ensures
        r == (s@.len() == 0 || s@.last() == '/'),
{
    let n: usize = s.unicode_len();
    n == 0 || s.get_char(n - 1) == '/'
}

proof fn lemma_pieces_from(raw: Seq<Seq<char>>, absolute: bool, n: int, m: int)
    ensures
        pieces_for(raw, absolute, n, m) >= m,
    decreases raw.len() - m,
{
    if !(m >= raw.len() || kept(raw, absolute, m).len() >= n) {
        lemma_pieces_from(raw, absolute, n, m + 1);
    }
}

fn find_pieces(raw: &Vec<String>, absolute: bool, n: usize) -> (r: usize)
    ensures
        r == pieces_for(views(raw@), absolute, n as int, 0),
        r <= raw@.len(),
{
    let ghost all = views(raw@);
    let mut count: usize = 0;
    let mut i: usize = 0;
    while i < raw.len() && count < n
        invariant
            i <= raw@.len(),
            all == views(raw@),
            count == kept(all, absolute, i as int).len(),
            count <= i,
            pieces_for(all, absolute, n as int, 0) == pieces_for(all, absolute, n as int, i as int),
        decreases raw@.len() - i,
    {
        let piece = raw[i].as_str();
        assert(all[i as int] == piece@);
        if !piece.is_empty() && (!is_dot(piece) || (i == 0 && !absolute)) {
            count += 1;
        }
        i += 1;
    }
    i
}

fn text_of_pieces(raw: &Vec<String>, from: usize, to: usize) -> (r: String)
    requires
        to <= raw@.len(),
    ensures
        r@ == pieces_text(views(raw@), from as int, to as int),
{
    proof {
        reveal_strlit("/");
        assert("/"@ =~= seq!['/']);
    }
    if from >= to {
        let r = String::new();
        assert(r@ =~= Seq::empty());
        return r;
    }
    let mut some: Vec<String> = Vec::new();
    let mut i: usize = from;
    while i < to
        invariant
            from <= i <= to <= raw@.len(),
            views(some@) == views(raw@).subrange(from as int, i as int),
        decreases to - i,
    {
        let ghost was = views(some@);
        some.push(raw[i].clone());
        assert(views(some@) =~= was.push(raw@[i as int]@));
        i += 1;
        assert(views(some@) =~= views(raw@).subrange(from as int, i as int));
    }
    join_with(&some, "/")
}

impl FilePath {
    /// The path that `text` stands for.
    pub fn new(text: &str) -> (r: FilePath)
        ensures
            r@ == path_of(text@),
            r@.wf(),
    {
        proof {
            path_of_is_wf(text@);
        }
        let raw = split(text, '/');
        let absolute = text.unicode_len() > 0 && text.get_char(0) == '/';
        let mut parts: Vec<String> = Vec::new();
        let mut i: usize = 0;
        while i < raw.len()
            invariant
                i <= raw@.len(),
                views(parts@) == kept(views(raw@), absolute, i as int),
            decreases raw@.len() - i,
        {
            let piece = raw[i].as_str();
            assert(views(raw@)[i as int] == piece@);
            if !piece.is_empty() && (!is_dot(piece) || (i == 0 && !absolute)) {
                let ghost was = views(parts@);
                parts.push(raw[i].clone());
                assert(views(parts@) =~= was.push(piece@));
            }
            i += 1;
        }
        FilePath { absolute, parts, written: text.to_owned() }
    }

    /// The path as it is written.
    pub fn text(&self) -> (r: String)
        ensures
            r@ == self@.text(),
    {
        self.written.clone()
    }

    /// The components with one slash between each two.
    pub fn plain(&self) -> (r: String)
        ensures
            r@ == self@.plain(),
    {
        proof {
            reveal_strlit("/");
            assert("/"@ =~= seq!['/']);
        }
        let body = join_with(&self.parts, "/");
        if self.absolute {
            let mut r = String::new();
            r.push('/');
            r.append(body.as_str());
            assert(r@ =~= self@.plain());
            r
        } else {
            body
        }
    }

    /// Whether both are the same path, however they are written.
    pub fn same_as(&self, other: &FilePath) -> (r: bool)
        ensures
            r == self@.same(other@),
    {
        self.absolute == other.absolute && same_texts(&self.parts, &other.parts)
    }

    fn written_up_to(&self, n: usize) -> (r: String)
        ensures
            r@ == self@.written_up_to(n as int),
    {
        if n == 0 && self.absolute {
            let mut r = String::new();
            r.push('/');
            assert(r@ =~= seq!['/']);
            return r;
        }
        let raw = split(self.written.as_str(), '/');
        let to: usize = find_pieces(&raw, self.absolute, n);
        text_of_pieces(&raw, 0, to)
    }

    fn written_from(&self, n: usize) -> (r: String)
        ensures
            r@ == self@.written_from(n as int),
    {
        if n >= self.parts.len() {
            let r = String::new();
            assert(r@ =~= Seq::empty());
            return r;
        }
        let raw = split(self.written.as_str(), '/');
        proof {
            lemma_split_nonempty(self.written@, '/');
        }
        let end: usize = find_pieces(&raw, self.absolute, n + 1);
        let to: usize = find_pieces(&raw, self.absolute, self.parts.len());
        assert(pieces_for(views(raw@), self.absolute, n + 1, 0) >= 1) by {
            assert(kept(views(raw@), self.absolute, 0).len() == 0);
            lemma_pieces_from(views(raw@), self.absolute, n + 1, 1);
        }
        text_of_pieces(&raw, end - 1, to)
    }

    /// The last component, unless it is `.` or `..`.
    pub fn file_name(&self) -> (r: Option<&str>)
        ensures
            match r {
                Some(s) => self@.file_name() == Some(s@),
                None => self@.file_name() is None,
            },
    {
        if self.parts.len() == 0 {
            return None;
        }
        let last = self.parts[self.parts.len() - 1].as_str();
        assert(self@.parts.last() == last@);
        if is_dot(last) || is_dot_dot(last) {
            None
        } else {
            Some(last)
        }
    }

    /// Whether the path names a file with the extension `py`.
    pub fn is_python(&self) -> (r: bool)
        ensures
            r == self@.is_python(),
    {
        match self.file_name() {
            Some(n) => n.unicode_len() > 3 && ends_with(n, ".py"),
            None => false,
        }
    }

    /// Whether the path names a file called `name`.
    pub fn is_named(&self, name: &str) -> (r: bool)
        ensures
            r == self@.is_named(name@),
    {
        match self.file_name() {
            Some(n) => same(n, name),
            None => false,
        }
    }

    /// Whether one of the components is `name`.
    pub fn has_part(&self, name: &str) -> (r: bool)
        ensures
            r == self@.parts.contains(name@),
    {
        let mut i: usize = 0;
        while i < self.parts.len()
            invariant
                i <= self.parts@.len(),
                forall|j: int| 0 <= j < i ==> self@.parts[j] != name@,
            decreases self.parts@.len() - i,
        {
            assert(self@.parts[i as int] == self.parts@[i as int]@);
            if same(self.parts[i].as_str(), name) {
                return true;
            }
            i += 1;
        }
        false
    }

    /// The components without `.` and `..`.
    pub fn names(&self) -> (r: Vec<String>)
        ensures
            views(r@) == self@.names(),
    {
        let mut r: Vec<String> = Vec::new();
        let mut i: usize = 0;
        let ghost f = |p: Seq<char>| p != dot() && p != dot_dot();
        let ghost all = self@.parts;
        assert(all.take(0).filter(f) =~= Seq::empty()) by {
            reveal(Seq::filter);
        }
        while i < self.parts.len()
            invariant
                i <= self.parts@.len(),
                all == self@.parts,
                f == (|p: Seq<char>| p != dot() && p != dot_dot()),
                views(r@) == all.take(i as int).filter(f),
            decreases self.parts@.len() - i,
        {
            let piece = self.parts[i].as_str();
            assert(all[i as int] == piece@);
            proof {
                assert(all.take(i + 1).drop_last() =~= all.take(i as int));
                assert(all.take(i + 1).last() == piece@);
                reveal(Seq::filter);
            }
            if !is_dot(piece) && !is_dot_dot(piece) {
                let ghost was = views(r@);
                r.push(self.parts[i].clone());
                assert(views(r@) =~= was.push(piece@));
            }
            i += 1;
        }
        assert(all.take(i as int) =~= all);
        r
    }

    /// What is left of the path behind `base`, if it starts with it.
    pub fn behind(&self, base: &FilePath) -> (r: Option<FilePath>)
        ensures
            match r {
                Some(p) => self@.behind(base@) == Some(p@),
                None => self@.behind(base@) is None,
            },
            self@.wf() && r is Some ==> r->0@.wf(),
    {
        let n: usize = base.parts.len();
        if !base.absolute && n == 0 {
            let parts = copy_texts(&self.parts);
            let written = self.written_up_to(self.parts.len());
            proof {
                if self@.wf() {
                    lemma_written_up_to(self@, self@.parts.len() as int);
                    assert(self@.parts.take(self@.parts.len() as int) =~= self@.parts);
                }
            }
            return Some(FilePath { absolute: self.absolute, parts, written });
        }
        if self.absolute != base.absolute || n > self.parts.len() {
            return None;
        }
        let mut i: usize = 0;
        while i < n
            invariant
                i <= n,
                n == base.parts@.len(),
                n <= self.parts@.len(),
                forall|j: int| 0 <= j < i ==> self@.parts[j] == base@.parts[j],
            decreases n - i,
        {
            assert(self@.parts[i as int] == self.parts@[i as int]@);
            assert(base@.parts[i as int] == base.parts@[i as int]@);
            if !same(self.parts[i].as_str(), base.parts[i].as_str()) {
                assert(self@.parts.take(n as int)[i as int] != base@.parts[i as int]);
                return None;
            }
            i += 1;
        }
        assert(self@.parts.take(n as int) =~= base@.parts);
        let parts = copy_texts_from(&self.parts, n);
        let r = FilePath { absolute: false, parts, written: self.written_from(n) };
        proof {
            assert(r@.parts =~= self@.parts.skip(n as int));
            if self@.wf() {
                lemma_written_from(self@, n as int);
            }
        }
        Some(r)
    }

    /// `tail` as seen from this path; `tail` itself if it starts at the root.
    pub fn join(&self, tail: &FilePath) -> (r: FilePath)
        ensures
            r@ == self@.joined(tail@),
            self@.wf() && tail@.wf() ==> r@.wf(),
    {
        if tail.absolute {
            return tail.clone();
        }
        proof {
            if self@.wf() && tail@.wf() {
                lemma_written_before(self@, tail@);
            }
        }
        let mut written = self.written.clone();
        if !ends_in_slash(self.written.as_str()) {
            written.push('/');
        }
        written.append(tail.written.as_str());
        assert(written@ =~= self@.written_before(tail@));
        if self.parts.len() == 0 && !self.absolute {
            let parts = copy_texts(&tail.parts);
            return FilePath { absolute: false, parts, written };
        }
        let mut from: usize = 0;
        if tail.parts.len() > 0 {
            assert(tail@.parts[0] == tail.parts@[0]@);
            if is_dot(tail.parts[0].as_str()) {
                from = 1;
            }
        }
        let mut parts = copy_texts(&self.parts);
        let mut rest = copy_texts_from(&tail.parts, from);
        let ghost a = views(parts@);
        let ghost b = views(rest@);
        parts.append(&mut rest);
        let r = FilePath { absolute: self.absolute, parts, written };
        proof {
            assert(r@.parts =~= a + b);
            if from == 0 {
                assert(b =~= tail@.parts);
            }
            assert(r@ =~= self@.joined(tail@));
        }
        r
    }

    /// The path without its last component, if it has one.
    pub fn parent(&self) -> (r: Option<FilePath>)
        ensures
            match r {
                Some(p) => self@.parent() == Some(p@),
                None => self@.parent() is None,
            },
            self@.wf() && r is Some ==> r->0@.wf(),
    {
        if self.parts.len() == 0 {
            return None;
        }
        let mut parts = copy_texts(&self.parts);
        let _ = parts.pop();
        let written = self.written_up_to(self.parts.len() - 1);
        let r = FilePath { absolute: self.absolute, parts, written };
        proof {
            assert(r@.parts =~= self@.parts.drop_last());
            if self@.wf() {
                lemma_written_up_to(self@, self@.parts.len() - 1);
                assert(self@.parts.take(self@.parts.len() - 1) =~= self@.parts.drop_last());
            }
        }
        Some(r)
    }
}

/// A copy of a list of strings.
pub fn copy_texts(v: &Vec<String>) -> (r: Vec<String>)
    ensures
        views(r@) == views(v@),
{
    let r = copy_texts_from(v, 0);
    assert(views(r@) =~= views(v@));
    r
}

/// A copy of a list of strings from item number `from` on.
pub(crate) fn copy_texts_from(v: &Vec<String>, from: usize) -> (r: Vec<String>)
    requires
        from <= v@.len(),
    ensures
        views(r@) == views(v@).skip(from as int),
{
    let mut r: Vec<String> = Vec::new();
    let mut i: usize = from;
    while i < v.len()
        invariant
            from <= i <= v@.len(),
            views(r@) == views(v@).subrange(from as int, i as int),
        decreases v@.len() - i,
    {
        let ghost was = views(r@);
        r.push(v[i].clone());
        assert(views(r@) =~= was.push(v@[i as int]@));
        i += 1;
        assert(views(r@) =~= views(v@).subrange(from as int, i as int));
    }
    assert(views(r@) =~= views(v@).skip(from as int));
    r
}

/// Whether two lists hold the same strings in the same order.
pub fn same_texts(a: &Vec<String>, b: &Vec<String>) -> (r: bool)
    ensures
        r == (views(a@) == views(b@)),
{
    if a.len() != b.len() {
        assert(views(a@).len() != views(b@).len());
        return false;
    }
    let mut i: usize = 0;
    while i < a.len()
        invariant
            i <= a@.len(),
            a@.len() == b@.len(),
            forall|j: int| 0 <= j < i ==> views(a@)[j] == views(b@)[j],
        decreases a@.len() - i,
    {
        assert(views(a@)[i as int] == a@[i as int]@);
        assert(views(b@)[i as int] == b@[i as int]@);
        if !same(a[i].as_str(), b[i].as_str()) {
            return false;
        }
        i += 1;
    }
    assert(views(a@) =~= views(b@));
    true
}

/// What is behind a directory in a path below it is what was joined to it.
pub proof fn what_was_joined_is_behind(base: PathView, tail: PathView)
    requires
        !tail.absolute,
        tail.parts.len() > 0 ==> tail.parts[0] != dot(),
    ensures
        base.joined(tail).behind(base) is Some,
        base.joined(tail).behind(base)->0.same(tail),
{
    if base.absolute || base.parts.len() > 0 {
        assert((base.parts + tail.parts).take(base.parts.len() as int) =~= base.parts);
        assert((base.parts + tail.parts).skip(base.parts.len() as int) =~= tail.parts);
    }
}

/// Joined to the directory again, what is behind it gives the path back.
pub proof fn what_is_behind_joins_again(path: PathView, base: PathView)
    requires
        path.wf(),
        path.behind(base) is Some,
    ensures
        base.joined(path.behind(base)->0).same(path),
{
    lemma_parts_ok(path);
    if base.absolute || base.parts.len() > 0 {
        let n = base.parts.len() as int;
        let rest = path.parts.skip(n);
        if rest.len() > 0 {
            assert(rest[0] == path.parts[n]);
        }
        assert(path.parts.take(n) + rest =~= path.parts);
    }
}

/// A path names a Python file if and only if its last component is something and
/// `.py`.
pub proof fn python_files_end_in_py(p: PathView, stem: Seq<char>)
    requires
        p.parts.len() > 0,
    ensures
        stem.len() > 0 && p.parts.last() == stem + ".py"@ ==> p.is_python() && p.file_name() == Some(
            stem + ".py"@,
        ),
        p.is_python() ==> p.parts.last().len() > 3 && p.parts.last() == p.parts.last().take(
            p.parts.last().len() - 3,
        ) + ".py"@,
        p.parts.last() == ".py"@ ==> !p.is_python(),
{
    reveal_strlit(".py");
    let n = p.parts.last();
    if n == stem + ".py"@ && stem.len() > 0 {
        assert(n.skip(n.len() - 3) =~= ".py"@);
    }
    if p.is_python() {
        assert(n =~= n.take(n.len() - 3) + ".py"@);
    }
}

/// A slash more, or a `.` between two slashes, makes no difference to where a path
/// leads.
pub proof fn extra_slashes_and_dots_make_no_difference(a: Seq<char>, b: Seq<char>)
    ensures
        path_of(a + seq!['/', '/'] + b).same(path_of(a + seq!['/'] + b)),
        path_of(a + seq!['/', '.', '/'] + b).same(path_of(a + seq!['/'] + b)),
{
    let e = Seq::<char>::empty();
    let plain = a.push('/') + b;
    assert(a + seq!['/'] + b =~= plain);
    lemma_split_concat(a, b, '/');
    lemma_split_nonempty(a, '/');
    assert(a + seq!['/', '/'] + b =~= a.push('/') + (e.push('/') + b));
    assert(a + seq!['/', '.', '/'] + b =~= a.push('/') + (dot().push('/') + b));
    lemma_split_concat(a, e.push('/') + b, '/');
    lemma_split_concat(e, b, '/');
    lemma_split_concat(a, dot().push('/') + b, '/');
    lemma_split_concat(dot(), b, '/');
    crate::text::lemma_split_single(e, '/');
    assert(!dot().contains('/'));
    crate::text::lemma_split_single(dot(), '/');
    lemma_dropped_piece(split_on(a, '/'), e, split_on(b, '/'));
    lemma_dropped_piece(split_on(a, '/'), dot(), split_on(b, '/'));
    if a.len() > 0 {
        assert((a + seq!['/', '/'] + b)[0] == a[0]);
        assert((a + seq!['/', '.', '/'] + b)[0] == a[0]);
        assert(plain[0] == a[0]);
    }
}

proof fn lemma_dropped_piece(
    a: Seq<Seq<char>>,
    piece: Seq<char>,
    b: Seq<Seq<char>>,
)
    requires
        a.len() > 0,
        piece.len() == 0 || piece == dot(),
    ensures
        forall|absolute: bool|
            #![trigger kept(a + b, absolute, (a + b).len() as int)]
            kept(a + (seq![piece] + b), absolute, (a + (seq![piece] + b)).len() as int) == kept(
                a + b,
                absolute,
                (a + b).len() as int,
            ),
{
    assert forall|absolute: bool|
        #![trigger kept(a + b, absolute, (a + b).len() as int)]
        kept(a + (seq![piece] + b), absolute, (a + (seq![piece] + b)).len() as int) == kept(
            a + b,
            absolute,
            (a + b).len() as int,
        ) by {
        lemma_kept_concat(a, b, absolute, b.len() as int);
        let more = seq![piece] + b;
        lemma_kept_concat(a, more, absolute, more.len() as int);
        lemma_kept_concat(seq![piece], b, true, b.len() as int);
        assert(seq![piece][0] == piece);
        reveal_with_fuel(kept, 2);
        assert(kept(seq![piece], true, 1) =~= Seq::empty());
        assert(kept(more, true, more.len() as int) =~= kept(b, true, b.len() as int));
    }
}

/// The parent of a path is the path without its last component, so that a single name
/// behind a path has that path as its parent.
pub proof fn names_lie_in_their_parent(base: PathView, name: PathView)
    requires
        !name.absolute,
        name.parts.len() == 1,
        name.parts[0] != dot(),
    ensures
        base.joined(name).parent() matches Some(p) && p.same(base),
        base.joined(name).parts.last() == name.parts[0],
{
    if base.parts.len() == 0 && !base.absolute {
        assert(base.joined(name).parts.drop_last() =~= base.parts);
    } else {
        assert(base.joined(name).parts.drop_last() =~= base.parts);
    }
}

} // verus!
