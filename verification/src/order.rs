//! The order of texts, and sorting by it.
use crate::text::{chars_of, same, views};
use vstd::prelude::*;

verus! {

/// Whether `a` comes before `b` or is the same: by the first character in
/// which they differ, and a start of a text before the text.
pub open spec fn text_le(a: Seq<char>, b: Seq<char>) -> bool
    decreases a.len(),
{
    if a.len() == 0 {
        true
    } else if b.len() == 0 {
        false
    } else if a[0] != b[0] {
        a[0] < b[0]
    } else {
        text_le(a.skip(1), b.skip(1))
    }
}

pub open spec fn text_lt(a: Seq<char>, b: Seq<char>) -> bool {
    text_le(a, b) && a != b
}

/// Every two texts are in order one way or the other.
pub proof fn text_order_is_total(a: Seq<char>, b: Seq<char>)
    ensures
        text_le(a, b) || text_le(b, a),
    decreases a.len(),
{
    if a.len() > 0 && b.len() > 0 && a[0] == b[0] {
        text_order_is_total(a.skip(1), b.skip(1));
    }
}

/// Texts that come before each other are the same.
pub proof fn text_order_is_antisymmetric(a: Seq<char>, b: Seq<char>)
    requires
        text_le(a, b),
        text_le(b, a),
    ensures
        a == b,
    decreases a.len(),
{
    if a.len() > 0 && b.len() > 0 {
        text_order_is_antisymmetric(a.skip(1), b.skip(1));
        assert(a =~= seq![a[0]] + a.skip(1));
        assert(b =~= seq![b[0]] + b.skip(1));
    } else {
        assert(a =~= b);
    }
}

/// The order goes on.
pub proof fn text_order_is_transitive(a: Seq<char>, b: Seq<char>, c: Seq<char>)
    requires
        text_le(a, b),
        text_le(b, c),
    ensures
        text_le(a, c),
    decreases a.len(),
{
    if a.len() > 0 && b.len() > 0 && c.len() > 0 && a[0] == b[0] && b[0] == c[0] {
        text_order_is_transitive(a.skip(1), b.skip(1), c.skip(1));
    }
}

/// Whether `a` comes before `b` or is the same.
pub fn comes_before(a: &str, b: &str) -> (r: bool)
    ensures
        r == text_le(a@, b@),
{
    let v = chars_of(a);
    let w = chars_of(b);
    let mut i: usize = 0;
    assert(a@.skip(0) =~= a@);
    assert(b@.skip(0) =~= b@);
    while i < v.len() && i < w.len()
        invariant
            i <= v@.len(),
            i <= w@.len(),
            v@ == a@,
            w@ == b@,
            text_le(a@, b@) == text_le(a@.skip(i as int), b@.skip(i as int)),
        decreases v@.len() - i,
    {
        assert(a@.skip(i as int).skip(1) =~= a@.skip(i + 1));
        assert(b@.skip(i as int).skip(1) =~= b@.skip(i + 1));
        if v[i] != w[i] {
            return v[i] < w[i];
        }
        i += 1;
    }
    i == v.len()
}

/// A sorted list with one more text.
pub open spec fn insert_sorted(s: Seq<Seq<char>>, x: Seq<char>) -> Seq<Seq<char>>
    decreases s.len(),
{
    if s.len() == 0 || text_le(s.last(), x) {
        s.push(x)
    } else {
        insert_sorted(s.drop_last(), x).push(s.last())
    }
}

/// The texts of a list in order.
pub open spec fn sorted_texts(v: Seq<Seq<char>>) -> Seq<Seq<char>>
    decreases v.len(),
{
    if v.len() == 0 {
        Seq::empty()
    } else {
        insert_sorted(sorted_texts(v.drop_last()), v.last())
    }
}

pub open spec fn is_sorted(v: Seq<Seq<char>>) -> bool {
    forall|i: int, j: int| 0 <= i <= j < v.len() ==> text_le(#[trigger] v[i], #[trigger] v[j])
}

proof fn lemma_insert_sorted(s: Seq<Seq<char>>, x: Seq<char>)
    requires
        is_sorted(s),
    ensures
        is_sorted(insert_sorted(s, x)),
        insert_sorted(s, x).len() == s.len() + 1,
        insert_sorted(s, x).to_multiset() == s.to_multiset().insert(x),
        forall|i: int|
            0 <= i <= s.len() ==> (#[trigger] insert_sorted(s, x)[i] == x || s.contains(
                insert_sorted(s, x)[i],
            )),
    decreases s.len(),
{
    broadcast use vstd::seq_lib::group_to_multiset_ensures;

    let r = insert_sorted(s, x);
    text_order_is_total(x, x);
    if s.len() == 0 || text_le(s.last(), x) {
        assert forall|i: int, j: int| 0 <= i <= j < r.len() implies text_le(
            #[trigger] r[i],
            #[trigger] r[j],
        ) by {
            if j == s.len() {
                if i < s.len() {
                    assert(text_le(s[i], s[s.len() - 1]));
                    text_order_is_transitive(s[i], s.last(), x);
                }
            } else {
                assert(text_le(s[i], s[j]));
            }
        }
        assert forall|i: int| 0 <= i <= s.len() implies (#[trigger] r[i] == x || s.contains(
            r[i],
        )) by {
            if i < s.len() {
                assert(s[i] == r[i]);
            }
        }
    } else {
        let rest = s.drop_last();
        let last = s.last();
        assert forall|i: int, j: int| 0 <= i <= j < rest.len() implies text_le(
            #[trigger] rest[i],
            #[trigger] rest[j],
        ) by {
            assert(text_le(s[i], s[j]));
        }
        lemma_insert_sorted(rest, x);
        let q = insert_sorted(rest, x);
        text_order_is_total(x, last);
        text_order_is_total(last, last);
        assert forall|i: int, j: int| 0 <= i <= j < r.len() implies text_le(
            #[trigger] r[i],
            #[trigger] r[j],
        ) by {
            if j < q.len() {
                assert(text_le(q[i], q[j]));
            } else if i < q.len() {
                assert(q[i] == x || rest.contains(q[i]));
                if q[i] != x {
                    let k = choose|k: int| 0 <= k < rest.len() && rest[k] == q[i];
                    assert(text_le(s[k], s[s.len() - 1]));
                }
            }
        }
        assert forall|i: int| 0 <= i <= s.len() implies (#[trigger] r[i] == x || s.contains(
            r[i],
        )) by {
            if i < q.len() {
                assert(q[i] == x || rest.contains(q[i]));
                if q[i] != x {
                    let k = choose|k: int| 0 <= k < rest.len() && rest[k] == q[i];
                    assert(s[k] == r[i]);
                }
            } else {
                assert(s[s.len() - 1] == r[i]);
            }
        }
        assert(s =~= rest.push(last));
        assert(r.to_multiset() =~= q.to_multiset().insert(last));
        assert(s.to_multiset() =~= rest.to_multiset().insert(last));
        assert(r.to_multiset() =~= s.to_multiset().insert(x));
    }
}

/// Sorting puts the texts in order and neither adds nor drops one.
pub proof fn sorting_sorts(v: Seq<Seq<char>>)
    ensures
        is_sorted(sorted_texts(v)),
        sorted_texts(v).to_multiset() == v.to_multiset(),
        sorted_texts(v).len() == v.len(),
    decreases v.len(),
{
    broadcast use vstd::seq_lib::group_to_multiset_ensures;

    if v.len() > 0 {
        sorting_sorts(v.drop_last());
        lemma_insert_sorted(sorted_texts(v.drop_last()), v.last());
        assert(v =~= v.drop_last().push(v.last()));
        assert(v.to_multiset() =~= v.drop_last().to_multiset().insert(v.last()));
    } else {
        assert(v =~= Seq::empty());
    }
}

/// The texts of a list in order.
pub fn sort_texts(v: &Vec<String>) -> (r: Vec<String>)
    ensures
        views(r@) == sorted_texts(views(v@)),
{
    let ghost all = views(v@);
    let mut r: Vec<String> = Vec::new();
    let mut i: usize = 0;
    assert(all.take(0) =~= Seq::empty());
    assert(views(r@) =~= sorted_texts(all.take(0)));
    while i < v.len()
        invariant
            i <= v@.len(),
            all == views(v@),
            views(r@) == sorted_texts(all.take(i as int)),
        decreases v@.len() - i,
    {
        proof {
            assert(all.take(i + 1).drop_last() =~= all.take(i as int));
            assert(all.take(i + 1).last() == v@[i as int]@);
        }
        insert_text(&mut r, v[i].clone());
        i += 1;
    }
    assert(all.take(i as int) =~= all);
    r
}

fn insert_text(r: &mut Vec<String>, x: String)
    ensures
        views(final(r)@) == insert_sorted(views(old(r)@), x@),
{
    let ghost s = views(r@);
    let mut i: usize = r.len();
    assert(s.take(i as int) =~= s);
    assert(insert_sorted(s, x@) =~= insert_sorted(s.take(i as int), x@) + s.skip(i as int));
    while i > 0 && !comes_before(r[i - 1].as_str(), x.as_str())
        invariant
            i <= r@.len(),
            s == views(r@),
            insert_sorted(s, x@) == insert_sorted(s.take(i as int), x@) + s.skip(i as int),
        decreases i,
    {
        proof {
            let t = s.take(i as int);
            assert(t.last() == r@[i - 1]@);
            assert(t.drop_last() =~= s.take(i - 1));
            assert(insert_sorted(t, x@) == insert_sorted(t.drop_last(), x@).push(t.last()));
            assert(insert_sorted(s.take(i - 1), x@) + s.skip(i - 1) =~= insert_sorted(t, x@)
                + s.skip(i as int));
        }
        i -= 1;
    }
    proof {
        let t = s.take(i as int);
        if i > 0 {
            assert(t.last() == r@[i - 1]@);
        }
        assert(insert_sorted(t, x@) == t.push(x@));
        assert(t.push(x@) + s.skip(i as int) =~= s.insert(i as int, x@));
    }
    let ghost before = r@;
    r.insert(i, x);
    assert(views(r@) =~= s.insert(i as int, x@));
}

/// A sorted list without repetitions with one more text.
pub open spec fn insert_distinct(s: Seq<Seq<char>>, x: Seq<char>) -> Seq<Seq<char>>
    decreases s.len(),
{
    if s.len() == 0 {
        s.push(x)
    } else if s.last() == x {
        s
    } else if text_le(s.last(), x) {
        s.push(x)
    } else {
        insert_distinct(s.drop_last(), x).push(s.last())
    }
}

/// The texts of a list in order, each once.
pub open spec fn distinct_texts(v: Seq<Seq<char>>) -> Seq<Seq<char>>
    decreases v.len(),
{
    if v.len() == 0 {
        Seq::empty()
    } else {
        insert_distinct(distinct_texts(v.drop_last()), v.last())
    }
}

pub open spec fn is_increasing(v: Seq<Seq<char>>) -> bool {
    forall|i: int, j: int| 0 <= i < j < v.len() ==> text_lt(#[trigger] v[i], #[trigger] v[j])
}

proof fn lemma_insert_distinct(s: Seq<Seq<char>>, x: Seq<char>)
    requires
        is_increasing(s),
    ensures
        is_increasing(insert_distinct(s, x)),
        forall|t: Seq<char>| #[trigger]
            insert_distinct(s, x).contains(t) <==> s.contains(t) || t == x,
    decreases s.len(),
{
    let r = insert_distinct(s, x);
    if s.len() == 0 {
        assert forall|t: Seq<char>| #[trigger] r.contains(t) <==> s.contains(t) || t == x by {
            crate::types::lemma_contains_push(s, x, t);
        }
    } else if s.last() == x {
        assert(s.contains(x));
    } else if text_le(s.last(), x) {
        assert forall|i: int, j: int| 0 <= i < j < r.len() implies text_lt(
            #[trigger] r[i],
            #[trigger] r[j],
        ) by {
            if j < s.len() {
                assert(text_lt(s[i], s[j]));
            } else if i < s.len() - 1 {
                assert(text_lt(s[i], s[s.len() - 1]));
                text_order_is_transitive(s[i], s.last(), x);
                if s[i] == x {
                    text_order_is_antisymmetric(s.last(), x);
                }
            }
        }
        assert forall|t: Seq<char>| #[trigger] r.contains(t) <==> s.contains(t) || t == x by {
            crate::types::lemma_contains_push(s, x, t);
        }
    } else {
        let front = s.drop_last();
        let last = s.last();
        assert forall|i: int, j: int| 0 <= i < j < front.len() implies text_lt(
            #[trigger] front[i],
            #[trigger] front[j],
        ) by {
            assert(text_lt(s[i], s[j]));
        }
        lemma_insert_distinct(front, x);
        let q = insert_distinct(front, x);
        text_order_is_total(x, last);
        assert forall|i: int, j: int| 0 <= i < j < r.len() implies text_lt(
            #[trigger] r[i],
            #[trigger] r[j],
        ) by {
            if j < q.len() {
                assert(text_lt(q[i], q[j]));
            } else {
                assert(q.contains(q[i]));
                if q[i] != x {
                    let k = choose|k: int| 0 <= k < front.len() && front[k] == q[i];
                    assert(text_lt(s[k], s[s.len() - 1]));
                }
            }
        }
        assert(s =~= front.push(last));
        assert forall|t: Seq<char>| #[trigger] r.contains(t) <==> s.contains(t) || t == x by {
            crate::types::lemma_contains_push(q, last, t);
            crate::types::lemma_contains_push(front, last, t);
            assert(q.contains(t) <==> front.contains(t) || t == x);
        }
    }
}

/// The distinct texts of a list are in strict order, and exactly those of the
/// list.
pub proof fn distinct_texts_are_in_order(v: Seq<Seq<char>>)
    ensures
        is_increasing(distinct_texts(v)),
        forall|t: Seq<char>| #[trigger] distinct_texts(v).contains(t) <==> v.contains(t),
    decreases v.len(),
{
    if v.len() > 0 {
        let front = v.drop_last();
        distinct_texts_are_in_order(front);
        lemma_insert_distinct(distinct_texts(front), v.last());
        assert(v =~= front.push(v.last()));
        assert forall|t: Seq<char>| #[trigger] distinct_texts(v).contains(t) <==> v.contains(t) by {
            crate::types::lemma_contains_push(front, v.last(), t);
            assert(distinct_texts(front).contains(t) <==> front.contains(t));
        }
    }
}

fn insert_if_new(r: &mut Vec<String>, x: String)
    ensures
        views(final(r)@) == insert_distinct(views(old(r)@), x@),
{
    let ghost s = views(r@);
    let mut i: usize = r.len();
    assert(s.take(i as int) =~= s);
    assert(insert_distinct(s, x@) =~= insert_distinct(s.take(i as int), x@) + s.skip(i as int));
    while i > 0
        invariant
            i <= r@.len(),
            s == views(r@),
            s == views(old(r)@),
            insert_distinct(s, x@) == insert_distinct(s.take(i as int), x@) + s.skip(i as int),
        decreases i,
    {
        let ghost t = s.take(i as int);
        assert(t.last() == r@[i - 1]@);
        if same(r[i - 1].as_str(), x.as_str()) {
            assert(t + s.skip(i as int) =~= s);
            return;
        }
        if comes_before(r[i - 1].as_str(), x.as_str()) {
            proof {
                assert(t.push(x@) + s.skip(i as int) =~= s.insert(i as int, x@));
            }
            r.insert(i, x);
            assert(views(r@) =~= s.insert(i as int, x@));
            return;
        }
        proof {
            assert(t.drop_last() =~= s.take(i - 1));
            assert(insert_distinct(s.take(i - 1), x@) + s.skip(i - 1) =~= insert_distinct(t, x@)
                + s.skip(i as int));
        }
        i -= 1;
    }
    proof {
        assert(s.take(0) =~= Seq::empty());
        assert(s.take(0).push(x@) + s.skip(0) =~= s.insert(0, x@));
    }
    r.insert(0, x);
    assert(views(r@) =~= s.insert(0, x@));
}

/// The texts of a list in order, each once.
pub fn sort_distinct(v: &Vec<String>) -> (r: Vec<String>)
    ensures
        views(r@) == distinct_texts(views(v@)),
{
    let ghost all = views(v@);
    let mut r: Vec<String> = Vec::new();
    let mut i: usize = 0;
    assert(views(r@) =~= distinct_texts(all.take(0)));
    while i < v.len()
        invariant
            i <= v@.len(),
            all == views(v@),
            views(r@) == distinct_texts(all.take(i as int)),
        decreases v@.len() - i,
    {
        proof {
            assert(all.take(i + 1).drop_last() =~= all.take(i as int));
            assert(all.take(i + 1).last() == v@[i as int]@);
        }
        insert_if_new(&mut r, v[i].clone());
        i += 1;
    }
    assert(all.take(i as int) =~= all);
    r
}

} // verus!
