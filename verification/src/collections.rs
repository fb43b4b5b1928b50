//! Hash maps and hash sets of `rustc-hash`, keyed by file ids or by text.
//!
//! `FxHashMap` and `FxHashSet` are the standard library's hash map and hash set
//! with a fixed, unseeded hash function. What the functions below claim of them
//! is what the standard library documents for any hash function. The order in
//! which one of them hands out its keys is left open.
use crate::path::{FilePath, PathView};
use rustc_hash::{FxHashMap, FxHashSet};
use vstd::prelude::*;

verus! {

/// The hash function of `rustc-hash`, as a parameter of the maps and sets.
#[verifier::external_type_specification]
#[verifier::external_body]
pub struct ExFxBuildHasher(rustc_hash::FxBuildHasher);

/// `FxHashMap::default`: the new map is empty.
#[verifier::external_body]
pub(crate) fn id_map_new<V>() -> (m: FxHashMap<u32, V>)
    ensures
        (m@ == Map::<u32, V>::empty()),
{
    FxHashMap::default()
}

/// `HashMap::insert`: the key is bound to the value, whatever it was bound to
/// before.
#[verifier::external_body]
pub(crate) fn id_map_insert<V>(m: &mut FxHashMap<u32, V>, key: u32, value: V)
    ensures
        final(m)@ == old(m)@.insert(key, value),
{
    m.insert(key, value);
}

/// `HashMap::get`: the value that the key is bound to, if it is.
#[verifier::external_body]
pub(crate) fn id_map_get<V>(m: &FxHashMap<u32, V>, key: u32) -> (r: Option<&V>)
    ensures
        match r {
            Some(v) => m@.contains_key(key) && *v == m@[key],
            None => !m@.contains_key(key),
        },
{
    m.get(&key)
}

/// `HashMap::contains_key`: whether the key is bound.
#[verifier::external_body]
pub(crate) fn id_map_contains<V>(m: &FxHashMap<u32, V>, key: u32) -> (r: bool)
    ensures
        r == m@.contains_key(key),
{
    m.contains_key(&key)
}

/// `HashMap::is_empty`: whether no key is bound.
#[verifier::external_body]
pub(crate) fn id_map_is_empty<V>(m: &FxHashMap<u32, V>) -> (r: bool)
    ensures
        r == (forall|k: u32| !m@.contains_key(k)),
{
    m.is_empty()
}

/// `HashMap::keys`, collected: each bound key once, in some order.
#[verifier::external_body]
pub(crate) fn id_map_keys<V>(m: &FxHashMap<u32, V>) -> (keys: Vec<u32>)
    ensures
        keys@.no_duplicates(),
        forall|k: u32| keys@.contains(k) <==> m@.contains_key(k),
{
    m.keys().copied().collect()
}

/// `HashMap::entry` with `or_default`: the list that the key is bound to, or a
/// new empty one, gets one more item; all other keys are left alone.
#[verifier::external_body]
pub(crate) fn id_map_push(m: &mut FxHashMap<u32, Vec<u32>>, key: u32, item: u32)
    ensures
        final(m)@.dom() == old(m)@.dom().insert(key),
        final(m)@[key]@ == (if old(m)@.contains_key(key) {
            old(m)@[key]@
        } else {
            Seq::empty()
        }).push(item),
        forall|k: u32| k != key && old(m)@.contains_key(k) ==> final(m)@[k] == old(m)@[k],
{
    m.entry(key).or_default().push(item);
}

/// What a map from text to lists of line numbers holds.
pub uninterp spec fn line_map_contents(m: FxHashMap<String, Vec<u32>>) -> Map<Seq<char>, Seq<u32>>;

/// `FxHashMap::default`: the new map is empty.
#[verifier::external_body]
pub(crate) fn line_map_new() -> (m: FxHashMap<String, Vec<u32>>)
    ensures
        (line_map_contents(m) == Map::<Seq<char>, Seq<u32>>::empty()),
{
    FxHashMap::default()
}

/// `HashMap::entry` with `or_default`: the list that the text is bound to, or a
/// new empty one, gets one more line; all other keys are left alone.
#[verifier::external_body]
pub(crate) fn line_map_push(m: &mut FxHashMap<String, Vec<u32>>, key: &str, line: u32)
    ensures
        line_map_contents(*final(m)) == line_map_contents(*old(m)).insert(
            key@,
            (if line_map_contents(*old(m)).contains_key(key@) {
                line_map_contents(*old(m))[key@]
            } else {
                Seq::empty()
            }).push(line),
        ),
{
    m.entry(key.to_string()).or_default().push(line);
}

/// `HashMap::get`: the list that the text is bound to, if it is.
#[verifier::external_body]
pub(crate) fn line_map_get<'a>(m: &'a FxHashMap<String, Vec<u32>>, key: &str) -> (r: Option<
    &'a Vec<u32>,
>)
    ensures
        match r {
            Some(v) => line_map_contents(*m).contains_key(key@) && v@ == line_map_contents(*m)[key@],
            None => !line_map_contents(*m).contains_key(key@),
        },
{
    m.get(key)
}

/// What a map from text to ids holds.
pub uninterp spec fn name_map_contents(m: FxHashMap<String, u32>) -> Map<Seq<char>, u32>;

/// `FxHashMap::default`: the new map is empty.
#[verifier::external_body]
pub(crate) fn name_map_new() -> (m: FxHashMap<String, u32>)
    ensures
        (name_map_contents(m) == Map::<Seq<char>, u32>::empty()),
{
    FxHashMap::default()
}

/// `HashMap::insert`: the text is bound to the id, whatever it was bound to
/// before.
#[verifier::external_body]
pub(crate) fn name_map_insert(m: &mut FxHashMap<String, u32>, key: String, id: u32)
    ensures
        name_map_contents(*final(m)) == name_map_contents(*old(m)).insert(key@, id),
{
    m.insert(key, id);
}

/// `HashMap::get`: the id that the text is bound to, if it is.
#[verifier::external_body]
pub(crate) fn name_map_get(m: &FxHashMap<String, u32>, key: &str) -> (r: Option<u32>)
    ensures
        match r {
            Some(id) => name_map_contents(*m).contains_key(key@) && id == name_map_contents(*m)[key@],
            None => !name_map_contents(*m).contains_key(key@),
        },
{
    m.get(key).copied()
}

/// What a map from text to places in a list holds.
pub uninterp spec fn place_map_contents(m: FxHashMap<String, usize>) -> Map<Seq<char>, usize>;

/// `FxHashMap::default`: the new map is empty.
#[verifier::external_body]
pub(crate) fn place_map_new() -> (m: FxHashMap<String, usize>)
    ensures
        (place_map_contents(m) == Map::<Seq<char>, usize>::empty()),
{
    FxHashMap::default()
}

/// `HashMap::insert`: the text is bound to the place, whatever it was bound to
/// before.
#[verifier::external_body]
pub(crate) fn place_map_insert(m: &mut FxHashMap<String, usize>, key: String, place: usize)
    ensures
        place_map_contents(*final(m)) == place_map_contents(*old(m)).insert(key@, place),
{
    m.insert(key, place);
}

/// `HashMap::get`: the place that the text is bound to, if it is.
#[verifier::external_body]
pub(crate) fn place_map_get(m: &FxHashMap<String, usize>, key: &str) -> (r: Option<usize>)
    ensures
        match r {
            Some(i) => place_map_contents(*m).contains_key(key@) && i == place_map_contents(
                *m,
            )[key@],
            None => !place_map_contents(*m).contains_key(key@),
        },
{
    m.get(key).copied()
}

/// What a map from text to paths holds.
pub uninterp spec fn alias_map_contents(m: FxHashMap<String, FilePath>) -> Map<Seq<char>, PathView>;

/// `FxHashMap::default`: the new map is empty.
#[verifier::external_body]
pub(crate) fn alias_map_new() -> (m: FxHashMap<String, FilePath>)
    ensures
        (alias_map_contents(m) == Map::<Seq<char>, PathView>::empty()),
{
    FxHashMap::default()
}

/// `FxHashSet::default`: the new set is empty.
#[verifier::external_body]
pub(crate) fn id_set_new() -> (s: FxHashSet<u32>)
    ensures
        s@ == Set::<u32>::empty(),
{
    FxHashSet::default()
}

/// `HashSet::insert`: the set holds the id, and the result says whether it is new.
#[verifier::external_body]
pub(crate) fn id_set_insert(s: &mut FxHashSet<u32>, id: u32) -> (fresh: bool)
    ensures
        final(s)@ == old(s)@.insert(id),
        fresh == !old(s)@.contains(id),
{
    s.insert(id)
}

/// `HashSet::contains`: whether the set holds the id.
#[verifier::external_body]
pub(crate) fn id_set_contains(s: &FxHashSet<u32>, id: u32) -> (r: bool)
    ensures
        r == s@.contains(id),
{
    s.contains(&id)
}

/// `HashSet::remove`: the set no longer holds the id.
#[verifier::external_body]
pub(crate) fn id_set_remove(s: &mut FxHashSet<u32>, id: u32)
    ensures
        final(s)@ == old(s)@.remove(id),
{
    s.remove(&id);
}

/// `HashSet::iter`, collected: each id once, in some order.
#[verifier::external_body]
pub(crate) fn id_set_items(s: &FxHashSet<u32>) -> (ids: Vec<u32>)
    ensures
        ids@.no_duplicates(),
        forall|k: u32| ids@.contains(k) <==> s@.contains(k),
{
    s.iter().copied().collect()
}

/// What a set of texts holds.
pub uninterp spec fn text_set_contents(s: FxHashSet<String>) -> Set<Seq<char>>;

/// `FxHashSet::default`: the new set is empty.
#[verifier::external_body]
pub(crate) fn text_set_new() -> (s: FxHashSet<String>)
    ensures
        text_set_contents(s) == Set::<Seq<char>>::empty(),
{
    FxHashSet::default()
}

/// `HashSet::insert`: the set holds the text.
#[verifier::external_body]
pub(crate) fn text_set_insert(s: &mut FxHashSet<String>, text: &str)
    ensures
        text_set_contents(*final(s)) == text_set_contents(*old(s)).insert(text@),
{
    s.insert(text.to_string());
}

/// `HashSet::contains`: whether the set holds the text.
#[verifier::external_body]
pub(crate) fn text_set_contains(s: &FxHashSet<String>, text: &str) -> (r: bool)
    ensures
        r == text_set_contents(*s).contains(text@),
{
    s.contains(text)
}

/// `HashSet::len`: how many texts the set holds.
#[verifier::external_body]
pub(crate) fn text_set_len(s: &FxHashSet<String>) -> (n: usize)
    ensures
        n == text_set_contents(*s).len(),
        n == 0 ==> text_set_contents(*s) == Set::<Seq<char>>::empty(),
{
    s.len()
}

} // verus!
