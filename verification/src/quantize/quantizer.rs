use vstd::prelude::*;
use indexmap::IndexMap;
use crate::utils::color_utils::Argb;

verus! {

/// `indexmap::IndexMap`, the insertion-ordered hash map in which quantizers count colors.
#[verifier::external_type_specification]
#[verifier::external_body]
#[verifier::reject_recursive_types(K)]
#[verifier::reject_recursive_types(V)]
#[verifier::reject_recursive_types(S)]
pub struct ExIndexMap<K, V, S>(IndexMap<K, V, S>);

/// The entries of a color-count map in their insertion order, each a packed color and its count.
pub uninterp spec fn color_count_entries(m: IndexMap<Argb, u32>) -> Seq<(u32, u32)>;

/// The position of the first entry whose color is `key`, or -1 when there is none.
pub open spec fn key_index(t: Seq<(u32, u32)>, key: u32) -> int
    decreases t.len(),
{
    if t.len() == 0 {
        -1
    } else {
        let j = key_index(t.drop_last(), key);
        if j >= 0 {
            j
        } else if t.last().0 == key {
            t.len() - 1
        } else {
            -1
        }
    }
}

/// The count recorded for `key`, if any.
pub open spec fn lookup_count(t: Seq<(u32, u32)>, key: u32) -> Option<u32> {
    let j = key_index(t, key);
    if j >= 0 {
        Some(t[j].1)
    } else {
        None
    }
}

/// The entries after recording `count` for `key`: an entry that is already there keeps its
/// place and takes the new count; otherwise the pair goes last.
pub open spec fn set_entry(t: Seq<(u32, u32)>, key: u32, count: u32) -> Seq<(u32, u32)> {
    let j = key_index(t, key);
    if j >= 0 {
        t.update(j, (key, count))
    } else {
        t.push((key, count))
    }
}

/// No color occurs in two entries.
pub open spec fn keys_distinct(t: Seq<(u32, u32)>) -> bool {
    forall|i: int, j: int| 0 <= i < j < t.len() ==> #[trigger] t[i].0 != #[trigger] t[j].0
}

/// `IndexMap::new`: an empty map.
#[verifier::external_body]
pub(crate) fn new_color_counts() -> (m: IndexMap<Argb, u32>)
    ensures
        color_count_entries(m) == Seq::<(u32, u32)>::empty(),
{
    IndexMap::new()
}

/// `IndexMap::get`: the value stored with the key equal to `color`, if any.
#[verifier::external_body]
pub(crate) fn count_of(m: &IndexMap<Argb, u32>, color: Argb) -> (r: Option<u32>)
    ensures
        r == lookup_count(color_count_entries(*m), color.0),
{
    m.get(&color).copied()
}

/// `IndexMap::insert`: an existing key keeps its place in the order and takes the new value;
/// a new key is placed last.
#[verifier::external_body]
pub(crate) fn set_count(m: &mut IndexMap<Argb, u32>, color: Argb, count: u32)
    ensures
        color_count_entries(*final(m)) == set_entry(color_count_entries(*old(m)), color.0, count),
{
    m.insert(color, count);
}

/// `IndexMap::len`: the number of entries.
#[verifier::external_body]
pub(crate) fn count_len(m: &IndexMap<Argb, u32>) -> (n: usize)
    ensures
        n == color_count_entries(*m).len(),
{
    m.len()
}

/// `IndexMap::get_index`: the entry at a position of the order, if the position is in range.
#[verifier::external_body]
pub(crate) fn count_entry_at(m: &IndexMap<Argb, u32>, i: usize) -> (r: Option<(Argb, u32)>)
    ensures
        i < color_count_entries(*m).len() ==> r == Some(
            (Argb(color_count_entries(*m)[i as int].0), color_count_entries(*m)[i as int].1),
        ),
        i >= color_count_entries(*m).len() ==> r is None,
{
    m.get_index(i).map(|(k, v)| (*k, *v))
}

/// `IndexMap::clone`: a map with the same entries in the same order.
#[verifier::external_body]
pub(crate) fn clone_counts(m: &IndexMap<Argb, u32>) -> (c: IndexMap<Argb, u32>)
    ensures
        color_count_entries(c) == color_count_entries(*m),
{
    m.clone()
}

/// Represents result of a quantizer run.
#[derive(Debug)]
pub struct QuantizerResult {
    /// Map with keys of colors in ARGB format, values of how many of the input pixels belong to
    /// the color.
    pub color_to_count: IndexMap<Argb, u32>,
}

impl QuantizerResult {
    /// A result holding the given map.
    pub fn new(color_to_count: IndexMap<Argb, u32>) -> (r: Self)
        ensures
            r.color_to_count == color_to_count,
    {
        Self { color_to_count }
    }
}

impl Clone for QuantizerResult {
    /// A result with the same entries in the same order.
    fn clone(&self) -> (r: Self)
        ensures
            color_count_entries(r.color_to_count) == color_count_entries(self.color_to_count),
    {
        Self { color_to_count: clone_counts(&self.color_to_count) }
    }
}

impl Default for QuantizerResult {
    /// A result with no colors.
    fn default() -> (r: Self)
        ensures
            color_count_entries(r.color_to_count) == Seq::<(u32, u32)>::empty(),
    {
        Self { color_to_count: new_color_counts() }
    }
}

} // verus!
