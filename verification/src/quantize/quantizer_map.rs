use vstd::prelude::*;
use indexmap::IndexMap;
use crate::quantize::quantizer::{
    QuantizerResult, color_count_entries, key_index, lookup_count, set_entry, keys_distinct,
    new_color_counts, count_of, set_count, clone_counts,
};
use crate::utils::color_utils::Argb;

verus! {

/// The entries after seeing one more pixel of color `key`: its count grows by one, or it is
/// placed last with a count of one.
pub open spec fn bump(t: Seq<(u32, u32)>, key: u32) -> Seq<(u32, u32)> {
    let j = key_index(t, key);
    if j >= 0 {
        t.update(j, (key, (t[j].1 + 1) as u32))
    } else {
        t.push((key, 1u32))
    }
}

/// The color counts of a sequence of pixels: each distinct color once, in the order of its
/// first occurrence, with the number of pixels of that color.
pub open spec fn tally(pixels: Seq<Argb>) -> Seq<(u32, u32)>
    decreases pixels.len(),
{
    if pixels.len() == 0 {
        Seq::empty()
    } else {
        bump(tally(pixels.drop_last()), pixels.last().0)
    }
}

/// The number of pixels of color `key`.
pub open spec fn occurrences(pixels: Seq<Argb>, key: u32) -> nat
    decreases pixels.len(),
{
    if pixels.len() == 0 {
        0
    } else {
        occurrences(pixels.drop_last(), key) + if pixels.last().0 == key { 1nat } else { 0nat }
    }
}

/// No color occurs more than `u32::MAX` times, so every count fits a `u32`.
pub open spec fn counts_fit(pixels: Seq<Argb>) -> bool {
    forall|c: u32| #[trigger] occurrences(pixels, c) <= u32::MAX
}

/// The sum of the counts of a table.
pub open spec fn total_count(t: Seq<(u32, u32)>) -> int
    decreases t.len(),
{
    if t.len() == 0 {
        0
    } else {
        total_count(t.drop_last()) + t.last().1
    }
}

/// Creates a dictionary with keys of colors, and values of count of the color.
#[derive(Debug)]
pub struct QuantizerMap {
    color_to_count: Option<IndexMap<Argb, u32>>,
}

impl QuantizerMap {
    /// The counts of the last run, if there was one.
    pub closed spec fn last_counts(&self) -> Option<Seq<(u32, u32)>> {
        match self.color_to_count {
            Some(m) => Some(color_count_entries(m)),
            None => None,
        }
    }

    /// A quantizer that has not run yet.
    pub fn new() -> (q: Self)
        ensures
            q.last_counts() is None,
    {
        Self { color_to_count: None }
    }

    /// The color counts of the last run, if there was one.
    pub fn color_to_count(&self) -> (r: Option<&IndexMap<Argb, u32>>)
        ensures
            r is Some <==> self.last_counts() is Some,
            r matches Some(m) ==> self.last_counts() == Some(color_count_entries(*m)),
    {
        match &self.color_to_count {
            Some(m) => Some(m),
            None => None,
        }
    }

    /// Counts the pixels of each color, in the order in which the colors first occur.
    /// `max_colors` is ignored: every color is kept.
    pub fn quantize(&mut self, pixels: &[Argb], max_colors: usize) -> (r: QuantizerResult)
        requires
            counts_fit(pixels@),
        ensures
            color_count_entries(r.color_to_count) == tally(pixels@),
            final(self).last_counts() == Some(tally(pixels@)),
    {
        let mut pixel_by_count = new_color_counts();
        let mut i: usize = 0;
        while i < pixels.len()
            invariant
                i <= pixels@.len(),
                counts_fit(pixels@),
                color_count_entries(pixel_by_count) == tally(pixels@.subrange(0, i as int)),
            decreases pixels@.len() - i,
        {
            let pixel = pixels[i];
            proof {
                let prefix = pixels@.subrange(0, i as int);
                let next = pixels@.subrange(0, i + 1);
                assert(next.drop_last() =~= prefix);
                lemma_occurrences_prefix(pixels@, i + 1);
                lemma_occurrences_prefix(pixels@, i as int);
                lemma_tally_counts_occurrences(prefix, pixel.0);
                assert(occurrences(next, pixel.0) <= occurrences(pixels@, pixel.0));
            }
            match count_of(&pixel_by_count, pixel) {
                Some(c) => {
                    set_count(&mut pixel_by_count, pixel, c + 1);
                },
                None => {
                    set_count(&mut pixel_by_count, pixel, 1);
                },
            }
            i += 1;
        }
        assert(pixels@.subrange(0, pixels@.len() as int) =~= pixels@);
        self.color_to_count = Some(clone_counts(&pixel_by_count));
        QuantizerResult::new(pixel_by_count)
    }
}

impl Default for QuantizerMap {
    /// A quantizer that has not run yet, as `new` makes it.
    fn default() -> (q: Self)
        ensures
            q.last_counts() is None,
    {
        Self::new()
    }
}

/// The first match found by `key_index` really holds the key, lies in range, and no earlier
/// entry holds it.
pub proof fn lemma_key_index(t: Seq<(u32, u32)>, key: u32)
    ensures
        -1 <= key_index(t, key) < t.len(),
        key_index(t, key) >= 0 ==> t[key_index(t, key)].0 == key,
        forall|i: int| 0 <= i < t.len() && t[i].0 == key ==> key_index(t, key) >= 0 && key_index(t, key) <= i,
    decreases t.len(),
{
    if t.len() > 0 {
        lemma_key_index(t.drop_last(), key);
        assert forall|i: int| 0 <= i < t.len() && t[i].0 == key implies key_index(t, key) >= 0
            && key_index(t, key) <= i by {
            if i < t.len() - 1 {
                assert(t.drop_last()[i] == t[i]);
            }
        }
    }
}

/// In a table without repeated colors, `key_index` finds the one entry holding the key.
pub proof fn lemma_key_index_unique(t: Seq<(u32, u32)>, key: u32, i: int)
    requires
        keys_distinct(t),
        0 <= i < t.len(),
        t[i].0 == key,
    ensures
        key_index(t, key) == i,
{
    lemma_key_index(t, key);
}

/// Seeing one more pixel keeps the colors of the table distinct.
proof fn lemma_bump_distinct(t: Seq<(u32, u32)>, key: u32)
    requires
        keys_distinct(t),
    ensures
        keys_distinct(bump(t, key)),
{
    lemma_key_index(t, key);
    let b = bump(t, key);
    let j = key_index(t, key);
    assert forall|i1: int, i2: int| 0 <= i1 < i2 < b.len() implies #[trigger] b[i1].0
        != #[trigger] b[i2].0 by {
        if j < 0 {
            if i2 == t.len() {
                assert(t[i1].0 != key);
            } else {
                assert(t[i1].0 != t[i2].0);
            }
        } else {
            assert(t[i1].0 != t[i2].0);
        }
    }
}

/// Seeing one more pixel of color `key` adds one to its count and leaves every other count.
proof fn lemma_bump_lookup(t: Seq<(u32, u32)>, key: u32, k: u32)
    requires
        keys_distinct(t),
    ensures
        k == key ==> lookup_count(bump(t, key), k) == Some(
            (match lookup_count(t, k) {
                Some(c) => c + 1,
                None => 1,
            }) as u32,
        ),
        k != key ==> lookup_count(bump(t, key), k) == lookup_count(t, k),
{
    lemma_key_index(t, key);
    lemma_key_index(t, k);
    lemma_bump_distinct(t, key);
    let b = bump(t, key);
    lemma_key_index(b, k);
    let j = key_index(t, key);
    if k == key {
        if j >= 0 {
            lemma_key_index_unique(b, k, j);
        } else {
            lemma_key_index_unique(b, k, t.len() as int);
        }
    } else {
        let i = key_index(t, k);
        if i >= 0 {
            assert(b[i] == t[i]);
            lemma_key_index_unique(b, k, i);
        } else {
            assert forall|i2: int| 0 <= i2 < b.len() implies b[i2].0 != k by {
                if i2 < t.len() && i2 != j {
                    assert(b[i2] == t[i2]);
                }
            }
        }
    }
}

proof fn lemma_total_count_update(t: Seq<(u32, u32)>, j: int, e: (u32, u32))
    requires
        0 <= j < t.len(),
    ensures
        total_count(t.update(j, e)) == total_count(t) - t[j].1 + e.1,
    decreases t.len(),
{
    let u = t.update(j, e);
    if j == t.len() - 1 {
        assert(u.drop_last() =~= t.drop_last());
    } else {
        lemma_total_count_update(t.drop_last(), j, e);
        assert(u.drop_last() =~= t.drop_last().update(j, e));
    }
}

/// The counting table of a sequence of pixels lists each color once; the count of a color is
/// the number of pixels of that color, and a color that no pixel has is absent.
pub proof fn lemma_tally_counts_occurrences(pixels: Seq<Argb>, key: u32)
    requires
        counts_fit(pixels),
    ensures
        keys_distinct(tally(pixels)),
        occurrences(pixels, key) == 0 ==> lookup_count(tally(pixels), key) is None,
        occurrences(pixels, key) > 0 ==> lookup_count(tally(pixels), key) == Some(
            occurrences(pixels, key) as u32,
        ),
    decreases pixels.len(),
{
    if pixels.len() > 0 {
        let prev = pixels.drop_last();
        let p = pixels.last().0;
        assert(pixels.subrange(0, pixels.len() - 1) =~= prev);
        lemma_occurrences_prefix(pixels, pixels.len() - 1);
        lemma_tally_counts_occurrences(prev, key);
        lemma_tally_counts_occurrences(prev, p);
        lemma_bump_distinct(tally(prev), p);
        lemma_bump_lookup(tally(prev), p, key);
        assert(occurrences(pixels, key) <= u32::MAX);
    }
}

/// A prefix of a sequence of pixels has no more pixels of any color than the sequence, so a
/// prefix of a sequence whose counts fit has counts that fit.
proof fn lemma_occurrences_prefix(pixels: Seq<Argb>, n: int)
    requires
        0 <= n <= pixels.len(),
    ensures
        forall|c: u32| #[trigger] occurrences(pixels.subrange(0, n), c) <= occurrences(pixels, c),
        counts_fit(pixels) ==> counts_fit(pixels.subrange(0, n)),
    decreases pixels.len(),
{
    if n < pixels.len() {
        let prev = pixels.drop_last();
        assert(prev.subrange(0, n) =~= pixels.subrange(0, n));
        lemma_occurrences_prefix(prev, n);
        assert forall|c: u32| #[trigger] occurrences(pixels.subrange(0, n), c) <= occurrences(
            pixels,
            c,
        ) by {
            assert(occurrences(prev, c) <= occurrences(pixels, c));
        }
    } else {
        assert(pixels.subrange(0, n) =~= pixels);
    }
}

/// The counts of the table of a sequence of pixels add up to the number of pixels.
pub proof fn lemma_tally_total(pixels: Seq<Argb>)
    requires
        counts_fit(pixels),
    ensures
        total_count(tally(pixels)) == pixels.len(),
    decreases pixels.len(),
{
    if pixels.len() > 0 {
        let prev = pixels.drop_last();
        let t = tally(prev);
        let p = pixels.last().0;
        assert(pixels.subrange(0, pixels.len() - 1) =~= prev);
        lemma_occurrences_prefix(pixels, pixels.len() - 1);
        lemma_tally_total(prev);
        lemma_tally_counts_occurrences(prev, p);
        lemma_key_index(t, p);
        let j = key_index(t, p);
        if j >= 0 {
            lemma_total_count_update(t, j, (p, (t[j].1 + 1) as u32));
        } else {
            assert(t.push((p, 1u32)).drop_last() =~= t);
        }
    }
}

} // verus!
