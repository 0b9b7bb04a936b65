//! A single OpenCC-style dictionary table with key-length metadata.
//!
//! A [`DictMap`] maps source phrases to target phrases and keeps, updated
//! on every insertion, the shortest and longest key length (in Unicode
//! scalar values) and which key lengths occur: a 64-bit mask for lengths
//! 1 to 64 and a set for longer ones. Segmentation asks
//! [`DictMap::has_key_len`] before trying a window of a given length.

use vstd::prelude::*;
use crate::fx::{
    empty_length_set, empty_phrase_mapping, length_set_clone, length_set_contains, length_set_insert,
    length_set_new, phrase_entries, phrase_map_clone, phrase_map_get, phrase_map_insert, phrase_map_is_empty,
    phrase_map_new, LengthSet, PhraseMap,
};

verus! {

/// Whether bit `n - 1` of `mask` is set.
pub open spec fn mask_has(mask: u64, n: u16) -> bool {
    1 <= n <= 64 && mask & (1u64 << ((n - 1) as u64)) != 0
}

/// Whether the metadata `mask` and `long` record the key length `n`: lengths
/// 1 to 64 through the mask, longer ones through the set.
pub open spec fn records_length(mask: u64, long: Set<u16>, n: u16) -> bool {
    if n == 0 {
        false
    } else if n <= 64 {
        mask_has(mask, n)
    } else {
        long.contains(n)
    }
}

/// Length metadata: the key lengths present, the shortest and the longest.
pub struct LengthStats {
    pub lengths: Set<u16>,
    pub min_len: u16,
    pub max_len: u16,
}

/// The metadata after recording one more key of length `len`; a length of
/// zero records nothing.
pub open spec fn length_stats_step(s: LengthStats, len: u16) -> LengthStats {
    if len == 0 {
        s
    } else {
        LengthStats {
            lengths: s.lengths.insert(len),
            min_len: if s.min_len == 0 || len < s.min_len {
                len
            } else {
                s.min_len
            },
            max_len: if len > s.max_len {
                len
            } else {
                s.max_len
            },
        }
    }
}

/// The stored metadata `(min_len, max_len, key_len_mask, long_lengths)`
/// after recording one more key of length `len`: a length of 1 to 64 sets
/// bit `len - 1` of the mask, a longer one joins the set of long lengths,
/// and a length of zero records nothing.
pub open spec fn stored_parts_step(p: (u16, u16, u64, Set<u16>), len: u16) -> (
    u16,
    u16,
    u64,
    Set<u16>,
) {
    if len == 0 {
        p
    } else {
        (
            if p.0 == 0 || len < p.0 {
                len
            } else {
                p.0
            },
            if len > p.1 {
                len
            } else {
                p.1
            },
            if len <= 64 {
                p.2 | (1u64 << ((len - 1) as u64))
            } else {
                p.2
            },
            if len > 64 {
                p.3.insert(len)
            } else {
                p.3
            },
        )
    }
}

/// The stored metadata of an empty table.
pub open spec fn empty_stored_parts() -> (u16, u16, u64, Set<u16>) {
    (0, 0, 0, Set::empty())
}

/// The metadata of an empty table.
pub open spec fn empty_length_stats() -> LengthStats {
    LengthStats { lengths: Set::empty(), min_len: 0, max_len: 0 }
}

/// The metadata after recording the key lengths `lens` in order, starting
/// from an empty table.
pub open spec fn length_stats_of(lens: Seq<u16>) -> LengthStats
    decreases lens.len(),
{
    if lens.len() == 0 {
        empty_length_stats()
    } else {
        length_stats_step(length_stats_of(lens.drop_last()), lens.last())
    }
}

/// Recording key lengths one at a time, starting from an empty table, leaves
/// exactly the nonzero lengths recorded; the shortest key length is the
/// smallest nonzero length and the longest is the largest length, both 0
/// when no nonzero length was recorded.
pub proof fn law_length_stats_summarize_recorded_lengths(lens: Seq<u16>)
    ensures
        forall|n: u16| #[trigger]
            length_stats_of(lens).lengths.contains(n) <==> (n != 0 && lens.contains(n)),
        (length_stats_of(lens).min_len == 0) <==> (forall|i: int|
            0 <= i < lens.len() ==> #[trigger] lens[i] == 0),
        length_stats_of(lens).min_len != 0 ==> lens.contains(length_stats_of(lens).min_len),
        forall|i: int|
            0 <= i < lens.len() && #[trigger] lens[i] != 0 ==> length_stats_of(lens).min_len
                <= lens[i],
        forall|i: int| 0 <= i < lens.len() ==> #[trigger] lens[i] <= length_stats_of(lens).max_len,
        length_stats_of(lens).max_len == 0 || lens.contains(length_stats_of(lens).max_len),
    decreases lens.len(),
{
    if lens.len() > 0 {
        let init = lens.drop_last();
        let last = lens.last();
        law_length_stats_summarize_recorded_lengths(init);
        assert(lens == init.push(last));
        assert forall|n: u16| lens.contains(n) <==> (init.contains(n) || n == last) by {
            if lens.contains(n) {
                let i = choose|i: int| 0 <= i < lens.len() && lens[i] == n;
                if i < init.len() {
                    assert(init[i] == n);
                }
            }
            if init.contains(n) {
                let i = choose|i: int| 0 <= i < init.len() && init[i] == n;
                assert(lens[i] == n);
            }
            if n == last {
                assert(lens[lens.len() - 1] == n);
            }
        }
        assert forall|i: int| 0 <= i < lens.len() - 1 implies #[trigger] lens[i] == init[i] by {}
    }
}

/// What a lookup gives after an insertion: `before` and `after` are a table
/// before and after `insert_with_len(key, val, _)` (whose contract relates
/// their entries so). Looking up the inserted key gives the inserted target,
/// and every other key gives what it gave before.
pub proof fn law_lookup_after_insert(before: DictMap, after: DictMap, key: Seq<char>, val: Seq<char>)
    requires
        after.entries() == before.entries().insert(key, val),
    ensures
        after.entries().contains_key(key) && after.entries()[key] == val,
        forall|k: Seq<char>|
            k != key ==> (#[trigger] after.entries().contains_key(k) == before.entries().contains_key(k)
                && (before.entries().contains_key(k) ==> after.entries()[k] == before.entries()[k])),
{
}

proof fn lemma_mask_set_bit(mask: u64, a: u64, b: u64)
    requires
        a < 64,
        b < 64,
    ensures
        ((mask | (1u64 << a)) & (1u64 << b) != 0) == ((mask & (1u64 << b)) != 0 || a == b),
{
    assert(((mask | (1u64 << a)) & (1u64 << b) != 0) == ((mask & (1u64 << b)) != 0 || a == b))
        by (bit_vector)
        requires
            a < 64,
            b < 64,
    ;
}

/// One OpenCC-style dictionary table with precomputed key-length metadata.
#[derive(Debug)]
pub struct DictMap {
    map: PhraseMap,
    min_len: u16,
    max_len: u16,
    key_len_mask: u64,
    long_lengths: LengthSet,
}

impl DictMap {
    /// The phrase mappings, by characters.
    pub closed spec fn entries(&self) -> Map<Seq<char>, Seq<char>> {
        phrase_entries(self.map)
    }

    /// The key-length metadata.
    pub closed spec fn stats(&self) -> LengthStats {
        LengthStats {
            lengths: Set::new(
                |n: u16| records_length(self.key_len_mask, self.long_lengths@, n),
            ),
            min_len: self.min_len,
            max_len: self.max_len,
        }
    }

    /// The stored metadata as it is held: shortest and longest key length,
    /// the length mask, and the whole set of long lengths.
    pub closed spec fn stored_parts(&self) -> (u16, u16, u64, Set<u16>) {
        (self.min_len, self.max_len, self.key_len_mask, self.long_lengths@)
    }

    /// Assembles a table from stored parts, as a serialized table holds them.
    pub fn from_raw_parts(
        map: PhraseMap,
        min_len: u16,
        max_len: u16,
        key_len_mask: u64,
        long_lengths: LengthSet,
    ) -> (d: Self)
        ensures
            d.entries() == phrase_entries(map),
            d.stored_parts() == (min_len, max_len, key_len_mask, long_lengths@),
            d.stats() == (LengthStats {
                lengths: Set::new(|n: u16| records_length(key_len_mask, long_lengths@, n)),
                min_len,
                max_len,
            }),
    {
        DictMap { map, min_len, max_len, key_len_mask, long_lengths }
    }

    /// The stored parts of the table: the map, the shortest and longest key
    /// lengths, the length mask and the set of lengths above 64.
    pub fn into_raw_parts(self) -> (r: (PhraseMap, u16, u16, u64, LengthSet))
        ensures
            phrase_entries(r.0) == self.entries(),
            (r.1, r.2, r.3, r.4@) == self.stored_parts(),
            self.stats() == (LengthStats {
                lengths: Set::new(|n: u16| records_length(r.3, r.4@, n)),
                min_len: r.1,
                max_len: r.2,
            }),
    {
        (self.map, self.min_len, self.max_len, self.key_len_mask, self.long_lengths)
    }

    /// Inserts `key -> val` and records `len_chars`, the number of Unicode
    /// scalar values of `key`, in the length metadata in the same step.
    pub fn insert_with_len(&mut self, key: String, val: String, len_chars: u16)
        ensures
            final(self).entries() == old(self).entries().insert(key@, val@),
            final(self).stats() == length_stats_step(old(self).stats(), len_chars),
            final(self).stored_parts() == stored_parts_step(old(self).stored_parts(), len_chars),
    {
        let ghost old_stats = self.stats();
        let old_stats_mask: Ghost<u64> = Ghost(self.key_len_mask);
        if len_chars != 0 {
            if len_chars <= 64 {
                self.key_len_mask = self.key_len_mask | (1u64 << (len_chars - 1));
            } else {
                length_set_insert(&mut self.long_lengths, len_chars);
            }
            if self.min_len == 0 || len_chars < self.min_len {
                self.min_len = len_chars;
            }
            if len_chars > self.max_len {
                self.max_len = len_chars;
            }
            proof {
                assert forall|n: u16| #[trigger]
                    self.stats().lengths.contains(n) == old_stats.lengths.insert(len_chars).contains(
                        n,
                    ) by {
                    if 1 <= n <= 64 && len_chars <= 64 {
                        lemma_mask_set_bit(
                            old_stats_mask@,
                            (len_chars - 1) as u64,
                            (n - 1) as u64,
                        );
                    }
                }
                assert(self.stats().lengths =~= old_stats.lengths.insert(len_chars));
            }
        }
        phrase_map_insert(&mut self.map, key, val);
    }

    /// Removes every entry and resets the metadata to that of an empty table.
    pub fn clear(&mut self)
        ensures
            final(self).entries() == empty_phrase_mapping(),
            final(self).stats() == empty_length_stats(),
            final(self).stored_parts() == empty_stored_parts(),
    {
        *self = Self::default();
    }

    /// The target phrase stored for `from`, if any.
    pub fn get(&self, from: &str) -> (r: Option<&str>)
        ensures
            match r {
                Some(v) => self.entries().contains_key(from@) && v@ == self.entries()[from@],
                None => !self.entries().contains_key(from@),
            },
    {
        phrase_map_get(&self.map, from)
    }

    /// Whether some key of length `n` has been recorded.
    pub fn has_key_len(&self, n: u16) -> (r: bool)
        ensures
            r == self.stats().lengths.contains(n),
    {
        if n == 0 {
            return false;
        }
        if n <= 64 {
            (self.key_len_mask & (1u64 << (n - 1))) != 0
        } else {
            length_set_contains(&self.long_lengths, n)
        }
    }

    /// The shortest recorded key length (0 when none).
    pub fn min_len(&self) -> (r: u16)
        ensures
            r == self.stats().min_len,
    {
        self.min_len
    }

    /// The longest recorded key length (0 when none).
    pub fn max_len(&self) -> (r: u16)
        ensures
            r == self.stats().max_len,
    {
        self.max_len
    }

    /// Whether the table holds no entry.
    pub fn is_empty(&self) -> (r: bool)
        ensures
            r == (self.entries() == empty_phrase_mapping()),
    {
        phrase_map_is_empty(&self.map)
    }
}

impl Clone for DictMap {
    fn clone(&self) -> (d: Self)
        ensures
            d.entries() == self.entries(),
            d.stored_parts() == self.stored_parts(),
            d.stats() == self.stats(),
    {
        DictMap {
            map: phrase_map_clone(&self.map),
            min_len: self.min_len,
            max_len: self.max_len,
            key_len_mask: self.key_len_mask,
            long_lengths: length_set_clone(&self.long_lengths),
        }
    }
}

impl Default for DictMap {
    /// An empty table: no entries, both lengths 0, no key length recorded.
    fn default() -> (d: Self)
        ensures
            d.entries() == empty_phrase_mapping(),
            d.stats() == empty_length_stats(),
            d.stored_parts() == empty_stored_parts(),
    {
        let d = DictMap {
            map: phrase_map_new(),
            min_len: 0,
            max_len: 0,
            key_len_mask: 0,
            long_lengths: length_set_new(),
        };
        assert forall|n: u16| !records_length(0u64, empty_length_set(), n) by {
            if 1 <= n <= 64 {
                assert(0u64 & (1u64 << ((n - 1) as u64)) == 0) by (bit_vector);
            }
        }
        assert(d.stats().lengths == Set::<u16>::empty());
        d
    }
}

} // verus!
