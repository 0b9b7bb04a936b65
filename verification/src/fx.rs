//! The `rustc_hash` collections that the tables use, and the calls made on them.
//!
//! `FxHashMap` and `FxHashSet` are std's `HashMap` and `HashSet` with the
//! `FxBuildHasher` hasher of `rustc_hash`. vstd's specifications of std's
//! hash collections only apply to hashers that it knows to be valid, so the
//! calls that the library makes on these collections are wrapped here, each
//! with the contract that std documents for it.

use rustc_hash::{FxBuildHasher, FxHashMap, FxHashSet};
use vstd::prelude::*;

verus! {

/// `rustc_hash::FxBuildHasher`, the hasher builder of `FxHashMap` and `FxHashSet`.
#[verifier::external_type_specification]
#[verifier::external_body]
pub struct ExFxBuildHasher(FxBuildHasher);

// ---------------------------------------------------------------------------
// FxHashMap<char, char>
// ---------------------------------------------------------------------------

/// A map from characters to characters hashed with `FxBuildHasher`.
pub type CharMap = FxHashMap<char, char>;

/// The mapping with no entries.
pub open spec fn empty_char_mapping() -> Map<char, char> {
    Map::empty()
}

/// An empty `FxHashMap<char, char>` (`FxHashMap::default`).
///
/// Trusted: a default-built map holds no entries.
#[verifier::external_body]
pub(crate) fn char_map_new() -> (m: CharMap)
    ensures
        m@ == empty_char_mapping(),
{
    FxHashMap::default()
}

/// `HashMap::insert` on an `FxHashMap<char, char>`.
///
/// Trusted: after the call `k` maps to `v` and every other key keeps its
/// value, as std documents for `insert`.
#[verifier::external_body]
pub(crate) fn char_map_insert(m: &mut FxHashMap<char, char>, k: char, v: char)
    ensures
        final(m)@ == old(m)@.insert(k, v),
{
    m.insert(k, v);
}

/// `HashMap::get` on an `FxHashMap<char, char>`, the value copied out.
///
/// Trusted: the result is the value stored for `k`, or `None` when `k` has
/// no entry, as std documents for `get`.
#[verifier::external_body]
pub(crate) fn char_map_get(m: &FxHashMap<char, char>, k: char) -> (r: Option<char>)
    ensures
        r == if m@.contains_key(k) {
            Some(m@[k])
        } else {
            None::<char>
        },
{
    m.get(&k).copied()
}

// ---------------------------------------------------------------------------
// FxHashMap<String, String>
// ---------------------------------------------------------------------------

/// A phrase table: source phrase to target phrase, hashed with `FxBuildHasher`.
pub type PhraseMap = FxHashMap<String, String>;

/// The entries of a phrase table, each string taken by its characters.
pub uninterp spec fn phrase_entries(m: PhraseMap) -> Map<Seq<char>, Seq<char>>;

/// The phrase mapping with no entries.
pub open spec fn empty_phrase_mapping() -> Map<Seq<char>, Seq<char>> {
    Map::empty()
}

/// An empty phrase table (`FxHashMap::default`).
///
/// Trusted: a default-built map holds no entries.
#[verifier::external_body]
pub(crate) fn phrase_map_new() -> (m: PhraseMap)
    ensures
        phrase_entries(m) == empty_phrase_mapping(),
{
    FxHashMap::default()
}

/// `HashMap::insert` on a phrase table.
///
/// Trusted: after the call the phrase `k` maps to `v` and every other
/// phrase keeps its value, as std documents for `insert` (two `String` keys
/// are the same key exactly when they hold the same characters).
#[verifier::external_body]
pub(crate) fn phrase_map_insert(m: &mut PhraseMap, k: String, v: String)
    ensures
        phrase_entries(*final(m)) == phrase_entries(*old(m)).insert(k@, v@),
{
    m.insert(k, v);
}

/// `HashMap::get` on a phrase table, looked up by `&str` and read as `&str`.
///
/// Trusted: the result holds the target stored for the phrase `k`, or is
/// `None` when `k` has no entry, as std documents for `get`.
#[verifier::external_body]
pub(crate) fn phrase_map_get<'a>(m: &'a PhraseMap, k: &str) -> (r: Option<&'a str>)
    ensures
        match r {
            Some(v) => phrase_entries(*m).contains_key(k@) && v@ == phrase_entries(*m)[k@],
            None => !phrase_entries(*m).contains_key(k@),
        },
{
    match m.get(k) {
        Some(v) => Some(v.as_str()),
        None => None,
    }
}

/// `Clone::clone` on a phrase table.
///
/// Trusted: the copy holds the same entries.
#[verifier::external_body]
pub(crate) fn phrase_map_clone(m: &PhraseMap) -> (r: PhraseMap)
    ensures
        phrase_entries(r) == phrase_entries(*m),
{
    m.clone()
}

/// `HashMap::is_empty` on a phrase table.
///
/// Trusted: the result tells whether the table holds no entry.
#[verifier::external_body]
pub(crate) fn phrase_map_is_empty(m: &PhraseMap) -> (r: bool)
    ensures
        r == (phrase_entries(*m) == empty_phrase_mapping()),
{
    m.is_empty()
}

// ---------------------------------------------------------------------------
// FxHashSet<u16>
// ---------------------------------------------------------------------------

/// A set of key lengths hashed with `FxBuildHasher`.
pub type LengthSet = FxHashSet<u16>;

/// The set of key lengths with no element.
pub open spec fn empty_length_set() -> Set<u16> {
    Set::empty()
}

/// An empty length set (`FxHashSet::default`).
///
/// Trusted: a default-built set holds no element.
#[verifier::external_body]
pub(crate) fn length_set_new() -> (s: LengthSet)
    ensures
        s@ == empty_length_set(),
{
    FxHashSet::default()
}

/// `HashSet::insert` on a length set.
///
/// Trusted: afterwards the set holds `n` and what it held before.
#[verifier::external_body]
pub(crate) fn length_set_insert(s: &mut LengthSet, n: u16)
    ensures
        final(s)@ == old(s)@.insert(n),
{
    s.insert(n);
}

/// `Clone::clone` on a length set.
///
/// Trusted: the copy holds the same elements.
#[verifier::external_body]
pub(crate) fn length_set_clone(s: &LengthSet) -> (r: LengthSet)
    ensures
        r@ == s@,
{
    s.clone()
}

/// `HashSet::contains` on a length set.
///
/// Trusted: the result tells whether the set holds `n`.
#[verifier::external_body]
pub(crate) fn length_set_contains(s: &LengthSet, n: u16) -> (r: bool)
    ensures
        r == s@.contains(n),
{
    s.contains(&n)
}

} // verus!
