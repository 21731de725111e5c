//! Hash-backed lookup structures used by the n-gram and character-set
//! capabilities, built on the hashish SwissTable map and set.
//!
//! Verus cannot look inside the outside containers, so each one lives in
//! a private field of a small struct of this crate, its abstract contents
//! are named by a spec function, and every method the logic calls is a
//! trusted wrapper whose contract states what hashish's source shows.

use vstd::prelude::*;

verus! {

/// The abstract contents of a `CountMap`: which character sequences it
/// maps to which counters.
pub uninterp spec fn count_map_entries(m: CountMap) -> Map<Seq<char>, u32>;

/// The empty contents.
pub open spec fn no_counts() -> Map<Seq<char>, u32> {
    Map::empty()
}

/// A map from strings to counters, backed by hashish's `HashMap`.
#[verifier::external_body]
pub struct CountMap {
    map: hashish::HashMap<String, u32>,
}

impl CountMap {
    /// Relies on hashish::HashMap::new: the new map holds no entries.
    #[verifier::external_body]
    pub fn new() -> (r: CountMap)
        ensures
            count_map_entries(r) == no_counts(),
    {
        CountMap { map: hashish::HashMap::new() }
    }

    /// Relies on hashish::HashMap::insert: afterwards the key maps to
    /// the given value, and no other entry changes.
    #[verifier::external_body]
    pub fn insert(&mut self, key: String, value: u32)
        ensures
            count_map_entries(*final(self)) == count_map_entries(*old(self)).insert(key@, value),
    {
        self.map.insert(key, value);
    }

    /// Relies on hashish::HashMap::get: returns the key's value exactly
    /// when the map holds the key.
    #[verifier::external_body]
    pub fn get(&self, key: &String) -> (r: Option<u32>)
        ensures
            (match r {
                Option::Some(v) => count_map_entries(*self).contains_key(key@)
                    && count_map_entries(*self)[key@] == v,
                Option::None => !count_map_entries(*self).contains_key(key@),
            }),
    {
        self.map.get(key).copied()
    }
}

/// The abstract contents of a `CharSet`: which characters it holds.
pub uninterp spec fn char_set_contents(s: CharSet) -> Set<char>;

/// A set of characters, backed by hashish's `HashSet`.
#[verifier::external_body]
pub struct CharSet {
    set: hashish::HashSet<char>,
}

impl CharSet {
    /// Relies on hashish::HashSet::new: the new set is empty.
    #[verifier::external_body]
    pub fn new() -> (r: CharSet)
        ensures
            char_set_contents(r) == Set::<char>::empty(),
    {
        CharSet { set: hashish::HashSet::new() }
    }

    /// Relies on hashish::HashSet::insert: afterwards the set holds the
    /// character, and no other member changes.
    #[verifier::external_body]
    pub fn insert(&mut self, c: char)
        ensures
            char_set_contents(*final(self)) == char_set_contents(*old(self)).insert(c),
    {
        self.set.insert(c);
    }

    /// Relies on hashish::HashSet::contains: membership of the
    /// character.
    #[verifier::external_body]
    pub fn contains(&self, c: char) -> (r: bool)
        ensures
            r == char_set_contents(*self).contains(c),
    {
        self.set.contains(&c)
    }
}

} // verus!
