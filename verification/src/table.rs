//! The table of published pages.

use vstd::hash_map::StringHashMap;
use vstd::prelude::*;

verus! {

/// Maps the path of each content file, relative to the content root, to the
/// address under which the page is published.
///
/// Paths are compared exactly, character by character, and each path has at
/// most one entry. The table is viewed as a map from path to address, both as
/// sequences of characters. It is held in a hash map.
pub struct PermalinkTable {
    entries: StringHashMap<String>,
}

impl View for PermalinkTable {
    type V = Map<Seq<char>, Seq<char>>;

    closed spec fn view(&self) -> Map<Seq<char>, Seq<char>> {
        self.entries@.map_values(|permalink: String| permalink@)
    }
}

impl PermalinkTable {
    /// A table without entries.
    pub fn new() -> (table: Self)
        ensures
            table@ == Map::<Seq<char>, Seq<char>>::empty(),
    {
        PermalinkTable { entries: StringHashMap::new() }
    }

    /// Records that the page at `path` is published at `permalink`, in place
    /// of what the table held for `path` before.
    pub fn insert(&mut self, path: String, permalink: String)
        ensures
            final(self)@ == old(self)@.insert(path@, permalink@),
    {
        self.entries.insert(path, permalink);
    }

    /// Whether the table holds an entry for `path`.
    pub fn contains_key(&self, path: &str) -> (found: bool)
        ensures
            found == self@.contains_key(path@),
    {
        self.entries.contains_key(path)
    }

    /// The address recorded for `path`, if there is one.
    pub fn get(&self, path: &str) -> (permalink: Option<&String>)
        ensures
            match permalink {
                Some(target) => self@.contains_key(path@) && target@ == self@[path@],
                None => !self@.contains_key(path@),
            },
    {
        self.entries.get(path)
    }
}

} // verus!
