//! Texts by name: the environment of a process, the fields of a stored session.
use vstd::hash_map::StringHashMap;
use vstd::prelude::*;
use vstd::string::*;

use crate::text::opt_text;

verus! {

/// A text under each of some names.
pub struct TextMap {
    entries: StringHashMap<String>,
}

/// The text under `name`.
pub open spec fn text_at(map: Map<Seq<char>, Seq<char>>, name: Seq<char>) -> Option<Seq<char>> {
    if map.contains_key(name) {
        Some(map[name])
    } else {
        None
    }
}

impl View for TextMap {
    type V = Map<Seq<char>, Seq<char>>;

    closed spec fn view(&self) -> Map<Seq<char>, Seq<char>> {
        self.entries@.map_values(|v: String| v@)
    }
}

impl TextMap {
    /// No texts.
    pub fn new() -> (r: Self)
        ensures
            r@ == Map::<Seq<char>, Seq<char>>::empty(),
    {
        TextMap { entries: StringHashMap::new() }
    }

    /// Put a text under a name, in place of the one that was there.
    pub fn set(&mut self, name: String, text: String)
        ensures
            final(self)@ == old(self)@.insert(name@, text@),
    {
        self.entries.insert(name, text);
        assert(self@ =~= old(self)@.insert(name@, text@));
    }

    /// The text under a name.
    pub fn get(&self, name: &str) -> (r: Option<String>)
        ensures
            opt_text(r) == text_at(self@, name@),
    {
        match self.entries.get(name) {
            Some(v) => Some(v.clone()),
            None => None,
        }
    }

    /// Whether there is no text at all.
    pub fn is_empty(&self) -> (r: bool)
        ensures
            r == (self@.dom() =~= Set::<Seq<char>>::empty()),
    {
        let r = self.entries.is_empty();
        assert(self@.dom() =~= self.entries@.dom());
        r
    }
}

} // verus!
