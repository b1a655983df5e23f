//! Content that a document carried and the model has no field for.
//!
//! It is kept as an ordered mapping from a key to raw text, in the order in
//! which the keys first came, so that it can be written back where it stood.
//! Nothing here reads the text.

use vstd::prelude::*;
use crate::ident::{contains_id, distinct_ids, find, lemma_distinct_push, lemma_position, lemma_position_is, lemma_position_push, lookup, position, Identified};

verus! {

/// One piece of preserved content: its key and its raw text.
#[derive(Debug, Clone)]
pub struct PreservedEntry {
    pub key: String,
    pub raw: String,
}

impl Identified for PreservedEntry {
    open spec fn id(&self) -> Seq<char> {
        self.key@
    }

    fn identifier(&self) -> (name: &String) {
        &self.key
    }
}

/// An ordered mapping from keys to raw text, with each key at most once.
#[derive(Debug, Clone)]
pub struct PreservedContent {
    entries: Vec<PreservedEntry>,
}

impl PreservedContent {
    /// The entries, in the order in which their keys first came.
    pub closed spec fn entries(&self) -> Seq<PreservedEntry> {
        self.entries@
    }

    /// Each key occurs once. Every mapping made by `new` and changed by
    /// `insert` is so.
    pub open spec fn keys_distinct(&self) -> bool {
        distinct_ids(self.entries())
    }

    /// The raw text stored under `key`.
    pub open spec fn text(&self, key: Seq<char>) -> Option<Seq<char>> {
        match lookup(self.entries(), key) {
            Some(entry) => Some(entry.raw@),
            None => None,
        }
    }

    /// An empty mapping.
    pub fn new() -> (content: PreservedContent)
        ensures
            content.entries().len() == 0,
            content.keys_distinct(),
    {
        PreservedContent { entries: Vec::new() }
    }

    /// The number of keys.
    pub fn len(&self) -> (count: usize)
        ensures
            count == self.entries().len(),
    {
        self.entries.len()
    }

    /// Whether there is no key.
    pub fn is_empty(&self) -> (answer: bool)
        ensures
            answer == (self.entries().len() == 0),
    {
        self.entries.len() == 0
    }

    /// Whether `key` is present.
    pub fn contains_key(&self, key: &String) -> (answer: bool)
        ensures
            answer == contains_id(self.entries(), key@),
    {
        proof {
            lemma_position(self.entries@, key@);
        }
        find(&self.entries, key).is_some()
    }

    /// The raw text stored under `key`.
    pub fn get(&self, key: &String) -> (raw: Option<&String>)
        ensures
            match raw {
                Some(text) => self.text(key@) == Some(text@),
                None => self.text(key@) is None,
            },
    {
        match find(&self.entries, key) {
            Some(i) => Some(&self.entries[i].raw),
            None => None,
        }
    }

    /// The entry at `index`, counted in the order in which the keys first came.
    pub fn entry(&self, index: usize) -> (entry: Option<&PreservedEntry>)
        ensures
            match entry {
                Some(e) => index < self.entries().len() && *e == self.entries()[index as int],
                None => index >= self.entries().len(),
            },
    {
        if index < self.entries.len() {
            Some(&self.entries[index])
        } else {
            None
        }
    }

    /// Stores `raw` under `key`. A key that is already present keeps its place
    /// and gets the new text; a new key goes to the end. Returns whether the
    /// key was already present.
    pub fn insert(&mut self, key: String, raw: String) -> (replaced: bool)
        ensures
            replaced == contains_id(old(self).entries(), key@),
            final(self).text(key@) == Some(raw@),
            old(self).keys_distinct() ==> final(self).keys_distinct(),
            match position(old(self).entries(), key@) {
                Some(i) => final(self).entries() == old(self).entries().update(
                    i,
                    PreservedEntry { key, raw },
                ),
                None => final(self).entries() == old(self).entries().push(
                    PreservedEntry { key, raw },
                ),
            },
    {
        proof {
            lemma_position(self.entries@, key@);
        }
        let ghost before = self.entries@;
        let ghost fresh = PreservedEntry { key, raw };
        match find(&self.entries, &key) {
            Some(i) => {
                self.entries.set(i, PreservedEntry { key, raw });
                proof {
                    let after = self.entries@;
                    assert(after == before.update(i as int, fresh));
                    if distinct_ids(before) {
                        assert forall|a: int, b: int| 0 <= a < b < after.len() implies
                            #[trigger] after[a].id() != #[trigger] after[b].id() by {
                            assert(after[a].id() == before[a].id());
                            assert(after[b].id() == before[b].id());
                        }
                    }
                    assert forall|j: int| 0 <= j < i implies #[trigger] after[j].id() != key@ by {
                        assert(after[j].id() == before[j].id());
                    }
                    lemma_position_is(after, key@, i as int);
                }
                true
            },
            None => {
                self.entries.push(PreservedEntry { key, raw });
                proof {
                    if distinct_ids(before) {
                        lemma_distinct_push(before, fresh);
                    }
                    lemma_position_push(before, fresh, key@);
                }
                false
            },
        }
    }
}

} // verus!
