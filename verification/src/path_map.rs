//! A value per path, with the path compared character by character.

use vstd::prelude::*;
use crate::lookup::{first_index, is_first, lemma_first_index_found, lemma_first_index_none, lemma_first_is_first, lemma_first_none_means_none};
use crate::text::str_eq;

verus! {

/// Matches the entry for the path `key`.
pub open spec fn entry_for<V>(key: Seq<char>) -> spec_fn((Seq<char>, V)) -> bool {
    |e: (Seq<char>, V)| e.0 == key
}

/// What the entries hold for the path `key`: the value of its first entry.
pub open spec fn lookup_entry<V>(entries: Seq<(Seq<char>, V)>, key: Seq<char>) -> Option<V> {
    match first_index(entries, entry_for::<V>(key)) {
        Some(i) => Some(entries[i].1),
        None => None,
    }
}

/// No path occurs in two entries.
pub open spec fn each_path_once<V>(entries: Seq<(Seq<char>, V)>) -> bool {
    forall|i: int, j: int| 0 <= i < j < entries.len() ==> (#[trigger] entries[i]).0 != (#[trigger] entries[j]).0
}

/// A value kept per path: used for the file mapping of each font file (so
/// that one file is mapped once however often it is loaded) and for the id
/// of each embedded resource.
pub struct PathMap<V> {
    entries: Vec<(String, V)>,
}

impl<V> View for PathMap<V> {
    type V = Seq<(Seq<char>, V)>;

    closed spec fn view(&self) -> Seq<(Seq<char>, V)> {
        self.entries@.map_values(|e: (String, V)| (e.0@, e.1))
    }
}

impl<V> PathMap<V> {
    /// Each path has one entry.
    #[verifier::type_invariant]
    spec fn paths_once(self) -> bool {
        each_path_once(self@)
    }

    /// No path mapped.
    pub fn new() -> (r: Self)
        ensures
            forall|k: Seq<char>| lookup_entry(r@, k) is None,
            r@.len() == 0,
    {
        let r = PathMap { entries: Vec::new() };
        assert forall|k: Seq<char>| lookup_entry(r@, k) is None by {
            lemma_first_index_none(r@, entry_for::<V>(k));
        }
        r
    }

    /// The position of the entry for `key`.
    fn position(&self, key: &str) -> (r: Option<usize>)
        ensures
            match r {
                Some(i) => first_index(self@, entry_for::<V>(key@)) == Some(i as int) && i < self@.len(),
                None => first_index(self@, entry_for::<V>(key@)) is None,
            },
    {
        let ghost view = self@;
        let mut i: usize = 0;
        while i < self.entries.len()
            invariant
                i <= self.entries@.len(),
                view == self@,
                view.len() == self.entries@.len(),
                forall|j: int| 0 <= j < i ==> !(#[trigger] entry_for::<V>(key@)(view[j])),
            decreases self.entries@.len() - i,
        {
            if str_eq(self.entries[i].0.as_str(), key) {
                proof {
                    assert(view[i as int].0 == key@);
                    assert(is_first(view, entry_for::<V>(key@), i as int));
                    lemma_first_index_found(view, entry_for::<V>(key@), i as int);
                }
                return Some(i);
            }
            i = i + 1;
        }
        proof {
            lemma_first_index_none(view, entry_for::<V>(key@));
        }
        None
    }

    /// The number of paths with a value: each path has one entry.
    pub fn len(&self) -> (r: usize)
        ensures
            r == self@.len(),
            each_path_once(self@),
    {
        proof {
            use_type_invariant(self);
        }
        self.entries.len()
    }

    /// The value kept for `key`, if any.
    pub fn get(&self, key: &str) -> (r: Option<&V>)
        ensures
            match lookup_entry(self@, key@) {
                Some(v) => r matches Some(x) && *x == v,
                None => r is None,
            },
    {
        match self.position(key) {
            Some(i) => Some(&self.entries[i].1),
            None => None,
        }
    }

    /// Keeps `value` for `key`, in place of any value kept for it before.
    pub fn insert(&mut self, key: String, value: V)
        ensures
            lookup_entry(final(self)@, key@) == Some(value),
            match first_index(old(self)@, entry_for::<V>(key@)) {
                Some(i) => final(self)@ == old(self)@.update(i, (key@, value)),
                None => final(self)@ == old(self)@.push((key@, value)),
            },
            forall|k: Seq<char>| k != key@ ==> lookup_entry(final(self)@, k) == lookup_entry(old(self)@, k),
            each_path_once(final(self)@),
    {
        proof {
            use_type_invariant(&*self);
        }
        let ghost kv = key@;
        let ghost before = self@;
        let pos = self.position(key.as_str());
        let mut entries: Vec<(String, V)> = Vec::new();
        std::mem::swap(&mut entries, &mut self.entries);
        assert(entries@.map_values(|e: (String, V)| (e.0@, e.1)) == before);
        match pos {
            Some(i) => {
                entries.set(i, (key, value));
                let ghost after = entries@.map_values(|e: (String, V)| (e.0@, e.1));
                assert(after =~= before.update(i as int, (kv, value)));
                proof {
                    assert(before[i as int].0 == kv) by {
                        lemma_first_is_first(before, entry_for::<V>(kv));
                    }
                    assert forall|a: int, b: int| 0 <= a < b < after.len() implies (#[trigger] after[a]).0 != (#[trigger] after[b]).0 by {
                        assert(before[a].0 != before[b].0);
                    }
                    assert(is_first(after, entry_for::<V>(kv), i as int));
                    lemma_first_index_found(after, entry_for::<V>(kv), i as int);
                    assert forall|k: Seq<char>| k != kv implies lookup_entry(after, k) == lookup_entry(before, k) by {
                        match first_index(before, entry_for::<V>(k)) {
                            Some(j) => {
                                assert(is_first(before, entry_for::<V>(k), j)) by {
                                    lemma_first_is_first(before, entry_for::<V>(k));
                                }
                                assert(j != i);
                                assert(is_first(after, entry_for::<V>(k), j));
                                lemma_first_index_found(after, entry_for::<V>(k), j);
                            },
                            None => {
                                lemma_first_none_means_none(before, entry_for::<V>(k));
                                lemma_first_index_none(after, entry_for::<V>(k));
                            },
                        }
                    }
                }
            },
            None => {
                entries.push((key, value));
                let ghost after = entries@.map_values(|e: (String, V)| (e.0@, e.1));
                assert(after =~= before.push((kv, value)));
                proof {
                    lemma_first_none_means_none(before, entry_for::<V>(kv));
                    assert forall|a: int, b: int| 0 <= a < b < after.len() implies (#[trigger] after[a]).0 != (#[trigger] after[b]).0 by {
                        if b == before.len() {
                            assert(!entry_for::<V>(kv)(before[a]));
                        } else {
                            assert(before[a].0 != before[b].0);
                        }
                    }
                    assert(is_first(after, entry_for::<V>(kv), before.len() as int));
                    lemma_first_index_found(after, entry_for::<V>(kv), before.len() as int);
                    assert forall|k: Seq<char>| k != kv implies lookup_entry(after, k) == lookup_entry(before, k) by {
                        match first_index(before, entry_for::<V>(k)) {
                            Some(j) => {
                                assert(is_first(before, entry_for::<V>(k), j)) by {
                                    lemma_first_is_first(before, entry_for::<V>(k));
                                }
                                assert(is_first(after, entry_for::<V>(k), j));
                                lemma_first_index_found(after, entry_for::<V>(k), j);
                            },
                            None => {
                                lemma_first_none_means_none(before, entry_for::<V>(k));
                                lemma_first_index_none(after, entry_for::<V>(k));
                            },
                        }
                    }
                }
            },
        }
        self.entries = entries;
    }
}

} // verus!
