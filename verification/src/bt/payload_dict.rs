//! The fields of a query or a response.

use crate::assoc::distinct_keys;
use crate::assoc::entries_map;
use crate::assoc::has_key;
use crate::assoc::lemma_empty_entries;
use crate::assoc::lemma_entries_count;
use crate::assoc::lemma_entry_in_map;
use crate::assoc::lemma_push_entry;
use crate::assoc::lemma_remove_entry;
use crate::assoc::lemma_update_entry;
use crate::text::same_bytes;
use crate::text::same_text;
use vstd::prelude::*;
use vstd::std_specs::cmp::PartialEqSpecImpl;

verus! {

/// Keys and values of stored fields as contracts see them.
pub open spec fn field_pairs(entries: Seq<(String, Vec<u8>)>) -> Seq<(Seq<char>, Seq<u8>)> {
    Seq::new(entries.len(), |i: int| (entries[i].0@, entries[i].1@))
}

/// Mapping String -> Bytes used in payload.
///
/// Every key occurs once.  Contracts see the mapping as a `Map` from the
/// characters of a key to the bytes stored under it.
#[derive(Debug)]
pub struct PayloadDict {
    entries: Vec<(String, Vec<u8>)>,
}

impl View for PayloadDict {
    type V = Map<Seq<char>, Seq<u8>>;

    open spec fn view(&self) -> Map<Seq<char>, Seq<u8>> {
        entries_map(self.pairs())
    }
}

impl Clone for PayloadDict {
    /// A copy with the same fields in the same order.
    fn clone(&self) -> (copy: PayloadDict)
        ensures
            copy@ == self@,
            copy.pairs() == self.pairs(),
    {
        proof {
            use_type_invariant(self);
        }
        let mut entries: Vec<(String, Vec<u8>)> = Vec::new();
        let mut i: usize = 0;
        while i < self.entries.len()
            invariant
                i <= self.entries@.len(),
                entries@.len() == i,
                field_pairs(entries@) == field_pairs(self.entries@).take(i as int),
            decreases self.entries@.len() - i,
        {
            let key = self.entries[i].0.clone();
            let value = self.entries[i].1.clone();
            proof {
                assert(value@ =~= self.entries@[i as int].1@);
                let next = field_pairs(entries@.push((key, value)));
                let goal = field_pairs(self.entries@).take(i + 1);
                assert forall|j: int| 0 <= j < next.len() implies next[j] == goal[j] by {
                    if j < i {
                        assert(field_pairs(entries@)[j] == field_pairs(self.entries@).take(
                            i as int,
                        )[j]);
                    }
                }
                assert(next =~= goal);
            }
            entries.push((key, value));
            i += 1;
        }
        proof {
            assert(field_pairs(self.entries@).take(i as int) =~= field_pairs(self.entries@));
        }
        PayloadDict { entries }
    }
}

impl PartialEq for PayloadDict {
    /// Two mappings are equal when they hold the same fields, in whatever
    /// order.
    fn eq(&self, other: &PayloadDict) -> (same: bool) {
        let same = self.is_part_of(other) && other.is_part_of(self);
        proof {
            if same {
                assert(self@ =~= other@);
            }
        }
        same
    }
}

impl PartialEqSpecImpl for PayloadDict {
    open spec fn obeys_eq_spec() -> bool {
        true
    }

    open spec fn eq_spec(&self, other: &PayloadDict) -> bool {
        self@ == other@
    }
}

impl PayloadDict {
    #[verifier::type_invariant]
    spec fn keys_differ(self) -> bool {
        distinct_keys(field_pairs(self.entries@))
    }

    /// The stored fields in the order in which `entries` hands them out.
    pub closed spec fn pairs(&self) -> Seq<(Seq<char>, Seq<u8>)> {
        field_pairs(self.entries@)
    }

    /// A mapping without fields.
    pub fn new() -> (dict: PayloadDict)
        ensures
            dict@ == Map::<Seq<char>, Seq<u8>>::empty(),
            dict.pairs().len() == 0,
    {
        let entries: Vec<(String, Vec<u8>)> = Vec::new();
        proof {
            lemma_empty_entries::<Seq<char>, Seq<u8>>();
            assert(field_pairs(entries@) =~= Seq::empty());
        }
        PayloadDict { entries }
    }

    /// Number of fields.
    pub fn len(&self) -> (n: usize)
        ensures
            n == self@.len(),
            n == self.pairs().len(),
            self@.dom().finite(),
    {
        proof {
            use_type_invariant(self);
            lemma_entries_count(self.pairs());
        }
        self.entries.len()
    }

    /// Whether there is no field.
    pub fn is_empty(&self) -> (empty: bool)
        ensures
            empty == (self@.len() == 0),
            empty == (self.pairs().len() == 0),
    {
        proof {
            use_type_invariant(self);
            lemma_entries_count(self.pairs());
        }
        self.entries.len() == 0
    }

    /// Whether every field of `self` is a field of `other` with the same
    /// bytes.
    pub fn is_part_of(&self, other: &PayloadDict) -> (part: bool)
        ensures
            part == self@.submap_of(other@),
    {
        proof {
            use_type_invariant(self);
        }
        let ghost pairs = self.pairs();
        let mut i: usize = 0;
        while i < self.entries.len()
            invariant
                i <= self.entries@.len(),
                pairs == field_pairs(self.entries@),
                distinct_keys(pairs),
                forall|j: int|
                    0 <= j < i ==> other@.contains_key((#[trigger] pairs[j]).0) && other@[pairs[j].0]
                        == pairs[j].1,
            decreases self.entries@.len() - i,
        {
            proof {
                lemma_entry_in_map(pairs, i as int);
            }
            let same = match other.get(self.entries[i].0.as_str()) {
                Some(bytes) => same_bytes(bytes.as_slice(), self.entries[i].1.as_slice()),
                None => false,
            };
            if !same {
                return false;
            }
            i += 1;
        }
        proof {
            assert forall|key: Seq<char>| #[trigger]
                self@.dom().contains(key) implies other@.dom().contains(key) && self@[key]
                == other@[key] by {
                let j = crate::assoc::key_index(pairs, key);
                lemma_entry_in_map(pairs, j);
            }
        }
        true
    }

    /// The fields, each key once.
    pub fn entries(&self) -> (entries: &Vec<(String, Vec<u8>)>)
        ensures
            field_pairs(entries@) == self.pairs(),
            distinct_keys(self.pairs()),
    {
        proof {
            use_type_invariant(self);
        }
        &self.entries
    }

    /// Where the field `key` is stored.
    fn position(&self, key: &str) -> (found: Option<usize>)
        ensures
            match found {
                Some(i) => i < self.entries@.len() && self.entries@[i as int].0@ == key@,
                None => !has_key(self.pairs(), key@),
            },
    {
        let mut i: usize = 0;
        while i < self.entries.len()
            invariant
                i <= self.entries@.len(),
                forall|j: int| 0 <= j < i ==> self.entries@[j].0@ != key@,
            decreases self.entries@.len() - i,
        {
            if same_text(self.entries[i].0.as_str(), key) {
                return Some(i);
            }
            i += 1;
        }
        proof {
            let pairs = self.pairs();
            assert forall|j: int| 0 <= j < pairs.len() implies (#[trigger] pairs[j]).0 != key@ by {
                assert(self.entries@[j].0@ != key@);
            }
        }
        None
    }

    /// Whether there is a field `key`.
    pub fn contains_key(&self, key: &str) -> (found: bool)
        ensures
            found == self@.contains_key(key@),
    {
        match self.position(key) {
            Some(i) => {
                proof {
                    assert(self.pairs()[i as int].0 == key@);
                }
                true
            },
            None => false,
        }
    }

    /// The bytes stored under `key`, if there is such a field.
    pub fn get(&self, key: &str) -> (value: Option<&Vec<u8>>)
        ensures
            match value {
                Some(bytes) => self@.contains_key(key@) && bytes@ == self@[key@],
                None => !self@.contains_key(key@),
            },
    {
        proof {
            use_type_invariant(self);
        }
        match self.position(key) {
            Some(i) => {
                proof {
                    lemma_entry_in_map(self.pairs(), i as int);
                }
                Some(&self.entries[i].1)
            },
            None => None,
        }
    }

    /// Stores `value` under `key` and hands back what was stored there before.
    pub fn insert(&mut self, key: String, value: Vec<u8>) -> (previous: Option<Vec<u8>>)
        ensures
            final(self)@ == old(self)@.insert(key@, value@),
            match previous {
                Some(bytes) => old(self)@.contains_key(key@) && bytes@ == old(self)@[key@],
                None => !old(self)@.contains_key(key@),
            },
    {
        proof {
            use_type_invariant(&*self);
        }
        let ghost before = self.pairs();
        let found = self.position(key.as_str());
        let mut entries: Vec<(String, Vec<u8>)> = Vec::new();
        proof {
            lemma_empty_entries::<Seq<char>, Seq<u8>>();
            assert(field_pairs(entries@) =~= Seq::empty());
        }
        core::mem::swap(&mut self.entries, &mut entries);
        match found {
            Some(i) => {
                proof {
                    lemma_entry_in_map(before, i as int);
                    lemma_update_entry(before, i as int, value@);
                    assert(field_pairs(
                        entries@.remove(i as int).insert(i as int, (key, value)),
                    ) =~= before.update(i as int, (key@, value@)));
                }
                let entry = entries.remove(i);
                entries.insert(i, (key, value));
                self.entries = entries;
                Some(entry.1)
            },
            None => {
                proof {
                    lemma_push_entry(before, key@, value@);
                    assert(field_pairs(entries@.push((key, value))) =~= before.push(
                        (key@, value@),
                    ));
                }
                entries.push((key, value));
                self.entries = entries;
                None
            },
        }
    }

    /// Drops the field `key` and hands back what was stored there.
    pub fn remove(&mut self, key: &str) -> (previous: Option<Vec<u8>>)
        ensures
            final(self)@ == old(self)@.remove(key@),
            match previous {
                Some(bytes) => old(self)@.contains_key(key@) && bytes@ == old(self)@[key@],
                None => !old(self)@.contains_key(key@),
            },
    {
        proof {
            use_type_invariant(&*self);
        }
        let ghost before = self.pairs();
        let found = self.position(key);
        match found {
            Some(i) => {
                let mut entries: Vec<(String, Vec<u8>)> = Vec::new();
                proof {
                    lemma_empty_entries::<Seq<char>, Seq<u8>>();
                    assert(field_pairs(entries@) =~= Seq::empty());
                }
                core::mem::swap(&mut self.entries, &mut entries);
                proof {
                    lemma_entry_in_map(before, i as int);
                    lemma_remove_entry(before, i as int);
                    assert(field_pairs(entries@.remove(i as int)) =~= before.remove(i as int));
                }
                let entry = entries.remove(i);
                self.entries = entries;
                Some(entry.1)
            },
            None => {
                proof {
                    assert(self@.remove(key@) =~= self@);
                }
                None
            },
        }
    }
}

} // verus!
