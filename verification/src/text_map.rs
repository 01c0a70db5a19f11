//! A map from text to text, for the few entries of a configuration.
use crate::scan::{first_index, lemma_first_index, lemma_first_index_is, lemma_first_index_none};
use crate::text::same_text;
use vstd::prelude::*;

verus! {

/// One key with its value.
struct Entry {
    key: String,
    value: String,
}

/// A map from text to text. No key occurs twice.
pub struct TextMap {
    entries: Vec<Entry>,
}

/// Whether the entry at a position has the key `key`.
spec fn has_key(entries: Seq<Entry>, key: Seq<char>) -> spec_fn(int) -> bool {
    |i: int| entries[i].key@ == key
}

/// The position of the first of `entries` with the key `key`.
spec fn position(entries: Seq<Entry>, key: Seq<char>) -> Option<int> {
    first_index(entries.len() as int, has_key(entries, key))
}

/// The map that `entries` stand for: each key with the value of its first entry.
spec fn as_map(entries: Seq<Entry>) -> Map<Seq<char>, Seq<char>> {
    Map::new(
        |key: Seq<char>| position(entries, key) is Some,
        |key: Seq<char>| entries[position(entries, key).unwrap()].value@,
    )
}

/// Whether no two of `entries` have the same key.
spec fn distinct_keys(entries: Seq<Entry>) -> bool {
    forall|i: int, j: int|
        0 <= i < j < entries.len() ==> (#[trigger] entries[i]).key@ != (#[trigger] entries[j]).key@
}

impl View for TextMap {
    type V = Map<Seq<char>, Seq<char>>;

    closed spec fn view(&self) -> Map<Seq<char>, Seq<char>> {
        as_map(self.entries@)
    }
}

/// The position of the entry with the key `key`, if there is one.
fn find(entries: &Vec<Entry>, key: &str) -> (found: Option<usize>)
    ensures
        match found {
            Some(i) => i < entries.len() && position(entries@, key@) == Some(i as int)
                && entries[i as int].key@ == key@,
            None => position(entries@, key@) is None && forall|j: int|
                0 <= j < entries.len() ==> (#[trigger] entries[j]).key@ != key@,
        },
{
    let ghost is_key = has_key(entries@, key@);
    let mut i: usize = 0;
    while i < entries.len()
        invariant
            i <= entries.len(),
            is_key == has_key(entries@, key@),
            forall|j: int| 0 <= j < i ==> !#[trigger] is_key(j),
        decreases entries.len() - i,
    {
        if same_text(&entries[i].key, key) {
            proof {
                assert(is_key(i as int));
                lemma_first_index_is(entries.len() as int, is_key, i as int);
            }
            return Some(i);
        }
        i = i + 1;
    }
    proof {
        lemma_first_index_none(entries.len() as int, is_key);
        assert forall|j: int| 0 <= j < entries.len() implies (#[trigger] entries[j]).key@ != key@ by {
            assert(!is_key(j));
        }
    }
    None
}

/// With distinct keys, an entry is the first of its key.
proof fn lemma_position_of(entries: Seq<Entry>, i: int)
    requires
        distinct_keys(entries),
        0 <= i < entries.len(),
    ensures
        position(entries, entries[i].key@) == Some(i),
{
    let is_key = has_key(entries, entries[i].key@);
    assert(is_key(i));
    assert forall|j: int| 0 <= j < i implies !#[trigger] is_key(j) by {
        assert(entries[j].key@ != entries[i].key@);
    }
    lemma_first_index_is(entries.len() as int, is_key, i);
}

/// A position is that of an entry with the key.
proof fn lemma_position(entries: Seq<Entry>, key: Seq<char>)
    ensures
        position(entries, key) matches Some(i) ==> 0 <= i < entries.len() && entries[i].key@ == key,
        position(entries, key) is None ==> forall|j: int|
            0 <= j < entries.len() ==> (#[trigger] entries[j]).key@ != key,
{
    let is_key = has_key(entries, key);
    lemma_first_index(entries.len() as int, is_key);
    if position(entries, key) is None {
        assert forall|j: int| 0 <= j < entries.len() implies (#[trigger] entries[j]).key@ != key by {
            assert(!is_key(j));
        }
    }
}

impl TextMap {
    #[verifier::type_invariant]
    spec fn well_formed(self) -> bool {
        distinct_keys(self.entries@)
    }

    /// The map without any key.
    pub fn new() -> (map: TextMap)
        ensures
            map@ == Map::<Seq<char>, Seq<char>>::empty(),
    {
        let map = TextMap { entries: Vec::new() };
        proof {
            assert forall|key: Seq<char>| !map@.contains_key(key) by {
                lemma_position(map.entries@, key);
            }
            assert(map@ =~= Map::<Seq<char>, Seq<char>>::empty());
        }
        map
    }

    /// The number of keys.
    pub fn len(&self) -> (n: usize)
        ensures
            n == self@.len(),
            self@.dom().finite(),
    {
        proof {
            use_type_invariant(self);
            Self::lemma_len(self.entries@);
        }
        self.entries.len()
    }

    /// With distinct keys, the map has as many keys as there are entries.
    proof fn lemma_len(entries: Seq<Entry>)
        requires
            distinct_keys(entries),
        ensures
            as_map(entries).dom().finite(),
            as_map(entries).len() == entries.len(),
        decreases entries.len(),
    {
        if entries.len() == 0 {
            assert forall|key: Seq<char>| !as_map(entries).contains_key(key) by {
                lemma_position(entries, key);
            }
            assert(as_map(entries).dom() =~= Set::<Seq<char>>::empty());
        } else {
            let front = entries.drop_last();
            let last = entries.last();
            Self::lemma_len(front);
            assert forall|key: Seq<char>|
                as_map(entries).dom().contains(key) <==> as_map(front).dom().insert(
                    last.key@,
                ).contains(key) by {
                lemma_position(entries, key);
                lemma_position(front, key);
                if as_map(entries).contains_key(key) && key != last.key@ {
                    let i = position(entries, key).unwrap();
                    assert(front[i].key@ == key);
                }
                if as_map(front).contains_key(key) {
                    let i = position(front, key).unwrap();
                    assert(entries[i].key@ == key);
                }
                if key == last.key@ {
                    assert(entries[entries.len() - 1].key@ == key);
                }
            }
            assert(as_map(entries).dom() =~= as_map(front).dom().insert(last.key@));
            assert(!as_map(front).dom().contains(last.key@)) by {
                lemma_position(front, last.key@);
                if position(front, last.key@) is Some {
                    let i = position(front, last.key@).unwrap();
                    assert(entries[i].key@ == front[i].key@);
                    assert(entries[entries.len() - 1].key@ == last.key@);
                }
            }
        }
    }

    /// The value of `key`, if the map holds the key.
    pub fn get(&self, key: &str) -> (value: Option<&String>)
        ensures
            match value {
                Some(text) => self@.contains_key(key@) && text@ == self@[key@],
                None => !self@.contains_key(key@),
            },
    {
        match find(&self.entries, key) {
            Some(i) => Some(&self.entries[i].value),
            None => None,
        }
    }

    /// Gives `key` the value `value`, and returns the value that it had.
    pub fn insert(&mut self, key: String, value: String) -> (previous: Option<String>)
        ensures
            final(self)@ == old(self)@.insert(key@, value@),
            match previous {
                Some(text) => old(self)@.contains_key(key@) && text@ == old(self)@[key@],
                None => !old(self)@.contains_key(key@),
            },
    {
        proof {
            use_type_invariant(&*self);
        }
        let ghost before = self.entries@;
        let ghost new_key = key@;
        let ghost new_value = value@;
        let found = find(&self.entries, key.as_str());
        let mut entries: Vec<Entry> = Vec::new();
        let mut j: usize = 0;
        while j < self.entries.len()
            invariant
                j <= self.entries.len(),
                entries.len() == j,
                forall|t: int| 0 <= t < j ==> #[trigger] entries[t] == self.entries[t],
            decreases self.entries.len() - j,
        {
            let entry = Entry { key: self.entries[j].key.clone(), value: self.entries[j].value.clone() };
            entries.push(entry);
            j = j + 1;
        }
        assert(entries@ == before);
        let previous = match found {
            Some(i) => {
                let previous = entries[i].value.clone();
                entries.set(i, Entry { key, value });
                Some(previous)
            },
            None => {
                entries.push(Entry { key, value });
                None
            },
        };
        proof {
            assert forall|a: int, b: int| 0 <= a < b < entries.len() implies (#[trigger] entries[a]).key@
                != (#[trigger] entries[b]).key@ by {
                if a < before.len() && b < before.len() {
                    assert(before[a].key@ != before[b].key@);
                }
            }
        }
        self.entries = entries;
        proof {
            let after = self.entries@;
            assert(distinct_keys(after));
            assert forall|k: Seq<char>|
                as_map(after).contains_key(k) <==> as_map(before).insert(
                    new_key,
                    new_value,
                ).contains_key(k) by {
                lemma_position(after, k);
                lemma_position(before, k);
                if as_map(after).contains_key(k) && k != new_key {
                    let i = position(after, k).unwrap();
                    assert(before[i].key@ == k);
                }
                if as_map(before).contains_key(k) {
                    let i = position(before, k).unwrap();
                    assert(after[i].key@ == k);
                }
                if k == new_key {
                    match found {
                        Some(i) => {
                            assert(after[i as int].key@ == k);
                        },
                        None => {
                            assert(after[after.len() - 1].key@ == k);
                        },
                    }
                }
            }
            assert forall|k: Seq<char>| as_map(after).contains_key(k) implies as_map(after)[k]
                == as_map(before).insert(new_key, new_value)[k] by {
                lemma_position(after, k);
                let i = position(after, k).unwrap();
                lemma_position_of(after, i);
                if k != new_key {
                    assert(before[i].key@ == k);
                    lemma_position_of(before, i);
                } else {
                    match found {
                        Some(at) => {
                            lemma_position_of(after, at as int);
                        },
                        None => {
                            lemma_position_of(after, after.len() - 1);
                        },
                    }
                }
            }
            assert(as_map(after) =~= as_map(before).insert(new_key, new_value));
        }
        previous
    }

    /// The keys, each once.
    pub fn keys(&self) -> (keys: Vec<String>)
        ensures
            keys.deep_view().no_duplicates(),
            forall|key: Seq<char>| keys.deep_view().contains(key) <==> self@.contains_key(key),
    {
        proof {
            use_type_invariant(self);
        }
        let mut keys: Vec<String> = Vec::new();
        let mut i: usize = 0;
        while i < self.entries.len()
            invariant
                i <= self.entries.len(),
                keys.len() == i,
                forall|j: int| 0 <= j < i ==> (#[trigger] keys[j])@ == self.entries[j].key@,
            decreases self.entries.len() - i,
        {
            keys.push(self.entries[i].key.clone());
            i = i + 1;
        }
        proof {
            let texts = keys.deep_view();
            assert forall|a: int, b: int| 0 <= a < texts.len() && 0 <= b < texts.len() && a != b implies texts[a]
                != texts[b] by {
                assert(keys[a]@ == self.entries[a].key@);
                assert(keys[b]@ == self.entries[b].key@);
                if a < b {
                    assert(self.entries[a].key@ != self.entries[b].key@);
                } else {
                    assert(self.entries[b].key@ != self.entries[a].key@);
                }
            }
            assert forall|key: Seq<char>| texts.contains(key) <==> self@.contains_key(key) by {
                lemma_position(self.entries@, key);
                if texts.contains(key) {
                    let j = choose|j: int| 0 <= j < texts.len() && texts[j] == key;
                    assert(keys[j]@ == self.entries[j].key@);
                    assert(self.entries[j].key@ == key);
                }
                if self@.contains_key(key) {
                    let j = position(self.entries@, key).unwrap();
                    assert(keys[j]@ == self.entries[j].key@);
                    assert(texts[j] == key);
                }
            }
        }
        keys
    }
}

} // verus!
