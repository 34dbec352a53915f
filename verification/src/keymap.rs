//! Maps and sets that are keyed by text.

use crate::strings::same_text;
use vstd::prelude::*;

verus! {

/// One key with its value.
pub struct KeyEntry<V> {
    pub key: String,
    pub value: V,
}

/// A map from text to values.
pub struct KeyMap<V> {
    entries: Vec<KeyEntry<V>>,
}

/// The entry at `i` has the key.
pub open spec fn entry_has_key<V>(entries: Seq<KeyEntry<V>>, i: int, key: Seq<char>) -> bool {
    0 <= i < entries.len() && entries[i].key@ == key
}

/// Some entry has the key.
pub open spec fn has_key<V>(entries: Seq<KeyEntry<V>>, key: Seq<char>) -> bool {
    exists|i: int| entry_has_key(entries, i, key)
}

/// The map that a list of entries stands for.
pub open spec fn entry_map<V>(entries: Seq<KeyEntry<V>>) -> Map<Seq<char>, V> {
    Map::new(
        |key: Seq<char>| has_key(entries, key),
        |key: Seq<char>| entries[choose|i: int| entry_has_key(entries, i, key)].value,
    )
}

/// No two entries have the same key.
pub open spec fn keys_distinct<V>(entries: Seq<KeyEntry<V>>) -> bool {
    forall|i: int, j: int|
        0 <= i < j < entries.len() ==> (#[trigger] entries[i]).key@ != (#[trigger] entries[j]).key@
}

proof fn lemma_value_at<V>(entries: Seq<KeyEntry<V>>, i: int)
    requires
        keys_distinct(entries),
        0 <= i < entries.len(),
    ensures
        entry_map(entries).dom().contains(entries[i].key@),
        entry_map(entries)[entries[i].key@] == entries[i].value,
{
    let key = entries[i].key@;
    assert(entry_has_key(entries, i, key));
    let j = choose|j: int| entry_has_key(entries, j, key);
    assert(entry_has_key(entries, j, key));
    assert(i == j);
}

proof fn lemma_remove<V>(entries: Seq<KeyEntry<V>>, at: int)
    requires
        keys_distinct(entries),
        0 <= at < entries.len(),
    ensures
        keys_distinct(entries.remove(at)),
        entry_map(entries.remove(at)) == entry_map(entries).remove(entries[at].key@),
{
    let rest = entries.remove(at);
    let key = entries[at].key@;
    assert forall|i: int, j: int| 0 <= i < j < rest.len() implies (#[trigger] rest[i]).key@ != (
    #[trigger] rest[j]).key@ by {
        let a = if i < at {
            i
        } else {
            i + 1
        };
        let b = if j < at {
            j
        } else {
            j + 1
        };
        assert(rest[i] == entries[a] && rest[j] == entries[b]);
    }
    assert forall|k: Seq<char>| has_key(rest, k) <==> has_key(entries, k) && k != key by {
        if has_key(rest, k) {
            let i = choose|i: int| entry_has_key(rest, i, k);
            let a = if i < at {
                i
            } else {
                i + 1
            };
            assert(rest[i] == entries[a]);
            assert(entry_has_key(entries, a, k));
            assert(entries[a].key@ != entries[at].key@);
        }
        if has_key(entries, k) && k != key {
            let a = choose|i: int| entry_has_key(entries, i, k);
            let i = if a < at {
                a
            } else {
                a - 1
            };
            assert(rest[i] == entries[a]);
            assert(entry_has_key(rest, i, k));
        }
    }
    assert forall|k: Seq<char>| has_key(rest, k) implies entry_map(rest)[k] == entry_map(
        entries,
    )[k] by {
        let i = choose|i: int| entry_has_key(rest, i, k);
        let a = if i < at {
            i
        } else {
            i + 1
        };
        assert(rest[i] == entries[a]);
        lemma_value_at(rest, i);
        lemma_value_at(entries, a);
    }
    assert(entry_map(rest) =~= entry_map(entries).remove(key));
}

proof fn lemma_push<V>(entries: Seq<KeyEntry<V>>, entry: KeyEntry<V>)
    requires
        keys_distinct(entries),
        !has_key(entries, entry.key@),
    ensures
        keys_distinct(entries.push(entry)),
        entry_map(entries.push(entry)) == entry_map(entries).insert(entry.key@, entry.value),
{
    let more = entries.push(entry);
    assert forall|i: int, j: int| 0 <= i < j < more.len() implies (#[trigger] more[i]).key@ != (
    #[trigger] more[j]).key@ by {
        if j == entries.len() {
            if entries[i].key@ == entry.key@ {
                assert(entry_has_key(entries, i, entry.key@));
            }
        } else {
            assert(entries[i].key@ != entries[j].key@);
        }
    }
    assert forall|k: Seq<char>| has_key(more, k) <==> has_key(entries, k) || k == entry.key@ by {
        if has_key(entries, k) {
            let i = choose|i: int| entry_has_key(entries, i, k);
            assert(entry_has_key(more, i, k));
        }
        if k == entry.key@ {
            assert(entry_has_key(more, entries.len() as int, k));
        }
        if has_key(more, k) && k != entry.key@ {
            let i = choose|i: int| entry_has_key(more, i, k);
            assert(entry_has_key(entries, i, k));
        }
    }
    assert forall|k: Seq<char>| has_key(more, k) implies entry_map(more)[k] == entry_map(
        entries,
    ).insert(entry.key@, entry.value)[k] by {
        let i = choose|i: int| entry_has_key(more, i, k);
        lemma_value_at(more, i);
        if i < entries.len() {
            lemma_value_at(entries, i);
        }
    }
    assert(entry_map(more) =~= entry_map(entries).insert(entry.key@, entry.value));
}

impl<V> View for KeyMap<V> {
    type V = Map<Seq<char>, V>;

    closed spec fn view(&self) -> Map<Seq<char>, V> {
        entry_map(self.entries@)
    }
}

impl<V> KeyMap<V> {
    /// Every key occurs once.
    pub closed spec fn wf(&self) -> bool {
        keys_distinct(self.entries@)
    }

    /// A map without entries.
    pub fn new() -> (map: KeyMap<V>)
        ensures
            map.wf(),
            map@ == Map::<Seq<char>, V>::empty(),
    {
        let map = KeyMap { entries: Vec::new() };
        assert(map@ =~= Map::<Seq<char>, V>::empty());
        map
    }

    fn find(&self, key: &str) -> (found: Option<usize>)
        requires
            self.wf(),
        ensures
            match found {
                Some(i) => entry_has_key(self.entries@, i as int, key@),
                None => !has_key(self.entries@, key@),
            },
    {
        let mut i: usize = 0;
        while i < self.entries.len()
            invariant
                i <= self.entries@.len(),
                forall|k: int| 0 <= k < i ==> (#[trigger] self.entries@[k]).key@ != key@,
            decreases self.entries@.len() - i,
        {
            if same_text(self.entries[i].key.as_str(), key) {
                return Some(i);
            }
            i += 1;
        }
        None
    }

    /// The value of a key.
    pub fn get(&self, key: &str) -> (value: Option<&V>)
        requires
            self.wf(),
        ensures
            match value {
                Some(value) => self@.dom().contains(key@) && *value == self@[key@],
                None => !self@.dom().contains(key@),
            },
    {
        match self.find(key) {
            Some(i) => {
                proof {
                    lemma_value_at(self.entries@, i as int);
                }
                Some(&self.entries[i].value)
            },
            None => None,
        }
    }

    /// Whether the key has a value.
    pub fn contains_key(&self, key: &str) -> (found: bool)
        requires
            self.wf(),
        ensures
            found == self@.dom().contains(key@),
    {
        match self.find(key) {
            Some(_) => true,
            None => false,
        }
    }

    /// Takes the value of a key out of the map.
    pub fn remove(&mut self, key: &str) -> (value: Option<V>)
        requires
            old(self).wf(),
        ensures
            final(self).wf(),
            final(self)@ == old(self)@.remove(key@),
            match value {
                Some(value) => old(self)@.dom().contains(key@) && value == old(self)@[key@],
                None => !old(self)@.dom().contains(key@),
            },
    {
        match self.find(key) {
            Some(i) => {
                proof {
                    lemma_value_at(self.entries@, i as int);
                    lemma_remove(self.entries@, i as int);
                }
                let entry = self.entries.remove(i);
                Some(entry.value)
            },
            None => {
                assert(self@ =~= self@.remove(key@));
                None
            },
        }
    }

    /// Gives a key its value, and hands back the one that it had.
    pub fn insert(&mut self, key: String, value: V) -> (previous: Option<V>)
        requires
            old(self).wf(),
        ensures
            final(self).wf(),
            final(self)@ == old(self)@.insert(key@, value),
            match previous {
                Some(previous) => old(self)@.dom().contains(key@) && previous == old(self)@[key@],
                None => !old(self)@.dom().contains(key@),
            },
    {
        let previous = self.remove(key.as_str());
        let ghost rest = self@;
        proof {
            assert(!rest.dom().contains(key@));
            lemma_push(self.entries@, KeyEntry { key, value });
        }
        self.entries.push(KeyEntry { key, value });
        assert(self@ =~= old(self)@.insert(key@, value));
        previous
    }
}

/// A set of texts.
pub struct IdSet {
    ids: KeyMap<()>,
}

impl View for IdSet {
    type V = Set<Seq<char>>;

    closed spec fn view(&self) -> Set<Seq<char>> {
        self.ids@.dom()
    }
}

impl IdSet {
    /// Every member occurs once.
    pub closed spec fn wf(&self) -> bool {
        self.ids.wf()
    }

    /// The empty set.
    pub fn new() -> (set: IdSet)
        ensures
            set.wf(),
            set@ == Set::<Seq<char>>::empty(),
    {
        let set = IdSet { ids: KeyMap::new() };
        assert(set@ =~= Set::<Seq<char>>::empty());
        set
    }

    /// Whether the text is a member.
    pub fn contains(&self, id: &str) -> (found: bool)
        requires
            self.wf(),
        ensures
            found == self@.contains(id@),
    {
        self.ids.contains_key(id)
    }

    /// Makes the text a member, and tells whether it was none before.
    pub fn insert(&mut self, id: String) -> (fresh: bool)
        requires
            old(self).wf(),
        ensures
            final(self).wf(),
            final(self)@ == old(self)@.insert(id@),
            fresh == !old(self)@.contains(id@),
    {
        let previous = self.ids.insert(id, ());
        assert(self@ =~= old(self)@.insert(id@));
        previous.is_none()
    }

    /// Takes the text out of the set, and tells whether it was a member.
    pub fn remove(&mut self, id: &str) -> (found: bool)
        requires
            old(self).wf(),
        ensures
            final(self).wf(),
            final(self)@ == old(self)@.remove(id@),
            found == old(self)@.contains(id@),
    {
        let previous = self.ids.remove(id);
        assert(self@ =~= old(self)@.remove(id@));
        previous.is_some()
    }
}

} // verus!
