//! Maps that are keyed by text, and whose entries stand in the order of their keys.

use crate::keymap::KeyEntry;
use crate::strings::to_chars;
use vstd::prelude::*;

verus! {

/// A text comes before another: at the first character at which they differ it has the smaller one,
/// or it ends there.
pub open spec fn is_before(a: Seq<char>, b: Seq<char>) -> bool
    decreases a.len(),
{
    if b.len() == 0 {
        false
    } else if a.len() == 0 || a[0] < b[0] {
        true
    } else {
        a[0] == b[0] && is_before(a.skip(1), b.skip(1))
    }
}

/// No text comes before itself. Of two different texts one comes before the other.
pub proof fn law_texts_are_ordered(a: Seq<char>, b: Seq<char>)
    ensures
        !is_before(a, a),
        is_before(a, b) ==> !is_before(b, a),
        a != b ==> is_before(a, b) || is_before(b, a),
    decreases a.len(),
{
    if a.len() > 0 {
        law_texts_are_ordered(a.skip(1), a.skip(1));
    }
    if a.len() > 0 && b.len() > 0 {
        law_texts_are_ordered(a.skip(1), b.skip(1));
        if a[0] == b[0] && a.skip(1) == b.skip(1) {
            assert forall|i: int| 0 <= i < a.len() implies a[i] == b[i] by {
                if i > 0 {
                    assert(a.skip(1)[i - 1] == b.skip(1)[i - 1]);
                }
            }
            assert(a.skip(1).len() == b.skip(1).len());
            assert(a =~= b);
        }
    } else if a.len() == 0 && b.len() == 0 {
        assert(a =~= b);
    }
}

/// What comes before a text comes before everything behind it.
pub proof fn law_order_passes_on(a: Seq<char>, b: Seq<char>, c: Seq<char>)
    requires
        is_before(a, b),
        is_before(b, c),
    ensures
        is_before(a, c),
    decreases a.len(),
{
    if a.len() > 0 && a[0] == b[0] && b[0] == c[0] {
        law_order_passes_on(a.skip(1), b.skip(1), c.skip(1));
    }
}

/// The entries stand in the order of their keys, and no key occurs twice.
pub open spec fn is_ordered<V>(entries: Seq<KeyEntry<V>>) -> bool {
    forall|i: int, j: int|
        0 <= i < j < entries.len() ==> is_before(
            (#[trigger] entries[i]).key@,
            (#[trigger] entries[j]).key@,
        )
}

proof fn lemma_ordered_is_distinct<V>(entries: Seq<KeyEntry<V>>)
    requires
        is_ordered(entries),
    ensures
        crate::keymap::keys_distinct(entries),
{
    assert forall|i: int, j: int| 0 <= i < j < entries.len() implies (#[trigger] entries[i]).key@
        != (#[trigger] entries[j]).key@ by {
        law_texts_are_ordered(entries[i].key@, entries[i].key@);
    }
}

proof fn lemma_value_at<V>(entries: Seq<KeyEntry<V>>, i: int)
    requires
        crate::keymap::keys_distinct(entries),
        0 <= i < entries.len(),
    ensures
        crate::keymap::entry_map(entries).dom().contains(entries[i].key@),
        crate::keymap::entry_map(entries)[entries[i].key@] == entries[i].value,
{
    let key = entries[i].key@;
    assert(crate::keymap::entry_has_key(entries, i, key));
    let j = choose|j: int| crate::keymap::entry_has_key(entries, j, key);
    assert(crate::keymap::entry_has_key(entries, j, key));
    assert(i == j);
}

/// Two lists of entries stand for maps that differ in one key if their entries do.
proof fn lemma_one_more<V>(entries: Seq<KeyEntry<V>>, more: Seq<KeyEntry<V>>, at: int)
    requires
        crate::keymap::keys_distinct(entries),
        crate::keymap::keys_distinct(more),
        0 <= at < more.len(),
        forall|i: int|
            0 <= i < more.len() && i != at ==> exists|k: int|
                0 <= k < entries.len() && entries[k] == #[trigger] more[i],
        forall|k: int|
            0 <= k < entries.len() && (#[trigger] entries[k]).key@ != more[at].key@ ==> exists|
                i: int,
            |
                0 <= i < more.len() && #[trigger] more[i] == entries[k],
    ensures
        crate::keymap::entry_map(more) == crate::keymap::entry_map(entries).insert(
            more[at].key@,
            more[at].value,
        ),
{
    let before = crate::keymap::entry_map(entries);
    let after = crate::keymap::entry_map(more);
    lemma_value_at(more, at);
    assert forall|key: Seq<char>| #[trigger] after.dom().contains(key) implies before.insert(
        more[at].key@,
        more[at].value,
    ).dom().contains(key) && after[key] == before.insert(more[at].key@, more[at].value)[key] by {
        let i = choose|i: int| crate::keymap::entry_has_key(more, i, key);
        assert(crate::keymap::entry_has_key(more, i, key));
        lemma_value_at(more, i);
        if i != at {
            let k = choose|k: int| 0 <= k < entries.len() && entries[k] == more[i];
            lemma_value_at(entries, k);
            assert(more[i].key@ != more[at].key@) by {
                if i < at {
                    assert(more[i].key@ != more[at].key@);
                } else {
                    assert(more[at].key@ != more[i].key@);
                }
            }
        }
    }
    assert forall|key: Seq<char>| #[trigger]
        before.dom().contains(key) && key != more[at].key@ implies after.dom().contains(key) by {
        let k = choose|k: int| crate::keymap::entry_has_key(entries, k, key);
        assert(crate::keymap::entry_has_key(entries, k, key));
        let i = choose|i: int| 0 <= i < more.len() && #[trigger] more[i] == entries[k];
        lemma_value_at(more, i);
    }
    assert(after =~= before.insert(more[at].key@, more[at].value));
}

/// A map from text to values, in the order of the keys.
pub struct OrderedMap<V> {
    entries: Vec<KeyEntry<V>>,
}

impl<V> View for OrderedMap<V> {
    type V = Map<Seq<char>, V>;

    closed spec fn view(&self) -> Map<Seq<char>, V> {
        crate::keymap::entry_map(self.entries@)
    }
}

fn comes_before(a: &str, b: &str) -> (before: bool)
    ensures
        before == is_before(a@, b@),
{
    let first = to_chars(a);
    let second = to_chars(b);
    let mut i: usize = 0;
    assert(first@.skip(0) =~= a@ && second@.skip(0) =~= b@);
    while i < first.len() && i < second.len()
        invariant
            first@ == a@,
            second@ == b@,
            i <= first@.len(),
            i <= second@.len(),
            is_before(a@, b@) == is_before(first@.skip(i as int), second@.skip(i as int)),
        decreases first@.len() - i,
    {
        if first[i] < second[i] {
            return true;
        }
        if first[i] != second[i] {
            return false;
        }
        assert(first@.skip(i as int).skip(1) =~= first@.skip(i + 1));
        assert(second@.skip(i as int).skip(1) =~= second@.skip(i + 1));
        i += 1;
    }
    i < second.len()
}

impl<V> OrderedMap<V> {
    /// The entries, in their order.
    pub closed spec fn entries(&self) -> Seq<KeyEntry<V>> {
        self.entries@
    }

    /// The entries stand in the order of their keys, no key occurs twice, and they make up the map.
    pub open spec fn wf(&self) -> bool {
        &&& is_ordered(self.entries())
        &&& self@ == crate::keymap::entry_map(self.entries())
    }

    /// The values, in the order of their keys.
    pub open spec fn values(&self) -> Seq<V> {
        Seq::new(self.entries().len(), |i: int| self.entries()[i].value)
    }

    /// A map without entries.
    pub fn new() -> (map: OrderedMap<V>)
        ensures
            map.wf(),
            map.entries().len() == 0,
            map@ == Map::<Seq<char>, V>::empty(),
    {
        let map = OrderedMap { entries: Vec::new() };
        assert(map@ =~= Map::<Seq<char>, V>::empty());
        map
    }

    /// How many keys have a value.
    pub fn len(&self) -> (count: usize)
        ensures
            count == self.values().len(),
    {
        self.entries.len()
    }

    /// A value, by its place in the order of the keys.
    pub fn value(&self, i: usize) -> (value: &V)
        requires
            i < self.values().len(),
        ensures
            *value == self.values()[i as int],
    {
        &self.entries[i].value
    }

    /// Gives a key its value, in place of the one that it had.
    pub fn insert(&mut self, key: String, value: V)
        requires
            old(self).wf(),
        ensures
            final(self).wf(),
            final(self)@ == old(self)@.insert(key@, value),
    {
        let ghost all = self.entries@;
        let mut at: usize = 0;
        while at < self.entries.len() && comes_before(self.entries[at].key.as_str(), key.as_str())
            invariant
                at <= self.entries@.len(),
                self.entries@ == all,
                forall|i: int| 0 <= i < at ==> is_before((#[trigger] all[i]).key@, key@),
            decreases self.entries@.len() - at,
        {
            at += 1;
        }
        proof {
            lemma_ordered_is_distinct(all);
        }
        let ghost entry = KeyEntry { key, value };
        let same: bool = at < self.entries.len() && !comes_before(
            key.as_str(),
            self.entries[at].key.as_str(),
        );
        if same {
            proof {
                law_texts_are_ordered(all[at as int].key@, key@);
            }
            self.entries.set(at, KeyEntry { key, value });
            let ghost more = self.entries@;
            proof {
                assert(more == all.update(at as int, entry));
                lemma_ordered_is_distinct(more);
                assert forall|i: int| 0 <= i < more.len() && i != at implies exists|k: int|
                    0 <= k < all.len() && all[k] == #[trigger] more[i] by {
                    assert(all[i] == more[i]);
                }
                assert forall|k: int|
                    0 <= k < all.len() && (#[trigger] all[k]).key@ != more[at as int].key@ implies exists|
                    i: int,
                |
                    0 <= i < more.len() && #[trigger] more[i] == all[k] by {
                    assert(more[k] == all[k]);
                }
                lemma_one_more(all, more, at as int);
            }
        } else {
            self.entries.insert(at, KeyEntry { key, value });
            let ghost more = self.entries@;
            proof {
                assert(more == all.insert(at as int, entry));
                assert forall|i: int| at <= i < all.len() implies is_before(
                    entry.key@,
                    (#[trigger] all[i]).key@,
                ) by {
                    if i > at {
                        law_order_passes_on(entry.key@, all[at as int].key@, all[i].key@);
                    }
                }
                assert forall|i: int, j: int| 0 <= i < j < more.len() implies is_before(
                    (#[trigger] more[i]).key@,
                    (#[trigger] more[j]).key@,
                ) by {
                    if j < at {
                        assert(more[i] == all[i] && more[j] == all[j]);
                    } else if j == at {
                        assert(more[i] == all[i]);
                    } else if i == at {
                        assert(more[j] == all[j - 1]);
                    } else {
                        assert(more[j] == all[j - 1]);
                        assert(more[i] == if i < at {
                            all[i]
                        } else {
                            all[i - 1]
                        });
                    }
                }
                lemma_ordered_is_distinct(more);
                assert forall|i: int| 0 <= i < more.len() && i != at implies exists|k: int|
                    0 <= k < all.len() && all[k] == #[trigger] more[i] by {
                    if i < at {
                        assert(all[i] == more[i]);
                    } else {
                        assert(all[i - 1] == more[i]);
                    }
                }
                assert forall|k: int|
                    0 <= k < all.len() && (#[trigger] all[k]).key@ != more[at as int].key@ implies exists|
                    i: int,
                |
                    0 <= i < more.len() && #[trigger] more[i] == all[k] by {
                    if k < at {
                        assert(more[k] == all[k]);
                    } else {
                        assert(more[k + 1] == all[k]);
                    }
                }
                lemma_one_more(all, more, at as int);
            }
        }
    }
}

} // verus!
