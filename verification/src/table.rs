//! Text-keyed tables, kept in key order.
use vstd::prelude::*;

use crate::text::{comes_before, precedes, precedes_is_total, precedes_is_transitive, same};

verus! {

/// The value of the first entry under `key`.
pub open spec fn find_entry<V>(entries: Seq<(String, V)>, key: Seq<char>) -> Option<V>
    decreases entries.len(),
{
    if entries.len() == 0 {
        None
    } else if entries[0].0@ == key {
        Some(entries[0].1)
    } else {
        find_entry(entries.drop_first(), key)
    }
}

/// The value of the first entry under `key`.
pub fn entry_of<'a, V>(entries: &'a [(String, V)], key: &str) -> (r: Option<&'a V>)
    ensures
        match r {
            Some(v) => find_entry(entries@, key@) == Some(*v),
            None => find_entry(entries@, key@) is None,
        },
{
    match index_of(entries, key) {
        Some(i) => {
            proof {
                lemma_find_at(entries@, key@, i as int);
            }
            Some(&entries[i].1)
        },
        None => {
            proof {
                lemma_find_nowhere(entries@, key@);
            }
            None
        },
    }
}

/// Where the first entry under `key` stands.
fn index_of<V>(entries: &[(String, V)], key: &str) -> (r: Option<usize>)
    ensures
        match r {
            Some(i) => i < entries@.len() && entries@[i as int].0@ == key@ && forall|j: int|
                0 <= j < i ==> (#[trigger] entries@[j]).0@ != key@,
            None => forall|j: int|
                0 <= j < entries@.len() ==> (#[trigger] entries@[j]).0@ != key@,
        },
{
    let mut i: usize = 0;
    while i < entries.len()
        invariant
            i <= entries@.len(),
            forall|j: int| 0 <= j < i ==> (#[trigger] entries@[j]).0@ != key@,
        decreases entries@.len() - i,
    {
        if same(entries[i].0.as_str(), key) {
            return Some(i);
        }
        i = i + 1;
    }
    None
}

pub proof fn lemma_find_at<V>(entries: Seq<(String, V)>, key: Seq<char>, i: int)
    requires
        0 <= i < entries.len(),
        entries[i].0@ == key,
        forall|j: int| 0 <= j < i ==> (#[trigger] entries[j]).0@ != key,
    ensures
        find_entry(entries, key) == Some(entries[i].1),
    decreases i,
{
    if i > 0 {
        assert(entries[0].0@ != key);
        assert forall|j: int| 0 <= j < i - 1 implies (#[trigger] entries.drop_first()[j]).0@
            != key by {
            assert(entries.drop_first()[j] == entries[j + 1]);
        }
        lemma_find_at(entries.drop_first(), key, i - 1);
    }
}

pub proof fn lemma_find_nowhere<V>(entries: Seq<(String, V)>, key: Seq<char>)
    requires
        forall|j: int| 0 <= j < entries.len() ==> (#[trigger] entries[j]).0@ != key,
    ensures
        find_entry(entries, key) is None,
    decreases entries.len(),
{
    if entries.len() > 0 {
        assert forall|j: int| 0 <= j < entries.drop_first().len() implies (
        #[trigger] entries.drop_first()[j]).0@ != key by {
            assert(entries.drop_first()[j] == entries[j + 1]);
        }
        lemma_find_nowhere(entries.drop_first(), key);
    }
}

/// Where a key that is found stands.
pub proof fn lemma_found<V>(entries: Seq<(String, V)>, key: Seq<char>) -> (i: int)
    requires
        find_entry(entries, key) is Some,
    ensures
        0 <= i < entries.len(),
        entries[i].0@ == key,
        find_entry(entries, key) == Some(entries[i].1),
        forall|j: int| 0 <= j < i ==> (#[trigger] entries[j]).0@ != key,
    decreases entries.len(),
{
    if entries[0].0@ == key {
        0
    } else {
        let k = lemma_found(entries.drop_first(), key);
        assert forall|j: int| 0 <= j < k + 1 implies (#[trigger] entries[j]).0@ != key by {
            if j > 0 {
                assert(entries.drop_first()[j - 1] == entries[j]);
            }
        }
        k + 1
    }
}

/// An insertion of a new key changes what is found under that key alone.
proof fn lemma_find_inserted<V>(
    entries: Seq<(String, V)>,
    at: int,
    entry: (String, V),
    key: Seq<char>,
)
    requires
        0 <= at <= entries.len(),
        find_entry(entries, entry.0@) is None,
    ensures
        find_entry(entries.insert(at, entry), key) == if key == entry.0@ {
            Some(entry.1)
        } else {
            find_entry(entries, key)
        },
    decreases entries.len(),
{
    let after = entries.insert(at, entry);
    if at == 0 {
        assert(after.drop_first() == entries);
    } else {
        assert(after[0] == entries[0]);
        assert(after.drop_first() == entries.drop_first().insert(at - 1, entry));
        lemma_find_inserted(entries.drop_first(), at - 1, entry, key);
    }
}

/// Replacing the first value under a key changes what is found there alone.
proof fn lemma_find_replaced<V>(
    entries: Seq<(String, V)>,
    at: int,
    entry: (String, V),
    key: Seq<char>,
)
    requires
        0 <= at < entries.len(),
        entries[at].0@ == entry.0@,
        forall|j: int| 0 <= j < at ==> (#[trigger] entries[j]).0@ != entry.0@,
    ensures
        find_entry(entries.update(at, entry), key) == if key == entry.0@ {
            Some(entry.1)
        } else {
            find_entry(entries, key)
        },
    decreases entries.len(),
{
    let after = entries.update(at, entry);
    if at == 0 {
        assert(after.drop_first() == entries.drop_first());
    } else {
        assert(after[0] == entries[0]);
        assert(after.drop_first() == entries.drop_first().update(at - 1, entry));
        assert forall|j: int| 0 <= j < at - 1 implies (#[trigger] entries.drop_first()[j]).0@
            != entry.0@ by {
            assert(entries.drop_first()[j] == entries[j + 1]);
        }
        lemma_find_replaced(entries.drop_first(), at - 1, entry, key);
    }
}

/// Removing an entry leaves what is found under other keys.
proof fn lemma_find_removed<V>(entries: Seq<(String, V)>, at: int, key: Seq<char>)
    requires
        0 <= at < entries.len(),
        entries[at].0@ != key,
    ensures
        find_entry(entries.remove(at), key) == find_entry(entries, key),
    decreases entries.len(),
{
    let after = entries.remove(at);
    if at == 0 {
        assert(after == entries.drop_first());
    } else {
        assert(after[0] == entries[0]);
        assert(after.drop_first() == entries.drop_first().remove(at - 1));
        lemma_find_removed(entries.drop_first(), at - 1, key);
    }
}

/// A map from texts to values.
#[derive(Clone, Debug, PartialEq, Eq)]
pub struct Table<V> {
    pub entries: Vec<(String, V)>,
}

impl<V> View for Table<V> {
    type V = Map<Seq<char>, V>;

    open spec fn view(&self) -> Map<Seq<char>, V> {
        Map::new(
            |k: Seq<char>| find_entry(self.entries@, k) is Some,
            |k: Seq<char>| find_entry(self.entries@, k)->0,
        )
    }
}

/// Whether the keys ascend, so that none occurs twice.
pub open spec fn ascending<V>(entries: Seq<(String, V)>) -> bool {
    forall|i: int, j: int|
        0 <= i < j < entries.len() ==> precedes((#[trigger] entries[i]).0@, (
        #[trigger] entries[j]).0@)
}

impl<V> Table<V> {
    /// Keys ascend, so that none occurs twice.
    pub open spec fn ordered(&self) -> bool {
        ascending(self.entries@)
    }

    pub fn new() -> (r: Table<V>)
        ensures
            r.entries@ == Seq::<(String, V)>::empty(),
            r@ == Map::<Seq<char>, V>::empty(),
            r.ordered(),
    {
        let r = Table { entries: Vec::new() };
        assert(r@ == Map::<Seq<char>, V>::empty());
        r
    }

    pub fn len(&self) -> (r: usize)
        ensures
            r == self.entries@.len(),
    {
        self.entries.len()
    }

    pub fn is_empty(&self) -> (r: bool)
        ensures
            r == (self.entries@.len() == 0),
    {
        self.entries.len() == 0
    }

    pub fn get(&self, key: &str) -> (r: Option<&V>)
        ensures
            match r {
                Some(v) => self@.contains_key(key@) && *v == self@[key@],
                None => !self@.contains_key(key@),
            },
    {
        entry_of(self.entries.as_slice(), key)
    }

    pub fn contains_key(&self, key: &str) -> (r: bool)
        ensures
            r == self@.contains_key(key@),
    {
        match entry_of(self.entries.as_slice(), key) {
            Some(_) => true,
            None => false,
        }
    }

    /// Stores `value` under `key`, in place of what was there.
    pub fn insert(&mut self, key: String, value: V)
        ensures
            final(self)@ == old(self)@.insert(key@, value),
            old(self).ordered() ==> final(self).ordered(),
            final(self).entries@.len() == old(self).entries@.len() + (if old(self)@.contains_key(
                key@,
            ) {
                0int
            } else {
                1
            }),
    {
        let ghost before = self.entries@;
        match index_of(self.entries.as_slice(), key.as_str()) {
            Some(i) => {
                let ghost entry = (key, value);
                proof {
                    lemma_find_at(before, key@, i as int);
                }
                self.entries.set(i, (key, value));
                assert(self@ == old(self)@.insert(key@, value)) by {
                    assert forall|k: Seq<char>| #[trigger]
                        self@.contains_key(k) == old(self)@.insert(key@, value).contains_key(k) by {
                        lemma_find_replaced(before, i as int, entry, k);
                    }
                    assert forall|k: Seq<char>| #[trigger]
                        self@.contains_key(k) implies self@[k] == old(self)@.insert(
                        key@,
                        value,
                    )[k] by {
                        lemma_find_replaced(before, i as int, entry, k);
                    }
                }
            },
            None => {
                proof {
                    lemma_find_nowhere(before, key@);
                }
                let mut at: usize = 0;
                while at < self.entries.len() && comes_before(
                    self.entries[at].0.as_str(),
                    key.as_str(),
                )
                    invariant
                        at <= self.entries@.len(),
                        self.entries@ == before,
                        forall|j: int| 0 <= j < at ==> precedes((#[trigger] before[j]).0@, key@),
                    decreases self.entries@.len() - at,
                {
                    at = at + 1;
                }
                let ghost entry = (key, value);
                self.entries.insert(at, (key, value));
                proof {
                    assert(self.entries@ == before.insert(at as int, entry));
                    assert forall|k: Seq<char>| #[trigger]
                        self@.contains_key(k) == old(self)@.insert(key@, value).contains_key(k) by {
                        lemma_find_inserted(before, at as int, entry, k);
                    }
                    assert forall|k: Seq<char>| #[trigger]
                        self@.contains_key(k) implies self@[k] == old(self)@.insert(
                        key@,
                        value,
                    )[k] by {
                        lemma_find_inserted(before, at as int, entry, k);
                    }
                    assert(self@ == old(self)@.insert(key@, value));
                    if old(self).ordered() {
                        lemma_insertion_keeps_order(before, at as int, entry);
                    }
                }
            },
        }
    }

    /// Removes what stands under `key`.
    pub fn remove(&mut self, key: &str)
        ensures
            final(self)@ == old(self)@.remove(key@),
            old(self).ordered() ==> final(self).ordered(),
            final(self).entries@.len() <= old(self).entries@.len(),
            old(self).ordered() ==> final(self).entries@.len() == if old(self)@.contains_key(
                key@,
            ) {
                old(self).entries@.len() - 1
            } else {
                old(self).entries@.len() as int
            },
    {
        loop
            invariant
                self.entries@ == old(self).entries@ || (old(self).ordered() ==> {
                    &&& old(self)@.contains_key(key@)
                    &&& self.entries@.len() == old(self).entries@.len() - 1
                    &&& forall|j: int|
                        0 <= j < self.entries@.len() ==> (#[trigger] self.entries@[j]).0@ != key@
                }),
                forall|k: Seq<char>|
                    k != key@ ==> #[trigger] find_entry(self.entries@, k) == find_entry(
                        old(self).entries@,
                        k,
                    ),
                old(self).ordered() ==> self.ordered(),
                self.entries@.len() <= old(self).entries@.len(),
            decreases self.entries@.len(),
        {
            match index_of(self.entries.as_slice(), key) {
                Some(i) => {
                    let ghost before = self.entries@;
                    proof {
                        assert forall|k: Seq<char>| k != key@ implies #[trigger] find_entry(
                            before.remove(i as int),
                            k,
                        ) == find_entry(before, k) by {
                            lemma_find_removed(before, i as int, k);
                        }
                    }
                    let _ = self.entries.remove(i);
                    proof {
                        if old(self).ordered() {
                            assert(before == old(self).entries@);
                            lemma_find_at(before, key@, i as int);
                            assert forall|j: int| 0 <= j < self.entries@.len() implies (
                            #[trigger] self.entries@[j]).0@ != key@ by {
                                if j < i {
                                    assert(self.entries@[j] == before[j]);
                                } else {
                                    assert(self.entries@[j] == before[j + 1]);
                                    crate::text::precedes_is_strict(key@, key@);
                                    assert(precedes(before[i as int].0@, before[j + 1].0@));
                                }
                            }
                        }
                    }
                },
                None => {
                    proof {
                        lemma_find_nowhere(self.entries@, key@);
                    }
                    assert(self@ == old(self)@.remove(key@));
                    return ;
                },
            }
        }
    }
}

/// A new entry placed behind the keys before its own keeps the order.
proof fn lemma_insertion_keeps_order<V>(entries: Seq<(String, V)>, at: int, entry: (String, V))
    requires
        0 <= at <= entries.len(),
        ascending(entries),
        forall|j: int| 0 <= j < entries.len() ==> (#[trigger] entries[j]).0@ != entry.0@,
        forall|j: int| 0 <= j < at ==> precedes((#[trigger] entries[j]).0@, entry.0@),
        at < entries.len() ==> !precedes(entries[at].0@, entry.0@),
    ensures
        ascending(entries.insert(at, entry)),
{
    let after = entries.insert(at, entry);
    assert forall|i: int, j: int| 0 <= i < j < after.len() implies precedes(
        (#[trigger] after[i]).0@,
        (#[trigger] after[j]).0@,
    ) by {
        if j == at {
            assert(after[i] == entries[i]);
        } else if i == at {
            assert(after[j] == entries[j - 1]);
            precedes_is_total(entries[at].0@, entry.0@);
            if j - 1 > at {
                precedes_is_transitive(entry.0@, entries[at].0@, entries[j - 1].0@);
            }
        }
    }
}

} // verus!
