//! A map from text to text that keeps its entries in the order in which their keys came in.
use vstd::prelude::*;

verus! {

/// A key and its value.
pub type Entry = (Seq<char>, Seq<char>);

/// The index of the first entry at or after `from` with the key `key`.
pub open spec fn index_from(entries: Seq<Entry>, key: Seq<char>, from: int) -> Option<int>
    decreases entries.len() - from,
{
    if from >= entries.len() {
        None
    } else if entries[from].0 == key {
        Some(from)
    } else {
        index_from(entries, key, from + 1)
    }
}

/// The index of the entry with the key `key`.
pub open spec fn index_of(entries: Seq<Entry>, key: Seq<char>) -> Option<int> {
    index_from(entries, key, 0)
}

/// Whether there is an entry with the key `key`.
pub open spec fn has_key(entries: Seq<Entry>, key: Seq<char>) -> bool {
    index_of(entries, key) is Some
}

/// The value of the entry with the key `key`.
pub open spec fn value_of(entries: Seq<Entry>, key: Seq<char>) -> Option<Seq<char>> {
    match index_of(entries, key) {
        Some(i) => Some(entries[i].1),
        None => None,
    }
}

/// The entries after `key` got the value `value`: in place where the key is known, and else at
/// the end.
pub open spec fn with_entry(entries: Seq<Entry>, key: Seq<char>, value: Seq<char>) -> Seq<Entry> {
    match index_of(entries, key) {
        Some(i) => entries.update(i, (key, value)),
        None => entries.push((key, value)),
    }
}

/// Whether no key occurs twice.
pub open spec fn keys_differ(entries: Seq<Entry>) -> bool {
    forall|i: int, j: int|
        0 <= i < j < entries.len() ==> (#[trigger] entries[i]).0 != (#[trigger] entries[j]).0
}

/// The map that the entries stand for.
pub open spec fn as_map(entries: Seq<Entry>) -> Map<Seq<char>, Seq<char>> {
    Map::new(|key: Seq<char>| has_key(entries, key), |key: Seq<char>| value_of(entries, key)->0)
}

/// What `index_from` returns is the first entry with the key, and it returns something where
/// there is one.
pub proof fn lemma_index_from(entries: Seq<Entry>, key: Seq<char>, from: int)
    requires
        0 <= from,
    ensures
        match index_from(entries, key, from) {
            Some(i) => {
                &&& from <= i < entries.len()
                &&& entries[i].0 == key
                &&& forall|j: int| from <= j < i ==> (#[trigger] entries[j]).0 != key
            },
            None => forall|j: int| from <= j < entries.len() ==> (#[trigger] entries[j]).0 != key,
        },
    decreases entries.len() - from,
{
    if from < entries.len() && entries[from].0 != key {
        lemma_index_from(entries, key, from + 1);
    }
}

/// The keys after an entry was added at the end are the new one and those before.
pub proof fn lemma_has_key_of_push(
    entries: Seq<Entry>,
    key: Seq<char>,
    value: Seq<char>,
    other: Seq<char>,
)
    ensures
        has_key(entries.push((key, value)), other) <==> has_key(entries, other) || other == key,
{
    let after = entries.push((key, value));
    lemma_index_from(entries, other, 0);
    lemma_index_from(after, other, 0);
    assert(after[entries.len() as int].0 == key);
    if let Some(i) = index_of(entries, other) {
        assert(after[i].0 == other);
    }
    if let Some(i) = index_of(after, other) {
        assert(i < entries.len() ==> entries[i].0 == other);
    }
}

/// The entry with a key that occurs once is the one that is found.
pub proof fn lemma_index_of_is(entries: Seq<Entry>, i: int)
    requires
        keys_differ(entries),
        0 <= i < entries.len(),
    ensures
        index_of(entries, entries[i].0) == Some(i),
{
    lemma_index_from(entries, entries[i].0, 0);
}

/// Giving a key a value keeps the keys different, and does to the map that the entries stand for
/// what inserting into a map does.
pub proof fn law_with_entry_inserts(entries: Seq<Entry>, key: Seq<char>, value: Seq<char>)
    requires
        keys_differ(entries),
    ensures
        keys_differ(with_entry(entries, key, value)),
        as_map(with_entry(entries, key, value)) == as_map(entries).insert(key, value),
        forall|k: Seq<char>| #[trigger]
            value_of(with_entry(entries, key, value), k) == (if k == key {
                Some(value)
            } else {
                value_of(entries, k)
            }),
{
    let after = with_entry(entries, key, value);
    lemma_index_from(entries, key, 0);
    assert(keys_differ(after)) by {
        assert forall|i: int, j: int| 0 <= i < j < after.len() implies (#[trigger] after[i]).0 != (
        #[trigger] after[j]).0 by {
            if j < entries.len() {
                assert(after[i].0 == entries[i].0 && after[j].0 == entries[j].0);
            } else {
                assert(after[i] == entries[i]);
            }
        }
    }
    assert forall|k: Seq<char>| #[trigger]
        value_of(after, k) == (if k == key {
            Some(value)
        } else {
            value_of(entries, k)
        }) by {
        lemma_index_from(entries, k, 0);
        lemma_index_from(after, k, 0);
        if let Some(i) = index_of(after, k) {
            if k == key {
                if let Some(j) = index_of(entries, key) {
                    assert(after[j].0 == key);
                    lemma_index_of_is(after, j);
                }
            } else {
                assert(entries[i].0 == k);
                lemma_index_of_is(entries, i);
            }
        } else if k == key {
            if let Some(j) = index_of(entries, key) {
                assert(after[j].0 == key);
            } else {
                assert(after[entries.len() as int].0 == key);
            }
        } else if let Some(j) = index_of(entries, k) {
            assert(after[j].0 == k);
        }
    }
    assert forall|k: Seq<char>| #[trigger]
        as_map(after).dom().contains(k) == as_map(entries).insert(key, value).dom().contains(k) by {
        assert(value_of(after, k) is Some == has_key(after, k));
        assert(value_of(entries, k) is Some == has_key(entries, k));
    }
    assert(as_map(after) =~= as_map(entries).insert(key, value));
}

/// A map from text to text.
pub struct Table {
    rows: Vec<(String, String)>,
}

impl View for Table {
    type V = Seq<Entry>;

    closed spec fn view(&self) -> Seq<Entry> {
        self.rows@.map_values(|row: (String, String)| (row.0@, row.1@))
    }
}

impl Table {
    #[verifier::type_invariant]
    spec fn well_formed(self) -> bool {
        keys_differ(self@)
    }

    /// A table without entries.
    pub fn new() -> (table: Table)
        ensures
            table@ == Seq::<Entry>::empty(),
    {
        let table = Table { rows: Vec::new() };
        assert(table@ == Seq::<Entry>::empty());
        table
    }

    /// The number of entries.
    pub fn len(&self) -> (n: usize)
        ensures
            n == self@.len(),
    {
        self.rows.len()
    }

    /// The index of the entry with the key `key`.
    pub fn position(&self, key: &String) -> (found: Option<usize>)
        ensures
            match found {
                Some(i) => index_of(self@, key@) == Some(i as int) && i < self@.len(),
                None => index_of(self@, key@) is None,
            },
    {
        let mut i: usize = 0;
        while i < self.rows.len()
            invariant
                i <= self.rows@.len(),
                index_of(self@, key@) == index_from(self@, key@, i as int),
            decreases self.rows@.len() - i,
        {
            if self.rows[i].0 == *key {
                return Some(i);
            }
            i = i + 1;
        }
        None
    }

    /// The key of the entry at `i`.
    pub fn key(&self, i: usize) -> (key: &String)
        requires
            i < self@.len(),
        ensures
            key@ == self@[i as int].0,
    {
        &self.rows[i].0
    }

    /// The value of the entry at `i`.
    pub fn value(&self, i: usize) -> (value: &String)
        requires
            i < self@.len(),
        ensures
            value@ == self@[i as int].1,
    {
        &self.rows[i].1
    }

    /// Gives `key` the value `value`.
    pub fn insert(&mut self, key: String, value: String)
        ensures
            final(self)@ == with_entry(old(self)@, key@, value@),
    {
        proof {
            use_type_invariant(&*self);
            law_with_entry_inserts(self@, key@, value@);
        }
        let found = self.position(&key);
        let mut rows: Vec<(String, String)> = Vec::new();
        std::mem::swap(&mut rows, &mut self.rows);
        match found {
            Some(i) => {
                rows.set(i, (key, value));
            },
            None => {
                rows.push((key, value));
            },
        }
        assert((Table { rows })@ == with_entry(old(self)@, key@, value@));
        self.rows = rows;
    }
}

/// A new key goes to the end; a known one keeps its place. The other entries stay where and what
/// they are.
pub proof fn law_entry_keeps_its_place(
    entries: Seq<Entry>,
    key: Seq<char>,
    value: Seq<char>,
    i: int,
)
    requires
        0 <= i < entries.len(),
    ensures
        entries.len() <= with_entry(entries, key, value).len() <= entries.len() + 1,
        with_entry(entries, key, value)[i].0 == entries[i].0,
        entries[i].0 != key ==> with_entry(entries, key, value)[i] == entries[i],
        entries[i].0 == key ==> with_entry(entries, key, value).len() == entries.len(),
        (forall|j: int| 0 <= j < entries.len() ==> (#[trigger] entries[j]).0 != key) ==> with_entry(
            entries,
            key,
            value,
        ) == entries.push((key, value)),
{
    lemma_index_from(entries, key, 0);
}

/// A key is known if and only if an entry has it, and its value is that of the first such entry.
pub proof fn law_value_is_that_of_the_first_entry(entries: Seq<Entry>, key: Seq<char>, i: int)
    requires
        0 <= i < entries.len(),
        entries[i].0 == key,
        forall|j: int| 0 <= j < i ==> (#[trigger] entries[j]).0 != key,
    ensures
        has_key(entries, key),
        value_of(entries, key) == Some(entries[i].1),
        as_map(entries).contains_key(key),
        as_map(entries)[key] == entries[i].1,
{
    lemma_index_from(entries, key, 0);
}

/// A key that no entry has is not known.
pub proof fn law_unknown_key_has_no_value(entries: Seq<Entry>, key: Seq<char>)
    requires
        forall|j: int| 0 <= j < entries.len() ==> (#[trigger] entries[j]).0 != key,
    ensures
        !has_key(entries, key),
        value_of(entries, key) is None,
        !as_map(entries).contains_key(key),
{
    lemma_index_from(entries, key, 0);
}

/// Keys differ if no two entries have the same one.
pub proof fn law_keys_differ_two_by_two(entries: Seq<Entry>, i: int, j: int)
    requires
        keys_differ(entries),
        0 <= i < entries.len(),
        0 <= j < entries.len(),
        entries[i].0 == entries[j].0,
    ensures
        i == j,
{
}

} // verus!
