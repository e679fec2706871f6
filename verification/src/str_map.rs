//! A map keyed by text, kept as a list of entries in which no key occurs
//! twice. A key is found by going through the list.

use vstd::prelude::*;
use vstd::utf8::{encode_utf8, encode_utf8_decode_utf8};

verus! {

/// Whether two string slices hold the same text.
pub fn same_text(a: &str, b: &str) -> (same: bool)
    ensures
        same == (a@ == b@),
{
    let x = a.as_bytes();
    let y = b.as_bytes();
    if x.len() != y.len() {
        return false;
    }
    let mut i: usize = 0;
    while i < x.len()
        invariant
            i <= x.len(),
            x.len() == y.len(),
            x@ == encode_utf8(a@),
            y@ == encode_utf8(b@),
            forall|j: int| 0 <= j < i ==> x@[j] == y@[j],
        decreases x.len() - i,
    {
        if x[i] != y[i] {
            return false;
        }
        i += 1;
    }
    proof {
        assert(x@ =~= y@);
        encode_utf8_decode_utf8(a@);
        encode_utf8_decode_utf8(b@);
    }
    true
}

#[derive(Debug)]
struct Entry<V> {
    key: String,
    value: V,
}

/// A finite map from text to `V`. That no key occurs twice in the list is an
/// invariant of the type.
#[derive(Debug)]
pub struct StrMap<V> {
    entries: Vec<Entry<V>>,
}

spec fn holds_key<V>(entries: Seq<Entry<V>>, key: Seq<char>) -> bool {
    exists|i: int| 0 <= i < entries.len() && (#[trigger] entries[i]).key@ == key
}

spec fn position<V>(entries: Seq<Entry<V>>, key: Seq<char>) -> int {
    choose|i: int| 0 <= i < entries.len() && (#[trigger] entries[i]).key@ == key
}

spec fn distinct_keys<V>(entries: Seq<Entry<V>>) -> bool {
    forall|i: int, j: int|
        0 <= i < j < entries.len() ==> (#[trigger] entries[i]).key@ != (#[trigger] entries[j]).key@
}

spec fn entries_map<V>(entries: Seq<Entry<V>>) -> Map<Seq<char>, V> {
    Map::new(
        |key: Seq<char>| holds_key(entries, key),
        |key: Seq<char>| entries[position(entries, key)].value,
    )
}

/// With no key twice, each entry is the one that its key finds.
proof fn lemma_position<V>(entries: Seq<Entry<V>>, i: int)
    requires
        distinct_keys(entries),
        0 <= i < entries.len(),
    ensures
        holds_key(entries, entries[i].key@),
        position(entries, entries[i].key@) == i,
        entries_map(entries).contains_key(entries[i].key@),
        entries_map(entries)[entries[i].key@] == entries[i].value,
{
    let found = position(entries, entries[i].key@);
    assert(entries[found].key@ == entries[i].key@);
}

/// Adding an entry under a new key at the end sets that key in the map.
proof fn lemma_push<V>(entries: Seq<Entry<V>>, entry: Entry<V>)
    requires
        distinct_keys(entries),
        !holds_key(entries, entry.key@),
    ensures
        distinct_keys(entries.push(entry)),
        entries_map(entries.push(entry)) == entries_map(entries).insert(entry.key@, entry.value),
{
    let after = entries.push(entry);
    let grown = entries_map(entries).insert(entry.key@, entry.value);
    assert forall|key: Seq<char>| #[trigger]
        entries_map(after).contains_key(key) == grown.contains_key(key) by {
        if holds_key(after, key) {
            let at = position(after, key);
            assert(at == entries.len() || entries[at] == after[at]);
        }
        if holds_key(entries, key) {
            let at = position(entries, key);
            assert(after[at] == entries[at]);
        }
        if key == entry.key@ {
            assert(after[entries.len() as int] == entry);
        }
    }
    assert forall|key: Seq<char>| #[trigger] entries_map(after).contains_key(key) implies
        entries_map(after)[key] == grown[key] by {
        let at = position(after, key);
        if at < entries.len() {
            lemma_position(entries, at);
        }
    }
}

/// Moving the last entry into the place of entry `i` takes the key of that
/// entry out of the map and leaves the rest.
proof fn lemma_swap_remove<V>(entries: Seq<Entry<V>>, i: int)
    requires
        distinct_keys(entries),
        0 <= i < entries.len(),
    ensures
        distinct_keys(entries.update(i, entries.last()).drop_last()),
        entries_map(entries.update(i, entries.last()).drop_last()) == entries_map(entries).remove(
            entries[i].key@,
        ),
{
    let after = entries.update(i, entries.last()).drop_last();
    let last: int = entries.len() - 1;
    // where the entry now at `a` stood before
    let origin = |a: int| if a == i { last } else { a };
    assert forall|a: int| 0 <= a < after.len() implies
        (#[trigger] after[a]) == entries[origin(a)] && origin(a) != i by {}
    let shrunk = entries_map(entries).remove(entries[i].key@);
    assert forall|key: Seq<char>| #[trigger]
        entries_map(after).contains_key(key) == shrunk.contains_key(key) by {
        if holds_key(after, key) {
            let a = position(after, key);
            assert(entries[origin(a)].key@ == key);
        }
        if holds_key(entries, key) && key != entries[i].key@ {
            let x = position(entries, key);
            let a = if x == last { i } else { x };
            assert(after[a] == entries[x]);
        }
    }
    assert forall|key: Seq<char>| #[trigger] entries_map(after).contains_key(key) implies
        entries_map(after)[key] == shrunk[key] by {
        let a = position(after, key);
        lemma_position(entries, origin(a));
    }
}

impl<V> View for StrMap<V> {
    type V = Map<Seq<char>, V>;

    closed spec fn view(&self) -> Map<Seq<char>, V> {
        entries_map(self.entries@)
    }
}

impl<V> StrMap<V> {
    #[verifier::type_invariant]
    spec fn no_key_twice(self) -> bool {
        distinct_keys(self.entries@)
    }

    /// The empty map.
    pub fn new() -> (map: Self)
        ensures
            map@ == Map::<Seq<char>, V>::empty(),
    {
        StrMap { entries: Vec::new() }
    }

    fn find(&self, key: &str) -> (found: Option<usize>)
        ensures
            match found {
                Some(i) => i < self.entries@.len() && self.entries@[i as int].key@ == key@,
                None => !holds_key(self.entries@, key@),
            },
    {
        let mut i: usize = 0;
        while i < self.entries.len()
            invariant
                i <= self.entries@.len(),
                forall|j: int| 0 <= j < i ==> (#[trigger] self.entries@[j]).key@ != key@,
            decreases self.entries@.len() - i,
        {
            if same_text(self.entries[i].key.as_str(), key) {
                return Some(i);
            }
            i += 1;
        }
        None
    }

    /// Whether `key` has a value.
    pub fn contains_key(&self, key: &str) -> (present: bool)
        ensures
            present == self@.contains_key(key@),
    {
        self.find(key).is_some()
    }

    /// The value of `key`, if it has one.
    pub fn get(&self, key: &str) -> (value: Option<&V>)
        ensures
            match value {
                Some(v) => self@.contains_key(key@) && *v == self@[key@],
                None => !self@.contains_key(key@),
            },
    {
        proof {
            use_type_invariant(self);
        }
        match self.find(key) {
            Some(i) => {
                proof {
                    lemma_position(self.entries@, i as int);
                }
                Some(&self.entries[i].value)
            },
            None => None,
        }
    }

    /// Sets the value of `key`, and hands back the value it had.
    pub fn insert(&mut self, key: String, value: V) -> (previous: Option<V>)
        ensures
            final(self)@ == old(self)@.insert(key@, value),
            match previous {
                Some(v) => old(self)@.contains_key(key@) && v == old(self)@[key@],
                None => !old(self)@.contains_key(key@),
            },
    {
        proof {
            use_type_invariant(&*self);
        }
        let found = self.find(key.as_str());
        let mut entries = Vec::new();
        std::mem::swap(&mut entries, &mut self.entries);
        let previous = match found {
            Some(i) => {
                proof {
                    lemma_position(entries@, i as int);
                    lemma_swap_remove(entries@, i as int);
                }
                Some(entries.swap_remove(i).value)
            },
            None => None,
        };
        proof {
            lemma_push(entries@, Entry { key, value });
        }
        entries.push(Entry { key, value });
        self.entries = entries;
        previous
    }

    /// Takes `key` and its value out of the map.
    pub fn remove(&mut self, key: &str) -> (removed: Option<V>)
        ensures
            final(self)@ == old(self)@.remove(key@),
            match removed {
                Some(v) => old(self)@.contains_key(key@) && v == old(self)@[key@],
                None => !old(self)@.contains_key(key@),
            },
    {
        proof {
            use_type_invariant(&*self);
        }
        match self.find(key) {
            Some(i) => {
                let mut entries = Vec::new();
                std::mem::swap(&mut entries, &mut self.entries);
                proof {
                    lemma_position(entries@, i as int);
                    lemma_swap_remove(entries@, i as int);
                }
                let entry = entries.swap_remove(i);
                self.entries = entries;
                Some(entry.value)
            },
            None => None,
        }
    }
}

} // verus!
