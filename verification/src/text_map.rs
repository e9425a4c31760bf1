//! Maps from text to values, kept as a list of entries in the order in which their
//! keys first came.

use vstd::prelude::*;

verus! {

/// The position of the first entry with the given key, or the length where there is
/// none.
pub open spec fn key_position<V>(entries: Seq<(Seq<char>, V)>, key: Seq<char>) -> nat
    decreases entries.len(),
{
    if entries.len() == 0 || entries[0].0 == key {
        0
    } else {
        1 + key_position(entries.skip(1), key)
    }
}

/// Tells whether there is an entry with the given key.
pub open spec fn has_key<V>(entries: Seq<(Seq<char>, V)>, key: Seq<char>) -> bool {
    exists|i: int| 0 <= i < entries.len() && (#[trigger] entries[i]).0 == key
}

/// The value of the given key.
pub open spec fn lookup<V>(entries: Seq<(Seq<char>, V)>, key: Seq<char>) -> Option<V> {
    let i = key_position(entries, key) as int;
    if i < entries.len() {
        Some(entries[i].1)
    } else {
        None
    }
}

/// The entries after `key` was given `value`: an entry with that key keeps its place
/// and takes the value, and a new key goes to the end.
pub open spec fn upsert<V>(entries: Seq<(Seq<char>, V)>, key: Seq<char>, value: V) -> Seq<
    (Seq<char>, V),
> {
    let i = key_position(entries, key) as int;
    if i < entries.len() {
        entries.update(i, (key, value))
    } else {
        entries.push((key, value))
    }
}

/// No two entries have the same key.
pub open spec fn distinct_keys<V>(entries: Seq<(Seq<char>, V)>) -> bool {
    forall|i: int, j: int|
        0 <= i < j < entries.len() ==> (#[trigger] entries[i]).0 != (#[trigger] entries[j]).0
}

/// `key_position` is the first place of the key.
pub proof fn lemma_key_position<V>(entries: Seq<(Seq<char>, V)>, key: Seq<char>)
    ensures
        key_position(entries, key) <= entries.len(),
        forall|i: int|
            0 <= i < key_position(entries, key) ==> (#[trigger] entries[i]).0 != key,
        key_position(entries, key) < entries.len() ==> entries[key_position(entries, key) as int].0
            == key,
        key_position(entries, key) < entries.len() <==> has_key(entries, key),
    decreases entries.len(),
{
    if entries.len() > 0 && entries[0].0 != key {
        let rest = entries.skip(1);
        lemma_key_position(rest, key);
        assert forall|i: int| 0 <= i < key_position(entries, key) implies (
        #[trigger] entries[i]).0 != key by {
            if i > 0 {
                assert(entries[i] == rest[i - 1]);
            }
        }
        if key_position(entries, key) < entries.len() {
            assert(entries[key_position(entries, key) as int] == rest[key_position(
                rest,
                key,
            ) as int]);
        }
    }
}

/// A place of the key that no earlier one precedes is `key_position`.
pub proof fn lemma_key_position_is<V>(entries: Seq<(Seq<char>, V)>, key: Seq<char>, n: int)
    requires
        0 <= n <= entries.len(),
        forall|i: int| 0 <= i < n ==> (#[trigger] entries[i]).0 != key,
        n < entries.len() ==> entries[n].0 == key,
    ensures
        key_position(entries, key) == n,
{
    lemma_key_position(entries, key);
    let k = key_position(entries, key) as int;
    if k < n {
        assert(entries[k].0 != key);
    } else if n < k {
        assert(entries[n].0 != key);
    }
}

/// Giving a key a value keeps the keys distinct, makes the value that of the key, and
/// leaves the values of the other keys as they were.
pub proof fn law_upsert<V>(entries: Seq<(Seq<char>, V)>, key: Seq<char>, value: V, other: Seq<char>)
    requires
        distinct_keys(entries),
    ensures
        distinct_keys(upsert(entries, key, value)),
        lookup(upsert(entries, key, value), key) == Some(value),
        other != key ==> lookup(upsert(entries, key, value), other) == lookup(entries, other),
        has_key(entries, key) ==> upsert(entries, key, value).len() == entries.len(),
        !has_key(entries, key) ==> upsert(entries, key, value).len() == entries.len() + 1,
{
    let after = upsert(entries, key, value);
    let n = key_position(entries, key) as int;
    lemma_key_position(entries, key);
    lemma_key_position_is(after, key, n);
    if other != key {
        lemma_key_position(entries, other);
        let m = key_position(entries, other) as int;
        if m < entries.len() {
            lemma_key_position_is(after, other, m);
        } else {
            lemma_key_position_is(after, other, after.len() as int);
        }
    }
}

/// A map from text to text.
pub struct TextMap {
    entries: Vec<(String, String)>,
}

impl View for TextMap {
    type V = Seq<(Seq<char>, Seq<char>)>;

    closed spec fn view(&self) -> Seq<(Seq<char>, Seq<char>)> {
        self.entries@.map_values(|entry: (String, String)| (entry.0@, entry.1@))
    }
}

impl TextMap {
    /// No key occurs twice.
    #[verifier::type_invariant]
    pub closed spec fn keys_are_distinct(self) -> bool {
        distinct_keys(self@)
    }

    /// An empty map.
    pub fn new() -> (r: Self)
        ensures
            r@ == Seq::<(Seq<char>, Seq<char>)>::empty(),
    {
        TextMap { entries: Vec::new() }
    }

    /// The number of keys.
    pub fn len(&self) -> (r: usize)
        ensures
            r == self@.len(),
    {
        self.entries.len()
    }

    /// The key of an entry.
    pub fn key(&self, i: usize) -> (r: &String)
        requires
            i < self@.len(),
        ensures
            r@ == self@[i as int].0,
    {
        &self.entries[i].0
    }

    /// The value of an entry.
    pub fn value(&self, i: usize) -> (r: &String)
        requires
            i < self@.len(),
        ensures
            r@ == self@[i as int].1,
    {
        &self.entries[i].1
    }

    /// The place of the entry with the given key, or the length where there is none.
    fn find(&self, key: &String) -> (r: usize)
        ensures
            r == key_position(self@, key@),
            r <= self@.len(),
    {
        let mut i: usize = 0;
        while i < self.entries.len() && !self.entries[i].0.eq(key)
            invariant
                i <= self.entries.len(),
                forall|j: int| 0 <= j < i ==> (#[trigger] self@[j]).0 != key@,
            decreases self.entries.len() - i,
        {
            i = i + 1;
        }
        proof {
            lemma_key_position_is(self@, key@, i as int);
        }
        i
    }

    /// Tells whether a key is there.
    pub fn contains_key(&self, key: &str) -> (r: bool)
        ensures
            r == has_key(self@, key@),
    {
        let key = key.to_owned();
        proof {
            lemma_key_position(self@, key@);
        }
        self.find(&key) < self.entries.len()
    }

    /// The value of a key.
    pub fn get(&self, key: &str) -> (r: Option<&String>)
        ensures
            match r {
                Some(value) => lookup(self@, key@) == Some(value@),
                None => lookup(self@, key@) is None,
            },
    {
        let key = key.to_owned();
        let i: usize = self.find(&key);
        if i < self.entries.len() {
            Some(&self.entries[i].1)
        } else {
            None
        }
    }

    /// Gives a key a value.
    pub fn insert(&mut self, key: String, value: String)
        ensures
            final(self)@ == upsert(old(self)@, key@, value@),
    {
        proof {
            use_type_invariant(&*self);
            law_upsert(self@, key@, value@, key@);
        }
        let i: usize = self.find(&key);
        let ghost before = self@;
        let mut entries: Vec<(String, String)> = Vec::new();
        std::mem::swap(&mut entries, &mut self.entries);
        let ghost old_entries = entries@;
        if i < entries.len() {
            entries.set(i, (key, value));
        } else {
            entries.push((key, value));
        }
        proof {
            let after = entries@.map_values(|entry: (String, String)| (entry.0@, entry.1@));
            assert(after == upsert(before, key@, value@));
        }
        self.entries = entries;
    }
}

impl Clone for TextMap {
    fn clone(&self) -> (r: Self)
        ensures
            r@ == self@,
    {
        proof {
            use_type_invariant(self);
        }
        let mut entries: Vec<(String, String)> = Vec::new();
        let mut i: usize = 0;
        while i < self.entries.len()
            invariant
                i <= self.entries.len(),
                entries@ == self.entries@.take(i as int),
            decreases self.entries.len() - i,
        {
            let entry = &self.entries[i];
            entries.push((entry.0.clone(), entry.1.clone()));
            i = i + 1;
        }
        assert(entries@ == self.entries@);
        TextMap { entries }
    }
}

} // verus!
