use vstd::prelude::*;
use crate::field_value::{same_value, FieldValue};
use crate::text::{compare_text, lemma_text_lt_transitive, text_lt, TextOrder};

verus! {

/// Whether the keys of a list of entries strictly increase in text order.
pub open spec fn keys_increasing(s: Seq<(String, FieldValue)>) -> bool {
    forall|i: int, j: int| 0 <= i < j < s.len() ==> text_lt(s[i].0@, s[j].0@)
}

/// Whether some entry has the given key.
pub open spec fn has_key(s: Seq<(String, FieldValue)>, k: Seq<char>) -> bool {
    exists|i: int| 0 <= i < s.len() && s[i].0@ == k
}

/// Whether two lists of entries hold the same keys with the same data, in
/// the same order.
pub open spec fn same_entries(a: Seq<(String, FieldValue)>, b: Seq<(String, FieldValue)>) -> bool {
    &&& a.len() == b.len()
    &&& forall|i: int|
        0 <= i < a.len() ==> #[trigger] a[i].0 == b[i].0 && same_value(a[i].1, b[i].1)
}

/// With keys in increasing order, two entries with the same key are the same entry.
pub proof fn lemma_key_unique(s: Seq<(String, FieldValue)>, i: int, j: int)
    requires
        keys_increasing(s),
        0 <= i < s.len(),
        0 <= j < s.len(),
        s[i].0@ == s[j].0@,
    ensures
        i == j,
{
    if i < j {
        crate::text::lemma_text_lt_irreflexive(s[i].0@);
    } else if j < i {
        crate::text::lemma_text_lt_irreflexive(s[j].0@);
    }
}

/// A read gives back what a write wrote: once a value is stored under a key
/// (as `insert` leaves it), the value that a lookup of the key finds (as
/// `get` reports it) is that value.
pub proof fn lemma_read_after_write(s: Seq<(String, FieldValue)>, key: Seq<char>, written: FieldValue, read: FieldValue)
    requires
        keys_increasing(s),
        exists|i: int| 0 <= i < s.len() && s[i].0@ == key && s[i].1 == written,
        exists|j: int| 0 <= j < s.len() && s[j].0@ == key && s[j].1 == read,
    ensures
        read == written,
{
    let i = choose|i: int| 0 <= i < s.len() && s[i].0@ == key && s[i].1 == written;
    let j = choose|j: int| 0 <= j < s.len() && s[j].0@ == key && s[j].1 == read;
    lemma_key_unique(s, i, j);
}

/// Replacing the value of an entry whose key equals the new key keeps the
/// keys in order and the set of keys as it was.
proof fn lemma_update_same_key(s: Seq<(String, FieldValue)>, k: int, e: (String, FieldValue))
    requires
        keys_increasing(s),
        0 <= k < s.len(),
        s[k].0@ == e.0@,
    ensures
        keys_increasing(s.update(k, e)),
        has_key(s, e.0@),
        forall|kk: Seq<char>| #[trigger] has_key(s.update(k, e), kk) <==> has_key(s, kk) || kk == e.0@,
{
    let t = s.update(k, e);
    assert forall|a: int, b: int| 0 <= a < b < t.len() implies text_lt(t[a].0@, t[b].0@) by {
        assert(s[a].0@ == t[a].0@);
        assert(s[b].0@ == t[b].0@);
    }
    assert(s[k].0@ == e.0@);
    assert forall|kk: Seq<char>| #[trigger] has_key(t, kk) <==> has_key(s, kk) || kk == e.0@ by {
        if has_key(s, kk) {
            let a = choose|a: int| 0 <= a < s.len() && s[a].0@ == kk;
            assert(t[a].0@ == kk);
        }
        if kk == e.0@ {
            assert(t[k].0@ == kk);
        }
        if has_key(t, kk) {
            let a = choose|a: int| 0 <= a < t.len() && t[a].0@ == kk;
            assert(s[a].0@ == kk);
        }
    }
}

/// Putting an entry at the place its key takes in the order keeps the keys in
/// order and adds its key to the others, which did not hold it.
proof fn lemma_insert_sorted(s: Seq<(String, FieldValue)>, i: int, e: (String, FieldValue))
    requires
        keys_increasing(s),
        0 <= i <= s.len(),
        forall|j: int| 0 <= j < i ==> text_lt(s[j].0@, e.0@),
        i < s.len() ==> text_lt(e.0@, s[i].0@),
    ensures
        !has_key(s, e.0@),
        keys_increasing(s.insert(i, e)),
        forall|kk: Seq<char>| #[trigger] has_key(s.insert(i, e), kk) <==> has_key(s, kk) || kk == e.0@,
{
    let key = e.0@;
    assert forall|j: int| 0 <= j < s.len() implies s[j].0@ != key by {
        if j >= i {
            crate::text::lemma_text_lt_total(s[j].0@, key);
            if j > i {
                lemma_text_lt_transitive(key, s[i].0@, s[j].0@);
                crate::text::lemma_text_lt_irreflexive(key);
            }
        } else {
            crate::text::lemma_text_lt_irreflexive(key);
        }
    }
    let t = s.insert(i, e);
    assert forall|kk: Seq<char>| #[trigger] has_key(t, kk) <==> has_key(s, kk) || kk == key by {
        if has_key(s, kk) {
            let a = choose|a: int| 0 <= a < s.len() && s[a].0@ == kk;
            if a < i {
                assert(t[a].0@ == kk);
            } else {
                assert(t[a + 1].0@ == kk);
            }
        }
        if kk == key {
            assert(t[i].0@ == kk);
        }
        if has_key(t, kk) && kk != key {
            let a = choose|a: int| 0 <= a < t.len() && t[a].0@ == kk;
            if a < i {
                assert(s[a].0@ == kk);
            } else {
                assert(a != i);
                assert(s[a - 1].0@ == kk);
            }
        }
    }
    assert forall|a: int, b: int| 0 <= a < b < t.len() implies text_lt(t[a].0@, t[b].0@) by {
        if b < i {
        } else if a < i && b == i {
        } else if a < i && b > i {
            if b - 1 > i {
                lemma_text_lt_transitive(key, s[i].0@, s[b - 1].0@);
            }
            lemma_text_lt_transitive(s[a].0@, key, s[b - 1].0@);
        } else if a == i {
            if b - 1 > i {
                lemma_text_lt_transitive(key, s[i].0@, s[b - 1].0@);
            }
        } else {
        }
    }
}

/// The typed fields of a node: values keyed by name, kept in ascending key
/// order, each key at most once.
#[derive(Debug)]
pub struct FieldMap {
    entries: Vec<(String, FieldValue)>,
}

impl View for FieldMap {
    type V = Seq<(String, FieldValue)>;

    /// The entries in ascending key order.
    closed spec fn view(&self) -> Seq<(String, FieldValue)> {
        self.entries@
    }
}

impl FieldMap {
    #[verifier::type_invariant]
    closed spec fn inv(self) -> bool {
        keys_increasing(self.entries@)
    }

    /// An empty map.
    pub fn new() -> (m: FieldMap)
        ensures
            m@.len() == 0,
    {
        FieldMap { entries: Vec::new() }
    }

    /// The number of fields.
    pub fn len(&self) -> (n: usize)
        ensures
            n == self@.len(),
    {
        self.entries.len()
    }

    /// Whether there are no fields.
    pub fn is_empty(&self) -> (b: bool)
        ensures
            b == (self@.len() == 0),
    {
        self.entries.len() == 0
    }

    /// The entries in ascending key order.
    pub fn entries(&self) -> (r: &Vec<(String, FieldValue)>)
        ensures
            r@ == self@,
            keys_increasing(self@),
    {
        proof {
            use_type_invariant(self);
        }
        &self.entries
    }

    /// The position of the entry with the given key, if any.
    pub fn position(&self, key: &str) -> (r: Option<usize>)
        ensures
            r matches Some(i) ==> i < self@.len() && self@[i as int].0@ == key@,
            r is None ==> !has_key(self@, key@),
    {
        let n = self.entries.len();
        let mut i: usize = 0;
        while i < n
            invariant
                n == self@.len(),
                i <= n,
                forall|j: int| 0 <= j < i ==> self@[j].0@ != key@,
            decreases n - i,
        {
            if crate::text::text_eq(self.entries[i].0.as_str(), key) {
                return Some(i);
            }
            i = i + 1;
        }
        None
    }

    /// Whether a field with the given key is present.
    pub fn contains_key(&self, key: &str) -> (b: bool)
        ensures
            b == has_key(self@, key@),
    {
        self.position(key).is_some()
    }

    /// The value stored under the key, if any.
    pub fn get(&self, key: &str) -> (r: Option<&FieldValue>)
        ensures
            r matches Some(v) ==> exists|i: int|
                0 <= i < self@.len() && self@[i].0@ == key@ && self@[i].1 == *v,
            r matches Some(v) ==> forall|i: int|
                0 <= i < self@.len() && #[trigger] self@[i].0@ == key@ ==> self@[i].1 == *v,
            r is None ==> !has_key(self@, key@),
    {
        proof {
            use_type_invariant(self);
        }
        match self.position(key) {
            Some(i) => {
                proof {
                    assert forall|j: int| 0 <= j < self@.len() && #[trigger] self@[j].0@ == key@ implies self@[j].1
                        == self@[i as int].1 by {
                        lemma_key_unique(self@, i as int, j);
                    }
                }
                Some(&self.entries[i].1)
            },
            None => None,
        }
    }

    /// Stores a value under a key, replacing the value already stored there;
    /// a new key goes to its place in ascending order.
    #[verifier::spinoff_prover]
    pub fn insert(&mut self, key: String, value: FieldValue)
        ensures
            keys_increasing(final(self)@),
            exists|i: int| 0 <= i < final(self)@.len() && final(self)@[i].0@ == key@ && final(self)@[i].1 == value,
            forall|k: Seq<char>| #[trigger] has_key(final(self)@, k) <==> has_key(old(self)@, k) || k == key@,
            has_key(old(self)@, key@) ==> exists|i: int|
                0 <= i < old(self)@.len() && old(self)@[i].0@ == key@
                    && final(self)@ == old(self)@.update(i, (key, value)),
            !has_key(old(self)@, key@) ==> exists|p: int|
                0 <= p <= old(self)@.len() && final(self)@ == old(self)@.insert(p, (key, value)),
    {
        proof {
            use_type_invariant(&*self);
        }
        let ghost entry = (key, value);
        let mut entries: Vec<(String, FieldValue)> = Vec::new();
        std::mem::swap(&mut entries, &mut self.entries);
        let ghost old_entries = entries@;
        assert(old_entries == old(self)@);
        let n = entries.len();
        let mut i: usize = 0;
        while i < n
            invariant
                n == entries@.len(),
                entries@ == old_entries,
                old_entries == old(self)@,
                keys_increasing(old_entries),
                entry == (key, value),
                i <= n,
                forall|j: int| 0 <= j < i ==> text_lt(old_entries[j].0@, key@),
            ensures
                i <= n,
                forall|j: int| 0 <= j < i ==> text_lt(old_entries[j].0@, key@),
                i < n ==> text_lt(key@, old_entries[i as int].0@),
            decreases n - i,
        {
            match compare_text(entries[i].0.as_str(), key.as_str()) {
                TextOrder::Less => {
                    i = i + 1;
                },
                TextOrder::Equal => {
                    proof {
                        lemma_update_same_key(old_entries, i as int, entry);
                    }
                    entries.set(i, (key, value));
                    self.entries = entries;
                    proof {
                        assert(self@[i as int] == entry);
                        assert(self@ == old_entries.update(i as int, entry));
                    }
                    return;
                },
                TextOrder::Greater => {
                    break;
                },
            }
        }
        proof {
            lemma_insert_sorted(old_entries, i as int, entry);
        }
        entries.insert(i, (key, value));
        self.entries = entries;
        proof {
            assert(self@[i as int] == entry);
        }
    }
}

impl Clone for FieldMap {
    /// A copy with the same entries in the same order.
    fn clone(&self) -> (c: Self)
        ensures
            same_entries(c@, self@),
    {
        proof {
            use_type_invariant(self);
        }
        let n = self.entries.len();
        let mut entries: Vec<(String, FieldValue)> = Vec::new();
        let mut i: usize = 0;
        while i < n
            invariant
                n == self.entries@.len(),
                keys_increasing(self.entries@),
                i <= n,
                entries@.len() == i,
                forall|j: int|
                    0 <= j < i ==> #[trigger] entries@[j].0 == self.entries@[j].0 && same_value(
                        entries@[j].1,
                        self.entries@[j].1,
                    ),
            decreases n - i,
        {
            let key = self.entries[i].0.clone();
            let value = self.entries[i].1.clone();
            entries.push((key, value));
            i = i + 1;
        }
        FieldMap { entries }
    }
}

} // verus!
