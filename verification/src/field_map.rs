//! The fields of one section of a message: a map from tag to value that
//! remembers the order in which its tags were first inserted.
//!
//! The order makes the encoder's output a function of the message. What a
//! section means is the map `as_map`; the order never decides what a tag maps
//! to.

use crate::text::bytes_eq;
use crate::wire::Entries;
use vstd::prelude::*;
use vstd::string::StringSliceAdditionalSpecFns;
use vstd::utf8::*;

verus! {

/// Whether some entry has the tag `key`.
pub open spec fn has_key(entries: Entries, key: Seq<u8>) -> bool {
    exists|i: int| 0 <= i < entries.len() && (#[trigger] entries[i]).0 == key
}

/// The place of an entry with the tag `key`.
pub open spec fn key_index(entries: Entries, key: Seq<u8>) -> int {
    choose|i: int| 0 <= i < entries.len() && (#[trigger] entries[i]).0 == key
}

/// The value that `key` maps to.
pub open spec fn value_of(entries: Entries, key: Seq<u8>) -> Seq<u8>
    recommends
        has_key(entries, key),
{
    entries[key_index(entries, key)].1
}

/// No tag occurs twice.
pub open spec fn distinct_keys(entries: Entries) -> bool {
    forall|i: int, j: int|
        0 <= i < j < entries.len() ==> (#[trigger] entries[i]).0 != (#[trigger] entries[j]).0
}

/// The entries after `key` has been made to map to `value`: the value is
/// replaced in place where the tag is present, and the entry is added at the
/// end where it is not.
pub open spec fn put(entries: Entries, key: Seq<u8>, value: Seq<u8>) -> Entries {
    if has_key(entries, key) {
        entries.update(key_index(entries, key), (key, value))
    } else {
        entries.push((key, value))
    }
}

/// The entries as a map, without their order.
pub open spec fn as_map(entries: Entries) -> Map<Seq<u8>, Seq<u8>> {
    Map::new(|key: Seq<u8>| has_key(entries, key), |key: Seq<u8>| value_of(entries, key))
}

/// Where no tag occurs twice, the place of a tag is the one place that holds
/// it.
pub proof fn lemma_key_index(entries: Entries, key: Seq<u8>, at: int)
    requires
        distinct_keys(entries),
        0 <= at < entries.len(),
        entries[at].0 == key,
    ensures
        has_key(entries, key),
        key_index(entries, key) == at,
        value_of(entries, key) == entries[at].1,
{
    let found = key_index(entries, key);
    assert(0 <= found < entries.len() && entries[found].0 == key);
    if found < at {
        assert(entries[found].0 != entries[at].0);
    } else if at < found {
        assert(entries[at].0 != entries[found].0);
    }
}

/// `put` keeps the tags distinct, makes `key` map to `value`, and leaves what
/// the other tags map to.
pub proof fn lemma_put(entries: Entries, key: Seq<u8>, value: Seq<u8>)
    requires
        distinct_keys(entries),
    ensures
        distinct_keys(put(entries, key, value)),
        has_key(put(entries, key, value), key),
        value_of(put(entries, key, value), key) == value,
        forall|other: Seq<u8>|
            other != key ==> has_key(put(entries, key, value), other) == has_key(entries, other),
        forall|other: Seq<u8>|
            other != key && has_key(entries, other) ==> value_of(put(entries, key, value), other)
                == value_of(entries, other),
        as_map(put(entries, key, value)) == as_map(entries).insert(key, value),
{
    let after = put(entries, key, value);
    let at = if has_key(entries, key) {
        key_index(entries, key)
    } else {
        entries.len() as int
    };
    assert(after[at] == (key, value));
    assert forall|i: int, j: int| 0 <= i < j < after.len() implies (#[trigger] after[i]).0 != (
    #[trigger] after[j]).0 by {
        if has_key(entries, key) {
            assert(entries[at].0 == key);
            assert(entries[i].0 != entries[j].0);
        } else if j == entries.len() {
            assert(entries[i].0 != key);
        } else {
            assert(entries[i].0 != entries[j].0);
        }
    }
    lemma_key_index(after, key, at);
    assert forall|other: Seq<u8>| other != key implies has_key(after, other) == has_key(
        entries,
        other,
    ) && (has_key(entries, other) ==> value_of(after, other) == value_of(entries, other)) by {
        if has_key(entries, other) {
            let i = key_index(entries, other);
            assert(after[i] == entries[i]);
            lemma_key_index(entries, other, i);
            lemma_key_index(after, other, i);
        }
        if has_key(after, other) {
            let i = key_index(after, other);
            assert(after[i].0 == other);
            assert(i < entries.len() && entries[i] == after[i]);
        }
    }
    assert(as_map(after) =~= as_map(entries).insert(key, value));
}

/// The fields of one section of a message.
#[derive(Debug)]
pub struct FieldMap {
    entries: Vec<(String, String)>,
}

impl View for FieldMap {
    type V = Entries;

    /// Tag and value of each field as bytes, in the order in which the tags
    /// were first inserted.
    closed spec fn view(&self) -> Entries {
        Seq::new(
            self.entries@.len(),
            |i: int| (encode_utf8(self.entries@[i].0@), encode_utf8(self.entries@[i].1@)),
        )
    }
}

impl FieldMap {
    /// No tag occurs twice.
    #[verifier::type_invariant]
    pub open spec fn well_formed(self) -> bool {
        distinct_keys(self@)
    }

    /// A map without fields.
    pub fn new() -> (map: FieldMap)
        ensures
            map@ == Entries::empty(),
    {
        let map = FieldMap { entries: Vec::new() };
        assert(map@ =~= Entries::empty());
        map
    }

    /// The number of fields.
    pub fn len(&self) -> (n: usize)
        ensures
            n == self@.len(),
    {
        self.entries.len()
    }

    /// Whether the map has no field.
    pub fn is_empty(&self) -> (empty: bool)
        ensures
            empty == (self@.len() == 0),
    {
        self.entries.len() == 0
    }

    /// The tag of the field at `position`.
    pub fn tag_at(&self, position: usize) -> (tag: &String)
        requires
            position < self@.len(),
        ensures
            encode_utf8(tag@) == self@[position as int].0,
    {
        &self.entries[position].0
    }

    /// The value of the field at `position`.
    pub fn value_at(&self, position: usize) -> (value: &String)
        requires
            position < self@.len(),
        ensures
            encode_utf8(value@) == self@[position as int].1,
    {
        &self.entries[position].1
    }

    /// The place of the field with the tag `key`, where there is one.
    fn position(&self, key: &str) -> (found: Option<usize>)
        ensures
            match found {
                Some(at) => at < self@.len() && self@[at as int].0 == key.spec_bytes()
                    && has_key(self@, key.spec_bytes()) && key_index(self@, key.spec_bytes())
                    == at,
                None => !has_key(self@, key.spec_bytes()),
            },
    {
        proof {
            use_type_invariant(self);
        }
        let mut i: usize = 0;
        while i < self.entries.len()
            invariant
                i <= self@.len(),
                self@.len() == self.entries@.len(),
                distinct_keys(self@),
                forall|j: int| 0 <= j < i ==> (#[trigger] self@[j]).0 != key.spec_bytes(),
            decreases self@.len() - i,
        {
            if bytes_eq(self.entries[i].0.as_str().as_bytes(), key.as_bytes()) {
                proof {
                    lemma_key_index(self@, key.spec_bytes(), i as int);
                }
                return Some(i);
            }
            i += 1;
        }
        None
    }

    /// Whether the map has a field with the tag `key`.
    pub fn contains_key(&self, key: &str) -> (present: bool)
        ensures
            present == has_key(self@, key.spec_bytes()),
    {
        self.position(key).is_some()
    }

    /// The value of the field with the tag `key`.
    pub fn get(&self, key: &str) -> (value: Option<&String>)
        ensures
            match value {
                Some(v) => has_key(self@, key.spec_bytes()) && encode_utf8(v@) == value_of(
                    self@,
                    key.spec_bytes(),
                ),
                None => !has_key(self@, key.spec_bytes()),
            },
    {
        match self.position(key) {
            Some(at) => Some(&self.entries[at].1),
            None => None,
        }
    }

    /// Makes `key` map to `value`. A tag that is present keeps its place.
    pub fn insert(&mut self, key: String, value: String)
        ensures
            final(self)@ == put(old(self)@, encode_utf8(key@), encode_utf8(value@)),
    {
        let ghost before = self@;
        let ghost tag = encode_utf8(key@);
        let ghost after = put(before, tag, encode_utf8(value@));
        proof {
            use_type_invariant(&*self);
            lemma_put(before, tag, encode_utf8(value@));
        }
        let found = self.position(key.as_str());
        let mut entries: Vec<(String, String)> = Vec::new();
        proof {
            assert(Seq::new(
                0,
                |i: int| (encode_utf8(entries@[i].0@), encode_utf8(entries@[i].1@)),
            ) =~= Entries::empty());
        }
        core::mem::swap(&mut self.entries, &mut entries);
        match found {
            Some(at) => {
                proof {
                    assert(after =~= before.update(at as int, (tag, encode_utf8(value@))));
                }
                entries[at] = (key, value);
            },
            None => {
                entries.push((key, value));
            },
        }
        proof {
            assert(Seq::new(
                entries@.len(),
                |i: int| (encode_utf8(entries@[i].0@), encode_utf8(entries@[i].1@)),
            ) =~= after);
        }
        self.entries = entries;
    }

    /// Removes every field.
    pub fn clear(&mut self)
        ensures
            final(self)@ == Entries::empty(),
    {
        let entries: Vec<(String, String)> = Vec::new();
        proof {
            assert(Seq::new(
                0,
                |i: int| (encode_utf8(entries@[i].0@), encode_utf8(entries@[i].1@)),
            ) =~= Entries::empty());
        }
        self.entries = entries;
    }
}

} // verus!
