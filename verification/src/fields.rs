//! Command fields: an ordered set of `key=value` pairs and its text.
//!
//! A field set keeps its fields in the order in which their keys were first
//! inserted, and holds each key at most once. Its text is therefore the same
//! for the same sequence of insertions.
//!
//! Keys and character values are written as they are. Nothing here rejects a
//! key or a value that would break the frame around it (a `;`, a `,`, an
//! escape character): callers that take keys from elsewhere must check them.

use vstd::prelude::*;
use crate::value::KittyImageCmdValue;

verus! {

/// One field: its key and its value.
pub type Field = (char, KittyImageCmdValue);

/// The position of the first field of `fields` with the key `key`, or the
/// length of `fields` where no field has that key.
pub open spec fn index_of(fields: Seq<Field>, key: char) -> int
    decreases fields.len(),
{
    if fields.len() == 0 {
        0
    } else if fields.first().0 == key {
        0
    } else {
        1 + index_of(fields.drop_first(), key)
    }
}

/// Whether some field of `fields` has the key `key`.
pub open spec fn has_key(fields: Seq<Field>, key: char) -> bool {
    index_of(fields, key) < fields.len()
}

/// The value of the first field with the key `key`, if there is one.
pub open spec fn lookup(fields: Seq<Field>, key: char) -> Option<KittyImageCmdValue> {
    if has_key(fields, key) {
        Some(fields[index_of(fields, key)].1)
    } else {
        None
    }
}

/// `fields` with `key` set to `value`: in place where the key is present, at
/// the end where it is not.
pub open spec fn with_field(fields: Seq<Field>, key: char, value: KittyImageCmdValue) -> Seq<
    Field,
> {
    if has_key(fields, key) {
        fields.update(index_of(fields, key), (key, value))
    } else {
        fields.push((key, value))
    }
}

/// `fields` without its first field of key `key`; the others keep their order.
pub open spec fn without_key(fields: Seq<Field>, key: char) -> Seq<Field> {
    if has_key(fields, key) {
        fields.remove(index_of(fields, key))
    } else {
        fields
    }
}

/// No two fields of `fields` have the same key.
pub open spec fn unique_keys(fields: Seq<Field>) -> bool {
    forall|i: int, j: int| 0 <= i < j < fields.len() ==> fields[i].0 != fields[j].0
}

/// The text of one field: `,key=value`.
pub open spec fn segment(field: Field) -> Seq<char> {
    seq![',', field.0, '='] + field.1.text()
}

/// The text of a sequence of fields: the segments of its fields, one after
/// the other in the sequence's order.
pub open spec fn serialize(fields: Seq<Field>) -> Seq<char>
    decreases fields.len(),
{
    if fields.len() == 0 {
        Seq::empty()
    } else {
        serialize(fields.drop_last()) + segment(fields.last())
    }
}

/// What `index_of` finds: within bounds it is the first position that holds
/// the key, and at the length no position holds it.
pub proof fn lemma_index_of(fields: Seq<Field>, key: char)
    ensures
        0 <= index_of(fields, key) <= fields.len(),
        has_key(fields, key) ==> fields[index_of(fields, key)].0 == key,
        forall|j: int| 0 <= j < index_of(fields, key) ==> fields[j].0 != key,
    decreases fields.len(),
{
    if fields.len() > 0 && fields.first().0 != key {
        let rest = fields.drop_first();
        lemma_index_of(rest, key);
        assert forall|j: int| 0 <= j < index_of(fields, key) implies fields[j].0 != key by {
            if j > 0 {
                assert(fields[j] == rest[j - 1]);
            }
        }
    }
}

/// A position that holds the key, with no earlier one that does, is the one
/// that `index_of` finds.
pub proof fn lemma_index_of_first(fields: Seq<Field>, key: char, i: int)
    requires
        0 <= i < fields.len(),
        fields[i].0 == key,
        forall|j: int| 0 <= j < i ==> fields[j].0 != key,
    ensures
        index_of(fields, key) == i,
{
    lemma_index_of(fields, key);
}

/// Where no field holds the key, `index_of` is the length.
pub proof fn lemma_index_of_absent(fields: Seq<Field>, key: char)
    requires
        forall|j: int| 0 <= j < fields.len() ==> fields[j].0 != key,
    ensures
        !has_key(fields, key),
{
    lemma_index_of(fields, key);
}

/// Setting a key keeps the keys unique.
pub proof fn lemma_with_field_unique(fields: Seq<Field>, key: char, value: KittyImageCmdValue)
    requires
        unique_keys(fields),
    ensures
        unique_keys(with_field(fields, key, value)),
        with_field(fields, key, value).len() > 0,
        has_key(with_field(fields, key, value), key),
        lookup(with_field(fields, key, value), key) == Some(value),
{
    lemma_index_of(fields, key);
    let after = with_field(fields, key, value);
    if has_key(fields, key) {
        let at = index_of(fields, key);
        assert forall|j: int| 0 <= j < at implies after[j].0 != key by {}
        lemma_index_of_first(after, key, at);
    } else {
        lemma_index_of_first(after, key, fields.len() as int);
    }
}

/// Removing a key keeps the keys unique, and the key is then absent.
pub proof fn lemma_without_key_unique(fields: Seq<Field>, key: char)
    requires
        unique_keys(fields),
    ensures
        unique_keys(without_key(fields, key)),
        !has_key(without_key(fields, key), key),
        forall|j: int| 0 <= j < without_key(fields, key).len() ==> without_key(fields, key)[j].0 != key,
{
    lemma_index_of(fields, key);
    let after = without_key(fields, key);
    if has_key(fields, key) {
        let at = index_of(fields, key);
        assert forall|j: int| 0 <= j < after.len() implies after[j].0 != key by {
            if j < at {
                assert(after[j] == fields[j]);
            } else {
                assert(after[j] == fields[j + 1]);
            }
        }
        assert forall|i: int, j: int| 0 <= i < j < after.len() implies after[i].0 != after[j].0 by {
            let from_i = if i < at { i } else { i + 1 };
            let from_j = if j < at { j } else { j + 1 };
            assert(after[i] == fields[from_i]);
            assert(after[j] == fields[from_j]);
        }
    }
    lemma_index_of_absent(after, key);
}

/// An ordered set of command fields.
///
/// The fields stand in the order in which their keys were first inserted,
/// and no key occurs twice.
#[derive(Debug, Clone)]
pub struct KittyImageFields {
    entries: Vec<Field>,
}

impl View for KittyImageFields {
    type V = Seq<Field>;

    closed spec fn view(&self) -> Seq<Field> {
        self.entries@
    }
}

impl KittyImageFields {
    /// What holds of every field set that this module hands out: no key
    /// occurs twice.
    pub open spec fn wf(&self) -> bool {
        unique_keys(self@)
    }

    /// The empty field set.
    pub fn new() -> (fields: Self)
        ensures
            fields.wf(),
            fields@ == Seq::<Field>::empty(),
    {
        KittyImageFields { entries: Vec::new() }
    }

    /// The number of fields.
    pub fn len(&self) -> (n: usize)
        ensures
            n == self@.len(),
    {
        self.entries.len()
    }

    /// Whether the set holds no field.
    pub fn is_empty(&self) -> (empty: bool)
        ensures
            empty == (self@.len() == 0),
    {
        self.entries.len() == 0
    }

    /// The position of the field with the key `key`.
    fn position(&self, key: char) -> (at: usize)
        ensures
            at == index_of(self@, key),
            at <= self@.len(),
    {
        let mut i: usize = 0;
        while i < self.entries.len()
            invariant
                i <= self.entries@.len(),
                forall|j: int| 0 <= j < i ==> self.entries@[j].0 != key,
            decreases self.entries@.len() - i,
        {
            if self.entries[i].0 == key {
                proof {
                    lemma_index_of_first(self.entries@, key, i as int);
                }
                return i;
            }
            i += 1;
        }
        proof {
            lemma_index_of(self.entries@, key);
            lemma_index_of_absent(self.entries@, key);
        }
        i
    }

    /// Whether a field with the key `key` is present.
    pub fn contains_key(&self, key: char) -> (present: bool)
        ensures
            present == has_key(self@, key),
    {
        self.position(key) < self.entries.len()
    }

    /// The value of the field with the key `key`, if it is present.
    pub fn get(&self, key: char) -> (value: Option<KittyImageCmdValue>)
        ensures
            value == lookup(self@, key),
    {
        let at = self.position(key);
        if at < self.entries.len() {
            Some(self.entries[at].1)
        } else {
            None
        }
    }

    /// The field at position `at`, in insertion order.
    pub fn field_at(&self, at: usize) -> (field: Option<Field>)
        ensures
            field == (if at < self@.len() {
                Some(self@[at as int])
            } else {
                None
            }),
    {
        if at < self.entries.len() {
            Some(self.entries[at])
        } else {
            None
        }
    }

    /// Sets the field `key` to `value` and returns the value it had before.
    ///
    /// A key that is already present keeps its place; a new key goes to the
    /// end.
    pub fn insert(&mut self, key: char, value: KittyImageCmdValue) -> (previous: Option<
        KittyImageCmdValue,
    >)
        requires
            old(self).wf(),
        ensures
            final(self).wf(),
            final(self)@ == with_field(old(self)@, key, value),
            previous == lookup(old(self)@, key),
    {
        proof {
            lemma_with_field_unique(self.entries@, key, value);
        }
        let at = self.position(key);
        if at < self.entries.len() {
            let previous = self.entries[at].1;
            self.entries[at] = (key, value);
            Some(previous)
        } else {
            self.entries.push((key, value));
            None
        }
    }

    /// Takes the field `key` out of the set and returns its value, if it was
    /// present. The other fields keep their order.
    pub fn remove(&mut self, key: char) -> (removed: Option<KittyImageCmdValue>)
        requires
            old(self).wf(),
        ensures
            final(self).wf(),
            final(self)@ == without_key(old(self)@, key),
            removed == lookup(old(self)@, key),
    {
        proof {
            lemma_without_key_unique(self.entries@, key);
        }
        let at = self.position(key);
        if at < self.entries.len() {
            let field = self.entries.remove(at);
            Some(field.1)
        } else {
            None
        }
    }

    /// The text of the field set: a `,key=value` segment for each field, in
    /// insertion order. The text depends on nothing but the fields and their
    /// order.
    pub fn serialize(&self) -> (text: String)
        ensures
            text@ == serialize(self@),
    {
        let mut text = String::new();
        self.write_to(&mut text);
        text
    }

    /// Appends the text of the field set to `out`.
    pub fn write_to(&self, out: &mut String)
        ensures
            final(out)@ == old(out)@ + serialize(self@),
    {
        let mut i: usize = 0;
        while i < self.entries.len()
            invariant
                i <= self.entries@.len(),
                out@ == old(out)@ + serialize(self.entries@.take(i as int)),
            decreases self.entries@.len() - i,
        {
            let field = self.entries[i];
            let ghost before = out@;
            out.push(',');
            out.push(field.0);
            out.push('=');
            field.1.write_to(out);
            proof {
                let taken = self.entries@.take(i + 1);
                assert(taken.drop_last() =~= self.entries@.take(i as int));
                assert(taken.last() == field);
                assert(out@ =~= before + segment(field));
                assert(out@ =~= old(out)@ + serialize(taken));
            }
            i += 1;
        }
        assert(self.entries@.take(i as int) =~= self.entries@);
    }
}

} // verus!
