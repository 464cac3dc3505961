//! The output of a provider: a record of named fields.

use crate::table::Table;
use vstd::prelude::*;

verus! {

/// What one field of a record holds. A field that the provider could not
/// obtain is present and `Unavailable`; it is never left out.
#[derive(Debug, PartialEq, Eq)]
pub enum FieldValue {
    Unavailable,
    Flag(bool),
    Number(i64),
    Text(String),
}

impl Clone for FieldValue {
    fn clone(&self) -> (r: Self)
        ensures
            r == *self,
    {
        match self {
            FieldValue::Unavailable => FieldValue::Unavailable,
            FieldValue::Flag(b) => FieldValue::Flag(*b),
            FieldValue::Number(n) => FieldValue::Number(*n),
            FieldValue::Text(s) => FieldValue::Text(s.clone()),
        }
    }
}

impl FieldValue {
    pub fn is_available(&self) -> (b: bool)
        ensures
            b == !(*self is Unavailable),
    {
        match self {
            FieldValue::Unavailable => false,
            _ => true,
        }
    }
}

/// A record: field names, each with one value. Its model is the map from
/// the text of a name to the value.
#[derive(Debug)]
pub struct Record {
    fields: Table<FieldValue>,
}

impl View for Record {
    type V = Map<Seq<char>, FieldValue>;

    closed spec fn view(&self) -> Map<Seq<char>, FieldValue> {
        self.fields@
    }
}

impl Record {
    pub closed spec fn wf(self) -> bool {
        self.fields.wf()
    }

    /// The field names in the order in which the record holds them.
    pub closed spec fn names(self) -> Seq<Seq<char>> {
        self.fields.keys()
    }

    /// The names of a record are its fields, each once.
    pub proof fn lemma_names(self)
        requires
            self.wf(),
        ensures
            self.names().no_duplicates(),
            self.names().to_set() == self@.dom(),
            self@.dom().finite(),
            self@.dom().len() == self.names().len(),
    {
        self.fields.lemma_entries();
    }

    pub fn new() -> (r: Self)
        ensures
            r.wf(),
            r@ == Map::<Seq<char>, FieldValue>::empty(),
            r.names() == Seq::<Seq<char>>::empty(),
    {
        Record { fields: Table::new() }
    }

    /// Gives the field `name` the value `value`, whether or not the record
    /// had such a field.
    pub fn set(&mut self, name: String, value: FieldValue)
        requires
            old(self).wf(),
        ensures
            final(self).wf(),
            final(self)@ == old(self)@.insert(name@, value),
            old(self)@.dom().contains(name@) ==> final(self).names() == old(self).names(),
            !old(self)@.dom().contains(name@) ==> final(self).names() == old(self).names().push(name@),
    {
        self.fields.insert(name, value);
    }

    pub fn get(&self, name: &str) -> (r: Option<&FieldValue>)
        requires
            self.wf(),
        ensures
            r == (if self@.dom().contains(name@) {
                Some(&self@[name@])
            } else {
                None
            }),
    {
        self.fields.get(name)
    }

    /// The number of fields.
    pub fn len(&self) -> (n: usize)
        requires
            self.wf(),
        ensures
            n == self.names().len(),
            n == self@.dom().len(),
    {
        self.fields.len()
    }

    /// The name of the field at position `i`.
    pub fn name_at(&self, i: usize) -> (name: &String)
        requires
            self.wf(),
            i < self.names().len(),
        ensures
            name@ == self.names()[i as int],
            self@.dom().contains(name@),
    {
        self.fields.key_at(i)
    }

    /// The value of the field at position `i`.
    pub fn value_at(&self, i: usize) -> (value: &FieldValue)
        requires
            self.wf(),
            i < self.names().len(),
        ensures
            *value == self@[self.names()[i as int]],
    {
        self.fields.value_at(i)
    }
}

} // verus!
