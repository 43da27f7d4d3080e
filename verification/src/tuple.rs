//! Tuples of the heap file: a sequence of fields, and the place of the tuple
//! in the file once it has one.

use crate::text::{decimal, integer_text};
use vstd::prelude::*;
use vstd::string::StringExecFns;

verus! {

/// Where a tuple lies: a page and a position in it.
#[derive(Debug, Clone, PartialEq)]
pub struct RecordId {
    pub page_number: u32,
    pub position: u32,
}

/// One field of a tuple.
#[derive(Debug, Clone, PartialEq)]
pub enum Field {
    Integer(i32),
    String(String),
}

impl Field {
    /// The field as text: an integer in decimal, a string between double
    /// quotes.
    pub open spec fn text(&self) -> Seq<char> {
        match self {
            Field::Integer(value) => decimal(*value as int),
            Field::String(value) => "\""@ + value@ + "\""@,
        }
    }

    /// The field as text.
    pub fn to_text(&self) -> (text: String)
        ensures
            text@ == self.text(),
    {
        match self {
            Field::Integer(value) => integer_text(*value as i64),
            Field::String(value) => {
                let mut text = String::from_str("\"");
                text.append(value.as_str());
                text.append("\"");
                text
            },
        }
    }
}

/// The fields as text, separated by a comma and a space.
pub open spec fn fields_text(fields: Seq<Field>) -> Seq<char>
    decreases fields.len(),
{
    if fields.len() == 0 {
        Seq::empty()
    } else if fields.len() == 1 {
        fields[0].text()
    } else {
        fields_text(fields.drop_last()) + ", "@ + fields.last().text()
    }
}

/// A tuple: its fields in order, and its record id if it has been stored.
#[derive(Debug, Clone, PartialEq)]
pub struct Tuple {
    record_id: Option<RecordId>,
    fields: Vec<Field>,
}

impl Tuple {
    /// The record id of the tuple, if it has one.
    pub closed spec fn record_id(&self) -> Option<RecordId> {
        self.record_id
    }

    /// The fields of the tuple, in order.
    pub closed spec fn fields(&self) -> Seq<Field> {
        self.fields@
    }

    /// A tuple with this record id and these fields.
    pub fn new(record_id: Option<RecordId>, fields: Vec<Field>) -> (tuple: Self)
        ensures
            tuple.record_id() == record_id,
            tuple.fields() == fields@,
    {
        Tuple { record_id, fields }
    }

    /// The record id, if the tuple has one.
    pub fn get_record_id(&self) -> (id: Option<&RecordId>)
        ensures
            id == match self.record_id() {
                Some(record_id) => Some(&record_id),
                None => None,
            },
    {
        self.record_id.as_ref()
    }

    /// All fields, in order.
    pub fn get_fields(&self) -> (fields: &Vec<Field>)
        ensures
            fields@ == self.fields(),
    {
        &self.fields
    }

    /// Gives the tuple this record id; the fields stay.
    pub fn set_record_id(&mut self, record_id: RecordId)
        ensures
            final(self).record_id() == Some(record_id),
            final(self).fields() == old(self).fields(),
    {
        self.record_id = Some(record_id);
    }

    /// Appends a field; the record id and the fields before it stay.
    pub fn add_field(&mut self, field: Field)
        ensures
            final(self).record_id() == old(self).record_id(),
            final(self).fields() == old(self).fields().push(field),
    {
        self.fields.push(field);
    }

    /// The field at `index`, or `None` past the last field.
    pub fn get_field(&self, index: usize) -> (field: Option<&Field>)
        ensures
            field == if index < self.fields().len() {
                Some(&self.fields()[index as int])
            } else {
                None
            },
    {
        if index < self.fields.len() {
            Some(&self.fields[index])
        } else {
            None
        }
    }

    /// The tuple as text: the record id, or a note that there is none, then
    /// the fields, all between `Tuple(` and `)`.
    pub open spec fn text(&self) -> Seq<char> {
        "Tuple("@ + match self.record_id() {
            Some(id) => "RecordId("@ + decimal(id.page_number as int) + ", "@ + decimal(
                id.position as int,
            ) + "), "@,
            None => "No RecordId, "@,
        } + fields_text(self.fields()) + ")"@
    }

    /// The tuple as text.
    pub fn to_text(&self) -> (text: String)
        ensures
            text@ == self.text(),
    {
        let mut text = String::from_str("Tuple(");
        match &self.record_id {
            Some(id) => {
                text.append("RecordId(");
                text.append(integer_text(id.page_number as i64).as_str());
                text.append(", ");
                text.append(integer_text(id.position as i64).as_str());
                text.append("), ");
            },
            None => {
                text.append("No RecordId, ");
            },
        }
        let ghost head = text@;
        assert(fields_text(self.fields@.take(0)) =~= Seq::<char>::empty());
        assert(text@ =~= head + fields_text(self.fields@.take(0)));
        let mut i: usize = 0;
        while i < self.fields.len()
            invariant
                i <= self.fields@.len(),
                text@ == head + fields_text(self.fields@.take(i as int)),
            decreases self.fields@.len() - i,
        {
            let ghost done = self.fields@.take(i as int);
            let ghost next = self.fields@.take(i + 1);
            assert(next.drop_last() =~= done);
            assert(next.last() == self.fields@[i as int]);
            if i > 0 {
                text.append(", ");
            }
            text.append(self.fields[i].to_text().as_str());
            assert(text@ =~= head + fields_text(next));
            i += 1;
        }
        assert(self.fields@.take(self.fields@.len() as int) =~= self.fields@);
        text.append(")");
        assert(text@ =~= self.text());
        text
    }
}

} // verus!
