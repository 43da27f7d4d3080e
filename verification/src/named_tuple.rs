//! Tuples whose fields have names: a binding from each name to a field, and
//! the names in the order in which they were given.

use crate::assoc::{
    as_map, has_key, lemma_lookup_put, lemma_map_len, lemma_position_unique,
    lemma_put_is_insert, lemma_put_unique, put, unique_keys,
};
use vstd::prelude::*;
use vstd::std_specs::convert::FromSpecImpl;

verus! {

/// The type of a field.
#[derive(Debug, Clone, PartialEq, Eq, Structural)]
pub enum FieldType {
    Integer,
    String,
}

/// One field of a tuple.
#[derive(Debug, Clone, PartialEq)]
pub enum Field {
    Integer(i32),
    String(String),
}

impl Field {
    /// The type of this field.
    pub open spec fn field_type(&self) -> FieldType {
        match self {
            Field::Integer(_) => FieldType::Integer,
            Field::String(_) => FieldType::String,
        }
    }
}

impl From<i32> for Field {
    fn from(value: i32) -> (field: Field) {
        Field::Integer(value)
    }
}

impl FromSpecImpl<i32> for Field {
    open spec fn obeys_from_spec() -> bool {
        true
    }

    open spec fn from_spec(value: i32) -> Field {
        Field::Integer(value)
    }
}

impl<'a> From<&'a str> for Field {
    fn from(value: &'a str) -> (field: Field)
        ensures
            field matches Field::String(text) && text@ == value@,
    {
        Field::String(value.to_owned())
    }
}

impl<'a> FromSpecImpl<&'a str> for Field {
    open spec fn obeys_from_spec() -> bool {
        false
    }

    open spec fn from_spec(value: &'a str) -> Field {
        arbitrary()
    }
}

/// One field as it is given to [`Tuple::new`]: its name, its declared type
/// and its value.
pub type Column<'a> = (&'a str, FieldType, Field);

/// The names of the columns, in order.
pub open spec fn column_names<'a>(columns: Seq<Column<'a>>) -> Seq<Seq<char>> {
    Seq::new(columns.len(), |i: int| columns[i].0@)
}

/// The bindings that the columns make when they are taken in order: a name
/// that comes again gets the later value and keeps its place.
pub open spec fn column_bindings<'a>(columns: Seq<Column<'a>>) -> Seq<(Seq<char>, Field)>
    decreases columns.len(),
{
    if columns.len() == 0 {
        Seq::empty()
    } else {
        put(column_bindings(columns.drop_last()), columns.last().0@, columns.last().2)
    }
}

/// Every column's value has the type that the column declares.
pub open spec fn well_typed<'a>(columns: Seq<Column<'a>>) -> bool {
    forall|i: int| 0 <= i < columns.len() ==> (#[trigger] columns[i]).2.field_type() == columns[i].1
}

/// A tuple of named fields.
#[derive(Debug, Clone, PartialEq)]
pub struct Tuple {
    fields: Vec<(String, Field)>,
    field_order: Vec<String>,
}

impl Tuple {
    /// The bindings of the tuple, each name once, in the order in which the
    /// names first came.
    pub closed spec fn bindings(&self) -> Seq<(Seq<char>, Field)> {
        Seq::new(self.fields@.len(), |i: int| (self.fields@[i].0@, self.fields@[i].1))
    }

    /// The names as they were given, a repeated name as often as it came.
    pub closed spec fn order(&self) -> Seq<Seq<char>> {
        Seq::new(self.field_order@.len(), |i: int| self.field_order@[i]@)
    }

    /// The mapping from name to field.
    pub open spec fn fields(&self) -> Map<Seq<char>, Field> {
        as_map(self.bindings())
    }

    /// The invariants of a tuple: no name is bound twice, and every name in
    /// the order is bound.
    pub open spec fn wf(&self) -> bool {
        &&& unique_keys(self.bindings())
        &&& forall|i: int|
            0 <= i < self.order().len() ==> has_key(self.bindings(), #[trigger] self.order()[i])
    }

    /// The place of the binding of this name, if there is one.
    fn find(&self, name: &String) -> (found: Option<usize>)
        ensures
            match found {
                Some(i) => i < self.fields@.len() && self.bindings()[i as int].0 == name@,
                None => !has_key(self.bindings(), name@),
            },
    {
        let mut i: usize = 0;
        while i < self.fields.len()
            invariant
                i <= self.fields@.len(),
                forall|k: int| 0 <= k < i ==> (#[trigger] self.bindings()[k]).0 != name@,
            decreases self.fields@.len() - i,
        {
            if self.fields[i].0 == *name {
                return Some(i);
            }
            i += 1;
        }
        None
    }

    /// Binds `name` to `value`: a bound name gets the new value, a new name
    /// goes to the end.
    fn bind(&mut self, name: String, value: Field)
        requires
            unique_keys(old(self).bindings()),
        ensures
            final(self).order() == old(self).order(),
            final(self).bindings() == put(old(self).bindings(), name@, value),
    {
        let ghost before = self.bindings();
        match self.find(&name) {
            Some(i) => {
                proof {
                    lemma_position_unique(before, i as int);
                }
                self.fields[i] = (name, value);
                assert(self.bindings() =~= before.update(i as int, (name@, value)));
            },
            None => {
                self.fields.push((name, value));
                assert(self.bindings() =~= before.push((name@, value)));
            },
        }
    }

    /// A tuple of these columns, taken in order.
    pub fn new(fields: Vec<Column<'_>>) -> (tuple: Self)
        requires
            well_typed(fields@),
        ensures
            tuple.wf(),
            tuple.bindings() == column_bindings(fields@),
            tuple.order() == column_names(fields@),
    {
        let ghost columns = fields@;
        let mut tuple = Tuple { fields: Vec::new(), field_order: Vec::new() };
        assert(tuple.bindings() =~= column_bindings(columns.take(0)));
        assert(tuple.order() =~= column_names(columns.take(0)));
        for column in it: fields
            invariant
                it.seq() == columns,
                tuple.wf(),
                tuple.bindings() == column_bindings(columns.take(it.index() as int)),
                tuple.order() == column_names(columns.take(it.index() as int)),
        {
            let ghost done = columns.take(it.index() as int);
            let ghost next = columns.take(it.index() + 1);
            let (name, _, value) = column;
            proof {
                assert(next.drop_last() =~= done);
                assert(next.last() == columns[it.index() as int]);
                lemma_put_unique(tuple.bindings(), name@, value);
            }
            let ghost before = tuple.bindings();
            let ghost order_before = tuple.order();
            tuple.bind(name.to_owned(), value);
            tuple.field_order.push(name.to_owned());
            proof {
                assert(column == columns[it.index() as int]);
                assert(tuple.order() =~= order_before.push(name@));
                assert(order_before.push(name@) =~= column_names(next));
                assert forall|i: int| 0 <= i < tuple.order().len() implies has_key(
                    tuple.bindings(),
                    #[trigger] tuple.order()[i],
                ) by {
                    lemma_lookup_put(before, name@, value, tuple.order()[i]);
                    if i < order_before.len() {
                        assert(tuple.order()[i] == order_before[i]);
                        assert(has_key(before, order_before[i]));
                    }
                }
            }
        }
        assert(columns.take(columns.len() as int) =~= columns);
        tuple
    }

    /// The number of bound names: a name that was given twice counts once.
    pub fn field_count(&self) -> (count: usize)
        requires
            self.wf(),
        ensures
            self.fields().dom().finite(),
            count == self.fields().len(),
    {
        proof {
            lemma_map_len(self.bindings());
        }
        self.fields.len()
    }

    /// The field bound to `name`, or `None` where the name is not bound.
    pub fn get_field(&self, name: &str) -> (field: Option<&Field>)
        requires
            self.wf(),
        ensures
            field == if self.fields().contains_key(name@) {
                Some(&self.fields()[name@])
            } else {
                None
            },
    {
        match self.find(&name.to_owned()) {
            Some(i) => {
                proof {
                    lemma_position_unique(self.bindings(), i as int);
                }
                Some(&self.fields[i].1)
            },
            None => None,
        }
    }

    /// Gives a bound name a new value and returns `true`; leaves the tuple as
    /// it is and returns `false` where the name is not bound.
    pub fn set_field(&mut self, name: &str, value: Field) -> (changed: bool)
        requires
            old(self).wf(),
        ensures
            final(self).wf(),
            changed == old(self).fields().contains_key(name@),
            final(self).order() == old(self).order(),
            final(self).bindings() == if changed {
                put(old(self).bindings(), name@, value)
            } else {
                old(self).bindings()
            },
            final(self).fields() == if changed {
                old(self).fields().insert(name@, value)
            } else {
                old(self).fields()
            },
    {
        let ghost before = self.bindings();
        let owned = name.to_owned();
        if self.find(&owned).is_some() {
            proof {
                lemma_put_unique(before, name@, value);
                lemma_put_is_insert(before, name@, value);
            }
            self.bind(owned, value);
            proof {
                assert forall|i: int| 0 <= i < self.order().len() implies has_key(
                    self.bindings(),
                    #[trigger] self.order()[i],
                ) by {
                    lemma_lookup_put(before, name@, value, self.order()[i]);
                    assert(has_key(before, old(self).order()[i]));
                }
            }
            true
        } else {
            false
        }
    }

    /// The names in the order in which they were given.
    pub fn field_names(&self) -> (names: Vec<&str>)
        ensures
            names@.len() == self.order().len(),
            forall|i: int| 0 <= i < names@.len() ==> (#[trigger] names@[i])@ == self.order()[i],
    {
        let mut names: Vec<&str> = Vec::new();
        let mut i: usize = 0;
        while i < self.field_order.len()
            invariant
                i <= self.field_order@.len(),
                names@.len() == i,
                forall|k: int| 0 <= k < i ==> (#[trigger] names@[k])@ == self.order()[k],
            decreases self.field_order@.len() - i,
        {
            names.push(self.field_order[i].as_str());
            i += 1;
        }
        names
    }

    /// The type of the field bound to each name, in the order in which the
    /// names were given.
    pub fn field_types(&self) -> (types: Vec<FieldType>)
        requires
            self.wf(),
        ensures
            types@.len() == self.order().len(),
            forall|i: int|
                0 <= i < types@.len() ==> #[trigger] types@[i] == self.fields()[self.order()[i]].field_type(),
    {
        let mut types: Vec<FieldType> = Vec::new();
        let mut i: usize = 0;
        while i < self.field_order.len()
            invariant
                self.wf(),
                i <= self.field_order@.len(),
                types@.len() == i,
                forall|k: int|
                    0 <= k < i ==> #[trigger] types@[k] == self.fields()[self.order()[k]].field_type(),
            decreases self.field_order@.len() - i,
        {
            assert(has_key(self.bindings(), self.order()[i as int]));
            match self.find(&self.field_order[i]) {
                Some(at) => {
                    proof {
                        lemma_position_unique(self.bindings(), at as int);
                    }
                    let field_type = match self.fields[at].1 {
                        Field::Integer(_) => FieldType::Integer,
                        Field::String(_) => FieldType::String,
                    };
                    types.push(field_type);
                },
                None => {},
            }
            i += 1;
        }
        types
    }
}

} // verus!
