//! Schemas: the names, types and nullability of the fields of records.
use vstd::prelude::*;

use crate::text::{owned, str_eq};
use crate::value::DataType;

verus! {

/// A named, typed field of a schema.
#[derive(Debug)]
pub struct Field {
    name: String,
    data_type: DataType,
    nullable: bool,
}

impl Field {
    pub fn new(name: &str, data_type: DataType, nullable: bool) -> (r: Field)
        ensures
            r.spec_name() == name@,
            r.spec_data_type() == data_type,
            r.spec_nullable() == nullable,
    {
        Field { name: owned(name), data_type, nullable }
    }

    pub closed spec fn spec_name(&self) -> Seq<char> {
        self.name@
    }

    pub closed spec fn spec_data_type(&self) -> DataType {
        self.data_type
    }

    pub closed spec fn spec_nullable(&self) -> bool {
        self.nullable
    }

    pub fn name(&self) -> (r: &str)
        ensures
            r@ == self.spec_name(),
    {
        self.name.as_str()
    }

    pub fn data_type(&self) -> (r: DataType)
        ensures
            r == self.spec_data_type(),
    {
        self.data_type
    }

    pub fn is_nullable(&self) -> (r: bool)
        ensures
            r == self.spec_nullable(),
    {
        self.nullable
    }
}

impl Clone for Field {
    fn clone(&self) -> (r: Field)
        ensures
            r.spec_name() == self.spec_name(),
            r.spec_data_type() == self.spec_data_type(),
            r.spec_nullable() == self.spec_nullable(),
    {
        Field { name: self.name.clone(), data_type: self.data_type, nullable: self.nullable }
    }
}

/// The two fields have the same name, type and nullability.
pub open spec fn same_field(a: Field, b: Field) -> bool {
    a.spec_name() == b.spec_name() && a.spec_data_type() == b.spec_data_type() && a.spec_nullable()
        == b.spec_nullable()
}

/// An ordered list of fields.
#[derive(Debug)]
pub struct Schema {
    fields: Vec<Field>,
}

impl Clone for Schema {
    fn clone(&self) -> (r: Schema)
        ensures
            r.spec_fields().len() == self.spec_fields().len(),
            forall|i: int|
                0 <= i < self.spec_fields().len() ==> same_field(
                    #[trigger] r.spec_fields()[i],
                    self.spec_fields()[i],
                ),
    {
        let mut fields: Vec<Field> = Vec::new();
        let mut i: usize = 0;
        while i < self.fields.len()
            invariant
                i <= self.fields@.len(),
                fields@.len() == i,
                forall|j: int| 0 <= j < i ==> same_field(#[trigger] fields@[j], self.fields@[j]),
            decreases self.fields@.len() - i,
        {
            fields.push(self.fields[i].clone());
            i = i + 1;
        }
        Schema { fields }
    }
}

impl Schema {
    pub fn new(fields: Vec<Field>) -> (r: Schema)
        ensures
            r.spec_fields() == fields@,
    {
        Schema { fields }
    }

    pub closed spec fn spec_fields(&self) -> Seq<Field> {
        self.fields@
    }

    pub fn fields(&self) -> (r: &[Field])
        ensures
            r@ == self.spec_fields(),
    {
        self.fields.as_slice()
    }

    /// The first field named `name`, if any.
    pub fn field(&self, name: &str) -> (r: Option<&Field>)
        ensures
            match r {
                Some(f) => exists|i: int|
                    0 <= i < self.spec_fields().len() && self.spec_fields()[i] == *f
                        && f.spec_name() == name@ && forall|j: int|
                        0 <= j < i ==> (#[trigger] self.spec_fields()[j]).spec_name() != name@,
                None => forall|i: int|
                    0 <= i < self.spec_fields().len() ==> (#[trigger] self.spec_fields()[i]).spec_name()
                        != name@,
            },
    {
        let mut i: usize = 0;
        while i < self.fields.len()
            invariant
                i <= self.fields.len(),
                forall|j: int| 0 <= j < i ==> (#[trigger] self.fields@[j]).spec_name() != name@,
            decreases self.fields.len() - i,
        {
            if str_eq(self.fields[i].name(), name) {
                proof {
                    assert(self.spec_fields()[i as int] == self.fields@[i as int]);
                    assert(forall|j: int|
                        0 <= j < i ==> (#[trigger] self.spec_fields()[j]).spec_name() != name@);
                }
                return Some(&self.fields[i]);
            }
            i = i + 1;
        }
        None
    }
}

} // verus!
