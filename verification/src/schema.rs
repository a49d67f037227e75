//! Column types and the schema that names and types the columns of a batch.

use vstd::prelude::*;
use crate::text::{decimal, decimal_digits, join, lemma_decimal_is_injective};

verus! {

/// The numeric column types that cross the boundary. A value travels as the
/// bit pattern of its type, zero-extended to 64 bits.
#[derive(Clone, Copy, Debug, PartialEq, Eq, Hash, Structural)]
pub enum DataType {
    Int8,
    Int16,
    Int32,
    Int64,
    UInt8,
    UInt16,
    UInt32,
    UInt64,
    Float32,
    Float64,
}

impl DataType {
    /// The number of bytes that one value of the type takes.
    pub open spec fn spec_width(self) -> nat {
        match self {
            DataType::Int8 | DataType::UInt8 => 1,
            DataType::Int16 | DataType::UInt16 => 2,
            DataType::Int32 | DataType::UInt32 | DataType::Float32 => 4,
            DataType::Int64 | DataType::UInt64 | DataType::Float64 => 8,
        }
    }

    /// The largest bit pattern of the type.
    pub open spec fn spec_max_bits(self) -> u64 {
        match self {
            DataType::Int8 | DataType::UInt8 => 0xff,
            DataType::Int16 | DataType::UInt16 => 0xffff,
            DataType::Int32 | DataType::UInt32 | DataType::Float32 => 0xffff_ffff,
            DataType::Int64 | DataType::UInt64 | DataType::Float64 => 0xffff_ffff_ffff_ffff,
        }
    }

    /// The byte that stands for the type on the wire.
    pub open spec fn spec_tag(self) -> u8 {
        match self {
            DataType::Int8 => 1,
            DataType::Int16 => 2,
            DataType::Int32 => 3,
            DataType::Int64 => 4,
            DataType::UInt8 => 5,
            DataType::UInt16 => 6,
            DataType::UInt32 => 7,
            DataType::UInt64 => 8,
            DataType::Float32 => 9,
            DataType::Float64 => 10,
        }
    }

    /// The type that a wire byte stands for, if any.
    pub open spec fn spec_from_tag(tag: u8) -> Option<DataType> {
        if tag == 1 {
            Some(DataType::Int8)
        } else if tag == 2 {
            Some(DataType::Int16)
        } else if tag == 3 {
            Some(DataType::Int32)
        } else if tag == 4 {
            Some(DataType::Int64)
        } else if tag == 5 {
            Some(DataType::UInt8)
        } else if tag == 6 {
            Some(DataType::UInt16)
        } else if tag == 7 {
            Some(DataType::UInt32)
        } else if tag == 8 {
            Some(DataType::UInt64)
        } else if tag == 9 {
            Some(DataType::Float32)
        } else if tag == 10 {
            Some(DataType::Float64)
        } else {
            None
        }
    }

    /// Whether `bits` is a bit pattern of the type.
    pub open spec fn spec_holds(self, bits: u64) -> bool {
        bits <= self.spec_max_bits()
    }

    /// The number of bytes that one value of the type takes.
    pub fn width(self) -> (w: usize)
        ensures
            w == self.spec_width(),
            w == 1 || w == 2 || w == 4 || w == 8,
    {
        match self {
            DataType::Int8 | DataType::UInt8 => 1,
            DataType::Int16 | DataType::UInt16 => 2,
            DataType::Int32 | DataType::UInt32 | DataType::Float32 => 4,
            DataType::Int64 | DataType::UInt64 | DataType::Float64 => 8,
        }
    }

    /// The byte that stands for the type on the wire.
    pub fn tag(self) -> (t: u8)
        ensures
            t == self.spec_tag(),
    {
        match self {
            DataType::Int8 => 1,
            DataType::Int16 => 2,
            DataType::Int32 => 3,
            DataType::Int64 => 4,
            DataType::UInt8 => 5,
            DataType::UInt16 => 6,
            DataType::UInt32 => 7,
            DataType::UInt64 => 8,
            DataType::Float32 => 9,
            DataType::Float64 => 10,
        }
    }

    /// The type that a wire byte stands for, if any.
    pub fn from_tag(tag: u8) -> (r: Option<DataType>)
        ensures
            r == DataType::spec_from_tag(tag),
    {
        if tag == 1 {
            Some(DataType::Int8)
        } else if tag == 2 {
            Some(DataType::Int16)
        } else if tag == 3 {
            Some(DataType::Int32)
        } else if tag == 4 {
            Some(DataType::Int64)
        } else if tag == 5 {
            Some(DataType::UInt8)
        } else if tag == 6 {
            Some(DataType::UInt16)
        } else if tag == 7 {
            Some(DataType::UInt32)
        } else if tag == 8 {
            Some(DataType::UInt64)
        } else if tag == 9 {
            Some(DataType::Float32)
        } else if tag == 10 {
            Some(DataType::Float64)
        } else {
            None
        }
    }

    /// Whether `bits` is a bit pattern of the type.
    pub fn holds(self, bits: u64) -> (r: bool)
        ensures
            r == self.spec_holds(bits),
    {
        match self {
            DataType::Int8 | DataType::UInt8 => bits <= 0xff,
            DataType::Int16 | DataType::UInt16 => bits <= 0xffff,
            DataType::Int32 | DataType::UInt32 | DataType::Float32 => bits <= 0xffff_ffff,
            DataType::Int64 | DataType::UInt64 | DataType::Float64 => true,
        }
    }

    /// A type's wire byte stands for that type and for no other.
    pub proof fn lemma_tag_round_trip(self)
        ensures
            DataType::spec_from_tag(self.spec_tag()) == Some(self),
    {
    }

    /// A wire byte that stands for a type is that type's wire byte.
    pub proof fn lemma_from_tag_inverse(tag: u8)
        ensures
            DataType::spec_from_tag(tag) matches Some(t) ==> t.spec_tag() == tag,
    {
    }
}

/// One column's name and type in a schema.
#[derive(Debug, PartialEq, Eq)]
pub struct Field {
    pub name: String,
    pub data_type: DataType,
    pub nullable: bool,
}

/// What a field is, as a mathematical value.
pub struct FieldView {
    pub name: Seq<char>,
    pub data_type: DataType,
    pub nullable: bool,
}

impl View for Field {
    type V = FieldView;

    open spec fn view(&self) -> FieldView {
        FieldView { name: self.name@, data_type: self.data_type, nullable: self.nullable }
    }
}

impl Field {
    /// A field of the given name and type.
    pub fn new(name: String, data_type: DataType, nullable: bool) -> (f: Field)
        ensures
            f@ == (FieldView { name: name@, data_type, nullable }),
    {
        Field { name, data_type, nullable }
    }
}

impl Clone for Field {
    fn clone(&self) -> (f: Field)
        ensures
            f@ == self@,
    {
        Field { name: self.name.clone(), data_type: self.data_type, nullable: self.nullable }
    }
}

/// The ordered fields of a batch.
#[derive(Debug, PartialEq, Eq)]
pub struct Schema {
    pub fields: Vec<Field>,
}

/// The views of a sequence of fields.
pub open spec fn field_views(fields: Seq<Field>) -> Seq<FieldView> {
    Seq::new(fields.len(), |i: int| fields[i]@)
}

impl View for Schema {
    type V = Seq<FieldView>;

    open spec fn view(&self) -> Seq<FieldView> {
        field_views(self.fields@)
    }
}

/// The name of the argument at position `i`: `c` and the position in decimal.
pub open spec fn positional_name(i: nat) -> Seq<char> {
    seq!['c'] + decimal_digits(i)
}

/// The schema of a call's arguments: one field per declared type, in order,
/// named by position and not nullable.
pub open spec fn argument_fields(types: Seq<DataType>) -> Seq<FieldView> {
    Seq::new(
        types.len(),
        |i: int| FieldView { name: positional_name(i as nat), data_type: types[i], nullable: false },
    )
}

/// Columns at different positions have different names.
pub proof fn lemma_positional_names_differ(i: nat, j: nat)
    requires
        positional_name(i) == positional_name(j),
    ensures
        i == j,
{
    assert(positional_name(i).skip(1) =~= decimal_digits(i));
    assert(positional_name(j).skip(1) =~= decimal_digits(j));
    lemma_decimal_is_injective(i, j);
}

/// The name of the column at position `i`.
pub fn positional(i: usize) -> (name: String)
    ensures
        name@ == positional_name(i as nat),
{
    proof {
        reveal_strlit("c");
    }
    let number = decimal(i);
    let name = join("c", number.as_str());
    assert(name@ =~= positional_name(i as nat));
    name
}

impl Schema {
    /// A schema of the given fields.
    pub fn new(fields: Vec<Field>) -> (s: Schema)
        ensures
            s.fields == fields,
    {
        Schema { fields }
    }

    /// The number of fields.
    pub fn len(&self) -> (n: usize)
        ensures
            n == self@.len(),
    {
        self.fields.len()
    }

    /// The schema of a call's arguments.
    pub fn for_arguments(types: &Vec<DataType>) -> (s: Schema)
        ensures
            s@ == argument_fields(types@),
    {
        let mut fields: Vec<Field> = Vec::new();
        let mut i: usize = 0;
        while i < types.len()
            invariant
                i <= types@.len(),
                fields@.len() == i,
                forall|k: int| 0 <= k < i ==> fields@[k]@ == argument_fields(types@)[k],
            decreases types@.len() - i,
        {
            fields.push(Field::new(positional(i), types[i], false));
            i = i + 1;
        }
        let s = Schema { fields };
        assert(s@ =~= argument_fields(types@));
        s
    }
}

impl Clone for Schema {
    fn clone(&self) -> (s: Schema)
        ensures
            s@ == self@,
    {
        let mut fields: Vec<Field> = Vec::new();
        let mut i: usize = 0;
        while i < self.fields.len()
            invariant
                i <= self.fields@.len(),
                fields@.len() == i,
                forall|k: int| 0 <= k < i ==> fields@[k]@ == self.fields@[k]@,
            decreases self.fields@.len() - i,
        {
            fields.push(self.fields[i].clone());
            i = i + 1;
        }
        let s = Schema { fields };
        assert(s@ =~= self@);
        s
    }
}

} // verus!
