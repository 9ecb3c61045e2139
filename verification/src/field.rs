//! The atomic unit of the wire format: a named, typed value.
//!
//! A `Field` carries a name of at most 255 bytes (UTF-8) and one payload out
//! of five kinds: a 64-bit integer, a UTF-8 string, opaque binary data, an
//! ordered list of child fields, or a map of named child fields.  Child
//! fields of a map or list are owned by their parent.

use vstd::prelude::*;

verus! {

broadcast use vstd::std_specs::vec::group_vec_axioms, vstd::seq::group_seq_axioms;

/// The five wire-format type tags.
#[derive(Clone, Copy, Debug, PartialEq, Eq, Structural)]
pub enum FieldType {
    Dict,
    S64,
    Str,
    Bin,
    List,
}

impl FieldType {
    /// The tag byte a field of this type carries on the wire.
    pub open spec fn spec_tag(self) -> u8 {
        match self {
            FieldType::Dict => 1,
            FieldType::S64 => 2,
            FieldType::Str => 3,
            FieldType::Bin => 4,
            FieldType::List => 5,
        }
    }

    /// Executable counterpart of [`FieldType::spec_tag`].
    pub fn tag(&self) -> (t: u8)
        ensures
            t == self.spec_tag(),
    {
        match self {
            FieldType::Dict => 1,
            FieldType::S64 => 2,
            FieldType::Str => 3,
            FieldType::Bin => 4,
            FieldType::List => 5,
        }
    }

    /// Reads a type tag byte back into a `FieldType`; tag bytes outside
    /// `1..=5` are not assigned and yield `None`.
    pub fn from_u8(v: u8) -> (r: Option<FieldType>)
        ensures
            match r {
                Some(t) => t.spec_tag() == v,
                None => !valid_tag(v),
            },
    {
        match v {
            1 => Some(FieldType::Dict),
            2 => Some(FieldType::S64),
            3 => Some(FieldType::Str),
            4 => Some(FieldType::Bin),
            5 => Some(FieldType::List),
            _ => None,
        }
    }
}

/// True when `v` is one of the five assigned type tag bytes.
pub open spec fn valid_tag(v: u8) -> bool {
    1 <= v <= 5
}

/// The payload of a field: exactly one variant per wire type tag.
///
/// The integer payload carries the 64-bit pattern as an unsigned magnitude;
/// the wire encoding is the shortest big-endian byte string for that
/// magnitude, so a negative two's-complement value occupies all 8 bytes.
#[derive(Debug, PartialEq)]
pub enum FieldData {
    /// Named child fields, emitted in the order given.
    Dict(Vec<Field>),
    /// A 64-bit integer, encoded as its minimal-width big-endian bytes.
    S64(u64),
    /// A UTF-8 string, encoded as its raw bytes with no terminator.
    Str(String),
    /// Opaque binary data, copied verbatim.
    Bin(Vec<u8>),
    /// Ordered child fields, emitted in the order given.
    List(Vec<Field>),
}

/// A named, typed unit of the wire format.
#[derive(Debug, PartialEq)]
pub struct Field {
    pub name: String,
    pub data: FieldData,
}

/// Mathematical model of a field payload.
pub ghost enum SpecFieldData {
    Dict(Seq<SpecField>),
    S64(u64),
    Str(Seq<char>),
    Bin(Seq<u8>),
    List(Seq<SpecField>),
}

/// Mathematical model of a field.
pub ghost struct SpecField {
    pub name: Seq<char>,
    pub data: SpecFieldData,
}

impl FieldData {
    /// The model of this payload, with child fields modelled recursively.
    pub open spec fn deep_view(&self) -> SpecFieldData
        decreases self,
    {
        match self {
            FieldData::Dict(fs) => SpecFieldData::Dict(fields_view(fs@)),
            FieldData::S64(v) => SpecFieldData::S64(*v),
            FieldData::Str(s) => SpecFieldData::Str(s@),
            FieldData::Bin(b) => SpecFieldData::Bin(b@),
            FieldData::List(fs) => SpecFieldData::List(fields_view(fs@)),
        }
    }
}

impl Field {
    /// The model of this field.
    pub open spec fn deep_view(&self) -> SpecField
        decreases self,
    {
        SpecField { name: self.name@, data: self.data.deep_view() }
    }

    /// The field's name.
    pub fn get_name(&self) -> (r: &str)
        ensures
            r@ == self.name@,
    {
        self.name.as_str()
    }

    /// The byte length of the field's name on the wire.
    pub fn get_name_length(&self) -> (r: usize)
        ensures
            r == vstd::utf8::encode_utf8(self.name@).len(),
    {
        self.name.as_str().as_bytes().len()
    }

    /// The field's payload.
    pub fn get_data(&self) -> (r: &FieldData)
        ensures
            r == self.data,
    {
        &self.data
    }
}

/// The models of a sequence of fields, in order.
pub open spec fn fields_view(fs: Seq<Field>) -> Seq<SpecField>
    decreases fs,
{
    if fs.len() == 0 {
        Seq::empty()
    } else {
        fields_view(fs.drop_last()).push(fs.last().deep_view())
    }
}

/// `fields_view` is the pointwise model of its argument.
pub proof fn lemma_fields_view(fs: Seq<Field>)
    ensures
        fields_view(fs).len() == fs.len(),
        forall|i: int| 0 <= i < fs.len() ==> fields_view(fs)[i] == #[trigger] fs[i].deep_view(),
    decreases fs.len(),
{
    if fs.len() > 0 {
        lemma_fields_view(fs.drop_last());
        assert forall|i: int| 0 <= i < fs.len() implies fields_view(fs)[i]
            == #[trigger] fs[i].deep_view() by {
            if i < fs.len() - 1 {
                assert(fs.drop_last()[i] == fs[i]);
            }
        }
    }
}

impl SpecFieldData {
    /// The type tag of the modelled payload.
    pub open spec fn tag(self) -> u8 {
        match self {
            SpecFieldData::Dict(_) => 1,
            SpecFieldData::S64(_) => 2,
            SpecFieldData::Str(_) => 3,
            SpecFieldData::Bin(_) => 4,
            SpecFieldData::List(_) => 5,
        }
    }
}

impl SpecField {
    /// The type tag of the modelled field.
    pub open spec fn tag(self) -> u8 {
        self.data.tag()
    }
}

} // verus!
