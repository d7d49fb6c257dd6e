//! The data model: the reflective value consumed by the walkers, the type
//! descriptors consulted by the schema-aware walker, the dynamic value
//! produced by every strategy, and the conversion error taxonomy, together
//! with the abstractions (views) the contracts are stated over.
use vstd::prelude::*;
use crate::numeric::is_nan64;

verus! {

broadcast use vstd::seq::group_seq_axioms, vstd::std_specs::vec::group_vec_axioms;

/// A reflective value: one decoded protobuf field value, accessed through
/// schema metadata rather than generated static types. Floating-point values
/// are carried as their IEEE 754 bit patterns.
#[derive(Debug, PartialEq)]
pub enum ReflectValue {
    Bool(bool),
    I32(i32),
    I64(i64),
    U32(u32),
    U64(u64),
    F32Bits(u32),
    F64Bits(u64),
    Text(String),
    Bytes(Vec<u8>),
    EnumNumber(i32),
    Message(ReflectMessage),
    List(Vec<ReflectValue>),
    Mapping(Vec<(ReflectValue, ReflectValue)>),
}

/// One declared field of a reflective message: its name, its declared kind,
/// and its current value (the kind's default when the field is unset).
#[derive(Debug, PartialEq)]
pub struct ReflectField {
    pub name: String,
    pub kind: Kind,
    pub value: ReflectValue,
}

/// A reflective message: its declared fields, in schema declaration order.
#[derive(Debug, PartialEq)]
pub struct ReflectMessage {
    pub fields: Vec<ReflectField>,
}

/// One declared value of an enum type: a number and its symbolic name.
#[derive(Debug, Clone, PartialEq)]
pub struct EnumValue {
    pub number: i32,
    pub name: String,
}

/// An enum type descriptor: the type's name and its declared values.
#[derive(Debug, Clone, PartialEq)]
pub struct EnumDescriptor {
    pub name: String,
    pub values: Vec<EnumValue>,
}

/// A message type descriptor. For the synthetic entry message of a map field
/// it declares the kind of the entry's value field; for a plain message the
/// walker reads the field kinds from the message value itself.
#[derive(Debug, PartialEq)]
pub struct MessageDescriptor {
    pub map_value_kind: Option<Box<Kind>>,
}

/// A type descriptor: the declared kind of a field's value.
#[derive(Debug, PartialEq)]
pub enum Kind {
    Scalar,
    Enum(EnumDescriptor),
    Message(MessageDescriptor),
}

/// A dynamic value: the coarser, generically typed model handed to the
/// downstream expression-language runtime. A `Float` holds the bit pattern
/// of a binary64 number and never encodes NaN; an `Object` maps string keys
/// to values, keeping first-insertion order with unique keys.
#[derive(Debug, PartialEq)]
pub enum DynValue {
    Null,
    Bool(bool),
    Integer(i64),
    Float(u64),
    Text(String),
    Bytes(Vec<u8>),
    Object(Vec<(String, DynValue)>),
    Array(Vec<DynValue>),
}

/// Why a conversion failed. Every failure is a data-integrity violation and
/// aborts the whole conversion.
#[derive(Debug, Clone, PartialEq)]
pub enum ConvError {
    /// A floating-point source value is NaN, which the dynamic model cannot
    /// represent.
    InvalidFloat,
    /// The schema-aware walker met an enum number with no symbol in its
    /// declared enum type.
    UnknownEnumValue { number: i32, enum_name: String },
    /// A map key is not representable as a string.
    NonStringMapKey,
}

/// Mathematical form of a dynamic value: sequences of characters and bytes
/// in place of owned strings and buffers.
#[verifier::ext_equal]
pub enum SpecDyn {
    Null,
    Bool(bool),
    Int(i64),
    Float(u64),
    Text(Seq<char>),
    Bytes(Seq<u8>),
    Object(Seq<(Seq<char>, SpecDyn)>),
    Array(Seq<SpecDyn>),
}

/// Mathematical form of a conversion error.
#[verifier::ext_equal]
pub enum SpecErr {
    InvalidFloat,
    UnknownEnumValue { number: i32, enum_name: Seq<char> },
    NonStringMapKey,
}

/// Abstraction of a dynamic value.
pub open spec fn dv_view(d: DynValue) -> SpecDyn
    decreases d,
{
    match d {
        DynValue::Null => SpecDyn::Null,
        DynValue::Bool(b) => SpecDyn::Bool(b),
        DynValue::Integer(i) => SpecDyn::Int(i),
        DynValue::Float(b) => SpecDyn::Float(b),
        DynValue::Text(s) => SpecDyn::Text(s@),
        DynValue::Bytes(b) => SpecDyn::Bytes(b@),
        DynValue::Object(obj) => SpecDyn::Object(obj_view(obj@)),
        DynValue::Array(a) => SpecDyn::Array(arr_view(a@)),
    }
}

/// Abstraction of a sequence of key/value pairs.
pub open spec fn obj_view(s: Seq<(String, DynValue)>) -> Seq<(Seq<char>, SpecDyn)>
    decreases s,
{
    if s.len() == 0 {
        Seq::empty()
    } else {
        seq![(s.first().0@, dv_view(s.first().1))].add(obj_view(s.drop_first()))
    }
}

/// Abstraction of a sequence of dynamic values.
pub open spec fn arr_view(s: Seq<DynValue>) -> Seq<SpecDyn>
    decreases s,
{
    if s.len() == 0 {
        Seq::empty()
    } else {
        seq![dv_view(s.first())].add(arr_view(s.drop_first()))
    }
}

/// Abstraction of a conversion error.
pub open spec fn err_view(e: ConvError) -> SpecErr {
    match e {
        ConvError::InvalidFloat => SpecErr::InvalidFloat,
        ConvError::UnknownEnumValue { number, enum_name } => SpecErr::UnknownEnumValue {
            number,
            enum_name: enum_name@,
        },
        ConvError::NonStringMapKey => SpecErr::NonStringMapKey,
    }
}

/// Abstraction of a conversion result.
pub open spec fn res_view(r: Result<DynValue, ConvError>) -> Result<SpecDyn, SpecErr> {
    match r {
        Ok(d) => Ok(dv_view(d)),
        Err(e) => Err(err_view(e)),
    }
}

pub broadcast proof fn lemma_obj_view(s: Seq<(String, DynValue)>)
    ensures
        (#[trigger] obj_view(s)).len() == s.len(),
        forall|i: int|
            0 <= i < s.len() ==> obj_view(s)[i] == (s[i].0@, dv_view(s[i].1)),
    decreases s,
{
    if s.len() > 0 {
        lemma_obj_view(s.drop_first());
    }
}

pub broadcast proof fn lemma_arr_view(s: Seq<DynValue>)
    ensures
        (#[trigger] arr_view(s)).len() == s.len(),
        forall|i: int| 0 <= i < s.len() ==> arr_view(s)[i] == dv_view(s[i]),
    decreases s,
{
    if s.len() > 0 {
        lemma_arr_view(s.drop_first());
    }
}

/// Keys of an object, pairwise distinct.
pub open spec fn obj_unique(obj: Seq<(Seq<char>, SpecDyn)>) -> bool {
    forall|i: int, j: int| 0 <= i < j < obj.len() ==> obj[i].0 != obj[j].0
}

/// Well-formedness of a dynamic value: no float encodes NaN, and every
/// object's keys are pairwise distinct.
pub open spec fn dyn_wf(d: SpecDyn) -> bool
    decreases d,
{
    match d {
        SpecDyn::Float(b) => !is_nan64(b),
        SpecDyn::Object(obj) => obj_unique(obj) && (forall|i: int|
            0 <= i < obj.len() ==> dyn_wf(#[trigger] obj[i].1)),
        SpecDyn::Array(a) => forall|i: int| 0 <= i < a.len() ==> dyn_wf(#[trigger] a[i]),
        _ => true,
    }
}

/// Size of a reflective value: the termination measure of every walk.
pub open spec fn rv_size(v: ReflectValue) -> nat
    decreases v,
{
    match v {
        ReflectValue::Message(m) => 1 + fields_size(m.fields@),
        ReflectValue::List(l) => 1 + list_size(l@),
        ReflectValue::Mapping(es) => 1 + entries_size(es@),
        _ => 1,
    }
}

pub open spec fn fields_size(fs: Seq<ReflectField>) -> nat
    decreases fs,
{
    if fs.len() == 0 {
        0
    } else {
        1 + rv_size(fs.first().value) + fields_size(fs.drop_first())
    }
}

pub open spec fn list_size(l: Seq<ReflectValue>) -> nat
    decreases l,
{
    if l.len() == 0 {
        0
    } else {
        1 + rv_size(l.first()) + list_size(l.drop_first())
    }
}

pub open spec fn entries_size(es: Seq<(ReflectValue, ReflectValue)>) -> nat
    decreases es,
{
    if es.len() == 0 {
        0
    } else {
        1 + rv_size(es.first().1) + entries_size(es.drop_first())
    }
}

impl ReflectMessage {
    /// Takes the value of field `i` out of the message, leaving that slot in
    /// the benign default state, so that an owned walk never reads a field
    /// twice and never clones it.
    pub fn take_field(&mut self, i: usize) -> (r: ReflectValue)
        requires
            i < old(self).fields@.len(),
        ensures
            r == old(self).fields@[i as int].value,
            final(self).fields@ == old(self).fields@.update(
                i as int,
                ReflectField {
                    value: ReflectValue::Bool(false),
                    ..old(self).fields@[i as int]
                },
            ),
    {
        let ReflectField { name, kind, value } = self.fields.remove(i);
        self.fields.insert(i, ReflectField { name, kind, value: ReflectValue::Bool(false) });
        proof {
            assert(self.fields@ =~= old(self).fields@.update(
                i as int,
                ReflectField {
                    value: ReflectValue::Bool(false),
                    ..old(self).fields@[i as int]
                },
            ));
        }
        value
    }
}

} // verus!
