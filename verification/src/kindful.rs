//! The schema-aware walker: the same traversal as the schema-less one, but
//! carrying the declared type descriptor of the current position, so that an
//! enum number is resolved to its symbolic name and a map entry's value is
//! converted under the entry message's declared value-field kind.
use vstd::prelude::*;
use crate::model::{
    ConvError, DynValue, EnumValue, Kind, ReflectField, ReflectMessage, ReflectValue, SpecDyn,
    SpecErr, arr_view, dv_view, entries_size, fields_size, list_size, obj_view, res_view, rv_size,
};
use crate::numeric::{is_nan32, is_nan64, nan32, nan64, spec_widen32, widen32};
use crate::convert::{
    build_object, key_string, list_res_view, obj_from_pairs, pairs_res_view, spec_key_string,
};
use vstd::pervasive::arbitrary;

verus! {

broadcast use
    vstd::seq::group_seq_axioms,
    vstd::std_specs::vec::group_vec_axioms,
    crate::model::lemma_obj_view,
    crate::model::lemma_arr_view;

/// The symbolic name declared for an enum number, if any: the first declared
/// value with that number.
pub open spec fn enum_lookup(vals: Seq<EnumValue>, n: i32) -> Option<Seq<char>>
    decreases vals.len(),
{
    if vals.len() == 0 {
        None
    } else if vals.first().number == n {
        Some(vals.first().name@)
    } else {
        enum_lookup(vals.drop_first(), n)
    }
}

/// The declared kind matches the value's shape: an enum number comes with an
/// enum descriptor, a map with its entry message descriptor (which declares
/// the value field's kind), every list element with the field's own kind,
/// and every message field with that field's declared kind. The walker may
/// only be called on matching pairs; the reflective decode stage guarantees
/// this.
pub open spec fn kind_ok(v: ReflectValue, k: Kind) -> bool
    decreases rv_size(v),
{
    match v {
        ReflectValue::EnumNumber(_) => k is Enum,
        ReflectValue::Message(m) => fields_kind_ok(m.fields@),
        ReflectValue::List(l) => list_kind_ok(l@, k),
        ReflectValue::Mapping(es) => match k {
            Kind::Message(md) => match md.map_value_kind {
                Some(vk) => entries_kind_ok(es@, *vk),
                None => false,
            },
            _ => false,
        },
        _ => true,
    }
}

pub open spec fn fields_kind_ok(fs: Seq<ReflectField>) -> bool
    decreases fields_size(fs),
{
    if fs.len() == 0 {
        true
    } else {
        kind_ok(fs.first().value, fs.first().kind) && fields_kind_ok(fs.drop_first())
    }
}

pub open spec fn list_kind_ok(l: Seq<ReflectValue>, k: Kind) -> bool
    decreases list_size(l),
{
    if l.len() == 0 {
        true
    } else {
        kind_ok(l.first(), k) && list_kind_ok(l.drop_first(), k)
    }
}

pub open spec fn entries_kind_ok(es: Seq<(ReflectValue, ReflectValue)>, vk: Kind) -> bool
    decreases entries_size(es),
{
    if es.len() == 0 {
        true
    } else {
        kind_ok(es.first().1, vk) && entries_kind_ok(es.drop_first(), vk)
    }
}

/// What the schema-aware walk returns: as the schema-less walk, except that
/// an enum number becomes the string with its declared symbolic name, and a
/// number with no symbol in its declared enum type is an
/// `UnknownEnumValue` violation naming both the number and the type.
pub open spec fn conv_k(v: ReflectValue, k: Kind) -> Result<SpecDyn, SpecErr>
    decreases rv_size(v),
{
    match v {
        ReflectValue::Bool(b) => Ok(SpecDyn::Bool(b)),
        ReflectValue::I32(i) => Ok(SpecDyn::Int(i as i64)),
        ReflectValue::I64(i) => Ok(SpecDyn::Int(i)),
        ReflectValue::U32(u) => Ok(SpecDyn::Int(u as i64)),
        ReflectValue::U64(u) => Ok(SpecDyn::Int(u as i64)),
        ReflectValue::F32Bits(b) => if is_nan32(b) {
            Err(SpecErr::InvalidFloat)
        } else {
            Ok(SpecDyn::Float(spec_widen32(b)))
        },
        ReflectValue::F64Bits(b) => if is_nan64(b) {
            Err(SpecErr::InvalidFloat)
        } else {
            Ok(SpecDyn::Float(b))
        },
        ReflectValue::Text(s) => Ok(SpecDyn::Text(s@)),
        ReflectValue::Bytes(b) => Ok(SpecDyn::Bytes(b@)),
        ReflectValue::EnumNumber(n) => match k {
            Kind::Enum(ed) => match enum_lookup(ed.values@, n) {
                Some(s) => Ok(SpecDyn::Text(s)),
                None => Err(SpecErr::UnknownEnumValue { number: n, enum_name: ed.name@ }),
            },
            _ => arbitrary(),
        },
        ReflectValue::Message(m) => match conv_k_fields(m.fields@) {
            Ok(ps) => Ok(SpecDyn::Object(obj_from_pairs(Seq::empty(), ps))),
            Err(e) => Err(e),
        },
        ReflectValue::List(l) => match conv_k_list(l@, k) {
            Ok(ds) => Ok(SpecDyn::Array(ds)),
            Err(e) => Err(e),
        },
        ReflectValue::Mapping(es) => match k {
            Kind::Message(md) => match md.map_value_kind {
                Some(vk) => match conv_k_entries(es@, *vk) {
                    Ok(ps) => Ok(SpecDyn::Object(obj_from_pairs(Seq::empty(), ps))),
                    Err(e) => Err(e),
                },
                None => arbitrary(),
            },
            _ => arbitrary(),
        },
    }
}

/// Field pairs of a message under the schema-aware walk: each field's value
/// is converted under that field's own declared kind.
pub open spec fn conv_k_fields(fs: Seq<ReflectField>) -> Result<
    Seq<(Seq<char>, SpecDyn)>,
    SpecErr,
>
    decreases fields_size(fs),
{
    if fs.len() == 0 {
        Ok(Seq::empty())
    } else {
        match conv_k(fs.first().value, fs.first().kind) {
            Err(e) => Err(e),
            Ok(d) => match conv_k_fields(fs.drop_first()) {
                Err(e) => Err(e),
                Ok(ps) => Ok(seq![(fs.first().name@, d)].add(ps)),
            },
        }
    }
}

/// Elements of a repeated field under the schema-aware walk: every element
/// uses the same declared kind as the field itself.
pub open spec fn conv_k_list(l: Seq<ReflectValue>, k: Kind) -> Result<Seq<SpecDyn>, SpecErr>
    decreases list_size(l),
{
    if l.len() == 0 {
        Ok(Seq::empty())
    } else {
        match conv_k(l.first(), k) {
            Err(e) => Err(e),
            Ok(d) => match conv_k_list(l.drop_first(), k) {
                Err(e) => Err(e),
                Ok(ds) => Ok(seq![d].add(ds)),
            },
        }
    }
}

/// Entries of a map field under the schema-aware walk: keys are stringified
/// and every value is converted under the entry message's declared
/// value-field kind.
pub open spec fn conv_k_entries(es: Seq<(ReflectValue, ReflectValue)>, vk: Kind) -> Result<
    Seq<(Seq<char>, SpecDyn)>,
    SpecErr,
>
    decreases entries_size(es),
{
    if es.len() == 0 {
        Ok(Seq::empty())
    } else {
        match spec_key_string(es.first().0) {
            None => Err(SpecErr::NonStringMapKey),
            Some(ks) => match conv_k(es.first().1, vk) {
                Err(e) => Err(e),
                Ok(d) => match conv_k_entries(es.drop_first(), vk) {
                    Err(e) => Err(e),
                    Ok(ps) => Ok(seq![(ks, d)].add(ps)),
                },
            },
        }
    }
}

fn lookup_enum(vals: &Vec<EnumValue>, i: usize, n: i32) -> (r: Option<String>)
    requires
        i <= vals@.len(),
    ensures
        match r {
            Some(s) => enum_lookup(vals@.skip(i as int), n) == Some(s@),
            None => enum_lookup(vals@.skip(i as int), n) is None,
        },
    decreases vals@.len() - i,
{
    if i == vals.len() {
        None
    } else {
        proof {
            assert(vals@.skip(i as int).first() == vals@[i as int]);
            assert(vals@.skip(i as int).drop_first() =~= vals@.skip(i as int + 1));
        }
        if vals[i].number == n {
            Some(vals[i].name.clone())
        } else {
            lookup_enum(vals, i + 1, n)
        }
    }
}

/// Converts a reflective value into a dynamic value under its declared type
/// descriptor, consuming the value. Returns exactly `conv_k(v, *kind)`: as
/// the schema-less walk, but an enum number with a known symbol becomes that
/// symbol's name as a string, and one without any symbol aborts the
/// conversion with an error naming the number and the enum type.
pub fn to_vrl_with_kind(v: ReflectValue, kind: &Kind) -> (r: Result<DynValue, ConvError>)
    requires
        kind_ok(v, *kind),
    ensures
        res_view(r) == conv_k(v, *kind),
    decreases rv_size(v),
{
    match v {
        ReflectValue::Bool(b) => Ok(DynValue::Bool(b)),
        ReflectValue::I32(i) => Ok(DynValue::Integer(i as i64)),
        ReflectValue::I64(i) => Ok(DynValue::Integer(i)),
        ReflectValue::U32(u) => Ok(DynValue::Integer(u as i64)),
        ReflectValue::U64(u) => Ok(DynValue::Integer(u as i64)),
        ReflectValue::F32Bits(b) => {
            if nan32(b) {
                Err(ConvError::InvalidFloat)
            } else {
                Ok(DynValue::Float(widen32(b)))
            }
        },
        ReflectValue::F64Bits(b) => {
            if nan64(b) {
                Err(ConvError::InvalidFloat)
            } else {
                Ok(DynValue::Float(b))
            }
        },
        ReflectValue::Text(s) => Ok(DynValue::Text(s)),
        ReflectValue::Bytes(b) => Ok(DynValue::Bytes(b)),
        ReflectValue::EnumNumber(n) => {
            match kind {
                Kind::Enum(ed) => {
                    proof {
                        assert(ed.values@.skip(0) =~= ed.values@);
                    }
                    match lookup_enum(&ed.values, 0, n) {
                        Some(s) => Ok(DynValue::Text(s)),
                        None => Err(
                            ConvError::UnknownEnumValue { number: n, enum_name: ed.name.clone() },
                        ),
                    }
                },
                _ => {
                    // Unreachable: the contract requires an enum descriptor
                    // for an enum number.
                    proof {
                        assert(false);
                    }
                    Err(ConvError::InvalidFloat)
                },
            }
        },
        ReflectValue::Message(m) => {
            proof {
                assert(m.fields@.skip(0) =~= m.fields@);
            }
            match kfields_take(m, 0) {
                Err(e) => Err(e),
                Ok(ps) => Ok(DynValue::Object(build_object(ps))),
            }
        },
        ReflectValue::List(l) => {
            proof {
                assert(l@.skip(0) =~= l@);
            }
            match klist_take(l, kind) {
                Err(e) => Err(e),
                Ok(ds) => Ok(DynValue::Array(ds)),
            }
        },
        ReflectValue::Mapping(es) => {
            match kind {
                Kind::Message(md) => {
                    match &md.map_value_kind {
                        Some(vk) => {
                            match kentries_take(es, &**vk) {
                                Err(e) => Err(e),
                                Ok(ps) => Ok(DynValue::Object(build_object(ps))),
                            }
                        },
                        None => {
                            // Unreachable: the contract requires the map
                            // entry descriptor to declare a value kind.
                            proof {
                                assert(false);
                            }
                            Err(ConvError::InvalidFloat)
                        },
                    }
                },
                _ => {
                    // Unreachable: the contract requires a map field's kind
                    // to be its entry message descriptor.
                    proof {
                        assert(false);
                    }
                    Err(ConvError::InvalidFloat)
                },
            }
        },
    }
}

fn kfields_take(m: ReflectMessage, i: usize) -> (r: Result<Vec<(String, DynValue)>, ConvError>)
    requires
        i <= m.fields@.len(),
        fields_kind_ok(m.fields@.skip(i as int)),
    ensures
        pairs_res_view(r) == conv_k_fields(m.fields@.skip(i as int)),
    decreases fields_size(m.fields@.skip(i as int)),
{
    let ghost fs = m.fields@.skip(i as int);
    let mut m = m;
    if i == m.fields.len() {
        Ok(Vec::new())
    } else {
        proof {
            assert(fs.first() == m.fields@[i as int]);
            assert(fs.drop_first() =~= m.fields@.skip(i as int + 1));
        }
        let taken = m.take_field(i);
        let name = m.fields[i].name.clone();
        match to_vrl_with_kind(taken, &m.fields[i].kind) {
            Err(e) => Err(e),
            Ok(d) => {
                proof {
                    assert(m.fields@.skip(i as int + 1) =~= fs.drop_first());
                }
                match kfields_take(m, i + 1) {
                    Err(e) => Err(e),
                    Ok(mut ps) => {
                        let ghost rest = ps@;
                        ps.insert(0, (name, d));
                        proof {
                            assert(ps@.drop_first() =~= rest);
                            assert(obj_view(ps@) =~= seq![
                                (ps@.first().0@, dv_view(ps@.first().1)),
                            ].add(obj_view(rest)));
                        }
                        Ok(ps)
                    },
                }
            },
        }
    }
}

fn klist_take(l: Vec<ReflectValue>, kind: &Kind) -> (r: Result<Vec<DynValue>, ConvError>)
    requires
        list_kind_ok(l@, *kind),
    ensures
        list_res_view(r) == conv_k_list(l@, *kind),
    decreases list_size(l@),
{
    let ghost l0 = l@;
    let mut l = l;
    if l.len() == 0 {
        Ok(Vec::new())
    } else {
        let x = l.remove(0);
        proof {
            assert(l@ =~= l0.drop_first());
        }
        match to_vrl_with_kind(x, kind) {
            Err(e) => Err(e),
            Ok(d) => match klist_take(l, kind) {
                Err(e) => Err(e),
                Ok(mut ds) => {
                    let ghost rest = ds@;
                    ds.insert(0, d);
                    proof {
                        assert(ds@.drop_first() =~= rest);
                        assert(arr_view(ds@) =~= seq![dv_view(ds@.first())].add(arr_view(rest)));
                    }
                    Ok(ds)
                },
            },
        }
    }
}

fn kentries_take(es: Vec<(ReflectValue, ReflectValue)>, vk: &Kind) -> (r: Result<
    Vec<(String, DynValue)>,
    ConvError,
>)
    requires
        entries_kind_ok(es@, *vk),
    ensures
        pairs_res_view(r) == conv_k_entries(es@, *vk),
    decreases entries_size(es@),
{
    let ghost es0 = es@;
    let mut es = es;
    if es.len() == 0 {
        Ok(Vec::new())
    } else {
        let (key, value) = es.remove(0);
        proof {
            assert(es@ =~= es0.drop_first());
        }
        match key_string(&key) {
            None => Err(ConvError::NonStringMapKey),
            Some(ks) => match to_vrl_with_kind(value, vk) {
                Err(e) => Err(e),
                Ok(d) => match kentries_take(es, vk) {
                    Err(e) => Err(e),
                    Ok(mut ps) => {
                        let ghost rest = ps@;
                        ps.insert(0, (ks, d));
                        proof {
                            assert(ps@.drop_first() =~= rest);
                            assert(obj_view(ps@) =~= seq![
                                (ps@.first().0@, dv_view(ps@.first().1)),
                            ].add(obj_view(rest)));
                        }
                        Ok(ps)
                    },
                },
            },
        }
    }
}

} // verus!
