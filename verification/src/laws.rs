//! The library's laws: properties that relate the converters' results
//! across inputs and strategies, each proved from the specification
//! functions that the converters' own contracts are stated over.
use vstd::prelude::*;
use crate::model::{
    EnumDescriptor, Kind, ReflectField, ReflectMessage, ReflectValue, SpecDyn, SpecErr, dyn_wf,
    entries_size, fields_size, list_size, obj_unique, rv_size,
};
use crate::numeric::{
    is_nan32, is_nan64, lemma_widen32_not_nan, spec_i64_string, spec_u64_string, spec_widen32,
};
use crate::convert::{conv_entries, conv_list};
use crate::convert::{
    conv, conv_fields, lemma_obj_insert_absent, obj_from_pairs, obj_insert, spec_key_string,
};
use crate::kindful::{
    conv_k, conv_k_entries, conv_k_fields, conv_k_list, entries_kind_ok, enum_lookup,
    fields_kind_ok, kind_ok, list_kind_ok,
};
use crate::text::{lemma_text_bridge, tconv, td_res};

verus! {

broadcast use vstd::seq::group_seq_axioms;

/// Field names of a message, pairwise distinct, as a declared protobuf
/// message has them.
pub open spec fn distinct_names(fs: Seq<ReflectField>) -> bool {
    forall|i: int, j: int| 0 <= i < j < fs.len() ==> fs[i].name@ != fs[j].name@
}

proof fn lemma_conv_fields_names(fs: Seq<ReflectField>)
    requires
        conv_fields(fs) is Ok,
    ensures
        conv_fields(fs)->Ok_0.len() == fs.len(),
        forall|i: int| 0 <= i < fs.len() ==> #[trigger] conv_fields(fs)->Ok_0[i].0 == fs[i].name@,
    decreases fields_size(fs),
{
    if fs.len() > 0 {
        lemma_conv_fields_names(fs.drop_first());
    }
}

proof fn lemma_from_pairs_distinct(acc: Seq<(Seq<char>, SpecDyn)>, ps: Seq<(Seq<char>, SpecDyn)>)
    requires
        forall|i: int, j: int| 0 <= i < j < ps.len() ==> ps[i].0 != ps[j].0,
        forall|i: int, j: int|
            0 <= i < acc.len() && 0 <= j < ps.len() ==> #[trigger] acc[i].0 != #[trigger] ps[j].0,
    ensures
        obj_from_pairs(acc, ps) == acc.add(ps),
    decreases ps,
{
    if ps.len() == 0 {
        assert(obj_from_pairs(acc, ps) =~= acc.add(ps));
    } else {
        lemma_obj_insert_absent(acc, ps.first().0, ps.first().1);
        assert(obj_insert(acc, ps.first().0, ps.first().1) =~= acc.push(ps.first()));
        lemma_from_pairs_distinct(acc.push(ps.first()), ps.drop_first());
        assert(acc.push(ps.first()).add(ps.drop_first()) =~= acc.add(ps));
    }
}

/// Round-trip field coverage: converting a message with N declared,
/// distinctly named fields yields an object with exactly N keys, the i-th
/// key being the i-th field's name, whether the field was set or not.
pub proof fn lemma_field_coverage(m: ReflectMessage)
    requires
        distinct_names(m.fields@),
        conv(ReflectValue::Message(m)) is Ok,
    ensures
        conv(ReflectValue::Message(m))->Ok_0 is Object,
        conv(ReflectValue::Message(m))->Ok_0->Object_0.len() == m.fields@.len(),
        forall|i: int|
            0 <= i < m.fields@.len() ==> #[trigger] conv(
                ReflectValue::Message(m),
            )->Ok_0->Object_0[i].0 == m.fields@[i].name@,
{
    let ps = conv_fields(m.fields@)->Ok_0;
    lemma_conv_fields_names(m.fields@);
    lemma_from_pairs_distinct(Seq::empty(), ps);
    assert(Seq::<(Seq<char>, SpecDyn)>::empty().add(ps) =~= ps);
}

/// Scalar fidelity: every scalar converts to its exact counterpart in the
/// coarser model — booleans, strings and byte sequences unchanged, every
/// integer as the same number widened into the signed 64-bit domain (an
/// unsigned 64-bit value keeps its value as long as that domain can hold
/// it), and every non-NaN float as the bit pattern of the same number as a
/// 64-bit float.
pub proof fn lemma_scalar_fidelity()
    ensures
        forall|b: bool| conv(ReflectValue::Bool(b)) == Ok::<_, SpecErr>(SpecDyn::Bool(b)),
        forall|i: i32|
            conv(ReflectValue::I32(i)) == Ok::<_, SpecErr>(SpecDyn::Int(i as i64)) && (i as i64)
                as int == i as int,
        forall|i: i64| conv(ReflectValue::I64(i)) == Ok::<_, SpecErr>(SpecDyn::Int(i)),
        forall|u: u32|
            conv(ReflectValue::U32(u)) == Ok::<_, SpecErr>(SpecDyn::Int(u as i64)) && (u as i64)
                as int == u as int,
        forall|w: u64|
            conv(ReflectValue::U64(w)) == Ok::<_, SpecErr>(SpecDyn::Int(w as i64)) && (w
                <= i64::MAX ==> (w as i64) as int == w as int),
        forall|b: u32|
            !is_nan32(b) ==> conv(ReflectValue::F32Bits(b)) == Ok::<_, SpecErr>(
                SpecDyn::Float(spec_widen32(b)),
            ),
        forall|b: u64|
            !is_nan64(b) ==> conv(ReflectValue::F64Bits(b)) == Ok::<_, SpecErr>(SpecDyn::Float(b)),
        forall|s: String| conv(ReflectValue::Text(s)) == Ok::<_, SpecErr>(SpecDyn::Text(s@)),
        forall|b: Vec<u8>| conv(ReflectValue::Bytes(b)) == Ok::<_, SpecErr>(SpecDyn::Bytes(b@)),
{
}

proof fn lemma_fields_first_error(fs: Seq<ReflectField>, i: int)
    requires
        0 <= i < fs.len(),
        forall|j: int| 0 <= j < i ==> #[trigger] conv(fs[j].value) is Ok,
        conv(fs[i].value) is Err,
    ensures
        conv_fields(fs) == Err::<Seq<(Seq<char>, SpecDyn)>, _>(conv(fs[i].value)->Err_0),
    decreases fields_size(fs),
{
    if i > 0 {
        assert forall|j: int| 0 <= j < i - 1 implies #[trigger] conv(
            fs.drop_first()[j].value,
        ) is Ok by {
            assert(fs.drop_first()[j] == fs[j + 1]);
        }
        lemma_fields_first_error(fs.drop_first(), i - 1);
        assert(fs.drop_first()[i - 1] == fs[i]);
        assert(conv(fs[0].value) is Ok);
    }
}

/// NaN rejection, exact error: a message whose first violating field holds
/// a NaN float (32- or 64-bit) always fails with the `InvalidFloat` error;
/// no value is ever substituted. (`lemma_nan_anywhere_rejected` drops the
/// first-violation hypothesis and still concludes failure.)
pub proof fn lemma_nan_rejection(m: ReflectMessage, i: int)
    requires
        0 <= i < m.fields@.len(),
        match m.fields@[i].value {
            ReflectValue::F32Bits(b) => is_nan32(b),
            ReflectValue::F64Bits(b) => is_nan64(b),
            _ => false,
        },
        forall|j: int| 0 <= j < i ==> #[trigger] conv(m.fields@[j].value) is Ok,
    ensures
        conv(ReflectValue::Message(m)) == Err::<SpecDyn, _>(SpecErr::InvalidFloat),
{
    lemma_fields_first_error(m.fields@, i);
}

/// Enum resolution equivalence: for an enum number with a known symbol, the
/// schema-aware walk yields the symbolic name as a string while the
/// schema-less walk yields the bare number; a number without a symbol makes
/// the schema-aware walk fail, naming the number and the enum type.
pub proof fn lemma_enum_resolution(n: i32, ed: EnumDescriptor)
    ensures
        conv(ReflectValue::EnumNumber(n)) == Ok::<_, SpecErr>(SpecDyn::Int(n as i64)),
        enum_lookup(ed.values@, n) is Some ==> conv_k(ReflectValue::EnumNumber(n), Kind::Enum(ed))
            == Ok::<_, SpecErr>(SpecDyn::Text(enum_lookup(ed.values@, n)->0)),
        enum_lookup(ed.values@, n) is None ==> conv_k(ReflectValue::EnumNumber(n), Kind::Enum(ed))
            == Err::<SpecDyn, _>(SpecErr::UnknownEnumValue { number: n, enum_name: ed.name@ }),
{
}

/// Spec-level lookup of a key in an object: the value of the first pair
/// with that key.
pub open spec fn obj_lookup(obj: Seq<(Seq<char>, SpecDyn)>, k: Seq<char>) -> Option<SpecDyn>
    decreases obj,
{
    if obj.len() == 0 {
        None
    } else if obj.first().0 == k {
        Some(obj.first().1)
    } else {
        obj_lookup(obj.drop_first(), k)
    }
}

/// Map key stringification and overwrite: an integer key stringifies to its
/// decimal form, and inserting a key that is already present overwrites the
/// earlier entry while every other key keeps its value; insertion also
/// keeps the object's keys unique.
pub proof fn lemma_map_key_stringification(obj: Seq<(Seq<char>, SpecDyn)>, k: Seq<char>, v: SpecDyn)
    ensures
        forall|n: i64|
            spec_key_string(ReflectValue::I64(n)) == Some(spec_i64_string(n as int)),
        forall|n: u64|
            spec_key_string(ReflectValue::U64(n)) == Some(spec_u64_string(n as int)),
        obj_lookup(obj_insert(obj, k, v), k) == Some(v),
        forall|k2: Seq<char>|
            k2 != k ==> obj_lookup(obj_insert(obj, k, v), k2) == obj_lookup(obj, k2),
        obj_unique(obj) ==> obj_unique(obj_insert(obj, k, v)),
    decreases obj,
{
    if obj.len() == 0 {
        assert forall|k2: Seq<char>| k2 != k implies obj_lookup(obj_insert(obj, k, v), k2)
            == obj_lookup(obj, k2) by {
            assert(obj_insert(obj, k, v) =~= seq![(k, v)]);
            assert(obj_insert(obj, k, v).drop_first() =~= obj);
        }
    } else if obj.first().0 == k {
        let r = obj_insert(obj, k, v);
        assert(r =~= seq![(k, v)].add(obj.drop_first()));
        assert(r.first() == (k, v));
        assert(r.drop_first() =~= obj.drop_first());
        assert forall|k2: Seq<char>| k2 != k implies obj_lookup(r, k2) == obj_lookup(
            obj,
            k2,
        ) by {
            assert(r.drop_first() =~= obj.drop_first());
        }
        if obj_unique(obj) {
            assert forall|i: int, j: int| 0 <= i < j < r.len() implies r[i].0 != r[j].0 by {
                assert(r[i] == if i == 0 {
                    (k, v)
                } else {
                    obj[i]
                });
                assert(r[j] == obj[j]);
            }
        }
    } else {
        lemma_map_key_stringification(obj.drop_first(), k, v);
        let r = obj_insert(obj, k, v);
        assert(r =~= seq![obj.first()].add(obj_insert(obj.drop_first(), k, v)));
        assert(r.first() == obj.first());
        assert(r.drop_first() =~= obj_insert(obj.drop_first(), k, v));
        assert forall|k2: Seq<char>| k2 != k implies obj_lookup(r, k2) == obj_lookup(
            obj,
            k2,
        ) by {
            if k2 == obj.first().0 {
                assert(obj_lookup(r, k2) == Some(r.first().1));
                assert(obj_lookup(obj, k2) == Some(obj.first().1));
            } else {
                assert(obj_lookup(r, k2) == obj_lookup(r.drop_first(), k2));
                assert(obj_lookup(obj, k2) == obj_lookup(obj.drop_first(), k2));
                assert(r.drop_first() == obj_insert(obj.drop_first(), k, v));
            }
        }
        if obj_unique(obj) {
            assert(obj_unique(obj.drop_first())) by {
                assert forall|i: int, j: int|
                    0 <= i < j < obj.drop_first().len() implies obj.drop_first()[i].0
                    != obj.drop_first()[j].0 by {
                    assert(obj.drop_first()[i] == obj[i + 1]);
                    assert(obj.drop_first()[j] == obj[j + 1]);
                }
            }
            assert forall|i: int, j: int| 0 <= i < j < r.len() implies r[i].0 != r[j].0 by {
                if i == 0 {
                    if obj_lookup(obj.drop_first(), k) is Some {
                    }
                    lemma_lookup_key_present(obj_insert(obj.drop_first(), k, v), r[j].0, j - 1);
                    lemma_insert_keys(obj.drop_first(), k, v, j - 1);
                } else {
                    assert(r[i] == r.drop_first()[i - 1]);
                    assert(r[j] == r.drop_first()[j - 1]);
                }
            }
        }
    }
}

proof fn lemma_lookup_key_present(obj: Seq<(Seq<char>, SpecDyn)>, k: Seq<char>, j: int)
    requires
        0 <= j < obj.len(),
        obj[j].0 == k,
    ensures
        obj_lookup(obj, k) is Some,
    decreases obj,
{
    if j > 0 && obj.first().0 != k {
        lemma_lookup_key_present(obj.drop_first(), k, j - 1);
    }
}

proof fn lemma_insert_keys(obj: Seq<(Seq<char>, SpecDyn)>, k: Seq<char>, v: SpecDyn, j: int)
    requires
        0 <= j < obj_insert(obj, k, v).len(),
    ensures
        obj_insert(obj, k, v)[j].0 == k || (exists|i: int|
            0 <= i < obj.len() && obj[i].0 == obj_insert(obj, k, v)[j].0),
    decreases obj,
{
    if obj.len() == 0 {
    } else if obj.first().0 == k {
        if j > 0 {
            assert(obj_insert(obj, k, v)[j] == obj.drop_first()[j - 1]);
            assert(obj.drop_first()[j - 1] == obj[j]);
        }
    } else {
        if j > 0 {
            lemma_insert_keys(obj.drop_first(), k, v, j - 1);
            if obj_insert(obj.drop_first(), k, v)[j - 1].0 != k {
                let i = choose|i: int|
                    0 <= i < obj.drop_first().len() && obj.drop_first()[i].0 == obj_insert(
                        obj.drop_first(),
                        k,
                        v,
                    )[j - 1].0;
                assert(obj[i + 1].0 == obj_insert(obj, k, v)[j].0);
            }
        }
    }
}

proof fn lemma_insert_values(obj: Seq<(Seq<char>, SpecDyn)>, k: Seq<char>, v: SpecDyn, j: int)
    requires
        0 <= j < obj_insert(obj, k, v).len(),
    ensures
        obj_insert(obj, k, v)[j].1 == v || (exists|i: int|
            0 <= i < obj.len() && obj[i].1 == obj_insert(obj, k, v)[j].1),
    decreases obj,
{
    if obj.len() == 0 {
    } else if obj.first().0 == k {
        if j > 0 {
            assert(obj_insert(obj, k, v)[j] == obj.drop_first()[j - 1]);
            assert(obj.drop_first()[j - 1] == obj[j]);
        }
    } else {
        if j > 0 {
            lemma_insert_values(obj.drop_first(), k, v, j - 1);
            if obj_insert(obj.drop_first(), k, v)[j - 1].1 != v {
                let i = choose|i: int|
                    0 <= i < obj.drop_first().len() && obj.drop_first()[i].1 == obj_insert(
                        obj.drop_first(),
                        k,
                        v,
                    )[j - 1].1;
                assert(obj[i + 1].1 == obj_insert(obj, k, v)[j].1);
            }
        } else {
            assert(obj_insert(obj, k, v)[0] == obj[0]);
        }
    }
}

proof fn lemma_from_pairs_wf(acc: Seq<(Seq<char>, SpecDyn)>, ps: Seq<(Seq<char>, SpecDyn)>)
    requires
        obj_unique(acc),
        forall|i: int| 0 <= i < acc.len() ==> dyn_wf(#[trigger] acc[i].1),
        forall|i: int| 0 <= i < ps.len() ==> dyn_wf(#[trigger] ps[i].1),
    ensures
        obj_unique(obj_from_pairs(acc, ps)),
        forall|j: int|
            0 <= j < obj_from_pairs(acc, ps).len() ==> dyn_wf(
                #[trigger] obj_from_pairs(acc, ps)[j].1,
            ),
    decreases ps,
{
    if ps.len() > 0 {
        let acc2 = obj_insert(acc, ps.first().0, ps.first().1);
        lemma_map_key_stringification(acc, ps.first().0, ps.first().1);
        assert forall|j: int| 0 <= j < acc2.len() implies dyn_wf(#[trigger] acc2[j].1) by {
            lemma_insert_values(acc, ps.first().0, ps.first().1, j);
        }
        assert forall|i: int| 0 <= i < ps.drop_first().len() implies dyn_wf(
            #[trigger] ps.drop_first()[i].1,
        ) by {
            assert(ps.drop_first()[i] == ps[i + 1]);
        }
        lemma_from_pairs_wf(acc2, ps.drop_first());
    }
}

proof fn lemma_conv_fields_wf(fs: Seq<ReflectField>)
    ensures
        conv_fields(fs) is Ok ==> forall|i: int|
            0 <= i < conv_fields(fs)->Ok_0.len() ==> dyn_wf(
                #[trigger] conv_fields(fs)->Ok_0[i].1,
            ),
    decreases fields_size(fs),
{
    if fs.len() > 0 {
        lemma_conv_well_formed(fs.first().value);
        lemma_conv_fields_wf(fs.drop_first());
        if conv_fields(fs) is Ok {
            let ps = conv_fields(fs)->Ok_0;
            let d = conv(fs.first().value)->Ok_0;
            let rest = conv_fields(fs.drop_first())->Ok_0;
            assert forall|i: int| 0 <= i < ps.len() implies dyn_wf(#[trigger] ps[i].1) by {
                if i == 0 {
                    assert(ps[0].1 == d);
                } else {
                    assert(ps[i] == rest[i - 1]);
                }
            }
        }
    }
}

proof fn lemma_conv_list_wf(l: Seq<ReflectValue>)
    ensures
        conv_list(l) is Ok ==> forall|i: int|
            0 <= i < conv_list(l)->Ok_0.len() ==> dyn_wf(#[trigger] conv_list(l)->Ok_0[i]),
    decreases list_size(l),
{
    if l.len() > 0 {
        lemma_conv_well_formed(l.first());
        lemma_conv_list_wf(l.drop_first());
        if conv_list(l) is Ok {
            let ds = conv_list(l)->Ok_0;
            let d = conv(l.first())->Ok_0;
            let rest = conv_list(l.drop_first())->Ok_0;
            assert forall|i: int| 0 <= i < ds.len() implies dyn_wf(#[trigger] ds[i]) by {
                if i == 0 {
                    assert(ds[0] == d);
                } else {
                    assert(ds[i] == rest[i - 1]);
                }
            }
        }
    }
}

proof fn lemma_conv_entries_wf(es: Seq<(ReflectValue, ReflectValue)>)
    ensures
        conv_entries(es) is Ok ==> forall|i: int|
            0 <= i < conv_entries(es)->Ok_0.len() ==> dyn_wf(
                #[trigger] conv_entries(es)->Ok_0[i].1,
            ),
    decreases entries_size(es),
{
    if es.len() > 0 {
        lemma_conv_well_formed(es.first().1);
        lemma_conv_entries_wf(es.drop_first());
        if conv_entries(es) is Ok {
            let ps = conv_entries(es)->Ok_0;
            let d = conv(es.first().1)->Ok_0;
            let rest = conv_entries(es.drop_first())->Ok_0;
            assert forall|i: int| 0 <= i < ps.len() implies dyn_wf(#[trigger] ps[i].1) by {
                if i == 0 {
                    assert(ps[0].1 == d);
                } else {
                    assert(ps[i] == rest[i - 1]);
                }
            }
        }
    }
}

/// Model invariants of the output: whatever the schema-less walk returns is
/// well formed — no float in it encodes NaN, and every object in it has
/// pairwise distinct keys.
pub proof fn lemma_conv_well_formed(v: ReflectValue)
    ensures
        conv(v) is Ok ==> dyn_wf(conv(v)->Ok_0),
    decreases rv_size(v),
{
    match v {
        ReflectValue::F32Bits(b) => {
            if !is_nan32(b) {
                lemma_widen32_not_nan(b);
            }
        },
        ReflectValue::Message(m) => {
            lemma_conv_fields_wf(m.fields@);
            if conv_fields(m.fields@) is Ok {
                lemma_from_pairs_wf(Seq::empty(), conv_fields(m.fields@)->Ok_0);
            }
        },
        ReflectValue::List(l) => {
            lemma_conv_list_wf(l@);
        },
        ReflectValue::Mapping(es) => {
            lemma_conv_entries_wf(es@);
            if conv_entries(es@) is Ok {
                lemma_from_pairs_wf(Seq::empty(), conv_entries(es@)->Ok_0);
            }
        },
        _ => {},
    }
}

/// Cross-path equivalence: for any message, the indirect route through the
/// canonical text-object form returns exactly what the direct schema-less
/// walk returns; and since both direct walkers (consuming and by-reference)
/// return exactly `conv`, all three paths produce structurally equal
/// dynamic values, and equal errors.
pub proof fn lemma_cross_path_agreement(m: ReflectMessage)
    ensures
        td_res(tconv(ReflectValue::Message(m))) == conv(ReflectValue::Message(m)),
{
    lemma_text_bridge(ReflectValue::Message(m));
}


/// A reflective value the schema-less walk accepts: no float in it encodes
/// NaN, and every map key in it has a string form.
pub open spec fn conv_ok(v: ReflectValue) -> bool
    decreases rv_size(v),
{
    match v {
        ReflectValue::F32Bits(b) => !is_nan32(b),
        ReflectValue::F64Bits(b) => !is_nan64(b),
        ReflectValue::Message(m) => fields_conv_ok(m.fields@),
        ReflectValue::List(l) => list_conv_ok(l@),
        ReflectValue::Mapping(es) => entries_conv_ok(es@),
        _ => true,
    }
}

pub open spec fn fields_conv_ok(fs: Seq<ReflectField>) -> bool
    decreases fields_size(fs),
{
    if fs.len() == 0 {
        true
    } else {
        conv_ok(fs.first().value) && fields_conv_ok(fs.drop_first())
    }
}

pub open spec fn list_conv_ok(l: Seq<ReflectValue>) -> bool
    decreases list_size(l),
{
    if l.len() == 0 {
        true
    } else {
        conv_ok(l.first()) && list_conv_ok(l.drop_first())
    }
}

pub open spec fn entries_conv_ok(es: Seq<(ReflectValue, ReflectValue)>) -> bool
    decreases entries_size(es),
{
    if es.len() == 0 {
        true
    } else {
        spec_key_string(es.first().0) is Some && conv_ok(es.first().1) && entries_conv_ok(
            es.drop_first(),
        )
    }
}

proof fn lemma_conv_fields_ok_iff(fs: Seq<ReflectField>)
    ensures
        conv_fields(fs) is Ok <==> fields_conv_ok(fs),
    decreases fields_size(fs),
{
    if fs.len() > 0 {
        lemma_conv_ok_iff(fs.first().value);
        lemma_conv_fields_ok_iff(fs.drop_first());
    }
}

proof fn lemma_conv_list_ok_iff(l: Seq<ReflectValue>)
    ensures
        conv_list(l) is Ok <==> list_conv_ok(l),
    decreases list_size(l),
{
    if l.len() > 0 {
        lemma_conv_ok_iff(l.first());
        lemma_conv_list_ok_iff(l.drop_first());
    }
}

proof fn lemma_conv_entries_ok_iff(es: Seq<(ReflectValue, ReflectValue)>)
    ensures
        conv_entries(es) is Ok <==> entries_conv_ok(es),
    decreases entries_size(es),
{
    if es.len() > 0 {
        lemma_conv_ok_iff(es.first().1);
        lemma_conv_entries_ok_iff(es.drop_first());
    }
}

/// Exactly when success is owed: the schema-less walk succeeds if and only
/// if no float in the value encodes NaN and every map key has a string
/// form; on every other value it fails with one of the two violations.
pub proof fn lemma_conv_ok_iff(v: ReflectValue)
    ensures
        conv(v) is Ok <==> conv_ok(v),
    decreases rv_size(v),
{
    match v {
        ReflectValue::Message(m) => {
            lemma_conv_fields_ok_iff(m.fields@);
        },
        ReflectValue::List(l) => {
            lemma_conv_list_ok_iff(l@);
        },
        ReflectValue::Mapping(es) => {
            lemma_conv_entries_ok_iff(es@);
        },
        _ => {},
    }
}


/// A (value, declared kind) pair the schema-aware walk accepts: no float
/// encodes NaN, every map key has a string form, and every enum number has
/// a symbol in its declared enum type.
pub open spec fn conv_k_ok(v: ReflectValue, k: Kind) -> bool
    decreases rv_size(v),
{
    match v {
        ReflectValue::F32Bits(b) => !is_nan32(b),
        ReflectValue::F64Bits(b) => !is_nan64(b),
        ReflectValue::EnumNumber(n) => match k {
            Kind::Enum(ed) => enum_lookup(ed.values@, n) is Some,
            _ => false,
        },
        ReflectValue::Message(m) => fields_conv_k_ok(m.fields@),
        ReflectValue::List(l) => list_conv_k_ok(l@, k),
        ReflectValue::Mapping(es) => match k {
            Kind::Message(md) => match md.map_value_kind {
                Some(vk) => entries_conv_k_ok(es@, *vk),
                None => false,
            },
            _ => false,
        },
        _ => true,
    }
}

pub open spec fn fields_conv_k_ok(fs: Seq<ReflectField>) -> bool
    decreases fields_size(fs),
{
    if fs.len() == 0 {
        true
    } else {
        conv_k_ok(fs.first().value, fs.first().kind) && fields_conv_k_ok(fs.drop_first())
    }
}

pub open spec fn list_conv_k_ok(l: Seq<ReflectValue>, k: Kind) -> bool
    decreases list_size(l),
{
    if l.len() == 0 {
        true
    } else {
        conv_k_ok(l.first(), k) && list_conv_k_ok(l.drop_first(), k)
    }
}

pub open spec fn entries_conv_k_ok(es: Seq<(ReflectValue, ReflectValue)>, vk: Kind) -> bool
    decreases entries_size(es),
{
    if es.len() == 0 {
        true
    } else {
        spec_key_string(es.first().0) is Some && conv_k_ok(es.first().1, vk)
            && entries_conv_k_ok(es.drop_first(), vk)
    }
}

proof fn lemma_conv_k_fields_ok_iff(fs: Seq<ReflectField>)
    requires
        fields_kind_ok(fs),
    ensures
        conv_k_fields(fs) is Ok <==> fields_conv_k_ok(fs),
    decreases fields_size(fs),
{
    if fs.len() > 0 {
        lemma_conv_k_ok_iff(fs.first().value, fs.first().kind);
        lemma_conv_k_fields_ok_iff(fs.drop_first());
    }
}

proof fn lemma_conv_k_list_ok_iff(l: Seq<ReflectValue>, k: Kind)
    requires
        list_kind_ok(l, k),
    ensures
        conv_k_list(l, k) is Ok <==> list_conv_k_ok(l, k),
    decreases list_size(l),
{
    if l.len() > 0 {
        lemma_conv_k_ok_iff(l.first(), k);
        lemma_conv_k_list_ok_iff(l.drop_first(), k);
    }
}

proof fn lemma_conv_k_entries_ok_iff(es: Seq<(ReflectValue, ReflectValue)>, vk: Kind)
    requires
        entries_kind_ok(es, vk),
    ensures
        conv_k_entries(es, vk) is Ok <==> entries_conv_k_ok(es, vk),
    decreases entries_size(es),
{
    if es.len() > 0 {
        lemma_conv_k_ok_iff(es.first().1, vk);
        lemma_conv_k_entries_ok_iff(es.drop_first(), vk);
    }
}

/// Exactly when the schema-aware walk succeeds, on a value matching its
/// declared kind: if and only if no float encodes NaN, every map key has a
/// string form, and every enum number resolves to a symbol.
pub proof fn lemma_conv_k_ok_iff(v: ReflectValue, k: Kind)
    requires
        kind_ok(v, k),
    ensures
        conv_k(v, k) is Ok <==> conv_k_ok(v, k),
    decreases rv_size(v),
{
    match v {
        ReflectValue::Message(m) => {
            lemma_conv_k_fields_ok_iff(m.fields@);
        },
        ReflectValue::List(l) => {
            lemma_conv_k_list_ok_iff(l@, k);
        },
        ReflectValue::Mapping(es) => {
            match k {
                Kind::Message(md) => match md.map_value_kind {
                    Some(vk) => {
                        lemma_conv_k_entries_ok_iff(es@, *vk);
                    },
                    None => {},
                },
                _ => {},
            }
        },
        _ => {},
    }
}


/// No enum number occurs anywhere in the value.
pub open spec fn enum_free(v: ReflectValue) -> bool
    decreases rv_size(v),
{
    match v {
        ReflectValue::EnumNumber(_) => false,
        ReflectValue::Message(m) => fields_enum_free(m.fields@),
        ReflectValue::List(l) => list_enum_free(l@),
        ReflectValue::Mapping(es) => entries_enum_free(es@),
        _ => true,
    }
}

pub open spec fn fields_enum_free(fs: Seq<ReflectField>) -> bool
    decreases fields_size(fs),
{
    if fs.len() == 0 {
        true
    } else {
        enum_free(fs.first().value) && fields_enum_free(fs.drop_first())
    }
}

pub open spec fn list_enum_free(l: Seq<ReflectValue>) -> bool
    decreases list_size(l),
{
    if l.len() == 0 {
        true
    } else {
        enum_free(l.first()) && list_enum_free(l.drop_first())
    }
}

pub open spec fn entries_enum_free(es: Seq<(ReflectValue, ReflectValue)>) -> bool
    decreases entries_size(es),
{
    if es.len() == 0 {
        true
    } else {
        enum_free(es.first().1) && entries_enum_free(es.drop_first())
    }
}

proof fn lemma_kind_blind_fields(fs: Seq<ReflectField>)
    requires
        fields_kind_ok(fs),
        fields_enum_free(fs),
    ensures
        conv_k_fields(fs) == conv_fields(fs),
    decreases fields_size(fs),
{
    if fs.len() > 0 {
        lemma_kind_blind(fs.first().value, fs.first().kind);
        lemma_kind_blind_fields(fs.drop_first());
    }
}

proof fn lemma_kind_blind_list(l: Seq<ReflectValue>, k: Kind)
    requires
        list_kind_ok(l, k),
        list_enum_free(l),
    ensures
        conv_k_list(l, k) == conv_list(l),
    decreases list_size(l),
{
    if l.len() > 0 {
        lemma_kind_blind(l.first(), k);
        lemma_kind_blind_list(l.drop_first(), k);
    }
}

proof fn lemma_kind_blind_entries(es: Seq<(ReflectValue, ReflectValue)>, vk: Kind)
    requires
        entries_kind_ok(es, vk),
        entries_enum_free(es),
    ensures
        conv_k_entries(es, vk) == conv_entries(es),
    decreases entries_size(es),
{
    if es.len() > 0 {
        lemma_kind_blind(es.first().1, vk);
        lemma_kind_blind_entries(es.drop_first(), vk);
    }
}

/// The two direct walks differ only on enums: on a value without any enum
/// number, the schema-aware walk returns exactly what the schema-less walk
/// returns, for any matching descriptor.
pub proof fn lemma_kind_blind(v: ReflectValue, k: Kind)
    requires
        kind_ok(v, k),
        enum_free(v),
    ensures
        conv_k(v, k) == conv(v),
    decreases rv_size(v),
{
    match v {
        ReflectValue::Message(m) => {
            lemma_kind_blind_fields(m.fields@);
        },
        ReflectValue::List(l) => {
            lemma_kind_blind_list(l@, k);
        },
        ReflectValue::Mapping(es) => {
            match k {
                Kind::Message(md) => match md.map_value_kind {
                    Some(vk) => {
                        lemma_kind_blind_entries(es@, *vk);
                    },
                    None => {},
                },
                _ => {},
            }
        },
        _ => {},
    }
}


/// No float bit pattern anywhere in the value encodes NaN.
pub open spec fn nan_free(v: ReflectValue) -> bool
    decreases rv_size(v),
{
    match v {
        ReflectValue::F32Bits(b) => !is_nan32(b),
        ReflectValue::F64Bits(b) => !is_nan64(b),
        ReflectValue::Message(m) => fields_nan_free(m.fields@),
        ReflectValue::List(l) => list_nan_free(l@),
        ReflectValue::Mapping(es) => entries_nan_free(es@),
        _ => true,
    }
}

pub open spec fn fields_nan_free(fs: Seq<ReflectField>) -> bool
    decreases fields_size(fs),
{
    if fs.len() == 0 {
        true
    } else {
        nan_free(fs.first().value) && fields_nan_free(fs.drop_first())
    }
}

pub open spec fn list_nan_free(l: Seq<ReflectValue>) -> bool
    decreases list_size(l),
{
    if l.len() == 0 {
        true
    } else {
        nan_free(l.first()) && list_nan_free(l.drop_first())
    }
}

pub open spec fn entries_nan_free(es: Seq<(ReflectValue, ReflectValue)>) -> bool
    decreases entries_size(es),
{
    if es.len() == 0 {
        true
    } else {
        nan_free(es.first().1) && entries_nan_free(es.drop_first())
    }
}

proof fn lemma_fields_ok_nan_free(fs: Seq<ReflectField>)
    requires
        fields_conv_ok(fs),
    ensures
        fields_nan_free(fs),
    decreases fields_size(fs),
{
    if fs.len() > 0 {
        lemma_ok_nan_free(fs.first().value);
        lemma_fields_ok_nan_free(fs.drop_first());
    }
}

proof fn lemma_list_ok_nan_free(l: Seq<ReflectValue>)
    requires
        list_conv_ok(l),
    ensures
        list_nan_free(l),
    decreases list_size(l),
{
    if l.len() > 0 {
        lemma_ok_nan_free(l.first());
        lemma_list_ok_nan_free(l.drop_first());
    }
}

proof fn lemma_entries_ok_nan_free(es: Seq<(ReflectValue, ReflectValue)>)
    requires
        entries_conv_ok(es),
    ensures
        entries_nan_free(es),
    decreases entries_size(es),
{
    if es.len() > 0 {
        lemma_ok_nan_free(es.first().1);
        lemma_entries_ok_nan_free(es.drop_first());
    }
}

proof fn lemma_ok_nan_free(v: ReflectValue)
    requires
        conv_ok(v),
    ensures
        nan_free(v),
    decreases rv_size(v),
{
    match v {
        ReflectValue::Message(m) => {
            lemma_fields_ok_nan_free(m.fields@);
        },
        ReflectValue::List(l) => {
            lemma_list_ok_nan_free(l@);
        },
        ReflectValue::Mapping(es) => {
            lemma_entries_ok_nan_free(es@);
        },
        _ => {},
    }
}

/// NaN rejection, general form: a value with a NaN float bit pattern
/// anywhere in it never converts; the schema-less walk fails on it.
pub proof fn lemma_nan_anywhere_rejected(v: ReflectValue)
    requires
        !nan_free(v),
    ensures
        conv(v) is Err,
{
    lemma_conv_ok_iff(v);
    if conv_ok(v) {
        lemma_ok_nan_free(v);
    }
}

} // verus!
