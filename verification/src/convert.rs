//! The schema-less reflective walker: converts a reflective value into the
//! dynamic value model, either consuming the input (swapping each message
//! field out, never cloning owned data) or by reference (never mutating the
//! source). Both variants return exactly the value described by the spec
//! function `conv`, and fail on the first violation met in a depth-first,
//! left-to-right walk.
use vstd::prelude::*;
use crate::model::{
    ConvError, DynValue, ReflectField, ReflectMessage, ReflectValue, SpecDyn, SpecErr, arr_view,
    dv_view, entries_size, err_view, fields_size, lemma_obj_view, list_size, obj_view, res_view,
    rv_size,
};
use crate::numeric::{
    i64_string, is_nan32, is_nan64, nan32, nan64, spec_i64_string, spec_u64_string, spec_widen32,
    u64_string, widen32,
};

verus! {

broadcast use
    vstd::seq::group_seq_axioms,
    vstd::std_specs::vec::group_vec_axioms,
    crate::model::lemma_obj_view,
    crate::model::lemma_arr_view;

/// The string form of a map key, when the key has one: the text itself, a
/// boolean as `true` or `false`, an integer in decimal.
pub open spec fn spec_key_string(k: ReflectValue) -> Option<Seq<char>> {
    match k {
        ReflectValue::Text(s) => Some(s@),
        ReflectValue::Bool(b) => Some(
            if b {
                seq!['t', 'r', 'u', 'e']
            } else {
                seq!['f', 'a', 'l', 's', 'e']
            },
        ),
        ReflectValue::I32(i) => Some(spec_i64_string(i as int)),
        ReflectValue::I64(i) => Some(spec_i64_string(i as int)),
        ReflectValue::U32(u) => Some(spec_u64_string(u as int)),
        ReflectValue::U64(u) => Some(spec_u64_string(u as int)),
        _ => None,
    }
}

/// Inserts a key into an object: the first pair with the same key is
/// overwritten in place, a new key is appended. Keeps key uniqueness and
/// first-insertion order.
pub open spec fn obj_insert<V>(obj: Seq<(Seq<char>, V)>, k: Seq<char>, v: V) -> Seq<
    (Seq<char>, V),
>
    decreases obj,
{
    if obj.len() == 0 {
        seq![(k, v)]
    } else if obj.first().0 == k {
        seq![(k, v)].add(obj.drop_first())
    } else {
        seq![obj.first()].add(obj_insert(obj.drop_first(), k, v))
    }
}

/// Builds an object by inserting pairs left to right: a duplicate key
/// overwrites the earlier entry (last write wins).
pub open spec fn obj_from_pairs<V>(acc: Seq<(Seq<char>, V)>, ps: Seq<(Seq<char>, V)>) -> Seq<
    (Seq<char>, V),
>
    decreases ps,
{
    if ps.len() == 0 {
        acc
    } else {
        obj_from_pairs(obj_insert(acc, ps.first().0, ps.first().1), ps.drop_first())
    }
}

/// What the schema-less walk returns: scalars map one-to-one onto their
/// nearest dynamic counterpart (integers widened into the single signed
/// 64-bit domain, an unsigned 64-bit value reinterpreted into it), a 32-bit
/// float is widened before the NaN check, an enum number passes through as a
/// raw integer, and messages, lists and maps are walked depth-first, left to
/// right, stopping at the first violation.
pub open spec fn conv(v: ReflectValue) -> Result<SpecDyn, SpecErr>
    decreases rv_size(v),
{
    match v {
        ReflectValue::Bool(b) => Ok(SpecDyn::Bool(b)),
        ReflectValue::I32(i) => Ok(SpecDyn::Int(i as i64)),
        ReflectValue::I64(i) => Ok(SpecDyn::Int(i)),
        ReflectValue::U32(u) => Ok(SpecDyn::Int(u as i64)),
        ReflectValue::U64(u) => Ok(SpecDyn::Int(u as i64)),
        ReflectValue::F32Bits(b) => if is_nan32(b) {
            Err(SpecErr::InvalidFloat)
        } else {
            Ok(SpecDyn::Float(spec_widen32(b)))
        },
        ReflectValue::F64Bits(b) => if is_nan64(b) {
            Err(SpecErr::InvalidFloat)
        } else {
            Ok(SpecDyn::Float(b))
        },
        ReflectValue::Text(s) => Ok(SpecDyn::Text(s@)),
        ReflectValue::Bytes(b) => Ok(SpecDyn::Bytes(b@)),
        ReflectValue::EnumNumber(n) => Ok(SpecDyn::Int(n as i64)),
        ReflectValue::Message(m) => match conv_fields(m.fields@) {
            Ok(ps) => Ok(SpecDyn::Object(obj_from_pairs(Seq::empty(), ps))),
            Err(e) => Err(e),
        },
        ReflectValue::List(l) => match conv_list(l@) {
            Ok(ds) => Ok(SpecDyn::Array(ds)),
            Err(e) => Err(e),
        },
        ReflectValue::Mapping(es) => match conv_entries(es@) {
            Ok(ps) => Ok(SpecDyn::Object(obj_from_pairs(Seq::empty(), ps))),
            Err(e) => Err(e),
        },
    }
}

/// The (name, converted value) pairs of a message's declared fields, in
/// declaration order, or the first error.
pub open spec fn conv_fields(fs: Seq<ReflectField>) -> Result<
    Seq<(Seq<char>, SpecDyn)>,
    SpecErr,
>
    decreases fields_size(fs),
{
    if fs.len() == 0 {
        Ok(Seq::empty())
    } else {
        match conv(fs.first().value) {
            Err(e) => Err(e),
            Ok(d) => match conv_fields(fs.drop_first()) {
                Err(e) => Err(e),
                Ok(ps) => Ok(seq![(fs.first().name@, d)].add(ps)),
            },
        }
    }
}

/// The converted elements of a repeated field, in order, or the first error.
pub open spec fn conv_list(l: Seq<ReflectValue>) -> Result<Seq<SpecDyn>, SpecErr>
    decreases list_size(l),
{
    if l.len() == 0 {
        Ok(Seq::empty())
    } else {
        match conv(l.first()) {
            Err(e) => Err(e),
            Ok(d) => match conv_list(l.drop_first()) {
                Err(e) => Err(e),
                Ok(ds) => Ok(seq![d].add(ds)),
            },
        }
    }
}

/// The (stringified key, converted value) pairs of a map field, in entry
/// order, or the first error; a key with no string form is a
/// `NonStringMapKey` violation.
pub open spec fn conv_entries(es: Seq<(ReflectValue, ReflectValue)>) -> Result<
    Seq<(Seq<char>, SpecDyn)>,
    SpecErr,
>
    decreases entries_size(es),
{
    if es.len() == 0 {
        Ok(Seq::empty())
    } else {
        match spec_key_string(es.first().0) {
            None => Err(SpecErr::NonStringMapKey),
            Some(ks) => match conv(es.first().1) {
                Err(e) => Err(e),
                Ok(d) => match conv_entries(es.drop_first()) {
                    Err(e) => Err(e),
                    Ok(ps) => Ok(seq![(ks, d)].add(ps)),
                },
            },
        }
    }
}

/// Renders a map key as a string, if it has a string form.
pub fn key_string(k: &ReflectValue) -> (r: Option<String>)
    ensures
        match r {
            Some(s) => spec_key_string(*k) == Some(s@),
            None => spec_key_string(*k) is None,
        },
{
    match k {
        ReflectValue::Text(s) => Some(s.clone()),
        ReflectValue::Bool(b) => {
            proof {
                reveal_strlit("true");
                reveal_strlit("false");
                assert("true"@ =~= seq!['t', 'r', 'u', 'e']);
                assert("false"@ =~= seq!['f', 'a', 'l', 's', 'e']);
            }
            if *b {
                Some("true".to_owned())
            } else {
                Some("false".to_owned())
            }
        },
        ReflectValue::I32(i) => Some(i64_string(*i as i64)),
        ReflectValue::I64(i) => Some(i64_string(*i)),
        ReflectValue::U32(u) => Some(u64_string(*u as u64)),
        ReflectValue::U64(u) => Some(u64_string(*u)),
        _ => None,
    }
}

pub proof fn lemma_obj_insert_found<V>(obj: Seq<(Seq<char>, V)>, k: Seq<char>, v: V, j: int)
    requires
        0 <= j < obj.len(),
        obj[j].0 == k,
        forall|i: int| 0 <= i < j ==> obj[i].0 != k,
    ensures
        obj_insert(obj, k, v) =~= obj.update(j, (k, v)),
    decreases obj,
{
    if j == 0 {
        assert(obj.first().0 == k);
    } else {
        lemma_obj_insert_found(obj.drop_first(), k, v, j - 1);
        assert(obj.drop_first().update(j - 1, (k, v)) =~= obj.update(j, (k, v)).drop_first());
    }
}

pub proof fn lemma_obj_insert_absent<V>(obj: Seq<(Seq<char>, V)>, k: Seq<char>, v: V)
    requires
        forall|i: int| 0 <= i < obj.len() ==> obj[i].0 != k,
    ensures
        obj_insert(obj, k, v) =~= obj.push((k, v)),
    decreases obj,
{
    if obj.len() > 0 {
        lemma_obj_insert_absent(obj.drop_first(), k, v);
        assert(obj.drop_first().push((k, v)) =~= obj.push((k, v)).drop_first());
    }
}

/// Inserts one pair into an object held as a vector, overwriting the first
/// pair with an equal key in place, else appending.
#[verifier::loop_isolation(false)]
fn obj_insert_exec(obj: &mut Vec<(String, DynValue)>, k: String, v: DynValue)
    ensures
        obj_view(final(obj)@) == obj_insert(obj_view(old(obj)@), k@, dv_view(v)),
{
    let ghost gobj = obj_view(obj@);
    let ghost kk = k@;
    let ghost vv = dv_view(v);
    let mut j: usize = 0;
    while j < obj.len()
        invariant
            j <= obj@.len(),
            *obj == *old(obj),
            forall|i: int| 0 <= i < j ==> obj@[i].0@ != k@,
        decreases obj@.len() - j,
    {
        if obj[j].0 == k {
            obj.remove(j);
            obj.insert(j, (k, v));
            proof {
                lemma_obj_view(old(obj)@);
                lemma_obj_view(obj@);
                assert(obj@ =~= old(obj)@.update(j as int, obj@[j as int]));
                assert(obj@[j as int].0@ == kk && dv_view(obj@[j as int].1) == vv);
                lemma_obj_insert_found(gobj, kk, vv, j as int);
                assert(obj_view(obj@) =~= gobj.update(j as int, (kk, vv)));
            }
            return ;
        }
        j = j + 1;
    }
    obj.push((k, v));
    proof {
        lemma_obj_view(old(obj)@);
        lemma_obj_view(obj@);
        let last = obj@.len() - 1;
        assert(obj@ =~= old(obj)@.push(obj@[last]));
        assert(obj@[last].0@ == kk && dv_view(obj@[last].1) == vv);
        lemma_obj_insert_absent(gobj, kk, vv);
        assert(obj_view(obj@) =~= gobj.push((kk, vv)));
    }
}

/// Builds the output object from (key, value) pairs in order: a duplicate
/// key overwrites the earlier entry.
#[verifier::loop_isolation(false)]
pub(crate) fn build_object(ps: Vec<(String, DynValue)>) -> (obj: Vec<(String, DynValue)>)
    ensures
        obj_view(obj@) == obj_from_pairs(Seq::empty(), obj_view(ps@)),
{
    let ghost orig = obj_view(ps@);
    let mut ps = ps;
    let mut obj: Vec<(String, DynValue)> = Vec::new();
    while ps.len() > 0
        invariant
            obj_from_pairs(obj_view(obj@), obj_view(ps@)) == obj_from_pairs(Seq::empty(), orig),
        decreases ps@.len(),
    {
        let ghost pre = obj_view(ps@);
        let (k, v) = ps.remove(0);
        proof {
            assert(pre.drop_first() =~= obj_view(ps@));
        }
        obj_insert_exec(&mut obj, k, v);
    }
    obj
}

/// Converts a reflective value into a dynamic value, consuming it: each
/// message field is swapped out exactly once, leaving the source message in
/// a well-defined empty state. Returns exactly `conv(v)`: the first
/// violation in a depth-first, left-to-right walk aborts the conversion.
pub fn to_vrl(v: ReflectValue) -> (r: Result<DynValue, ConvError>)
    ensures
        res_view(r) == conv(v),
    decreases rv_size(v),
{
    match v {
        ReflectValue::Bool(b) => Ok(DynValue::Bool(b)),
        ReflectValue::I32(i) => Ok(DynValue::Integer(i as i64)),
        ReflectValue::I64(i) => Ok(DynValue::Integer(i)),
        ReflectValue::U32(u) => Ok(DynValue::Integer(u as i64)),
        ReflectValue::U64(u) => Ok(DynValue::Integer(u as i64)),
        ReflectValue::F32Bits(b) => {
            if nan32(b) {
                Err(ConvError::InvalidFloat)
            } else {
                Ok(DynValue::Float(widen32(b)))
            }
        },
        ReflectValue::F64Bits(b) => {
            if nan64(b) {
                Err(ConvError::InvalidFloat)
            } else {
                Ok(DynValue::Float(b))
            }
        },
        ReflectValue::Text(s) => Ok(DynValue::Text(s)),
        ReflectValue::Bytes(b) => Ok(DynValue::Bytes(b)),
        ReflectValue::EnumNumber(n) => Ok(DynValue::Integer(n as i64)),
        ReflectValue::Message(m) => {
            proof {
                assert(m.fields@.skip(0) =~= m.fields@);
            }
            match fields_take(m, 0) {
                Err(e) => Err(e),
                Ok(ps) => Ok(DynValue::Object(build_object(ps))),
            }
        },
        ReflectValue::List(l) => {
            match list_take(l) {
                Err(e) => Err(e),
                Ok(ds) => Ok(DynValue::Array(ds)),
            }
        },
        ReflectValue::Mapping(es) => {
            match entries_take(es) {
                Err(e) => Err(e),
                Ok(ps) => Ok(DynValue::Object(build_object(ps))),
            }
        },
    }
}

pub open spec fn pairs_res_view(r: Result<Vec<(String, DynValue)>, ConvError>) -> Result<
    Seq<(Seq<char>, SpecDyn)>,
    SpecErr,
> {
    match r {
        Ok(ps) => Ok(obj_view(ps@)),
        Err(e) => Err(err_view(e)),
    }
}

pub open spec fn list_res_view(r: Result<Vec<DynValue>, ConvError>) -> Result<Seq<SpecDyn>, SpecErr> {
    match r {
        Ok(ds) => Ok(arr_view(ds@)),
        Err(e) => Err(err_view(e)),
    }
}

fn fields_take(m: ReflectMessage, i: usize) -> (r: Result<Vec<(String, DynValue)>, ConvError>)
    requires
        i <= m.fields@.len(),
    ensures
        pairs_res_view(r) == conv_fields(m.fields@.skip(i as int)),
    decreases fields_size(m.fields@.skip(i as int)),
{
    let ghost fs = m.fields@.skip(i as int);
    let mut m = m;
    if i == m.fields.len() {
        Ok(Vec::new())
    } else {
        proof {
            assert(fs.first() == m.fields@[i as int]);
            assert(fs.drop_first() =~= m.fields@.skip(i as int + 1));
        }
        let taken = m.take_field(i);
        let name = m.fields[i].name.clone();
        match to_vrl(taken) {
            Err(e) => Err(e),
            Ok(d) => {
                proof {
                    assert(m.fields@.skip(i as int + 1) =~= fs.drop_first());
                }
                match fields_take(m, i + 1) {
                    Err(e) => Err(e),
                    Ok(mut ps) => {
                        let ghost rest = ps@;
                        ps.insert(0, (name, d));
                        proof {
                            assert(ps@.drop_first() =~= rest);
                            assert(obj_view(ps@) =~= seq![
                                (ps@.first().0@, dv_view(ps@.first().1)),
                            ].add(obj_view(rest)));
                        }
                        Ok(ps)
                    },
                }
            },
        }
    }
}

fn list_take(l: Vec<ReflectValue>) -> (r: Result<Vec<DynValue>, ConvError>)
    ensures
        list_res_view(r) == conv_list(l@),
    decreases list_size(l@),
{
    let ghost l0 = l@;
    let mut l = l;
    if l.len() == 0 {
        Ok(Vec::new())
    } else {
        let x = l.remove(0);
        proof {
            assert(l@ =~= l0.drop_first());
        }
        match to_vrl(x) {
            Err(e) => Err(e),
            Ok(d) => match list_take(l) {
                Err(e) => Err(e),
                Ok(mut ds) => {
                    let ghost rest = ds@;
                    ds.insert(0, d);
                    proof {
                        assert(ds@.drop_first() =~= rest);
                        assert(arr_view(ds@) =~= seq![dv_view(ds@.first())].add(arr_view(rest)));
                    }
                    Ok(ds)
                },
            },
        }
    }
}

fn entries_take(es: Vec<(ReflectValue, ReflectValue)>) -> (r: Result<
    Vec<(String, DynValue)>,
    ConvError,
>)
    ensures
        pairs_res_view(r) == conv_entries(es@),
    decreases entries_size(es@),
{
    let ghost es0 = es@;
    let mut es = es;
    if es.len() == 0 {
        Ok(Vec::new())
    } else {
        let (key, value) = es.remove(0);
        proof {
            assert(es@ =~= es0.drop_first());
        }
        match key_string(&key) {
            None => Err(ConvError::NonStringMapKey),
            Some(ks) => match to_vrl(value) {
                Err(e) => Err(e),
                Ok(d) => match entries_take(es) {
                    Err(e) => Err(e),
                    Ok(mut ps) => {
                        let ghost rest = ps@;
                        ps.insert(0, (ks, d));
                        proof {
                            assert(ps@.drop_first() =~= rest);
                            assert(obj_view(ps@) =~= seq![
                                (ps@.first().0@, dv_view(ps@.first().1)),
                            ].add(obj_view(rest)));
                        }
                        Ok(ps)
                    },
                },
            },
        }
    }
}

/// Converts a reflective value into a dynamic value without mutating or
/// consuming it, cloning only owned scalars. Returns exactly `conv(*v)`.
pub fn to_vrl_by_ref(v: &ReflectValue) -> (r: Result<DynValue, ConvError>)
    ensures
        res_view(r) == conv(*v),
    decreases rv_size(*v),
{
    match v {
        ReflectValue::Bool(b) => Ok(DynValue::Bool(*b)),
        ReflectValue::I32(i) => Ok(DynValue::Integer(*i as i64)),
        ReflectValue::I64(i) => Ok(DynValue::Integer(*i)),
        ReflectValue::U32(u) => Ok(DynValue::Integer(*u as i64)),
        ReflectValue::U64(u) => Ok(DynValue::Integer(*u as i64)),
        ReflectValue::F32Bits(b) => {
            if nan32(*b) {
                Err(ConvError::InvalidFloat)
            } else {
                Ok(DynValue::Float(widen32(*b)))
            }
        },
        ReflectValue::F64Bits(b) => {
            if nan64(*b) {
                Err(ConvError::InvalidFloat)
            } else {
                Ok(DynValue::Float(*b))
            }
        },
        ReflectValue::Text(s) => Ok(DynValue::Text(s.clone())),
        ReflectValue::Bytes(b) => Ok(DynValue::Bytes(clone_bytes(b))),
        ReflectValue::EnumNumber(n) => Ok(DynValue::Integer(*n as i64)),
        ReflectValue::Message(m) => {
            proof {
                assert(m.fields@.skip(0) =~= m.fields@);
            }
            match fields_ref(&m.fields, 0) {
                Err(e) => Err(e),
                Ok(ps) => Ok(DynValue::Object(build_object(ps))),
            }
        },
        ReflectValue::List(l) => {
            proof {
                assert(l@.skip(0) =~= l@);
            }
            match list_ref(l, 0) {
                Err(e) => Err(e),
                Ok(ds) => Ok(DynValue::Array(ds)),
            }
        },
        ReflectValue::Mapping(es) => {
            proof {
                assert(es@.skip(0) =~= es@);
            }
            match entries_ref(es, 0) {
                Err(e) => Err(e),
                Ok(ps) => Ok(DynValue::Object(build_object(ps))),
            }
        },
    }
}

/// Copies a byte buffer.
#[verifier::loop_isolation(false)]
pub(crate) fn clone_bytes(b: &Vec<u8>) -> (r: Vec<u8>)
    ensures
        r@ == b@,
{
    let mut r: Vec<u8> = Vec::new();
    let mut i: usize = 0;
    while i < b.len()
        invariant
            i <= b@.len(),
            r@ =~= b@.take(i as int),
        decreases b@.len() - i,
    {
        r.push(b[i]);
        i = i + 1;
    }
    proof {
        assert(r@ =~= b@);
    }
    r
}

fn fields_ref(fs: &Vec<ReflectField>, i: usize) -> (r: Result<Vec<(String, DynValue)>, ConvError>)
    requires
        i <= fs@.len(),
    ensures
        pairs_res_view(r) == conv_fields(fs@.skip(i as int)),
    decreases fields_size(fs@.skip(i as int)),
{
    if i == fs.len() {
        Ok(Vec::new())
    } else {
        proof {
            assert(fs@.skip(i as int).first() == fs@[i as int]);
            assert(fs@.skip(i as int).drop_first() =~= fs@.skip(i as int + 1));
        }
        match to_vrl_by_ref(&fs[i].value) {
            Err(e) => Err(e),
            Ok(d) => match fields_ref(fs, i + 1) {
                Err(e) => Err(e),
                Ok(mut ps) => {
                    let name = fs[i].name.clone();
                    let ghost rest = ps@;
                    ps.insert(0, (name, d));
                    proof {
                        assert(ps@.drop_first() =~= rest);
                        assert(obj_view(ps@) =~= seq![
                            (ps@.first().0@, dv_view(ps@.first().1)),
                        ].add(obj_view(rest)));
                    }
                    Ok(ps)
                },
            },
        }
    }
}

fn list_ref(l: &Vec<ReflectValue>, i: usize) -> (r: Result<Vec<DynValue>, ConvError>)
    requires
        i <= l@.len(),
    ensures
        list_res_view(r) == conv_list(l@.skip(i as int)),
    decreases list_size(l@.skip(i as int)),
{
    if i == l.len() {
        Ok(Vec::new())
    } else {
        proof {
            assert(l@.skip(i as int).first() == l@[i as int]);
            assert(l@.skip(i as int).drop_first() =~= l@.skip(i as int + 1));
        }
        match to_vrl_by_ref(&l[i]) {
            Err(e) => Err(e),
            Ok(d) => match list_ref(l, i + 1) {
                Err(e) => Err(e),
                Ok(mut ds) => {
                    let ghost rest = ds@;
                    ds.insert(0, d);
                    proof {
                        assert(ds@.drop_first() =~= rest);
                        assert(arr_view(ds@) =~= seq![dv_view(ds@.first())].add(arr_view(rest)));
                    }
                    Ok(ds)
                },
            },
        }
    }
}

fn entries_ref(es: &Vec<(ReflectValue, ReflectValue)>, i: usize) -> (r: Result<
    Vec<(String, DynValue)>,
    ConvError,
>)
    requires
        i <= es@.len(),
    ensures
        pairs_res_view(r) == conv_entries(es@.skip(i as int)),
    decreases entries_size(es@.skip(i as int)),
{
    if i == es.len() {
        Ok(Vec::new())
    } else {
        proof {
            assert(es@.skip(i as int).first() == es@[i as int]);
            assert(es@.skip(i as int).drop_first() =~= es@.skip(i as int + 1));
        }
        match key_string(&es[i].0) {
            None => Err(ConvError::NonStringMapKey),
            Some(ks) => match to_vrl_by_ref(&es[i].1) {
                Err(e) => Err(e),
                Ok(d) => match entries_ref(es, i + 1) {
                    Err(e) => Err(e),
                    Ok(mut ps) => {
                        let ghost rest = ps@;
                        ps.insert(0, (ks, d));
                        proof {
                            assert(ps@.drop_first() =~= rest);
                            assert(obj_view(ps@) =~= seq![
                                (ps@.first().0@, dv_view(ps@.first().1)),
                            ].add(obj_view(rest)));
                        }
                        Ok(ps)
                    },
                },
            },
        }
    }
}

} // verus!
