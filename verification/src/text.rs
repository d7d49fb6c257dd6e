//! The indirect converter: serializes the message into a canonical
//! text-object form first (emitting every declared field, defaults
//! included, with enum numbers kept as numbers), then re-maps that generic
//! model losslessly into the dynamic value model. It is the baseline the
//! direct walkers are validated against: the cross-path agreement law at
//! the end of this module proves that the composition returns exactly what
//! the direct schema-less walk returns.
use vstd::prelude::*;
use crate::model::{
    ConvError, DynValue, ReflectField, ReflectMessage, ReflectValue, SpecDyn, SpecErr, dv_view,
    entries_size, err_view, fields_size, list_size, res_view, rv_size,
};
use crate::numeric::{is_nan32, is_nan64, nan32, nan64, spec_widen32, widen32};
use crate::convert::{
    clone_bytes, conv, conv_entries, conv_fields, conv_list, key_string, lemma_obj_insert_absent,
    lemma_obj_insert_found, obj_from_pairs, obj_insert, spec_key_string,
};

verus! {

broadcast use vstd::seq::group_seq_axioms, vstd::std_specs::vec::group_vec_axioms;

/// A value of the canonical text-object form: the generic, loosely typed
/// shape a textual serialization parses into. Its type system is a
/// superset-compatible image of the dynamic model, so the re-mapping into
/// the dynamic model is total.
#[derive(Debug, PartialEq)]
pub enum TextValue {
    Null,
    Bool(bool),
    Integer(i64),
    Float(u64),
    Text(String),
    Bytes(Vec<u8>),
    Object(Vec<(String, TextValue)>),
    Array(Vec<TextValue>),
}

/// Mathematical form of a text-object value.
#[verifier::ext_equal]
pub enum SpecText {
    Null,
    Bool(bool),
    Int(i64),
    Float(u64),
    Text(Seq<char>),
    Bytes(Seq<u8>),
    Object(Seq<(Seq<char>, SpecText)>),
    Array(Seq<SpecText>),
}

/// Abstraction of a text-object value.
pub open spec fn tv_view(t: TextValue) -> SpecText
    decreases t,
{
    match t {
        TextValue::Null => SpecText::Null,
        TextValue::Bool(b) => SpecText::Bool(b),
        TextValue::Integer(i) => SpecText::Int(i),
        TextValue::Float(b) => SpecText::Float(b),
        TextValue::Text(s) => SpecText::Text(s@),
        TextValue::Bytes(b) => SpecText::Bytes(b@),
        TextValue::Object(obj) => SpecText::Object(tobj_view(obj@)),
        TextValue::Array(a) => SpecText::Array(tarr_view(a@)),
    }
}

pub open spec fn tobj_view(s: Seq<(String, TextValue)>) -> Seq<(Seq<char>, SpecText)>
    decreases s,
{
    if s.len() == 0 {
        Seq::empty()
    } else {
        seq![(s.first().0@, tv_view(s.first().1))].add(tobj_view(s.drop_first()))
    }
}

pub open spec fn tarr_view(s: Seq<TextValue>) -> Seq<SpecText>
    decreases s,
{
    if s.len() == 0 {
        Seq::empty()
    } else {
        seq![tv_view(s.first())].add(tarr_view(s.drop_first()))
    }
}

pub open spec fn tres_view(r: Result<TextValue, ConvError>) -> Result<SpecText, SpecErr> {
    match r {
        Ok(t) => Ok(tv_view(t)),
        Err(e) => Err(err_view(e)),
    }
}

spec fn tpairs_res_view(r: Result<Vec<(String, TextValue)>, ConvError>) -> Result<
    Seq<(Seq<char>, SpecText)>,
    SpecErr,
> {
    match r {
        Ok(ps) => Ok(tobj_view(ps@)),
        Err(e) => Err(err_view(e)),
    }
}

spec fn tlist_res_view(r: Result<Vec<TextValue>, ConvError>) -> Result<Seq<SpecText>, SpecErr> {
    match r {
        Ok(ds) => Ok(tarr_view(ds@)),
        Err(e) => Err(err_view(e)),
    }
}

/// The canonical text-object form of a reflective value: every declared
/// field is emitted, defaults included; enum numbers stay numbers; floats
/// are NaN-checked exactly as in the direct walks; map keys are
/// stringified under the same rule.
pub open spec fn tconv(v: ReflectValue) -> Result<SpecText, SpecErr>
    decreases rv_size(v),
{
    match v {
        ReflectValue::Bool(b) => Ok(SpecText::Bool(b)),
        ReflectValue::I32(i) => Ok(SpecText::Int(i as i64)),
        ReflectValue::I64(i) => Ok(SpecText::Int(i)),
        ReflectValue::U32(u) => Ok(SpecText::Int(u as i64)),
        ReflectValue::U64(u) => Ok(SpecText::Int(u as i64)),
        ReflectValue::F32Bits(b) => if is_nan32(b) {
            Err(SpecErr::InvalidFloat)
        } else {
            Ok(SpecText::Float(spec_widen32(b)))
        },
        ReflectValue::F64Bits(b) => if is_nan64(b) {
            Err(SpecErr::InvalidFloat)
        } else {
            Ok(SpecText::Float(b))
        },
        ReflectValue::Text(s) => Ok(SpecText::Text(s@)),
        ReflectValue::Bytes(b) => Ok(SpecText::Bytes(b@)),
        ReflectValue::EnumNumber(n) => Ok(SpecText::Int(n as i64)),
        ReflectValue::Message(m) => match tconv_fields(m.fields@) {
            Ok(ps) => Ok(SpecText::Object(obj_from_pairs(Seq::empty(), ps))),
            Err(e) => Err(e),
        },
        ReflectValue::List(l) => match tconv_list(l@) {
            Ok(ds) => Ok(SpecText::Array(ds)),
            Err(e) => Err(e),
        },
        ReflectValue::Mapping(es) => match tconv_entries(es@) {
            Ok(ps) => Ok(SpecText::Object(obj_from_pairs(Seq::empty(), ps))),
            Err(e) => Err(e),
        },
    }
}

pub open spec fn tconv_fields(fs: Seq<ReflectField>) -> Result<
    Seq<(Seq<char>, SpecText)>,
    SpecErr,
>
    decreases fields_size(fs),
{
    if fs.len() == 0 {
        Ok(Seq::empty())
    } else {
        match tconv(fs.first().value) {
            Err(e) => Err(e),
            Ok(d) => match tconv_fields(fs.drop_first()) {
                Err(e) => Err(e),
                Ok(ps) => Ok(seq![(fs.first().name@, d)].add(ps)),
            },
        }
    }
}

pub open spec fn tconv_list(l: Seq<ReflectValue>) -> Result<Seq<SpecText>, SpecErr>
    decreases list_size(l),
{
    if l.len() == 0 {
        Ok(Seq::empty())
    } else {
        match tconv(l.first()) {
            Err(e) => Err(e),
            Ok(d) => match tconv_list(l.drop_first()) {
                Err(e) => Err(e),
                Ok(ds) => Ok(seq![d].add(ds)),
            },
        }
    }
}

pub open spec fn tconv_entries(es: Seq<(ReflectValue, ReflectValue)>) -> Result<
    Seq<(Seq<char>, SpecText)>,
    SpecErr,
>
    decreases entries_size(es),
{
    if es.len() == 0 {
        Ok(Seq::empty())
    } else {
        match spec_key_string(es.first().0) {
            None => Err(SpecErr::NonStringMapKey),
            Some(ks) => match tconv(es.first().1) {
                Err(e) => Err(e),
                Ok(d) => match tconv_entries(es.drop_first()) {
                    Err(e) => Err(e),
                    Ok(ps) => Ok(seq![(ks, d)].add(ps)),
                },
            },
        }
    }
}

/// The lossless re-mapping of the text-object model into the dynamic model.
pub open spec fn td(t: SpecText) -> SpecDyn
    decreases t,
{
    match t {
        SpecText::Null => SpecDyn::Null,
        SpecText::Bool(b) => SpecDyn::Bool(b),
        SpecText::Int(i) => SpecDyn::Int(i),
        SpecText::Float(b) => SpecDyn::Float(b),
        SpecText::Text(s) => SpecDyn::Text(s),
        SpecText::Bytes(b) => SpecDyn::Bytes(b),
        SpecText::Object(o) => SpecDyn::Object(td_pairs(o)),
        SpecText::Array(a) => SpecDyn::Array(td_seq(a)),
    }
}

pub open spec fn td_pairs(o: Seq<(Seq<char>, SpecText)>) -> Seq<(Seq<char>, SpecDyn)>
    decreases o,
{
    if o.len() == 0 {
        Seq::empty()
    } else {
        seq![(o.first().0, td(o.first().1))].add(td_pairs(o.drop_first()))
    }
}

pub open spec fn td_seq(a: Seq<SpecText>) -> Seq<SpecDyn>
    decreases a,
{
    if a.len() == 0 {
        Seq::empty()
    } else {
        seq![td(a.first())].add(td_seq(a.drop_first()))
    }
}

pub open spec fn td_res(r: Result<SpecText, SpecErr>) -> Result<SpecDyn, SpecErr> {
    match r {
        Ok(t) => Ok(td(t)),
        Err(e) => Err(e),
    }
}

broadcast proof fn lemma_td_pairs(o: Seq<(Seq<char>, SpecText)>)
    ensures
        (#[trigger] td_pairs(o)).len() == o.len(),
        forall|i: int| 0 <= i < o.len() ==> td_pairs(o)[i] == (o[i].0, td(o[i].1)),
    decreases o,
{
    if o.len() > 0 {
        lemma_td_pairs(o.drop_first());
    }
}

broadcast proof fn lemma_td_seq(a: Seq<SpecText>)
    ensures
        (#[trigger] td_seq(a)).len() == a.len(),
        forall|i: int| 0 <= i < a.len() ==> td_seq(a)[i] == td(a[i]),
    decreases a,
{
    if a.len() > 0 {
        lemma_td_seq(a.drop_first());
    }
}

proof fn lemma_td_insert(o: Seq<(Seq<char>, SpecText)>, k: Seq<char>, v: SpecText)
    ensures
        td_pairs(obj_insert(o, k, v)) =~= obj_insert(td_pairs(o), k, td(v)),
    decreases o,
{
    broadcast use lemma_td_pairs;

    if o.len() == 0 {
    } else if o.first().0 == k {
        assert(seq![(k, v)].add(o.drop_first()).drop_first() =~= o.drop_first());
    } else {
        lemma_td_insert(o.drop_first(), k, v);
        assert(seq![o.first()].add(obj_insert(o.drop_first(), k, v)).drop_first() =~= obj_insert(
            o.drop_first(),
            k,
            v,
        ));
        assert(td_pairs(o).drop_first() =~= td_pairs(o.drop_first()));
    }
}

proof fn lemma_td_from_pairs(acc: Seq<(Seq<char>, SpecText)>, ps: Seq<(Seq<char>, SpecText)>)
    ensures
        td_pairs(obj_from_pairs(acc, ps)) =~= obj_from_pairs(td_pairs(acc), td_pairs(ps)),
    decreases ps,
{
    broadcast use lemma_td_pairs;

    if ps.len() == 0 {
    } else {
        lemma_td_insert(acc, ps.first().0, ps.first().1);
        lemma_td_from_pairs(obj_insert(acc, ps.first().0, ps.first().1), ps.drop_first());
        assert(td_pairs(ps).drop_first() =~= td_pairs(ps.drop_first()));
        assert(td_pairs(ps).first() == (ps.first().0, td(ps.first().1)));
    }
}

/// Cross-path agreement: re-mapping the canonical text-object form of a
/// reflective value into the dynamic model returns exactly what the direct
/// schema-less walk returns, violations included.
pub proof fn lemma_text_bridge(v: ReflectValue)
    ensures
        td_res(tconv(v)) == conv(v),
    decreases rv_size(v),
{
    match v {
        ReflectValue::Message(m) => {
            lemma_text_bridge_fields(m.fields@);
            if tconv_fields(m.fields@) is Ok {
                let tps = tconv_fields(m.fields@)->Ok_0;
                lemma_td_from_pairs(Seq::empty(), tps);
                assert(td_pairs(Seq::empty()) =~= Seq::<(Seq<char>, SpecDyn)>::empty());
                assert(obj_from_pairs(Seq::<(Seq<char>, SpecDyn)>::empty(), td_pairs(tps))
                    =~= obj_from_pairs(td_pairs(Seq::empty()), td_pairs(tps)));
            }
        },
        ReflectValue::List(l) => {
            lemma_text_bridge_list(l@);
        },
        ReflectValue::Mapping(es) => {
            lemma_text_bridge_entries(es@);
            if tconv_entries(es@) is Ok {
                let tps = tconv_entries(es@)->Ok_0;
                lemma_td_from_pairs(Seq::empty(), tps);
                assert(td_pairs(Seq::empty()) =~= Seq::<(Seq<char>, SpecDyn)>::empty());
                assert(obj_from_pairs(Seq::<(Seq<char>, SpecDyn)>::empty(), td_pairs(tps))
                    =~= obj_from_pairs(td_pairs(Seq::empty()), td_pairs(tps)));
            }
        },
        _ => {},
    }
}

proof fn lemma_text_bridge_fields(fs: Seq<ReflectField>)
    ensures
        match tconv_fields(fs) {
            Ok(tps) => conv_fields(fs) == Ok::<_, SpecErr>(td_pairs(tps)),
            Err(e) => conv_fields(fs) == Err::<Seq<(Seq<char>, SpecDyn)>, _>(e),
        },
    decreases fields_size(fs),
{
    broadcast use lemma_td_pairs;

    if fs.len() == 0 {
        assert(td_pairs(Seq::empty()) =~= Seq::<(Seq<char>, SpecDyn)>::empty());
    } else {
        lemma_text_bridge(fs.first().value);
        lemma_text_bridge_fields(fs.drop_first());
        if tconv_fields(fs) is Ok {
            let tps = tconv_fields(fs)->Ok_0;
            let d = tconv(fs.first().value)->Ok_0;
            let rest = tconv_fields(fs.drop_first())->Ok_0;
            assert(td_pairs(tps) =~= seq![(fs.first().name@, td(d))].add(td_pairs(rest)));
        }
    }
}

proof fn lemma_text_bridge_list(l: Seq<ReflectValue>)
    ensures
        match tconv_list(l) {
            Ok(ts) => conv_list(l) == Ok::<_, SpecErr>(td_seq(ts)),
            Err(e) => conv_list(l) == Err::<Seq<SpecDyn>, _>(e),
        },
    decreases list_size(l),
{
    broadcast use lemma_td_seq;

    if l.len() == 0 {
        assert(td_seq(Seq::empty()) =~= Seq::<SpecDyn>::empty());
    } else {
        lemma_text_bridge(l.first());
        lemma_text_bridge_list(l.drop_first());
        if tconv_list(l) is Ok {
            let ts = tconv_list(l)->Ok_0;
            let d = tconv(l.first())->Ok_0;
            let rest = tconv_list(l.drop_first())->Ok_0;
            assert(td_seq(ts) =~= seq![td(d)].add(td_seq(rest)));
        }
    }
}

proof fn lemma_text_bridge_entries(es: Seq<(ReflectValue, ReflectValue)>)
    ensures
        match tconv_entries(es) {
            Ok(tps) => conv_entries(es) == Ok::<_, SpecErr>(td_pairs(tps)),
            Err(e) => conv_entries(es) == Err::<Seq<(Seq<char>, SpecDyn)>, _>(e),
        },
    decreases entries_size(es),
{
    broadcast use lemma_td_pairs;

    if es.len() == 0 {
        assert(td_pairs(Seq::empty()) =~= Seq::<(Seq<char>, SpecDyn)>::empty());
    } else {
        lemma_text_bridge(es.first().1);
        lemma_text_bridge_entries(es.drop_first());
        if tconv_entries(es) is Ok {
            let tps = tconv_entries(es)->Ok_0;
            let ks = spec_key_string(es.first().0)->0;
            let d = tconv(es.first().1)->Ok_0;
            let rest = tconv_entries(es.drop_first())->Ok_0;
            assert(td_pairs(tps) =~= seq![(ks, td(d))].add(td_pairs(rest)));
        }
    }
}


pub broadcast proof fn lemma_tobj_view(s: Seq<(String, TextValue)>)
    ensures
        (#[trigger] tobj_view(s)).len() == s.len(),
        forall|i: int| 0 <= i < s.len() ==> tobj_view(s)[i] == (s[i].0@, tv_view(s[i].1)),
    decreases s,
{
    if s.len() > 0 {
        lemma_tobj_view(s.drop_first());
    }
}

pub broadcast proof fn lemma_tarr_view(s: Seq<TextValue>)
    ensures
        (#[trigger] tarr_view(s)).len() == s.len(),
        forall|i: int| 0 <= i < s.len() ==> tarr_view(s)[i] == tv_view(s[i]),
    decreases s,
{
    if s.len() > 0 {
        lemma_tarr_view(s.drop_first());
    }
}

/// Size of a text-object value: the termination measure of its walks.
pub open spec fn tv_size(t: TextValue) -> nat
    decreases t,
{
    match t {
        TextValue::Object(o) => 1 + tps_size(o@),
        TextValue::Array(a) => 1 + tl_size(a@),
        _ => 1,
    }
}

pub open spec fn tps_size(s: Seq<(String, TextValue)>) -> nat
    decreases s,
{
    if s.len() == 0 {
        0
    } else {
        1 + tv_size(s.first().1) + tps_size(s.drop_first())
    }
}

pub open spec fn tl_size(s: Seq<TextValue>) -> nat
    decreases s,
{
    if s.len() == 0 {
        0
    } else {
        1 + tv_size(s.first()) + tl_size(s.drop_first())
    }
}

#[verifier::loop_isolation(false)]
fn tobj_insert_exec(obj: &mut Vec<(String, TextValue)>, k: String, v: TextValue)
    ensures
        tobj_view(final(obj)@) == obj_insert(tobj_view(old(obj)@), k@, tv_view(v)),
{
    let ghost gobj = tobj_view(obj@);
    let ghost kk = k@;
    let ghost vv = tv_view(v);
    let mut j: usize = 0;
    while j < obj.len()
        invariant
            j <= obj@.len(),
            *obj == *old(obj),
            forall|i: int| 0 <= i < j ==> obj@[i].0@ != k@,
        decreases obj@.len() - j,
    {
        if obj[j].0 == k {
            obj.remove(j);
            obj.insert(j, (k, v));
            proof {
                lemma_tobj_view(old(obj)@);
                lemma_tobj_view(obj@);
                assert(obj@ =~= old(obj)@.update(j as int, obj@[j as int]));
                assert(obj@[j as int].0@ == kk && tv_view(obj@[j as int].1) == vv);
                lemma_obj_insert_found(gobj, kk, vv, j as int);
                assert(tobj_view(obj@) =~= gobj.update(j as int, (kk, vv)));
            }
            return ;
        }
        j = j + 1;
    }
    obj.push((k, v));
    proof {
        lemma_tobj_view(old(obj)@);
        lemma_tobj_view(obj@);
        let last = obj@.len() - 1;
        assert(obj@ =~= old(obj)@.push(obj@[last]));
        assert(obj@[last].0@ == kk && tv_view(obj@[last].1) == vv);
        lemma_obj_insert_absent(gobj, kk, vv);
        assert(tobj_view(obj@) =~= gobj.push((kk, vv)));
    }
}

#[verifier::loop_isolation(false)]
fn tbuild_object(ps: Vec<(String, TextValue)>) -> (obj: Vec<(String, TextValue)>)
    ensures
        tobj_view(obj@) == obj_from_pairs(Seq::empty(), tobj_view(ps@)),
{
    let ghost orig = tobj_view(ps@);
    let mut ps = ps;
    let mut obj: Vec<(String, TextValue)> = Vec::new();
    while ps.len() > 0
        invariant
            obj_from_pairs(tobj_view(obj@), tobj_view(ps@)) == obj_from_pairs(Seq::empty(), orig),
        decreases ps@.len(),
    {
        let ghost pre = tobj_view(ps@);
        let (k, v) = ps.remove(0);
        proof {
            assert(pre.drop_first() =~= tobj_view(ps@));
        }
        tobj_insert_exec(&mut obj, k, v);
    }
    obj
}

fn tfields_ref(fs: &Vec<ReflectField>, i: usize) -> (r: Result<Vec<(String, TextValue)>, ConvError>)
    requires
        i <= fs@.len(),
    ensures
        tpairs_res_view(r) == tconv_fields(fs@.skip(i as int)),
    decreases fields_size(fs@.skip(i as int)),
{
    if i == fs.len() {
        Ok(Vec::new())
    } else {
        proof {
            assert(fs@.skip(i as int).first() == fs@[i as int]);
            assert(fs@.skip(i as int).drop_first() =~= fs@.skip(i as int + 1));
        }
        match value_to_text(&fs[i].value) {
            Err(e) => Err(e),
            Ok(d) => match tfields_ref(fs, i + 1) {
                Err(e) => Err(e),
                Ok(mut ps) => {
                    let name = fs[i].name.clone();
                    let ghost rest = ps@;
                    ps.insert(0, (name, d));
                    proof {
                        assert(ps@.drop_first() =~= rest);
                        assert(tobj_view(ps@) =~= seq![
                            (ps@.first().0@, tv_view(ps@.first().1)),
                        ].add(tobj_view(rest)));
                    }
                    Ok(ps)
                },
            },
        }
    }
}

fn tlist_ref(l: &Vec<ReflectValue>, i: usize) -> (r: Result<Vec<TextValue>, ConvError>)
    requires
        i <= l@.len(),
    ensures
        tlist_res_view(r) == tconv_list(l@.skip(i as int)),
    decreases list_size(l@.skip(i as int)),
{
    if i == l.len() {
        Ok(Vec::new())
    } else {
        proof {
            assert(l@.skip(i as int).first() == l@[i as int]);
            assert(l@.skip(i as int).drop_first() =~= l@.skip(i as int + 1));
        }
        match value_to_text(&l[i]) {
            Err(e) => Err(e),
            Ok(d) => match tlist_ref(l, i + 1) {
                Err(e) => Err(e),
                Ok(mut ds) => {
                    let ghost rest = ds@;
                    ds.insert(0, d);
                    proof {
                        assert(ds@.drop_first() =~= rest);
                        assert(tarr_view(ds@) =~= seq![tv_view(ds@.first())].add(tarr_view(rest)));
                    }
                    Ok(ds)
                },
            },
        }
    }
}

fn tentries_ref(es: &Vec<(ReflectValue, ReflectValue)>, i: usize) -> (r: Result<
    Vec<(String, TextValue)>,
    ConvError,
>)
    requires
        i <= es@.len(),
    ensures
        tpairs_res_view(r) == tconv_entries(es@.skip(i as int)),
    decreases entries_size(es@.skip(i as int)),
{
    if i == es.len() {
        Ok(Vec::new())
    } else {
        proof {
            assert(es@.skip(i as int).first() == es@[i as int]);
            assert(es@.skip(i as int).drop_first() =~= es@.skip(i as int + 1));
        }
        match key_string(&es[i].0) {
            None => Err(ConvError::NonStringMapKey),
            Some(ks) => match value_to_text(&es[i].1) {
                Err(e) => Err(e),
                Ok(d) => match tentries_ref(es, i + 1) {
                    Err(e) => Err(e),
                    Ok(mut ps) => {
                        let ghost rest = ps@;
                        ps.insert(0, (ks, d));
                        proof {
                            assert(ps@.drop_first() =~= rest);
                            assert(tobj_view(ps@) =~= seq![
                                (ps@.first().0@, tv_view(ps@.first().1)),
                            ].add(tobj_view(rest)));
                        }
                        Ok(ps)
                    },
                },
            },
        }
    }
}

/// Serializes a reflective value into the canonical text-object form.
fn value_to_text(v: &ReflectValue) -> (r: Result<TextValue, ConvError>)
    ensures
        tres_view(r) == tconv(*v),
    decreases rv_size(*v),
{
    match v {
        ReflectValue::Bool(b) => Ok(TextValue::Bool(*b)),
        ReflectValue::I32(i) => Ok(TextValue::Integer(*i as i64)),
        ReflectValue::I64(i) => Ok(TextValue::Integer(*i)),
        ReflectValue::U32(u) => Ok(TextValue::Integer(*u as i64)),
        ReflectValue::U64(u) => Ok(TextValue::Integer(*u as i64)),
        ReflectValue::F32Bits(b) => {
            if nan32(*b) {
                Err(ConvError::InvalidFloat)
            } else {
                Ok(TextValue::Float(widen32(*b)))
            }
        },
        ReflectValue::F64Bits(b) => {
            if nan64(*b) {
                Err(ConvError::InvalidFloat)
            } else {
                Ok(TextValue::Float(*b))
            }
        },
        ReflectValue::Text(s) => Ok(TextValue::Text(s.clone())),
        ReflectValue::Bytes(b) => Ok(TextValue::Bytes(clone_bytes(b))),
        ReflectValue::EnumNumber(n) => Ok(TextValue::Integer(*n as i64)),
        ReflectValue::Message(m) => {
            proof {
                assert(m.fields@.skip(0) =~= m.fields@);
            }
            match tfields_ref(&m.fields, 0) {
                Err(e) => Err(e),
                Ok(ps) => Ok(TextValue::Object(tbuild_object(ps))),
            }
        },
        ReflectValue::List(l) => {
            proof {
                assert(l@.skip(0) =~= l@);
            }
            match tlist_ref(l, 0) {
                Err(e) => Err(e),
                Ok(ds) => Ok(TextValue::Array(ds)),
            }
        },
        ReflectValue::Mapping(es) => {
            proof {
                assert(es@.skip(0) =~= es@);
            }
            match tentries_ref(es, 0) {
                Err(e) => Err(e),
                Ok(ps) => Ok(TextValue::Object(tbuild_object(ps))),
            }
        },
    }
}

/// Serializes a whole reflective message into the canonical text-object
/// form: every declared field is emitted, defaults included.
pub fn message_to_text(m: &ReflectMessage) -> (r: Result<TextValue, ConvError>)
    ensures
        tres_view(r) == tconv(ReflectValue::Message(*m)),
{
    proof {
        assert(m.fields@.skip(0) =~= m.fields@);
    }
    match tfields_ref(&m.fields, 0) {
        Err(e) => Err(e),
        Ok(ps) => Ok(TextValue::Object(tbuild_object(ps))),
    }
}

fn tarr_to_dyn(a: Vec<TextValue>) -> (r: Vec<DynValue>)
    ensures
        crate::model::arr_view(r@) == td_seq(tarr_view(a@)),
    decreases tl_size(a@),
{
    let ghost a0 = a@;
    let mut a = a;
    let mut out: Vec<DynValue> = Vec::new();
    if a.len() == 0 {
        proof {
            assert(crate::model::arr_view(out@) =~= td_seq(tarr_view(a0)));
        }
        out
    } else {
        let x = a.remove(0);
        proof {
            assert(a@ =~= a0.drop_first());
        }
        let d = text_to_dyn(x);
        let mut rest = tarr_to_dyn(a);
        let ghost pre = rest@;
        rest.insert(0, d);
        proof {
            assert(rest@.drop_first() =~= pre);
            assert(crate::model::arr_view(rest@) =~= seq![dv_view(rest@.first())].add(
                crate::model::arr_view(pre),
            ));
            assert(tarr_view(a0).drop_first() =~= tarr_view(a0.drop_first()));
            assert(td_seq(tarr_view(a0)) =~= seq![td(tarr_view(a0).first())].add(
                td_seq(tarr_view(a0).drop_first()),
            ));
            assert(crate::model::arr_view(rest@) =~= td_seq(tarr_view(a0)));
        }
        rest
    }
}

/// Re-maps a text-object value losslessly into the dynamic model.
pub fn text_to_dyn(t: TextValue) -> (r: DynValue)
    ensures
        dv_view(r) == td(tv_view(t)),
    decreases tv_size(t),
{
    match t {
        TextValue::Null => DynValue::Null,
        TextValue::Bool(b) => DynValue::Bool(b),
        TextValue::Integer(i) => DynValue::Integer(i),
        TextValue::Float(b) => DynValue::Float(b),
        TextValue::Text(s) => DynValue::Text(s),
        TextValue::Bytes(b) => DynValue::Bytes(b),
        TextValue::Object(o) => DynValue::Object(tobj_to_dyn(o)),
        TextValue::Array(a) => DynValue::Array(tarr_to_dyn(a)),
    }
}

fn tobj_to_dyn(o: Vec<(String, TextValue)>) -> (r: Vec<(String, DynValue)>)
    ensures
        crate::model::obj_view(r@) == td_pairs(tobj_view(o@)),
    decreases tps_size(o@),
{
    let ghost o0 = o@;
    let mut o = o;
    if o.len() == 0 {
        let out: Vec<(String, DynValue)> = Vec::new();
        proof {
            assert(crate::model::obj_view(out@) =~= td_pairs(tobj_view(o0)));
        }
        out
    } else {
        let (k, v) = o.remove(0);
        proof {
            assert(o@ =~= o0.drop_first());
        }
        let d = text_to_dyn(v);
        let mut rest = tobj_to_dyn(o);
        let ghost pre = rest@;
        rest.insert(0, (k, d));
        proof {
            assert(rest@.drop_first() =~= pre);
            assert(crate::model::obj_view(rest@) =~= seq![
                (rest@.first().0@, dv_view(rest@.first().1)),
            ].add(crate::model::obj_view(pre)));
            assert(tobj_view(o0).drop_first() =~= tobj_view(o0.drop_first()));
            assert(td_pairs(tobj_view(o0)) =~= seq![
                (tobj_view(o0).first().0, td(tobj_view(o0).first().1)),
            ].add(td_pairs(tobj_view(o0).drop_first())));
            assert(crate::model::obj_view(rest@) =~= td_pairs(tobj_view(o0)));
        }
        rest
    }
}

/// Converts a reflective message through the text bridge: serialize to the
/// canonical text-object form, then re-map into the dynamic model. Returns
/// exactly what the direct schema-less walk of the same message returns.
pub fn to_vrl_via_json(m: ReflectMessage) -> (r: Result<DynValue, ConvError>)
    ensures
        res_view(r) == conv(ReflectValue::Message(m)),
{
    proof {
        lemma_text_bridge(ReflectValue::Message(m));
    }
    match message_to_text(&m) {
        Err(e) => Err(e),
        Ok(t) => Ok(text_to_dyn(t)),
    }
}

} // verus!
