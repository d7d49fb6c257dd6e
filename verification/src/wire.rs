//! Wire encoding of the demonstration message: a person with an optional
//! name and a repeated list of phone numbers, each with an optional number
//! and an optional phone-type enum. The encoder emits the protobuf wire
//! format: a single-byte tag per present field, varint lengths and values,
//! UTF-8 bytes for strings, and is proved to return exactly the byte
//! sequence the specification functions describe.
use vstd::prelude::*;
use vstd::utf8::encode_utf8;

verus! {

broadcast use vstd::seq::group_seq_axioms, vstd::std_specs::vec::group_vec_axioms;

/// One phone number of a person: the number's text and the phone type's
/// enum number, each optional.
#[derive(Debug, Clone, PartialEq)]
pub struct PhoneNumber {
    pub number: Option<String>,
    pub phone_type: Option<i32>,
}

/// The demonstration message: an optional name and the declared phone
/// numbers, in order.
#[derive(Debug, Clone, PartialEq)]
pub struct Person {
    pub name: Option<String>,
    pub phones: Vec<PhoneNumber>,
}

/// Base-128 varint encoding, least significant group first.
pub open spec fn spec_varint(n: u64) -> Seq<u8>
    decreases n,
{
    if n < 0x80 {
        seq![n as u8]
    } else {
        seq![(n % 0x80 + 0x80) as u8].add(spec_varint(n / 0x80))
    }
}

/// Encoding of one phone number: field 1 the number's UTF-8 bytes,
/// length-prefixed; field 2 the type as a varint; absent fields are not
/// emitted.
pub open spec fn spec_phone(p: PhoneNumber) -> Seq<u8> {
    (match p.number {
        Some(s) => seq![0x0au8].add(
            spec_varint(encode_utf8(s@).len() as u64).add(encode_utf8(s@)),
        ),
        None => Seq::empty(),
    }).add(
        match p.phone_type {
            Some(t) => seq![0x10u8].add(spec_varint(t as u64)),
            None => Seq::empty(),
        },
    )
}

/// Encoding of the repeated phones field: one length-prefixed record with
/// tag byte for field 4 per phone, in order.
pub open spec fn spec_phones(ps: Seq<PhoneNumber>) -> Seq<u8>
    decreases ps,
{
    if ps.len() == 0 {
        Seq::empty()
    } else {
        spec_phones(ps.drop_last()).add(
            seq![0x22u8].add(spec_varint(spec_phone(ps.last()).len() as u64).add(
                spec_phone(ps.last()),
            )),
        )
    }
}

/// Encoding of a whole person: field 1 the name's UTF-8 bytes,
/// length-prefixed, when present, then the phones.
pub open spec fn spec_person(p: Person) -> Seq<u8> {
    (match p.name {
        Some(s) => seq![0x0au8].add(
            spec_varint(encode_utf8(s@).len() as u64).add(encode_utf8(s@)),
        ),
        None => Seq::empty(),
    }).add(spec_phones(p.phones@))
}

/// Appends the varint encoding of `n`.
#[verifier::loop_isolation(false)]
fn push_varint(buf: &mut Vec<u8>, n: u64)
    ensures
        final(buf)@ == old(buf)@.add(spec_varint(n)),
{
    let ghost orig = n;
    let mut n = n;
    while n >= 0x80
        invariant
            buf@.add(spec_varint(n)) == old(buf)@.add(spec_varint(orig)),
        decreases n,
    {
        let ghost pre = buf@;
        let ghost npre = n;
        buf.push((n % 0x80 + 0x80) as u8);
        n = n / 0x80;
        proof {
            assert(spec_varint(npre) =~= seq![(npre % 0x80 + 0x80) as u8].add(
                spec_varint(npre / 0x80),
            ));
            assert(buf@.add(spec_varint(n)) =~= pre.add(spec_varint(npre)));
        }
    }
    let ghost pre = buf@;
    buf.push(n as u8);
    proof {
        assert(spec_varint(n) =~= seq![n as u8]);
        assert(buf@ =~= pre.add(spec_varint(n)));
        assert(buf@ =~= old(buf)@.add(spec_varint(orig)));
    }
}

/// Appends a byte slice.
#[verifier::loop_isolation(false)]
fn push_slice(buf: &mut Vec<u8>, s: &[u8])
    ensures
        final(buf)@ == old(buf)@.add(s@),
{
    let mut i: usize = 0;
    while i < s.len()
        invariant
            i <= s@.len(),
            buf@ =~= old(buf)@.add(s@.take(i as int)),
        decreases s@.len() - i,
    {
        buf.push(s[i]);
        i = i + 1;
    }
    proof {
        assert(buf@ =~= old(buf)@.add(s@));
    }
}

/// Encodes one phone number record.
fn encode_phone(p: &PhoneNumber) -> (r: Vec<u8>)
    ensures
        r@ == spec_phone(*p),
{
    let mut buf: Vec<u8> = Vec::new();
    match &p.number {
        Some(s) => {
            buf.push(0x0a);
            let bytes = s.as_str().as_bytes();
            push_varint(&mut buf, bytes.len() as u64);
            push_slice(&mut buf, bytes);
        },
        None => {},
    }
    match &p.phone_type {
        Some(t) => {
            buf.push(0x10);
            push_varint(&mut buf, *t as u64);
        },
        None => {},
    }
    proof {
        assert(buf@ =~= spec_phone(*p));
    }
    buf
}

/// Encodes a person into the protobuf wire format, returning exactly the
/// bytes given by `spec_person`.
#[verifier::loop_isolation(false)]
#[verifier::rlimit(100)]
pub fn serialize_person(person: &Person) -> (buf: Vec<u8>)
    ensures
        buf@ == spec_person(*person),
{
    let mut buf: Vec<u8> = Vec::new();
    match &person.name {
        Some(s) => {
            buf.push(0x0a);
            let bytes = s.as_str().as_bytes();
            push_varint(&mut buf, bytes.len() as u64);
            push_slice(&mut buf, bytes);
        },
        None => {},
    }
    let ghost head = buf@;
    let mut i: usize = 0;
    while i < person.phones.len()
        invariant
            i <= person.phones@.len(),
            buf@ =~= head.add(spec_phones(person.phones@.take(i as int))),
        decreases person.phones@.len() - i,
    {
        let ghost prebuf = buf@;
        let record = encode_phone(&person.phones[i]);
        buf.push(0x22);
        push_varint(&mut buf, record.len() as u64);
        push_slice(&mut buf, record.as_slice());
        i = i + 1;
        proof {
            assert(person.phones@.take(i as int).drop_last() =~= person.phones@.take(i as int - 1));
            assert(person.phones@.take(i as int).last() == person.phones@[i as int - 1]);
            assert(buf@ =~= prebuf.add(
                seq![0x22u8].add(spec_varint(record@.len() as u64).add(record@)),
            ));
            assert(buf@ =~= head.add(spec_phones(person.phones@.take(i as int))));
        }
    }
    proof {
        assert(person.phones@.take(person.phones@.len() as int) =~= person.phones@);
        assert(buf@ =~= spec_person(*person));
    }
    buf
}

} // verus!
