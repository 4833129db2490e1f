//! The class file: the top-level record of a `.class` file and its byte codec.

use crate::bytes::{
    word16, bytes16, bytes32, lemma_bytes16_word16, lemma_bytes32_word32, read_u16, read_u32, u16_at,
    u32_at, write_u16, write_u32,
};
use crate::constant_pool::{
    decode_pool, encode_pool, lemma_pool_round_trip, pool_writable, ConstantModel, ConstantPool,
};
use crate::error::Error;
use vstd::prelude::*;
use vstd::string::StringExecFns;

verus! {

/// The first four bytes of every class file.
pub const MAGIC: u32 = 0xCAFE_BABE;

/// An attribute, held as its name index and its undecoded contents.
#[derive(Debug, Clone, PartialEq, Eq)]
pub struct Attribute {
    pub name_index: u16,
    pub info: Vec<u8>,
}

pub struct AttributeModel {
    pub name_index: u16,
    pub info: Seq<u8>,
}

impl View for Attribute {
    type V = AttributeModel;

    open spec fn view(&self) -> AttributeModel {
        AttributeModel { name_index: self.name_index, info: self.info@ }
    }
}

/// A method of a class: access flags, name and descriptor indices, and attributes.
#[derive(Debug, Clone, PartialEq, Eq)]
pub struct Method {
    pub access_flags: u16,
    pub name_index: u16,
    pub descriptor_index: u16,
    pub attributes: Vec<Attribute>,
}

/// A field of a class; laid out as a method is.
#[derive(Debug, Clone, PartialEq, Eq)]
pub struct Field {
    pub access_flags: u16,
    pub name_index: u16,
    pub descriptor_index: u16,
    pub attributes: Vec<Attribute>,
}

/// The mathematical value of a field or a method.
pub struct MemberModel {
    pub access_flags: u16,
    pub name_index: u16,
    pub descriptor_index: u16,
    pub attributes: Seq<AttributeModel>,
}

pub open spec fn attribute_models(v: Seq<Attribute>) -> Seq<AttributeModel> {
    v.map_values(|a: Attribute| a@)
}

impl View for Method {
    type V = MemberModel;

    open spec fn view(&self) -> MemberModel {
        MemberModel {
            access_flags: self.access_flags,
            name_index: self.name_index,
            descriptor_index: self.descriptor_index,
            attributes: attribute_models(self.attributes@),
        }
    }
}

impl View for Field {
    type V = MemberModel;

    open spec fn view(&self) -> MemberModel {
        MemberModel {
            access_flags: self.access_flags,
            name_index: self.name_index,
            descriptor_index: self.descriptor_index,
            attributes: attribute_models(self.attributes@),
        }
    }
}

/// A list of `n` items decoded one after the other from byte `p` by `item`, with the
/// byte after the last; `None` where one does not decode.
pub open spec fn decode_list<T>(
    b: Seq<u8>,
    p: int,
    n: int,
    item: spec_fn(Seq<u8>, int) -> Option<(T, int)>,
) -> Option<(Seq<T>, int)>
    decreases n,
{
    if n <= 0 {
        Some((seq![], p))
    } else {
        match item(b, p) {
            Option::None => None,
            Option::Some((x, q)) => match decode_list(b, q, n - 1, item) {
                Option::None => None,
                Option::Some((rest, e)) => Some((seq![x] + rest, e)),
            },
        }
    }
}

/// The bytes of a list of items, each encoded by `enc`.
pub open spec fn encode_list<T>(s: Seq<T>, enc: spec_fn(T) -> Seq<u8>) -> Seq<u8>
    decreases s.len(),
{
    if s.len() == 0 {
        seq![]
    } else {
        encode_list(s.drop_last(), enc) + enc(s.last())
    }
}

pub open spec fn decode_attribute_at(b: Seq<u8>, p: int) -> Option<(AttributeModel, int)> {
    if 0 <= p && p + 6 <= b.len() && p + 6 + u32_at(b, p + 2) <= b.len() {
        let n = u32_at(b, p + 2) as int;
        Some((AttributeModel { name_index: u16_at(b, p), info: b.subrange(p + 6, p + 6 + n) }, p + 6 + n))
    } else {
        None
    }
}

pub open spec fn encode_attribute(a: AttributeModel) -> Seq<u8> {
    bytes16(a.name_index) + bytes32(a.info.len() as u32) + a.info
}

/// A count of attributes, then the attributes.
pub open spec fn decode_attributes(b: Seq<u8>, p: int) -> Option<(Seq<AttributeModel>, int)> {
    if 0 <= p && p + 2 <= b.len() {
        decode_list(b, p + 2, u16_at(b, p) as int, |b: Seq<u8>, q: int| decode_attribute_at(b, q))
    } else {
        None
    }
}

pub open spec fn encode_attributes(s: Seq<AttributeModel>) -> Seq<u8> {
    bytes16(s.len() as u16) + encode_list(s, |a: AttributeModel| encode_attribute(a))
}

pub open spec fn decode_member_at(b: Seq<u8>, p: int) -> Option<(MemberModel, int)> {
    if 0 <= p && p + 6 <= b.len() {
        match decode_attributes(b, p + 6) {
            Option::None => None,
            Option::Some((attributes, e)) => Some(
                (
                    MemberModel {
                        access_flags: u16_at(b, p),
                        name_index: u16_at(b, p + 2),
                        descriptor_index: u16_at(b, p + 4),
                        attributes,
                    },
                    e,
                ),
            ),
        }
    } else {
        None
    }
}

pub open spec fn encode_member(m: MemberModel) -> Seq<u8> {
    bytes16(m.access_flags) + bytes16(m.name_index) + bytes16(m.descriptor_index)
        + encode_attributes(m.attributes)
}

/// A count of members, then the members.
pub open spec fn decode_members(b: Seq<u8>, p: int) -> Option<(Seq<MemberModel>, int)> {
    if 0 <= p && p + 2 <= b.len() {
        decode_list(b, p + 2, u16_at(b, p) as int, |b: Seq<u8>, q: int| decode_member_at(b, q))
    } else {
        None
    }
}

pub open spec fn encode_members(s: Seq<MemberModel>) -> Seq<u8> {
    bytes16(s.len() as u16) + encode_list(s, |m: MemberModel| encode_member(m))
}

pub open spec fn decode_u16_at(b: Seq<u8>, p: int) -> Option<(u16, int)> {
    if 0 <= p && p + 2 <= b.len() {
        Some((u16_at(b, p), p + 2))
    } else {
        None
    }
}

/// A count of interfaces, then their indices.
pub open spec fn decode_interfaces(b: Seq<u8>, p: int) -> Option<(Seq<u16>, int)> {
    if 0 <= p && p + 2 <= b.len() {
        decode_list(b, p + 2, u16_at(b, p) as int, |b: Seq<u8>, q: int| decode_u16_at(b, q))
    } else {
        None
    }
}

pub open spec fn encode_interfaces(s: Seq<u16>) -> Seq<u8> {
    bytes16(s.len() as u16) + encode_list(s, |i: u16| bytes16(i))
}

/// The mathematical value of a class file.
pub struct ClassFileModel {
    pub minor_version: u16,
    pub major_version: u16,
    pub constant_pool: Seq<Option<ConstantModel>>,
    pub access_flags: u16,
    pub this_class: u16,
    pub super_class: u16,
    pub interfaces: Seq<u16>,
    pub fields: Seq<MemberModel>,
    pub methods: Seq<MemberModel>,
    pub attributes: Seq<AttributeModel>,
}

/// The class file that `b` holds, with no bytes after it; `None` where `b` is no class file.
pub open spec fn decode_class(b: Seq<u8>) -> Option<ClassFileModel> {
    if b.len() >= 8 && u32_at(b, 0) == MAGIC {
        match decode_pool(b, 8) {
            Option::None => None,
            Option::Some((pool, p)) => if p + 6 <= b.len() {
                match decode_interfaces(b, p + 6) {
                    Option::None => None,
                    Option::Some((interfaces, q)) => match decode_members(b, q) {
                        Option::None => None,
                        Option::Some((fields, r)) => match decode_members(b, r) {
                            Option::None => None,
                            Option::Some((methods, s)) => match decode_attributes(b, s) {
                                Option::None => None,
                                Option::Some((attributes, e)) => if e == b.len() {
                                    Some(
                                        ClassFileModel {
                                            minor_version: u16_at(b, 4),
                                            major_version: u16_at(b, 6),
                                            constant_pool: pool,
                                            access_flags: u16_at(b, p),
                                            this_class: u16_at(b, p + 2),
                                            super_class: u16_at(b, p + 4),
                                            interfaces,
                                            fields,
                                            methods,
                                            attributes,
                                        },
                                    )
                                } else {
                                    None
                                },
                            },
                        },
                    },
                }
            } else {
                None
            },
        }
    } else {
        None
    }
}

/// The bytes of a class file.
pub open spec fn encode_class(c: ClassFileModel) -> Seq<u8> {
    bytes32(MAGIC) + bytes16(c.minor_version) + bytes16(c.major_version) + encode_pool(
        c.constant_pool,
    ) + bytes16(c.access_flags) + bytes16(c.this_class) + bytes16(c.super_class)
        + encode_interfaces(c.interfaces) + encode_members(c.fields) + encode_members(c.methods)
        + encode_attributes(c.attributes)
}

pub open spec fn attribute_writable(a: AttributeModel) -> bool {
    a.info.len() <= 0xffff_ffff
}

pub open spec fn attributes_writable(s: Seq<AttributeModel>) -> bool {
    s.len() <= 0xffff && forall|i: int| 0 <= i < s.len() ==> attribute_writable(#[trigger] s[i])
}

pub open spec fn member_writable(m: MemberModel) -> bool {
    attributes_writable(m.attributes)
}

pub open spec fn members_writable(s: Seq<MemberModel>) -> bool {
    s.len() <= 0xffff && forall|i: int| 0 <= i < s.len() ==> member_writable(#[trigger] s[i])
}

/// Every count and length of the class file fits its field.
pub open spec fn class_writable(c: ClassFileModel) -> bool {
    &&& pool_writable(c.constant_pool)
    &&& c.interfaces.len() <= 0xffff
    &&& members_writable(c.fields)
    &&& members_writable(c.methods)
    &&& attributes_writable(c.attributes)
}

/// The value of a decoding result.
pub open spec fn value_of<T>(r: Option<(T, int)>) -> T {
    let (x, _e) = r->0;
    x
}

/// The byte after a decoding result.
pub open spec fn end_of<T>(r: Option<(T, int)>) -> int {
    let (_x, e) = r->0;
    e
}

/// `enc` gives back the bytes that `item` decoded, wherever `item` decodes in `b`.
pub open spec fn round_trips<T>(
    b: Seq<u8>,
    item: spec_fn(Seq<u8>, int) -> Option<(T, int)>,
    enc: spec_fn(T) -> Seq<u8>,
) -> bool {
    forall|q: int|
        0 <= q <= b.len() && (#[trigger] item(b, q)) is Some ==> q <= end_of(item(b, q)) <= b.len()
            && enc(value_of(item(b, q))) == b.subrange(q, end_of(item(b, q)))
}

proof fn lemma_encode_list_prepend<T>(x: T, rest: Seq<T>, enc: spec_fn(T) -> Seq<u8>)
    ensures
        encode_list(seq![x] + rest, enc) == enc(x) + encode_list(rest, enc),
    decreases rest.len(),
{
    if rest.len() == 0 {
        let one = seq![x];
        assert(one + rest =~= one);
        assert(one.drop_last() =~= Seq::<T>::empty());
        assert(encode_list(one.drop_last(), enc) =~= Seq::<u8>::empty());
        assert(enc(x) + encode_list(rest, enc) =~= enc(x));
    } else {
        lemma_encode_list_prepend(x, rest.drop_last(), enc);
        assert((seq![x] + rest).drop_last() =~= seq![x] + rest.drop_last());
    }
}

proof fn lemma_list<T>(
    b: Seq<u8>,
    p: int,
    n: int,
    item: spec_fn(Seq<u8>, int) -> Option<(T, int)>,
    enc: spec_fn(T) -> Seq<u8>,
)
    requires
        0 <= p <= b.len(),
        0 <= n,
        decode_list(b, p, n, item) is Some,
        round_trips(b, item, enc),
    ensures
        value_of(decode_list(b, p, n, item)).len() == n,
        p <= end_of(decode_list(b, p, n, item)) <= b.len(),
        encode_list(value_of(decode_list(b, p, n, item)), enc) == b.subrange(
            p,
            end_of(decode_list(b, p, n, item)),
        ),
    decreases n,
{
    if n == 0 {
        assert(b.subrange(p, p) =~= seq![]);
    } else {
        let (x, q) = item(b, p)->0;
        lemma_list(b, q, n - 1, item, enc);
        let (rest, e) = decode_list(b, q, n - 1, item)->0;
        lemma_encode_list_prepend(x, rest, enc);
        assert(b.subrange(p, e) =~= b.subrange(p, q) + b.subrange(q, e));
    }
}

proof fn lemma_u16_bytes(b: Seq<u8>, x: int)
    requires
        0 <= x,
        x + 2 <= b.len(),
    ensures
        bytes16(u16_at(b, x)) == b.subrange(x, x + 2),
{
    lemma_bytes16_word16(b[x], b[x + 1]);
    assert(b.subrange(x, x + 2) =~= seq![b[x], b[x + 1]]);
}

proof fn lemma_u32_bytes(b: Seq<u8>, x: int)
    requires
        0 <= x,
        x + 4 <= b.len(),
    ensures
        bytes32(u32_at(b, x)) == b.subrange(x, x + 4),
{
    lemma_bytes32_word32(b[x], b[x + 1], b[x + 2], b[x + 3]);
    assert(b.subrange(x, x + 4) =~= seq![b[x], b[x + 1], b[x + 2], b[x + 3]]);
}

proof fn lemma_attribute_round_trip(b: Seq<u8>)
    ensures
        round_trips(b, |b: Seq<u8>, q: int| decode_attribute_at(b, q), |a: AttributeModel| encode_attribute(a)),
        forall|q: int| #[trigger] decode_attribute_at(b, q) is Some ==> attribute_writable(value_of(decode_attribute_at(b, q))),
{
    assert forall|q: int|
        0 <= q <= b.len() && (#[trigger] decode_attribute_at(b, q)) is Some implies q <= end_of(
        decode_attribute_at(b, q),
    ) <= b.len() && encode_attribute(value_of(decode_attribute_at(b, q))) == b.subrange(
        q,
        end_of(decode_attribute_at(b, q)),
    ) by {
        let e = end_of(decode_attribute_at(b, q));
        lemma_u16_bytes(b, q);
        lemma_u32_bytes(b, q + 2);
        assert(b.subrange(q, e) =~= b.subrange(q, q + 2) + b.subrange(q + 2, q + 6) + b.subrange(
            q + 6,
            e,
        ));
    }
}

proof fn lemma_attributes_round_trip(b: Seq<u8>, p: int)
    requires
        0 <= p,
        decode_attributes(b, p) is Some,
    ensures
        p < end_of(decode_attributes(b, p)) <= b.len(),
        attributes_writable(value_of(decode_attributes(b, p))),
        encode_attributes(value_of(decode_attributes(b, p))) == b.subrange(
            p,
            end_of(decode_attributes(b, p)),
        ),
{
    let item = |b: Seq<u8>, q: int| decode_attribute_at(b, q);
    let enc = |a: AttributeModel| encode_attribute(a);
    lemma_attribute_round_trip(b);
    let n = u16_at(b, p) as int;
    lemma_list(b, p + 2, n, item, enc);
    let (s, e) = decode_list(b, p + 2, n, item)->0;
    lemma_u16_bytes(b, p);
    assert((s.len() as u16) == u16_at(b, p));
    assert forall|i: int| 0 <= i < s.len() implies attribute_writable(#[trigger] s[i]) by {
        lemma_list_items(b, p + 2, n, item, i);
    }
    assert(b.subrange(p, e) =~= b.subrange(p, p + 2) + b.subrange(p + 2, e));
}

/// Each item of a decoded list was decoded by `item` somewhere in `b`.
proof fn lemma_list_items<T>(
    b: Seq<u8>,
    p: int,
    n: int,
    item: spec_fn(Seq<u8>, int) -> Option<(T, int)>,
    i: int,
)
    requires
        decode_list(b, p, n, item) is Some,
        0 <= i < value_of(decode_list(b, p, n, item)).len(),
    ensures
        exists|q: int| #[trigger] item(b, q) is Some && value_of(item(b, q)) == value_of(
            decode_list(b, p, n, item),
        )[i],
    decreases n,
{
    let (x, q) = item(b, p)->0;
    let (rest, e) = decode_list(b, q, n - 1, item)->0;
    if i == 0 {
        assert(item(b, p) is Some && value_of(item(b, p)) == value_of(decode_list(b, p, n, item))[0]);
    } else {
        lemma_list_items(b, q, n - 1, item, i - 1);
        assert(value_of(decode_list(b, p, n, item))[i] == rest[i - 1]);
    }
}

proof fn lemma_member_round_trip(b: Seq<u8>)
    ensures
        round_trips(b, |b: Seq<u8>, q: int| decode_member_at(b, q), |m: MemberModel| encode_member(m)),
        forall|q: int| #[trigger] decode_member_at(b, q) is Some ==> member_writable(value_of(decode_member_at(b, q))),
{
    assert forall|q: int| #[trigger] decode_member_at(b, q) is Some implies q <= end_of(
        decode_member_at(b, q),
    ) <= b.len() && encode_member(value_of(decode_member_at(b, q))) == b.subrange(
        q,
        end_of(decode_member_at(b, q)),
    ) && member_writable(value_of(decode_member_at(b, q))) by {
        let e = end_of(decode_member_at(b, q));
        lemma_u16_bytes(b, q);
        lemma_u16_bytes(b, q + 2);
        lemma_u16_bytes(b, q + 4);
        lemma_attributes_round_trip(b, q + 6);
        assert(b.subrange(q, e) =~= b.subrange(q, q + 2) + b.subrange(q + 2, q + 4) + b.subrange(
            q + 4,
            q + 6,
        ) + b.subrange(q + 6, e));
    }
}

/// Round trip of one field or method: a record decoded from bytes can be written, and
/// writing it gives back those bytes exactly, its attributes included.
pub proof fn lemma_method_round_trip(b: Seq<u8>, p: int)
    requires
        decode_member_at(b, p) is Some,
    ensures
        member_writable(value_of(decode_member_at(b, p))),
        encode_member(value_of(decode_member_at(b, p))) == b.subrange(p, end_of(decode_member_at(b, p))),
{
    lemma_member_round_trip(b);
    let item = |b: Seq<u8>, q: int| decode_member_at(b, q);
    let enc = |m: MemberModel| encode_member(m);
    assert(round_trips(b, item, enc));
    assert(item(b, p) == decode_member_at(b, p));
    assert(enc(value_of(item(b, p))) == encode_member(value_of(decode_member_at(b, p))));
}

proof fn lemma_members_round_trip(b: Seq<u8>, p: int)
    requires
        0 <= p,
        decode_members(b, p) is Some,
    ensures
        p < end_of(decode_members(b, p)) <= b.len(),
        members_writable(value_of(decode_members(b, p))),
        encode_members(value_of(decode_members(b, p))) == b.subrange(p, end_of(decode_members(b, p))),
{
    let item = |b: Seq<u8>, q: int| decode_member_at(b, q);
    let enc = |m: MemberModel| encode_member(m);
    lemma_member_round_trip(b);
    let n = u16_at(b, p) as int;
    lemma_list(b, p + 2, n, item, enc);
    let (s, e) = decode_list(b, p + 2, n, item)->0;
    lemma_u16_bytes(b, p);
    assert((s.len() as u16) == u16_at(b, p));
    assert forall|i: int| 0 <= i < s.len() implies member_writable(#[trigger] s[i]) by {
        lemma_list_items(b, p + 2, n, item, i);
    }
    assert(b.subrange(p, e) =~= b.subrange(p, p + 2) + b.subrange(p + 2, e));
}

proof fn lemma_interfaces_round_trip(b: Seq<u8>, p: int)
    requires
        0 <= p,
        decode_interfaces(b, p) is Some,
    ensures
        p < end_of(decode_interfaces(b, p)) <= b.len(),
        value_of(decode_interfaces(b, p)).len() <= 0xffff,
        encode_interfaces(value_of(decode_interfaces(b, p))) == b.subrange(
            p,
            end_of(decode_interfaces(b, p)),
        ),
{
    let item = |b: Seq<u8>, q: int| decode_u16_at(b, q);
    let enc = |i: u16| bytes16(i);
    assert forall|q: int| 0 <= q <= b.len() && (#[trigger] item(b, q)) is Some implies q <= end_of(
        item(b, q),
    ) <= b.len() && enc(value_of(item(b, q))) == b.subrange(q, end_of(item(b, q))) by {
        lemma_u16_bytes(b, q);
    }
    let n = u16_at(b, p) as int;
    lemma_list(b, p + 2, n, item, enc);
    let (s, e) = decode_list(b, p + 2, n, item)->0;
    lemma_u16_bytes(b, p);
    assert((s.len() as u16) == u16_at(b, p));
    assert(b.subrange(p, e) =~= b.subrange(p, p + 2) + b.subrange(p + 2, e));
}

/// Round trip: a class file decoded from bytes can be written, and writing it gives back
/// those bytes exactly, the unusable pool slots after `Long` and `Double` included.
#[verifier::rlimit(60)]
pub proof fn lemma_class_round_trip(b: Seq<u8>)
    requires
        decode_class(b) is Some,
    ensures
        class_writable(decode_class(b)->0),
        encode_class(decode_class(b)->0) == b,
{
    let c = decode_class(b)->0;
    let (pool, p) = decode_pool(b, 8)->0;
    lemma_pool_round_trip(b, 8);
    lemma_interfaces_round_trip(b, p + 6);
    let q = end_of(decode_interfaces(b, p + 6));
    lemma_members_round_trip(b, q);
    let r = end_of(decode_members(b, q));
    lemma_members_round_trip(b, r);
    let s = end_of(decode_members(b, r));
    lemma_attributes_round_trip(b, s);
    lemma_u32_bytes(b, 0);
    lemma_u16_bytes(b, 4);
    lemma_u16_bytes(b, 6);
    lemma_u16_bytes(b, p);
    lemma_u16_bytes(b, p + 2);
    lemma_u16_bytes(b, p + 4);
    assert(b =~= b.subrange(0, 4) + b.subrange(4, 6) + b.subrange(6, 8) + b.subrange(8, p)
        + b.subrange(p, p + 2) + b.subrange(p + 2, p + 4) + b.subrange(p + 4, p + 6) + b.subrange(
        p + 6,
        q,
    ) + b.subrange(q, r) + b.subrange(r, s) + b.subrange(s, b.len() as int));
}

/// Decodes the attribute at byte `p`; returns it with the byte after it.
fn read_attribute(b: &[u8], p: usize) -> (r: Result<(Attribute, usize), Error>)
    ensures
        match r {
            Ok((a, e)) => decode_attribute_at(b@, p as int) == Some((a@, e as int)),
            Err(e) => decode_attribute_at(b@, p as int) is None && e is Truncated,
        },
{
    if p > b.len() || b.len() - p < 6 {
        return Err(Error::Truncated);
    }
    let name_index = read_u16(b, p);
    let n = read_u32(b, p + 2) as usize;
    if b.len() - p - 6 < n {
        return Err(Error::Truncated);
    }
    let mut info: Vec<u8> = Vec::new();
    let mut i: usize = 0;
    while i < n
        invariant
            i <= n,
            p + 6 + n <= b.len(),
            info@ =~= b@.subrange(p + 6, p + 6 + i),
        decreases n - i,
    {
        info.push(b[p + 6 + i]);
        i = i + 1;
    }
    Ok((Attribute { name_index, info }, p + 6 + n))
}

/// Decodes a count of attributes and the attributes at byte `p`.
fn read_attributes(b: &[u8], p: usize) -> (r: Result<(Vec<Attribute>, usize), Error>)
    ensures
        match r {
            Ok((v, e)) => decode_attributes(b@, p as int) == Some((attribute_models(v@), e as int)),
            Err(e) => decode_attributes(b@, p as int) is None && e is Truncated,
        },
{
    if p > b.len() || b.len() - p < 2 {
        return Err(Error::Truncated);
    }
    let n = read_u16(b, p) as usize;
    let ghost item = |b: Seq<u8>, q: int| decode_attribute_at(b, q);
    let ghost whole = decode_list(b@, p + 2, n as int, item);
    assert(decode_attributes(b@, p as int) == whole);
    let mut v: Vec<Attribute> = Vec::new();
    let mut pos: usize = p + 2;
    let mut k: usize = 0;
    while k < n
        invariant
            k <= n,
            whole == decode_list(b@, p + 2, n as int, item),
            decode_attributes(b@, p as int) == whole,
            item == (|b: Seq<u8>, q: int| decode_attribute_at(b, q)),
            match decode_list(b@, pos as int, n - k, item) {
                Option::Some((rest, e)) => whole == Some((attribute_models(v@) + rest, e)),
                Option::None => whole is None,
            },
        decreases n - k,
    {
        let (a, next) = match read_attribute(b, pos) {
            Ok(x) => x,
            Err(e) => {
                assert(item(b@, pos as int) is None);
                assert(decode_list(b@, pos as int, n - k, item) is None);
                return Err(e);
            },
        };
        let ghost prev = attribute_models(v@);
        v.push(a);
        assert(attribute_models(v@) =~= prev.push(a@));
        proof {
            if let Option::Some((rest, e)) = decode_list(b@, next as int, n - k - 1, item) {
                assert(prev + (seq![a@] + rest) =~= attribute_models(v@) + rest);
            }
        }
        pos = next;
        k = k + 1;
    }
    assert(attribute_models(v@) + Seq::<AttributeModel>::empty() =~= attribute_models(v@));
    Ok((v, pos))
}


/// Decodes a count of methods and the methods at byte `p`.
fn read_methods(b: &[u8], p: usize) -> (r: Result<(Vec<Method>, usize), Error>)
    ensures
        match r {
            Ok((v, e)) => decode_members(b@, p as int) == Some((v@.map_values(|m: Method| m@), e as int)),
            Err(_) => decode_members(b@, p as int) is None,
        },
{
    if p > b.len() || b.len() - p < 2 {
        return Err(Error::Truncated);
    }
    let n = read_u16(b, p) as usize;
    let ghost item = |b: Seq<u8>, q: int| decode_member_at(b, q);
    let ghost whole = decode_list(b@, p + 2, n as int, item);
    assert(decode_members(b@, p as int) == whole);
    let mut v: Vec<Method> = Vec::new();
    let mut pos: usize = p + 2;
    let mut k: usize = 0;
    while k < n
        invariant
            k <= n,
            whole == decode_list(b@, p + 2, n as int, item),
            decode_members(b@, p as int) == whole,
            item == (|b: Seq<u8>, q: int| decode_member_at(b, q)),
            match decode_list(b@, pos as int, n - k, item) {
                Option::Some((rest, e)) => whole == Some((v@.map_values(|m: Method| m@) + rest, e)),
                Option::None => whole is None,
            },
        decreases n - k,
    {
        let (x, next) = match Method::read_raw(b, pos) {
            Ok(x) => x,
            Err(e) => {
                assert(item(b@, pos as int) is None);
                assert(decode_list(b@, pos as int, n - k, item) is None);
                return Err(e);
            },
        };
        let ghost prev = v@.map_values(|m: Method| m@);
        v.push(x);
        assert(v@.map_values(|m: Method| m@) =~= prev.push(x@));
        proof {
            if let Option::Some((rest, e)) = decode_list(b@, next as int, n - k - 1, item) {
                assert(prev + (seq![x@] + rest) =~= v@.map_values(|m: Method| m@) + rest);
            }
        }
        pos = next;
        k = k + 1;
    }
    assert(v@.map_values(|m: Method| m@) + Seq::<MemberModel>::empty() =~= v@.map_values(|m: Method| m@));
    Ok((v, pos))
}

/// Decodes a count of fields and the fields at byte `p`.
fn read_fields(b: &[u8], p: usize) -> (r: Result<(Vec<Field>, usize), Error>)
    ensures
        match r {
            Ok((v, e)) => decode_members(b@, p as int) == Some((v@.map_values(|m: Field| m@), e as int)),
            Err(_) => decode_members(b@, p as int) is None,
        },
{
    if p > b.len() || b.len() - p < 2 {
        return Err(Error::Truncated);
    }
    let n = read_u16(b, p) as usize;
    let ghost item = |b: Seq<u8>, q: int| decode_member_at(b, q);
    let ghost whole = decode_list(b@, p + 2, n as int, item);
    assert(decode_members(b@, p as int) == whole);
    let mut v: Vec<Field> = Vec::new();
    let mut pos: usize = p + 2;
    let mut k: usize = 0;
    while k < n
        invariant
            k <= n,
            whole == decode_list(b@, p + 2, n as int, item),
            decode_members(b@, p as int) == whole,
            item == (|b: Seq<u8>, q: int| decode_member_at(b, q)),
            match decode_list(b@, pos as int, n - k, item) {
                Option::Some((rest, e)) => whole == Some((v@.map_values(|m: Field| m@) + rest, e)),
                Option::None => whole is None,
            },
        decreases n - k,
    {
        let (x, next) = match Field::from_bytes(b, pos) {
            Ok(x) => x,
            Err(e) => {
                assert(item(b@, pos as int) is None);
                assert(decode_list(b@, pos as int, n - k, item) is None);
                return Err(e);
            },
        };
        let ghost prev = v@.map_values(|m: Field| m@);
        v.push(x);
        assert(v@.map_values(|m: Field| m@) =~= prev.push(x@));
        proof {
            if let Option::Some((rest, e)) = decode_list(b@, next as int, n - k - 1, item) {
                assert(prev + (seq![x@] + rest) =~= v@.map_values(|m: Field| m@) + rest);
            }
        }
        pos = next;
        k = k + 1;
    }
    assert(v@.map_values(|m: Field| m@) + Seq::<MemberModel>::empty() =~= v@.map_values(|m: Field| m@));
    Ok((v, pos))
}

/// Decodes a count of interfaces and the interfaces at byte `p`.
fn read_interfaces(b: &[u8], p: usize) -> (r: Result<(Vec<u16>, usize), Error>)
    ensures
        match r {
            Ok((v, e)) => decode_interfaces(b@, p as int) == Some((v@, e as int)),
            Err(_) => decode_interfaces(b@, p as int) is None,
        },
{
    if p > b.len() || b.len() - p < 2 {
        return Err(Error::Truncated);
    }
    let n = read_u16(b, p) as usize;
    let ghost item = |b: Seq<u8>, q: int| decode_u16_at(b, q);
    let ghost whole = decode_list(b@, p + 2, n as int, item);
    assert(decode_interfaces(b@, p as int) == whole);
    let mut v: Vec<u16> = Vec::new();
    let mut pos: usize = p + 2;
    let mut k: usize = 0;
    while k < n
        invariant
            k <= n,
            whole == decode_list(b@, p + 2, n as int, item),
            decode_interfaces(b@, p as int) == whole,
            item == (|b: Seq<u8>, q: int| decode_u16_at(b, q)),
            match decode_list(b@, pos as int, n - k, item) {
                Option::Some((rest, e)) => whole == Some((v@ + rest, e)),
                Option::None => whole is None,
            },
        decreases n - k,
    {
        let (x, next) = match read_index(b, pos) {
            Ok(x) => x,
            Err(e) => {
                assert(item(b@, pos as int) is None);
                assert(decode_list(b@, pos as int, n - k, item) is None);
                return Err(e);
            },
        };
        let ghost prev = v@;
        v.push(x);
        assert(v@ =~= prev.push(x));
        proof {
            if let Option::Some((rest, e)) = decode_list(b@, next as int, n - k - 1, item) {
                assert(prev + (seq![x] + rest) =~= v@ + rest);
            }
        }
        pos = next;
        k = k + 1;
    }
    assert(v@ + Seq::<u16>::empty() =~= v@);
    Ok((v, pos))
}

/// Decodes the 16-bit index at byte `p`.
fn read_index(b: &[u8], p: usize) -> (r: Result<(u16, usize), Error>)
    ensures
        match r {
            Ok((x, e)) => decode_u16_at(b@, p as int) == Some((x, e as int)),
            Err(_) => decode_u16_at(b@, p as int) is None,
        },
{
    if p > b.len() || b.len() - p < 2 {
        return Err(Error::Truncated);
    }
    Ok((read_u16(b, p), p + 2))
}

/// Every attribute of `m` named `Code` in `pool` holds a `Code` attribute whose parts
/// fill exactly the attribute's declared length.
pub open spec fn code_attributes_valid(pool: Seq<Option<ConstantModel>>, m: MemberModel) -> bool {
    forall|k: int|
        0 <= k < m.attributes.len() && #[trigger] utf8_is(
            pool,
            m.attributes[k].name_index as int,
            vstd::utf8::encode_utf8("Code"@),
        ) ==> decode_code_attribute(m.attributes[k].info) is Some
}

impl Method {
    /// Decodes the method at byte `p`, checking that each of its `Code` attributes (named
    /// through `constant_pool`) fills its declared length exactly; returns the method with
    /// the byte after it. `Truncated` where the bytes end before the method is complete,
    /// `AttributeLengthMismatch` where a `Code` attribute's parts do not fill its length.
    pub fn from_bytes(constant_pool: &ConstantPool, b: &[u8], p: usize) -> (r: Result<(Method, usize), Error>)
        ensures
            match r {
                Ok((m, e)) => decode_member_at(b@, p as int) == Some((m@, e as int))
                    && code_attributes_valid(constant_pool@, m@),
                Err(e) => match decode_member_at(b@, p as int) {
                    Option::None => e is Truncated,
                    Option::Some((m, _e)) => e is AttributeLengthMismatch && !code_attributes_valid(
                        constant_pool@,
                        m,
                    ),
                },
            },
    {
        let (m, e) = Method::read_raw(b, p)?;
        let code_name = "Code".as_bytes();
        assert(code_name@ == vstd::utf8::encode_utf8("Code"@));
        let mut k: usize = 0;
        while k < m.attributes.len()
            invariant
                k <= m.attributes@.len(),
                decode_member_at(b@, p as int) == Some((m@, e as int)),
                code_name@ == vstd::utf8::encode_utf8("Code"@),
                forall|j: int|
                    0 <= j < k && #[trigger] utf8_is(
                        constant_pool@,
                        m@.attributes[j].name_index as int,
                        vstd::utf8::encode_utf8("Code"@),
                    ) ==> decode_code_attribute(m@.attributes[j].info) is Some,
            decreases m.attributes@.len() - k,
        {
            let a = &m.attributes[k];
            assert(m@.attributes[k as int] == a@);
            if utf8_equals(constant_pool, a.name_index, code_name) {
                if CodeAttribute::from_bytes(a.info.as_slice()).is_err() {
                    assert(utf8_is(
                        constant_pool@,
                        m@.attributes[k as int].name_index as int,
                        vstd::utf8::encode_utf8("Code"@),
                    ));
                    assert(!code_attributes_valid(constant_pool@, m@));
                    return Err(Error::AttributeLengthMismatch);
                }
            }
            k = k + 1;
        }
        Ok((m, e))
    }

    /// Decodes the method at byte `p` with its attributes undecoded; returns it with the
    /// byte after it.
    fn read_raw(b: &[u8], p: usize) -> (r: Result<(Method, usize), Error>)
        ensures
            match r {
                Ok((m, e)) => decode_member_at(b@, p as int) == Some((m@, e as int)),
                Err(e) => decode_member_at(b@, p as int) is None && e is Truncated,
            },
    {
        if p > b.len() || b.len() - p < 6 {
            return Err(Error::Truncated);
        }
        let access_flags = read_u16(b, p);
        let name_index = read_u16(b, p + 2);
        let descriptor_index = read_u16(b, p + 4);
        let (attributes, e) = read_attributes(b, p + 6)?;
        Ok((Method { access_flags, name_index, descriptor_index, attributes }, e))
    }

    /// Appends the bytes of the method; fails where a count or a length does not fit its field.
    pub fn to_bytes(&self, out: &mut Vec<u8>) -> (r: Result<(), Error>)
        ensures
            r is Ok <==> member_writable(self@),
            r is Ok ==> final(out)@ == old(out)@ + encode_member(self@),
    {
        let ghost start = out@;
        if !attributes_fit(&self.attributes) {
            return Err(Error::InternalError(String::from_str("too many attributes")));
        }
        write_u16(out, self.access_flags);
        write_u16(out, self.name_index);
        write_u16(out, self.descriptor_index);
        write_attributes(&self.attributes, out);
        assert(out@ =~= start + encode_member(self@));
        Ok(())
    }
}

impl Field {
    /// Decodes the field at byte `p`; returns it with the byte after it.
    pub fn from_bytes(b: &[u8], p: usize) -> (r: Result<(Field, usize), Error>)
        ensures
            match r {
                Ok((m, e)) => decode_member_at(b@, p as int) == Some((m@, e as int)),
                Err(e) => decode_member_at(b@, p as int) is None && e is Truncated,
            },
    {
        if p > b.len() || b.len() - p < 6 {
            return Err(Error::Truncated);
        }
        let access_flags = read_u16(b, p);
        let name_index = read_u16(b, p + 2);
        let descriptor_index = read_u16(b, p + 4);
        let (attributes, e) = read_attributes(b, p + 6)?;
        Ok((Field { access_flags, name_index, descriptor_index, attributes }, e))
    }

    /// Appends the bytes of the field; fails where a count or a length does not fit its field.
    pub fn to_bytes(&self, out: &mut Vec<u8>) -> (r: Result<(), Error>)
        ensures
            r is Ok <==> member_writable(self@),
            r is Ok ==> final(out)@ == old(out)@ + encode_member(self@),
    {
        let ghost start = out@;
        if !attributes_fit(&self.attributes) {
            return Err(Error::InternalError(String::from_str("too many attributes")));
        }
        write_u16(out, self.access_flags);
        write_u16(out, self.name_index);
        write_u16(out, self.descriptor_index);
        write_attributes(&self.attributes, out);
        assert(out@ =~= start + encode_member(self@));
        Ok(())
    }
}

/// Whether the attributes can be written: their count and each length fit their fields.
fn attributes_fit(v: &Vec<Attribute>) -> (r: bool)
    ensures
        r == attributes_writable(attribute_models(v@)),
{
    if v.len() > 0xffff {
        return false;
    }
    let mut k: usize = 0;
    while k < v.len()
        invariant
            k <= v@.len(),
            forall|i: int| 0 <= i < k ==> attribute_writable(#[trigger] attribute_models(v@)[i]),
        decreases v@.len() - k,
    {
        if v[k].info.len() > 0xffff_ffff {
            assert(!attribute_writable(attribute_models(v@)[k as int]));
            return false;
        }
        k = k + 1;
    }
    true
}

/// Appends the count of attributes and each attribute.
fn write_attributes(v: &Vec<Attribute>, out: &mut Vec<u8>)
    requires
        attributes_writable(attribute_models(v@)),
    ensures
        final(out)@ == old(out)@ + encode_attributes(attribute_models(v@)),
{
    let ghost start = out@;
    let ghost enc = |a: AttributeModel| encode_attribute(a);
    let ghost ms = attribute_models(v@);
    write_u16(out, v.len() as u16);
    let mut k: usize = 0;
    while k < v.len()
        invariant
            k <= v@.len(),
            ms == attribute_models(v@),
            attributes_writable(ms),
            enc == (|a: AttributeModel| encode_attribute(a)),
            out@ == start + bytes16(v@.len() as u16) + encode_list(ms.take(k as int), enc),
        decreases v@.len() - k,
    {
        let a = &v[k];
        assert(attribute_writable(ms[k as int]));
        write_u16(out, a.name_index);
        write_u32(out, a.info.len() as u32);
        let mut i: usize = 0;
        let ghost mid = out@;
        while i < a.info.len()
            invariant
                i <= a.info@.len(),
                out@ == mid + a.info@.subrange(0, i as int),
            decreases a.info@.len() - i,
        {
            out.push(a.info[i]);
            i = i + 1;
            assert(a.info@.subrange(0, i as int) =~= a.info@.subrange(0, i - 1).push(a.info@[i - 1]));
        }
        assert(a.info@.subrange(0, i as int) =~= a.info@);
        assert(ms.take(k + 1).drop_last() =~= ms.take(k as int));
        assert(ms.take(k + 1).last() == a@);
        k = k + 1;
    }
    assert(ms.take(k as int) =~= ms);
}


/// Appends the count of methods and each of them.
fn write_methods(v: &Vec<Method>, out: &mut Vec<u8>) -> (r: Result<(), Error>)
    ensures
        r is Ok <==> members_writable(v@.map_values(|m: Method| m@)),
        r is Ok ==> final(out)@ == old(out)@ + encode_members(v@.map_values(|m: Method| m@)),
{
    let ghost start = out@;
    let ghost enc = |m: MemberModel| encode_member(m);
    let ghost ms = v@.map_values(|m: Method| m@);
    if v.len() > 0xffff {
        return Err(Error::InternalError(String::from_str("too many methods")));
    }
    write_u16(out, v.len() as u16);
    let mut k: usize = 0;
    while k < v.len()
        invariant
            k <= v@.len(),
            v@.len() <= 0xffff,
            ms == v@.map_values(|m: Method| m@),
            enc == (|m: MemberModel| encode_member(m)),
            forall|i: int| 0 <= i < k ==> member_writable(#[trigger] ms[i]),
            out@ == start + bytes16(v@.len() as u16) + encode_list(ms.take(k as int), enc),
        decreases v@.len() - k,
    {
        if v[k].to_bytes(out).is_err() {
            assert(!member_writable(ms[k as int]));
            return Err(Error::InternalError(String::from_str("too many attributes")));
        }
        assert(ms.take(k + 1).drop_last() =~= ms.take(k as int));
        assert(ms.take(k + 1).last() == v@[k as int]@);
        k = k + 1;
    }
    assert(ms.take(k as int) =~= ms);
    Ok(())
}

/// Appends the count of fields and each of them.
fn write_fields(v: &Vec<Field>, out: &mut Vec<u8>) -> (r: Result<(), Error>)
    ensures
        r is Ok <==> members_writable(v@.map_values(|m: Field| m@)),
        r is Ok ==> final(out)@ == old(out)@ + encode_members(v@.map_values(|m: Field| m@)),
{
    let ghost start = out@;
    let ghost enc = |m: MemberModel| encode_member(m);
    let ghost ms = v@.map_values(|m: Field| m@);
    if v.len() > 0xffff {
        return Err(Error::InternalError(String::from_str("too many fields")));
    }
    write_u16(out, v.len() as u16);
    let mut k: usize = 0;
    while k < v.len()
        invariant
            k <= v@.len(),
            v@.len() <= 0xffff,
            ms == v@.map_values(|m: Field| m@),
            enc == (|m: MemberModel| encode_member(m)),
            forall|i: int| 0 <= i < k ==> member_writable(#[trigger] ms[i]),
            out@ == start + bytes16(v@.len() as u16) + encode_list(ms.take(k as int), enc),
        decreases v@.len() - k,
    {
        if v[k].to_bytes(out).is_err() {
            assert(!member_writable(ms[k as int]));
            return Err(Error::InternalError(String::from_str("too many attributes")));
        }
        assert(ms.take(k + 1).drop_last() =~= ms.take(k as int));
        assert(ms.take(k + 1).last() == v@[k as int]@);
        k = k + 1;
    }
    assert(ms.take(k as int) =~= ms);
    Ok(())
}

/// Appends the count of interfaces and each index.
fn write_interfaces(v: &Vec<u16>, out: &mut Vec<u8>)
    requires
        v@.len() <= 0xffff,
    ensures
        final(out)@ == old(out)@ + encode_interfaces(v@),
{
    let ghost start = out@;
    let ghost enc = |i: u16| bytes16(i);
    write_u16(out, v.len() as u16);
    let mut k: usize = 0;
    while k < v.len()
        invariant
            k <= v@.len(),
            enc == (|i: u16| bytes16(i)),
            out@ == start + bytes16(v@.len() as u16) + encode_list(v@.take(k as int), enc),
        decreases v@.len() - k,
    {
        write_u16(out, v[k]);
        assert(v@.take(k + 1).drop_last() =~= v@.take(k as int));
        k = k + 1;
    }
    assert(v@.take(k as int) =~= v@);
}

/// A class file.
#[derive(Debug, Clone, PartialEq, Eq)]
pub struct ClassFile {
    pub minor_version: u16,
    pub major_version: u16,
    pub constant_pool: ConstantPool,
    pub access_flags: u16,
    pub this_class: u16,
    pub super_class: u16,
    pub interfaces: Vec<u16>,
    pub fields: Vec<Field>,
    pub methods: Vec<Method>,
    pub attributes: Vec<Attribute>,
}

impl View for ClassFile {
    type V = ClassFileModel;

    open spec fn view(&self) -> ClassFileModel {
        ClassFileModel {
            minor_version: self.minor_version,
            major_version: self.major_version,
            constant_pool: self.constant_pool@,
            access_flags: self.access_flags,
            this_class: self.this_class,
            super_class: self.super_class,
            interfaces: self.interfaces@,
            fields: self.fields@.map_values(|m: Field| m@),
            methods: self.methods@.map_values(|m: Method| m@),
            attributes: attribute_models(self.attributes@),
        }
    }
}

impl ClassFile {
    /// Decodes a class file that occupies all of `b`.
    pub fn from_bytes(b: &[u8]) -> (r: Result<ClassFile, Error>)
        ensures
            match r {
                Ok(c) => decode_class(b@) == Some(c@),
                Err(_) => decode_class(b@) is None,
            },
    {
        if b.len() < 8 {
            return Err(Error::Truncated);
        }
        if read_u32(b, 0) != MAGIC {
            return Err(Error::InvalidOperand {
                expected: String::from_str("the class file magic number"),
                actual: String::from_str("other bytes"),
            });
        }
        let minor_version = read_u16(b, 4);
        let major_version = read_u16(b, 6);
        let (constant_pool, p) = ConstantPool::from_bytes(b, 8)?;
        proof {
            lemma_pool_round_trip(b@, 8);
        }
        if b.len() - p < 6 {
            return Err(Error::Truncated);
        }
        let access_flags = read_u16(b, p);
        let this_class = read_u16(b, p + 2);
        let super_class = read_u16(b, p + 4);
        let (interfaces, q) = read_interfaces(b, p + 6)?;
        let (fields, r) = read_fields(b, q)?;
        let (methods, s) = read_methods(b, r)?;
        let (attributes, e) = read_attributes(b, s)?;
        if e != b.len() {
            return Err(Error::InvalidOperand {
                expected: String::from_str("the end of the class file"),
                actual: String::from_str("more bytes"),
            });
        }
        Ok(
            ClassFile {
                minor_version,
                major_version,
                constant_pool,
                access_flags,
                this_class,
                super_class,
                interfaces,
                fields,
                methods,
                attributes,
            },
        )
    }

    /// The bytes of the class file; fails where a count or a length does not fit its field.
    pub fn to_bytes(&self) -> (r: Result<Vec<u8>, Error>)
        ensures
            r is Ok <==> class_writable(self@),
            r matches Ok(b) ==> b@ == encode_class(self@),
    {
        let mut out: Vec<u8> = Vec::new();
        write_u32(&mut out, MAGIC);
        write_u16(&mut out, self.minor_version);
        write_u16(&mut out, self.major_version);
        self.constant_pool.to_bytes(&mut out)?;
        write_u16(&mut out, self.access_flags);
        write_u16(&mut out, self.this_class);
        write_u16(&mut out, self.super_class);
        if self.interfaces.len() > 0xffff {
            return Err(Error::InternalError(String::from_str("too many interfaces")));
        }
        write_interfaces(&self.interfaces, &mut out);
        write_fields(&self.fields, &mut out)?;
        write_methods(&self.methods, &mut out)?;
        if !attributes_fit(&self.attributes) {
            return Err(Error::InternalError(String::from_str("too many attributes")));
        }
        write_attributes(&self.attributes, &mut out);
        assert(out@ =~= encode_class(self@));
        Ok(out)
    }

    /// The name of the class, from its `this_class` constant.
    pub fn class_name(&self) -> (r: Result<String, Error>)
        ensures
            r is Ok <==> crate::constant_pool::names_class(self@.constant_pool, self.this_class as int),
            r matches Ok(s) ==> exists|u: u16|
                1 <= self.this_class <= self@.constant_pool.len() && self@.constant_pool[self.this_class
                    - 1] == Some(crate::constant_pool::Constant::Class(u)@)
                    && self@.constant_pool[u - 1] == Some(
                    ConstantModel { tag: 1, payload: crate::constant_pool::modified_utf8(s@) },
                ),
    {
        self.constant_pool.try_get_class_name(self.this_class)
    }
}

/// An entry of a `Code` attribute's exception table, positions as byte offsets.
#[derive(Debug, Clone, Copy, PartialEq, Eq, Structural)]
pub struct ExceptionTableEntry {
    pub start_pc: u16,
    pub end_pc: u16,
    pub handler_pc: u16,
    pub catch_type: u16,
}

/// The contents of a `Code` attribute.
#[derive(Debug, Clone, PartialEq, Eq)]
pub struct CodeAttribute {
    pub max_stack: u16,
    pub max_locals: u16,
    pub code: Vec<u8>,
    pub exception_table: Vec<ExceptionTableEntry>,
    pub attributes: Vec<Attribute>,
}

pub open spec fn decode_exception_entry(b: Seq<u8>, p: int) -> Option<(ExceptionTableEntry, int)> {
    if 0 <= p && p + 8 <= b.len() {
        Some(
            (
                ExceptionTableEntry {
                    start_pc: u16_at(b, p),
                    end_pc: u16_at(b, p + 2),
                    handler_pc: u16_at(b, p + 4),
                    catch_type: u16_at(b, p + 6),
                },
                p + 8,
            ),
        )
    } else {
        None
    }
}

/// The `Code` attribute whose contents are `b`, which it fills exactly.
pub open spec fn decode_code_attribute(b: Seq<u8>) -> Option<
    (u16, u16, Seq<u8>, Seq<ExceptionTableEntry>, Seq<AttributeModel>),
> {
    if 8 <= b.len() && 8 + u32_at(b, 4) + 2 <= b.len() {
        let n = u32_at(b, 4) as int;
        let code = b.subrange(8, 8 + n);
        match decode_list(
            b,
            10 + n,
            u16_at(b, 8 + n) as int,
            |b: Seq<u8>, q: int| decode_exception_entry(b, q),
        ) {
            Option::None => None,
            Option::Some((table, q)) => match decode_attributes(b, q) {
                Option::Some((attributes, e)) => if e == b.len() {
                    Some((u16_at(b, 0), u16_at(b, 2), code, table, attributes))
                } else {
                    None
                },
                Option::None => None,
            },
        }
    } else {
        None
    }
}

/// Where the parts of a `Code` attribute end when parsed from the start of `b`, whatever
/// follows; `None` where the bytes end before its parts are complete.
pub open spec fn code_attribute_end(b: Seq<u8>) -> Option<int> {
    if 8 <= b.len() && 8 + u32_at(b, 4) + 2 <= b.len() {
        let n = u32_at(b, 4) as int;
        match decode_list(
            b,
            10 + n,
            u16_at(b, 8 + n) as int,
            |b: Seq<u8>, q: int| decode_exception_entry(b, q),
        ) {
            Option::None => None,
            Option::Some((_table, q)) => match decode_attributes(b, q) {
                Option::Some((_attributes, e)) => Some(e),
                Option::None => None,
            },
        }
    } else {
        None
    }
}

fn read_exception_entry(b: &[u8], p: usize) -> (r: Result<(ExceptionTableEntry, usize), Error>)
    ensures
        match r {
            Ok((x, e)) => decode_exception_entry(b@, p as int) == Some((x, e as int)),
            Err(e) => decode_exception_entry(b@, p as int) is None && e is Truncated,
        },
{
    if p > b.len() || b.len() - p < 8 {
        return Err(Error::Truncated);
    }
    Ok(
        (
            ExceptionTableEntry {
                start_pc: read_u16(b, p),
                end_pc: read_u16(b, p + 2),
                handler_pc: read_u16(b, p + 4),
                catch_type: read_u16(b, p + 6),
            },
            p + 8,
        ),
    )
}

impl CodeAttribute {
    /// Decodes the contents of a `Code` attribute.
    pub fn from_bytes(b: &[u8]) -> (r: Result<CodeAttribute, Error>)
        ensures
            match r {
                Ok(c) => decode_code_attribute(b@) == Some(
                    (
                        c.max_stack,
                        c.max_locals,
                        c.code@,
                        c.exception_table@,
                        attribute_models(c.attributes@),
                    ),
                ),
                Err(_) => decode_code_attribute(b@) is None,
            },
            r matches Err(e) ==> e is Truncated || e is AttributeLengthMismatch,
            r matches Err(e) ==> (e is Truncated <==> code_attribute_end(b@) is None),
            r matches Err(e) ==> (e is AttributeLengthMismatch <==> (code_attribute_end(b@) matches Some(
                end,
            ) && end != b@.len())),
    {
        if b.len() < 8 {
            return Err(Error::Truncated);
        }
        let max_stack = read_u16(b, 0);
        let max_locals = read_u16(b, 2);
        let n = read_u32(b, 4) as usize;
        if b.len() - 8 < n || b.len() - 8 - n < 2 {
            return Err(Error::Truncated);
        }
        let mut code: Vec<u8> = Vec::new();
        let mut i: usize = 0;
        while i < n
            invariant
                i <= n,
                8 + n <= b.len(),
                code@ =~= b@.subrange(8, 8 + i),
            decreases n - i,
        {
            code.push(b[8 + i]);
            i = i + 1;
        }
        let count = read_u16(b, 8 + n) as usize;
        let ghost item = |b: Seq<u8>, q: int| decode_exception_entry(b, q);
        let ghost whole = decode_list(b@, 10 + n, count as int, item);
        let mut table: Vec<ExceptionTableEntry> = Vec::new();
        let mut pos: usize = 10 + n;
        let mut k: usize = 0;
        while k < count
            invariant
                k <= count,
                8 + n + 2 <= b@.len(),
                n as int == u32_at(b@, 4) as int,
                count as int == u16_at(b@, 8 + n) as int,
                whole == decode_list(b@, 10 + n, count as int, item),
                item == (|b: Seq<u8>, q: int| decode_exception_entry(b, q)),
                match decode_list(b@, pos as int, count - k, item) {
                    Option::Some((rest, e)) => whole == Some((table@ + rest, e)),
                    Option::None => whole is None,
                },
            decreases count - k,
        {
            let (x, next) = match read_exception_entry(b, pos) {
                Ok(x) => x,
                Err(e) => {
                    assert(item(b@, pos as int) is None);
                    assert(decode_list(b@, pos as int, count - k, item) is None);
                    assert(decode_code_attribute(b@) is None);
                    assert(code_attribute_end(b@) is None);
                    return Err(e);
                },
            };
            let ghost prev = table@;
            table.push(x);
            proof {
                if let Option::Some((rest, e)) = decode_list(b@, next as int, count - k - 1, item) {
                    assert(prev + (seq![x] + rest) =~= table@ + rest);
                }
            }
            pos = next;
            k = k + 1;
        }
        assert(table@ + Seq::<ExceptionTableEntry>::empty() =~= table@);
        let (attributes, e) = read_attributes(b, pos)?;
        if e != b.len() {
            return Err(Error::AttributeLengthMismatch);
        }
        Ok(CodeAttribute { max_stack, max_locals, code, exception_table: table, attributes })
    }
}

/// Whether the constant at `index` is the `Utf8` constant whose bytes are `text`.
fn utf8_equals(pool: &ConstantPool, index: u16, text: &[u8]) -> (r: bool)
    ensures
        r == (1 <= index <= pool@.len() && pool@[index - 1] == Some(
            ConstantModel { tag: 1, payload: text@ },
        )),
{
    match pool.get(index) {
        Option::Some(crate::constant_pool::Constant::Utf8(bytes)) => {
            if bytes.len() != text.len() {
                assert(bytes@ != text@);
                return false;
            }
            let mut i: usize = 0;
            while i < text.len()
                invariant
                    bytes@.len() == text@.len(),
                    1 <= index <= pool@.len(),
                    pool@[index - 1] == Some(ConstantModel { tag: 1, payload: bytes@ }),
                    i <= text@.len(),
                    forall|j: int| 0 <= j < i ==> bytes@[j] == text@[j],
                decreases text@.len() - i,
            {
                if bytes[i] != text[i] {
                    assert(bytes@[i as int] != text@[i as int]);
                    assert(bytes@ != text@);
                    return false;
                }
                i = i + 1;
            }
            assert(bytes@ =~= text@);
            true
        },
        _ => false,
    }
}

/// The class file's `this_class` names a `Class` constant whose `Utf8` entry is the
/// modified UTF-8 form of `name`.
pub open spec fn class_named(c: ClassFileModel, name: Seq<char>) -> bool {
    exists|u: u16|
        1 <= c.this_class <= c.constant_pool.len() && c.constant_pool[c.this_class - 1] == Some(
            #[trigger] crate::constant_pool::Constant::Class(u)@,
        ) && utf8_is(c.constant_pool, u as int, crate::constant_pool::modified_utf8(name))
}

/// Slot `index` of `pool` is the `Utf8` constant with bytes `text`.
pub open spec fn utf8_is(pool: Seq<Option<ConstantModel>>, index: int, text: Seq<u8>) -> bool {
    1 <= index <= pool.len() && pool[index - 1] == Some(ConstantModel { tag: 1, payload: text })
}

/// Method `i` of `c` has this name and descriptor.
pub open spec fn method_is(c: ClassFileModel, i: int, name: Seq<u8>, descriptor: Seq<u8>) -> bool {
    utf8_is(c.constant_pool, c.methods[i].name_index as int, name) && utf8_is(
        c.constant_pool,
        c.methods[i].descriptor_index as int,
        descriptor,
    )
}

/// Attribute `k` of method `i` of `c` is named `Code`.
pub open spec fn is_code_attribute(c: ClassFileModel, i: int, k: int) -> bool {
    utf8_is(
        c.constant_pool,
        c.methods[i].attributes[k].name_index as int,
        vstd::utf8::encode_utf8("Code"@),
    )
}

/// Attribute `k` is the first `Code` attribute of method `i`.
pub open spec fn first_code_attribute(c: ClassFileModel, i: int, k: int) -> bool {
    &&& 0 <= k < c.methods[i].attributes.len()
    &&& is_code_attribute(c, i, k)
    &&& forall|j: int| 0 <= j < k ==> !#[trigger] is_code_attribute(c, i, j)
}

impl ClassFile {
    /// Whether the class file's `this_class` names the class `name`.
    pub fn is_named(&self, name: &str) -> (r: bool)
        ensures
            r == class_named(self@, name@),
    {
        let bytes = crate::constant_pool::to_modified_utf8(name);
        match self.constant_pool.get(self.this_class) {
            Option::Some(crate::constant_pool::Constant::Class(u)) => {
                let r = utf8_equals(&self.constant_pool, *u, bytes.as_slice());
                proof {
                    if class_named(self@, name@) {
                        let w = choose|w: u16|
                            1 <= self.this_class <= self@.constant_pool.len()
                                && self@.constant_pool[self.this_class - 1] == Some(
                                #[trigger] crate::constant_pool::Constant::Class(w)@,
                            ) && utf8_is(
                                self@.constant_pool,
                                w as int,
                                crate::constant_pool::modified_utf8(name@),
                            );
                        assert(crate::constant_pool::Constant::Class(w)@ == crate::constant_pool::Constant::Class(*u)@);
                        assert(bytes16(w) == bytes16(*u));
                        lemma_bytes16_word16((w >> 8u16) as u8, w as u8);
                        assert(word16((w >> 8u16) as u8, w as u8) == w) by (bit_vector);
                        assert(word16((*u >> 8u16) as u8, *u as u8) == *u) by (bit_vector);
                        assert(bytes16(w)[0] == bytes16(*u)[0] && bytes16(w)[1] == bytes16(*u)[1]);
                    }
                }
                r
            },
            _ => {
                proof {
                    if class_named(self@, name@) {
                        let w = choose|w: u16|
                            1 <= self.this_class <= self@.constant_pool.len()
                                && self@.constant_pool[self.this_class - 1] == Some(
                                #[trigger] crate::constant_pool::Constant::Class(w)@,
                            ) && utf8_is(
                                self@.constant_pool,
                                w as int,
                                crate::constant_pool::modified_utf8(name@),
                            );
                    }
                }
                false
            },
        }
    }

    /// The index of the first method whose name and descriptor are the `Utf8` constants
    /// with bytes `name` and `descriptor`.
    pub fn find_method(&self, name: &[u8], descriptor: &[u8]) -> (r: Option<usize>)
        ensures
            r matches Some(i) ==> i < self.methods@.len() && method_is(self@, i as int, name@, descriptor@)
                && forall|j: int| 0 <= j < i ==> !#[trigger] method_is(self@, j, name@, descriptor@),
            r is None ==> forall|j: int|
                0 <= j < self.methods@.len() ==> !#[trigger] method_is(self@, j, name@, descriptor@),
    {
        let mut i: usize = 0;
        while i < self.methods.len()
            invariant
                i <= self.methods@.len(),
                forall|j: int| 0 <= j < i ==> !#[trigger] method_is(self@, j, name@, descriptor@),
            decreases self.methods@.len() - i,
        {
            let m = &self.methods[i];
            assert(self@.methods[i as int] == m@);
            if utf8_equals(&self.constant_pool, m.name_index, name) && utf8_equals(
                &self.constant_pool,
                m.descriptor_index,
                descriptor,
            ) {
                return Some(i);
            }
            i = i + 1;
        }
        None
    }

    /// The contents of the first `Code` attribute of method `index`.
    pub fn method_code(&self, index: usize) -> (r: Result<CodeAttribute, Error>)
        requires
            index < self.methods@.len(),
        ensures
            r matches Ok(c) ==> exists|k: int|
                #[trigger] first_code_attribute(self@, index as int, k) && decode_code_attribute(
                    self@.methods[index as int].attributes[k].info,
                ) == Some(
                    (
                        c.max_stack,
                        c.max_locals,
                        c.code@,
                        c.exception_table@,
                        attribute_models(c.attributes@),
                    ),
                ),
            r is Err ==> (forall|k: int|
                0 <= k < self@.methods[index as int].attributes.len() ==> !#[trigger] is_code_attribute(
                    self@,
                    index as int,
                    k,
                )) || exists|k: int|
                #[trigger] first_code_attribute(self@, index as int, k) && decode_code_attribute(
                    self@.methods[index as int].attributes[k].info,
                ) is None,
    {
        let m = &self.methods[index];
        let code_name = "Code".as_bytes();
        assert(code_name@ == vstd::utf8::encode_utf8("Code"@));
        assert(self@.methods[index as int] == m@);
        let mut k: usize = 0;
        while k < m.attributes.len()
            invariant
                k <= m.attributes@.len(),
                index < self.methods@.len(),
                *m == self.methods@[index as int],
                self@.methods[index as int] == m@,
                code_name@ == vstd::utf8::encode_utf8("Code"@),
                forall|j: int| 0 <= j < k ==> !#[trigger] is_code_attribute(self@, index as int, j),
            decreases m.attributes@.len() - k,
        {
            let a = &m.attributes[k];
            assert(self@.methods[index as int].attributes[k as int] == a@);
            if utf8_equals(&self.constant_pool, a.name_index, code_name) {
                let r = CodeAttribute::from_bytes(a.info.as_slice());
                assert(first_code_attribute(self@, index as int, k as int));
                return r;
            }
            k = k + 1;
        }
        Err(Error::InvalidOperand {
            expected: String::from_str("a Code attribute"),
            actual: String::from_str("a method without one"),
        })
    }
}

} // verus!
