//! The constant pool: a table of tagged constants addressed by 1-based indices.

use crate::bytes::{
    bytes16, bytes32, lemma_bytes16_word16, lemma_bytes32_word32, read_u16, read_u32, u16_at, word16,
    u32_at, write_u16, write_u32,
};
use crate::error::Error;
use crate::java_error::{decimal, push_decimal, push_signed_decimal, signed_decimal};
use vstd::prelude::*;
use vstd::string::{StrSliceExecFns, StringExecFns};

verus! {

/// A constant of the pool. `Float` and `Double` hold the IEEE 754 bits of the value.
#[derive(Debug, Clone, PartialEq, Eq)]
pub enum Constant {
    Utf8(Vec<u8>),
    Integer(i32),
    Float(u32),
    Long(i64),
    Double(u64),
    Class(u16),
    String(u16),
    FieldRef { class_index: u16, name_and_type_index: u16 },
    MethodRef { class_index: u16, name_and_type_index: u16 },
    InterfaceMethodRef { class_index: u16, name_and_type_index: u16 },
    NameAndType { name_index: u16, descriptor_index: u16 },
    MethodHandle { reference_kind: u8, reference_index: u16 },
    MethodType(u16),
    Dynamic { bootstrap_method_attr_index: u16, name_and_type_index: u16 },
    InvokeDynamic { bootstrap_method_attr_index: u16, name_and_type_index: u16 },
    Module(u16),
    Package(u16),
}

/// The mathematical value of a `Constant`: its tag and its payload, the contents of a
/// `Utf8` constant as bytes, every other payload as its big-endian bytes.
pub struct ConstantModel {
    pub tag: u8,
    pub payload: Seq<u8>,
}

impl View for Constant {
    type V = ConstantModel;

    open spec fn view(&self) -> ConstantModel {
        match self {
            Constant::Utf8(b) => ConstantModel { tag: 1, payload: b@ },
            Constant::Integer(v) => ConstantModel { tag: 3, payload: bytes32(*v as u32) },
            Constant::Float(v) => ConstantModel { tag: 4, payload: bytes32(*v) },
            Constant::Long(v) => ConstantModel {
                tag: 5,
                payload: bytes32(((*v as u64) >> 32u64) as u32) + bytes32(*v as u32),
            },
            Constant::Double(v) => ConstantModel {
                tag: 6,
                payload: bytes32((*v >> 32u64) as u32) + bytes32(*v as u32),
            },
            Constant::Class(i) => ConstantModel { tag: 7, payload: bytes16(*i) },
            Constant::String(i) => ConstantModel { tag: 8, payload: bytes16(*i) },
            Constant::FieldRef { class_index, name_and_type_index } => ConstantModel {
                tag: 9,
                payload: bytes16(*class_index) + bytes16(*name_and_type_index),
            },
            Constant::MethodRef { class_index, name_and_type_index } => ConstantModel {
                tag: 10,
                payload: bytes16(*class_index) + bytes16(*name_and_type_index),
            },
            Constant::InterfaceMethodRef { class_index, name_and_type_index } => ConstantModel {
                tag: 11,
                payload: bytes16(*class_index) + bytes16(*name_and_type_index),
            },
            Constant::NameAndType { name_index, descriptor_index } => ConstantModel {
                tag: 12,
                payload: bytes16(*name_index) + bytes16(*descriptor_index),
            },
            Constant::MethodHandle { reference_kind, reference_index } => ConstantModel {
                tag: 15,
                payload: seq![*reference_kind] + bytes16(*reference_index),
            },
            Constant::MethodType(i) => ConstantModel { tag: 16, payload: bytes16(*i) },
            Constant::Dynamic { bootstrap_method_attr_index, name_and_type_index } => ConstantModel {
                tag: 17,
                payload: bytes16(*bootstrap_method_attr_index) + bytes16(*name_and_type_index),
            },
            Constant::InvokeDynamic { bootstrap_method_attr_index, name_and_type_index } =>
            ConstantModel {
                tag: 18,
                payload: bytes16(*bootstrap_method_attr_index) + bytes16(*name_and_type_index),
            },
            Constant::Module(i) => ConstantModel { tag: 19, payload: bytes16(*i) },
            Constant::Package(i) => ConstantModel { tag: 20, payload: bytes16(*i) },
        }
    }
}

/// The length of the payload of a constant with `tag`, other than `Utf8`; `None` for an
/// unknown tag.
pub open spec fn payload_len(tag: u8) -> Option<int> {
    if tag == 3 || tag == 4 || tag == 9 || tag == 10 || tag == 11 || tag == 12 || tag == 17
        || tag == 18 {
        Some(4)
    } else if tag == 5 || tag == 6 {
        Some(8)
    } else if tag == 7 || tag == 8 || tag == 16 || tag == 19 || tag == 20 {
        Some(2)
    } else if tag == 15 {
        Some(3)
    } else {
        None
    }
}

/// A constant takes two pool slots, the second unusable.
pub open spec fn is_wide(tag: u8) -> bool {
    tag == 5 || tag == 6
}

/// The constant at byte `p` and the byte after it; `None` where none is there.
pub open spec fn decode_constant_at(b: Seq<u8>, p: int) -> Option<(ConstantModel, int)> {
    if p < 0 || p >= b.len() {
        None
    } else {
        let tag = b[p];
        if tag == 1 {
            if p + 3 <= b.len() && p + 3 + u16_at(b, p + 1) <= b.len() {
                let n = u16_at(b, p + 1) as int;
                Some((ConstantModel { tag, payload: b.subrange(p + 3, p + 3 + n) }, p + 3 + n))
            } else {
                None
            }
        } else {
            match payload_len(tag) {
                Option::None => None,
                Option::Some(n) => if p + 1 + n <= b.len() {
                    Some((ConstantModel { tag, payload: b.subrange(p + 1, p + 1 + n) }, p + 1 + n))
                } else {
                    None
                },
            }
        }
    }
}

/// The bytes of a constant.
pub open spec fn encode_constant(c: ConstantModel) -> Seq<u8> {
    if c.tag == 1 {
        seq![c.tag] + bytes16(c.payload.len() as u16) + c.payload
    } else {
        seq![c.tag] + c.payload
    }
}

/// `c` can be written: a `Utf8` payload is at most 65535 bytes.
pub open spec fn writable(c: ConstantModel) -> bool {
    c.tag == 1 ==> c.payload.len() <= 0xffff
}

/// One slot of the pool: a constant, or the unusable slot after a `Long` or `Double`.
#[derive(Debug, Clone, PartialEq, Eq)]
pub enum Slot {
    Entry(Constant),
    Unusable,
}

pub open spec fn slot_model(s: Slot) -> Option<ConstantModel> {
    match s {
        Slot::Entry(c) => Some(c@),
        Slot::Unusable => None,
    }
}

/// The constants of a pool from byte `p`, `remaining` slots of them, with the byte after
/// the last; `None` where they do not decode.
pub open spec fn decode_slots(b: Seq<u8>, p: int, remaining: int) -> Option<
    (Seq<Option<ConstantModel>>, int),
>
    decreases remaining,
{
    if remaining <= 0 {
        if remaining == 0 {
            Some((seq![], p))
        } else {
            None
        }
    } else {
        match decode_constant_at(b, p) {
            Option::None => None,
            Option::Some((c, q)) => if is_wide(c.tag) {
                if remaining < 2 {
                    None
                } else {
                    match decode_slots(b, q, remaining - 2) {
                    Option::None => None,
                    Option::Some((rest, end)) => Some((seq![Some(c), None] + rest, end)),
                }
                }
            } else {
                match decode_slots(b, q, remaining - 1) {
                    Option::None => None,
                    Option::Some((rest, end)) => Some((seq![Some(c)] + rest, end)),
                }
            },
        }
    }
}

/// The bytes of the constants of a pool, from slot `k` on.
pub open spec fn encode_slots(s: Seq<Option<ConstantModel>>) -> Seq<u8>
    decreases s.len(),
{
    if s.len() == 0 {
        seq![]
    } else {
        encode_slots(s.drop_last()) + match s.last() {
            Option::Some(c) => encode_constant(c),
            Option::None => seq![],
        }
    }
}

/// The pool, at byte `p`, and the byte after it.
pub open spec fn decode_pool(b: Seq<u8>, p: int) -> Option<(Seq<Option<ConstantModel>>, int)> {
    if p + 2 <= b.len() && u16_at(b, p) >= 1 {
        decode_slots(b, p + 2, u16_at(b, p) - 1)
    } else {
        None
    }
}

/// The bytes of a pool with `slots`.
pub open spec fn encode_pool(s: Seq<Option<ConstantModel>>) -> Seq<u8> {
    bytes16((s.len() + 1) as u16) + encode_slots(s)
}

/// The table of constants of a class file.
#[derive(Debug, Clone, PartialEq, Eq)]
pub struct ConstantPool {
    pub slots: Vec<Slot>,
}

/// The largest number of slots: the count of slots plus one is written as 16 bits.
pub const MAX_SLOTS: usize = 65534;

impl View for ConstantPool {
    type V = Seq<Option<ConstantModel>>;

    open spec fn view(&self) -> Seq<Option<ConstantModel>> {
        self.slots@.map_values(|s: Slot| slot_model(s))
    }
}

proof fn lemma_u16_bytes(b: Seq<u8>, x: int)
    requires
        0 <= x,
        x + 2 <= b.len(),
    ensures
        bytes16(u16_at(b, x)) == b.subrange(x, x + 2),
        (u16_at(b, x) as int) as u16 == u16_at(b, x),
{
    lemma_bytes16_word16(b[x], b[x + 1]);
    assert(b.subrange(x, x + 2) =~= seq![b[x], b[x + 1]]);
}

proof fn lemma_u32_bytes(b: Seq<u8>, x: int)
    requires
        0 <= x,
        x + 4 <= b.len(),
    ensures
        bytes32(u32_at(b, x)) == b.subrange(x, x + 4),
{
    lemma_bytes32_word32(b[x], b[x + 1], b[x + 2], b[x + 3]);
    assert(b.subrange(x, x + 4) =~= seq![b[x], b[x + 1], b[x + 2], b[x + 3]]);
}

/// A constant decoded from a pool can be written, and writing it gives back its bytes.
pub proof fn lemma_decode_encode_constant(b: Seq<u8>, p: int)
    requires
        decode_constant_at(b, p) is Some,
    ensures
        ({
            let (c, q) = decode_constant_at(b, p)->0;
            &&& writable(c)
            &&& p < q <= b.len()
            &&& encode_constant(c) == b.subrange(p, q)
        }),
{
    let (c, q) = decode_constant_at(b, p)->0;
    if b[p] == 1 {
        lemma_u16_bytes(b, p + 1);
        assert(b.subrange(p, q) =~= seq![b[p]] + b.subrange(p + 1, p + 3) + b.subrange(p + 3, q));
    } else {
        assert(b.subrange(p, q) =~= seq![b[p]] + b.subrange(p + 1, q));
    }
}

/// Decodes the constant at byte `p`, returning it with the byte after it.
fn decode_constant(b: &[u8], p: usize) -> (r: Result<(Constant, usize), Error>)
    requires
        p < b@.len(),
    ensures
        match r {
            Ok((c, q)) => decode_constant_at(b@, p as int) == Some((c@, q as int)),
            Err(_) => decode_constant_at(b@, p as int) is None,
        },
{
    let tag = b[p];
    let len = b.len();
    if tag == 1 {
        if len - p < 3 {
            return Err(Error::Truncated);
        }
        let n = read_u16(b, p + 1) as usize;
        if len - p - 3 < n {
            return Err(Error::Truncated);
        }
        let mut bytes: Vec<u8> = Vec::new();
        let mut i: usize = 0;
        while i < n
            invariant
                i <= n,
                p + 3 + n <= b.len(),
                bytes@ =~= b@.subrange(p + 3, p + 3 + i),
            decreases n - i,
        {
            bytes.push(b[p + 3 + i]);
            i = i + 1;
        }
        return Ok((Constant::Utf8(bytes), p + 3 + n));
    }
    let size: usize = if tag == 3 || tag == 4 || tag == 9 || tag == 10 || tag == 11 || tag == 12
        || tag == 17 || tag == 18 {
        4
    } else if tag == 5 || tag == 6 {
        8
    } else if tag == 7 || tag == 8 || tag == 16 || tag == 19 || tag == 20 {
        2
    } else if tag == 15 {
        3
    } else {
        return Err(Error::InvalidConstant {
            expected: String::from_str("a constant tag"),
            actual: String::from_str("an unknown tag"),
        });
    };
    if len - p - 1 < size {
        return Err(Error::Truncated);
    }
    let ghost payload = b@.subrange(p + 1, p + 1 + size);
    let c = if size == 2 {
        decode_two(b, p, tag)
    } else if size == 3 {
        proof {
            lemma_u16_bytes(b@, p + 2);
            assert(payload =~= seq![b@[p + 1]] + b@.subrange(p + 2, p + 4));
        }
        let c = Constant::MethodHandle {
            reference_kind: b[p + 1],
            reference_index: read_u16(b, p + 2),
        };
        assert(c@.payload == payload);
        c
    } else if size == 4 {
        decode_four(b, p, tag)
    } else {
        decode_eight(b, p, tag)
    };
    assert(c@ == ConstantModel { tag, payload });
    Ok((c, p + 1 + size))
}


/// The constant of `tag` whose four payload bytes follow the tag at `p`.
fn decode_four(b: &[u8], p: usize, tag: u8) -> (c: Constant)
    requires
        p + 5 <= b.len(),
        tag == 3 || tag == 4 || tag == 9 || tag == 10 || tag == 11 || tag == 12 || tag == 17
            || tag == 18,
    ensures
        c@ == (ConstantModel { tag, payload: b@.subrange(p + 1, p + 5) }),
{
    let ghost payload = b@.subrange(p + 1, p + 5);
    proof {
        lemma_u16_bytes(b@, p + 1);
        lemma_u16_bytes(b@, p + 3);
        lemma_u32_bytes(b@, p + 1);
        assert(payload =~= b@.subrange(p + 1, p + 3) + b@.subrange(p + 3, p + 5));
    }
    if tag == 3 || tag == 4 {
        let w = read_u32(b, p + 1);
        assert(bytes32(w) == payload);
        if tag == 3 {
            let v = #[verifier::truncate] (w as i32);
            assert(v as u32 == w) by (bit_vector)
                requires
                    v == w as i32,
            ;
            let c = Constant::Integer(v);
            assert(c@.payload == payload);
            c
        } else {
            let c = Constant::Float(w);
            assert(c@.payload == payload);
            c
        }
    } else {
        let x = read_u16(b, p + 1);
        let y = read_u16(b, p + 3);
        assert(bytes16(x) + bytes16(y) == payload);
        if tag == 9 {
            Constant::FieldRef { class_index: x, name_and_type_index: y }
        } else if tag == 10 {
            Constant::MethodRef { class_index: x, name_and_type_index: y }
        } else if tag == 11 {
            Constant::InterfaceMethodRef { class_index: x, name_and_type_index: y }
        } else if tag == 12 {
            Constant::NameAndType { name_index: x, descriptor_index: y }
        } else if tag == 17 {
            Constant::Dynamic { bootstrap_method_attr_index: x, name_and_type_index: y }
        } else {
            Constant::InvokeDynamic { bootstrap_method_attr_index: x, name_and_type_index: y }
        }
    }
}

/// The constant of `tag` whose two payload bytes follow the tag at `p`.
fn decode_two(b: &[u8], p: usize, tag: u8) -> (c: Constant)
    requires
        p + 3 <= b.len(),
        tag == 7 || tag == 8 || tag == 16 || tag == 19 || tag == 20,
    ensures
        c@ == (ConstantModel { tag, payload: b@.subrange(p + 1, p + 3) }),
{
    let ghost payload = b@.subrange(p + 1, p + 3);
    lemma_u16_bytes_exec(b, p + 1);
    let i = read_u16(b, p + 1);
    assert(bytes16(i) == payload);
    if tag == 7 {
        Constant::Class(i)
    } else if tag == 8 {
        Constant::String(i)
    } else if tag == 16 {
        Constant::MethodType(i)
    } else if tag == 19 {
        Constant::Module(i)
    } else {
        Constant::Package(i)
    }
}

/// The `Long` or `Double` whose eight payload bytes follow the tag at `p`.
fn decode_eight(b: &[u8], p: usize, tag: u8) -> (c: Constant)
    requires
        p + 9 <= b.len(),
        tag == 5 || tag == 6,
    ensures
        c@ == (ConstantModel { tag, payload: b@.subrange(p + 1, p + 9) }),
{
    let ghost payload = b@.subrange(p + 1, p + 9);
    let hi = read_u32(b, p + 1);
    let lo = read_u32(b, p + 5);
    proof {
        lemma_u32_bytes(b@, p + 1);
        lemma_u32_bytes(b@, p + 5);
        assert(payload =~= b@.subrange(p + 1, p + 5) + b@.subrange(p + 5, p + 9));
    }
    let w: u64 = ((hi as u64) << 32u64) | (lo as u64);
    assert((w >> 32u64) as u32 == hi && w as u32 == lo) by (bit_vector)
        requires
            w == ((hi as u64) << 32u64) | (lo as u64),
    ;
    assert(bytes32((w >> 32u64) as u32) + bytes32(w as u32) == payload);
    if tag == 5 {
        let v = #[verifier::truncate] (w as i64);
        assert(v as u64 == w && v as u32 == w as u32) by (bit_vector)
            requires
                v == w as i64,
        ;
        let c = Constant::Long(v);
        assert(c@.payload == payload);
        c
    } else {
        let c = Constant::Double(w);
        assert(c@.payload == payload);
        c
    }
}

fn lemma_u16_bytes_exec(b: &[u8], x: usize)
    requires
        x + 2 <= b@.len(),
    ensures
        bytes16(u16_at(b@, x as int)) == b@.subrange(x as int, x + 2),
{
    proof {
        lemma_u16_bytes(b@, x as int);
    }
}

/// Appends the bytes of `c`.
fn encode_constant_into(c: &Constant, out: &mut Vec<u8>)
    requires
        writable(c@),
    ensures
        final(out)@ == old(out)@ + encode_constant(c@),
{
    let ghost start = out@;
    match c {
        Constant::Utf8(b) => {
            out.push(1u8);
            write_u16(out, b.len() as u16);
            let mut i: usize = 0;
            while i < b.len()
                invariant
                    i <= b@.len(),
                    out@ == start + seq![1u8] + bytes16(b@.len() as u16) + b@.subrange(0, i as int),
                decreases b@.len() - i,
            {
                out.push(b[i]);
                i = i + 1;
                assert(b@.subrange(0, i as int) =~= b@.subrange(0, i - 1).push(b@[i - 1]));
            }
            assert(b@.subrange(0, i as int) =~= b@);
        },
        Constant::Integer(v) => {
            out.push(3u8);
            write_u32(out, #[verifier::truncate] (*v as u32));
        },
        Constant::Float(v) => {
            out.push(4u8);
            write_u32(out, *v);
        },
        Constant::Long(v) => {
            out.push(5u8);
            let w = #[verifier::truncate] (*v as u64);
            write_u32(out, #[verifier::truncate] ((w >> 32u64) as u32));
            write_u32(out, #[verifier::truncate] (*v as u32));
        },
        Constant::Double(v) => {
            out.push(6u8);
            write_u32(out, #[verifier::truncate] ((*v >> 32u64) as u32));
            write_u32(out, #[verifier::truncate] (*v as u32));
        },
        Constant::Class(i) => {
            out.push(7u8);
            write_u16(out, *i);
        },
        Constant::String(i) => {
            out.push(8u8);
            write_u16(out, *i);
        },
        Constant::FieldRef { class_index, name_and_type_index } => {
            out.push(9u8);
            write_u16(out, *class_index);
            write_u16(out, *name_and_type_index);
        },
        Constant::MethodRef { class_index, name_and_type_index } => {
            out.push(10u8);
            write_u16(out, *class_index);
            write_u16(out, *name_and_type_index);
        },
        Constant::InterfaceMethodRef { class_index, name_and_type_index } => {
            out.push(11u8);
            write_u16(out, *class_index);
            write_u16(out, *name_and_type_index);
        },
        Constant::NameAndType { name_index, descriptor_index } => {
            out.push(12u8);
            write_u16(out, *name_index);
            write_u16(out, *descriptor_index);
        },
        Constant::MethodHandle { reference_kind, reference_index } => {
            out.push(15u8);
            out.push(*reference_kind);
            write_u16(out, *reference_index);
        },
        Constant::MethodType(i) => {
            out.push(16u8);
            write_u16(out, *i);
        },
        Constant::Dynamic { bootstrap_method_attr_index, name_and_type_index } => {
            out.push(17u8);
            write_u16(out, *bootstrap_method_attr_index);
            write_u16(out, *name_and_type_index);
        },
        Constant::InvokeDynamic { bootstrap_method_attr_index, name_and_type_index } => {
            out.push(18u8);
            write_u16(out, *bootstrap_method_attr_index);
            write_u16(out, *name_and_type_index);
        },
        Constant::Module(i) => {
            out.push(19u8);
            write_u16(out, *i);
        },
        Constant::Package(i) => {
            out.push(20u8);
            write_u16(out, *i);
        },
    }
    assert(out@ =~= start + encode_constant(c@));
}

proof fn lemma_encode_slots_append(a: Seq<Option<ConstantModel>>, b: Seq<Option<ConstantModel>>)
    ensures
        encode_slots(a + b) == encode_slots(a) + encode_slots(b),
    decreases b.len(),
{
    if b.len() == 0 {
        assert(a + b =~= a);
    } else {
        lemma_encode_slots_append(a, b.drop_last());
        assert((a + b).drop_last() =~= a + b.drop_last());
    }
}

/// Slots decoded from a pool, written again, give back their bytes.
pub proof fn lemma_decode_encode_slots(b: Seq<u8>, p: int, remaining: int)
    requires
        0 <= p <= b.len(),
        decode_slots(b, p, remaining) is Some,
    ensures
        ({
            let (s, e) = decode_slots(b, p, remaining)->0;
            &&& s.len() == remaining
            &&& p <= e <= b.len()
            &&& encode_slots(s) == b.subrange(p, e)
            &&& forall|k: int| 0 <= k < s.len() && #[trigger] s[k] is Some ==> writable(s[k]->0)
        }),
    decreases remaining,
{
    if remaining == 0 {
        assert(b.subrange(p, p) =~= seq![]);
    } else {
        let (c, q) = decode_constant_at(b, p)->0;
        lemma_decode_encode_constant(b, p);
        let (s, e) = decode_slots(b, p, remaining)->0;
        let step: int = if is_wide(c.tag) {
            2
        } else {
            1
        };
        lemma_decode_encode_slots(b, q, remaining - step);
        let (rest, e2) = decode_slots(b, q, remaining - step)->0;
        let head: Seq<Option<ConstantModel>> = if is_wide(c.tag) {
            seq![Some(c), None]
        } else {
            seq![Some(c)]
        };
        assert(s == head + rest);
        lemma_encode_slots_append(head, rest);
        let one: Seq<Option<ConstantModel>> = seq![Some(c)];
        assert(one.drop_last() =~= Seq::<Option<ConstantModel>>::empty());
        assert(encode_slots(one.drop_last()) =~= Seq::<u8>::empty());
        assert(encode_slots(one) =~= encode_constant(c));
        if is_wide(c.tag) {
            assert(head.drop_last() =~= one);
            assert(encode_slots(head) =~= encode_constant(c));
        }
        assert(b.subrange(p, e) =~= b.subrange(p, q) + b.subrange(q, e));
        assert forall|k: int| 0 <= k < s.len() && #[trigger] s[k] is Some implies writable(
            s[k]->0,
        ) by {
            if k >= head.len() {
                assert(s[k] == rest[k - head.len()]);
            }
        }
    }
}

/// The first slot at or after `k` that holds `c`.
pub open spec fn find_from(s: Seq<Option<ConstantModel>>, c: ConstantModel, k: int) -> Option<int>
    decreases s.len() - k,
{
    if k < 0 || k >= s.len() {
        None
    } else if s[k] == Some(c) {
        Some(k)
    } else {
        find_from(s, c, k + 1)
    }
}

/// The slots that adding `c` appends: `c`, and an unusable slot after a `Long` or `Double`.
pub open spec fn added(c: ConstantModel) -> Seq<Option<ConstantModel>> {
    if is_wide(c.tag) {
        seq![Some(c), None]
    } else {
        seq![Some(c)]
    }
}

/// The pool after adding `c` without interning, and the index of `c`; `None` where the
/// pool has no room.
pub open spec fn push_spec(s: Seq<Option<ConstantModel>>, c: ConstantModel) -> Option<
    (Seq<Option<ConstantModel>>, int),
> {
    if s.len() + added(c).len() <= MAX_SLOTS {
        Some((s + added(c), s.len() + 1int))
    } else {
        None
    }
}

/// The pool after interning `c`, and the index of `c`: the first slot that already holds
/// it, or a new one; `None` where it is absent and the pool has no room.
pub open spec fn intern_spec(s: Seq<Option<ConstantModel>>, c: ConstantModel) -> Option<
    (Seq<Option<ConstantModel>>, int),
> {
    match find_from(s, c, 0) {
        Option::Some(k) => Some((s, k + 1)),
        Option::None => push_spec(s, c),
    }
}

proof fn lemma_find_from(s: Seq<Option<ConstantModel>>, c: ConstantModel, k: int)
    requires
        0 <= k <= s.len(),
    ensures
        find_from(s, c, k) is None <==> forall|j: int| k <= j < s.len() ==> s[j] != Some(c),
        find_from(s, c, k) matches Some(j) ==> k <= j < s.len() && s[j] == Some(c) && forall|
            i: int,
        | k <= i < j ==> s[i] != Some(c),
    decreases s.len() - k,
{
    if k < s.len() {
        lemma_find_from(s, c, k + 1);
    }
}

/// The pool after interning `c`.
pub open spec fn interned_pool(s: Seq<Option<ConstantModel>>, c: ConstantModel) -> Seq<
    Option<ConstantModel>,
> {
    let (t, _index) = intern_spec(s, c)->0;
    t
}

/// Interning is idempotent: interning a constant into the pool that interning it
/// produced changes nothing and gives the same index.
pub proof fn lemma_intern_twice(s: Seq<Option<ConstantModel>>, c: ConstantModel)
    requires
        intern_spec(s, c) is Some,
    ensures
        intern_spec(interned_pool(s, c), c) == intern_spec(s, c),
{
    let (s1, i) = intern_spec(s, c)->0;
    lemma_find_from(s, c, 0);
    lemma_find_from(s1, c, 0);
    if find_from(s, c, 0) is None {
        assert(s1[s.len() as int] == Some(c));
        let j = find_from(s1, c, 0)->0;
        if j < s.len() {
            assert(s1[j] == s[j]);
        }
        if j > s.len() {
            assert(s1[s.len() as int] == Some(c));
        }
    }
}

/// A constant found in a pool is found at the same slot after the pool grows.
proof fn lemma_find_extend(s: Seq<Option<ConstantModel>>, extra: Seq<Option<ConstantModel>>, c: ConstantModel)
    requires
        find_from(s, c, 0) is Some,
    ensures
        find_from(s + extra, c, 0) == find_from(s, c, 0),
{
    lemma_find_from(s, c, 0);
    lemma_find_from(s + extra, c, 0);
    let k = find_from(s, c, 0)->0;
    assert((s + extra)[k] == s[k]);
    let j = find_from(s + extra, c, 0)->0;
    if j < k {
        assert((s + extra)[j] == s[j]);
    }
}

/// Interning a string constant twice, as `add_string` does (its text as `Utf8`, then a
/// `String` constant naming it), changes nothing the second time and gives the same
/// indices.
pub proof fn lemma_add_string_twice(s0: Seq<Option<ConstantModel>>, text: Seq<char>)
    requires
        intern_spec(s0, ConstantModel { tag: 1, payload: modified_utf8(text) }) is Some,
        intern_spec(
            interned_pool(s0, ConstantModel { tag: 1, payload: modified_utf8(text) }),
            Constant::String(interned_index(s0, ConstantModel { tag: 1, payload: modified_utf8(text) }) as u16)@,
        ) is Some,
    ensures
        ({
            let u = ConstantModel { tag: 1, payload: modified_utf8(text) };
            let s1 = interned_pool(s0, u);
            let i = interned_index(s0, u);
            let st = Constant::String(i as u16)@;
            let s2 = interned_pool(s1, st);
            &&& intern_spec(s2, u) == Some((s2, i))
            &&& intern_spec(s2, st) == intern_spec(s1, st)
        }),
{
    let u = ConstantModel { tag: 1, payload: modified_utf8(text) };
    let s1 = interned_pool(s0, u);
    let i = interned_index(s0, u);
    let st = Constant::String(i as u16)@;
    let s2 = interned_pool(s1, st);
    lemma_intern_twice(s0, u);
    lemma_intern_twice(s1, st);
    assert(intern_spec(s1, u) == Some((s1, i)));
    lemma_find_from(s1, u, 0);
    assert(find_from(s1, u, 0) is Some);
    if find_from(s1, st, 0) is Some {
        assert(s2 == s1);
    } else {
        assert(s2 == s1 + added(st));
        lemma_find_extend(s1, added(st), u);
    }
}

/// The index that interning `c` gives.
pub open spec fn interned_index(s: Seq<Option<ConstantModel>>, c: ConstantModel) -> int {
    let (_t, index) = intern_spec(s, c)->0;
    index
}

/// The tag and payload of `c`.
fn model_of(c: &Constant) -> (r: (u8, Vec<u8>))
    ensures
        r.0 == c@.tag,
        r.1@ == c@.payload,
{
    match c {
        Constant::Utf8(b) => {
            let mut v: Vec<u8> = Vec::new();
            let mut i: usize = 0;
            while i < b.len()
                invariant
                    i <= b@.len(),
                    v@ =~= b@.subrange(0, i as int),
                decreases b@.len() - i,
            {
                v.push(b[i]);
                i = i + 1;
            }
            (1u8, v)
        },
        _ => {
            let mut all: Vec<u8> = Vec::new();
            encode_constant_into(c, &mut all);
            let mut v: Vec<u8> = Vec::new();
            let mut i: usize = 1;
            while i < all.len()
                invariant
                    1 <= i <= all@.len(),
                    v@ =~= all@.subrange(1, i as int),
                decreases all@.len() - i,
            {
                v.push(all[i]);
                i = i + 1;
            }
            assert(all@ =~= seq![c@.tag] + c@.payload);
            (all[0], v)
        },
    }
}

/// Whether two byte vectors are equal.
fn bytes_equal(a: &Vec<u8>, b: &Vec<u8>) -> (r: bool)
    ensures
        r == (a@ == b@),
{
    if a.len() != b.len() {
        return false;
    }
    let mut i: usize = 0;
    while i < a.len()
        invariant
            a@.len() == b@.len(),
            i <= a@.len(),
            forall|j: int| 0 <= j < i ==> a@[j] == b@[j],
        decreases a@.len() - i,
    {
        if a[i] != b[i] {
            return false;
        }
        i = i + 1;
    }
    assert(a@ =~= b@);
    true
}

/// Whether two constants are the same constant.
fn same_constant(a: &Constant, b: &Constant) -> (r: bool)
    ensures
        r == (a@ == b@),
{
    let (ta, pa) = model_of(a);
    let (tb, pb) = model_of(b);
    ta == tb && bytes_equal(&pa, &pb)
}

/// The name of the kind of constant with `tag`.
pub open spec fn kind_text(tag: u8) -> Seq<char> {
    if tag == 1 {
        "Utf8"@
    } else if tag == 3 {
        "Integer"@
    } else if tag == 4 {
        "Float"@
    } else if tag == 5 {
        "Long"@
    } else if tag == 6 {
        "Double"@
    } else if tag == 7 {
        "Class"@
    } else if tag == 8 {
        "String"@
    } else if tag == 9 {
        "FieldRef"@
    } else if tag == 10 {
        "MethodRef"@
    } else if tag == 11 {
        "InterfaceMethodRef"@
    } else if tag == 12 {
        "NameAndType"@
    } else if tag == 15 {
        "MethodHandle"@
    } else if tag == 16 {
        "MethodType"@
    } else if tag == 17 {
        "Dynamic"@
    } else if tag == 18 {
        "InvokeDynamic"@
    } else if tag == 19 {
        "Module"@
    } else {
        "Package"@
    }
}

/// The decimal notations of bytes, separated by `, `.
pub open spec fn byte_list(s: Seq<u8>) -> Seq<char>
    decreases s.len(),
{
    if s.len() == 0 {
        seq![]
    } else if s.len() == 1 {
        decimal(s[0] as nat)
    } else {
        byte_list(s.drop_last()) + ", "@ + decimal(s.last() as nat)
    }
}

/// The debug form of a constant, as `{:?}` writes it: `Long(42)`,
/// `FieldRef { class_index: 1, name_and_type_index: 2 }`, `Utf8([102, 111, 111])`.
pub open spec fn debug_text(c: Constant) -> Seq<char> {
    match c {
        Constant::Utf8(b) => "Utf8(["@ + byte_list(b@) + "])"@,
        Constant::Integer(v) => "Integer("@ + signed_decimal(v as int) + ")"@,
        Constant::Long(v) => "Long("@ + signed_decimal(v as int) + ")"@,
        Constant::Float(v) => "Float("@ + decimal(v as nat) + ")"@,
        Constant::Double(v) => "Double("@ + decimal(v as nat) + ")"@,
        Constant::Class(v) => "Class("@ + decimal(v as nat) + ")"@,
        Constant::String(v) => "String("@ + decimal(v as nat) + ")"@,
        Constant::MethodType(v) => "MethodType("@ + decimal(v as nat) + ")"@,
        Constant::Module(v) => "Module("@ + decimal(v as nat) + ")"@,
        Constant::Package(v) => "Package("@ + decimal(v as nat) + ")"@,
        Constant::FieldRef { class_index, name_and_type_index } => "FieldRef { class_index: "@ + decimal(class_index as nat) + ", name_and_type_index: "@ + decimal(name_and_type_index as nat) + " }"@,
        Constant::MethodRef { class_index, name_and_type_index } => "MethodRef { class_index: "@ + decimal(class_index as nat) + ", name_and_type_index: "@ + decimal(name_and_type_index as nat) + " }"@,
        Constant::InterfaceMethodRef { class_index, name_and_type_index } => "InterfaceMethodRef { class_index: "@ + decimal(class_index as nat) + ", name_and_type_index: "@ + decimal(name_and_type_index as nat) + " }"@,
        Constant::NameAndType { name_index, descriptor_index } => "NameAndType { name_index: "@ + decimal(name_index as nat) + ", descriptor_index: "@ + decimal(descriptor_index as nat) + " }"@,
        Constant::MethodHandle { reference_kind, reference_index } => "MethodHandle { reference_kind: "@ + decimal(reference_kind as nat) + ", reference_index: "@ + decimal(reference_index as nat) + " }"@,
        Constant::Dynamic { bootstrap_method_attr_index, name_and_type_index } => "Dynamic { bootstrap_method_attr_index: "@ + decimal(bootstrap_method_attr_index as nat) + ", name_and_type_index: "@ + decimal(name_and_type_index as nat) + " }"@,
        Constant::InvokeDynamic { bootstrap_method_attr_index, name_and_type_index } => "InvokeDynamic { bootstrap_method_attr_index: "@ + decimal(bootstrap_method_attr_index as nat) + ", name_and_type_index: "@ + decimal(name_and_type_index as nat) + " }"@,
    }
}

/// Appends the decimal notations of `bytes`, separated by `, `.
fn push_byte_list(out: &mut String, bytes: &Vec<u8>)
    ensures
        final(out)@ == old(out)@ + byte_list(bytes@),
{
    let mut i: usize = 0;
    while i < bytes.len()
        invariant
            i <= bytes@.len(),
            out@ == old(out)@ + byte_list(bytes@.take(i as int)),
        decreases bytes@.len() - i,
    {
        let ghost t = bytes@.take(i + 1);
        assert(t.drop_last() =~= bytes@.take(i as int));
        if i > 0 {
            out.append(", ");
        }
        push_decimal(out, bytes[i] as u64);
        proof {
            if i == 0 {
                assert(bytes@.take(0) =~= Seq::<u8>::empty());
                assert(out@ =~= old(out)@ + byte_list(t));
            } else {
                assert(out@ =~= old(out)@ + byte_list(t));
            }
        }
        i = i + 1;
    }
    assert(bytes@.take(i as int) =~= bytes@);
}

/// The debug form of `c`, as `{:?}` writes it.
pub fn constant_debug(c: &Constant) -> (r: String)
    ensures
        r@ == debug_text(*c),
{
    match c {
        Constant::Utf8(b) => {
            let mut s = String::from_str("Utf8([");
            push_byte_list(&mut s, b);
            s.append("])");
            s
        },
        Constant::Integer(v) => {
            let mut s = String::from_str("Integer(");
            push_signed_decimal(&mut s, *v as i64);
            s.append(")");
            s
        },
        Constant::Long(v) => {
            let mut s = String::from_str("Long(");
            push_signed_decimal(&mut s, *v);
            s.append(")");
            s
        },
        Constant::Float(v) => {
            let mut s = String::from_str("Float(");
            push_decimal(&mut s, *v as u64);
            s.append(")");
            s
        },
        Constant::Double(v) => {
            let mut s = String::from_str("Double(");
            push_decimal(&mut s, *v);
            s.append(")");
            s
        },
        Constant::Class(v) => {
            let mut s = String::from_str("Class(");
            push_decimal(&mut s, *v as u64);
            s.append(")");
            s
        },
        Constant::String(v) => {
            let mut s = String::from_str("String(");
            push_decimal(&mut s, *v as u64);
            s.append(")");
            s
        },
        Constant::MethodType(v) => {
            let mut s = String::from_str("MethodType(");
            push_decimal(&mut s, *v as u64);
            s.append(")");
            s
        },
        Constant::Module(v) => {
            let mut s = String::from_str("Module(");
            push_decimal(&mut s, *v as u64);
            s.append(")");
            s
        },
        Constant::Package(v) => {
            let mut s = String::from_str("Package(");
            push_decimal(&mut s, *v as u64);
            s.append(")");
            s
        },
        Constant::FieldRef { class_index, name_and_type_index } => {
            let mut s = String::from_str("FieldRef { class_index: ");
            push_decimal(&mut s, *class_index as u64);
            s.append(", name_and_type_index: ");
            push_decimal(&mut s, *name_and_type_index as u64);
            s.append(" }");
            s
        },
        Constant::MethodRef { class_index, name_and_type_index } => {
            let mut s = String::from_str("MethodRef { class_index: ");
            push_decimal(&mut s, *class_index as u64);
            s.append(", name_and_type_index: ");
            push_decimal(&mut s, *name_and_type_index as u64);
            s.append(" }");
            s
        },
        Constant::InterfaceMethodRef { class_index, name_and_type_index } => {
            let mut s = String::from_str("InterfaceMethodRef { class_index: ");
            push_decimal(&mut s, *class_index as u64);
            s.append(", name_and_type_index: ");
            push_decimal(&mut s, *name_and_type_index as u64);
            s.append(" }");
            s
        },
        Constant::NameAndType { name_index, descriptor_index } => {
            let mut s = String::from_str("NameAndType { name_index: ");
            push_decimal(&mut s, *name_index as u64);
            s.append(", descriptor_index: ");
            push_decimal(&mut s, *descriptor_index as u64);
            s.append(" }");
            s
        },
        Constant::MethodHandle { reference_kind, reference_index } => {
            let mut s = String::from_str("MethodHandle { reference_kind: ");
            push_decimal(&mut s, *reference_kind as u64);
            s.append(", reference_index: ");
            push_decimal(&mut s, *reference_index as u64);
            s.append(" }");
            s
        },
        Constant::Dynamic { bootstrap_method_attr_index, name_and_type_index } => {
            let mut s = String::from_str("Dynamic { bootstrap_method_attr_index: ");
            push_decimal(&mut s, *bootstrap_method_attr_index as u64);
            s.append(", name_and_type_index: ");
            push_decimal(&mut s, *name_and_type_index as u64);
            s.append(" }");
            s
        },
        Constant::InvokeDynamic { bootstrap_method_attr_index, name_and_type_index } => {
            let mut s = String::from_str("InvokeDynamic { bootstrap_method_attr_index: ");
            push_decimal(&mut s, *bootstrap_method_attr_index as u64);
            s.append(", name_and_type_index: ");
            push_decimal(&mut s, *name_and_type_index as u64);
            s.append(" }");
            s
        },
    }
}

/// The name of the kind of `c`, as in the constant's debug form.
pub fn kind_name(c: &Constant) -> (r: &'static str)
    ensures
        r@ == kind_text(c@.tag),
{
    match c {
        Constant::Utf8(_) => "Utf8",
        Constant::Integer(_) => "Integer",
        Constant::Float(_) => "Float",
        Constant::Long(_) => "Long",
        Constant::Double(_) => "Double",
        Constant::Class(_) => "Class",
        Constant::String(_) => "String",
        Constant::FieldRef { .. } => "FieldRef",
        Constant::MethodRef { .. } => "MethodRef",
        Constant::InterfaceMethodRef { .. } => "InterfaceMethodRef",
        Constant::NameAndType { .. } => "NameAndType",
        Constant::MethodHandle { .. } => "MethodHandle",
        Constant::MethodType(_) => "MethodType",
        Constant::Dynamic { .. } => "Dynamic",
        Constant::InvokeDynamic { .. } => "InvokeDynamic",
        Constant::Module(_) => "Module",
        Constant::Package(_) => "Package",
    }
}

/// The modified UTF-8 bytes of one UTF-16 code unit or code point below 0x10000: NUL
/// takes two bytes, other values one to three as in UTF-8.
pub open spec fn unit_bytes(u: int) -> Seq<u8> {
    if u == 0 {
        seq![0xC0u8, 0x80u8]
    } else if u < 0x80 {
        seq![u as u8]
    } else if u < 0x800 {
        seq![(0xC0 + u / 0x40) as u8, (0x80 + u % 0x40) as u8]
    } else {
        seq![(0xE0 + u / 0x1000) as u8, (0x80 + (u / 0x40) % 0x40) as u8, (0x80 + u % 0x40) as u8]
    }
}

/// The modified UTF-8 bytes of a character: a supplementary character is written as
/// its two UTF-16 surrogates, three bytes each.
pub open spec fn char_bytes(c: char) -> Seq<u8> {
    let v = c as int;
    if v < 0x1_0000 {
        unit_bytes(v)
    } else {
        unit_bytes(0xD800 + (v - 0x1_0000) / 0x400) + unit_bytes(0xDC00 + (v - 0x1_0000) % 0x400)
    }
}

/// The modified UTF-8 form of a string, as class files hold text.
pub open spec fn modified_utf8(s: Seq<char>) -> Seq<u8>
    decreases s.len(),
{
    if s.len() == 0 {
        seq![]
    } else {
        modified_utf8(s.drop_last()) + char_bytes(s.last())
    }
}

/// Appends the modified UTF-8 bytes of a value below 0x10000.
fn push_unit(out: &mut Vec<u8>, u: u32)
    requires
        u < 0x1_0000,
    ensures
        final(out)@ == old(out)@ + unit_bytes(u as int),
{
    let ghost start = out@;
    if u == 0 {
        out.push(0xC0);
        out.push(0x80);
    } else if u < 0x80 {
        out.push(u as u8);
    } else if u < 0x800 {
        out.push((0xC0 + u / 0x40) as u8);
        out.push((0x80 + u % 0x40) as u8);
    } else {
        out.push((0xE0 + u / 0x1000) as u8);
        out.push((0x80 + (u / 0x40) % 0x40) as u8);
        out.push((0x80 + u % 0x40) as u8);
    }
    assert(out@ =~= start + unit_bytes(u as int));
}

/// The modified UTF-8 form of `s`.
pub fn to_modified_utf8(s: &str) -> (r: Vec<u8>)
    ensures
        r@ == modified_utf8(s@),
{
    let n = s.unicode_len();
    let mut out: Vec<u8> = Vec::new();
    let mut i: usize = 0;
    while i < n
        invariant
            n == s@.len(),
            i <= n,
            out@ == modified_utf8(s@.subrange(0, i as int)),
        decreases n - i,
    {
        let c = s.get_char(i);
        let v = c as u32;
        if v < 0x1_0000 {
            push_unit(&mut out, v);
        } else {
            assert(v <= 0x10FFFF) by {
                lemma_char_range(c);
            }
            push_unit(&mut out, 0xD800 + (v - 0x1_0000) / 0x400);
            push_unit(&mut out, 0xDC00 + (v - 0x1_0000) % 0x400);
        }
        assert(s@.subrange(0, i + 1).drop_last() =~= s@.subrange(0, i as int));
        i = i + 1;
    }
    assert(s@.subrange(0, n as int) =~= s@);
    out
}

proof fn lemma_modified_utf8_append(a: Seq<char>, b: Seq<char>)
    ensures
        modified_utf8(a + b) == modified_utf8(a) + modified_utf8(b),
    decreases b.len(),
{
    if b.len() == 0 {
        assert(a + b =~= a);
        assert(modified_utf8(a) + modified_utf8(b) =~= modified_utf8(a));
    } else {
        lemma_modified_utf8_append(a, b.drop_last());
        assert((a + b).drop_last() =~= a + b.drop_last());
    }
}

/// The bytes of a text split at character `k`: those of the characters before it, those
/// of character `k`, and those of the rest.
proof fn lemma_modified_utf8_split(t: Seq<char>, k: int)
    requires
        0 <= k < t.len(),
    ensures
        modified_utf8(t) == modified_utf8(t.take(k)) + char_bytes(t[k]) + modified_utf8(t.skip(k + 1)),
{
    lemma_modified_utf8_append(t.take(k), t.skip(k));
    assert(t.take(k) + t.skip(k) =~= t);
    lemma_modified_utf8_append(seq![t[k]], t.skip(k + 1));
    assert(seq![t[k]] + t.skip(k + 1) =~= t.skip(k));
    let one = seq![t[k]];
    assert(one.drop_last() =~= Seq::<char>::empty());
    assert(modified_utf8(one.drop_last()) =~= Seq::<u8>::empty());
    assert(modified_utf8(one) =~= char_bytes(t[k]));
}

/// The code unit that the bytes at `p` would encode, read from the lead byte and the
/// payload bits of what follows, with the length the lead byte announces.
pub open spec fn unit_candidate(b: Seq<u8>, p: int) -> Option<(int, int)> {
    let b0 = b[p] as int;
    if b0 < 0x80 {
        Some((b0, 1))
    } else if b0 < 0xC0 {
        None
    } else if b0 < 0xE0 {
        if p + 2 <= b.len() {
            Some(((b0 - 0xC0) * 0x40 + (b[p + 1] as int) % 0x40, 2))
        } else {
            None
        }
    } else if b0 < 0xF0 {
        if p + 3 <= b.len() {
            Some(
                (
                    (b0 - 0xE0) * 0x1000 + ((b[p + 1] as int) % 0x40) * 0x40 + (b[p + 2] as int)
                        % 0x40,
                    3,
                ),
            )
        } else {
            None
        }
    } else {
        None
    }
}

/// The unit of a candidate.
pub open spec fn candidate_value(o: Option<(int, int)>) -> int {
    let (u, _n) = o->0;
    u
}

/// `unit_bytes(u)` stands at byte `p` of `b`.
pub open spec fn unit_at(b: Seq<u8>, p: int, u: int) -> bool {
    0 <= p && p + unit_bytes(u).len() <= b.len() && b.subrange(p, p + unit_bytes(u).len())
        == unit_bytes(u)
}

/// `char_bytes(c)` stands at byte `p` of `b`.
pub open spec fn char_at(b: Seq<u8>, p: int, c: char) -> bool {
    0 <= p && p + char_bytes(c).len() <= b.len() && b.subrange(p, p + char_bytes(c).len())
        == char_bytes(c)
}

/// The lead byte and the payload bits of a unit's bytes give the unit back.
proof fn lemma_unit_recovery(b: Seq<u8>, p: int, u: int)
    requires
        0 <= u < 0x1_0000,
        unit_at(b, p, u),
    ensures
        unit_candidate(b, p) is Some,
        candidate_value(unit_candidate(b, p)) == u,
        unit_bytes(u).len() >= 1,
{
    let e = unit_bytes(u);
    assert(b[p] == e[0]);
    if u == 0 {
        assert(b[p + 1] == e[1]);
    } else if u < 0x80 {
    } else if u < 0x800 {
        assert(b[p + 1] == e[1]);
        assert((u / 0x40) * 0x40 + u % 0x40 == u) by (nonlinear_arith);
        assert((0x80 + u % 0x40) % 0x40 == u % 0x40) by (nonlinear_arith);
        assert(u / 0x40 < 0x20) by (nonlinear_arith)
            requires
                u < 0x800,
        ;
    } else {
        assert(b[p + 1] == e[1]);
        assert(b[p + 2] == e[2]);
        assert(u / 0x1000 < 0x10) by (nonlinear_arith)
            requires
                u < 0x1_0000,
        ;
        assert((u / 0x1000) * 0x1000 + ((u / 0x40) % 0x40) * 0x40 + u % 0x40 == u) by (
        nonlinear_arith);
        assert((0x80 + (u / 0x40) % 0x40) % 0x40 == (u / 0x40) % 0x40) by (nonlinear_arith);
        assert((0x80 + u % 0x40) % 0x40 == u % 0x40) by (nonlinear_arith);
    }
}

/// Relies on std's `char::from_u32`: the character of a Unicode scalar value.
#[verifier::external_body]
fn scalar_char(code: u32) -> (c: char)
    requires
        vstd::utf8::is_scalar(code),
    ensures
        c as u32 == code,
{
    char::from_u32(code).unwrap()
}

/// Relies on std's `ToString` for `char`: the string of that one character.
#[verifier::external_body]
pub(crate) fn char_string(c: char) -> (r: String)
    ensures
        r@ == seq![c],
{
    c.to_string()
}

/// The code unit whose modified UTF-8 bytes start at `p`, and their length.
fn read_unit(b: &[u8], p: usize) -> (r: Option<(u32, usize)>)
    requires
        p < b@.len(),
    ensures
        r matches Some((u, n)) ==> u < 0x1_0000 && n == unit_bytes(u as int).len() && unit_at(
            b@,
            p as int,
            u as int,
        ),
        r is None ==> forall|u: int| 0 <= u < 0x1_0000 ==> !#[trigger] unit_at(b@, p as int, u),
{
    let len = b.len();
    let b0 = b[p] as u32;
    let u: u32 = if b0 < 0x80 {
        b0
    } else if b0 < 0xC0 {
        proof {
            assert forall|u: int| 0 <= u < 0x1_0000 implies !#[trigger] unit_at(b@, p as int, u) by {
                if unit_at(b@, p as int, u) {
                    lemma_unit_recovery(b@, p as int, u);
                }
            }
        }
        return None;
    } else if b0 < 0xE0 {
        if len - p < 2 {
            proof {
                assert forall|u: int| 0 <= u < 0x1_0000 implies !#[trigger] unit_at(b@, p as int, u) by {
                    if unit_at(b@, p as int, u) {
                        lemma_unit_recovery(b@, p as int, u);
                    }
                }
            }
            return None;
        }
        (b0 - 0xC0) * 0x40 + (b[p + 1] as u32) % 0x40
    } else if b0 < 0xF0 {
        if len - p < 3 {
            proof {
                assert forall|u: int| 0 <= u < 0x1_0000 implies !#[trigger] unit_at(b@, p as int, u) by {
                    if unit_at(b@, p as int, u) {
                        lemma_unit_recovery(b@, p as int, u);
                    }
                }
            }
            return None;
        }
        (b0 - 0xE0) * 0x1000 + ((b[p + 1] as u32) % 0x40) * 0x40 + (b[p + 2] as u32) % 0x40
    } else {
        proof {
            assert forall|u: int| 0 <= u < 0x1_0000 implies !#[trigger] unit_at(b@, p as int, u) by {
                if unit_at(b@, p as int, u) {
                    lemma_unit_recovery(b@, p as int, u);
                }
            }
        }
        return None;
    };
    assert(unit_candidate(b@, p as int) is Some && candidate_value(unit_candidate(b@, p as int)) == u as int);
    let mut expected: Vec<u8> = Vec::new();
    push_unit(&mut expected, u);
    assert(expected@ =~= unit_bytes(u as int));
    let n = expected.len();
    if len - p < n {
        proof {
            assert forall|v: int| 0 <= v < 0x1_0000 implies !#[trigger] unit_at(b@, p as int, v) by {
                if unit_at(b@, p as int, v) {
                    lemma_unit_recovery(b@, p as int, v);
                    assert(v == u as int);
                }
            }
        }
        return None;
    }
    let mut i: usize = 0;
    while i < n
        invariant
            i <= n,
            n == expected@.len(),
            p + n <= b.len(),
            unit_candidate(b@, p as int) is Some,
            candidate_value(unit_candidate(b@, p as int)) == u as int,
            expected@ == unit_bytes(u as int),
            forall|j: int| 0 <= j < i ==> b@[p + j] == expected@[j],
        decreases n - i,
    {
        if b[p + i] != expected[i] {
            proof {
                assert forall|v: int| 0 <= v < 0x1_0000 implies !#[trigger] unit_at(b@, p as int, v) by {
                    if unit_at(b@, p as int, v) {
                        lemma_unit_recovery(b@, p as int, v);
                        assert(v == u as int);
                        assert(b@.subrange(p as int, p + n)[i as int] == b@[p + i]);
                    }
                }
            }
            return None;
        }
        i = i + 1;
    }
    assert(b@.subrange(p as int, p + n) =~= expected@);
    Some((u, n))
}

/// Two units that both stand at `p` are the same unit.
proof fn lemma_unit_unique(b: Seq<u8>, p: int, u: int, v: int)
    requires
        0 <= u < 0x1_0000,
        0 <= v < 0x1_0000,
        unit_at(b, p, u),
        unit_at(b, p, v),
    ensures
        u == v,
{
    lemma_unit_recovery(b, p, u);
    lemma_unit_recovery(b, p, v);
}

/// The surrogate pair of a supplementary character.
proof fn lemma_surrogates(c: int)
    requires
        0x1_0000 <= c <= 0x10_FFFF,
    ensures
        0xD800 <= 0xD800 + (c - 0x1_0000) / 0x400 < 0xDC00,
        0xDC00 <= 0xDC00 + (c - 0x1_0000) % 0x400 < 0xE000,
        c == 0x1_0000 + ((0xD800 + (c - 0x1_0000) / 0x400) - 0xD800) * 0x400 + ((0xDC00 + (c
            - 0x1_0000) % 0x400) - 0xDC00),
{
    assert(0 <= (c - 0x1_0000) / 0x400 < 0x400) by (nonlinear_arith)
        requires
            0 <= c - 0x1_0000 < 0x10_0000,
    ;
    assert((c - 0x1_0000) == ((c - 0x1_0000) / 0x400) * 0x400 + (c - 0x1_0000) % 0x400) by (
    nonlinear_arith);
    assert(0 <= (c - 0x1_0000) % 0x400 < 0x400) by (nonlinear_arith);
}

/// A character's value is a Unicode scalar value.
proof fn lemma_char_range(c: char)
    ensures
        0 <= c as int <= 0x10_FFFF,
        !(0xD800 <= c as int <= 0xDFFF),
{
    vstd::utf8::char_is_scalar(c);
    assert((c as u32) as int == c as int);
}

/// The bytes at `p` of a character, whichever character stands there.
proof fn lemma_char_units(b: Seq<u8>, p: int, c: char)
    requires
        char_at(b, p, c),
    ensures
        (c as int) < 0x1_0000 ==> unit_at(b, p, c as int) && !(0xD800 <= c as int <= 0xDFFF),
        (c as int) >= 0x1_0000 ==> {
            let hi = 0xD800 + (c as int - 0x1_0000) / 0x400;
            let lo = 0xDC00 + (c as int - 0x1_0000) % 0x400;
            &&& unit_at(b, p, hi)
            &&& unit_at(b, p + 3, lo)
            &&& 0xD800 <= hi < 0xDC00
            &&& 0xDC00 <= lo < 0xE000
            &&& unit_bytes(hi).len() == 3
            &&& c as int == 0x1_0000 + (hi - 0xD800) * 0x400 + (lo - 0xDC00)
        },
{
    lemma_char_range(c);
    let v = c as int;
    if v >= 0x1_0000 {
        lemma_surrogates(v);
        let hi = 0xD800 + (v - 0x1_0000) / 0x400;
        let lo = 0xDC00 + (v - 0x1_0000) % 0x400;
        assert(unit_bytes(hi).len() == 3);
        assert(unit_bytes(lo).len() == 3);
        assert(b.subrange(p, p + 3) =~= b.subrange(p, p + 6).subrange(0, 3));
        assert(b.subrange(p + 3, p + 6) =~= b.subrange(p, p + 6).subrange(3, 6));
        assert(char_bytes(c).subrange(0, 3) =~= unit_bytes(hi));
        assert(char_bytes(c).subrange(3, 6) =~= unit_bytes(lo));
    }
}

/// The character whose modified UTF-8 bytes start at `p`, and their length.
fn read_char(b: &[u8], p: usize) -> (r: Option<(char, usize)>)
    requires
        p < b@.len(),
    ensures
        r matches Some((c, n)) ==> n == char_bytes(c).len() && char_at(b@, p as int, c)
            && forall|d: char| #[trigger] char_at(b@, p as int, d) ==> d == c,
        r is None ==> forall|d: char| !#[trigger] char_at(b@, p as int, d),
{
    let (u1, n1) = match read_unit(b, p) {
        Option::Some(x) => x,
        Option::None => {
            proof {
                assert forall|d: char| !#[trigger] char_at(b@, p as int, d) by {
                    if char_at(b@, p as int, d) {
                        lemma_char_units(b@, p as int, d);
                        lemma_char_range(d);
                        if (d as int) < 0x1_0000 {
                            assert(!unit_at(b@, p as int, d as int));
                        } else {
                            let hi = 0xD800 + (d as int - 0x1_0000) / 0x400;
                            assert(!unit_at(b@, p as int, hi));
                        }
                    }
                }
            }
            return None;
        },
    };
    if 0xDC00 <= u1 && u1 < 0xE000 {
        proof {
            assert forall|d: char| !#[trigger] char_at(b@, p as int, d) by {
                if char_at(b@, p as int, d) {
                    lemma_char_units(b@, p as int, d);
                    lemma_char_range(d);
                    if (d as int) < 0x1_0000 {
                        lemma_unit_unique(b@, p as int, u1 as int, d as int);
                    } else {
                        lemma_unit_unique(b@, p as int, u1 as int, 0xD800 + (d as int - 0x1_0000) / 0x400);
                    }
                }
            }
        }
        return None;
    }
    if 0xD800 <= u1 && u1 < 0xDC00 {
        if n1 >= b.len() - p {
            proof {
                assert forall|d: char| !#[trigger] char_at(b@, p as int, d) by {
                    if char_at(b@, p as int, d) {
                        lemma_char_units(b@, p as int, d);
                        lemma_char_range(d);
                        if (d as int) < 0x1_0000 {
                            lemma_unit_unique(b@, p as int, u1 as int, d as int);
                        } else {
                            lemma_unit_unique(b@, p as int, u1 as int, 0xD800 + (d as int - 0x1_0000) / 0x400);
                        }
                    }
                }
            }
            return None;
        }
        let (u2, n2) = match read_unit(b, p + n1) {
            Option::Some(x) => x,
            Option::None => {
                proof {
                    assert forall|d: char| !#[trigger] char_at(b@, p as int, d) by {
                        if char_at(b@, p as int, d) {
                            lemma_char_units(b@, p as int, d);
                            lemma_char_range(d);
                            if (d as int) < 0x1_0000 {
                                lemma_unit_unique(b@, p as int, u1 as int, d as int);
                            } else {
                                lemma_unit_unique(b@, p as int, u1 as int, 0xD800 + (d as int - 0x1_0000) / 0x400);
                                let lo = 0xDC00 + (d as int - 0x1_0000) % 0x400;
                                assert(!unit_at(b@, p + 3, lo));
                            }
                        }
                    }
                }
                return None;
            },
        };
        if !(0xDC00 <= u2 && u2 < 0xE000) {
            proof {
                assert forall|d: char| !#[trigger] char_at(b@, p as int, d) by {
                    if char_at(b@, p as int, d) {
                        lemma_char_units(b@, p as int, d);
                        lemma_char_range(d);
                        if (d as int) < 0x1_0000 {
                            lemma_unit_unique(b@, p as int, u1 as int, d as int);
                        } else {
                            let hi = 0xD800 + (d as int - 0x1_0000) / 0x400;
                            lemma_unit_unique(b@, p as int, u1 as int, hi);
                            lemma_unit_unique(b@, p + 3, u2 as int, 0xDC00 + (d as int - 0x1_0000) % 0x400);
                        }
                    }
                }
            }
            return None;
        }
        let code: u32 = 0x1_0000 + (u1 - 0xD800) * 0x400 + (u2 - 0xDC00);
        let c = scalar_char(code);
        proof {
            let v = code as int;
            lemma_surrogates(v);
            assert((v - 0x1_0000) / 0x400 == u1 - 0xD800 && (v - 0x1_0000) % 0x400 == u2 - 0xDC00)
                by (nonlinear_arith)
                requires
                    v - 0x1_0000 == (u1 - 0xD800) * 0x400 + (u2 - 0xDC00),
                    0 <= u1 - 0xD800 < 0x400,
                    0 <= u2 - 0xDC00 < 0x400,
            ;
            assert(unit_bytes(u1 as int).len() == 3 && unit_bytes(u2 as int).len() == 3);
            assert(b@.subrange(p as int, p + 6) =~= b@.subrange(p as int, p + 3) + b@.subrange(
                p + 3,
                p + 6,
            ));
            assert forall|d: char| #[trigger] char_at(b@, p as int, d) implies d == c by {
                lemma_char_units(b@, p as int, d);
                lemma_char_range(d);
                lemma_char_range(c);
                if (d as int) < 0x1_0000 {
                    lemma_unit_unique(b@, p as int, u1 as int, d as int);
                } else {
                    lemma_unit_unique(b@, p as int, u1 as int, 0xD800 + (d as int - 0x1_0000) / 0x400);
                    lemma_unit_unique(b@, p + 3, u2 as int, 0xDC00 + (d as int - 0x1_0000) % 0x400);
                    vstd::utf8::char_u32_cast(d, d as u32);
                    vstd::utf8::char_u32_cast(c, c as u32);
                }
            }
        }
        return Some((c, n1 + n2));
    }
    assert(u1 < 0xD800 || u1 >= 0xE000);
    let c = scalar_char(u1);
    proof {
        assert forall|d: char| #[trigger] char_at(b@, p as int, d) implies d == c by {
            lemma_char_units(b@, p as int, d);
            lemma_char_range(d);
            if (d as int) < 0x1_0000 {
                lemma_unit_unique(b@, p as int, u1 as int, d as int);
                vstd::utf8::char_u32_cast(d, d as u32);
                vstd::utf8::char_u32_cast(c, c as u32);
            } else {
                lemma_unit_unique(b@, p as int, u1 as int, 0xD800 + (d as int - 0x1_0000) / 0x400);
            }
        }
    }
    Some((c, n1))
}

/// The text whose modified UTF-8 form is `b`, where there is one.
pub fn decode_modified_utf8(b: &[u8]) -> (r: Option<String>)
    ensures
        r matches Some(s) ==> b@ == modified_utf8(s@),
        r is None ==> forall|t: Seq<char>| b@ != #[trigger] modified_utf8(t),
{
    let mut out = String::new();
    let mut p: usize = 0;
    while p < b.len()
        invariant
            p <= b@.len(),
            b@.subrange(0, p as int) == modified_utf8(out@),
            forall|t: Seq<char>|
                b@ == #[trigger] modified_utf8(t) ==> out@.len() <= t.len() && t.take(
                    out@.len() as int,
                ) == out@,
        decreases b@.len() - p,
    {
        let ghost before = out@;
        proof {
            assert forall|t: Seq<char>| b@ == #[trigger] modified_utf8(t) implies out@.len() < t.len()
                && char_at(b@, p as int, t[out@.len() as int]) by {
                let k = out@.len() as int;
                if k == t.len() {
                    assert(t.take(k) =~= t);
                    assert(b@.subrange(0, p as int).len() == b@.len());
                }
                lemma_modified_utf8_split(t, k);
                let e = char_bytes(t[k]);
                assert(b@.subrange(p as int, p + e.len()) =~= e);
            }
        }
        let (c, n) = match read_char(b, p) {
            Option::Some(x) => x,
            Option::None => {
                return None;
            },
        };
        let piece = char_string(c);
        out.append(piece.as_str());
        proof {
            assert(out@ =~= before.push(c));
            assert(out@.drop_last() =~= before);
            assert(b@.subrange(0, p + n) =~= b@.subrange(0, p as int) + b@.subrange(p as int, p + n));
            assert forall|t: Seq<char>| b@ == #[trigger] modified_utf8(t) implies out@.len() <= t.len()
                && t.take(out@.len() as int) == out@ by {
                let k = before.len() as int;
                assert(t.take(k + 1) =~= t.take(k).push(t[k]));
            }
        }
        p = p + n;
    }
    assert(b@.subrange(0, p as int) =~= b@);
    Some(out)
}

/// Slot `index` holds a `Utf8` constant whose bytes are the modified UTF-8 form of a text.
pub open spec fn holds_text(s: Seq<Option<ConstantModel>>, index: int) -> bool {
    &&& 1 <= index <= s.len()
    &&& s[index - 1] is Some
    &&& s[index - 1]->0.tag == 1
    &&& exists|t: Seq<char>| s[index - 1]->0.payload == #[trigger] modified_utf8(t)
}

/// Slot `index` holds a `Class` constant that names a slot holding text.
pub open spec fn names_class(s: Seq<Option<ConstantModel>>, index: int) -> bool {
    &&& 1 <= index <= s.len()
    &&& s[index - 1] is Some
    &&& s[index - 1]->0.tag == 7
    &&& s[index - 1]->0.payload.len() == 2
    &&& holds_text(s, u16_at(s[index - 1]->0.payload, 0) as int)
}

proof fn lemma_class_constant(s: Seq<Option<ConstantModel>>, index: int, u: u16)
    requires
        1 <= index <= s.len(),
        s[index - 1] == Some(Constant::Class(u)@),
    ensures
        names_class(s, index) <==> holds_text(s, u as int),
{
    lemma_bytes16_word16((u >> 8u16) as u8, u as u8);
    assert(word16((u >> 8u16) as u8, u as u8) == u) by (bit_vector);
    let p = s[index - 1]->0.payload;
    assert(p == bytes16(u));
    assert(u16_at(p, 0) == word16(p[0], p[1]));
}

proof fn lemma_not_class(s: Seq<Option<ConstantModel>>, index: int, c: ConstantModel)
    requires
        1 <= index <= s.len(),
        s[index - 1] == Some(c),
        c.tag != 7,
    ensures
        !names_class(s, index),
{
}

impl ConstantPool {
    /// An empty pool.
    pub fn new() -> (r: ConstantPool)
        ensures
            r@ == Seq::<Option<ConstantModel>>::empty(),
    {
        let r = ConstantPool { slots: Vec::new() };
        assert(r@ =~= Seq::<Option<ConstantModel>>::empty());
        r
    }

    /// The number of slots.
    pub fn len(&self) -> (r: usize)
        ensures
            r == self@.len(),
    {
        self.slots.len()
    }

    /// The constant at 1-based `index`; `None` for index 0, an index past the end, and
    /// the unusable slot after a `Long` or `Double`.
    pub fn get(&self, index: u16) -> (r: Option<&Constant>)
        ensures
            r is Some <==> 1 <= index <= self@.len() && self@[index - 1] is Some,
            r matches Some(c) ==> Some(c@) == self@[index - 1],
    {
        if index == 0 || index as usize > self.slots.len() {
            return None;
        }
        match &self.slots[index as usize - 1] {
            Slot::Entry(c) => Some(c),
            Slot::Unusable => None,
        }
    }

    fn push_slots(&mut self, c: Constant) -> (r: Result<u16, Error>)
        ensures
            match push_spec(old(self)@, c@) {
                Option::Some((s, i)) => r == Ok::<u16, Error>(i as u16) && final(self)@ == s,
                Option::None => r is Err && final(self)@ == old(self)@,
            },
    {
        let wide = match &c {
            Constant::Long(_) | Constant::Double(_) => true,
            _ => false,
        };
        let needed: usize = if wide {
            2
        } else {
            1
        };
        if self.slots.len() > MAX_SLOTS - needed {
            return Err(Error::InternalError(String::from_str("the constant pool is full")));
        }
        let index = (self.slots.len() + 1) as u16;
        let ghost m = c@;
        self.slots.push(Slot::Entry(c));
        if wide {
            self.slots.push(Slot::Unusable);
        }
        assert(self@ =~= old(self)@ + added(m));
        Ok(index)
    }

    /// Appends `c` without looking for an equal constant; returns its index.
    pub fn add(&mut self, c: Constant) -> (r: Result<u16, Error>)
        ensures
            match push_spec(old(self)@, c@) {
                Option::Some((s, i)) => r == Ok::<u16, Error>(i as u16) && final(self)@ == s,
                Option::None => r is Err && final(self)@ == old(self)@,
            },
    {
        self.push_slots(c)
    }

    /// The index of a constant equal to `c`, appending `c` where the pool holds none.
    pub fn intern(&mut self, c: Constant) -> (r: Result<u16, Error>)
        ensures
            match intern_spec(old(self)@, c@) {
                Option::Some((s, i)) => r == Ok::<u16, Error>(i as u16) && final(self)@ == s,
                Option::None => r is Err && final(self)@ == old(self)@,
            },
    {
        let mut k: usize = 0;
        while k < self.slots.len()
            invariant
                k <= self@.len(),
                self@ == old(self)@,
                find_from(self@, c@, 0) == find_from(self@, c@, k as int),
            decreases self@.len() - k,
        {
            match &self.slots[k] {
                Slot::Entry(e) => {
                    if same_constant(e, &c) {
                        assert(self@[k as int] == Some(e@));
                        return Ok((k + 1) as u16);
                    }
                },
                Slot::Unusable => {},
            }
            k = k + 1;
        }
        self.push_slots(c)
    }

    /// Interns the `Utf8` constant of `s`, in modified UTF-8; returns its index.
    pub fn add_utf8(&mut self, s: &str) -> (r: Result<u16, Error>)
        ensures
            match intern_spec(old(self)@, ConstantModel { tag: 1, payload: modified_utf8(s@) }) {
                Option::Some((t, i)) => r == Ok::<u16, Error>(i as u16) && final(self)@ == t,
                Option::None => r is Err && final(self)@ == old(self)@,
            },
    {
        let bytes = to_modified_utf8(s);
        self.intern(Constant::Utf8(bytes))
    }

    /// Interns an `Integer` constant; returns its index.
    pub fn add_integer(&mut self, v: i32) -> (r: Result<u16, Error>)
        ensures
            match intern_spec(old(self)@, Constant::Integer(v)@) {
                Option::Some((t, i)) => r == Ok::<u16, Error>(i as u16) && final(self)@ == t,
                Option::None => r is Err && final(self)@ == old(self)@,
            },
    {
        self.intern(Constant::Integer(v))
    }

    /// Interns a `Float` constant given by its IEEE 754 bits; returns its index.
    pub fn add_float(&mut self, bits: u32) -> (r: Result<u16, Error>)
        ensures
            match intern_spec(old(self)@, Constant::Float(bits)@) {
                Option::Some((t, i)) => r == Ok::<u16, Error>(i as u16) && final(self)@ == t,
                Option::None => r is Err && final(self)@ == old(self)@,
            },
    {
        self.intern(Constant::Float(bits))
    }

    /// Interns a `Long` constant; returns its index.
    pub fn add_long(&mut self, v: i64) -> (r: Result<u16, Error>)
        ensures
            match intern_spec(old(self)@, Constant::Long(v)@) {
                Option::Some((t, i)) => r == Ok::<u16, Error>(i as u16) && final(self)@ == t,
                Option::None => r is Err && final(self)@ == old(self)@,
            },
    {
        self.intern(Constant::Long(v))
    }

    /// Interns a `Double` constant given by its IEEE 754 bits; returns its index.
    pub fn add_double(&mut self, bits: u64) -> (r: Result<u16, Error>)
        ensures
            match intern_spec(old(self)@, Constant::Double(bits)@) {
                Option::Some((t, i)) => r == Ok::<u16, Error>(i as u16) && final(self)@ == t,
                Option::None => r is Err && final(self)@ == old(self)@,
            },
    {
        self.intern(Constant::Double(bits))
    }

    /// Interns `s` as `Utf8`, then a `String` constant that names it; returns the latter.
    pub fn add_string(&mut self, s: &str) -> (r: Result<u16, Error>)
        ensures
            match intern_spec(old(self)@, ConstantModel { tag: 1, payload: modified_utf8(s@) }) {
                Option::Some((t, i)) => match intern_spec(t, Constant::String(i as u16)@) {
                    Option::Some((t2, j)) => r == Ok::<u16, Error>(j as u16) && final(self)@ == t2,
                    Option::None => r is Err,
                },
                Option::None => r is Err,
            },
    {
        let utf8 = self.add_utf8(s)?;
        self.intern(Constant::String(utf8))
    }

    /// Interns `name` as `Utf8`, then a `Class` constant that names it; returns the latter.
    pub fn add_class(&mut self, name: &str) -> (r: Result<u16, Error>)
        ensures
            match intern_spec(old(self)@, ConstantModel { tag: 1, payload: modified_utf8(name@) }) {
                Option::Some((t, i)) => match intern_spec(t, Constant::Class(i as u16)@) {
                    Option::Some((t2, j)) => r == Ok::<u16, Error>(j as u16) && final(self)@ == t2,
                    Option::None => r is Err,
                },
                Option::None => r is Err,
            },
    {
        let utf8 = self.add_utf8(name)?;
        self.intern(Constant::Class(utf8))
    }

    /// The text of the `Utf8` constant at `index`, decoded from modified UTF-8.
    pub fn try_get_utf8(&self, index: u16) -> (r: Result<String, Error>)
        ensures
            r is Ok <==> holds_text(self@, index as int),
            r matches Ok(s) ==> self@[index - 1] == Some(
                ConstantModel { tag: 1, payload: modified_utf8(s@) },
            ),
            !(1 <= index <= self@.len() && self@[index - 1] is Some) ==> r == Err::<String, Error>(
                Error::InvalidConstantIndex(index),
            ),
            (1 <= index <= self@.len() && self@[index - 1] is Some && !holds_text(self@, index as int))
                ==> r matches Err(Error::InvalidConstant { .. }),
            r matches Err(Error::InvalidConstant { expected, actual }) ==> expected@ == "utf8"@
                && 1 <= index <= self@.len() && self@[index - 1] is Some && actual@ == (if self@[index
                - 1]->0.tag == 1 {
                "invalid modified utf8"@
            } else {
                kind_text(self@[index - 1]->0.tag)
            }),
    {
        match self.get(index) {
            Option::None => Err(Error::InvalidConstantIndex(index)),
            Option::Some(c) => match c {
                Constant::Utf8(bytes) => match decode_modified_utf8(bytes.as_slice()) {
                    Option::Some(s) => Ok(s),
                    Option::None => Err(
                        Error::InvalidConstant {
                            expected: String::from_str("utf8"),
                            actual: String::from_str("invalid modified utf8"),
                        },
                    ),
                },
                _ => Err(
                    Error::InvalidConstant {
                        expected: String::from_str("utf8"),
                        actual: String::from_str(kind_name(c)),
                    },
                ),
            },
        }
    }

    /// The name that the `Class` constant at `index` refers to.
    pub fn try_get_class_name(&self, index: u16) -> (r: Result<String, Error>)
        ensures
            r is Ok <==> names_class(self@, index as int),
            r matches Ok(s) ==> exists|u: u16|
                1 <= index <= self@.len() && self@[index - 1] == Some(Constant::Class(u)@)
                    && self@[u - 1] == Some(ConstantModel { tag: 1, payload: modified_utf8(s@) }),
    {
        match self.get(index) {
            Option::Some(Constant::Class(name_index)) => {
                proof {
                    lemma_class_constant(self@, index as int, *name_index);
                }
                self.try_get_utf8(*name_index)
            },
            Option::Some(c) => {
                proof {
                    lemma_not_class(self@, index as int, c@);
                }
                Err(
                    Error::InvalidConstant {
                        expected: String::from_str("class"),
                        actual: String::from_str(kind_name(c)),
                    },
                )
            },
            Option::None => Err(Error::InvalidConstantIndex(index)),
        }
    }
}

/// Every constant can be written, and the slot count fits its 16-bit field.
pub open spec fn pool_writable(s: Seq<Option<ConstantModel>>) -> bool {
    &&& s.len() <= MAX_SLOTS
    &&& forall|k: int| 0 <= k < s.len() && #[trigger] s[k] is Some ==> writable(s[k]->0)
}

/// Round trip: a pool decoded from bytes can be written, and writing it gives back the
/// bytes it was decoded from, the unusable slots included.
pub proof fn lemma_pool_round_trip(b: Seq<u8>, p: int)
    requires
        0 <= p,
        decode_pool(b, p) is Some,
    ensures
        ({
            let (s, e) = decode_pool(b, p)->0;
            &&& pool_writable(s)
            &&& p < e <= b.len()
            &&& encode_pool(s) == b.subrange(p, e)
        }),
{
    let (s, e) = decode_pool(b, p)->0;
    lemma_decode_encode_slots(b, p + 2, u16_at(b, p) - 1);
    lemma_u16_bytes(b, p);
    assert((s.len() + 1) as u16 == u16_at(b, p));
    assert(b.subrange(p, e) =~= b.subrange(p, p + 2) + b.subrange(p + 2, e));
}

impl ConstantPool {
    /// Decodes the pool at byte `p`; returns it with the byte after it.
    pub fn from_bytes(b: &[u8], p: usize) -> (r: Result<(ConstantPool, usize), Error>)
        ensures
            match r {
                Ok((pool, e)) => decode_pool(b@, p as int) == Some((pool@, e as int)),
                Err(_) => decode_pool(b@, p as int) is None,
            },
    {
        if p >= b.len() || b.len() - p < 2 {
            return Err(Error::Truncated);
        }
        let count = read_u16(b, p);
        if count == 0 {
            return Err(Error::InvalidConstantIndex(0));
        }
        let ghost total = count - 1;
        let mut remaining: usize = (count - 1) as usize;
        let mut pos: usize = p + 2;
        let mut pool = ConstantPool { slots: Vec::new() };
        while remaining > 0
            invariant
                pos <= b@.len(),
                decode_pool(b@, p as int) == decode_slots(b@, p + 2, total as int),
                match decode_slots(b@, pos as int, remaining as int) {
                    Option::Some((rest, e)) => decode_slots(b@, p + 2, total as int) == Some(
                        (pool@ + rest, e),
                    ),
                    Option::None => decode_slots(b@, p + 2, total as int) is None,
                },
            decreases remaining,
        {
            if pos >= b.len() {
                return Err(Error::Truncated);
            }
            let (c, next) = decode_constant(b, pos)?;
            proof {
                lemma_decode_encode_constant(b@, pos as int);
            }
            let ghost m = c@;
            let ghost prev = pool@;
            let wide = match &c {
                Constant::Long(_) | Constant::Double(_) => true,
                _ => false,
            };
            if wide {
                if remaining < 2 {
                    return Err(Error::InvalidConstantIndex(count));
                }
                pool.slots.push(Slot::Entry(c));
                pool.slots.push(Slot::Unusable);
                assert(pool@ =~= prev + seq![Some(m), None]);
                proof {
                    if let Option::Some((rest, e)) = decode_slots(b@, next as int, remaining - 2) {
                        assert(prev + (seq![Some(m), None] + rest) =~= pool@ + rest);
                    }
                }
                remaining = remaining - 2;
            } else {
                pool.slots.push(Slot::Entry(c));
                assert(pool@ =~= prev + seq![Some(m)]);
                proof {
                    if let Option::Some((rest, e)) = decode_slots(b@, next as int, remaining - 1) {
                        assert(prev + (seq![Some(m)] + rest) =~= pool@ + rest);
                    }
                }
                remaining = remaining - 1;
            }
            pos = next;
        }
        assert(pool@ + Seq::<Option<ConstantModel>>::empty() =~= pool@);
        Ok((pool, pos))
    }

    /// Appends the bytes of the pool: the slot count plus one, then each constant.
    pub fn to_bytes(&self, out: &mut Vec<u8>) -> (r: Result<(), Error>)
        ensures
            r is Ok <==> pool_writable(self@),
            r is Ok ==> final(out)@ == old(out)@ + encode_pool(self@),
    {
        if self.slots.len() > MAX_SLOTS {
            return Err(Error::InternalError(String::from_str("the constant pool is full")));
        }
        let mut k: usize = 0;
        while k < self.slots.len()
            invariant
                k <= self@.len(),
                forall|j: int| 0 <= j < k && #[trigger] self@[j] is Some ==> writable(self@[j]->0),
            decreases self@.len() - k,
        {
            if let Slot::Entry(Constant::Utf8(bytes)) = &self.slots[k] {
                if bytes.len() > 0xffff {
                    assert(self@[k as int] == Some(Constant::Utf8(*bytes)@));
                    assert(!writable(self@[k as int]->0));
                    return Err(Error::InternalError(String::from_str("a string constant is too long")));
                }
            }
            k = k + 1;
        }
        let ghost start = out@;
        write_u16(out, (self.slots.len() + 1) as u16);
        k = 0;
        while k < self.slots.len()
            invariant
                k <= self@.len(),
                pool_writable(self@),
                out@ == start + bytes16((self@.len() + 1) as u16) + encode_slots(self@.take(k as int)),
            decreases self@.len() - k,
        {
            assert(self@.take(k + 1).drop_last() =~= self@.take(k as int));
            match &self.slots[k] {
                Slot::Entry(c) => {
                    assert(self@[k as int] == Some(c@));
                    encode_constant_into(c, out);
                },
                Slot::Unusable => {},
            }
            k = k + 1;
        }
        assert(self@.take(k as int) =~= self@);
        Ok(())
    }
}

} // verus!
