//! JVM instructions: an opcode and its operands, and the encoding of a single
//! instruction at a byte position of a code array.
//!
//! Branch operands are held here exactly as the code array holds them, as signed byte
//! offsets; `code` translates them to instruction offsets and back.

use crate::bytes::{
    byte_to_i8, i8_to_byte, read_i16, read_i32, read_u16, write_i16, write_i32, write_u16, write_u32,
    bytes16, bytes32, lemma_bytes16_word16, lemma_bytes32_word32, lemma_signed16, lemma_signed32,
    lemma_signed8, signed16, signed32, signed8, u16_at, u32_at, unsigned16, unsigned32, unsigned8,
    word16, word32,
};
use crate::error::Error;
use vstd::prelude::*;

verus! {

/// How the operands of an opcode are laid out in the code array.
#[derive(Debug, Clone, Copy, PartialEq, Eq, Structural)]
pub enum Shape {
    /// No operands.
    Plain,
    /// One unsigned byte: a local variable index, a constant pool index, an array type.
    Byte,
    /// One signed byte (`bipush`).
    SignedByte,
    /// One unsigned 16-bit value: a constant pool index.
    Short,
    /// One signed 16-bit value (`sipush`).
    SignedShort,
    /// A signed 16-bit branch offset.
    Branch,
    /// A signed 32-bit branch offset (`goto_w`, `jsr_w`).
    BranchWide,
    /// `iinc`: a local variable index and a signed byte.
    Increment,
    /// The `wide` prefix and the instruction it widens.
    Wide,
    /// `tableswitch`.
    Tableswitch,
    /// `lookupswitch`.
    Lookupswitch,
    /// `invokeinterface`: an index, a count and a zero byte.
    InterfaceCall,
    /// `invokedynamic`: an index and two zero bytes.
    DynamicCall,
    /// `multianewarray`: an index and a dimension count.
    MultiArray,
}

/// The operand layout of each opcode of the instruction set; `None` for an undefined opcode.
pub open spec fn shape_of(op: u8) -> Option<Shape> {
    if op <= 0x0f {
        Some(Shape::Plain)
    } else if op == 0x10 {
        Some(Shape::SignedByte)
    } else if op == 0x11 {
        Some(Shape::SignedShort)
    } else if op == 0x12 {
        Some(Shape::Byte)
    } else if op <= 0x14 {
        Some(Shape::Short)
    } else if op <= 0x19 {
        Some(Shape::Byte)
    } else if op <= 0x35 {
        Some(Shape::Plain)
    } else if op <= 0x3a {
        Some(Shape::Byte)
    } else if op <= 0x83 {
        Some(Shape::Plain)
    } else if op == 0x84 {
        Some(Shape::Increment)
    } else if op <= 0x98 {
        Some(Shape::Plain)
    } else if op <= 0xa8 {
        Some(Shape::Branch)
    } else if op == 0xa9 {
        Some(Shape::Byte)
    } else if op == 0xaa {
        Some(Shape::Tableswitch)
    } else if op == 0xab {
        Some(Shape::Lookupswitch)
    } else if op <= 0xb1 {
        Some(Shape::Plain)
    } else if op <= 0xb8 {
        Some(Shape::Short)
    } else if op == 0xb9 {
        Some(Shape::InterfaceCall)
    } else if op == 0xba {
        Some(Shape::DynamicCall)
    } else if op == 0xbb {
        Some(Shape::Short)
    } else if op == 0xbc {
        Some(Shape::Byte)
    } else if op == 0xbd {
        Some(Shape::Short)
    } else if op <= 0xbf {
        Some(Shape::Plain)
    } else if op <= 0xc1 {
        Some(Shape::Short)
    } else if op <= 0xc3 {
        Some(Shape::Plain)
    } else if op == 0xc4 {
        Some(Shape::Wide)
    } else if op == 0xc5 {
        Some(Shape::MultiArray)
    } else if op <= 0xc7 {
        Some(Shape::Branch)
    } else if op <= 0xc9 {
        Some(Shape::BranchWide)
    } else if op == 0xca || op == 0xfe || op == 0xff {
        Some(Shape::Plain)
    } else {
        None
    }
}

/// The operand layout of `op`.
pub fn shape(op: u8) -> (r: Option<Shape>)
    ensures
        r == shape_of(op),
{
    if op <= 0x0f {
        Some(Shape::Plain)
    } else if op == 0x10 {
        Some(Shape::SignedByte)
    } else if op == 0x11 {
        Some(Shape::SignedShort)
    } else if op == 0x12 {
        Some(Shape::Byte)
    } else if op <= 0x14 {
        Some(Shape::Short)
    } else if op <= 0x19 {
        Some(Shape::Byte)
    } else if op <= 0x35 {
        Some(Shape::Plain)
    } else if op <= 0x3a {
        Some(Shape::Byte)
    } else if op <= 0x83 {
        Some(Shape::Plain)
    } else if op == 0x84 {
        Some(Shape::Increment)
    } else if op <= 0x98 {
        Some(Shape::Plain)
    } else if op <= 0xa8 {
        Some(Shape::Branch)
    } else if op == 0xa9 {
        Some(Shape::Byte)
    } else if op == 0xaa {
        Some(Shape::Tableswitch)
    } else if op == 0xab {
        Some(Shape::Lookupswitch)
    } else if op <= 0xb1 {
        Some(Shape::Plain)
    } else if op <= 0xb8 {
        Some(Shape::Short)
    } else if op == 0xb9 {
        Some(Shape::InterfaceCall)
    } else if op == 0xba {
        Some(Shape::DynamicCall)
    } else if op == 0xbb {
        Some(Shape::Short)
    } else if op == 0xbc {
        Some(Shape::Byte)
    } else if op == 0xbd {
        Some(Shape::Short)
    } else if op <= 0xbf {
        Some(Shape::Plain)
    } else if op <= 0xc1 {
        Some(Shape::Short)
    } else if op <= 0xc3 {
        Some(Shape::Plain)
    } else if op == 0xc4 {
        Some(Shape::Wide)
    } else if op == 0xc5 {
        Some(Shape::MultiArray)
    } else if op <= 0xc7 {
        Some(Shape::Branch)
    } else if op <= 0xc9 {
        Some(Shape::BranchWide)
    } else if op == 0xca || op == 0xfe || op == 0xff {
        Some(Shape::Plain)
    } else {
        None
    }
}

/// The opcodes that `wide` may widen to a 16-bit local index: the loads, the stores and `ret`.
pub open spec fn is_wide_local(op: u8) -> bool {
    (0x15 <= op <= 0x19) || (0x36 <= op <= 0x3a) || op == 0xa9
}

/// The opcode of `iinc`.
pub const IINC: u8 = 0x84;

/// The operands of an instruction.
#[derive(Debug, Clone, PartialEq, Eq)]
pub enum Operands {
    Empty,
    Byte(u8),
    SignedByte(i8),
    Short(u16),
    SignedShort(i16),
    Branch(i32),
    BranchWide(i32),
    Increment { index: u8, constant: i8 },
    WideLocal { opcode: u8, index: u16 },
    WideIncrement { index: u16, constant: i16 },
    Tableswitch { default: i32, low: i32, high: i32, offsets: Vec<i32> },
    Lookupswitch { default: i32, pairs: Vec<(i32, i32)> },
    InterfaceCall { index: u16, count: u8 },
    DynamicCall { index: u16 },
    MultiArray { index: u16, dimensions: u8 },
}

/// One instruction: its opcode and its operands.
#[derive(Debug, Clone, PartialEq, Eq)]
pub struct Instruction {
    pub opcode: u8,
    pub operands: Operands,
}

/// The mathematical value of `Operands`.
pub enum OperandsModel {
    Empty,
    Byte(int),
    SignedByte(int),
    Short(int),
    SignedShort(int),
    Branch(int),
    BranchWide(int),
    Increment { index: int, constant: int },
    WideLocal { opcode: u8, index: int },
    WideIncrement { index: int, constant: int },
    Tableswitch { default: int, low: int, high: int, offsets: Seq<int> },
    Lookupswitch { default: int, pairs: Seq<(int, int)> },
    InterfaceCall { index: int, count: int },
    DynamicCall { index: int },
    MultiArray { index: int, dimensions: int },
}

/// The mathematical value of an `Instruction`.
pub struct InstructionModel {
    pub opcode: u8,
    pub operands: OperandsModel,
}

impl View for Operands {
    type V = OperandsModel;

    open spec fn view(&self) -> OperandsModel {
        match *self {
            Operands::Empty => OperandsModel::Empty,
            Operands::Byte(v) => OperandsModel::Byte(v as int),
            Operands::SignedByte(v) => OperandsModel::SignedByte(v as int),
            Operands::Short(v) => OperandsModel::Short(v as int),
            Operands::SignedShort(v) => OperandsModel::SignedShort(v as int),
            Operands::Branch(v) => OperandsModel::Branch(v as int),
            Operands::BranchWide(v) => OperandsModel::BranchWide(v as int),
            Operands::Increment { index, constant } => OperandsModel::Increment {
                index: index as int,
                constant: constant as int,
            },
            Operands::WideLocal { opcode, index } => OperandsModel::WideLocal {
                opcode,
                index: index as int,
            },
            Operands::WideIncrement { index, constant } => OperandsModel::WideIncrement {
                index: index as int,
                constant: constant as int,
            },
            Operands::Tableswitch { default, low, high, ref offsets } => OperandsModel::Tableswitch {
                default: default as int,
                low: low as int,
                high: high as int,
                offsets: offsets@.map_values(|o: i32| o as int),
            },
            Operands::Lookupswitch { default, ref pairs } => OperandsModel::Lookupswitch {
                default: default as int,
                pairs: pairs@.map_values(|p: (i32, i32)| (p.0 as int, p.1 as int)),
            },
            Operands::InterfaceCall { index, count } => OperandsModel::InterfaceCall {
                index: index as int,
                count: count as int,
            },
            Operands::DynamicCall { index } => OperandsModel::DynamicCall { index: index as int },
            Operands::MultiArray { index, dimensions } => OperandsModel::MultiArray {
                index: index as int,
                dimensions: dimensions as int,
            },
        }
    }
}

impl View for Instruction {
    type V = InstructionModel;

    open spec fn view(&self) -> InstructionModel {
        InstructionModel { opcode: self.opcode, operands: self.operands@ }
    }
}

/// The signed 32-bit value at `pos`.
pub open spec fn i32_at(b: Seq<u8>, pos: int) -> int {
    signed32(u32_at(b, pos))
}

/// The padding after a switch opcode at `pos`: its table starts at a multiple of four.
pub open spec fn switch_padding(pos: int) -> int {
    3 - pos % 4
}

/// `n` zero bytes.
pub open spec fn zeros(n: int) -> Seq<u8> {
    Seq::new(n as nat, |_i: int| 0u8)
}

/// The encoding of a sequence of 32-bit values.
pub open spec fn words(s: Seq<int>) -> Seq<u8>
    decreases s.len(),
{
    if s.len() == 0 {
        seq![]
    } else {
        words(s.drop_last()) + bytes32(unsigned32(s.last()))
    }
}

/// The encoding of a sequence of pairs of 32-bit values.
pub open spec fn pair_words(s: Seq<(int, int)>) -> Seq<u8>
    decreases s.len(),
{
    if s.len() == 0 {
        seq![]
    } else {
        pair_words(s.drop_last()) + bytes32(unsigned32(s.last().0)) + bytes32(unsigned32(s.last().1))
    }
}

pub open spec fn with_operands(op: u8, o: OperandsModel) -> InstructionModel {
    InstructionModel { opcode: op, operands: o }
}

pub open spec fn is_i32(v: int) -> bool {
    -0x8000_0000 <= v < 0x8000_0000
}

/// The `tableswitch` at `p`, and its length, where its table fits in `b`.
pub open spec fn decode_tableswitch(b: Seq<u8>, p: int) -> Option<(InstructionModel, int)> {
    let q = p + 1 + switch_padding(p);
    if q + 12 <= b.len() && b.subrange(p + 1, q) == zeros(q - p - 1) {
        let low = i32_at(b, q + 4);
        let high = i32_at(b, q + 8);
        let n = high - low + 1;
        if low <= high && q + 12 + 4 * n <= b.len() {
            Some(
                (
                    with_operands(
                        b[p],
                        OperandsModel::Tableswitch {
                            default: i32_at(b, q),
                            low,
                            high,
                            offsets: Seq::new(n as nat, |i: int| i32_at(b, q + 12 + 4 * i)),
                        },
                    ),
                    q + 12 + 4 * n - p,
                ),
            )
        } else {
            None
        }
    } else {
        None
    }
}

/// The `lookupswitch` at `p`, and its length, where its pairs fit in `b`.
pub open spec fn decode_lookupswitch(b: Seq<u8>, p: int) -> Option<(InstructionModel, int)> {
    let q = p + 1 + switch_padding(p);
    if q + 8 <= b.len() && b.subrange(p + 1, q) == zeros(q - p - 1) {
        let n = i32_at(b, q + 4);
        if 0 <= n && q + 8 + 8 * n <= b.len() {
            Some(
                (
                    with_operands(
                        b[p],
                        OperandsModel::Lookupswitch {
                            default: i32_at(b, q),
                            pairs: Seq::new(
                                n as nat,
                                |i: int| (i32_at(b, q + 8 + 8 * i), i32_at(b, q + 12 + 8 * i)),
                            ),
                        },
                    ),
                    q + 8 + 8 * n - p,
                ),
            )
        } else {
            None
        }
    } else {
        None
    }
}

/// The instruction that starts at byte `p` of a code array and its length in bytes, with
/// branch operands as byte offsets; `None` where no well-formed instruction starts there.
pub open spec fn decode_at(b: Seq<u8>, p: int) -> Option<(InstructionModel, int)> {
    if p < 0 || p >= b.len() {
        None
    } else {
        let op = b[p];
        let n = b.len();
        match shape_of(op) {
            Option::None => None,
            Option::Some(s) => match s {
                Shape::Plain => Some((with_operands(op, OperandsModel::Empty), 1)),
                Shape::Byte => if p + 2 <= n {
                    Some((with_operands(op, OperandsModel::Byte(b[p + 1] as int)), 2))
                } else {
                    None
                },
                Shape::SignedByte => if p + 2 <= n {
                    Some((with_operands(op, OperandsModel::SignedByte(signed8(b[p + 1]))), 2))
                } else {
                    None
                },
                Shape::Short => if p + 3 <= n {
                    Some((with_operands(op, OperandsModel::Short(u16_at(b, p + 1) as int)), 3))
                } else {
                    None
                },
                Shape::SignedShort => if p + 3 <= n {
                    Some(
                        (with_operands(op, OperandsModel::SignedShort(signed16(u16_at(b, p + 1)))), 3),
                    )
                } else {
                    None
                },
                Shape::Branch => if p + 3 <= n {
                    Some((with_operands(op, OperandsModel::Branch(signed16(u16_at(b, p + 1)))), 3))
                } else {
                    None
                },
                Shape::BranchWide => if p + 5 <= n {
                    Some((with_operands(op, OperandsModel::BranchWide(i32_at(b, p + 1))), 5))
                } else {
                    None
                },
                Shape::Increment => if p + 3 <= n {
                    Some(
                        (
                            with_operands(
                                op,
                                OperandsModel::Increment {
                                    index: b[p + 1] as int,
                                    constant: signed8(b[p + 2]),
                                },
                            ),
                            3,
                        ),
                    )
                } else {
                    None
                },
                Shape::Wide => if p + 4 <= n && is_wide_local(b[p + 1]) {
                    Some(
                        (
                            with_operands(
                                op,
                                OperandsModel::WideLocal {
                                    opcode: b[p + 1],
                                    index: u16_at(b, p + 2) as int,
                                },
                            ),
                            4,
                        ),
                    )
                } else if p + 6 <= n && b[p + 1] == IINC {
                    Some(
                        (
                            with_operands(
                                op,
                                OperandsModel::WideIncrement {
                                    index: u16_at(b, p + 2) as int,
                                    constant: signed16(u16_at(b, p + 4)),
                                },
                            ),
                            6,
                        ),
                    )
                } else {
                    None
                },
                Shape::Tableswitch => decode_tableswitch(b, p),
                Shape::Lookupswitch => decode_lookupswitch(b, p),
                Shape::InterfaceCall => if p + 5 <= n && b[p + 4] == 0 {
                    Some(
                        (
                            with_operands(
                                op,
                                OperandsModel::InterfaceCall {
                                    index: u16_at(b, p + 1) as int,
                                    count: b[p + 3] as int,
                                },
                            ),
                            5,
                        ),
                    )
                } else {
                    None
                },
                Shape::DynamicCall => if p + 5 <= n && b[p + 3] == 0 && b[p + 4] == 0 {
                    Some(
                        (
                            with_operands(
                                op,
                                OperandsModel::DynamicCall { index: u16_at(b, p + 1) as int },
                            ),
                            5,
                        ),
                    )
                } else {
                    None
                },
                Shape::MultiArray => if p + 4 <= n {
                    Some(
                        (
                            with_operands(
                                op,
                                OperandsModel::MultiArray {
                                    index: u16_at(b, p + 1) as int,
                                    dimensions: b[p + 3] as int,
                                },
                            ),
                            4,
                        ),
                    )
                } else {
                    None
                },
            },
        }
    }
}

/// The bytes of instruction `m` placed at byte `p` of a code array.
pub open spec fn encode_at(m: InstructionModel, p: int) -> Seq<u8> {
    let op = m.opcode;
    match m.operands {
        OperandsModel::Empty => seq![op],
        OperandsModel::Byte(v) => seq![op, v as u8],
        OperandsModel::SignedByte(v) => seq![op, unsigned8(v)],
        OperandsModel::Short(v) => seq![op] + bytes16(v as u16),
        OperandsModel::SignedShort(v) => seq![op] + bytes16(unsigned16(v)),
        OperandsModel::Branch(v) => seq![op] + bytes16(unsigned16(v)),
        OperandsModel::BranchWide(v) => seq![op] + bytes32(unsigned32(v)),
        OperandsModel::Increment { index, constant } => seq![op, index as u8, unsigned8(constant)],
        OperandsModel::WideLocal { opcode, index } => seq![op, opcode] + bytes16(index as u16),
        OperandsModel::WideIncrement { index, constant } => seq![op, IINC] + bytes16(index as u16)
            + bytes16(unsigned16(constant)),
        OperandsModel::Tableswitch { default, low, high, offsets } => seq![op] + zeros(
            switch_padding(p),
        ) + bytes32(unsigned32(default)) + bytes32(unsigned32(low)) + bytes32(unsigned32(high))
            + words(offsets),
        OperandsModel::Lookupswitch { default, pairs } => seq![op] + zeros(switch_padding(p))
            + bytes32(unsigned32(default)) + bytes32(unsigned32(pairs.len() as int)) + pair_words(
            pairs,
        ),
        OperandsModel::InterfaceCall { index, count } => seq![op] + bytes16(index as u16) + seq![
            count as u8,
            0u8,
        ],
        OperandsModel::DynamicCall { index } => seq![op] + bytes16(index as u16) + seq![0u8, 0u8],
        OperandsModel::MultiArray { index, dimensions } => seq![op] + bytes16(index as u16) + seq![
            dimensions as u8,
        ],
    }
}

/// `m` has the operands its opcode calls for, each within the range of its encoding.
pub open spec fn encodable(m: InstructionModel) -> bool {
    let s = shape_of(m.opcode);
    match m.operands {
        OperandsModel::Empty => s == Some(Shape::Plain),
        OperandsModel::Byte(v) => s == Some(Shape::Byte) && 0 <= v < 0x100,
        OperandsModel::SignedByte(v) => s == Some(Shape::SignedByte) && -0x80 <= v < 0x80,
        OperandsModel::Short(v) => s == Some(Shape::Short) && 0 <= v < 0x1_0000,
        OperandsModel::SignedShort(v) => s == Some(Shape::SignedShort) && -0x8000 <= v < 0x8000,
        OperandsModel::Branch(v) => s == Some(Shape::Branch) && -0x8000 <= v < 0x8000,
        OperandsModel::BranchWide(v) => s == Some(Shape::BranchWide) && is_i32(v),
        OperandsModel::Increment { index, constant } => s == Some(Shape::Increment) && 0 <= index
            < 0x100 && -0x80 <= constant < 0x80,
        OperandsModel::WideLocal { opcode, index } => s == Some(Shape::Wide) && is_wide_local(
            opcode,
        ) && 0 <= index < 0x1_0000,
        OperandsModel::WideIncrement { index, constant } => s == Some(Shape::Wide) && 0 <= index
            < 0x1_0000 && -0x8000 <= constant < 0x8000,
        OperandsModel::Tableswitch { default, low, high, offsets } => s == Some(Shape::Tableswitch)
            && is_i32(default) && is_i32(low) && is_i32(high) && low <= high && offsets.len() == high
            - low + 1 && forall|i: int| 0 <= i < offsets.len() ==> is_i32(#[trigger] offsets[i]),
        OperandsModel::Lookupswitch { default, pairs } => s == Some(Shape::Lookupswitch) && is_i32(
            default,
        ) && pairs.len() < 0x8000_0000 && forall|i: int|
            0 <= i < pairs.len() ==> is_i32(#[trigger] pairs[i].0) && is_i32(pairs[i].1),
        OperandsModel::InterfaceCall { index, count } => s == Some(Shape::InterfaceCall) && 0
            <= index < 0x1_0000 && 0 <= count < 0x100,
        OperandsModel::DynamicCall { index } => s == Some(Shape::DynamicCall) && 0 <= index
            < 0x1_0000,
        OperandsModel::MultiArray { index, dimensions } => s == Some(Shape::MultiArray) && 0
            <= index < 0x1_0000 && 0 <= dimensions < 0x100,
    }
}

proof fn lemma_u16_at(b: Seq<u8>, x: int)
    requires
        0 <= x,
        x + 2 <= b.len(),
    ensures
        bytes16(u16_at(b, x)) == b.subrange(x, x + 2),
        bytes16(unsigned16(signed16(u16_at(b, x)))) == b.subrange(x, x + 2),
        (u16_at(b, x) as int) as u16 == u16_at(b, x),
{
    lemma_bytes16_word16(b[x], b[x + 1]);
    lemma_signed16(u16_at(b, x));
    assert(b.subrange(x, x + 2) =~= seq![b[x], b[x + 1]]);
}

proof fn lemma_u32_at(b: Seq<u8>, x: int)
    requires
        0 <= x,
        x + 4 <= b.len(),
    ensures
        bytes32(unsigned32(i32_at(b, x))) == b.subrange(x, x + 4),
        is_i32(i32_at(b, x)),
{
    lemma_bytes32_word32(b[x], b[x + 1], b[x + 2], b[x + 3]);
    lemma_signed32(u32_at(b, x));
    assert(b.subrange(x, x + 4) =~= seq![b[x], b[x + 1], b[x + 2], b[x + 3]]);
}

proof fn lemma_words(b: Seq<u8>, start: int, n: int)
    requires
        0 <= start,
        0 <= n,
        start + 4 * n <= b.len(),
    ensures
        words(Seq::new(n as nat, |i: int| i32_at(b, start + 4 * i))) == b.subrange(start, start + 4 * n),
    decreases n,
{
    let s = Seq::new(n as nat, |i: int| i32_at(b, start + 4 * i));
    if n == 0 {
        assert(b.subrange(start, start) =~= seq![]);
    } else {
        lemma_words(b, start, n - 1);
        assert(s.drop_last() =~= Seq::new((n - 1) as nat, |i: int| i32_at(b, start + 4 * i)));
        lemma_u32_at(b, start + 4 * (n - 1));
        assert(b.subrange(start, start + 4 * n) =~= b.subrange(start, start + 4 * (n - 1))
            + b.subrange(start + 4 * (n - 1), start + 4 * n));
    }
}

proof fn lemma_pair_words(b: Seq<u8>, start: int, n: int)
    requires
        0 <= start,
        0 <= n,
        start + 8 * n <= b.len(),
    ensures
        pair_words(Seq::new(n as nat, |i: int| (i32_at(b, start + 8 * i), i32_at(b, start + 4 + 8 * i))))
            == b.subrange(start, start + 8 * n),
    decreases n,
{
    let s = Seq::new(n as nat, |i: int| (i32_at(b, start + 8 * i), i32_at(b, start + 4 + 8 * i)));
    if n == 0 {
        assert(b.subrange(start, start) =~= seq![]);
    } else {
        lemma_pair_words(b, start, n - 1);
        assert(s.drop_last() =~= Seq::new(
            (n - 1) as nat,
            |i: int| (i32_at(b, start + 8 * i), i32_at(b, start + 4 + 8 * i)),
        ));
        let x = start + 8 * (n - 1);
        lemma_u32_at(b, x);
        lemma_u32_at(b, x + 4);
        assert(b.subrange(start, start + 8 * n) =~= b.subrange(start, x) + b.subrange(x, x + 4)
            + b.subrange(x + 4, x + 8));
    }
}

proof fn lemma_decode_encode_tableswitch(b: Seq<u8>, p: int)
    requires
        0 <= p < b.len(),
        b[p] == 0xaa,
        decode_tableswitch(b, p) is Some,
    ensures
        ({
            let (m, n) = decode_tableswitch(b, p)->0;
            &&& encodable(m)
            &&& 1 <= n
            &&& p + n <= b.len()
            &&& encode_at(m, p) == b.subrange(p, p + n)
        }),
{
    let (m, n) = decode_tableswitch(b, p)->0;
    let op = b[p];
    let q = p + 1 + switch_padding(p);
    let low = i32_at(b, q + 4);
    let high = i32_at(b, q + 8);
    let k = high - low + 1;
    lemma_u32_at(b, q);
    lemma_u32_at(b, q + 4);
    lemma_u32_at(b, q + 8);
    lemma_words(b, q + 12, k);
    let offsets = Seq::new(k as nat, |i: int| i32_at(b, q + 12 + 4 * i));
    assert forall|i: int| 0 <= i < offsets.len() implies is_i32(#[trigger] offsets[i]) by {
        lemma_u32_at(b, q + 12 + 4 * i);
    }
    assert(b.subrange(p, p + n) =~= seq![op] + b.subrange(p + 1, q) + b.subrange(q, q + 4)
        + b.subrange(q + 4, q + 8) + b.subrange(q + 8, q + 12) + b.subrange(
        q + 12,
        q + 12 + 4 * k,
    ));
}

proof fn lemma_decode_encode_lookupswitch(b: Seq<u8>, p: int)
    requires
        0 <= p < b.len(),
        b[p] == 0xab,
        decode_lookupswitch(b, p) is Some,
    ensures
        ({
            let (m, n) = decode_lookupswitch(b, p)->0;
            &&& encodable(m)
            &&& 1 <= n
            &&& p + n <= b.len()
            &&& encode_at(m, p) == b.subrange(p, p + n)
        }),
{
    let (m, n) = decode_lookupswitch(b, p)->0;
    let op = b[p];
    let q = p + 1 + switch_padding(p);
    let k = i32_at(b, q + 4);
    lemma_u32_at(b, q);
    lemma_u32_at(b, q + 4);
    lemma_pair_words(b, q + 8, k);
    let pairs = Seq::new(
        k as nat,
        |i: int| (i32_at(b, q + 8 + 8 * i), i32_at(b, q + 12 + 8 * i)),
    );
    assert(pairs =~= Seq::new(
        k as nat,
        |i: int| (i32_at(b, (q + 8) + 8 * i), i32_at(b, (q + 8) + 4 + 8 * i)),
    ));
    assert forall|i: int| 0 <= i < pairs.len() implies is_i32(#[trigger] pairs[i].0)
        && is_i32(pairs[i].1) by {
        lemma_u32_at(b, q + 8 + 8 * i);
        lemma_u32_at(b, q + 12 + 8 * i);
    }
    assert(b.subrange(p, p + n) =~= seq![op] + b.subrange(p + 1, q) + b.subrange(q, q + 4)
        + b.subrange(q + 4, q + 8) + b.subrange(q + 8, q + 8 + 8 * k));
}

/// An instruction decoded from a code array is encodable, and encoding it at the same
/// position gives back exactly the bytes it was decoded from.
#[verifier::rlimit(40)]
pub proof fn lemma_decode_encode(b: Seq<u8>, p: int)
    requires
        decode_at(b, p) is Some,
    ensures
        ({
            let (m, n) = decode_at(b, p)->0;
            &&& encodable(m)
            &&& 1 <= n
            &&& p + n <= b.len()
            &&& encode_at(m, p) == b.subrange(p, p + n)
        }),
{
    let (m, n) = decode_at(b, p)->0;
    let op = b[p];
    let s = shape_of(op)->0;
    lemma_signed8(b[p + 1]);
    match s {
        Shape::Plain => {
            assert(b.subrange(p, p + 1) =~= seq![op]);
        },
        Shape::Byte | Shape::SignedByte => {
            assert(b.subrange(p, p + 2) =~= seq![op, b[p + 1]]);
        },
        Shape::Short | Shape::SignedShort | Shape::Branch => {
            lemma_u16_at(b, p + 1);
            assert(b.subrange(p, p + 3) =~= seq![op] + b.subrange(p + 1, p + 3));
        },
        Shape::BranchWide => {
            lemma_u32_at(b, p + 1);
            assert(b.subrange(p, p + 5) =~= seq![op] + b.subrange(p + 1, p + 5));
        },
        Shape::Increment => {
            lemma_signed8(b[p + 2]);
            assert(b.subrange(p, p + 3) =~= seq![op, b[p + 1], b[p + 2]]);
        },
        Shape::Wide => {
            lemma_u16_at(b, p + 2);
            if is_wide_local(b[p + 1]) {
                assert(b.subrange(p, p + 4) =~= seq![op, b[p + 1]] + b.subrange(p + 2, p + 4));
            } else {
                lemma_u16_at(b, p + 4);
                assert(b.subrange(p, p + 6) =~= seq![op, b[p + 1]] + b.subrange(p + 2, p + 4)
                    + b.subrange(p + 4, p + 6));
            }
        },
        Shape::Tableswitch => {
            lemma_decode_encode_tableswitch(b, p);
        },
        Shape::Lookupswitch => {
            lemma_decode_encode_lookupswitch(b, p);
        },
        Shape::InterfaceCall | Shape::DynamicCall => {
            lemma_u16_at(b, p + 1);
            assert(b.subrange(p, p + 5) =~= seq![op] + b.subrange(p + 1, p + 3) + seq![
                b[p + 3],
                b[p + 4],
            ]);
        },
        Shape::MultiArray => {
            lemma_u16_at(b, p + 1);
            assert(b.subrange(p, p + 4) =~= seq![op] + b.subrange(p + 1, p + 3) + seq![b[p + 3]]);
        },
    }
}

/// Why no instruction decodes at a position: the bytes end inside it, or something
/// present is wrong (an unknown opcode, a nonzero reserved byte, an impossible table).
#[derive(Debug, Clone, Copy, PartialEq, Eq, Structural)]
pub enum DecodeError {
    Truncated,
    Malformed,
}

/// The padding bytes after a switch opcode at `p` that are present are all zero.
pub open spec fn padding_clear(b: Seq<u8>, p: int) -> bool {
    forall|j: int| p + 1 <= j < p + 1 + switch_padding(p) && j < b.len() ==> b[j] == 0
}

/// Why the `tableswitch` at `p` does not decode.
pub open spec fn tableswitch_error(b: Seq<u8>, p: int) -> DecodeError {
    let q = p + 1 + switch_padding(p);
    if !padding_clear(b, p) {
        DecodeError::Malformed
    } else if q + 12 > b.len() {
        DecodeError::Truncated
    } else if i32_at(b, q + 4) > i32_at(b, q + 8) {
        DecodeError::Malformed
    } else {
        DecodeError::Truncated
    }
}

/// Why the `lookupswitch` at `p` does not decode.
pub open spec fn lookupswitch_error(b: Seq<u8>, p: int) -> DecodeError {
    let q = p + 1 + switch_padding(p);
    if !padding_clear(b, p) {
        DecodeError::Malformed
    } else if q + 8 > b.len() {
        DecodeError::Truncated
    } else if i32_at(b, q + 4) < 0 {
        DecodeError::Malformed
    } else {
        DecodeError::Truncated
    }
}

/// Why no instruction decodes at byte `p`, where none does: `Truncated` where the bytes
/// end inside the instruction and all that is present is well-formed, `Malformed` where
/// something present is wrong.
pub open spec fn decode_error_at(b: Seq<u8>, p: int) -> DecodeError {
    let n = b.len();
    match shape_of(b[p]) {
        Option::None => DecodeError::Malformed,
        Option::Some(s) => match s {
            Shape::Plain => DecodeError::Malformed,
            Shape::Wide => if p + 2 <= n && !is_wide_local(b[p + 1]) && b[p + 1] != IINC {
                DecodeError::Malformed
            } else {
                DecodeError::Truncated
            },
            Shape::InterfaceCall => if p + 5 <= n {
                DecodeError::Malformed
            } else {
                DecodeError::Truncated
            },
            Shape::DynamicCall => if (p + 4 <= n && b[p + 3] != 0) || (p + 5 <= n && b[p + 4] != 0) {
                DecodeError::Malformed
            } else {
                DecodeError::Truncated
            },
            Shape::Tableswitch => tableswitch_error(b, p),
            Shape::Lookupswitch => lookupswitch_error(b, p),
            _ => DecodeError::Truncated,
        },
    }
}

/// The kind of an error of the decoder.
pub open spec fn error_kind(e: Error) -> Option<DecodeError> {
    match e {
        Error::Truncated => Some(DecodeError::Truncated),
        Error::MalformedInstruction => Some(DecodeError::Malformed),
        _ => None,
    }
}

/// Reads the switch padding after the opcode at `pos`: the position where the table
/// begins, or an error where a padding byte is not zero or the table cannot start.
fn switch_table_start(bytes: &[u8], pos: usize) -> (r: Result<usize, Error>)
    requires
        pos < bytes@.len(),
    ensures
        match r {
            Ok(q) => q == pos + 1 + switch_padding(pos as int) && q <= bytes@.len()
                && bytes@.subrange(pos + 1, q as int) == zeros(q - pos - 1) && padding_clear(
                bytes@,
                pos as int,
            ),
            Err(e) => (e is Truncated && padding_clear(bytes@, pos as int) && pos + 1
                + switch_padding(pos as int) > bytes@.len()) || (e is MalformedInstruction
                && !padding_clear(bytes@, pos as int)),
        },
{
    let pad = 3 - pos % 4;
    let avail = bytes.len() - pos - 1;
    let present = if pad <= avail { pad } else { avail };
    let end = pos + 1 + present;
    let mut k = pos + 1;
    while k < end
        invariant
            pos + 1 <= k <= end,
            end <= bytes@.len(),
            end == pos + 1 + present,
            present <= pad,
            pad == switch_padding(pos as int),
            pad > avail ==> end == bytes@.len(),
            forall|j: int| pos + 1 <= j < k ==> bytes@[j] == 0,
        decreases end - k,
    {
        if bytes[k] != 0 {
            return Err(Error::MalformedInstruction);
        }
        k = k + 1;
    }
    if pad > avail {
        return Err(Error::Truncated);
    }
    let q = pos + 1 + pad;
    assert(bytes@.subrange(pos + 1, q as int) =~= zeros(q - pos - 1));
    Ok(q)
}

/// Padding that is not clear is not the zeros a switch needs.
proof fn lemma_padding(b: Seq<u8>, p: int)
    requires
        0 <= p,
        !padding_clear(b, p),
        p + 1 + switch_padding(p) <= b.len(),
    ensures
        b.subrange(p + 1, p + 1 + switch_padding(p)) != zeros(switch_padding(p)),
{
    let j = choose|j: int| p + 1 <= j < p + 1 + switch_padding(p) && j < b.len() && b[j] != 0;
    assert(b.subrange(p + 1, p + 1 + switch_padding(p))[j - p - 1] != zeros(switch_padding(p))[j
        - p - 1]);
}

fn decode_tableswitch_at(bytes: &[u8], pos: usize) -> (r: Result<(Instruction, usize), Error>)
    requires
        pos < bytes@.len(),
        bytes@[pos as int] == 0xaa,
    ensures
        match r {
            Ok((i, n)) => decode_tableswitch(bytes@, pos as int) == Some((i@, n as int)),
            Err(e) => decode_tableswitch(bytes@, pos as int) is None && error_kind(e) == Some(
                tableswitch_error(bytes@, pos as int),
            ),
        },
{
    let b = Ghost(bytes@);
    let q = match switch_table_start(bytes, pos) {
        Ok(q) => q,
        Err(e) => {
            proof {
                if !padding_clear(bytes@, pos as int) && pos + 1 + switch_padding(pos as int)
                    <= bytes@.len() {
                    lemma_padding(bytes@, pos as int);
                }
            }
            return Err(e);
        },
    };
    if bytes.len() < 12 || q > bytes.len() - 12 {
        return Err(Error::Truncated);
    }
    let default = read_i32(bytes, q);
    let low = read_i32(bytes, q + 4);
    let high = read_i32(bytes, q + 8);
    if low > high {
        return Err(Error::MalformedInstruction);
    }
    let count: i64 = high as i64 - low as i64 + 1;
    if count > ((bytes.len() - q - 12) / 4) as i64 {
        return Err(Error::Truncated);
    }
    let count = count as usize;
    let start = q + 12;
    let mut offsets: Vec<i32> = Vec::new();
    let mut i: usize = 0;
    while i < count
        invariant
            i <= count,
            start + 4 * count <= bytes.len(),
            offsets@.map_values(|o: i32| o as int) =~= Seq::new(
                i as nat,
                |k: int| i32_at(bytes@, start + 4 * k),
            ),
        decreases count - i,
    {
        let v = read_i32(bytes, start + 4 * i);
        let ghost prev = offsets@;
        offsets.push(v);
        assert(offsets@.map_values(|o: i32| o as int) =~= prev.map_values(|o: i32| o as int).push(
            v as int,
        ));
        i = i + 1;
    }
    let ghost m = with_operands(
        0xaa,
        OperandsModel::Tableswitch {
            default: default as int,
            low: low as int,
            high: high as int,
            offsets: Seq::new(count as nat, |k: int| i32_at(b@, q + 12 + 4 * k)),
        },
    );
    let i = Instruction {
        opcode: 0xaa,
        operands: Operands::Tableswitch { default, low, high, offsets },
    };
    assert(i@ == m);
    Ok((i, start + 4 * count - pos))
}

fn decode_lookupswitch_at(bytes: &[u8], pos: usize) -> (r: Result<(Instruction, usize), Error>)
    requires
        pos < bytes@.len(),
        bytes@[pos as int] == 0xab,
    ensures
        match r {
            Ok((i, n)) => decode_lookupswitch(bytes@, pos as int) == Some((i@, n as int)),
            Err(e) => decode_lookupswitch(bytes@, pos as int) is None && error_kind(e) == Some(
                lookupswitch_error(bytes@, pos as int),
            ),
        },
{
    let b = Ghost(bytes@);
    let q = match switch_table_start(bytes, pos) {
        Ok(q) => q,
        Err(e) => {
            proof {
                if !padding_clear(bytes@, pos as int) && pos + 1 + switch_padding(pos as int)
                    <= bytes@.len() {
                    lemma_padding(bytes@, pos as int);
                }
            }
            return Err(e);
        },
    };
    if bytes.len() < 8 || q > bytes.len() - 8 {
        return Err(Error::Truncated);
    }
    let default = read_i32(bytes, q);
    let count = read_i32(bytes, q + 4);
    if count < 0 {
        return Err(Error::MalformedInstruction);
    }
    if count as usize > (bytes.len() - q - 8) / 8 {
        return Err(Error::Truncated);
    }
    let count = count as usize;
    let start = q + 8;
    let mut pairs: Vec<(i32, i32)> = Vec::new();
    let mut i: usize = 0;
    while i < count
        invariant
            i <= count,
            start + 8 * count <= bytes.len(),
            pairs@.map_values(|p: (i32, i32)| (p.0 as int, p.1 as int)) =~= Seq::new(
                i as nat,
                |k: int| (i32_at(bytes@, start + 8 * k), i32_at(bytes@, start + 4 + 8 * k)),
            ),
        decreases count - i,
    {
        let key = read_i32(bytes, start + 8 * i);
        let offset = read_i32(bytes, start + 8 * i + 4);
        let ghost prev = pairs@;
        pairs.push((key, offset));
        assert(pairs@.map_values(|p: (i32, i32)| (p.0 as int, p.1 as int)) =~= prev.map_values(
            |p: (i32, i32)| (p.0 as int, p.1 as int),
        ).push((key as int, offset as int)));
        i = i + 1;
    }
    let ghost m = with_operands(
        0xab,
        OperandsModel::Lookupswitch {
            default: default as int,
            pairs: Seq::new(
                count as nat,
                |k: int| (i32_at(b@, q + 8 + 8 * k), i32_at(b@, q + 12 + 8 * k)),
            ),
        },
    );
    let i = Instruction { opcode: 0xab, operands: Operands::Lookupswitch { default, pairs } };
    assert(i@.operands->Lookupswitch_pairs =~= m.operands->Lookupswitch_pairs);
    assert(i@ == m);
    Ok((i, start + 8 * count - pos))
}

/// Decodes the instruction that starts at byte `pos`, with branch operands as byte
/// offsets; returns it with its length in bytes.
pub fn decode_one(bytes: &[u8], pos: usize) -> (r: Result<(Instruction, usize), Error>)
    requires
        pos < bytes@.len(),
    ensures
        match r {
            Ok((i, n)) => decode_at(bytes@, pos as int) == Some((i@, n as int)),
            Err(e) => decode_at(bytes@, pos as int) is None && error_kind(e) == Some(
                decode_error_at(bytes@, pos as int),
            ),
        },
{
    let op = bytes[pos];
    let len = bytes.len();
    let operands = match shape(op) {
        Option::None => {
            return Err(Error::MalformedInstruction);
        },
        Option::Some(s) => match s {
            Shape::Plain => {
                return Ok((Instruction { opcode: op, operands: Operands::Empty }, 1));
            },
            Shape::Byte => {
                if len - pos < 2 {
                    return Err(Error::Truncated);
                }
                return Ok((Instruction { opcode: op, operands: Operands::Byte(bytes[pos + 1]) }, 2));
            },
            Shape::SignedByte => {
                if len - pos < 2 {
                    return Err(Error::Truncated);
                }
                let v = byte_to_i8(bytes[pos + 1]);
                return Ok((Instruction { opcode: op, operands: Operands::SignedByte(v) }, 2));
            },
            Shape::Short => {
                if len - pos < 3 {
                    return Err(Error::Truncated);
                }
                let v = read_u16(bytes, pos + 1);
                return Ok((Instruction { opcode: op, operands: Operands::Short(v) }, 3));
            },
            Shape::SignedShort => {
                if len - pos < 3 {
                    return Err(Error::Truncated);
                }
                let v = read_i16(bytes, pos + 1);
                return Ok((Instruction { opcode: op, operands: Operands::SignedShort(v) }, 3));
            },
            Shape::Branch => {
                if len - pos < 3 {
                    return Err(Error::Truncated);
                }
                let v = read_i16(bytes, pos + 1);
                return Ok((Instruction { opcode: op, operands: Operands::Branch(v as i32) }, 3));
            },
            Shape::BranchWide => {
                if len - pos < 5 {
                    return Err(Error::Truncated);
                }
                let v = read_i32(bytes, pos + 1);
                return Ok((Instruction { opcode: op, operands: Operands::BranchWide(v) }, 5));
            },
            Shape::Increment => {
                if len - pos < 3 {
                    return Err(Error::Truncated);
                }
                let constant = byte_to_i8(bytes[pos + 2]);
                Operands::Increment { index: bytes[pos + 1], constant }
            },
            Shape::Wide => {
                if len - pos < 2 {
                    return Err(Error::Truncated);
                }
                let inner = bytes[pos + 1];
                if (0x15 <= inner && inner <= 0x19) || (0x36 <= inner && inner <= 0x3a) || inner
                    == 0xa9 {
                    if len - pos < 4 {
                        return Err(Error::Truncated);
                    }
                    let index = read_u16(bytes, pos + 2);
                    return Ok(
                        (
                            Instruction {
                                opcode: op,
                                operands: Operands::WideLocal { opcode: inner, index },
                            },
                            4,
                        ),
                    );
                } else if inner == IINC {
                    if len - pos < 6 {
                        return Err(Error::Truncated);
                    }
                    let index = read_u16(bytes, pos + 2);
                    let constant = read_i16(bytes, pos + 4);
                    return Ok(
                        (
                            Instruction {
                                opcode: op,
                                operands: Operands::WideIncrement { index, constant },
                            },
                            6,
                        ),
                    );
                } else {
                    return Err(Error::MalformedInstruction);
                }
            },
            Shape::Tableswitch => {
                return decode_tableswitch_at(bytes, pos);
            },
            Shape::Lookupswitch => {
                return decode_lookupswitch_at(bytes, pos);
            },
            Shape::InterfaceCall => {
                if len - pos < 5 {
                    return Err(Error::Truncated);
                }
                if bytes[pos + 4] != 0 {
                    return Err(Error::MalformedInstruction);
                }
                let index = read_u16(bytes, pos + 1);
                return Ok(
                    (
                        Instruction {
                            opcode: op,
                            operands: Operands::InterfaceCall { index, count: bytes[pos + 3] },
                        },
                        5,
                    ),
                );
            },
            Shape::DynamicCall => {
                if len - pos >= 4 && bytes[pos + 3] != 0 {
                    return Err(Error::MalformedInstruction);
                }
                if len - pos >= 5 && bytes[pos + 4] != 0 {
                    return Err(Error::MalformedInstruction);
                }
                if len - pos < 5 {
                    return Err(Error::Truncated);
                }
                let index = read_u16(bytes, pos + 1);
                return Ok(
                    (Instruction { opcode: op, operands: Operands::DynamicCall { index } }, 5),
                );
            },
            Shape::MultiArray => {
                if len - pos < 4 {
                    return Err(Error::Truncated);
                }
                let index = read_u16(bytes, pos + 1);
                return Ok(
                    (
                        Instruction {
                            opcode: op,
                            operands: Operands::MultiArray { index, dimensions: bytes[pos + 3] },
                        },
                        4,
                    ),
                );
            },
        },
    };
    Ok((Instruction { opcode: op, operands }, 3))
}

/// Appends `n` zero bytes.
fn write_zeros(out: &mut Vec<u8>, n: usize)
    ensures
        final(out)@ == old(out)@ + zeros(n as int),
{
    let mut k: usize = 0;
    while k < n
        invariant
            k <= n,
            out@ == old(out)@ + zeros(k as int),
        decreases n - k,
    {
        out.push(0u8);
        k = k + 1;
        assert(out@ =~= old(out)@ + zeros(k as int));
    }
}

/// Appends the encoding of a sequence of 32-bit values.
fn write_words(out: &mut Vec<u8>, values: &Vec<i32>)
    ensures
        final(out)@ == old(out)@ + words(values@.map_values(|o: i32| o as int)),
{
    let mut k: usize = 0;
    while k < values.len()
        invariant
            k <= values@.len(),
            out@ == old(out)@ + words(values@.take(k as int).map_values(|o: i32| o as int)),
        decreases values@.len() - k,
    {
        write_i32(out, values[k]);
        let ghost s = values@.take(k + 1).map_values(|o: i32| o as int);
        assert(s.drop_last() =~= values@.take(k as int).map_values(|o: i32| o as int));
        k = k + 1;
    }
    assert(values@.take(k as int) =~= values@);
}

/// Appends the encoding of a sequence of pairs of 32-bit values.
fn write_pair_words(out: &mut Vec<u8>, values: &Vec<(i32, i32)>)
    ensures
        final(out)@ == old(out)@ + pair_words(
            values@.map_values(|p: (i32, i32)| (p.0 as int, p.1 as int)),
        ),
{
    let mut k: usize = 0;
    while k < values.len()
        invariant
            k <= values@.len(),
            out@ == old(out)@ + pair_words(
                values@.take(k as int).map_values(|p: (i32, i32)| (p.0 as int, p.1 as int)),
            ),
        decreases values@.len() - k,
    {
        let (key, offset) = values[k];
        write_i32(out, key);
        write_i32(out, offset);
        let ghost s = values@.take(k + 1).map_values(|p: (i32, i32)| (p.0 as int, p.1 as int));
        assert(s.drop_last() =~= values@.take(k as int).map_values(
            |p: (i32, i32)| (p.0 as int, p.1 as int),
        ));
        k = k + 1;
    }
    assert(values@.take(k as int) =~= values@);
}

/// Appends the bytes of `instruction` placed at byte `pos` of a code array, with branch
/// operands as byte offsets.
pub fn encode_one(instruction: &Instruction, pos: usize, out: &mut Vec<u8>)
    requires
        encodable(instruction@),
    ensures
        final(out)@ == old(out)@ + encode_at(instruction@, pos as int),
{
    let op = instruction.opcode;
    let ghost start = out@;
    out.push(op);
    match &instruction.operands {
        Operands::Empty => {},
        Operands::Byte(v) => {
            out.push(*v);
        },
        Operands::SignedByte(v) => {
            out.push(i8_to_byte(*v));
        },
        Operands::Short(v) => {
            write_u16(out, *v);
        },
        Operands::SignedShort(v) => {
            write_i16(out, *v);
        },
        Operands::Branch(v) => {
            write_i16(out, *v as i16);
        },
        Operands::BranchWide(v) => {
            write_i32(out, *v);
        },
        Operands::Increment { index, constant } => {
            out.push(*index);
            out.push(i8_to_byte(*constant));
        },
        Operands::WideLocal { opcode, index } => {
            out.push(*opcode);
            write_u16(out, *index);
        },
        Operands::WideIncrement { index, constant } => {
            out.push(IINC);
            write_u16(out, *index);
            write_i16(out, *constant);
        },
        Operands::Tableswitch { default, low, high, offsets } => {
            write_zeros(out, 3 - pos % 4);
            write_i32(out, *default);
            write_i32(out, *low);
            write_i32(out, *high);
            write_words(out, offsets);
        },
        Operands::Lookupswitch { default, pairs } => {
            write_zeros(out, 3 - pos % 4);
            write_i32(out, *default);
            write_i32(out, pairs.len() as i32);
            write_pair_words(out, pairs);
        },
        Operands::InterfaceCall { index, count } => {
            write_u16(out, *index);
            out.push(*count);
            out.push(0u8);
        },
        Operands::DynamicCall { index } => {
            write_u16(out, *index);
            out.push(0u8);
            out.push(0u8);
        },
        Operands::MultiArray { index, dimensions } => {
            write_u16(out, *index);
            out.push(*dimensions);
        },
    }
    assert(out@ =~= start + encode_at(instruction@, pos as int));
}

proof fn lemma_word16_of_bytes(n: u16)
    ensures
        word16(bytes16(n)[0], bytes16(n)[1]) == n,
        bytes16(n).len() == 2,
{
    assert(((((n >> 8u16) as u8) as u16) << 8u16 | ((n as u8) as u16)) as u16 == n) by (bit_vector);
}

proof fn lemma_word32_of_bytes(n: u32)
    ensures
        word32(bytes32(n)[0], bytes32(n)[1], bytes32(n)[2], bytes32(n)[3]) == n,
        bytes32(n).len() == 4,
{
    assert((((((n >> 24u32) as u8) as u32) << 24u32) | ((((n >> 16u32) as u8) as u32) << 16u32)
        | ((((n >> 8u32) as u8) as u32) << 8u32) | ((n as u8) as u32)) as u32 == n) by (bit_vector);
}

proof fn lemma_signed_of_unsigned(v: int)
    ensures
        -0x80 <= v < 0x80 ==> signed8(unsigned8(v)) == v,
        -0x8000 <= v < 0x8000 ==> signed16(unsigned16(v)) == v,
        is_i32(v) ==> signed32(unsigned32(v)) == v,
{
}

/// Reading 16 bits back from where `bytes16(n)` was written.
proof fn lemma_read16(b: Seq<u8>, x: int, n: u16)
    requires
        0 <= x,
        x + 2 <= b.len(),
        b.subrange(x, x + 2) == bytes16(n),
    ensures
        u16_at(b, x) == n,
{
    lemma_word16_of_bytes(n);
    assert(b[x] == b.subrange(x, x + 2)[0] && b[x + 1] == b.subrange(x, x + 2)[1]);
}

/// Reading 32 bits back from where `bytes32(n)` was written.
proof fn lemma_read32(b: Seq<u8>, x: int, n: u32)
    requires
        0 <= x,
        x + 4 <= b.len(),
        b.subrange(x, x + 4) == bytes32(n),
    ensures
        u32_at(b, x) == n,
{
    lemma_word32_of_bytes(n);
    let s = b.subrange(x, x + 4);
    assert(b[x] == s[0] && b[x + 1] == s[1] && b[x + 2] == s[2] && b[x + 3] == s[3]);
}

proof fn lemma_words_len(s: Seq<int>)
    ensures
        words(s).len() == 4 * s.len(),
    decreases s.len(),
{
    if s.len() > 0 {
        lemma_words_len(s.drop_last());
    }
}

proof fn lemma_pair_words_len(s: Seq<(int, int)>)
    ensures
        pair_words(s).len() == 8 * s.len(),
    decreases s.len(),
{
    if s.len() > 0 {
        lemma_pair_words_len(s.drop_last());
    }
}

/// Reading back a sequence of 32-bit values from where its words were written.
proof fn lemma_read_words(b: Seq<u8>, start: int, s: Seq<int>)
    requires
        0 <= start,
        start + 4 * s.len() <= b.len(),
        b.subrange(start, start + 4 * s.len()) == words(s),
        forall|i: int| 0 <= i < s.len() ==> is_i32(#[trigger] s[i]),
    ensures
        Seq::new(s.len(), |i: int| i32_at(b, start + 4 * i)) == s,
    decreases s.len(),
{
    if s.len() > 0 {
        let m = s.len() - 1;
        lemma_words_len(s.drop_last());
        assert(b.subrange(start, start + 4 * m) =~= b.subrange(start, start + 4 * s.len()).subrange(0, 4 * m));
        assert(words(s).subrange(0, 4 * m) =~= words(s.drop_last()));
        assert(s.drop_last().len() == m);
        assert forall|i: int| 0 <= i < s.drop_last().len() implies is_i32(#[trigger] s.drop_last()[i]) by {
            assert(s.drop_last()[i] == s[i]);
        }
        lemma_read_words(b, start, s.drop_last());
        let x = start + 4 * m;
        assert(b.subrange(x, x + 4) =~= b.subrange(start, start + 4 * s.len()).subrange(4 * m, 4 * m + 4));
        assert(words(s).subrange(4 * m, 4 * m + 4) =~= bytes32(unsigned32(s.last())));
        lemma_read32(b, x, unsigned32(s.last()));
        lemma_signed_of_unsigned(s.last());
        assert(Seq::new(s.len(), |i: int| i32_at(b, start + 4 * i)) =~= s) by {
            assert forall|i: int| 0 <= i < s.len() implies i32_at(b, start + 4 * i) == s[i] by {
                if i < m {
                    assert(Seq::new(m as nat, |i: int| i32_at(b, start + 4 * i))[i] == s.drop_last()[i]);
                }
            }
        }
    }
}

/// Reading back a sequence of pairs of 32-bit values from where their words were written.
proof fn lemma_read_pair_words(b: Seq<u8>, start: int, s: Seq<(int, int)>)
    requires
        0 <= start,
        start + 8 * s.len() <= b.len(),
        b.subrange(start, start + 8 * s.len()) == pair_words(s),
        forall|i: int| 0 <= i < s.len() ==> is_i32(#[trigger] s[i].0) && is_i32(s[i].1),
    ensures
        Seq::new(s.len(), |i: int| (i32_at(b, start + 8 * i), i32_at(b, start + 4 + 8 * i))) == s,
    decreases s.len(),
{
    if s.len() > 0 {
        let m = s.len() - 1;
        lemma_pair_words_len(s.drop_last());
        assert(b.subrange(start, start + 8 * m) =~= b.subrange(start, start + 8 * s.len()).subrange(0, 8 * m));
        assert(pair_words(s).subrange(0, 8 * m) =~= pair_words(s.drop_last()));
        assert forall|i: int| 0 <= i < s.drop_last().len() implies is_i32(#[trigger] s.drop_last()[i].0)
            && is_i32(s.drop_last()[i].1) by {
            assert(s.drop_last()[i] == s[i]);
        }
        lemma_read_pair_words(b, start, s.drop_last());
        let x = start + 8 * m;
        assert(b.subrange(x, x + 4) =~= b.subrange(start, start + 8 * s.len()).subrange(8 * m, 8 * m + 4));
        assert(b.subrange(x + 4, x + 8) =~= b.subrange(start, start + 8 * s.len()).subrange(8 * m + 4, 8 * m + 8));
        assert(pair_words(s).subrange(8 * m, 8 * m + 4) =~= bytes32(unsigned32(s.last().0)));
        assert(pair_words(s).subrange(8 * m + 4, 8 * m + 8) =~= bytes32(unsigned32(s.last().1)));
        lemma_read32(b, x, unsigned32(s.last().0));
        lemma_read32(b, x + 4, unsigned32(s.last().1));
        lemma_signed_of_unsigned(s.last().0);
        lemma_signed_of_unsigned(s.last().1);
        assert(Seq::new(s.len(), |i: int| (i32_at(b, start + 8 * i), i32_at(b, start + 4 + 8 * i))) =~= s) by {
            assert forall|i: int| 0 <= i < s.len() implies (i32_at(b, start + 8 * i), i32_at(b, start + 4 + 8 * i)) == s[i] by {
                if i < m {
                    assert(Seq::new(m as nat, |i: int| (i32_at(b, start + 8 * i), i32_at(b, start + 4 + 8 * i)))[i] == s.drop_last()[i]);
                }
            }
        }
    }
}

/// An encodable instruction, encoded at `p`, decodes back to itself.
#[verifier::rlimit(60)]
pub proof fn lemma_encode_decode_one(b: Seq<u8>, p: int, m: InstructionModel)
    requires
        encodable(m),
        0 <= p,
        p + encode_at(m, p).len() <= b.len(),
        b.subrange(p, p + encode_at(m, p).len()) == encode_at(m, p),
    ensures
        decode_at(b, p) == Some((m, encode_at(m, p).len() as int)),
{
    let e = encode_at(m, p);
    let n = e.len() as int;
    assert forall|i: int| 0 <= i < n implies b[p + i] == #[trigger] e[i] by {
        assert(b.subrange(p, p + n)[i] == b[p + i]);
    }
    assert(b[p] == e[0]);
    let op = m.opcode;
    match m.operands {
        OperandsModel::Empty => {},
        OperandsModel::Byte(v) => {
            assert(b[p + 1] == e[1]);
        },
        OperandsModel::SignedByte(v) => {
            assert(b[p + 1] == e[1]);
            lemma_signed_of_unsigned(v);
        },
        OperandsModel::Short(v) => {
            assert(b.subrange(p + 1, p + 3) =~= e.subrange(1, 3));
            assert(e.subrange(1, 3) =~= bytes16(v as u16));
            lemma_read16(b, p + 1, v as u16);
        },
        OperandsModel::SignedShort(v) => {
            assert(b.subrange(p + 1, p + 3) =~= e.subrange(1, 3));
            assert(e.subrange(1, 3) =~= bytes16(unsigned16(v)));
            lemma_read16(b, p + 1, unsigned16(v));
            lemma_signed_of_unsigned(v);
        },
        OperandsModel::Branch(v) => {
            assert(b.subrange(p + 1, p + 3) =~= e.subrange(1, 3));
            assert(e.subrange(1, 3) =~= bytes16(unsigned16(v)));
            lemma_read16(b, p + 1, unsigned16(v));
            lemma_signed_of_unsigned(v);
        },
        OperandsModel::BranchWide(v) => {
            assert(b.subrange(p + 1, p + 5) =~= e.subrange(1, 5));
            assert(e.subrange(1, 5) =~= bytes32(unsigned32(v)));
            lemma_read32(b, p + 1, unsigned32(v));
            lemma_signed_of_unsigned(v);
        },
        OperandsModel::Increment { index, constant } => {
            assert(b[p + 1] == e[1] && b[p + 2] == e[2]);
            lemma_signed_of_unsigned(constant);
        },
        OperandsModel::WideLocal { opcode, index } => {
            assert(b[p + 1] == e[1]);
            assert(b.subrange(p + 2, p + 4) =~= e.subrange(2, 4));
            assert(e.subrange(2, 4) =~= bytes16(index as u16));
            lemma_read16(b, p + 2, index as u16);
        },
        OperandsModel::WideIncrement { index, constant } => {
            assert(b[p + 1] == e[1]);
            assert(b.subrange(p + 2, p + 4) =~= e.subrange(2, 4));
            assert(e.subrange(2, 4) =~= bytes16(index as u16));
            assert(b.subrange(p + 4, p + 6) =~= e.subrange(4, 6));
            assert(e.subrange(4, 6) =~= bytes16(unsigned16(constant)));
            lemma_read16(b, p + 2, index as u16);
            lemma_read16(b, p + 4, unsigned16(constant));
            lemma_signed_of_unsigned(constant);
        },
        OperandsModel::InterfaceCall { index, count } => {
            assert(b.subrange(p + 1, p + 3) =~= e.subrange(1, 3));
            assert(e.subrange(1, 3) =~= bytes16(index as u16));
            lemma_read16(b, p + 1, index as u16);
            assert(b[p + 3] == e[3] && b[p + 4] == e[4]);
        },
        OperandsModel::DynamicCall { index } => {
            assert(b.subrange(p + 1, p + 3) =~= e.subrange(1, 3));
            assert(e.subrange(1, 3) =~= bytes16(index as u16));
            lemma_read16(b, p + 1, index as u16);
            assert(b[p + 3] == e[3] && b[p + 4] == e[4]);
        },
        OperandsModel::MultiArray { index, dimensions } => {
            assert(b.subrange(p + 1, p + 3) =~= e.subrange(1, 3));
            assert(e.subrange(1, 3) =~= bytes16(index as u16));
            lemma_read16(b, p + 1, index as u16);
            assert(b[p + 3] == e[3]);
        },
        OperandsModel::Tableswitch { default, low, high, offsets } => {
            lemma_encode_decode_tableswitch(b, p, m);
        },
        OperandsModel::Lookupswitch { default, pairs } => {
            lemma_encode_decode_lookupswitch(b, p, m);
        },
    }
}

proof fn lemma_encode_decode_tableswitch(b: Seq<u8>, p: int, m: InstructionModel)
    requires
        encodable(m),
        m.operands is Tableswitch,
        0 <= p,
        p + encode_at(m, p).len() <= b.len(),
        b.subrange(p, p + encode_at(m, p).len()) == encode_at(m, p),
    ensures
        decode_at(b, p) == Some((m, encode_at(m, p).len() as int)),
{
    let e = encode_at(m, p);
    let n = e.len() as int;
    let (default, low, high, offsets) = match m.operands {
        OperandsModel::Tableswitch { default, low, high, offsets } => (default, low, high, offsets),
        _ => (0, 0, 0, seq![]),
    };
    let pad = switch_padding(p);
    let q = p + 1 + pad;
    lemma_words_len(offsets);
    assert(b[p] == e[0]) by {
        assert(b.subrange(p, p + n)[0] == b[p]);
    }
    assert(b.subrange(p + 1, q) =~= e.subrange(1, 1 + pad)) by {
        assert forall|i: int| 0 <= i < pad implies #[trigger] b.subrange(p + 1, q)[i] == e.subrange(1, 1 + pad)[i] by {
            assert(b.subrange(p, p + n)[1 + i] == b[p + 1 + i]);
        }
    }
    assert(e.subrange(1, 1 + pad) =~= zeros(pad));
    assert(b.subrange(q, q + 4) =~= e.subrange(1 + pad, 5 + pad));
    assert(e.subrange(1 + pad, 5 + pad) =~= bytes32(unsigned32(default)));
    assert(b.subrange(q + 4, q + 8) =~= e.subrange(5 + pad, 9 + pad));
    assert(e.subrange(5 + pad, 9 + pad) =~= bytes32(unsigned32(low)));
    assert(b.subrange(q + 8, q + 12) =~= e.subrange(9 + pad, 13 + pad));
    assert(e.subrange(9 + pad, 13 + pad) =~= bytes32(unsigned32(high)));
    assert(b.subrange(q + 12, q + 12 + 4 * offsets.len()) =~= e.subrange(13 + pad, n));
    assert(e.subrange(13 + pad, n) =~= words(offsets));
    lemma_read32(b, q, unsigned32(default));
    lemma_read32(b, q + 4, unsigned32(low));
    lemma_read32(b, q + 8, unsigned32(high));
    lemma_signed_of_unsigned(default);
    lemma_signed_of_unsigned(low);
    lemma_signed_of_unsigned(high);
    lemma_read_words(b, q + 12, offsets);
    assert(shape_of(b[p]) == Some(Shape::Tableswitch));
}

proof fn lemma_encode_decode_lookupswitch(b: Seq<u8>, p: int, m: InstructionModel)
    requires
        encodable(m),
        m.operands is Lookupswitch,
        0 <= p,
        p + encode_at(m, p).len() <= b.len(),
        b.subrange(p, p + encode_at(m, p).len()) == encode_at(m, p),
    ensures
        decode_at(b, p) == Some((m, encode_at(m, p).len() as int)),
{
    let e = encode_at(m, p);
    let n = e.len() as int;
    let (default, pairs) = match m.operands {
        OperandsModel::Lookupswitch { default, pairs } => (default, pairs),
        _ => (0, seq![]),
    };
    let pad = switch_padding(p);
    let q = p + 1 + pad;
    lemma_pair_words_len(pairs);
    assert(b[p] == e[0]) by {
        assert(b.subrange(p, p + n)[0] == b[p]);
    }
    assert(b.subrange(p + 1, q) =~= e.subrange(1, 1 + pad)) by {
        assert forall|i: int| 0 <= i < pad implies #[trigger] b.subrange(p + 1, q)[i] == e.subrange(1, 1 + pad)[i] by {
            assert(b.subrange(p, p + n)[1 + i] == b[p + 1 + i]);
        }
    }
    assert(e.subrange(1, 1 + pad) =~= zeros(pad));
    assert(b.subrange(q, q + 4) =~= e.subrange(1 + pad, 5 + pad));
    assert(e.subrange(1 + pad, 5 + pad) =~= bytes32(unsigned32(default)));
    assert(b.subrange(q + 4, q + 8) =~= e.subrange(5 + pad, 9 + pad));
    assert(e.subrange(5 + pad, 9 + pad) =~= bytes32(unsigned32(pairs.len() as int)));
    assert(b.subrange(q + 8, q + 8 + 8 * pairs.len()) =~= e.subrange(9 + pad, n));
    assert(e.subrange(9 + pad, n) =~= pair_words(pairs));
    lemma_read32(b, q, unsigned32(default));
    lemma_read32(b, q + 4, unsigned32(pairs.len() as int));
    lemma_signed_of_unsigned(default);
    lemma_signed_of_unsigned(pairs.len() as int);
    lemma_read_pair_words(b, q + 8, pairs);
    assert(Seq::new(pairs.len(), |i: int| (i32_at(b, q + 8 + 8 * i), i32_at(b, q + 12 + 8 * i))) =~= Seq::new(
        pairs.len(),
        |i: int| (i32_at(b, (q + 8) + 8 * i), i32_at(b, (q + 8) + 4 + 8 * i)),
    ));
    assert(shape_of(b[p]) == Some(Shape::Lookupswitch));
}

} // verus!
