//! Code arrays: the instruction list of a method and its byte encoding.
//!
//! In a code array a branch names its target by a signed byte offset from the branch
//! instruction. In an instruction list it names it by a signed offset in instructions:
//! `Branch(2)` at index 5 jumps to the instruction at index 7. `from_bytes` and `to_bytes`
//! translate between the two.

use crate::error::Error;
use crate::instruction::{
    decode_error_at, error_kind, DecodeError,
    decode_at, decode_one, encode_at, encode_one, encodable, lemma_decode_encode, pair_words,
    lemma_encode_decode_one,
    with_operands, words, Instruction, InstructionModel, Operands, OperandsModel,
};
use vstd::prelude::*;

verus! {

/// The longest code array that a method may have.
pub const MAX_CODE_LENGTH: usize = 65535;

/// The instructions of a code array from byte `pos` on, with branch operands as byte
/// offsets, and the byte position of each; `None` where some instruction does not decode.
pub open spec fn scan(b: Seq<u8>, pos: int) -> Option<(Seq<InstructionModel>, Seq<int>)>
    decreases b.len() - pos,
{
    if pos < 0 || pos >= b.len() {
        Some((seq![], seq![]))
    } else {
        match decode_at(b, pos) {
            Option::None => None,
            Option::Some((m, n)) => if n < 1 {
                None
            } else {
                match scan(b, pos + n) {
                    Option::None => None,
                    Option::Some((ms, ps)) => Some((seq![m] + ms, seq![pos] + ps)),
                }
            },
        }
    }
}

/// Why a code array does not scan from byte `pos`: why the first instruction that does
/// not decode fails.
pub open spec fn scan_error(b: Seq<u8>, pos: int) -> DecodeError
    decreases b.len() - pos,
{
    if pos < 0 || pos >= b.len() {
        DecodeError::Malformed
    } else {
        match decode_at(b, pos) {
            Option::None => decode_error_at(b, pos),
            Option::Some((_m, n)) => if n < 1 {
                DecodeError::Malformed
            } else {
                scan_error(b, pos + n)
            },
        }
    }
}

/// The branch operands of `m`, in order: the target of a branch, or the default target
/// of a switch followed by the target of each case.
pub open spec fn branch_operands(m: InstructionModel) -> Seq<int> {
    match m.operands {
        OperandsModel::Branch(d) => seq![d],
        OperandsModel::BranchWide(d) => seq![d],
        OperandsModel::Tableswitch { default, offsets, .. } => seq![default] + offsets,
        OperandsModel::Lookupswitch { default, pairs } => seq![default] + pairs.map_values(
            |p: (int, int)| p.1,
        ),
        _ => seq![],
    }
}

/// `m` with `f` applied to each of its branch operands.
pub open spec fn map_branches(m: InstructionModel, f: spec_fn(int) -> int) -> InstructionModel {
    match m.operands {
        OperandsModel::Branch(d) => with_operands(m.opcode, OperandsModel::Branch(f(d))),
        OperandsModel::BranchWide(d) => with_operands(m.opcode, OperandsModel::BranchWide(f(d))),
        OperandsModel::Tableswitch { default, low, high, offsets } => with_operands(
            m.opcode,
            OperandsModel::Tableswitch {
                default: f(default),
                low,
                high,
                offsets: offsets.map_values(f),
            },
        ),
        OperandsModel::Lookupswitch { default, pairs } => with_operands(
            m.opcode,
            OperandsModel::Lookupswitch {
                default: f(default),
                pairs: pairs.map_values(|p: (int, int)| (p.0, f(p.1))),
            },
        ),
        _ => m,
    }
}

/// Some instruction starts at byte `t`.
pub open spec fn starts(ps: Seq<int>, t: int) -> bool {
    exists|j: int| 0 <= j < ps.len() && ps[j] == t
}

/// The index of the instruction that starts at byte `t`.
pub open spec fn index_at(ps: Seq<int>, t: int) -> int {
    choose|j: int| 0 <= j < ps.len() && ps[j] == t
}

/// Every branch operand of instruction `k` lands on the start of an instruction.
pub open spec fn resolves(ms: Seq<InstructionModel>, ps: Seq<int>, k: int) -> bool {
    forall|i: int|
        0 <= i < branch_operands(ms[k]).len() ==> starts(
            ps,
            ps[k] + #[trigger] branch_operands(ms[k])[i],
        )
}

/// The instruction offset that byte offset `d` of instruction `k` denotes.
pub open spec fn instruction_offset(ps: Seq<int>, k: int, d: int) -> int {
    index_at(ps, ps[k] + d) - k
}

/// The byte offset that instruction offset `t` of instruction `k` denotes.
pub open spec fn byte_offset(ps: Seq<int>, k: int, t: int) -> int {
    ps[k + t] - ps[k]
}

/// The instructions of a code array, with branch operands as instruction offsets;
/// `None` where the array is longer than a method may be, an instruction does not decode,
/// or a branch lands elsewhere than on the start of an instruction.
pub open spec fn decode_code(b: Seq<u8>) -> Option<Seq<InstructionModel>> {
    if b.len() > MAX_CODE_LENGTH {
        None
    } else {
        match scan(b, 0) {
            Option::None => None,
            Option::Some((ms, ps)) => if forall|k: int| 0 <= k < ms.len() ==> resolves(ms, ps, k) {
                Some(
                    Seq::new(
                        ms.len(),
                        |k: int| map_branches(ms[k], |d: int| instruction_offset(ps, k, d)),
                    ),
                )
            } else {
                None
            },
        }
    }
}

/// The byte position of each instruction of `ms` laid out from byte 0, followed by the
/// position where the code ends.
pub open spec fn layout(ms: Seq<InstructionModel>) -> Seq<int>
    decreases ms.len(),
{
    if ms.len() == 0 {
        seq![0]
    } else {
        let l = layout(ms.drop_last());
        l.push(l.last() + encode_at(ms.last(), l.last()).len())
    }
}

/// The bytes of instructions `ms`, branch operands as byte offsets, laid out from byte 0.
pub open spec fn encode_all(ms: Seq<InstructionModel>) -> Seq<u8>
    decreases ms.len(),
{
    if ms.len() == 0 {
        seq![]
    } else {
        encode_all(ms.drop_last()) + encode_at(ms.last(), layout(ms.drop_last()).last())
    }
}

/// Every branch operand of instruction `k` names an instruction of the list.
pub open spec fn in_range(ms: Seq<InstructionModel>, k: int) -> bool {
    forall|i: int|
        0 <= i < branch_operands(ms[k]).len() ==> 0 <= k + #[trigger] branch_operands(ms[k])[i]
            < ms.len()
}

/// The instructions of `ms` with branch operands as byte offsets.
pub open spec fn with_byte_offsets(ms: Seq<InstructionModel>) -> Seq<InstructionModel> {
    let ps = layout(ms);
    Seq::new(ms.len(), |k: int| map_branches(ms[k], |t: int| byte_offset(ps, k, t)))
}

/// The code array of an instruction list; `None` where a branch names no instruction of
/// the list, an instruction cannot be encoded, or the code is longer than a method may be.
pub open spec fn encode_code(ms: Seq<InstructionModel>) -> Option<Seq<u8>> {
    let raw = with_byte_offsets(ms);
    if (forall|k: int| 0 <= k < ms.len() ==> in_range(ms, k)) && (forall|k: int|
        0 <= k < ms.len() ==> encodable(#[trigger] raw[k])) && layout(ms).last()
        <= MAX_CODE_LENGTH {
        Some(encode_all(raw))
    } else {
        None
    }
}

pub open spec fn models(v: Seq<Instruction>) -> Seq<InstructionModel> {
    v.map_values(|i: Instruction| i@)
}

/// The byte position of instruction `k` of a scan, or the end of the code after the last.
pub open spec fn next_start(b: Seq<u8>, ps: Seq<int>, k: int) -> int {
    if k + 1 < ps.len() {
        ps[k + 1]
    } else {
        b.len() as int
    }
}

/// A successful scan lists instructions that follow one another without gap from `pos`.
pub proof fn lemma_scan(b: Seq<u8>, pos: int)
    requires
        0 <= pos <= b.len(),
        scan(b, pos) is Some,
    ensures
        ({
            let (ms, ps) = scan(b, pos)->0;
            &&& ms.len() == ps.len()
            &&& ps.len() > 0 ==> ps[0] == pos
            &&& forall|k: int| 0 <= k < ps.len() ==> pos <= #[trigger] ps[k] < b.len()
            &&& forall|k: int|
                0 <= k < ps.len() ==> #[trigger] decode_at(b, ps[k]) == Some(
                    (ms[k], next_start(b, ps, k) - ps[k]),
                )
            &&& forall|i: int, j: int| 0 <= i < j < ps.len() ==> ps[i] < ps[j]
        }),
    decreases b.len() - pos,
{
    if pos < b.len() {
        let (m, n) = decode_at(b, pos)->0;
        lemma_decode_encode(b, pos);
        lemma_scan(b, pos + n);
        let (ms, ps) = scan(b, pos)->0;
        let (ms2, ps2) = scan(b, pos + n)->0;
        assert(ms == seq![m] + ms2);
        assert(ps == seq![pos] + ps2);
        assert forall|k: int| 0 <= k < ps.len() implies #[trigger] decode_at(b, ps[k]) == Some(
            (ms[k], next_start(b, ps, k) - ps[k]),
        ) by {
            if k > 0 {
                assert(ps[k] == ps2[k - 1]);
                assert(next_start(b, ps, k) == next_start(b, ps2, k - 1));
            }
        }
        assert forall|i: int, j: int| 0 <= i < j < ps.len() implies ps[i] < ps[j] by {
            if i > 0 {
                assert(ps[i] == ps2[i - 1]);
            }
            assert(ps[j] == ps2[j - 1]);
        }
    }
}

/// Decodes the instructions of a code array one after the other, with branch operands as
/// byte offsets, with the byte position of each.
fn scan_code(bytes: &[u8]) -> (r: Result<(Vec<Instruction>, Vec<usize>), Error>)
    ensures
        match r {
            Ok((v, p)) => scan(bytes@, 0) == Some(
                (models(v@), p@.map_values(|x: usize| x as int)),
            ),
            Err(e) => scan(bytes@, 0) is None && error_kind(e) == Some(scan_error(bytes@, 0)),
        },
{
    let ghost b = bytes@;
    let mut instructions: Vec<Instruction> = Vec::new();
    let mut positions: Vec<usize> = Vec::new();
    let mut pos: usize = 0;
    while pos < bytes.len()
        invariant
            b == bytes@,
            pos <= bytes@.len(),
            match scan(b, pos as int) {
                Option::Some((ms2, ps2)) => scan(b, 0) == Some(
                    (
                        models(instructions@) + ms2,
                        positions@.map_values(|x: usize| x as int) + ps2,
                    ),
                ),
                Option::None => scan(b, 0) is None,
            },
            scan_error(b, 0) == scan_error(b, pos as int),
        decreases bytes@.len() - pos,
    {
        let (instruction, n) = match decode_one(bytes, pos) {
            Ok(x) => x,
            Err(e) => {
                return Err(e);
            },
        };
        proof {
            lemma_decode_encode(b, pos as int);
        }
        let ghost m = instruction@;
        let ghost old_models = models(instructions@);
        let ghost old_positions = positions@.map_values(|x: usize| x as int);
        instructions.push(instruction);
        positions.push(pos);
        assert(models(instructions@) =~= old_models.push(m));
        assert(positions@.map_values(|x: usize| x as int) =~= old_positions.push(pos as int));
        proof {
            match scan(b, pos + n) {
                Option::Some((ms3, ps3)) => {
                    assert(old_models + (seq![m] + ms3) =~= old_models.push(m) + ms3);
                    assert(old_positions + (seq![pos as int] + ps3) =~= old_positions.push(
                        pos as int,
                    ) + ps3);
                },
                Option::None => {},
            }
        }
        pos = pos + n;
    }
    assert(models(instructions@) + seq![] =~= models(instructions@));
    assert(positions@.map_values(|x: usize| x as int) + seq![] =~= positions@.map_values(
        |x: usize| x as int,
    ));
    Ok((instructions, positions))
}

/// Lookup between the byte positions and the indices of the instructions of one code array.
struct Layout {
    /// The byte position of each instruction, in order.
    positions: Vec<usize>,
    /// For each byte position, one more than the index of the instruction that starts
    /// there, or 0 where none does.
    index_of: Vec<u32>,
}

impl Layout {
    spec fn starts_at(&self) -> Seq<int> {
        self.positions@.map_values(|x: usize| x as int)
    }

    spec fn wf(&self) -> bool {
        let ps = self.starts_at();
        &&& self.index_of@.len() <= MAX_CODE_LENGTH
        &&& forall|i: int, j: int| 0 <= i < j < ps.len() ==> ps[i] < ps[j]
        &&& forall|k: int| 0 <= k < ps.len() ==> #[trigger] ps[k] < self.index_of@.len()
        &&& forall|k: int| 0 <= k < ps.len() ==> self.index_of@[#[trigger] ps[k]] == k + 1
        &&& forall|t: int|
            0 <= t < self.index_of@.len() && #[trigger] self.index_of@[t] != 0 ==> {
                &&& self.index_of@[t] - 1 < ps.len()
                &&& ps[self.index_of@[t] - 1] == t
            }
    }

    /// The translated value of branch operand `d` of instruction `k`: to an instruction
    /// offset, or to a byte offset; `None` where it names no instruction.
    spec fn target(&self, k: int, d: int, to_index: bool) -> Option<int> {
        let ps = self.starts_at();
        if to_index {
            if starts(ps, ps[k] + d) {
                Some(instruction_offset(ps, k, d))
            } else {
                None
            }
        } else {
            if 0 <= k + d < ps.len() {
                Some(byte_offset(ps, k, d))
            } else {
                None
            }
        }
    }

    /// Builds the lookup for instructions at `positions` in a code array of `length` bytes.
    fn new(positions: Vec<usize>, length: usize) -> (r: Layout)
        requires
            length <= MAX_CODE_LENGTH,
            forall|i: int, j: int| 0 <= i < j < positions@.len() ==> positions@[i] < positions@[j],
            forall|k: int| 0 <= k < positions@.len() ==> #[trigger] positions@[k] < length,
        ensures
            r.wf(),
            r.positions@ == positions@,
    {
        let mut index_of: Vec<u32> = Vec::new();
        let mut t: usize = 0;
        while t < length
            invariant
                t <= length,
                index_of@.len() == t,
                forall|j: int| 0 <= j < t ==> index_of@[j] == 0,
            decreases length - t,
        {
            index_of.push(0);
            t = t + 1;
        }
        proof {
            if positions@.len() > 0 {
                assert(positions@[0] < length);
                assert forall|k: int| 0 <= k < positions@.len() implies k <= positions@[k] by {
                    lemma_increasing_at_least_index(positions@, k);
                }
                assert(positions@.len() - 1 <= positions@[positions@.len() - 1]);
            }
        }
        let mut k: usize = 0;
        while k < positions.len()
            invariant
                k <= positions@.len(),
                positions@.len() <= MAX_CODE_LENGTH,
                index_of@.len() == length,
                forall|i: int, j: int| 0 <= i < j < positions@.len() ==> positions@[i] < positions@[j],
                forall|k: int| 0 <= k < positions@.len() ==> #[trigger] positions@[k] < length,
                forall|j: int| 0 <= j < k ==> index_of@[#[trigger] positions@[j] as int] == j + 1,
                forall|t: int|
                    0 <= t < length && #[trigger] index_of@[t] != 0 ==> {
                        &&& index_of@[t] - 1 < k
                        &&& positions@[index_of@[t] - 1] == t
                    },
            decreases positions@.len() - k,
        {
            index_of.set(positions[k], (k + 1) as u32);
            k = k + 1;
        }
        let r = Layout { positions, index_of };
        assert forall|k: int| 0 <= k < r.starts_at().len() implies r.index_of@[
            #[trigger] r.starts_at()[k]] == k + 1 by {
            assert(r.starts_at()[k] == r.positions@[k] as int);
        }
        r
    }

    fn target_exec(&self, k: usize, d: i32, to_index: bool) -> (r: Option<i32>)
        requires
            self.wf(),
            k < self.positions@.len(),
        ensures
            r is Some <==> self.target(k as int, d as int, to_index) is Some,
            r is Some ==> r->0 as int == self.target(k as int, d as int, to_index)->0,
    {
        let ghost ps = self.starts_at();
        let n = self.positions.len();
        proof {
            assert(ps[k as int] < self.index_of@.len());
            assert forall|i: int, j: int|
                0 <= i < j < self.positions@.len() implies self.positions@[i]
                < self.positions@[j] by {
                assert(ps[i] == self.positions@[i] && ps[j] == self.positions@[j]);
            }
            if n > 0 {
                assert(ps[n - 1] < self.index_of@.len());
                assert forall|j: int| 0 <= j < n implies j <= ps[j] by {
                    lemma_increasing_at_least_index(self.positions@, j);
                }
            }
        }
        if to_index {
            let t: i64 = self.positions[k] as i64 + d as i64;
            if t < 0 || t >= self.index_of.len() as i64 {
                proof {
                    if starts(ps, ps[k as int] + d) {
                        let j = choose|j: int| 0 <= j < ps.len() && ps[j] == ps[k as int] + d;
                        assert(ps[j] < self.index_of@.len());
                    }
                }
                return None;
            }
            let e = self.index_of[t as usize];
            if e == 0 {
                proof {
                    if starts(ps, ps[k as int] + d) {
                        let j = choose|j: int| 0 <= j < ps.len() && ps[j] == ps[k as int] + d;
                        assert(self.index_of@[ps[j]] == j + 1);
                    }
                }
                return None;
            }
            proof {
                let j = e - 1;
                assert(ps[j as int] == t);
                assert(starts(ps, ps[k as int] + d));
                let c = index_at(ps, ps[k as int] + d);
                if c < j {
                    assert(ps[c] < ps[j as int]);
                } else if c > j {
                    assert(ps[j as int] < ps[c]);
                }
            }
            Some((e as i64 - 1 - k as i64) as i32)
        } else {
            let j: i64 = k as i64 + d as i64;
            if j < 0 || j >= n as i64 {
                return None;
            }
            assert(ps[j as int] < self.index_of@.len());
            Some((self.positions[j as usize] as i64 - self.positions[k] as i64) as i32)
        }
    }
}

proof fn lemma_increasing_at_least_index(s: Seq<usize>, k: int)
    requires
        0 <= k < s.len(),
        forall|i: int, j: int| 0 <= i < j < s.len() ==> s[i] < s[j],
    ensures
        k <= s[k],
    decreases k,
{
    if k > 0 {
        lemma_increasing_at_least_index(s, k - 1);
    }
}

/// The branch operands of a switch with default target `default` and case targets `targets`.
proof fn lemma_switch_operands(m: InstructionModel, default: int, targets: Seq<int>)
    requires
        branch_operands(m) == seq![default] + targets,
    ensures
        branch_operands(m).len() == targets.len() + 1,
        branch_operands(m)[0] == default,
        forall|j: int| 0 <= j < targets.len() ==> branch_operands(m)[j + 1] == targets[j],
{
}

/// `instruction` with each branch operand translated by `layout`; `None` where one of
/// them names no instruction.
fn relocate(instruction: &Instruction, k: usize, layout: &Layout, to_index: bool) -> (r: Option<
    Instruction,
>)
    requires
        layout.wf(),
        k < layout.positions@.len(),
    ensures
        r is Some <==> (forall|x: int|
            0 <= x < branch_operands(instruction@).len() ==> layout.target(
                k as int,
                #[trigger] branch_operands(instruction@)[x],
                to_index,
            ) is Some),
        r is Some ==> r->0@ == map_branches(
            instruction@,
            |d: int| layout.target(k as int, d, to_index)->0,
        ),
{
    let ghost m = instruction@;
    let ghost f = |d: int| layout.target(k as int, d, to_index)->0;
    let op = instruction.opcode;
    match &instruction.operands {
        Operands::Branch(d) => {
            match layout.target_exec(k, *d, to_index) {
                Option::None => {
                    assert(branch_operands(m)[0] == *d as int);
                    None
                },
                Option::Some(t) => Some(Instruction { opcode: op, operands: Operands::Branch(t) }),
            }
        },
        Operands::BranchWide(d) => {
            match layout.target_exec(k, *d, to_index) {
                Option::None => {
                    assert(branch_operands(m)[0] == *d as int);
                    None
                },
                Option::Some(t) => Some(
                    Instruction { opcode: op, operands: Operands::BranchWide(t) },
                ),
            }
        },
        Operands::Tableswitch { default, low, high, offsets } => {
            let ghost targets = offsets@.map_values(|o: i32| o as int);
            proof {
                lemma_switch_operands(m, *default as int, targets);
            }
            let new_default = match layout.target_exec(k, *default, to_index) {
                Option::None => {
                    return None;
                },
                Option::Some(t) => t,
            };
            let mut new_offsets: Vec<i32> = Vec::new();
            let mut j: usize = 0;
            while j < offsets.len()
                invariant
                    layout.wf(),
                    k < layout.positions@.len(),
                    j <= offsets@.len(),
                    m == instruction@,
                    branch_operands(m).len() == targets.len() + 1,
                    forall|x: int| 0 <= x < targets.len() ==> branch_operands(m)[x + 1] == #[trigger] targets[x],
                    targets == offsets@.map_values(|o: i32| o as int),
                    new_offsets@.map_values(|o: i32| o as int) =~= targets.take(j as int).map_values(f),
                    forall|x: int| 0 <= x < j ==> layout.target(k as int, #[trigger] targets[x], to_index) is Some,
                    f == (|d: int| layout.target(k as int, d, to_index)->0),
                decreases offsets@.len() - j,
            {
                match layout.target_exec(k, offsets[j], to_index) {
                    Option::None => {
                        assert(branch_operands(m)[j + 1] == targets[j as int]);
                        return None;
                    },
                    Option::Some(t) => {
                        let ghost prev = new_offsets@;
                        new_offsets.push(t);
                        assert(targets.take(j + 1) =~= targets.take(j as int).push(targets[j as int]));
                        assert(new_offsets@ =~= prev.push(t));
                        assert(new_offsets@.map_values(|o: i32| o as int) =~= prev.map_values(
                            |o: i32| o as int,
                        ).push(t as int));
                    },
                }
                j = j + 1;
            }
            assert(targets.take(j as int) =~= targets);
            assert forall|x: int| 0 <= x < branch_operands(m).len() implies layout.target(
                k as int,
                #[trigger] branch_operands(m)[x],
                to_index,
            ) is Some by {
                if x > 0 {
                    assert(branch_operands(m)[x] == targets[x - 1]);
                }
            }
            let r = Instruction {
                opcode: op,
                operands: Operands::Tableswitch {
                    default: new_default,
                    low: *low,
                    high: *high,
                    offsets: new_offsets,
                },
            };
            assert(r@ == map_branches(m, f));
            Some(r)
        },
        Operands::Lookupswitch { default, pairs } => {
            let ghost ps = pairs@.map_values(|p: (i32, i32)| (p.0 as int, p.1 as int));
            let ghost targets = ps.map_values(|p: (int, int)| p.1);
            let ghost g = |p: (int, int)| (p.0, f(p.1));
            proof {
                lemma_switch_operands(m, *default as int, targets);
            }
            let new_default = match layout.target_exec(k, *default, to_index) {
                Option::None => {
                    return None;
                },
                Option::Some(t) => t,
            };
            let mut new_pairs: Vec<(i32, i32)> = Vec::new();
            let mut j: usize = 0;
            while j < pairs.len()
                invariant
                    layout.wf(),
                    k < layout.positions@.len(),
                    j <= pairs@.len(),
                    m == instruction@,
                    branch_operands(m).len() == targets.len() + 1,
                    forall|x: int| 0 <= x < targets.len() ==> branch_operands(m)[x + 1] == #[trigger] targets[x],
                    ps == pairs@.map_values(|p: (i32, i32)| (p.0 as int, p.1 as int)),
                    targets == ps.map_values(|p: (int, int)| p.1),
                    new_pairs@.map_values(|p: (i32, i32)| (p.0 as int, p.1 as int)) =~= ps.take(
                        j as int,
                    ).map_values(g),
                    forall|x: int| 0 <= x < j ==> layout.target(k as int, #[trigger] targets[x], to_index) is Some,
                    f == (|d: int| layout.target(k as int, d, to_index)->0),
                    g == (|p: (int, int)| (p.0, f(p.1))),
                decreases pairs@.len() - j,
            {
                let (key, offset) = pairs[j];
                match layout.target_exec(k, offset, to_index) {
                    Option::None => {
                        assert(branch_operands(m)[j + 1] == targets[j as int]);
                        return None;
                    },
                    Option::Some(t) => {
                        let ghost prev = new_pairs@;
                        new_pairs.push((key, t));
                        assert(ps.take(j + 1) =~= ps.take(j as int).push(ps[j as int]));
                        assert(new_pairs@ =~= prev.push((key, t)));
                        assert(new_pairs@.map_values(|p: (i32, i32)| (p.0 as int, p.1 as int))
                            =~= prev.map_values(|p: (i32, i32)| (p.0 as int, p.1 as int)).push(
                            (key as int, t as int),
                        ));
                    },
                }
                j = j + 1;
            }
            assert(ps.take(j as int) =~= ps);
            assert forall|x: int| 0 <= x < branch_operands(m).len() implies layout.target(
                k as int,
                #[trigger] branch_operands(m)[x],
                to_index,
            ) is Some by {
                if x > 0 {
                    assert(branch_operands(m)[x] == targets[x - 1]);
                }
            }
            let r = Instruction {
                opcode: op,
                operands: Operands::Lookupswitch { default: new_default, pairs: new_pairs },
            };
            assert(r@.operands->Lookupswitch_pairs =~= map_branches(
                m,
                f,
            ).operands->Lookupswitch_pairs);
            assert(r@ == map_branches(m, f));
            Some(r)
        },
        Operands::Empty => Some(Instruction { opcode: op, operands: Operands::Empty }),
        Operands::Byte(v) => Some(Instruction { opcode: op, operands: Operands::Byte(*v) }),
        Operands::SignedByte(v) => Some(
            Instruction { opcode: op, operands: Operands::SignedByte(*v) },
        ),
        Operands::Short(v) => Some(Instruction { opcode: op, operands: Operands::Short(*v) }),
        Operands::SignedShort(v) => Some(
            Instruction { opcode: op, operands: Operands::SignedShort(*v) },
        ),
        Operands::Increment { index, constant } => Some(
            Instruction {
                opcode: op,
                operands: Operands::Increment { index: *index, constant: *constant },
            },
        ),
        Operands::WideLocal { opcode, index } => Some(
            Instruction {
                opcode: op,
                operands: Operands::WideLocal { opcode: *opcode, index: *index },
            },
        ),
        Operands::WideIncrement { index, constant } => Some(
            Instruction {
                opcode: op,
                operands: Operands::WideIncrement { index: *index, constant: *constant },
            },
        ),
        Operands::InterfaceCall { index, count } => Some(
            Instruction {
                opcode: op,
                operands: Operands::InterfaceCall { index: *index, count: *count },
            },
        ),
        Operands::DynamicCall { index } => Some(
            Instruction { opcode: op, operands: Operands::DynamicCall { index: *index } },
        ),
        Operands::MultiArray { index, dimensions } => Some(
            Instruction {
                opcode: op,
                operands: Operands::MultiArray { index: *index, dimensions: *dimensions },
            },
        ),
    }
}

/// Translating branch operands by two functions that agree on them gives the same instruction.
proof fn lemma_map_branches_agree(m: InstructionModel, f: spec_fn(int) -> int, g: spec_fn(int) -> int)
    requires
        forall|x: int|
            0 <= x < branch_operands(m).len() ==> f(#[trigger] branch_operands(m)[x]) == g(
                branch_operands(m)[x],
            ),
    ensures
        map_branches(m, f) == map_branches(m, g),
{
    match m.operands {
        OperandsModel::Branch(d) => {
            assert(branch_operands(m)[0] == d);
        },
        OperandsModel::BranchWide(d) => {
            assert(branch_operands(m)[0] == d);
        },
        OperandsModel::Tableswitch { default, low, high, offsets } => {
            assert(branch_operands(m)[0] == default);
            assert forall|x: int| 0 <= x < offsets.len() implies f(offsets[x]) == g(offsets[x]) by {
                assert(branch_operands(m)[x + 1] == offsets[x]);
            }
            assert(offsets.map_values(f) =~= offsets.map_values(g));
        },
        OperandsModel::Lookupswitch { default, pairs } => {
            assert(branch_operands(m)[0] == default);
            assert forall|x: int| 0 <= x < pairs.len() implies f(pairs[x].1) == g(pairs[x].1) by {
                assert(branch_operands(m)[x + 1] == pairs[x].1);
            }
            assert(pairs.map_values(|p: (int, int)| (p.0, f(p.1))) =~= pairs.map_values(
                |p: (int, int)| (p.0, g(p.1)),
            ));
        },
        _ => {},
    }
}

/// Decodes a code array into instructions whose branch operands are instruction offsets.
pub fn from_bytes(bytes: &[u8]) -> (r: Result<Vec<Instruction>, Error>)
    ensures
        match r {
            Ok(v) => decode_code(bytes@) == Some(models(v@)),
            Err(_) => decode_code(bytes@) is None,
        },
        r matches Err(e) ==> e is Truncated || e is MalformedInstruction,
        r matches Err(e) ==> (e is Truncated <==> (bytes@.len() <= MAX_CODE_LENGTH && scan(bytes@, 0)
            is None && scan_error(bytes@, 0) == DecodeError::Truncated)),
{
    if bytes.len() > MAX_CODE_LENGTH {
        return Err(Error::MalformedInstruction);
    }
    let (raw, positions) = scan_code(bytes)?;
    let ghost ms = models(raw@);
    let ghost ps = positions@.map_values(|x: usize| x as int);
    proof {
        lemma_scan(bytes@, 0);
        assert forall|i: int, j: int| 0 <= i < j < positions@.len() implies positions@[i]
            < positions@[j] by {
            assert(ps[i] < ps[j]);
        }
        assert forall|k: int| 0 <= k < positions@.len() implies #[trigger] positions@[k]
            < bytes.len() by {
            assert(ps[k] < bytes@.len());
        }
    }
    let layout = Layout::new(positions, bytes.len());
    assert(layout.starts_at() =~= ps);
    let mut instructions: Vec<Instruction> = Vec::new();
    let mut k: usize = 0;
    while k < raw.len()
        invariant
            layout.wf(),
            layout.starts_at() == ps,
            ms == models(raw@),
            ms.len() == ps.len(),
            scan(bytes@, 0) == Some((ms, ps)),
            bytes@.len() <= MAX_CODE_LENGTH,
            k <= raw@.len(),
            models(instructions@) =~= Seq::new(
                k as nat,
                |j: int| map_branches(ms[j], |d: int| instruction_offset(ps, j, d)),
            ),
            forall|j: int| 0 <= j < k ==> resolves(ms, ps, j),
        decreases raw@.len() - k,
    {
        let ghost m = ms[k as int];
        match relocate(&raw[k], k, &layout, true) {
            Option::None => {
                assert(!resolves(ms, ps, k as int));
                assert(scan(bytes@, 0) == Some((ms, ps)));
                assert(!(forall|j: int| 0 <= j < ms.len() ==> resolves(ms, ps, j)));
                return Err(Error::MalformedInstruction);
            },
            Option::Some(i) => {
                proof {
                    lemma_map_branches_agree(
                        m,
                        |d: int| layout.target(k as int, d, true)->0,
                        |d: int| instruction_offset(ps, k as int, d),
                    );
                }
                let ghost prev = models(instructions@);
                instructions.push(i);
                assert(models(instructions@) =~= prev.push(i@));
            },
        }
        k = k + 1;
    }
    Ok(instructions)
}

proof fn lemma_words_len(s: Seq<int>)
    ensures
        words(s).len() == 4 * s.len(),
    decreases s.len(),
{
    if s.len() > 0 {
        lemma_words_len(s.drop_last());
    }
}

proof fn lemma_pair_words_len(s: Seq<(int, int)>)
    ensures
        pair_words(s).len() == 8 * s.len(),
    decreases s.len(),
{
    if s.len() > 0 {
        lemma_pair_words_len(s.drop_last());
    }
}

/// The length of an encoded instruction, which its branch operands do not change.
pub open spec fn encoded_length(m: InstructionModel, p: int) -> int {
    match m.operands {
        OperandsModel::Empty => 1,
        OperandsModel::Byte(_) | OperandsModel::SignedByte(_) => 2,
        OperandsModel::Short(_) | OperandsModel::SignedShort(_) | OperandsModel::Branch(_)
        | OperandsModel::Increment { .. } => 3,
        OperandsModel::WideLocal { .. } | OperandsModel::MultiArray { .. } => 4,
        OperandsModel::BranchWide(_) | OperandsModel::InterfaceCall { .. }
        | OperandsModel::DynamicCall { .. } => 5,
        OperandsModel::WideIncrement { .. } => 6,
        OperandsModel::Tableswitch { offsets, .. } => 1 + (3 - p % 4) + 12 + 4 * offsets.len(),
        OperandsModel::Lookupswitch { pairs, .. } => 1 + (3 - p % 4) + 8 + 8 * pairs.len(),
    }
}

proof fn lemma_encoded_length(m: InstructionModel, p: int, f: spec_fn(int) -> int)
    ensures
        encode_at(m, p).len() == encoded_length(m, p),
        encode_at(map_branches(m, f), p).len() == encoded_length(m, p),
        encoded_length(m, p) >= 1,
{
    match m.operands {
        OperandsModel::Tableswitch { offsets, .. } => {
            lemma_words_len(offsets);
            lemma_words_len(offsets.map_values(f));
        },
        OperandsModel::Lookupswitch { pairs, .. } => {
            lemma_pair_words_len(pairs);
            lemma_pair_words_len(pairs.map_values(|q: (int, int)| (q.0, f(q.1))));
        },
        _ => {},
    }
}

/// The length of `instruction` encoded at `pos`, where it is at most the longest code
/// array; some larger value otherwise.
fn encoded_len(instruction: &Instruction, pos: usize) -> (r: usize)
    requires
        pos <= MAX_CODE_LENGTH,
    ensures
        r <= MAX_CODE_LENGTH ==> r == encoded_length(instruction@, pos as int),
        r > MAX_CODE_LENGTH ==> encoded_length(instruction@, pos as int) > MAX_CODE_LENGTH,
        r <= 2 * MAX_CODE_LENGTH,
{
    match &instruction.operands {
        Operands::Empty => 1,
        Operands::Byte(_) | Operands::SignedByte(_) => 2,
        Operands::Short(_) | Operands::SignedShort(_) | Operands::Branch(_)
        | Operands::Increment { .. } => 3,
        Operands::WideLocal { .. } | Operands::MultiArray { .. } => 4,
        Operands::BranchWide(_) | Operands::InterfaceCall { .. } | Operands::DynamicCall {
            ..
        } => 5,
        Operands::WideIncrement { .. } => 6,
        Operands::Tableswitch { offsets, .. } => {
            if offsets.len() > MAX_CODE_LENGTH / 4 {
                MAX_CODE_LENGTH + 1
            } else {
                1 + (3 - pos % 4) + 12 + 4 * offsets.len()
            }
        },
        Operands::Lookupswitch { pairs, .. } => {
            if pairs.len() > MAX_CODE_LENGTH / 8 {
                MAX_CODE_LENGTH + 1
            } else {
                1 + (3 - pos % 4) + 8 + 8 * pairs.len()
            }
        },
    }
}

/// Whether `instruction` has the operands its opcode calls for, each within range.
pub fn is_encodable(instruction: &Instruction) -> (r: bool)
    ensures
        r == encodable(instruction@),
{
    let s = crate::instruction::shape(instruction.opcode);
    match &instruction.operands {
        Operands::Empty => matches!(s, Option::Some(crate::instruction::Shape::Plain)),
        Operands::Byte(_) => matches!(s, Option::Some(crate::instruction::Shape::Byte)),
        Operands::SignedByte(_) => matches!(s, Option::Some(crate::instruction::Shape::SignedByte)),
        Operands::Short(_) => matches!(s, Option::Some(crate::instruction::Shape::Short)),
        Operands::SignedShort(_) => matches!(
            s,
            Option::Some(crate::instruction::Shape::SignedShort)
        ),
        Operands::Branch(v) => matches!(s, Option::Some(crate::instruction::Shape::Branch))
            && -0x8000 <= *v && *v < 0x8000,
        Operands::BranchWide(_) => matches!(s, Option::Some(crate::instruction::Shape::BranchWide)),
        Operands::Increment { .. } => matches!(
            s,
            Option::Some(crate::instruction::Shape::Increment)
        ),
        Operands::WideLocal { opcode, .. } => {
            let op = *opcode;
            matches!(s, Option::Some(crate::instruction::Shape::Wide)) && ((0x15 <= op && op
                <= 0x19) || (0x36 <= op && op <= 0x3a) || op == 0xa9)
        },
        Operands::WideIncrement { .. } => matches!(s, Option::Some(crate::instruction::Shape::Wide)),
        Operands::Tableswitch { low, high, offsets, .. } => {
            let ghost o = offsets@.map_values(|x: i32| x as int);
            assert(forall|i: int| 0 <= i < o.len() ==> crate::instruction::is_i32(#[trigger] o[i]));
            matches!(s, Option::Some(crate::instruction::Shape::Tableswitch)) && *low <= *high
                && offsets.len() as u64 == (*high as i64 - *low as i64 + 1) as u64
        },
        Operands::Lookupswitch { pairs, .. } => {
            let ghost o = pairs@.map_values(|p: (i32, i32)| (p.0 as int, p.1 as int));
            assert(forall|i: int|
                0 <= i < o.len() ==> crate::instruction::is_i32(#[trigger] o[i].0)
                    && crate::instruction::is_i32(o[i].1));
            matches!(s, Option::Some(crate::instruction::Shape::Lookupswitch)) && pairs.len()
                < 0x8000_0000
        },
        Operands::InterfaceCall { .. } => matches!(
            s,
            Option::Some(crate::instruction::Shape::InterfaceCall)
        ),
        Operands::DynamicCall { .. } => matches!(
            s,
            Option::Some(crate::instruction::Shape::DynamicCall)
        ),
        Operands::MultiArray { .. } => matches!(
            s,
            Option::Some(crate::instruction::Shape::MultiArray)
        ),
    }
}

/// Each instruction of a layout starts where the one before it ends.
proof fn lemma_layout(ms: Seq<InstructionModel>)
    ensures
        layout(ms).len() == ms.len() + 1,
        layout(ms)[0] == 0,
        forall|k: int|
            0 <= k < ms.len() ==> layout(ms)[k + 1] == layout(ms)[k] + encoded_length(
                #[trigger] ms[k],
                layout(ms)[k],
            ),
        forall|i: int, j: int| 0 <= i < j <= ms.len() ==> layout(ms)[i] < layout(ms)[j],
    decreases ms.len(),
{
    if ms.len() > 0 {
        let l = layout(ms.drop_last());
        lemma_layout(ms.drop_last());
        lemma_encoded_length(ms.last(), l.last(), |d: int| d);
        assert forall|k: int|
            0 <= k < ms.len() implies layout(ms)[k + 1] == layout(ms)[k] + encoded_length(
            #[trigger] ms[k],
            layout(ms)[k],
        ) by {
            if k < ms.len() - 1 {
                assert(ms[k] == ms.drop_last()[k]);
            }
        }
        assert forall|i: int, j: int| 0 <= i < j <= ms.len() implies layout(ms)[i]
            < layout(ms)[j] by {
            if j == ms.len() && i < j - 1 {
                assert(layout(ms)[i] < layout(ms)[j - 1]);
            }
        }
    }
}

/// The layout of a prefix is a prefix of the layout.
proof fn lemma_layout_take(ms: Seq<InstructionModel>, k: int)
    requires
        0 <= k <= ms.len(),
    ensures
        layout(ms.take(k)) == layout(ms).take(k + 1),
    decreases ms.len(),
{
    lemma_layout(ms);
    lemma_layout(ms.take(k));
    if k == ms.len() {
        assert(ms.take(k) =~= ms);
        assert(layout(ms).take(k + 1) =~= layout(ms));
    } else {
        lemma_layout_take(ms.drop_last(), k);
        assert(ms.drop_last().take(k) =~= ms.take(k));
        lemma_layout(ms.drop_last());
        assert(layout(ms).take(k + 1) =~= layout(ms.drop_last()).take(k + 1));
    }
}

/// Two lists whose instructions have the same lengths have the same layout.
proof fn lemma_layout_same(a: Seq<InstructionModel>, b: Seq<InstructionModel>)
    requires
        a.len() == b.len(),
        forall|k: int, p: int| 0 <= k < a.len() ==> #[trigger] encode_at(a[k], p).len() == encode_at(b[k], p).len(),
    ensures
        layout(a) == layout(b),
    decreases a.len(),
{
    if a.len() > 0 {
        lemma_layout_same(a.drop_last(), b.drop_last());
        assert(encode_at(a[a.len() - 1], layout(a.drop_last()).last()).len() == encode_at(
            b[b.len() - 1],
            layout(b.drop_last()).last(),
        ).len());
    }
}

/// The byte position of each instruction laid out from byte 0, and the length of the
/// code; an error where the code is longer than a method may be.
fn lay_out(instructions: &[Instruction]) -> (r: Result<(Vec<usize>, usize), Error>)
    ensures
        match r {
            Ok((p, end)) => {
                &&& p@.map_values(|x: usize| x as int) == layout(models(instructions@)).take(
                    instructions@.len() as int,
                )
                &&& end == layout(models(instructions@)).last()
                &&& end <= MAX_CODE_LENGTH
            },
            Err(_) => layout(models(instructions@)).last() > MAX_CODE_LENGTH,
        },
{
    let ghost ms = models(instructions@);
    let ghost lay = layout(ms);
    proof {
        lemma_layout(ms);
    }
    let n = instructions.len();
    let mut positions: Vec<usize> = Vec::new();
    let mut pos: usize = 0;
    let mut k: usize = 0;
    while k < n
        invariant
            n == instructions@.len(),
            ms == models(instructions@),
            lay == layout(ms),
            lay.len() == n + 1,
            k <= n,
            pos <= MAX_CODE_LENGTH,
            positions@.len() == k,
            pos == lay[k as int],
            forall|j: int| 0 <= j < k ==> positions@[j] as int == #[trigger] lay[j],
            forall|i: int, j: int| 0 <= i < j <= n ==> lay[i] < lay[j],
            forall|j: int|
                0 <= j < n ==> lay[j + 1] == lay[j] + encoded_length(#[trigger] ms[j], lay[j]),
        decreases n - k,
    {
        let len = encoded_len(&instructions[k], pos);
        assert(lay[k + 1] == lay[k as int] + encoded_length(ms[k as int], lay[k as int]));
        if len > MAX_CODE_LENGTH - pos {
            proof {
                if k + 1 < n {
                    assert(lay[k + 1] < lay[n as int]);
                }
            }
            return Err(Error::MalformedInstruction);
        }
        positions.push(pos);
        pos = pos + len;
        k = k + 1;
    }
    assert(positions@.map_values(|x: usize| x as int) =~= lay.take(n as int));
    Ok((positions, pos))
}

/// Encodes instructions whose branch operands are instruction offsets into a code array.
pub fn to_bytes(instructions: &[Instruction]) -> (r: Result<Vec<u8>, Error>)
    ensures
        match r {
            Ok(b) => encode_code(models(instructions@)) == Some(b@),
            Err(_) => encode_code(models(instructions@)) is None,
        },
{
    let ghost ms = models(instructions@);
    let ghost raws = with_byte_offsets(ms);
    let ghost lay = layout(ms);
    proof {
        lemma_layout(ms);
        assert forall|k: int, p: int| 0 <= k < raws.len() implies #[trigger] encode_at(raws[k], p).len()
            == encode_at(ms[k], p).len() by {
            lemma_encoded_length(ms[k], p, |t: int| byte_offset(lay, k, t));
        }
        lemma_layout_same(raws, ms);
    }
    let n = instructions.len();
    let (positions, end) = lay_out(instructions)?;
    let ghost pm = positions@.map_values(|x: usize| x as int);
    proof {
        assert(pm.len() == n);
        assert forall|j: int| 0 <= j < n implies positions@[j] as int == lay[j] by {
            assert(pm[j] == positions@[j] as int);
            assert(pm[j] == lay.take(n as int)[j]);
        }
        assert forall|i: int, j: int| 0 <= i < j < positions@.len() implies positions@[i]
            < positions@[j] by {
            assert(positions@[i] as int == lay[i]);
            assert(positions@[j] as int == lay[j]);
        }
        assert forall|j: int| 0 <= j < positions@.len() implies #[trigger] positions@[j] < end by {
            assert(positions@[j] as int == lay[j]);
            assert(lay[j] < lay[n as int]);
        }
    }
    let lookup = Layout::new(positions, end);
    let mut out: Vec<u8> = Vec::new();
    let mut k: usize = 0;
    while k < n
        invariant
            n == instructions@.len(),
            ms == models(instructions@),
            raws == with_byte_offsets(ms),
            lay == layout(ms),
            lay == layout(raws),
            lay.len() == n + 1,
            lay[n as int] <= MAX_CODE_LENGTH,
            lookup.wf(),
            lookup.starts_at() == lay.take(n as int),
            lookup.positions@.len() == n,
            k <= n,
            out@ == encode_all(raws.take(k as int)),
            forall|j: int| 0 <= j < k ==> in_range(ms, j),
            forall|j: int| 0 <= j < k ==> encodable(#[trigger] raws[j]),
        decreases n - k,
    {
        let ghost m = ms[k as int];
        match relocate(&instructions[k], k, &lookup, false) {
            Option::None => {
                assert(!in_range(ms, k as int));
                return Err(Error::MalformedInstruction);
            },
            Option::Some(raw) => {
                proof {
                    lemma_map_branches_agree(
                        m,
                        |d: int| lookup.target(k as int, d, false)->0,
                        |t: int| byte_offset(lay, k as int, t),
                    );
                }
                assert(in_range(ms, k as int));
                assert(raw@ == raws[k as int]);
                if !is_encodable(&raw) {
                    return Err(Error::MalformedInstruction);
                }
                proof {
                    lemma_layout_take(raws, k as int);
                    assert(raws.take(k + 1).drop_last() =~= raws.take(k as int));
                    assert(raws.take(k + 1).last() == raws[k as int]);
                }
                encode_one(&raw, lookup.positions[k], &mut out);
            },
        }
        k = k + 1;
    }
    assert(raws.take(n as int) =~= raws);
    Ok(out)
}

proof fn lemma_branch_operands_map(m: InstructionModel, f: spec_fn(int) -> int)
    ensures
        branch_operands(map_branches(m, f)) == branch_operands(m).map_values(f),
        encoded_length(map_branches(m, f), 0) == encoded_length(m, 0),
        forall|p: int| #[trigger] encoded_length(map_branches(m, f), p) == encoded_length(m, p),
{
    match m.operands {
        OperandsModel::Branch(d) => {
            assert(branch_operands(map_branches(m, f)) =~= branch_operands(m).map_values(f));
        },
        OperandsModel::BranchWide(d) => {
            assert(branch_operands(map_branches(m, f)) =~= branch_operands(m).map_values(f));
        },
        OperandsModel::Tableswitch { default, low, high, offsets } => {
            assert(branch_operands(map_branches(m, f)) =~= branch_operands(m).map_values(f));
        },
        OperandsModel::Lookupswitch { default, pairs } => {
            assert(branch_operands(map_branches(m, f)) =~= branch_operands(m).map_values(f));
        },
        _ => {
            assert(branch_operands(map_branches(m, f)) =~= branch_operands(m).map_values(f));
        },
    }
}

proof fn lemma_map_branches_compose(
    m: InstructionModel,
    f: spec_fn(int) -> int,
    g: spec_fn(int) -> int,
)
    requires
        forall|x: int|
            0 <= x < branch_operands(m).len() ==> g(f(#[trigger] branch_operands(m)[x]))
                == branch_operands(m)[x],
    ensures
        map_branches(map_branches(m, f), g) == m,
{
    match m.operands {
        OperandsModel::Branch(d) => {
            assert(branch_operands(m)[0] == d);
        },
        OperandsModel::BranchWide(d) => {
            assert(branch_operands(m)[0] == d);
        },
        OperandsModel::Tableswitch { default, low, high, offsets } => {
            assert(branch_operands(m)[0] == default);
            assert forall|x: int| 0 <= x < offsets.len() implies g(f(offsets[x])) == offsets[x] by {
                assert(branch_operands(m)[x + 1] == offsets[x]);
            }
            assert(offsets.map_values(f).map_values(g) =~= offsets);
        },
        OperandsModel::Lookupswitch { default, pairs } => {
            assert(branch_operands(m)[0] == default);
            assert forall|x: int| 0 <= x < pairs.len() implies g(f(pairs[x].1)) == pairs[x].1 by {
                assert(branch_operands(m)[x + 1] == pairs[x].1);
            }
            assert(pairs.map_values(|p: (int, int)| (p.0, f(p.1))).map_values(
                |p: (int, int)| (p.0, g(p.1)),
            ) =~= pairs);
        },
        _ => {},
    }
}

/// In a strictly increasing sequence, the index of a value is the one it is found at.
proof fn lemma_index_at(ps: Seq<int>, j: int)
    requires
        0 <= j < ps.len(),
        forall|a: int, b: int| 0 <= a < b < ps.len() ==> ps[a] < ps[b],
    ensures
        starts(ps, ps[j]),
        index_at(ps, ps[j]) == j,
{
    assert(starts(ps, ps[j]));
    let c = index_at(ps, ps[j]);
    if c < j {
        assert(ps[c] < ps[j]);
    } else if c > j {
        assert(ps[j] < ps[c]);
    }
}

/// The facts about the decoding of a code array that the laws below rest on: the layout
/// of the decoded instructions is the byte position of each, and translating their
/// branch operands back to byte offsets gives back the operands read from the array.
proof fn lemma_decoded(b: Seq<u8>)
    requires
        decode_code(b) is Some,
    ensures
        ({
            let (ms, ps) = scan(b, 0)->0;
            let is = decode_code(b)->0;
            &&& is.len() == ms.len()
            &&& layout(is) == ps.push(b.len() as int)
            &&& layout(ms) == layout(is)
            &&& forall|k: int| 0 <= k < is.len() ==> in_range(is, k)
            &&& with_byte_offsets(is) == ms
            &&& forall|k: int| 0 <= k < ms.len() ==> encodable(#[trigger] ms[k])
            &&& forall|k: int, x: int|
                0 <= k < ms.len() && 0 <= x < branch_operands(ms[k]).len() ==> {
                    &&& branch_operands(is[k]).len() == branch_operands(ms[k]).len()
                    &&& 0 <= k + #[trigger] branch_operands(is[k])[x] < ms.len()
                    &&& ps[k + branch_operands(is[k])[x]] == ps[k] + branch_operands(ms[k])[x]
                }
        }),
{
    let (ms, ps) = scan(b, 0)->0;
    let is = decode_code(b)->0;
    let n = ms.len() as int;
    lemma_scan(b, 0);
    lemma_layout(is);
    lemma_layout(ms);
    if n == 0 {
        assert(b.len() == 0);
    }
    assert forall|k: int| 0 <= k < n implies #[trigger] encodable(ms[k]) by {
        lemma_decode_encode(b, ps[k]);
    }
    assert forall|k: int| 0 <= k < n implies encoded_length(#[trigger] ms[k], ps[k])
        == next_start(b, ps, k) - ps[k] by {
        lemma_decode_encode(b, ps[k]);
        lemma_encoded_length(ms[k], ps[k], |d: int| d);
    }
    assert forall|k: int| 0 <= k < n implies #[trigger] is[k] == map_branches(
        ms[k],
        |d: int| instruction_offset(ps, k, d),
    ) by {}
    // the layout of the decoded instructions is the position of each
    let lay = layout(is);
    assert forall|k: int| 0 <= k <= n implies lay[k] == (if k < n {
        ps[k]
    } else {
        b.len() as int
    }) by {
        lemma_layout_at(is, ms, ps, b, k);
    }
    assert(lay =~= ps.push(b.len() as int));
    assert forall|k: int, p: int| 0 <= k < is.len() implies #[trigger] encode_at(is[k], p).len()
        == encode_at(ms[k], p).len() by {
        lemma_encoded_length(ms[k], p, |d: int| instruction_offset(ps, k, d));
    }
    lemma_layout_same(is, ms);
    // each branch lands on the instruction it named
    assert forall|k: int, x: int|
        0 <= k < n && 0 <= x < branch_operands(ms[k]).len() implies {
        &&& branch_operands(is[k]).len() == branch_operands(ms[k]).len()
        &&& 0 <= k + #[trigger] branch_operands(is[k])[x] < n
        &&& ps[k + branch_operands(is[k])[x]] == ps[k] + branch_operands(ms[k])[x]
    } by {
        let f = |d: int| instruction_offset(ps, k, d);
        lemma_branch_operands_map(ms[k], f);
        let d = branch_operands(ms[k])[x];
        assert(resolves(ms, ps, k));
        assert(starts(ps, ps[k] + d));
        let j = index_at(ps, ps[k] + d);
        assert(branch_operands(is[k])[x] == j - k);
    }
    assert forall|k: int| 0 <= k < n implies in_range(is, k) by {
        assert forall|x: int| 0 <= x < branch_operands(is[k]).len() implies 0 <= k
            + #[trigger] branch_operands(is[k])[x] < is.len() by {
            lemma_branch_operands_map(ms[k], |d: int| instruction_offset(ps, k, d));
        }
    }
    let raws = with_byte_offsets(is);
    assert forall|k: int| 0 <= k < n implies #[trigger] raws[k] == ms[k] by {
        let f = |d: int| instruction_offset(ps, k, d);
        let g = |t: int| byte_offset(lay, k, t);
        assert forall|x: int| 0 <= x < branch_operands(ms[k]).len() implies g(
            f(#[trigger] branch_operands(ms[k])[x]),
        ) == branch_operands(ms[k])[x] by {
            lemma_branch_operands_map(ms[k], f);
            assert(branch_operands(is[k])[x] == f(branch_operands(ms[k])[x]));
        }
        lemma_map_branches_compose(ms[k], f, g);
    }
    assert(raws =~= ms);
}

proof fn lemma_layout_at(is: Seq<InstructionModel>, ms: Seq<InstructionModel>, ps: Seq<int>, b: Seq<u8>, k: int)
    requires
        is.len() == ms.len(),
        ps.len() == ms.len(),
        0 <= k <= ms.len(),
        ms.len() > 0 ==> ps[0] == 0,
        ms.len() == 0 ==> b.len() == 0,
        forall|j: int|
            0 <= j < ms.len() ==> encoded_length(#[trigger] ms[j], ps[j]) == next_start(b, ps, j)
                - ps[j],
        forall|j: int|
            0 <= j < ms.len() ==> #[trigger] is[j] == map_branches(
                ms[j],
                |d: int| instruction_offset(ps, j, d),
            ),
    ensures
        layout(is)[k] == (if k < ms.len() {
            ps[k]
        } else {
            b.len() as int
        }),
    decreases k,
{
    lemma_layout(is);
    if k > 0 {
        lemma_layout_at(is, ms, ps, b, k - 1);
        lemma_branch_operands_map(ms[k - 1], |d: int| instruction_offset(ps, k - 1, d));
        assert(layout(is)[k] == layout(is)[k - 1] + encoded_length(is[k - 1], layout(is)[k - 1]));
    }
}

/// The bytes of a list are the bytes of each instruction at its position in the layout.
proof fn lemma_encode_all(ms: Seq<InstructionModel>, b: Seq<u8>, k: int)
    requires
        0 <= k <= ms.len(),
        layout(ms).len() == ms.len() + 1,
        layout(ms)[0] == 0,
        layout(ms)[ms.len() as int] == b.len(),
        forall|i: int, j: int| 0 <= i < j <= ms.len() ==> layout(ms)[i] < layout(ms)[j],
        forall|j: int|
            0 <= j < ms.len() ==> #[trigger] encode_at(ms[j], layout(ms)[j]) == b.subrange(
                layout(ms)[j],
                layout(ms)[j + 1],
            ),
    ensures
        encode_all(ms.take(k)) == b.subrange(0, layout(ms)[k]),
    decreases k,
{
    if k == 0 {
        assert(b.subrange(0, 0) =~= seq![]);
    } else {
        lemma_encode_all(ms, b, k - 1);
        lemma_layout_take(ms, k - 1);
        assert(ms.take(k).drop_last() =~= ms.take(k - 1));
        assert(layout(ms.take(k - 1)).last() == layout(ms)[k - 1]);
        if k < ms.len() {
            assert(layout(ms)[k] < layout(ms)[ms.len() as int]);
        }
        assert(b.subrange(0, layout(ms)[k]) =~= b.subrange(0, layout(ms)[k - 1]) + b.subrange(
            layout(ms)[k - 1],
            layout(ms)[k],
        ));
    }
}

/// The instructions of a code array as read, with branch operands as byte offsets.
pub open spec fn raw_instructions(b: Seq<u8>) -> Seq<InstructionModel> {
    let (ms, _ps) = scan(b, 0)->0;
    ms
}

/// The raw instructions of a decodable code array, encoded at their positions, are the array.
proof fn lemma_encode_scanned(b: Seq<u8>)
    requires
        decode_code(b) is Some,
    ensures
        encode_all(raw_instructions(b)) == b,
        layout(raw_instructions(b)).last() == b.len(),
{
    let (ms, ps) = scan(b, 0)->0;
    lemma_decoded(b);
    lemma_scan(b, 0);
    lemma_layout(ms);
    let lay = layout(ms);
    assert(lay == ps.push(b.len() as int));
    assert forall|j: int| 0 <= j < ms.len() implies #[trigger] encode_at(ms[j], lay[j])
        == b.subrange(lay[j], lay[j + 1]) by {
        lemma_decode_encode(b, ps[j]);
        assert(lay[j] == ps[j]);
        assert(lay[j + 1] == next_start(b, ps, j));
    }
    lemma_encode_all(ms, b, ms.len() as int);
    assert(ms.take(ms.len() as int) =~= ms);
    assert(b.subrange(0, b.len() as int) =~= b);
}

/// Round trip: encoding the instructions decoded from a code array gives back the array
/// byte for byte, and decoding that again gives back the same instructions.
pub proof fn lemma_round_trip(b: Seq<u8>)
    requires
        decode_code(b) is Some,
    ensures
        encode_code(decode_code(b)->0) == Some(b),
        decode_code(encode_code(decode_code(b)->0)->0) == decode_code(b),
{
    let ms = raw_instructions(b);
    let is = decode_code(b)->0;
    lemma_decoded(b);
    lemma_encode_scanned(b);
    assert(with_byte_offsets(is) == ms);
    assert(forall|k: int| 0 <= k < is.len() ==> encodable(#[trigger] with_byte_offsets(is)[k]));
}

/// Branch targets survive the translation: where the decoded instruction `k` names
/// instruction `k + t`, the branch read from the code array named the byte at which
/// instruction `k + t` starts.
pub proof fn lemma_branch_targets(b: Seq<u8>, k: int, x: int)
    requires
        decode_code(b) is Some,
        0 <= k < decode_code(b)->0.len(),
        0 <= x < branch_operands(decode_code(b)->0[k]).len(),
    ensures
        ({
            let (ms, ps) = scan(b, 0)->0;
            let t = branch_operands(decode_code(b)->0[k])[x];
            &&& 0 <= k + t < ms.len()
            &&& ps[k + t] == ps[k] + branch_operands(ms[k])[x]
        }),
{
    let (ms, ps) = scan(b, 0)->0;
    lemma_decoded(b);
    lemma_branch_operands_map(ms[k], |d: int| instruction_offset(ps, k, d));
}

/// The bytes of a list hold, at each instruction's position in the layout, that
/// instruction's encoding, and end where the layout ends.
proof fn lemma_encode_all_parts(raws: Seq<InstructionModel>, k: int)
    requires
        0 <= k <= raws.len(),
    ensures
        encode_all(raws.take(k)).len() == layout(raws)[k],
        forall|j: int|
            0 <= j < k ==> #[trigger] encode_all(raws.take(k)).subrange(layout(raws)[j], layout(raws)[j + 1])
                == encode_at(raws[j], layout(raws)[j]),
    decreases k,
{
    lemma_layout(raws);
    if k == 0 {
        assert(raws.take(0) =~= Seq::<InstructionModel>::empty());
    } else {
        lemma_encode_all_parts(raws, k - 1);
        lemma_layout_take(raws, k - 1);
        lemma_encoded_length(raws[k - 1], layout(raws)[k - 1], |d: int| d);
        let prev = encode_all(raws.take(k - 1));
        assert(raws.take(k).drop_last() =~= raws.take(k - 1));
        assert(raws.take(k).last() == raws[k - 1]);
        assert(layout(raws.take(k - 1)).last() == layout(raws)[k - 1]);
        let whole = encode_all(raws.take(k));
        assert(whole == prev + encode_at(raws[k - 1], layout(raws)[k - 1]));
        assert forall|j: int| 0 <= j < k implies #[trigger] whole.subrange(layout(raws)[j], layout(raws)[j + 1])
            == encode_at(raws[j], layout(raws)[j]) by {
            if j < k - 1 {
                if j + 1 < k - 1 {
                    assert(layout(raws)[j + 1] < layout(raws)[k - 1]);
                }
                assert(whole.subrange(layout(raws)[j], layout(raws)[j + 1]) =~= prev.subrange(
                    layout(raws)[j],
                    layout(raws)[j + 1],
                ));
            } else {
                assert(whole.subrange(layout(raws)[j], layout(raws)[j + 1]) =~= encode_at(
                    raws[j],
                    layout(raws)[j],
                ));
            }
        }
    }
}

/// Scanning encoded bytes from an instruction's position finds the instructions that
/// were encoded from there on.
proof fn lemma_scan_encoded(raws: Seq<InstructionModel>, c: Seq<u8>, k: int)
    requires
        0 <= k <= raws.len(),
        c.len() == layout(raws)[raws.len() as int],
        forall|j: int| 0 <= j < raws.len() ==> encodable(#[trigger] raws[j]),
        forall|j: int|
            0 <= j < raws.len() ==> #[trigger] c.subrange(layout(raws)[j], layout(raws)[j + 1])
                == encode_at(raws[j], layout(raws)[j]),
    ensures
        scan(c, layout(raws)[k]) == Some((raws.skip(k), layout(raws).subrange(k, raws.len() as int))),
    decreases raws.len() - k,
{
    lemma_layout(raws);
    let lay = layout(raws);
    let n = raws.len() as int;
    if k == n {
        assert(raws.skip(k) =~= Seq::<InstructionModel>::empty());
        assert(lay.subrange(k, n) =~= Seq::<int>::empty());
    } else {
        lemma_scan_encoded(raws, c, k + 1);
        lemma_encoded_length(raws[k], lay[k], |d: int| d);
        assert(c.subrange(lay[k], lay[k + 1]) == encode_at(raws[k], lay[k]));
        if k + 1 < n {
            assert(lay[k + 1] < lay[n]);
        }
        lemma_encode_decode_one(c, lay[k], raws[k]);
        assert(raws.skip(k) =~= seq![raws[k]] + raws.skip(k + 1));
        assert(lay.subrange(k, n) =~= seq![lay[k]] + lay.subrange(k + 1, n));
    }
}

#[verifier::rlimit(60)]
proof fn lemma_encoded_scan(ms: Seq<InstructionModel>)
    requires
        encode_code(ms) is Some,
    ensures
        scan(encode_code(ms)->0, 0) == Some(
            (with_byte_offsets(ms), layout(ms).subrange(0, ms.len() as int)),
        ),
        encode_code(ms)->0.len() == layout(ms)[ms.len() as int],
{
    let raws = with_byte_offsets(ms);
    let lay = layout(ms);
    let n = ms.len() as int;
    let c = encode_code(ms)->0;
    lemma_layout(ms);
    assert forall|k: int, p: int| 0 <= k < raws.len() implies #[trigger] encode_at(raws[k], p).len()
        == encode_at(ms[k], p).len() by {
        lemma_encoded_length(ms[k], p, |t: int| byte_offset(lay, k, t));
    }
    lemma_layout_same(raws, ms);
    lemma_encode_all_parts(raws, n);
    assert(raws.take(n) =~= raws);
    lemma_scan_encoded(raws, c, 0);
    assert(raws.skip(0) =~= raws);
}

#[verifier::rlimit(60)]
proof fn lemma_decoded_back(ms: Seq<InstructionModel>, k: int)
    requires
        encode_code(ms) is Some,
        0 <= k < ms.len(),
    ensures
        resolves(with_byte_offsets(ms), layout(ms).subrange(0, ms.len() as int), k),
        map_branches(
            with_byte_offsets(ms)[k],
            |d: int| instruction_offset(layout(ms).subrange(0, ms.len() as int), k, d),
        ) == ms[k],
{
    let raws = with_byte_offsets(ms);
    let lay = layout(ms);
    let n = ms.len() as int;
    let ps = lay.subrange(0, n);
    lemma_layout(ms);
    let f = |t: int| byte_offset(lay, k, t);
    let g = |d: int| instruction_offset(ps, k, d);
    lemma_branch_operands_map(ms[k], f);
    assert(in_range(ms, k));
    assert forall|x: int| 0 <= x < branch_operands(ms[k]).len() implies g(
        f(#[trigger] branch_operands(ms[k])[x]),
    ) == branch_operands(ms[k])[x] by {
        let t = branch_operands(ms[k])[x];
        lemma_index_at(ps, k + t);
    }
    lemma_map_branches_compose(ms[k], f, g);
    assert forall|x: int| 0 <= x < branch_operands(raws[k]).len() implies starts(
        ps,
        ps[k] + #[trigger] branch_operands(raws[k])[x],
    ) by {
        let t = branch_operands(ms[k])[x];
        lemma_index_at(ps, k + t);
    }
}

/// Round trip the other way: a list whose encoding succeeds decodes back from that
/// encoding to itself.
pub proof fn lemma_encode_decode(ms: Seq<InstructionModel>)
    requires
        encode_code(ms) is Some,
    ensures
        decode_code(encode_code(ms)->0) == Some(ms),
{
    let c = encode_code(ms)->0;
    lemma_decode_of_encoded(ms, c);
}

#[verifier::rlimit(100)]
proof fn lemma_decode_of_encoded(ms: Seq<InstructionModel>, c: Seq<u8>)
    requires
        encode_code(ms) == Some(c),
    ensures
        decode_code(c) == Some(ms),
{
    let raws = with_byte_offsets(ms);
    let n = ms.len() as int;
    lemma_layout(ms);
    let ps = layout(ms).subrange(0, n);
    lemma_encoded_scan(ms);
    assert(layout(ms).last() <= MAX_CODE_LENGTH);
    assert(layout(ms).last() == layout(ms)[n]);
    assert(c.len() <= MAX_CODE_LENGTH);
    assert(scan(c, 0) == Some((raws, ps)));
    assert forall|k: int| 0 <= k < n implies #[trigger] resolves(raws, ps, k) by {
        lemma_decoded_back(ms, k);
    }
    assert(Seq::new(n as nat, |k: int| map_branches(raws[k], |d: int| instruction_offset(ps, k, d)))
        =~= ms) by {
        assert forall|k: int| 0 <= k < n implies map_branches(
            raws[k],
            |d: int| instruction_offset(ps, k, d),
        ) == #[trigger] ms[k] by {
            lemma_decoded_back(ms, k);
        }
    }
}

/// Branch targets survive encoding: in the bytes of a list, the branch operand read at
/// instruction `k` is the byte distance from instruction `k` to the instruction `k + t`
/// that the list named, and decoding names instruction `k + t` again.
pub proof fn lemma_encoded_branch_offsets(ms: Seq<InstructionModel>, k: int, x: int)
    requires
        encode_code(ms) is Some,
        0 <= k < ms.len(),
        0 <= x < branch_operands(ms[k]).len(),
    ensures
        ({
            let c = encode_code(ms)->0;
            let t = branch_operands(ms[k])[x];
            &&& 0 <= k + t < ms.len()
            &&& raw_instructions(c)[k] == with_byte_offsets(ms)[k]
            &&& branch_operands(raw_instructions(c)[k])[x] == layout(ms)[k + t] - layout(ms)[k]
            &&& decode_code(c) == Some(ms)
        }),
{
    lemma_encoded_scan(ms);
    lemma_encode_decode(ms);
    lemma_branch_operands_map(ms[k], |t: int| byte_offset(layout(ms), k, t));
    assert(in_range(ms, k));
}

} // verus!
