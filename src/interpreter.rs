//! The operational rules of the interpreter: Java integer arithmetic, exception handler
//! search and unwinding, and the execution of a method body over `int` values.

use crate::error::Error;
use crate::instruction::{Instruction, InstructionModel, Operands, OperandsModel};
use crate::java_error::JavaError;
use vstd::prelude::*;
use vstd::string::StringExecFns;

verus! {

/// The `int` value congruent to `v` modulo 2^32: Java's two's complement wrap-around.
pub open spec fn wrap32(v: int) -> int {
    (v + 0x8000_0000) % 0x1_0000_0000 - 0x8000_0000
}

pub open spec fn abs(v: int) -> int {
    if v < 0 {
        -v
    } else {
        v
    }
}

/// Division rounded toward zero.
pub open spec fn trunc_div(a: int, b: int) -> int {
    let q = abs(a) / abs(b);
    if (a < 0) == (b < 0) {
        q
    } else {
        -q
    }
}

fn wrap(v: i64) -> (r: i32)
    requires
        -0x1_0000_0000 - 0x8000_0000 <= v < 0x1_0000_0000 + 0x8000_0000,
    ensures
        r as int == wrap32(v as int),
{
    if v > 0x7fff_ffff {
        (v - 0x1_0000_0000) as i32
    } else if v < -0x8000_0000 {
        (v + 0x1_0000_0000) as i32
    } else {
        v as i32
    }
}

/// `iadd`: the sum, wrapped to 32 bits.
pub fn iadd(a: i32, b: i32) -> (r: i32)
    ensures
        r as int == wrap32(a + b),
{
    wrap(a as i64 + b as i64)
}

/// `isub`: the difference, wrapped to 32 bits.
pub fn isub(a: i32, b: i32) -> (r: i32)
    ensures
        r as int == wrap32(a - b),
{
    wrap(a as i64 - b as i64)
}

/// `ineg`: the negation, wrapped to 32 bits; `-MIN` is `MIN`.
pub fn ineg(a: i32) -> (r: i32)
    ensures
        r as int == wrap32(-a),
{
    wrap(-(a as i64))
}

/// The `ArithmeticException` of an integer division by zero.
pub open spec fn is_division_by_zero(e: JavaError) -> bool {
    e matches JavaError::ArithmeticException(m) && m@ == "/ by zero"@
}

fn division_by_zero() -> (e: JavaError)
    ensures
        is_division_by_zero(e),
{
    JavaError::ArithmeticException(String::from_str("/ by zero"))
}

/// `idiv`: the quotient rounded toward zero, wrapped to 32 bits, so that `MIN / -1` is
/// `MIN`; an `ArithmeticException` where the divisor is zero.
pub fn idiv(a: i32, b: i32) -> (r: Result<i32, JavaError>)
    ensures
        b == 0 ==> (r matches Err(e) && is_division_by_zero(e)),
        b != 0 ==> (r matches Ok(q) && q as int == wrap32(trunc_div(a as int, b as int))),
{
    if b == 0 {
        return Err(division_by_zero());
    }
    let x: i64 = if a < 0 { -(a as i64) } else { a as i64 };
    let y: i64 = if b < 0 { -(b as i64) } else { b as i64 };
    let q: i64 = x / y;
    assert(0 <= q <= x) by (nonlinear_arith)
        requires
            0 <= x,
            1 <= y,
            q == x / y,
    ;
    let signed: i64 = if (a < 0) == (b < 0) { q } else { -q };
    Ok(wrap(signed))
}

/// `irem`: the remainder of the division rounded toward zero, with the sign of the
/// dividend; an `ArithmeticException` where the divisor is zero.
pub fn irem(a: i32, b: i32) -> (r: Result<i32, JavaError>)
    ensures
        b == 0 ==> (r matches Err(e) && is_division_by_zero(e)),
        b != 0 ==> (r matches Ok(m) && m as int == a - b * trunc_div(a as int, b as int)),
{
    if b == 0 {
        return Err(division_by_zero());
    }
    let x: i64 = if a < 0 { -(a as i64) } else { a as i64 };
    let y: i64 = if b < 0 { -(b as i64) } else { b as i64 };
    let q: i64 = x / y;
    let m: i64 = x % y;
    assert(0 <= m < y && x == q * y + m && 0 <= q <= x) by (nonlinear_arith)
        requires
            0 <= x,
            1 <= y,
            q == x / y,
            m == x % y,
    ;
    let rem: i64 = if a < 0 { -m } else { m };
    assert(a - b * trunc_div(a as int, b as int) == rem) by (nonlinear_arith)
        requires
            x == abs(a as int),
            y == abs(b as int),
            x == q * y + m,
            rem == (if a < 0 { -m } else { m as int }),
            q == abs(a as int) / abs(b as int),
            trunc_div(a as int, b as int) == (if (a < 0) == (b < 0) { q as int } else { -q }),
            b != 0,
    ;
    Ok(rem as i32)
}

/// Integer division does not trap on overflow: the one quotient that does not fit,
/// `MIN / -1`, wraps to `MIN`.
pub proof fn lemma_min_div_minus_one()
    ensures
        wrap32(trunc_div(i32::MIN as int, -1)) == i32::MIN,
{
}

/// An entry of a method's exception table, positions given as instruction indices: the
/// handler at `handler` covers the instructions in `start..end` and catches the class
/// `catch_type` and its subclasses, or every exception where `catch_type` is `None`.
#[derive(Debug, Clone, PartialEq, Eq)]
pub struct Handler {
    pub start: usize,
    pub end: usize,
    pub handler: usize,
    pub catch_type: Option<String>,
}

/// The class of an exception the interpreter throws and its superclasses, nearest first.
pub open spec fn class_and_superclasses(e: JavaError) -> Seq<Seq<char>> {
    let tail = seq!["java/lang/RuntimeException"@, "java/lang/Exception"@, "java/lang/Throwable"@];
    match e {
        JavaError::ArrayIndexOutOfBoundsException { .. } => seq![
            e.spec_class_name(),
            "java/lang/IndexOutOfBoundsException"@,
        ] + tail,
        _ => seq![e.spec_class_name()] + tail,
    }
}

/// Handler `h` catches `e` thrown at instruction `pc`.
pub open spec fn catches(h: Handler, pc: int, e: JavaError) -> bool {
    &&& h.start <= pc < h.end
    &&& match h.catch_type {
        Option::None => true,
        Option::Some(c) => class_and_superclasses(e).contains(c@),
    }
}

/// The first entry from `k` on, in table order, that catches `e` thrown at `pc`.
pub open spec fn first_handler(hs: Seq<Handler>, pc: int, e: JavaError, k: int) -> Option<int>
    decreases hs.len() - k,
{
    if k < 0 || k >= hs.len() {
        None
    } else if catches(hs[k], pc, e) {
        Some(k)
    } else {
        first_handler(hs, pc, e, k + 1)
    }
}

/// Whether `name` is among `names`.
fn contains_name(names: &Vec<&str>, name: &str) -> (r: bool)
    ensures
        r == names@.map_values(|s: &str| s@).contains(name@),
{
    let ghost m = names@.map_values(|s: &str| s@);
    let mut i: usize = 0;
    while i < names.len()
        invariant
            i <= names@.len(),
            m == names@.map_values(|s: &str| s@),
            forall|j: int| 0 <= j < i ==> m[j] != name@,
        decreases names@.len() - i,
    {
        if crate::class_path::starts_with(names[i], name) && crate::class_path::starts_with(
            name,
            names[i],
        ) {
            assert(names[i as int]@ =~= name@);
            assert(m[i as int] == name@);
            return true;
        }
        proof {
            if names[i as int]@ == name@ {
                assert(name@.subrange(0, name@.len() as int) =~= name@);
            }
            assert(m[i as int] == names[i as int]@);
        }
        i = i + 1;
    }
    false
}

/// The class of `e` and its superclasses, nearest first.
fn superclass_names<'a>(e: &'a JavaError) -> (r: Vec<&'a str>)
    ensures
        r@.map_values(|s: &str| s@) == class_and_superclasses(*e),
{
    let mut v: Vec<&'a str> = Vec::new();
    v.push(e.class_name());
    if let JavaError::ArrayIndexOutOfBoundsException { .. } = e {
        v.push("java/lang/IndexOutOfBoundsException");
    }
    v.push("java/lang/RuntimeException");
    v.push("java/lang/Exception");
    v.push("java/lang/Throwable");
    assert(v@.map_values(|s: &str| s@) =~= class_and_superclasses(*e));
    v
}

/// The index of the first entry of `handlers`, in table order, that catches `e`
/// thrown at instruction `pc`.
pub fn find_handler(handlers: &Vec<Handler>, pc: usize, e: &JavaError) -> (r: Option<usize>)
    ensures
        r == (match first_handler(handlers@, pc as int, *e, 0) {
            Option::Some(k) => Some(k as usize),
            Option::None => None::<usize>,
        }),
{
    let names = superclass_names(e);
    let mut k: usize = 0;
    while k < handlers.len()
        invariant
            k <= handlers@.len(),
            names@.map_values(|s: &str| s@) == class_and_superclasses(*e),
            first_handler(handlers@, pc as int, *e, 0) == first_handler(
                handlers@,
                pc as int,
                *e,
                k as int,
            ),
        decreases handlers@.len() - k,
    {
        let h = &handlers[k];
        if h.start <= pc && pc < h.end {
            let caught = match &h.catch_type {
                Option::None => true,
                Option::Some(c) => contains_name(&names, c.as_str()),
            };
            if caught {
                return Some(k);
            }
        }
        k = k + 1;
    }
    None
}

/// The frame, counted from the outermost, and the handler entry where an exception
/// thrown in the innermost frame is caught: the innermost frame whose table, at that
/// frame's current instruction, has an entry that catches it. `None` where no frame
/// has one: the exception then leaves the outermost frame, to the caller of the
/// top-level invocation.
pub open spec fn catching_frame(
    tables: Seq<Seq<Handler>>,
    pcs: Seq<usize>,
    e: JavaError,
    depth: int,
) -> Option<(int, int)>
    decreases depth,
{
    if depth <= 0 {
        None
    } else {
        match first_handler(tables[depth - 1], pcs[depth - 1] as int, e, 0) {
            Option::Some(k) => Some((depth - 1, k)),
            Option::None => catching_frame(tables, pcs, e, depth - 1),
        }
    }
}

/// Unwinds a stack of frames, given the exception table and current instruction of each,
/// outermost first: the frame that catches `e` and the entry that does, or `None` where
/// `e` leaves every frame uncaught.
pub fn unwind(tables: &Vec<Vec<Handler>>, pcs: &Vec<usize>, e: &JavaError) -> (r: Option<
    (usize, usize),
>)
    requires
        tables@.len() == pcs@.len(),
    ensures
        r == (match catching_frame(
            tables@.map_values(|t: Vec<Handler>| t@),
            pcs@,
            *e,
            tables@.len() as int,
        ) {
            Option::Some((f, k)) => Some((f as usize, k as usize)),
            Option::None => None::<(usize, usize)>,
        }),
{
    let ghost ts = tables@.map_values(|t: Vec<Handler>| t@);
    let mut depth: usize = tables.len();
    while depth > 0
        invariant
            depth <= tables@.len(),
            tables@.len() == pcs@.len(),
            ts == tables@.map_values(|t: Vec<Handler>| t@),
            catching_frame(ts, pcs@, *e, tables@.len() as int) == catching_frame(
                ts,
                pcs@,
                *e,
                depth as int,
            ),
        decreases depth,
    {
        assert(ts[depth - 1] == tables@[depth - 1]@);
        match find_handler(&tables[depth - 1], pcs[depth - 1], e) {
            Option::Some(k) => {
                return Some((depth - 1, k));
            },
            Option::None => {},
        }
        depth = depth - 1;
    }
    None
}

/// An uncaught exception leaves the stack exactly once: where no frame catches it, no
/// frame of any shorter stack does either, and where one does, the frame that catches
/// it is the innermost that can.
pub proof fn lemma_unwinding(tables: Seq<Seq<Handler>>, pcs: Seq<usize>, e: JavaError, depth: int)
    requires
        0 <= depth <= tables.len(),
        tables.len() == pcs.len(),
    ensures
        catching_frame(tables, pcs, e, depth) is None <==> forall|f: int|
            0 <= f < depth ==> #[trigger] first_handler(tables[f], pcs[f] as int, e, 0) is None,
        catching_frame(tables, pcs, e, depth) matches Some((f, k)) ==> 0 <= f < depth && first_handler(
            tables[f],
            pcs[f] as int,
            e,
            0,
        ) == Some(k) && forall|g: int|
            f < g < depth ==> #[trigger] first_handler(tables[g], pcs[g] as int, e, 0) is None,
    decreases depth,
{
    if depth > 0 {
        lemma_unwinding(tables, pcs, e, depth - 1);
    }
}

/// The result of executing one instruction of a frame.
pub enum StepModel {
    /// Execution goes on at `pc` with these locals and this operand stack.
    Next { pc: int, locals: Seq<i32>, stack: Seq<i32> },
    /// The method returned, with a value or without.
    Returned(Option<i32>),
    /// The instruction threw an exception of this class with this message.
    Threw { class_name: Seq<char>, message: Seq<char> },
    /// The instruction is outside the supported set, or its operands are missing.
    Fault,
}

/// Pushes `v`.
pub open spec fn push_next(pc: int, locals: Seq<i32>, stack: Seq<i32>, v: int) -> StepModel {
    StepModel::Next { pc: pc + 1, locals, stack: stack.push(v as i32) }
}

/// The comparison of a conditional branch, by opcode offset from `ifeq` or `if_icmpeq`.
pub open spec fn compare(kind: int, a: int, b: int) -> bool {
    if kind == 0 {
        a == b
    } else if kind == 1 {
        a != b
    } else if kind == 2 {
        a < b
    } else if kind == 3 {
        a >= b
    } else if kind == 4 {
        a > b
    } else {
        a <= b
    }
}

/// What instruction `m` at `pc` does to a frame of `int` values.
pub open spec fn step_spec(m: InstructionModel, pc: int, locals: Seq<i32>, stack: Seq<i32>) -> StepModel {
    let op = m.opcode;
    let n = stack.len();
    if op == 0x00 {
        StepModel::Next { pc: pc + 1, locals, stack }
    } else if 0x02 <= op <= 0x08 {
        push_next(pc, locals, stack, op - 3)
    } else if op == 0x10 {
        match m.operands {
            OperandsModel::SignedByte(v) => push_next(pc, locals, stack, v),
            _ => StepModel::Fault,
        }
    } else if op == 0x11 {
        match m.operands {
            OperandsModel::SignedShort(v) => push_next(pc, locals, stack, v),
            _ => StepModel::Fault,
        }
    } else if op == 0x15 || (0x1a <= op <= 0x1d) {
        let i = if op == 0x15 {
            match m.operands {
                OperandsModel::Byte(i) => i,
                _ => -1,
            }
        } else {
            op - 0x1a
        };
        if 0 <= i < locals.len() {
            push_next(pc, locals, stack, locals[i] as int)
        } else {
            StepModel::Fault
        }
    } else if op == 0x36 || (0x3b <= op <= 0x3e) {
        let i = if op == 0x36 {
            match m.operands {
                OperandsModel::Byte(i) => i,
                _ => -1,
            }
        } else {
            op - 0x3b
        };
        if 0 <= i < locals.len() && n >= 1 {
            StepModel::Next { pc: pc + 1, locals: locals.update(i, stack[n - 1]), stack: stack.drop_last() }
        } else {
            StepModel::Fault
        }
    } else if op == 0x60 || op == 0x64 || op == 0x6c || op == 0x70 {
        if n >= 2 {
            let a = stack[n - 2] as int;
            let b = stack[n - 1] as int;
            let rest = stack.subrange(0, n - 2);
            if op == 0x60 {
                push_next(pc, locals, rest, wrap32(a + b))
            } else if op == 0x64 {
                push_next(pc, locals, rest, wrap32(a - b))
            } else if b == 0 {
                StepModel::Threw {
                    class_name: "java/lang/ArithmeticException"@,
                    message: "/ by zero"@,
                }
            } else if op == 0x6c {
                push_next(pc, locals, rest, wrap32(trunc_div(a, b)))
            } else {
                push_next(pc, locals, rest, a - b * trunc_div(a, b))
            }
        } else {
            StepModel::Fault
        }
    } else if op == 0x74 {
        if n >= 1 {
            push_next(pc, locals, stack.drop_last(), wrap32(-(stack[n - 1] as int)))
        } else {
            StepModel::Fault
        }
    } else if op == 0x84 {
        match m.operands {
            OperandsModel::Increment { index, constant } => if 0 <= index < locals.len() {
                StepModel::Next {
                    pc: pc + 1,
                    locals: locals.update(index, wrap32(locals[index] + constant) as i32),
                    stack,
                }
            } else {
                StepModel::Fault
            },
            _ => StepModel::Fault,
        }
    } else if 0x99 <= op <= 0x9e {
        match m.operands {
            OperandsModel::Branch(t) => if n >= 1 {
                StepModel::Next {
                    pc: if compare(op - 0x99, stack[n - 1] as int, 0) { pc + t } else { pc + 1 },
                    locals,
                    stack: stack.drop_last(),
                }
            } else {
                StepModel::Fault
            },
            _ => StepModel::Fault,
        }
    } else if 0x9f <= op <= 0xa4 {
        match m.operands {
            OperandsModel::Branch(t) => if n >= 2 {
                StepModel::Next {
                    pc: if compare(op - 0x9f, stack[n - 2] as int, stack[n - 1] as int) {
                        pc + t
                    } else {
                        pc + 1
                    },
                    locals,
                    stack: stack.subrange(0, n - 2),
                }
            } else {
                StepModel::Fault
            },
            _ => StepModel::Fault,
        }
    } else if op == 0xa7 {
        match m.operands {
            OperandsModel::Branch(t) => StepModel::Next { pc: pc + t, locals, stack },
            _ => StepModel::Fault,
        }
    } else if op == 0xac {
        if n >= 1 {
            StepModel::Returned(Some(stack[n - 1]))
        } else {
            StepModel::Fault
        }
    } else if op == 0xb1 {
        StepModel::Returned(None)
    } else {
        StepModel::Fault
    }
}

/// A frame of a method over `int` values: the index of the next instruction, the
/// local variables and the operand stack.
#[derive(Debug, Clone, PartialEq, Eq)]
pub struct Frame {
    pub pc: usize,
    pub locals: Vec<i32>,
    pub stack: Vec<i32>,
}

/// What executing one instruction did.
#[derive(Debug, Clone)]
pub enum Step {
    Continue,
    Returned(Option<i32>),
    Threw(JavaError),
}

/// `step` did what `step_spec` says, given the frame before and after.
pub open spec fn step_post(
    code: Seq<Instruction>,
    before: Frame,
    after: Frame,
    r: Result<Step, Error>,
) -> bool {
    match step_spec(code[before.pc as int]@, before.pc as int, before.locals@, before.stack@) {
        StepModel::Next { pc, locals, stack } => if 0 <= pc < code.len() {
            r matches Ok(Step::Continue) && after.pc == pc && after.locals@ == locals
                && after.stack@ == stack
        } else {
            r is Err
        },
        StepModel::Returned(v) => r matches Ok(Step::Returned(w)) && w == v,
        StepModel::Threw { class_name, message } => r matches Ok(Step::Threw(e))
            && e.spec_class_name() == class_name && e.spec_message() == message,
        StepModel::Fault => r is Err,
    }
}

fn fault() -> Error {
    Error::InvalidOperand {
        expected: String::from_str("an int instruction with its operands"),
        actual: String::from_str("another instruction"),
    }
}

/// Moves to instruction `target` where it is one of the code.
fn jump(frame: &mut Frame, target: i64, len: usize) -> (r: Result<Step, Error>)
    requires
        len < 0x8000_0000,
    ensures
        0 <= target < len ==> (r matches Ok(Step::Continue) && final(frame).pc == target
            && final(frame).locals == old(frame).locals && final(frame).stack == old(frame).stack),
        !(0 <= target < len) ==> r is Err,
{
    if target < 0 || target >= len as i64 {
        return Err(fault());
    }
    frame.pc = target as usize;
    Ok(Step::Continue)
}

/// Executes the instruction at `frame.pc`.
pub fn step(code: &Vec<Instruction>, frame: &mut Frame) -> (r: Result<Step, Error>)
    requires
        old(frame).pc < code@.len(),
        code@.len() < 0x8000_0000,
    ensures
        step_post(code@, *old(frame), *final(frame), r),
{
    let pc = frame.pc;
    let len = code.len();
    let instruction = &code[pc];
    let op = instruction.opcode;
    let n = frame.stack.len();
    let next = pc as i64 + 1;
    if op == 0x00 {
        jump(frame, next, len)
    } else if 0x02 <= op && op <= 0x08 {
        frame.stack.push(op as i32 - 3);
        jump(frame, next, len)
    } else if op == 0x10 || op == 0x11 {
        match instruction.operands {
            Operands::SignedByte(v) => {
                if op != 0x10 {
                    return Err(fault());
                }
                frame.stack.push(v as i32);
                jump(frame, next, len)
            },
            Operands::SignedShort(v) => {
                if op != 0x11 {
                    return Err(fault());
                }
                frame.stack.push(v as i32);
                jump(frame, next, len)
            },
            _ => Err(fault()),
        }
    } else if op == 0x15 || (0x1a <= op && op <= 0x1d) {
        let i: usize = if op == 0x15 {
            match instruction.operands {
                Operands::Byte(i) => i as usize,
                _ => {
                    return Err(fault());
                },
            }
        } else {
            (op - 0x1a) as usize
        };
        if i >= frame.locals.len() {
            return Err(fault());
        }
        let v = frame.locals[i];
        frame.stack.push(v);
        jump(frame, next, len)
    } else if op == 0x36 || (0x3b <= op && op <= 0x3e) {
        let i: usize = if op == 0x36 {
            match instruction.operands {
                Operands::Byte(i) => i as usize,
                _ => {
                    return Err(fault());
                },
            }
        } else {
            (op - 0x3b) as usize
        };
        if i >= frame.locals.len() || n == 0 {
            return Err(fault());
        }
        let v = frame.stack.pop().unwrap();
        frame.locals.set(i, v);
        jump(frame, next, len)
    } else if op == 0x60 || op == 0x64 || op == 0x6c || op == 0x70 {
        if n < 2 {
            return Err(fault());
        }
        let b = frame.stack.pop().unwrap();
        let a = frame.stack.pop().unwrap();
        assert(frame.stack@ =~= old(frame).stack@.subrange(0, n - 2));
        let v = if op == 0x60 {
            iadd(a, b)
        } else if op == 0x64 {
            isub(a, b)
        } else if op == 0x6c {
            match idiv(a, b) {
                Ok(q) => q,
                Err(e) => {
                    return Ok(Step::Threw(e));
                },
            }
        } else {
            match irem(a, b) {
                Ok(m) => m,
                Err(e) => {
                    return Ok(Step::Threw(e));
                },
            }
        };
        frame.stack.push(v);
        jump(frame, next, len)
    } else if op == 0x74 {
        if n < 1 {
            return Err(fault());
        }
        let a = frame.stack.pop().unwrap();
        frame.stack.push(ineg(a));
        jump(frame, next, len)
    } else if op == 0x84 {
        match instruction.operands {
            Operands::Increment { index, constant } => {
                if index as usize >= frame.locals.len() {
                    return Err(fault());
                }
                let v = iadd(frame.locals[index as usize], constant as i32);
                frame.locals.set(index as usize, v);
                jump(frame, next, len)
            },
            _ => Err(fault()),
        }
    } else if (0x99 <= op && op <= 0xa4) || op == 0xa7 {
        let t = match instruction.operands {
            Operands::Branch(t) => t,
            _ => {
                return Err(fault());
            },
        };
        let target = pc as i64 + t as i64;
        if op == 0xa7 {
            return jump(frame, target, len);
        }
        let taken = if op <= 0x9e {
            if n < 1 {
                return Err(fault());
            }
            let v = frame.stack.pop().unwrap();
            let kind = op - 0x99;
            if kind == 0 {
                v == 0
            } else if kind == 1 {
                v != 0
            } else if kind == 2 {
                v < 0
            } else if kind == 3 {
                v >= 0
            } else if kind == 4 {
                v > 0
            } else {
                v <= 0
            }
        } else {
            if n < 2 {
                return Err(fault());
            }
            let b = frame.stack.pop().unwrap();
            let a = frame.stack.pop().unwrap();
            assert(frame.stack@ =~= old(frame).stack@.subrange(0, n - 2));
            let kind = op - 0x9f;
            if kind == 0 {
                a == b
            } else if kind == 1 {
                a != b
            } else if kind == 2 {
                a < b
            } else if kind == 3 {
                a >= b
            } else if kind == 4 {
                a > b
            } else {
                a <= b
            }
        };
        jump(frame, if taken { target } else { next }, len)
    } else if op == 0xac {
        if n < 1 {
            return Err(fault());
        }
        Ok(Step::Returned(Some(frame.stack[n - 1])))
    } else if op == 0xb1 {
        Ok(Step::Returned(None))
    } else {
        Err(fault())
    }
}

/// How executing a method from some frame ends, within a number of steps.
pub enum RunModel {
    Returned(Option<i32>),
    Threw { class_name: Seq<char>, message: Seq<char> },
    /// An instruction outside the supported set, a branch out of the code, or no end
    /// within the steps allowed.
    Stuck,
}

/// Executing `code` from instruction `pc` with these locals and this stack, for at most
/// `fuel` instructions.
pub open spec fn run_spec(code: Seq<Instruction>, pc: int, locals: Seq<i32>, stack: Seq<i32>, fuel: nat) -> RunModel
    decreases fuel,
{
    if fuel == 0 || !(0 <= pc < code.len()) {
        RunModel::Stuck
    } else {
        match step_spec(code[pc]@, pc, locals, stack) {
            StepModel::Next { pc: p, locals: l, stack: t } => if 0 <= p < code.len() {
                run_spec(code, p, l, t, (fuel - 1) as nat)
            } else {
                RunModel::Stuck
            },
            StepModel::Returned(v) => RunModel::Returned(v),
            StepModel::Threw { class_name, message } => RunModel::Threw { class_name, message },
            StepModel::Fault => RunModel::Stuck,
        }
    }
}

/// The locals of a new frame: the arguments, then zeros up to `max_locals`.
pub open spec fn initial_locals(arguments: Seq<i32>, max_locals: int) -> Seq<i32> {
    arguments + Seq::new((max_locals - arguments.len()) as nat, |_i: int| 0i32)
}

/// How a method invocation ended.
#[derive(Debug, Clone)]
pub enum Completion {
    Returned(Option<i32>),
    /// An exception that no handler of the frame caught, surfaced to the caller.
    Threw(JavaError),
}

/// Executes `code` with `arguments` in the first local variables of a frame of
/// `max_locals` locals, for at most `fuel` instructions.
pub fn execute(code: &Vec<Instruction>, arguments: &Vec<i32>, max_locals: usize, fuel: usize) -> (r: Result<
    Completion,
    Error,
>)
    requires
        code@.len() < 0x8000_0000,
    ensures
        arguments@.len() > max_locals ==> r is Err,
        arguments@.len() <= max_locals ==> match run_spec(
            code@,
            0,
            initial_locals(arguments@, max_locals as int),
            seq![],
            fuel as nat,
        ) {
            RunModel::Returned(v) => r matches Ok(Completion::Returned(w)) && w == v,
            RunModel::Threw { class_name, message } => r matches Ok(Completion::Threw(e))
                && e.spec_class_name() == class_name && e.spec_message() == message,
            RunModel::Stuck => r is Err,
        },
{
    if arguments.len() > max_locals {
        return Err(fault());
    }
    let mut locals: Vec<i32> = Vec::new();
    let mut i: usize = 0;
    while i < max_locals
        invariant
            i <= max_locals,
            arguments@.len() <= max_locals,
            locals@.len() == i,
            forall|j: int| 0 <= j < i ==> locals@[j] == initial_locals(arguments@, max_locals as int)[j],
        decreases max_locals - i,
    {
        if i < arguments.len() {
            locals.push(arguments[i]);
        } else {
            locals.push(0);
        }
        i = i + 1;
    }
    assert(locals@ =~= initial_locals(arguments@, max_locals as int));
    if code.len() == 0 {
        return Err(fault());
    }
    let ghost goal = run_spec(code@, 0, locals@, seq![], fuel as nat);
    let mut frame = Frame { pc: 0, locals, stack: Vec::new() };
    assert(frame.stack@ =~= Seq::<i32>::empty());
    let mut remaining: usize = fuel;
    while remaining > 0
        invariant
            code@.len() < 0x8000_0000,
            arguments@.len() <= max_locals,
            goal == run_spec(code@, 0, initial_locals(arguments@, max_locals as int), seq![], fuel as nat),
            frame.pc < code@.len(),
            goal == run_spec(code@, frame.pc as int, frame.locals@, frame.stack@, remaining as nat),
        decreases remaining,
    {
        match step(code, &mut frame) {
            Ok(Step::Continue) => {},
            Ok(Step::Returned(v)) => {
                return Ok(Completion::Returned(v));
            },
            Ok(Step::Threw(e)) => {
                return Ok(Completion::Threw(e));
            },
            Err(e) => {
                return Err(e);
            },
        }
        remaining = remaining - 1;
    }
    Err(Error::InternalError(String::from_str("the step limit was reached")))
}

/// The `float` with IEEE 754 bits `bits` is NaN: all exponent bits set and a nonzero
/// fraction.
pub open spec fn float_is_nan(bits: u32) -> bool {
    (bits / 0x80_0000) % 0x100 == 0xff && bits % 0x80_0000 != 0
}

/// A key that orders non-NaN `float`s by value: the magnitude, negated for a negative
/// sign; both zeros get 0.
pub open spec fn float_key(bits: u32) -> int {
    if bits >= 0x8000_0000 {
        -((bits - 0x8000_0000) as int)
    } else {
        bits as int
    }
}

/// The `double` with IEEE 754 bits `bits` is NaN.
pub open spec fn double_is_nan(bits: u64) -> bool {
    (bits / 0x10_0000_0000_0000) % 0x800 == 0x7ff && bits % 0x10_0000_0000_0000 != 0
}

/// A key that orders non-NaN `double`s by value.
pub open spec fn double_key(bits: u64) -> int {
    if bits >= 0x8000_0000_0000_0000 {
        -((bits - 0x8000_0000_0000_0000) as int)
    } else {
        bits as int
    }
}

/// -1, 0 or 1 as `a` is below, equal to or above `b`.
pub open spec fn three_way(a: int, b: int) -> int {
    if a < b {
        -1
    } else if a == b {
        0
    } else {
        1
    }
}

/// `fcmpl` (`nan_result` -1) and `fcmpg` (`nan_result` 1) on the bits of two `float`s:
/// `nan_result` where either is NaN, else how `a` compares with `b`.
pub fn fcmp(a: u32, b: u32, nan_result: i32) -> (r: i32)
    ensures
        float_is_nan(a) || float_is_nan(b) ==> r == nan_result,
        !float_is_nan(a) && !float_is_nan(b) ==> r as int == three_way(float_key(a), float_key(b)),
{
    let a_nan = (a / 0x80_0000) % 0x100 == 0xff && a % 0x80_0000 != 0;
    let b_nan = (b / 0x80_0000) % 0x100 == 0xff && b % 0x80_0000 != 0;
    if a_nan || b_nan {
        return nan_result;
    }
    let ka: i64 = if a >= 0x8000_0000 { -((a - 0x8000_0000) as i64) } else { a as i64 };
    let kb: i64 = if b >= 0x8000_0000 { -((b - 0x8000_0000) as i64) } else { b as i64 };
    if ka < kb {
        -1
    } else if ka == kb {
        0
    } else {
        1
    }
}

/// `dcmpl` (`nan_result` -1) and `dcmpg` (`nan_result` 1) on the bits of two `double`s.
pub fn dcmp(a: u64, b: u64, nan_result: i32) -> (r: i32)
    ensures
        double_is_nan(a) || double_is_nan(b) ==> r == nan_result,
        !double_is_nan(a) && !double_is_nan(b) ==> r as int == three_way(double_key(a), double_key(b)),
{
    let a_nan = (a / 0x10_0000_0000_0000) % 0x800 == 0x7ff && a % 0x10_0000_0000_0000 != 0;
    let b_nan = (b / 0x10_0000_0000_0000) % 0x800 == 0x7ff && b % 0x10_0000_0000_0000 != 0;
    if a_nan || b_nan {
        return nan_result;
    }
    let ka: i128 = if a >= 0x8000_0000_0000_0000 {
        -((a - 0x8000_0000_0000_0000) as i128)
    } else {
        a as i128
    };
    let kb: i128 = if b >= 0x8000_0000_0000_0000 {
        -((b - 0x8000_0000_0000_0000) as i128)
    } else {
        b as i128
    };
    if ka < kb {
        -1
    } else if ka == kb {
        0
    } else {
        1
    }
}

} // verus!
