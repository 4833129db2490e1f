//! Host-side failures of the codec, the class loader and the interpreter.

use vstd::prelude::*;

verus! {

/// A failure on the host side, as opposed to a Java exception.
#[derive(Debug, Clone)]
pub enum Error {
    /// The input ended before a complete value could be read.
    Truncated,
    /// An instruction has an unknown opcode, a nonzero reserved byte, or a branch target
    /// that is not the start of an instruction.
    MalformedInstruction,
    /// A constant pool index that names no constant.
    InvalidConstantIndex(u16),
    /// A constant pool entry of another kind than the context requires.
    InvalidConstant { expected: String, actual: String },
    /// An attribute whose declared length disagrees with its contents.
    AttributeLengthMismatch,
    /// No class of this name can be found on the class path.
    ClassNotFound(String),
    /// No method of this name and descriptor exists.
    MethodNotFound { class: String, name: String, descriptor: String },
    /// An operand of an unexpected kind or out of range.
    InvalidOperand { expected: String, actual: String },
    /// A native method with no registered implementation.
    UnsatisfiedLinkError(String),
    /// An internal invariant did not hold.
    InternalError(String),
}

} // verus!
