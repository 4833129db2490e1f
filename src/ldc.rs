//! Loading constants onto the operand stack: `ldc`, `ldc_w` and `ldc2_w`.

use crate::constant_pool::{constant_debug, debug_text, modified_utf8, Constant, ConstantModel, ConstantPool};
use crate::error::Error;
use vstd::prelude::*;
use vstd::string::StringExecFns;

verus! {

/// What a constant-loading instruction pushes. `Float` and `Double` hold IEEE 754 bits;
/// `String` and `Class` name the string or class whose object the virtual machine pushes;
/// `MethodHandle`, `MethodType` and `Dynamic` carry what the virtual machine resolves the
/// constant from: the handle's kind and member reference, the method descriptor, and the
/// bootstrap method and name-and-type of the dynamic constant.
#[derive(Debug, Clone, PartialEq, Eq)]
pub enum LoadedConstant {
    Int(i32),
    Float(u32),
    Long(i64),
    Double(u64),
    String(String),
    Class(String),
    MethodHandle { reference_kind: u8, reference_index: u16 },
    MethodType(String),
    Dynamic { bootstrap_method_attr_index: u16, name_and_type_index: u16 },
}

/// The constant at `index`, where there is one.
pub open spec fn constant_at(pool: ConstantPool, index: u16) -> Option<Constant> {
    if 1 <= index <= pool.slots@.len() {
        match pool.slots@[index - 1] {
            crate::constant_pool::Slot::Entry(c) => Some(c),
            crate::constant_pool::Slot::Unusable => None,
        }
    } else {
        None
    }
}

/// The constant at `index` is `Utf8` and holds the modified UTF-8 form of some text.
pub open spec fn has_text(pool: ConstantPool, index: u16) -> bool {
    constant_at(pool, index) matches Some(Constant::Utf8(b)) && exists|t: Seq<char>|
        b@ == #[trigger] modified_utf8(t)
}

/// The constant at `index` is the `Utf8` constant of `text`.
pub open spec fn is_text(pool: ConstantPool, index: u16, text: Seq<char>) -> bool {
    constant_at(pool, index) matches Some(Constant::Utf8(b)) && modified_utf8(text) == b@
}

proof fn lemma_text(pool: ConstantPool, u: u16)
    ensures
        crate::constant_pool::holds_text(pool@, u as int) <==> has_text(pool, u),
        forall|t: Seq<char>|
            (1 <= u <= pool@.len() && pool@[u - 1] == Some(
                ConstantModel { tag: 1, payload: modified_utf8(t) },
            )) <==> #[trigger] is_text(pool, u, t),
{
    if 1 <= u <= pool@.len() {
        assert(pool@[u - 1] == crate::constant_pool::slot_model(pool.slots@[u - 1]));
    }
}

/// What an instruction that loads a constant gives where the constant at `index` is none
/// it loads: `InvalidConstant`, naming what it loads and giving the constant that was
/// there in its debug form.
pub open spec fn wrong_kind(pool: ConstantPool, index: u16, expected: Seq<char>, r: Result<LoadedConstant, Error>) -> bool {
    r matches Err(Error::InvalidConstant { expected: e, actual: a }) && e@ == expected
        && a@ == debug_text(constant_at(pool, index)->0)
}

/// `ldc2_w`: the `Long` or `Double` constant at `index`.
pub fn ldc2_w(pool: &ConstantPool, index: u16) -> (r: Result<LoadedConstant, Error>)
    ensures
        match constant_at(*pool, index) {
            Option::None => r matches Err(Error::InvalidConstantIndex(i)) && i == index,
            Option::Some(Constant::Long(v)) => r == Ok::<LoadedConstant, Error>(LoadedConstant::Long(v)),
            Option::Some(Constant::Double(v)) => r == Ok::<LoadedConstant, Error>(LoadedConstant::Double(v)),
            Option::Some(_) => wrong_kind(*pool, index, "long|double"@, r),
        },
{
    if index == 0 || index as usize > pool.slots.len() {
        return Err(Error::InvalidConstantIndex(index));
    }
    match &pool.slots[index as usize - 1] {
        crate::constant_pool::Slot::Unusable => Err(Error::InvalidConstantIndex(index)),
        crate::constant_pool::Slot::Entry(c) => match c {
            Constant::Long(v) => Ok(LoadedConstant::Long(*v)),
            Constant::Double(v) => Ok(LoadedConstant::Double(*v)),
            _ => Err(
                Error::InvalidConstant {
                    expected: String::from_str("long|double"),
                    actual: constant_debug(c),
                },
            ),
        },
    }
}

/// The text loaded through a reference to slot `u`: the constant there, decoded.
pub open spec fn text_post(pool: ConstantPool, u: u16, r: Result<LoadedConstant, Error>, make: spec_fn(String) -> LoadedConstant) -> bool {
    &&& r is Ok <==> has_text(pool, u)
    &&& r matches Ok(v) ==> exists|s: String| v == make(s) && is_text(pool, u, s@)
    &&& constant_at(pool, u) is None ==> (r matches Err(Error::InvalidConstantIndex(i)) && i == u)
    &&& constant_at(pool, u) is Some && !has_text(pool, u) ==> r matches Err(
        Error::InvalidConstant { .. },
    )
}

/// What `ldc` and `ldc_w` give for the constant at `index`.
pub open spec fn load_constant_post(pool: ConstantPool, index: u16, r: Result<LoadedConstant, Error>) -> bool {
    match constant_at(pool, index) {
        Option::None => r matches Err(Error::InvalidConstantIndex(i)) && i == index,
        Option::Some(Constant::Integer(v)) => r == Ok::<LoadedConstant, Error>(LoadedConstant::Int(v)),
        Option::Some(Constant::Float(v)) => r == Ok::<LoadedConstant, Error>(LoadedConstant::Float(v)),
        Option::Some(Constant::String(u)) => text_post(pool, u, r, |s: String| LoadedConstant::String(s)),
        Option::Some(Constant::Class(u)) => text_post(pool, u, r, |s: String| LoadedConstant::Class(s)),
        Option::Some(Constant::MethodType(u)) => text_post(pool, u, r, |s: String| LoadedConstant::MethodType(s)),
        Option::Some(Constant::MethodHandle { reference_kind, reference_index }) => r == Ok::<
            LoadedConstant,
            Error,
        >(LoadedConstant::MethodHandle { reference_kind, reference_index }),
        Option::Some(Constant::Dynamic { bootstrap_method_attr_index, name_and_type_index }) => r
            == Ok::<LoadedConstant, Error>(
            LoadedConstant::Dynamic { bootstrap_method_attr_index, name_and_type_index },
        ),
        Option::Some(_) => wrong_kind(pool, index, "integer|float|string|class|methodhandle|methodtype|dynamic"@, r),
    }
}

/// The text of the `Utf8` constant at `u`.
fn text_at(pool: &ConstantPool, u: u16) -> (r: Result<String, Error>)
    ensures
        r is Ok <==> has_text(*pool, u),
        r matches Ok(s) ==> is_text(*pool, u, s@),
        constant_at(*pool, u) is None ==> (r matches Err(Error::InvalidConstantIndex(i)) && i == u),
        constant_at(*pool, u) is Some && !has_text(*pool, u) ==> r matches Err(
            Error::InvalidConstant { .. },
        ),
{
    proof {
        lemma_text(*pool, u);
        if 1 <= u <= pool@.len() {
            assert(pool@[u - 1] == crate::constant_pool::slot_model(pool.slots@[u - 1]));
        }
    }
    pool.try_get_utf8(u)
}

/// `ldc` and `ldc_w`: the `Integer`, `Float`, `String`, `Class`, `MethodHandle`,
/// `MethodType` or `Dynamic` constant at `index`; a `String`, `Class` or `MethodType`
/// constant gives the text of the `Utf8` constant it names.
pub fn load_constant(pool: &ConstantPool, index: u16) -> (r: Result<LoadedConstant, Error>)
    ensures
        load_constant_post(*pool, index, r),
{
    if index == 0 || index as usize > pool.slots.len() {
        return Err(Error::InvalidConstantIndex(index));
    }
    match &pool.slots[index as usize - 1] {
        crate::constant_pool::Slot::Unusable => Err(Error::InvalidConstantIndex(index)),
        crate::constant_pool::Slot::Entry(c) => match c {
            Constant::Integer(v) => Ok(LoadedConstant::Int(*v)),
            Constant::Float(v) => Ok(LoadedConstant::Float(*v)),
            Constant::String(u) => {
                let s = text_at(pool, *u)?;
                let r = LoadedConstant::String(s);
                assert(r == (|s: String| LoadedConstant::String(s))(s));
                Ok(r)
            },
            Constant::Class(u) => {
                let s = text_at(pool, *u)?;
                let r = LoadedConstant::Class(s);
                assert(r == (|s: String| LoadedConstant::Class(s))(s));
                Ok(r)
            },
            Constant::MethodType(u) => {
                let s = text_at(pool, *u)?;
                let r = LoadedConstant::MethodType(s);
                assert(r == (|s: String| LoadedConstant::MethodType(s))(s));
                Ok(r)
            },
            Constant::MethodHandle { reference_kind, reference_index } => Ok(
                LoadedConstant::MethodHandle {
                    reference_kind: *reference_kind,
                    reference_index: *reference_index,
                },
            ),
            Constant::Dynamic { bootstrap_method_attr_index, name_and_type_index } => Ok(
                LoadedConstant::Dynamic {
                    bootstrap_method_attr_index: *bootstrap_method_attr_index,
                    name_and_type_index: *name_and_type_index,
                },
            ),
            _ => Err(
                Error::InvalidConstant {
                    expected: String::from_str("integer|float|string|class|methodhandle|methodtype|dynamic"),
                    actual: constant_debug(c),
                },
            ),
        },
    }
}

/// `ldc`: the constant at the one-byte `index`.
pub fn ldc(pool: &ConstantPool, index: u8) -> (r: Result<LoadedConstant, Error>)
    ensures
        load_constant_post(*pool, index as u16, r),
{
    load_constant(pool, index as u16)
}

/// `ldc_w`: the constant at the two-byte `index`.
pub fn ldc_w(pool: &ConstantPool, index: u16) -> (r: Result<LoadedConstant, Error>)
    ensures
        load_constant_post(*pool, index, r),
{
    load_constant(pool, index)
}

} // verus!
