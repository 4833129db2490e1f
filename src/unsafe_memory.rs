//! The field and array access of `jdk.internal.misc.Unsafe`: reads and compare-and-set
//! on object fields and reference array slots, addressed by offset.
//!
//! Objects live in an arena and are referred to by handle; an object's fields are
//! addressed by their slot in the class's field layout, an array's elements by index.

use crate::error::Error;
use vstd::prelude::*;
use vstd::string::StringExecFns;

verus! {

/// A Java value. `Float` and `Double` hold IEEE 754 bits; `Object` holds an arena
/// handle, or `None` for `null`.
#[derive(Debug, Clone, Copy, PartialEq, Eq, Structural)]
pub enum Value {
    Int(i32),
    Long(i64),
    Float(u32),
    Double(u64),
    Object(Option<usize>),
}

/// The primitive types a typed `Unsafe` read names.
#[derive(Debug, Clone, Copy, PartialEq, Eq, Structural)]
pub enum BaseType {
    Boolean,
    Byte,
    Char,
    Double,
    Float,
    Int,
    Long,
    Short,
}

/// What an `Unsafe` access reaches: an object's fields by slot, or a reference array's
/// elements.
#[derive(Debug, Clone, PartialEq, Eq)]
pub enum Storage {
    Fields(Vec<Value>),
    References(Vec<Option<usize>>),
}

fn invalid(what: &str) -> Error {
    Error::InternalError(String::from_str(what))
}

/// The value at `offset` of `target`; with no target (a `null` base) a typed read of an
/// integral type gives the offset itself, as the offset then is an absolute address.
pub fn get_reference_type(target: Option<&Storage>, offset: i64, base_type: Option<BaseType>) -> (r: Result<Value, Error>)
    ensures
        match target {
            Option::None => match base_type {
                Option::Some(BaseType::Long) => r == Ok::<Value, Error>(Value::Long(offset)),
                Option::Some(BaseType::Boolean) | Option::Some(BaseType::Byte) | Option::Some(
                    BaseType::Char,
                ) | Option::Some(BaseType::Int) | Option::Some(BaseType::Short) => if i32::MIN
                    <= offset <= i32::MAX {
                    r == Ok::<Value, Error>(Value::Int(offset as i32))
                } else {
                    r is Err
                },
                _ => r is Err,
            },
            Option::Some(Storage::Fields(fields)) => if 0 <= offset < fields@.len() {
                r == Ok::<Value, Error>(fields@[offset as int])
            } else {
                r is Err
            },
            Option::Some(Storage::References(elements)) => if 0 <= offset < elements@.len() {
                r == Ok::<Value, Error>(Value::Object(elements@[offset as int]))
            } else {
                r is Err
            },
        },
{
    match target {
        Option::None => match base_type {
            Option::Some(BaseType::Long) => Ok(Value::Long(offset)),
            Option::Some(BaseType::Boolean) | Option::Some(BaseType::Byte) | Option::Some(
                BaseType::Char,
            ) | Option::Some(BaseType::Int) | Option::Some(BaseType::Short) => {
                if offset < i32::MIN as i64 || offset > i32::MAX as i64 {
                    return Err(invalid("getReferenceType: offset out of range"));
                }
                Ok(Value::Int(offset as i32))
            },
            _ => Err(invalid("getReferenceType: Invalid reference")),
        },
        Option::Some(Storage::Fields(fields)) => {
            if offset < 0 || offset as u64 >= fields.len() as u64 {
                return Err(invalid("getReferenceType: Invalid field offset"));
            }
            Ok(fields[offset as usize])
        },
        Option::Some(Storage::References(elements)) => {
            if offset < 0 || offset as u64 >= elements.len() as u64 {
                return Err(invalid("getReferenceType: Invalid reference index"));
            }
            Ok(Value::Object(elements[offset as usize]))
        },
    }
}

/// Compare-and-set on slot `offset`: where it holds `expected`, it then holds `x` and the
/// result is `true`; else nothing changes and the result is `false`. Values compare as
/// Java's `==` does on the slot's type: integers by value, references by identity.
pub fn compare_and_set(target: &mut Storage, offset: i64, expected: Value, x: Value) -> (r: Result<bool, Error>)
    ensures
        match *old(target) {
            Storage::Fields(fields) => if 0 <= offset < fields@.len() {
                if fields@[offset as int] == expected {
                    r == Ok::<bool, Error>(true) && (*final(target) matches Storage::Fields(f)
                        && f@ == fields@.update(offset as int, x))
                } else {
                    r == Ok::<bool, Error>(false) && *final(target) == *old(target)
                }
            } else {
                r is Err && *final(target) == *old(target)
            },
            Storage::References(elements) => if 0 <= offset < elements@.len() {
                match (expected, x) {
                    (Value::Object(e), Value::Object(n)) => if elements@[offset as int] == e {
                        r == Ok::<bool, Error>(true) && (*final(target) matches Storage::References(
                            f,
                        ) && f@ == elements@.update(offset as int, n))
                    } else {
                        r == Ok::<bool, Error>(false) && *final(target) == *old(target)
                    },
                    _ => r is Err && *final(target) == *old(target),
                }
            } else {
                r is Err && *final(target) == *old(target)
            },
        },
{
    match target {
        Storage::Fields(fields) => {
            if offset < 0 || offset as u64 >= fields.len() as u64 {
                return Err(invalid("compareAndSet: Invalid field offset"));
            }
            let i = offset as usize;
            if fields[i] == expected {
                fields.set(i, x);
                Ok(true)
            } else {
                Ok(false)
            }
        },
        Storage::References(elements) => {
            if offset < 0 || offset as u64 >= elements.len() as u64 {
                return Err(invalid("compareAndSet: Invalid reference index"));
            }
            let i = offset as usize;
            match (expected, x) {
                (Value::Object(e), Value::Object(n)) => {
                    if elements[i] == e {
                        elements.set(i, n);
                        Ok(true)
                    } else {
                        Ok(false)
                    }
                },
                _ => Err(invalid("compareAndSet: Invalid reference")),
            }
        },
    }
}

/// The first slot of `layout` at or after `k` that holds `name`.
pub open spec fn slot_of(layout: Seq<Seq<char>>, name: Seq<char>, k: int) -> Option<int>
    decreases layout.len() - k,
{
    if k < 0 || k >= layout.len() {
        None
    } else if layout[k] == name {
        Some(k)
    } else {
        slot_of(layout, name, k + 1)
    }
}

/// `objectFieldOffset`: the offset of field `name` in a class whose field layout, by
/// slot, is `layout`; an error where the class has no such field.
pub fn object_field_offset(layout: &Vec<String>, name: &str) -> (r: Result<usize, Error>)
    ensures
        match slot_of(layout@.map_values(|s: String| s@), name@, 0) {
            Option::Some(k) => r == Ok::<usize, Error>(k as usize),
            Option::None => r is Err,
        },
{
    let ghost names = layout@.map_values(|s: String| s@);
    let mut k: usize = 0;
    while k < layout.len()
        invariant
            k <= layout@.len(),
            names == layout@.map_values(|s: String| s@),
            slot_of(names, name@, 0) == slot_of(names, name@, k as int),
        decreases layout@.len() - k,
    {
        let field = layout[k].as_str();
        if crate::class_path::starts_with(field, name) && crate::class_path::starts_with(name, field) {
            assert(field@ =~= name@);
            assert(names[k as int] == name@);
            return Ok(k);
        }
        proof {
            if field@ == name@ {
                assert(name@.subrange(0, name@.len() as int) =~= name@);
            }
            assert(names[k as int] == field@);
        }
        k = k + 1;
    }
    Err(invalid("objectFieldOffset: no such field"))
}

} // verus!
