//! The native methods of `java.lang.StrictMath`.

use crate::native_methods::{entry, MethodRegistry, NativeMethod, JAVA_8};
use vstd::prelude::*;

verus! {

/// The native methods of `java.lang.StrictMath` registered for the release with class-file major
/// version `java_version`, in order.
pub open spec fn natives(java_version: u16) -> Seq<NativeMethod> {
    (if java_version <= JAVA_8 {
        seq![
            entry("java/lang/StrictMath", "cbrt", "(D)D", "cbrt"),
            entry("java/lang/StrictMath", "exp", "(D)D", "exp"),
            entry("java/lang/StrictMath", "hypot", "(DD)D", "hypot"),
            entry("java/lang/StrictMath", "pow", "(DD)D", "pow"),
        ]
    } else {
        Seq::<NativeMethod>::empty()
    }) + seq![
        entry("java/lang/StrictMath", "IEEEremainder", "(DD)D", "iee_eremainder"),
        entry("java/lang/StrictMath", "acos", "(D)D", "acos"),
        entry("java/lang/StrictMath", "asin", "(D)D", "asin"),
        entry("java/lang/StrictMath", "atan", "(D)D", "atan"),
        entry("java/lang/StrictMath", "atan2", "(DD)D", "atan_2"),
        entry("java/lang/StrictMath", "cos", "(D)D", "cos"),
        entry("java/lang/StrictMath", "cosh", "(D)D", "cosh"),
        entry("java/lang/StrictMath", "expm1", "(D)D", "expm_1"),
        entry("java/lang/StrictMath", "log", "(D)D", "log"),
        entry("java/lang/StrictMath", "log10", "(D)D", "log_10"),
        entry("java/lang/StrictMath", "log1p", "(D)D", "log_1_p"),
        entry("java/lang/StrictMath", "sin", "(D)D", "sin"),
        entry("java/lang/StrictMath", "sinh", "(D)D", "sinh"),
        entry("java/lang/StrictMath", "sqrt", "(D)D", "sqrt"),
        entry("java/lang/StrictMath", "tan", "(D)D", "tan"),
        entry("java/lang/StrictMath", "tanh", "(D)D", "tanh"),
    ]
}

/// Register all native methods for `java.lang.StrictMath`.
pub fn register(registry: &mut MethodRegistry)
    ensures
        final(registry).java_version() == old(registry).java_version(),
        final(registry).methods() == old(registry).methods() + natives(old(registry).java_version()),
{
    let class_name = "java/lang/StrictMath";
    let java_version = registry.java_version();

    if java_version <= JAVA_8 {
        registry.register(class_name, "cbrt", "(D)D", "cbrt");
        registry.register(class_name, "exp", "(D)D", "exp");
        registry.register(class_name, "hypot", "(DD)D", "hypot");
        registry.register(class_name, "pow", "(DD)D", "pow");
    }

    registry.register(class_name, "IEEEremainder", "(DD)D", "iee_eremainder");
    registry.register(class_name, "acos", "(D)D", "acos");
    registry.register(class_name, "asin", "(D)D", "asin");
    registry.register(class_name, "atan", "(D)D", "atan");
    registry.register(class_name, "atan2", "(DD)D", "atan_2");
    registry.register(class_name, "cos", "(D)D", "cos");
    registry.register(class_name, "cosh", "(D)D", "cosh");
    registry.register(class_name, "expm1", "(D)D", "expm_1");
    registry.register(class_name, "log", "(D)D", "log");
    registry.register(class_name, "log10", "(D)D", "log_10");
    registry.register(class_name, "log1p", "(D)D", "log_1_p");
    registry.register(class_name, "sin", "(D)D", "sin");
    registry.register(class_name, "sinh", "(D)D", "sinh");
    registry.register(class_name, "sqrt", "(D)D", "sqrt");
    registry.register(class_name, "tan", "(D)D", "tan");
    registry.register(class_name, "tanh", "(D)D", "tanh");
    assert(registry.methods() =~= old(registry).methods() + natives(old(registry).java_version()));
}

} // verus!
