//! The native methods of `sun.reflect.Reflection`.

use crate::native_methods::{entry, MethodRegistry, NativeMethod};
use vstd::prelude::*;

verus! {

/// The native methods of `sun.reflect.Reflection` registered for the release with class-file major
/// version `java_version`, in order.
pub open spec fn natives(java_version: u16) -> Seq<NativeMethod> {
    seq![
        entry("sun/reflect/Reflection", "getCallerClass", "()Ljava/lang/Class;", "get_caller_class_1"),
        entry("sun/reflect/Reflection", "getCallerClass", "(I)Ljava/lang/Class;", "get_caller_class_2"),
        entry("sun/reflect/Reflection", "getClassAccessFlags", "(Ljava/lang/Class;)I", "get_class_access_flags"),
    ]
}

/// Register all native methods for `sun.reflect.Reflection`.
pub fn register(registry: &mut MethodRegistry)
    ensures
        final(registry).java_version() == old(registry).java_version(),
        final(registry).methods() == old(registry).methods() + natives(old(registry).java_version()),
{
    let class_name = "sun/reflect/Reflection";
    registry.register(class_name, "getCallerClass", "()Ljava/lang/Class;", "get_caller_class_1");
    registry.register(class_name, "getCallerClass", "(I)Ljava/lang/Class;", "get_caller_class_2");
    registry.register(class_name, "getClassAccessFlags", "(Ljava/lang/Class;)I", "get_class_access_flags");
    assert(registry.methods() =~= old(registry).methods() + natives(old(registry).java_version()));
}

} // verus!
