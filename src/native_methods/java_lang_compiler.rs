//! The native methods of `java.lang.Compiler`.

use crate::native_methods::{entry, MethodRegistry, NativeMethod};
use vstd::prelude::*;

verus! {

/// The native methods of `java.lang.Compiler` registered for the release with class-file major
/// version `java_version`, in order.
pub open spec fn natives(java_version: u16) -> Seq<NativeMethod> {
    seq![
        entry("java/lang/Compiler", "command", "(Ljava/lang/Object;)Ljava/lang/Object;", "command"),
        entry("java/lang/Compiler", "compileClass", "(Ljava/lang/Class;)Z", "compile_class"),
        entry("java/lang/Compiler", "compileClasses", "(Ljava/lang/String;)Z", "compile_classes"),
        entry("java/lang/Compiler", "disable", "()V", "disable"),
        entry("java/lang/Compiler", "enable", "()V", "enable"),
        entry("java/lang/Compiler", "initialize", "()V", "initialize"),
        entry("java/lang/Compiler", "registerNatives", "()V", "register_natives"),
    ]
}

/// Register all native methods for `java.lang.Compiler`.
pub fn register(registry: &mut MethodRegistry)
    ensures
        final(registry).java_version() == old(registry).java_version(),
        final(registry).methods() == old(registry).methods() + natives(old(registry).java_version()),
{
    let class_name = "java/lang/Compiler";
    registry.register(class_name, "command", "(Ljava/lang/Object;)Ljava/lang/Object;", "command");
    registry.register(class_name, "compileClass", "(Ljava/lang/Class;)Z", "compile_class");
    registry.register(class_name, "compileClasses", "(Ljava/lang/String;)Z", "compile_classes");
    registry.register(class_name, "disable", "()V", "disable");
    registry.register(class_name, "enable", "()V", "enable");
    registry.register(class_name, "initialize", "()V", "initialize");
    registry.register(class_name, "registerNatives", "()V", "register_natives");
    assert(registry.methods() =~= old(registry).methods() + natives(old(registry).java_version()));
}

} // verus!
