//! The native methods of `java.lang.ClassLoader`.

use crate::native_methods::{entry, MethodRegistry, NativeMethod};
use vstd::prelude::*;

verus! {

/// The native methods of `java.lang.ClassLoader` registered for the release with class-file major
/// version `java_version`, in order.
pub open spec fn natives(java_version: u16) -> Seq<NativeMethod> {
    seq![
        entry("java/lang/ClassLoader", "registerNatives", "()V", "register_natives"),
    ]
}

/// Register all native methods for java.lang.ClassLoader.
pub fn register(registry: &mut MethodRegistry)
    ensures
        final(registry).java_version() == old(registry).java_version(),
        final(registry).methods() == old(registry).methods() + natives(old(registry).java_version()),
{
    let class_name = "java/lang/ClassLoader";
    registry.register(class_name, "registerNatives", "()V", "register_natives");
    assert(registry.methods() =~= old(registry).methods() + natives(old(registry).java_version()));
}

} // verus!
