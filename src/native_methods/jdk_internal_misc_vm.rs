//! The native methods of `jdk.internal.misc.VM`.

use crate::native_methods::{entry, MethodRegistry, NativeMethod};
use vstd::prelude::*;

verus! {

/// The native methods of `jdk.internal.misc.VM` registered for the release with class-file major
/// version `java_version`, in order.
pub open spec fn natives(java_version: u16) -> Seq<NativeMethod> {
    seq![
        entry("jdk/internal/misc/VM", "initialize", "()V", "initialize"),
    ]
}

/// Register all native methods for jdk.internal.misc.VM.
pub fn register(registry: &mut MethodRegistry)
    ensures
        final(registry).java_version() == old(registry).java_version(),
        final(registry).methods() == old(registry).methods() + natives(old(registry).java_version()),
{
    let class_name = "jdk/internal/misc/VM";
    registry.register(class_name, "initialize", "()V", "initialize");
    assert(registry.methods() =~= old(registry).methods() + natives(old(registry).java_version()));
}

} // verus!
