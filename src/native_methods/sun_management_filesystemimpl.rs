//! The native methods of `sun.management.FileSystemImpl`.

use crate::native_methods::{entry, MethodRegistry, NativeMethod};
use vstd::prelude::*;

verus! {

/// The native methods of `sun.management.FileSystemImpl` registered for the release with class-file major
/// version `java_version`, in order.
pub open spec fn natives(java_version: u16) -> Seq<NativeMethod> {
    seq![
        entry("sun/management/FileSystemImpl", "isAccessUserOnly0", "(Ljava/lang/String;)Z", "is_access_user_only_0"),
    ]
}

/// Register all native methods for `sun.management.FileSystemImpl`.
pub fn register(registry: &mut MethodRegistry)
    ensures
        final(registry).java_version() == old(registry).java_version(),
        final(registry).methods() == old(registry).methods() + natives(old(registry).java_version()),
{
    let class_name = "sun/management/FileSystemImpl";
    registry.register(class_name, "isAccessUserOnly0", "(Ljava/lang/String;)Z", "is_access_user_only_0");
    assert(registry.methods() =~= old(registry).methods() + natives(old(registry).java_version()));
}

} // verus!
