//! The native methods of `java.io.FileDescriptor`.

use crate::native_methods::{entry, MethodRegistry, NativeMethod, JAVA_11, JAVA_20};
use vstd::prelude::*;

verus! {

/// The native methods of `java.io.FileDescriptor` registered for the release with class-file major
/// version `java_version`, in order.
pub open spec fn natives(java_version: u16) -> Seq<NativeMethod> {
    (if java_version >= JAVA_11 {
        seq![
            entry("java/io/FileDescriptor", "close0", "()V", "close_0"),
            entry("java/io/FileDescriptor", "getAppend", "(I)Z", "get_append"),
            entry("java/io/FileDescriptor", "getHandle", "(I)J", "get_handle"),
        ]
    } else {
        Seq::<NativeMethod>::empty()
    }) + (if java_version <= JAVA_20 {
        seq![
            entry("java/io/FileDescriptor", "sync", "()V", "sync"),
        ]
    } else {
        seq![
            entry("java/io/FileDescriptor", "sync0", "()V", "sync_0"),
        ]
    }) + seq![
        entry("java/io/FileDescriptor", "initIDs", "()V", "init_ids"),
        entry("java/io/FileDescriptor", "sync", "()V", "sync"),
    ]
}

/// Register all native methods for `java.io.FileDescriptor`.
pub fn register(registry: &mut MethodRegistry)
    ensures
        final(registry).java_version() == old(registry).java_version(),
        final(registry).methods() == old(registry).methods() + natives(old(registry).java_version()),
{
    let class_name = "java/io/FileDescriptor";
    let java_version = registry.java_version();

    if java_version >= JAVA_11 {
        registry.register(class_name, "close0", "()V", "close_0");
        registry.register(class_name, "getAppend", "(I)Z", "get_append");
        registry.register(class_name, "getHandle", "(I)J", "get_handle");
    }

    if java_version <= JAVA_20 {
        registry.register(class_name, "sync", "()V", "sync");
    } else {
        registry.register(class_name, "sync0", "()V", "sync_0");
    }

    registry.register(class_name, "initIDs", "()V", "init_ids");
    registry.register(class_name, "sync", "()V", "sync");
    assert(registry.methods() =~= old(registry).methods() + natives(old(registry).java_version()));
}

} // verus!
