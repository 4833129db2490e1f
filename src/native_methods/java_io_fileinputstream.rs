//! The native methods of `java.io.FileInputStream`.

use crate::native_methods::{entry, MethodRegistry, NativeMethod, JAVA_8, JAVA_17};
use vstd::prelude::*;

verus! {

/// The native methods of `java.io.FileInputStream` registered for the release with class-file major
/// version `java_version`, in order.
pub open spec fn natives(java_version: u16) -> Seq<NativeMethod> {
    (if java_version <= JAVA_8 {
        seq![
            entry("java/io/FileInputStream", "close0", "()V", "close_0"),
        ]
    } else if java_version >= JAVA_17 {
        seq![
            entry("java/io/FileInputStream", "length0", "()J", "length_0"),
            entry("java/io/FileInputStream", "position0", "()J", "position_0"),
        ]
    } else {
        Seq::<NativeMethod>::empty()
    }) + seq![
        entry("java/io/FileInputStream", "available0", "()I", "available_0"),
        entry("java/io/FileInputStream", "initIDs", "()V", "init_ids"),
        entry("java/io/FileInputStream", "open0", "(Ljava/lang/String;)V", "open_0"),
        entry("java/io/FileInputStream", "read0", "()I", "read_0"),
        entry("java/io/FileInputStream", "readBytes", "([BII)I", "read_bytes"),
        entry("java/io/FileInputStream", "skip0", "(J)J", "skip_0"),
    ]
}

/// Register all native methods for `java.io.FileInputStream`.
pub fn register(registry: &mut MethodRegistry)
    ensures
        final(registry).java_version() == old(registry).java_version(),
        final(registry).methods() == old(registry).methods() + natives(old(registry).java_version()),
{
    let class_name = "java/io/FileInputStream";
    let java_version = registry.java_version();

    if java_version <= JAVA_8 {
        registry.register(class_name, "close0", "()V", "close_0");
    } else if java_version >= JAVA_17 {
        registry.register(class_name, "length0", "()J", "length_0");
        registry.register(class_name, "position0", "()J", "position_0");
    }

    registry.register(class_name, "available0", "()I", "available_0");
    registry.register(class_name, "initIDs", "()V", "init_ids");
    registry.register(class_name, "open0", "(Ljava/lang/String;)V", "open_0");
    registry.register(class_name, "read0", "()I", "read_0");
    registry.register(class_name, "readBytes", "([BII)I", "read_bytes");
    registry.register(class_name, "skip0", "(J)J", "skip_0");
    assert(registry.methods() =~= old(registry).methods() + natives(old(registry).java_version()));
}

} // verus!
