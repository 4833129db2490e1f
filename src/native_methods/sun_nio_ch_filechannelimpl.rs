//! The native methods of `sun.nio.ch.FileChannelImpl`.

use crate::native_methods::{entry, MethodRegistry, NativeMethod, JAVA_11};
use vstd::prelude::*;

verus! {

/// The native methods of `sun.nio.ch.FileChannelImpl` registered for the release with class-file major
/// version `java_version`, in order.
pub open spec fn natives(java_version: u16) -> Seq<NativeMethod> {
    (if java_version >= JAVA_11 {
        seq![
            entry("sun/nio/ch/FileChannelImpl", "map0", "(IJJ)J", "map_0"),
        ]
    } else {
        seq![
            entry("sun/nio/ch/FileChannelImpl", "map0", "(IJJZ)J", "map_0"),
            entry("sun/nio/ch/FileChannelImpl", "maxDirectTransferSize0", "()I", "max_direct_transfer_size_0"),
        ]
    }) + seq![
        entry("sun/nio/ch/FileChannelImpl", "initIDs", "()J", "init_ids"),
        entry("sun/nio/ch/FileChannelImpl", "transferTo0", "(Ljava/io/FileDescriptor;JJLjava/io/FileDescriptor;)J", "transfer_to_0"),
        entry("sun/nio/ch/FileChannelImpl", "unmap0", "(JJ)I", "unmap_0"),
    ]
}

/// Register all native methods for `sun.nio.ch.FileChannelImpl`.
pub fn register(registry: &mut MethodRegistry)
    ensures
        final(registry).java_version() == old(registry).java_version(),
        final(registry).methods() == old(registry).methods() + natives(old(registry).java_version()),
{
    let class_name = "sun/nio/ch/FileChannelImpl";
    let java_version = registry.java_version();

    if java_version >= JAVA_11 {
        registry.register(class_name, "map0", "(IJJ)J", "map_0");
    } else {
        registry.register(class_name, "map0", "(IJJZ)J", "map_0");
        registry.register(class_name, "maxDirectTransferSize0", "()I", "max_direct_transfer_size_0");
    }

    registry.register(class_name, "initIDs", "()J", "init_ids");
    registry.register(class_name, "transferTo0", "(Ljava/io/FileDescriptor;JJLjava/io/FileDescriptor;)J", "transfer_to_0");
    registry.register(class_name, "unmap0", "(JJ)I", "unmap_0");
    assert(registry.methods() =~= old(registry).methods() + natives(old(registry).java_version()));
}

} // verus!
