//! The native methods of `sun.java2d.pipe.BufferedMaskBlit`.

use crate::native_methods::{entry, MethodRegistry, NativeMethod};
use vstd::prelude::*;

verus! {

/// The native methods of `sun.java2d.pipe.BufferedMaskBlit` registered for the release with class-file major
/// version `java_version`, in order.
pub open spec fn natives(java_version: u16) -> Seq<NativeMethod> {
    seq![
        entry("sun/java2d/pipe/BufferedMaskBlit", "enqueueTile", "(JILsun/java2d/SurfaceData;JI[BIIIIIIIII)I", "enqueue_tile"),
    ]
}

/// Register all native methods for `sun.java2d.pipe.BufferedMaskBlit`.
pub fn register(registry: &mut MethodRegistry)
    ensures
        final(registry).java_version() == old(registry).java_version(),
        final(registry).methods() == old(registry).methods() + natives(old(registry).java_version()),
{
    let class_name = "sun/java2d/pipe/BufferedMaskBlit";
    registry.register(class_name, "enqueueTile", "(JILsun/java2d/SurfaceData;JI[BIIIIIIIII)I", "enqueue_tile");
    assert(registry.methods() =~= old(registry).methods() + natives(old(registry).java_version()));
}

} // verus!
