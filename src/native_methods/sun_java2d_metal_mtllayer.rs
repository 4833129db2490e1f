//! The native methods of `sun.java2d.metal.MTLLayer`.

use crate::native_methods::{entry, MethodRegistry, NativeMethod};
use vstd::prelude::*;

verus! {

/// The native methods of `sun.java2d.metal.MTLLayer` registered for the release with class-file major
/// version `java_version`, in order.
pub open spec fn natives(java_version: u16) -> Seq<NativeMethod> {
    seq![
        entry("sun/java2d/metal/MTLLayer", "blitTexture", "(J)V", "blit_texture"),
        entry("sun/java2d/metal/MTLLayer", "nativeCreateLayer", "()J", "native_create_layer"),
        entry("sun/java2d/metal/MTLLayer", "nativeSetInsets", "(JII)V", "native_set_insets"),
        entry("sun/java2d/metal/MTLLayer", "nativeSetScale", "(JD)V", "native_set_scale"),
        entry("sun/java2d/metal/MTLLayer", "validate", "(JLsun/java2d/metal/MTLSurfaceData;)V", "validate"),
    ]
}

/// Register all native methods for `sun.java2d.metal.MTLLayer`.
pub fn register(registry: &mut MethodRegistry)
    ensures
        final(registry).java_version() == old(registry).java_version(),
        final(registry).methods() == old(registry).methods() + natives(old(registry).java_version()),
{
    let class_name = "sun/java2d/metal/MTLLayer";
    registry.register(class_name, "blitTexture", "(J)V", "blit_texture");
    registry.register(class_name, "nativeCreateLayer", "()J", "native_create_layer");
    registry.register(class_name, "nativeSetInsets", "(JII)V", "native_set_insets");
    registry.register(class_name, "nativeSetScale", "(JD)V", "native_set_scale");
    registry.register(class_name, "validate", "(JLsun/java2d/metal/MTLSurfaceData;)V", "validate");
    assert(registry.methods() =~= old(registry).methods() + natives(old(registry).java_version()));
}

} // verus!
