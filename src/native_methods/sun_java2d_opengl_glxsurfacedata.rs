//! The native methods of `sun.java2d.opengl.GLXSurfaceData`.

use crate::native_methods::{entry, MethodRegistry, NativeMethod};
use vstd::prelude::*;

verus! {

/// The native methods of `sun.java2d.opengl.GLXSurfaceData` registered for the release with class-file major
/// version `java_version`, in order.
pub open spec fn natives(java_version: u16) -> Seq<NativeMethod> {
    seq![
        entry("sun/java2d/opengl/GLXSurfaceData", "initOps", "(Lsun/java2d/opengl/OGLGraphicsConfig;Lsun/awt/X11ComponentPeer;J)V", "init_ops"),
    ]
}

/// Register all native methods for `sun.java2d.opengl.GLXSurfaceData`.
pub fn register(registry: &mut MethodRegistry)
    ensures
        final(registry).java_version() == old(registry).java_version(),
        final(registry).methods() == old(registry).methods() + natives(old(registry).java_version()),
{
    let class_name = "sun/java2d/opengl/GLXSurfaceData";
    registry.register(class_name, "initOps", "(Lsun/java2d/opengl/OGLGraphicsConfig;Lsun/awt/X11ComponentPeer;J)V", "init_ops");
    assert(registry.methods() =~= old(registry).methods() + natives(old(registry).java_version()));
}

} // verus!
