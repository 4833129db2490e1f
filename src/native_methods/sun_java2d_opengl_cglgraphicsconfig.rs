//! The native methods of `sun.java2d.opengl.CGLGraphicsConfig`.

use crate::native_methods::{entry, MethodRegistry, NativeMethod, JAVA_17};
use vstd::prelude::*;

verus! {

/// The native methods of `sun.java2d.opengl.CGLGraphicsConfig` registered for the release with class-file major
/// version `java_version`, in order.
pub open spec fn natives(java_version: u16) -> Seq<NativeMethod> {
    (if java_version <= JAVA_17 {
        seq![
            entry("sun/java2d/opengl/CGLGraphicsConfig", "getCGLConfigInfo", "(III)J", "get_cgl_config_info"),
        ]
    } else {
        seq![
            entry("sun/java2d/opengl/CGLGraphicsConfig", "getCGLConfigInfo", "()J", "get_cgl_config_info"),
        ]
    }) + seq![
        entry("sun/java2d/opengl/CGLGraphicsConfig", "getOGLCapabilities", "(J)I", "get_ogl_capabilities"),
        entry("sun/java2d/opengl/CGLGraphicsConfig", "initCGL", "()Z", "init_cgl"),
        entry("sun/java2d/opengl/CGLGraphicsConfig", "nativeGetMaxTextureSize", "()I", "native_get_max_texture_size"),
    ]
}

/// Register all native methods for `sun.java2d.opengl.CGLGraphicsConfig`.
pub fn register(registry: &mut MethodRegistry)
    ensures
        final(registry).java_version() == old(registry).java_version(),
        final(registry).methods() == old(registry).methods() + natives(old(registry).java_version()),
{
    let class_name = "sun/java2d/opengl/CGLGraphicsConfig";
    let java_version = registry.java_version();

    if java_version <= JAVA_17 {
        registry.register(class_name, "getCGLConfigInfo", "(III)J", "get_cgl_config_info");
    } else {
        registry.register(class_name, "getCGLConfigInfo", "()J", "get_cgl_config_info");
    }

    registry.register(class_name, "getOGLCapabilities", "(J)I", "get_ogl_capabilities");
    registry.register(class_name, "initCGL", "()Z", "init_cgl");
    registry.register(class_name, "nativeGetMaxTextureSize", "()I", "native_get_max_texture_size");
    assert(registry.methods() =~= old(registry).methods() + natives(old(registry).java_version()));
}

} // verus!
