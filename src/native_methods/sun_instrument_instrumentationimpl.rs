//! The native methods of `sun.instrument.InstrumentationImpl`.

use crate::native_methods::{entry, MethodRegistry, NativeMethod, JAVA_11, JAVA_21};
use vstd::prelude::*;

verus! {

/// The native methods of `sun.instrument.InstrumentationImpl` registered for the release with class-file major
/// version `java_version`, in order.
pub open spec fn natives(java_version: u16) -> Seq<NativeMethod> {
    (if java_version >= JAVA_11 {
        seq![
            entry("sun/instrument/InstrumentationImpl", "loadAgent0", "(Ljava/lang/String;)V", "load_agent_0"),
            entry("sun/instrument/InstrumentationImpl", "setHasTransformers", "(JZ)V", "set_has_transformers"),
        ]
    } else {
        Seq::<NativeMethod>::empty()
    }) + (if java_version >= JAVA_21 {
        seq![
            entry("sun/instrument/InstrumentationImpl", "jarFile", "(J)Ljava/lang/String;", "jar_file"),
        ]
    } else {
        Seq::<NativeMethod>::empty()
    }) + seq![
        entry("sun/instrument/InstrumentationImpl", "appendToClassLoaderSearch0", "(JLjava/lang/String;Z)V", "append_to_class_loader_search_0"),
        entry("sun/instrument/InstrumentationImpl", "getAllLoadedClasses0", "(J)[Ljava/lang/Class;", "get_all_loaded_classes_0"),
        entry("sun/instrument/InstrumentationImpl", "getInitiatedClasses0", "(JLjava/lang/ClassLoader;)[Ljava/lang/Class;", "get_initiated_classes_0"),
        entry("sun/instrument/InstrumentationImpl", "getObjectSize0", "(JLjava/lang/Object;)J", "get_object_size_0"),
        entry("sun/instrument/InstrumentationImpl", "isModifiableClass0", "(JLjava/lang/Class;)Z", "is_modifiable_class_0"),
        entry("sun/instrument/InstrumentationImpl", "isRetransformClassesSupported0", "(J)Z", "is_retransform_classes_supported_0"),
        entry("sun/instrument/InstrumentationImpl", "redefineClasses0", "(J[Ljava/lang/instrument/ClassDefinition;)V", "redefine_classes_0"),
        entry("sun/instrument/InstrumentationImpl", "retransformClasses0", "(J[Ljava/lang/Class;)V", "retransform_classes_0"),
        entry("sun/instrument/InstrumentationImpl", "setHasRetransformableTransformers", "(JZ)V", "set_has_retransformable_transformers"),
        entry("sun/instrument/InstrumentationImpl", "setNativeMethodPrefixes", "(J[Ljava/lang/String;Z)V", "set_native_method_prefixes"),
    ]
}

/// Register all native methods for `sun.instrument.InstrumentationImpl`.
pub fn register(registry: &mut MethodRegistry)
    ensures
        final(registry).java_version() == old(registry).java_version(),
        final(registry).methods() == old(registry).methods() + natives(old(registry).java_version()),
{
    let class_name = "sun/instrument/InstrumentationImpl";
    let java_version = registry.java_version();

    if java_version >= JAVA_11 {
        registry.register(class_name, "loadAgent0", "(Ljava/lang/String;)V", "load_agent_0");
        registry.register(class_name, "setHasTransformers", "(JZ)V", "set_has_transformers");
    }

    if java_version >= JAVA_21 {
        registry.register(class_name, "jarFile", "(J)Ljava/lang/String;", "jar_file");
    }

    registry.register(class_name, "appendToClassLoaderSearch0", "(JLjava/lang/String;Z)V", "append_to_class_loader_search_0");
    registry.register(class_name, "getAllLoadedClasses0", "(J)[Ljava/lang/Class;", "get_all_loaded_classes_0");
    registry.register(class_name, "getInitiatedClasses0", "(JLjava/lang/ClassLoader;)[Ljava/lang/Class;", "get_initiated_classes_0");
    registry.register(class_name, "getObjectSize0", "(JLjava/lang/Object;)J", "get_object_size_0");
    registry.register(class_name, "isModifiableClass0", "(JLjava/lang/Class;)Z", "is_modifiable_class_0");
    registry.register(class_name, "isRetransformClassesSupported0", "(J)Z", "is_retransform_classes_supported_0");
    registry.register(class_name, "redefineClasses0", "(J[Ljava/lang/instrument/ClassDefinition;)V", "redefine_classes_0");
    registry.register(class_name, "retransformClasses0", "(J[Ljava/lang/Class;)V", "retransform_classes_0");
    registry.register(class_name, "setHasRetransformableTransformers", "(JZ)V", "set_has_retransformable_transformers");
    registry.register(class_name, "setNativeMethodPrefixes", "(J[Ljava/lang/String;Z)V", "set_native_method_prefixes");
    assert(registry.methods() =~= old(registry).methods() + natives(old(registry).java_version()));
}

} // verus!
