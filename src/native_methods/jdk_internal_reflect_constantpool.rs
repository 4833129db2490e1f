//! The native methods of `jdk.internal.reflect.ConstantPool`.

use crate::native_methods::{entry, MethodRegistry, NativeMethod};
use vstd::prelude::*;

verus! {

/// The native methods of `jdk.internal.reflect.ConstantPool` registered for the release with class-file major
/// version `java_version`, in order.
pub open spec fn natives(java_version: u16) -> Seq<NativeMethod> {
    seq![
        entry("jdk/internal/reflect/ConstantPool", "getClassAt0", "(Ljava/lang/Object;I)Ljava/lang/Class;", "get_class_at_0"),
        entry("jdk/internal/reflect/ConstantPool", "getClassAtIfLoaded0", "(Ljava/lang/Object;I)Ljava/lang/Class;", "get_class_at_if_loaded_0"),
        entry("jdk/internal/reflect/ConstantPool", "getClassRefIndexAt0", "(Ljava/lang/Object;I)I", "get_class_ref_index_at_0"),
        entry("jdk/internal/reflect/ConstantPool", "getDoubleAt0", "(Ljava/lang/Object;I)D", "get_double_at_0"),
        entry("jdk/internal/reflect/ConstantPool", "getFieldAt0", "(Ljava/lang/Object;I)Ljava/lang/reflect/Field;", "get_field_at_0"),
        entry("jdk/internal/reflect/ConstantPool", "getFieldAtIfLoaded0", "(Ljava/lang/Object;I)Ljava/lang/reflect/Field;", "get_field_at_if_loaded_0"),
        entry("jdk/internal/reflect/ConstantPool", "getFloatAt0", "(Ljava/lang/Object;I)F", "get_float_at_0"),
        entry("jdk/internal/reflect/ConstantPool", "getIntAt0", "(Ljava/lang/Object;I)I", "get_int_at_0"),
        entry("jdk/internal/reflect/ConstantPool", "getLongAt0", "(Ljava/lang/Object;I)J", "get_long_at_0"),
        entry("jdk/internal/reflect/ConstantPool", "getMemberRefInfoAt0", "(Ljava/lang/Object;I)[Ljava/lang/String;", "get_member_ref_info_at_0"),
        entry("jdk/internal/reflect/ConstantPool", "getMethodAt0", "(Ljava/lang/Object;I)Ljava/lang/reflect/Member;", "get_method_at_0"),
        entry("jdk/internal/reflect/ConstantPool", "getMethodAtIfLoaded0", "(Ljava/lang/Object;I)Ljava/lang/reflect/Member;", "get_method_at_if_loaded_0"),
        entry("jdk/internal/reflect/ConstantPool", "getNameAndTypeRefIndexAt0", "(Ljava/lang/Object;I)I", "get_name_and_type_ref_index_at_0"),
        entry("jdk/internal/reflect/ConstantPool", "getNameAndTypeRefInfoAt0", "(Ljava/lang/Object;I)[Ljava/lang/String;", "get_name_and_type_ref_info_at_0"),
        entry("jdk/internal/reflect/ConstantPool", "getSize0", "(Ljava/lang/Object;)I", "get_size_0"),
        entry("jdk/internal/reflect/ConstantPool", "getStringAt0", "(Ljava/lang/Object;I)Ljava/lang/String;", "get_string_at_0"),
        entry("jdk/internal/reflect/ConstantPool", "getTagAt0", "(Ljava/lang/Object;I)B", "get_tag_at_0"),
        entry("jdk/internal/reflect/ConstantPool", "getUTF8At0", "(Ljava/lang/Object;I)Ljava/lang/String;", "get_utf_8_at_0"),
    ]
}

/// Register all native methods for `jdk.internal.reflect.ConstantPool`.
pub fn register(registry: &mut MethodRegistry)
    ensures
        final(registry).java_version() == old(registry).java_version(),
        final(registry).methods() == old(registry).methods() + natives(old(registry).java_version()),
{
    let class_name = "jdk/internal/reflect/ConstantPool";
    registry.register(class_name, "getClassAt0", "(Ljava/lang/Object;I)Ljava/lang/Class;", "get_class_at_0");
    registry.register(class_name, "getClassAtIfLoaded0", "(Ljava/lang/Object;I)Ljava/lang/Class;", "get_class_at_if_loaded_0");
    registry.register(class_name, "getClassRefIndexAt0", "(Ljava/lang/Object;I)I", "get_class_ref_index_at_0");
    registry.register(class_name, "getDoubleAt0", "(Ljava/lang/Object;I)D", "get_double_at_0");
    registry.register(class_name, "getFieldAt0", "(Ljava/lang/Object;I)Ljava/lang/reflect/Field;", "get_field_at_0");
    registry.register(class_name, "getFieldAtIfLoaded0", "(Ljava/lang/Object;I)Ljava/lang/reflect/Field;", "get_field_at_if_loaded_0");
    registry.register(class_name, "getFloatAt0", "(Ljava/lang/Object;I)F", "get_float_at_0");
    registry.register(class_name, "getIntAt0", "(Ljava/lang/Object;I)I", "get_int_at_0");
    registry.register(class_name, "getLongAt0", "(Ljava/lang/Object;I)J", "get_long_at_0");
    registry.register(class_name, "getMemberRefInfoAt0", "(Ljava/lang/Object;I)[Ljava/lang/String;", "get_member_ref_info_at_0");
    registry.register(class_name, "getMethodAt0", "(Ljava/lang/Object;I)Ljava/lang/reflect/Member;", "get_method_at_0");
    registry.register(class_name, "getMethodAtIfLoaded0", "(Ljava/lang/Object;I)Ljava/lang/reflect/Member;", "get_method_at_if_loaded_0");
    registry.register(class_name, "getNameAndTypeRefIndexAt0", "(Ljava/lang/Object;I)I", "get_name_and_type_ref_index_at_0");
    registry.register(class_name, "getNameAndTypeRefInfoAt0", "(Ljava/lang/Object;I)[Ljava/lang/String;", "get_name_and_type_ref_info_at_0");
    registry.register(class_name, "getSize0", "(Ljava/lang/Object;)I", "get_size_0");
    registry.register(class_name, "getStringAt0", "(Ljava/lang/Object;I)Ljava/lang/String;", "get_string_at_0");
    registry.register(class_name, "getTagAt0", "(Ljava/lang/Object;I)B", "get_tag_at_0");
    registry.register(class_name, "getUTF8At0", "(Ljava/lang/Object;I)Ljava/lang/String;", "get_utf_8_at_0");
    assert(registry.methods() =~= old(registry).methods() + natives(old(registry).java_version()));
}

} // verus!
