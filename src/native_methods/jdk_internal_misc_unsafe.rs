//! The native methods of `jdk.internal.misc.Unsafe`.

use crate::native_methods::{entry, MethodRegistry, NativeMethod, JAVA_11, JAVA_17};
use vstd::prelude::*;

verus! {

/// Part 0 of the native methods of `jdk.internal.misc.Unsafe`, in order.
pub open spec fn natives_part_0(java_version: u16) -> Seq<NativeMethod> {
    (if java_version <= JAVA_11 {
        seq![
            entry("jdk/internal/misc/Unsafe", "addressSize0", "()I", "address_size_0"),
            entry("jdk/internal/misc/Unsafe", "compareAndExchangeObject", "(Ljava/lang/Object;JLjava/lang/Object;Ljava/lang/Object;)Ljava/lang/Object;", "compare_and_exchange_object"),
            entry("jdk/internal/misc/Unsafe", "compareAndSetObject", "(Ljava/lang/Object;JLjava/lang/Object;Ljava/lang/Object;)Z", "compare_and_set_object"),
            entry("jdk/internal/misc/Unsafe", "defineAnonymousClass0", "(Ljava/lang/Class;[B[Ljava/lang/Object;)Ljava/lang/Class;", "define_anonymous_class_0"),
            entry("jdk/internal/misc/Unsafe", "getObject", "(Ljava/lang/Object;J)Ljava/lang/Object;", "get_object"),
            entry("jdk/internal/misc/Unsafe", "getObjectVolatile", "(Ljava/lang/Object;J)Ljava/lang/Object;", "get_object_volatile"),
            entry("jdk/internal/misc/Unsafe", "isBigEndian0", "()Z", "is_big_endian_0"),
            entry("jdk/internal/misc/Unsafe", "pageSize", "()I", "page_size"),
            entry("jdk/internal/misc/Unsafe", "putObject", "(Ljava/lang/Object;JLjava/lang/Object;)V", "put_object"),
            entry("jdk/internal/misc/Unsafe", "putObjectVolatile", "(Ljava/lang/Object;JLjava/lang/Object;)V", "put_object_volatile"),
            entry("jdk/internal/misc/Unsafe", "unalignedAccess0", "()Z", "unaligned_access_0"),
        ]
    } else {
        seq![
            entry("jdk/internal/misc/Unsafe", "compareAndExchangeReference", "(Ljava/lang/Object;JLjava/lang/Object;Ljava/lang/Object;)Ljava/lang/Object;", "compare_and_exchange_reference"),
            entry("jdk/internal/misc/Unsafe", "compareAndSetReference", "(Ljava/lang/Object;JLjava/lang/Object;Ljava/lang/Object;)Z", "compare_and_set_reference"),
            entry("jdk/internal/misc/Unsafe", "getReference", "(Ljava/lang/Object;J)Ljava/lang/Object;", "get_reference"),
            entry("jdk/internal/misc/Unsafe", "getReferenceVolatile", "(Ljava/lang/Object;J)Ljava/lang/Object;", "get_reference_volatile"),
            entry("jdk/internal/misc/Unsafe", "getReference", "(Ljava/lang/Object;J)Ljava/lang/Object;", "get_reference"),
            entry("jdk/internal/misc/Unsafe", "getReferenceVolatile", "(Ljava/lang/Object;J)Ljava/lang/Object;", "get_reference_volatile"),
            entry("jdk/internal/misc/Unsafe", "writeback0", "(J)V", "writeback_0"),
            entry("jdk/internal/misc/Unsafe", "writebackPostSync0", "()V", "writeback_post_sync_0"),
            entry("jdk/internal/misc/Unsafe", "writebackPreSync0", "()V", "writeback_pre_sync_0"),
        ]
    })
}

/// Part 1 of the native methods of `jdk.internal.misc.Unsafe`, in order.
pub open spec fn natives_part_1(java_version: u16) -> Seq<NativeMethod> {
    (if java_version <= JAVA_17 {
        seq![
            entry("jdk/internal/misc/Unsafe", "loadFence", "()V", "load_fence"),
            entry("jdk/internal/misc/Unsafe", "storeFence", "()V", "store_fence"),
        ]
    } else {
        Seq::<NativeMethod>::empty()
    })
}

/// Part 2 of the native methods of `jdk.internal.misc.Unsafe`, in order.
pub open spec fn natives_part_2(java_version: u16) -> Seq<NativeMethod> {
    seq![
        entry("jdk/internal/misc/Unsafe", "allocateInstance", "(Ljava/lang/Class;)Ljava/lang/Object;", "allocate_instance"),
        entry("jdk/internal/misc/Unsafe", "allocateMemory0", "(J)J", "allocate_memory_0"),
        entry("jdk/internal/misc/Unsafe", "arrayBaseOffset0", "(Ljava/lang/Class;)I", "array_base_offset_0"),
        entry("jdk/internal/misc/Unsafe", "arrayIndexScale0", "(Ljava/lang/Class;)I", "array_index_scale_0"),
        entry("jdk/internal/misc/Unsafe", "compareAndExchangeInt", "(Ljava/lang/Object;JII)I", "compare_and_exchange_int"),
        entry("jdk/internal/misc/Unsafe", "compareAndExchangeLong", "(Ljava/lang/Object;JJJ)J", "compare_and_exchange_long"),
        entry("jdk/internal/misc/Unsafe", "compareAndExchangeReference", "(Ljava/lang/Object;JLjava/lang/Object;Ljava/lang/Object;)Ljava/lang/Object;", "compare_and_exchange_reference"),
        entry("jdk/internal/misc/Unsafe", "compareAndSetInt", "(Ljava/lang/Object;JII)Z", "compare_and_set_int"),
        entry("jdk/internal/misc/Unsafe", "compareAndSetLong", "(Ljava/lang/Object;JJJ)Z", "compare_and_set_long"),
        entry("jdk/internal/misc/Unsafe", "compareAndSetReference", "(Ljava/lang/Object;JLjava/lang/Object;Ljava/lang/Object;)Z", "compare_and_set_reference"),
    ]
}

/// Part 3 of the native methods of `jdk.internal.misc.Unsafe`, in order.
pub open spec fn natives_part_3(java_version: u16) -> Seq<NativeMethod> {
    seq![
        entry("jdk/internal/misc/Unsafe", "copyMemory0", "(Ljava/lang/Object;JLjava/lang/Object;JJ)V", "copy_memory_0"),
        entry("jdk/internal/misc/Unsafe", "copySwapMemory0", "(Ljava/lang/Object;JLjava/lang/Object;JJJ)V", "copy_swap_memory_0"),
        entry("jdk/internal/misc/Unsafe", "defineClass0", "(Ljava/lang/String;[BIILjava/lang/ClassLoader;Ljava/security/ProtectionDomain;)Ljava/lang/Class;", "define_class_0"),
        entry("jdk/internal/misc/Unsafe", "ensureClassInitialized0", "(Ljava/lang/Class;)V", "ensure_class_initialized_0"),
        entry("jdk/internal/misc/Unsafe", "freeMemory0", "(J)V", "free_memory_0"),
        entry("jdk/internal/misc/Unsafe", "fullFence", "()V", "full_fence"),
        entry("jdk/internal/misc/Unsafe", "getBoolean", "(Ljava/lang/Object;J)Z", "get_boolean"),
        entry("jdk/internal/misc/Unsafe", "getBooleanVolatile", "(Ljava/lang/Object;J)Z", "get_boolean_volatile"),
        entry("jdk/internal/misc/Unsafe", "getByte", "(Ljava/lang/Object;J)B", "get_byte"),
        entry("jdk/internal/misc/Unsafe", "getByteVolatile", "(Ljava/lang/Object;J)B", "get_byte_volatile"),
    ]
}

/// Part 4 of the native methods of `jdk.internal.misc.Unsafe`, in order.
pub open spec fn natives_part_4(java_version: u16) -> Seq<NativeMethod> {
    seq![
        entry("jdk/internal/misc/Unsafe", "getChar", "(Ljava/lang/Object;J)C", "get_char"),
        entry("jdk/internal/misc/Unsafe", "getCharVolatile", "(Ljava/lang/Object;J)C", "get_char_volatile"),
        entry("jdk/internal/misc/Unsafe", "getDouble", "(Ljava/lang/Object;J)D", "get_double"),
        entry("jdk/internal/misc/Unsafe", "getDoubleVolatile", "(Ljava/lang/Object;J)D", "get_double_volatile"),
        entry("jdk/internal/misc/Unsafe", "getFloat", "(Ljava/lang/Object;J)F", "get_float"),
        entry("jdk/internal/misc/Unsafe", "getFloatVolatile", "(Ljava/lang/Object;J)F", "get_float_volatile"),
        entry("jdk/internal/misc/Unsafe", "getInt", "(Ljava/lang/Object;J)I", "get_int"),
        entry("jdk/internal/misc/Unsafe", "getIntVolatile", "(Ljava/lang/Object;J)I", "get_int_volatile"),
        entry("jdk/internal/misc/Unsafe", "getLoadAverage0", "([DI)I", "get_load_average_0"),
        entry("jdk/internal/misc/Unsafe", "getLong", "(Ljava/lang/Object;J)J", "get_long"),
    ]
}

/// Part 5 of the native methods of `jdk.internal.misc.Unsafe`, in order.
pub open spec fn natives_part_5(java_version: u16) -> Seq<NativeMethod> {
    seq![
        entry("jdk/internal/misc/Unsafe", "getLongVolatile", "(Ljava/lang/Object;J)J", "get_long_volatile"),
        entry("jdk/internal/misc/Unsafe", "getReference", "(Ljava/lang/Object;J)Ljava/lang/Object;", "get_reference"),
        entry("jdk/internal/misc/Unsafe", "getReferenceVolatile", "(Ljava/lang/Object;J)Ljava/lang/Object;", "get_reference_volatile"),
        entry("jdk/internal/misc/Unsafe", "getShort", "(Ljava/lang/Object;J)S", "get_short"),
        entry("jdk/internal/misc/Unsafe", "getShortVolatile", "(Ljava/lang/Object;J)S", "get_short_volatile"),
        entry("jdk/internal/misc/Unsafe", "getUncompressedObject", "(J)Ljava/lang/Object;", "get_uncompressed_object"),
        entry("jdk/internal/misc/Unsafe", "objectFieldOffset0", "(Ljava/lang/reflect/Field;)J", "object_field_offset_0"),
        entry("jdk/internal/misc/Unsafe", "objectFieldOffset1", "(Ljava/lang/Class;Ljava/lang/String;)J", "object_field_offset_1"),
        entry("jdk/internal/misc/Unsafe", "park", "(ZJ)V", "park"),
        entry("jdk/internal/misc/Unsafe", "putBoolean", "(Ljava/lang/Object;JZ)V", "put_boolean"),
    ]
}

/// Part 6 of the native methods of `jdk.internal.misc.Unsafe`, in order.
pub open spec fn natives_part_6(java_version: u16) -> Seq<NativeMethod> {
    seq![
        entry("jdk/internal/misc/Unsafe", "putBooleanVolatile", "(Ljava/lang/Object;JZ)V", "put_boolean_volatile"),
        entry("jdk/internal/misc/Unsafe", "putByte", "(Ljava/lang/Object;JB)V", "put_byte"),
        entry("jdk/internal/misc/Unsafe", "putByteVolatile", "(Ljava/lang/Object;JB)V", "put_byte_volatile"),
        entry("jdk/internal/misc/Unsafe", "putChar", "(Ljava/lang/Object;JC)V", "put_char"),
        entry("jdk/internal/misc/Unsafe", "putCharVolatile", "(Ljava/lang/Object;JC)V", "put_char_volatile"),
        entry("jdk/internal/misc/Unsafe", "putDouble", "(Ljava/lang/Object;JD)V", "put_double"),
        entry("jdk/internal/misc/Unsafe", "putDoubleVolatile", "(Ljava/lang/Object;JD)V", "put_double_volatile"),
        entry("jdk/internal/misc/Unsafe", "putFloat", "(Ljava/lang/Object;JF)V", "put_float"),
        entry("jdk/internal/misc/Unsafe", "putFloatVolatile", "(Ljava/lang/Object;JF)V", "put_float_volatile"),
        entry("jdk/internal/misc/Unsafe", "putInt", "(Ljava/lang/Object;JI)V", "put_int"),
    ]
}

/// Part 7 of the native methods of `jdk.internal.misc.Unsafe`, in order.
pub open spec fn natives_part_7(java_version: u16) -> Seq<NativeMethod> {
    seq![
        entry("jdk/internal/misc/Unsafe", "putIntVolatile", "(Ljava/lang/Object;JI)V", "put_int_volatile"),
        entry("jdk/internal/misc/Unsafe", "putLong", "(Ljava/lang/Object;JJ)V", "put_long"),
        entry("jdk/internal/misc/Unsafe", "putLongVolatile", "(Ljava/lang/Object;JJ)V", "put_long_volatile"),
        entry("jdk/internal/misc/Unsafe", "putReference", "(Ljava/lang/Object;JLjava/lang/Object;)V", "put_reference"),
        entry("jdk/internal/misc/Unsafe", "putReferenceVolatile", "(Ljava/lang/Object;JLjava/lang/Object;)V", "put_reference_volatile"),
        entry("jdk/internal/misc/Unsafe", "putShort", "(Ljava/lang/Object;JS)V", "put_short"),
        entry("jdk/internal/misc/Unsafe", "putShortVolatile", "(Ljava/lang/Object;JS)V", "put_short_volatile"),
        entry("jdk/internal/misc/Unsafe", "reallocateMemory0", "(JJ)J", "reallocate_memory_0"),
        entry("jdk/internal/misc/Unsafe", "registerNatives", "()V", "register_natives"),
        entry("jdk/internal/misc/Unsafe", "setMemory0", "(Ljava/lang/Object;JJB)V", "set_memory_0"),
    ]
}

/// Part 8 of the native methods of `jdk.internal.misc.Unsafe`, in order.
pub open spec fn natives_part_8(java_version: u16) -> Seq<NativeMethod> {
    seq![
        entry("jdk/internal/misc/Unsafe", "shouldBeInitialized0", "(Ljava/lang/Class;)Z", "should_be_initialized_0"),
        entry("jdk/internal/misc/Unsafe", "staticFieldBase0", "(Ljava/lang/reflect/Field;)Ljava/lang/Object;", "static_field_base_0"),
        entry("jdk/internal/misc/Unsafe", "staticFieldOffset0", "(Ljava/lang/reflect/Field;)J", "static_field_offset_0"),
        entry("jdk/internal/misc/Unsafe", "throwException", "(Ljava/lang/Throwable;)V", "throw_exception"),
        entry("jdk/internal/misc/Unsafe", "unpark", "(Ljava/lang/Object;)V", "unpark"),
        entry("jdk/internal/misc/Unsafe", "writeback0", "(J)V", "writeback_0"),
        entry("jdk/internal/misc/Unsafe", "writebackPostSync0", "()V", "writeback_post_sync_0"),
        entry("jdk/internal/misc/Unsafe", "writebackPreSync0", "()V", "writeback_pre_sync_0"),
    ]
}

/// The native methods of `jdk.internal.misc.Unsafe` registered for the release with
/// class-file major version `java_version`, in order.
pub open spec fn natives(java_version: u16) -> Seq<NativeMethod> {
    natives_part_0(java_version)
        + natives_part_1(java_version)
        + natives_part_2(java_version)
        + natives_part_3(java_version)
        + natives_part_4(java_version)
        + natives_part_5(java_version)
        + natives_part_6(java_version)
        + natives_part_7(java_version)
        + natives_part_8(java_version)
}

/// Registers part 0 of the native methods of `jdk.internal.misc.Unsafe`.
fn register_part_0(registry: &mut MethodRegistry)
    ensures
        final(registry).java_version() == old(registry).java_version(),
        final(registry).methods() == old(registry).methods() + natives_part_0(old(registry).java_version()),
{
    let class_name = "jdk/internal/misc/Unsafe";
    let java_version = registry.java_version();
    if java_version <= JAVA_11 {
        registry.register(class_name, "addressSize0", "()I", "address_size_0");
        registry.register(class_name, "compareAndExchangeObject", "(Ljava/lang/Object;JLjava/lang/Object;Ljava/lang/Object;)Ljava/lang/Object;", "compare_and_exchange_object");
        registry.register(class_name, "compareAndSetObject", "(Ljava/lang/Object;JLjava/lang/Object;Ljava/lang/Object;)Z", "compare_and_set_object");
        registry.register(class_name, "defineAnonymousClass0", "(Ljava/lang/Class;[B[Ljava/lang/Object;)Ljava/lang/Class;", "define_anonymous_class_0");
        registry.register(class_name, "getObject", "(Ljava/lang/Object;J)Ljava/lang/Object;", "get_object");
        registry.register(class_name, "getObjectVolatile", "(Ljava/lang/Object;J)Ljava/lang/Object;", "get_object_volatile");
        registry.register(class_name, "isBigEndian0", "()Z", "is_big_endian_0");
        registry.register(class_name, "pageSize", "()I", "page_size");
        registry.register(class_name, "putObject", "(Ljava/lang/Object;JLjava/lang/Object;)V", "put_object");
        registry.register(class_name, "putObjectVolatile", "(Ljava/lang/Object;JLjava/lang/Object;)V", "put_object_volatile");
        registry.register(class_name, "unalignedAccess0", "()Z", "unaligned_access_0");
    } else {
        registry.register(class_name, "compareAndExchangeReference", "(Ljava/lang/Object;JLjava/lang/Object;Ljava/lang/Object;)Ljava/lang/Object;", "compare_and_exchange_reference");
        registry.register(class_name, "compareAndSetReference", "(Ljava/lang/Object;JLjava/lang/Object;Ljava/lang/Object;)Z", "compare_and_set_reference");
        registry.register(class_name, "getReference", "(Ljava/lang/Object;J)Ljava/lang/Object;", "get_reference");
        registry.register(class_name, "getReferenceVolatile", "(Ljava/lang/Object;J)Ljava/lang/Object;", "get_reference_volatile");
        registry.register(class_name, "getReference", "(Ljava/lang/Object;J)Ljava/lang/Object;", "get_reference");
        registry.register(class_name, "getReferenceVolatile", "(Ljava/lang/Object;J)Ljava/lang/Object;", "get_reference_volatile");
        registry.register(class_name, "writeback0", "(J)V", "writeback_0");
        registry.register(class_name, "writebackPostSync0", "()V", "writeback_post_sync_0");
        registry.register(class_name, "writebackPreSync0", "()V", "writeback_pre_sync_0");
    }
    assert(registry.methods() =~= old(registry).methods() + natives_part_0(old(registry).java_version()));
}

/// Registers part 1 of the native methods of `jdk.internal.misc.Unsafe`.
fn register_part_1(registry: &mut MethodRegistry)
    ensures
        final(registry).java_version() == old(registry).java_version(),
        final(registry).methods() == old(registry).methods() + natives_part_1(old(registry).java_version()),
{
    let class_name = "jdk/internal/misc/Unsafe";
    let java_version = registry.java_version();
    if java_version <= JAVA_17 {
        registry.register(class_name, "loadFence", "()V", "load_fence");
        registry.register(class_name, "storeFence", "()V", "store_fence");
    }
    assert(registry.methods() =~= old(registry).methods() + natives_part_1(old(registry).java_version()));
}

/// Registers part 2 of the native methods of `jdk.internal.misc.Unsafe`.
fn register_part_2(registry: &mut MethodRegistry)
    ensures
        final(registry).java_version() == old(registry).java_version(),
        final(registry).methods() == old(registry).methods() + natives_part_2(old(registry).java_version()),
{
    let class_name = "jdk/internal/misc/Unsafe";
    registry.register(class_name, "allocateInstance", "(Ljava/lang/Class;)Ljava/lang/Object;", "allocate_instance");
    registry.register(class_name, "allocateMemory0", "(J)J", "allocate_memory_0");
    registry.register(class_name, "arrayBaseOffset0", "(Ljava/lang/Class;)I", "array_base_offset_0");
    registry.register(class_name, "arrayIndexScale0", "(Ljava/lang/Class;)I", "array_index_scale_0");
    registry.register(class_name, "compareAndExchangeInt", "(Ljava/lang/Object;JII)I", "compare_and_exchange_int");
    registry.register(class_name, "compareAndExchangeLong", "(Ljava/lang/Object;JJJ)J", "compare_and_exchange_long");
    registry.register(class_name, "compareAndExchangeReference", "(Ljava/lang/Object;JLjava/lang/Object;Ljava/lang/Object;)Ljava/lang/Object;", "compare_and_exchange_reference");
    registry.register(class_name, "compareAndSetInt", "(Ljava/lang/Object;JII)Z", "compare_and_set_int");
    registry.register(class_name, "compareAndSetLong", "(Ljava/lang/Object;JJJ)Z", "compare_and_set_long");
    registry.register(class_name, "compareAndSetReference", "(Ljava/lang/Object;JLjava/lang/Object;Ljava/lang/Object;)Z", "compare_and_set_reference");
    assert(registry.methods() =~= old(registry).methods() + natives_part_2(old(registry).java_version()));
}

/// Registers part 3 of the native methods of `jdk.internal.misc.Unsafe`.
fn register_part_3(registry: &mut MethodRegistry)
    ensures
        final(registry).java_version() == old(registry).java_version(),
        final(registry).methods() == old(registry).methods() + natives_part_3(old(registry).java_version()),
{
    let class_name = "jdk/internal/misc/Unsafe";
    registry.register(class_name, "copyMemory0", "(Ljava/lang/Object;JLjava/lang/Object;JJ)V", "copy_memory_0");
    registry.register(class_name, "copySwapMemory0", "(Ljava/lang/Object;JLjava/lang/Object;JJJ)V", "copy_swap_memory_0");
    registry.register(class_name, "defineClass0", "(Ljava/lang/String;[BIILjava/lang/ClassLoader;Ljava/security/ProtectionDomain;)Ljava/lang/Class;", "define_class_0");
    registry.register(class_name, "ensureClassInitialized0", "(Ljava/lang/Class;)V", "ensure_class_initialized_0");
    registry.register(class_name, "freeMemory0", "(J)V", "free_memory_0");
    registry.register(class_name, "fullFence", "()V", "full_fence");
    registry.register(class_name, "getBoolean", "(Ljava/lang/Object;J)Z", "get_boolean");
    registry.register(class_name, "getBooleanVolatile", "(Ljava/lang/Object;J)Z", "get_boolean_volatile");
    registry.register(class_name, "getByte", "(Ljava/lang/Object;J)B", "get_byte");
    registry.register(class_name, "getByteVolatile", "(Ljava/lang/Object;J)B", "get_byte_volatile");
    assert(registry.methods() =~= old(registry).methods() + natives_part_3(old(registry).java_version()));
}

/// Registers part 4 of the native methods of `jdk.internal.misc.Unsafe`.
fn register_part_4(registry: &mut MethodRegistry)
    ensures
        final(registry).java_version() == old(registry).java_version(),
        final(registry).methods() == old(registry).methods() + natives_part_4(old(registry).java_version()),
{
    let class_name = "jdk/internal/misc/Unsafe";
    registry.register(class_name, "getChar", "(Ljava/lang/Object;J)C", "get_char");
    registry.register(class_name, "getCharVolatile", "(Ljava/lang/Object;J)C", "get_char_volatile");
    registry.register(class_name, "getDouble", "(Ljava/lang/Object;J)D", "get_double");
    registry.register(class_name, "getDoubleVolatile", "(Ljava/lang/Object;J)D", "get_double_volatile");
    registry.register(class_name, "getFloat", "(Ljava/lang/Object;J)F", "get_float");
    registry.register(class_name, "getFloatVolatile", "(Ljava/lang/Object;J)F", "get_float_volatile");
    registry.register(class_name, "getInt", "(Ljava/lang/Object;J)I", "get_int");
    registry.register(class_name, "getIntVolatile", "(Ljava/lang/Object;J)I", "get_int_volatile");
    registry.register(class_name, "getLoadAverage0", "([DI)I", "get_load_average_0");
    registry.register(class_name, "getLong", "(Ljava/lang/Object;J)J", "get_long");
    assert(registry.methods() =~= old(registry).methods() + natives_part_4(old(registry).java_version()));
}

/// Registers part 5 of the native methods of `jdk.internal.misc.Unsafe`.
fn register_part_5(registry: &mut MethodRegistry)
    ensures
        final(registry).java_version() == old(registry).java_version(),
        final(registry).methods() == old(registry).methods() + natives_part_5(old(registry).java_version()),
{
    let class_name = "jdk/internal/misc/Unsafe";
    registry.register(class_name, "getLongVolatile", "(Ljava/lang/Object;J)J", "get_long_volatile");
    registry.register(class_name, "getReference", "(Ljava/lang/Object;J)Ljava/lang/Object;", "get_reference");
    registry.register(class_name, "getReferenceVolatile", "(Ljava/lang/Object;J)Ljava/lang/Object;", "get_reference_volatile");
    registry.register(class_name, "getShort", "(Ljava/lang/Object;J)S", "get_short");
    registry.register(class_name, "getShortVolatile", "(Ljava/lang/Object;J)S", "get_short_volatile");
    registry.register(class_name, "getUncompressedObject", "(J)Ljava/lang/Object;", "get_uncompressed_object");
    registry.register(class_name, "objectFieldOffset0", "(Ljava/lang/reflect/Field;)J", "object_field_offset_0");
    registry.register(class_name, "objectFieldOffset1", "(Ljava/lang/Class;Ljava/lang/String;)J", "object_field_offset_1");
    registry.register(class_name, "park", "(ZJ)V", "park");
    registry.register(class_name, "putBoolean", "(Ljava/lang/Object;JZ)V", "put_boolean");
    assert(registry.methods() =~= old(registry).methods() + natives_part_5(old(registry).java_version()));
}

/// Registers part 6 of the native methods of `jdk.internal.misc.Unsafe`.
fn register_part_6(registry: &mut MethodRegistry)
    ensures
        final(registry).java_version() == old(registry).java_version(),
        final(registry).methods() == old(registry).methods() + natives_part_6(old(registry).java_version()),
{
    let class_name = "jdk/internal/misc/Unsafe";
    registry.register(class_name, "putBooleanVolatile", "(Ljava/lang/Object;JZ)V", "put_boolean_volatile");
    registry.register(class_name, "putByte", "(Ljava/lang/Object;JB)V", "put_byte");
    registry.register(class_name, "putByteVolatile", "(Ljava/lang/Object;JB)V", "put_byte_volatile");
    registry.register(class_name, "putChar", "(Ljava/lang/Object;JC)V", "put_char");
    registry.register(class_name, "putCharVolatile", "(Ljava/lang/Object;JC)V", "put_char_volatile");
    registry.register(class_name, "putDouble", "(Ljava/lang/Object;JD)V", "put_double");
    registry.register(class_name, "putDoubleVolatile", "(Ljava/lang/Object;JD)V", "put_double_volatile");
    registry.register(class_name, "putFloat", "(Ljava/lang/Object;JF)V", "put_float");
    registry.register(class_name, "putFloatVolatile", "(Ljava/lang/Object;JF)V", "put_float_volatile");
    registry.register(class_name, "putInt", "(Ljava/lang/Object;JI)V", "put_int");
    assert(registry.methods() =~= old(registry).methods() + natives_part_6(old(registry).java_version()));
}

/// Registers part 7 of the native methods of `jdk.internal.misc.Unsafe`.
fn register_part_7(registry: &mut MethodRegistry)
    ensures
        final(registry).java_version() == old(registry).java_version(),
        final(registry).methods() == old(registry).methods() + natives_part_7(old(registry).java_version()),
{
    let class_name = "jdk/internal/misc/Unsafe";
    registry.register(class_name, "putIntVolatile", "(Ljava/lang/Object;JI)V", "put_int_volatile");
    registry.register(class_name, "putLong", "(Ljava/lang/Object;JJ)V", "put_long");
    registry.register(class_name, "putLongVolatile", "(Ljava/lang/Object;JJ)V", "put_long_volatile");
    registry.register(class_name, "putReference", "(Ljava/lang/Object;JLjava/lang/Object;)V", "put_reference");
    registry.register(class_name, "putReferenceVolatile", "(Ljava/lang/Object;JLjava/lang/Object;)V", "put_reference_volatile");
    registry.register(class_name, "putShort", "(Ljava/lang/Object;JS)V", "put_short");
    registry.register(class_name, "putShortVolatile", "(Ljava/lang/Object;JS)V", "put_short_volatile");
    registry.register(class_name, "reallocateMemory0", "(JJ)J", "reallocate_memory_0");
    registry.register(class_name, "registerNatives", "()V", "register_natives");
    registry.register(class_name, "setMemory0", "(Ljava/lang/Object;JJB)V", "set_memory_0");
    assert(registry.methods() =~= old(registry).methods() + natives_part_7(old(registry).java_version()));
}

/// Registers part 8 of the native methods of `jdk.internal.misc.Unsafe`.
fn register_part_8(registry: &mut MethodRegistry)
    ensures
        final(registry).java_version() == old(registry).java_version(),
        final(registry).methods() == old(registry).methods() + natives_part_8(old(registry).java_version()),
{
    let class_name = "jdk/internal/misc/Unsafe";
    registry.register(class_name, "shouldBeInitialized0", "(Ljava/lang/Class;)Z", "should_be_initialized_0");
    registry.register(class_name, "staticFieldBase0", "(Ljava/lang/reflect/Field;)Ljava/lang/Object;", "static_field_base_0");
    registry.register(class_name, "staticFieldOffset0", "(Ljava/lang/reflect/Field;)J", "static_field_offset_0");
    registry.register(class_name, "throwException", "(Ljava/lang/Throwable;)V", "throw_exception");
    registry.register(class_name, "unpark", "(Ljava/lang/Object;)V", "unpark");
    registry.register(class_name, "writeback0", "(J)V", "writeback_0");
    registry.register(class_name, "writebackPostSync0", "()V", "writeback_post_sync_0");
    registry.register(class_name, "writebackPreSync0", "()V", "writeback_pre_sync_0");
    assert(registry.methods() =~= old(registry).methods() + natives_part_8(old(registry).java_version()));
}

/// Register all native methods for `jdk.internal.misc.Unsafe`.
pub fn register(registry: &mut MethodRegistry)
    ensures
        final(registry).java_version() == old(registry).java_version(),
        final(registry).methods() == old(registry).methods() + natives(old(registry).java_version()),
{
    let ghost start = registry.methods();
    let ghost v = registry.java_version();
    register_part_0(registry);
    register_part_1(registry);
    register_part_2(registry);
    register_part_3(registry);
    register_part_4(registry);
    register_part_5(registry);
    register_part_6(registry);
    register_part_7(registry);
    register_part_8(registry);
    assert(registry.methods() =~= start + natives(v));
}

} // verus!
