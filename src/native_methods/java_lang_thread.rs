//! The native methods of `java.lang.Thread`.

use crate::native_methods::{entry, MethodRegistry, NativeMethod, JAVA_11, JAVA_18, JAVA_19, JAVA_20, JAVA_21, JAVA_22};
use vstd::prelude::*;

verus! {

/// The native methods of `java.lang.Thread` registered for the release with class-file major
/// version `java_version`, in order.
pub open spec fn natives(java_version: u16) -> Seq<NativeMethod> {
    (if java_version <= JAVA_11 || java_version == JAVA_18 {
        seq![
            entry("java/lang/Thread", "countStackFrames", "()I", "count_stack_frames"),
            entry("java/lang/Thread", "isAlive", "()Z", "is_alive"),
            entry("java/lang/Thread", "isInterrupted", "(Z)Z", "is_interrupted"),
        ]
    } else {
        seq![
            entry("java/lang/Thread", "clearInterruptEvent", "()V", "clear_interrupt_event"),
        ]
    }) + (if java_version <= JAVA_19 {
        seq![
            entry("java/lang/Thread", "resume0", "()V", "resume_0"),
        ]
    } else {
        Seq::<NativeMethod>::empty()
    }) + (if java_version == JAVA_19 {
        seq![
            entry("java/lang/Thread", "extentLocalCache", "()[Ljava/lang/Object;", "extent_local_cache"),
        ]
    } else {
        Seq::<NativeMethod>::empty()
    }) + (if java_version >= JAVA_19 {
        seq![
            entry("java/lang/Thread", "currentCarrierThread", "()Ljava/lang/Thread;", "current_carrier_thread"),
            entry("java/lang/Thread", "getNextThreadIdOffset", "()J", "get_next_thread_id_offset"),
            entry("java/lang/Thread", "getStackTrace0", "()Ljava/lang/Object;", "get_stack_trace_0"),
        ] + (if java_version <= JAVA_20 {
            seq![
                entry("java/lang/Thread", "isAlive0", "()Z", "is_alive_0"),
            ]
        } else {
            Seq::<NativeMethod>::empty()
        }) + seq![
            entry("java/lang/Thread", "setCurrentThread", "(Ljava/lang/Thread;)V", "set_current_thread"),
            entry("java/lang/Thread", "setExtentLocalCache", "([Ljava/lang/Object;)V", "set_extent_local_cache"),
        ] + (if java_version <= JAVA_21 {
            seq![
                entry("java/lang/Thread", "sleep0", "(J)V", "sleep_0"),
            ]
        } else {
            Seq::<NativeMethod>::empty()
        }) + seq![
            entry("java/lang/Thread", "yield0", "()V", "yield_0"),
        ]
    } else {
        Seq::<NativeMethod>::empty()
    }) + (if java_version >= JAVA_20 {
        seq![
            entry("java/lang/Thread", "ensureMaterializedForStackWalk", "(Ljava/lang/Object;)V", "ensure_materialized_for_stack_walk"),
            entry("java/lang/Thread", "findScopedValueBindings", "()Ljava/lang/Object;", "find_scoped_value_bindings"),
            entry("java/lang/Thread", "scopedValueCache", "()[Ljava/lang/Object;", "scoped_value_cache"),
            entry("java/lang/Thread", "setScopedValueCache", "([Ljava/lang/Object;)V", "set_scoped_value_cache"),
        ]
    } else {
        Seq::<NativeMethod>::empty()
    }) + (if java_version >= JAVA_22 {
        seq![
            entry("java/lang/Thread", "sleepNanos0", "(J)V", "sleep_nanos_0"),
        ]
    } else {
        Seq::<NativeMethod>::empty()
    }) + seq![
        entry("java/lang/Thread", "currentThread", "()Ljava/lang/Thread;", "current_thread"),
        entry("java/lang/Thread", "dumpThreads", "([Ljava/lang/Thread;)[[Ljava/lang/StackTraceElement;", "dump_threads"),
        entry("java/lang/Thread", "getThreads", "()[Ljava/lang/Thread;", "get_threads"),
        entry("java/lang/Thread", "holdsLock", "(Ljava/lang/Object;)Z", "holds_lock"),
        entry("java/lang/Thread", "interrupt0", "()V", "interrupt_0"),
        entry("java/lang/Thread", "registerNatives", "()V", "register_natives"),
        entry("java/lang/Thread", "setNativeName", "(Ljava/lang/String;)V", "set_native_name"),
        entry("java/lang/Thread", "setPriority0", "(I)V", "set_priority_0"),
        entry("java/lang/Thread", "start0", "()V", "start_0"),
        entry("java/lang/Thread", "stop0", "(Ljava/lang/Object;)V", "stop_0"),
        entry("java/lang/Thread", "suspend0", "()V", "suspend_0"),
    ]
}

/// Register all native methods for `java.lang.Thread`.
pub fn register(registry: &mut MethodRegistry)
    ensures
        final(registry).java_version() == old(registry).java_version(),
        final(registry).methods() == old(registry).methods() + natives(old(registry).java_version()),
{
    let class_name = "java/lang/Thread";
    let java_version = registry.java_version();

    if java_version <= JAVA_11 || java_version == JAVA_18 {
        registry.register(class_name, "countStackFrames", "()I", "count_stack_frames");
        registry.register(class_name, "isAlive", "()Z", "is_alive");
        registry.register(class_name, "isInterrupted", "(Z)Z", "is_interrupted");
    } else {
        registry.register(class_name, "clearInterruptEvent", "()V", "clear_interrupt_event");
    }

    if java_version <= JAVA_19 {
        registry.register(class_name, "resume0", "()V", "resume_0");
    }
    if java_version == JAVA_19 {
        registry.register(class_name, "extentLocalCache", "()[Ljava/lang/Object;", "extent_local_cache");
    }
    if java_version >= JAVA_19 {
        registry.register(class_name, "currentCarrierThread", "()Ljava/lang/Thread;", "current_carrier_thread");
        registry.register(class_name, "getNextThreadIdOffset", "()J", "get_next_thread_id_offset");
        registry.register(class_name, "getStackTrace0", "()Ljava/lang/Object;", "get_stack_trace_0");

        if java_version <= JAVA_20 {
            registry.register(class_name, "isAlive0", "()Z", "is_alive_0");
        }

        registry.register(class_name, "setCurrentThread", "(Ljava/lang/Thread;)V", "set_current_thread");
        registry.register(class_name, "setExtentLocalCache", "([Ljava/lang/Object;)V", "set_extent_local_cache");

        if java_version <= JAVA_21 {
            registry.register(class_name, "sleep0", "(J)V", "sleep_0");
        }

        registry.register(class_name, "yield0", "()V", "yield_0");
    }

    if java_version >= JAVA_20 {
        registry.register(class_name, "ensureMaterializedForStackWalk", "(Ljava/lang/Object;)V", "ensure_materialized_for_stack_walk");
        registry.register(class_name, "findScopedValueBindings", "()Ljava/lang/Object;", "find_scoped_value_bindings");
        registry.register(class_name, "scopedValueCache", "()[Ljava/lang/Object;", "scoped_value_cache");
        registry.register(class_name, "setScopedValueCache", "([Ljava/lang/Object;)V", "set_scoped_value_cache");
    }

    if java_version >= JAVA_22 {
        registry.register(class_name, "sleepNanos0", "(J)V", "sleep_nanos_0");
    }

    registry.register(class_name, "currentThread", "()Ljava/lang/Thread;", "current_thread");
    registry.register(class_name, "dumpThreads", "([Ljava/lang/Thread;)[[Ljava/lang/StackTraceElement;", "dump_threads");
    registry.register(class_name, "getThreads", "()[Ljava/lang/Thread;", "get_threads");
    registry.register(class_name, "holdsLock", "(Ljava/lang/Object;)Z", "holds_lock");
    registry.register(class_name, "interrupt0", "()V", "interrupt_0");
    registry.register(class_name, "registerNatives", "()V", "register_natives");
    registry.register(class_name, "setNativeName", "(Ljava/lang/String;)V", "set_native_name");
    registry.register(class_name, "setPriority0", "(I)V", "set_priority_0");
    registry.register(class_name, "start0", "()V", "start_0");
    registry.register(class_name, "stop0", "(Ljava/lang/Object;)V", "stop_0");
    registry.register(class_name, "suspend0", "()V", "suspend_0");
    assert(registry.methods() =~= old(registry).methods() + natives(old(registry).java_version()));
}

} // verus!
