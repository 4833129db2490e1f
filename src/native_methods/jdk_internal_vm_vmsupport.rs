//! The native methods of `jdk.internal.vm.VMSupport`.

use crate::native_methods::{entry, MethodRegistry, NativeMethod};
use vstd::prelude::*;

verus! {

/// The native methods of `jdk.internal.vm.VMSupport` registered for the release with class-file major
/// version `java_version`, in order.
pub open spec fn natives(java_version: u16) -> Seq<NativeMethod> {
    seq![
        entry("jdk/internal/vm/VMSupport", "getVMTemporaryDirectory", "()Ljava/lang/String;", "get_vm_temporary_directory"),
        entry("jdk/internal/vm/VMSupport", "initAgentProperties", "(Ljava/util/Properties;)Ljava/util/Properties;", "init_agent_properties"),
    ]
}

/// Register all native methods for `jdk.internal.vm.VMSupport`.
pub fn register(registry: &mut MethodRegistry)
    ensures
        final(registry).java_version() == old(registry).java_version(),
        final(registry).methods() == old(registry).methods() + natives(old(registry).java_version()),
{
    let class_name = "jdk/internal/vm/VMSupport";
    registry.register(class_name, "getVMTemporaryDirectory", "()Ljava/lang/String;", "get_vm_temporary_directory");
    registry.register(class_name, "initAgentProperties", "(Ljava/util/Properties;)Ljava/util/Properties;", "init_agent_properties");
    assert(registry.methods() =~= old(registry).methods() + natives(old(registry).java_version()));
}

} // verus!
