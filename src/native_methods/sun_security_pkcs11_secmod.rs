//! The native methods of `sun.security.pkcs11.Secmod`.

use crate::native_methods::{entry, MethodRegistry, NativeMethod};
use vstd::prelude::*;

verus! {

/// The native methods of `sun.security.pkcs11.Secmod` registered for the release with class-file major
/// version `java_version`, in order.
pub open spec fn natives(java_version: u16) -> Seq<NativeMethod> {
    seq![
        entry("sun/security/pkcs11/Secmod", "nssGetLibraryHandle", "(Ljava/lang/String;)J", "nss_get_library_handle"),
        entry("sun/security/pkcs11/Secmod", "nssGetModuleList", "(JLjava/lang/String;)Ljava/lang/Object;", "nss_get_module_list"),
        entry("sun/security/pkcs11/Secmod", "nssInitialize", "(Ljava/lang/String;JLjava/lang/String;Z)Z", "nss_initialize"),
        entry("sun/security/pkcs11/Secmod", "nssLoadLibrary", "(Ljava/lang/String;)J", "nss_load_library"),
        entry("sun/security/pkcs11/Secmod", "nssVersionCheck", "(JLjava/lang/String;)Z", "nss_version_check"),
    ]
}

/// Register all native methods for `sun.security.pkcs11.Secmod`.
pub fn register(registry: &mut MethodRegistry)
    ensures
        final(registry).java_version() == old(registry).java_version(),
        final(registry).methods() == old(registry).methods() + natives(old(registry).java_version()),
{
    let class_name = "sun/security/pkcs11/Secmod";
    registry.register(class_name, "nssGetLibraryHandle", "(Ljava/lang/String;)J", "nss_get_library_handle");
    registry.register(class_name, "nssGetModuleList", "(JLjava/lang/String;)Ljava/lang/Object;", "nss_get_module_list");
    registry.register(class_name, "nssInitialize", "(Ljava/lang/String;JLjava/lang/String;Z)Z", "nss_initialize");
    registry.register(class_name, "nssLoadLibrary", "(Ljava/lang/String;)J", "nss_load_library");
    registry.register(class_name, "nssVersionCheck", "(JLjava/lang/String;)Z", "nss_version_check");
    assert(registry.methods() =~= old(registry).methods() + natives(old(registry).java_version()));
}

} // verus!
