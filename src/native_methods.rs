//! Native methods: a table from class, method name and descriptor to the host function
//! that implements the method, filled for the Java release the virtual machine runs.

use crate::error::Error;
use vstd::prelude::*;
use vstd::string::{StrSliceExecFns, StringExecFns};

pub mod com_sun_imageio_plugins_jpeg_jpegimagewriter;
pub mod java_io_filedescriptor;
pub mod java_io_fileinputstream;
pub mod java_lang_compiler;
pub mod java_lang_strictmath;
pub mod java_lang_thread;
pub mod java_lang_classloader;
pub mod jdk_internal_misc_unsafe;
pub mod jdk_internal_reflect_constantpool;
pub mod jdk_internal_misc_vm;
pub mod jdk_internal_vm_vmsupport;
pub mod sun_instrument_instrumentationimpl;
pub mod sun_java2d_loops_transformhelper;
pub mod sun_java2d_opengl_cglgraphicsconfig;
pub mod sun_management_filesystemimpl;
pub mod sun_reflect_reflection;
pub mod sun_security_pkcs11_secmod;
pub mod sun_java2d_loops_drawglyphlistlcd;
pub mod sun_java2d_metal_mtllayer;
pub mod sun_java2d_opengl_glxsurfacedata;
pub mod sun_java2d_pipe_bufferedmaskblit;
pub mod sun_nio_ch_filechannelimpl;

verus! {

/// The class-file major versions of the Java releases whose native methods differ.
pub const JAVA_8: u16 = 52;
pub const JAVA_11: u16 = 55;
pub const JAVA_17: u16 = 61;
pub const JAVA_18: u16 = 62;
pub const JAVA_19: u16 = 63;
pub const JAVA_20: u16 = 64;
pub const JAVA_21: u16 = 65;
pub const JAVA_22: u16 = 66;

/// A registered native method and the name of the host function that implements it.
#[derive(Debug, Clone, Copy, PartialEq, Eq)]
pub struct NativeMethod {
    pub class_name: &'static str,
    pub method_name: &'static str,
    pub descriptor: &'static str,
    pub function: &'static str,
}

/// The native methods of one Java release.
#[derive(Debug)]
pub struct MethodRegistry {
    java_version: u16,
    methods: Vec<NativeMethod>,
}

/// The registration of `function` for a method.
pub open spec fn entry(
    class_name: &'static str,
    method_name: &'static str,
    descriptor: &'static str,
    function: &'static str,
) -> NativeMethod {
    NativeMethod { class_name, method_name, descriptor, function }
}

/// Every native method registered for the release with class-file major version
/// `java_version`, in order of registration.
pub open spec fn all_natives(java_version: u16) -> Seq<NativeMethod> {
    com_sun_imageio_plugins_jpeg_jpegimagewriter::natives(java_version)
        + java_io_filedescriptor::natives(java_version)
        + java_io_fileinputstream::natives(java_version)
        + java_lang_compiler::natives(java_version)
        + java_lang_strictmath::natives(java_version)
        + java_lang_thread::natives(java_version)
        + java_lang_classloader::natives(java_version)
        + jdk_internal_misc_unsafe::natives(java_version)
        + jdk_internal_reflect_constantpool::natives(java_version)
        + jdk_internal_misc_vm::natives(java_version)
        + jdk_internal_vm_vmsupport::natives(java_version)
        + sun_instrument_instrumentationimpl::natives(java_version)
        + sun_java2d_loops_transformhelper::natives(java_version)
        + sun_java2d_opengl_cglgraphicsconfig::natives(java_version)
        + sun_management_filesystemimpl::natives(java_version)
        + sun_reflect_reflection::natives(java_version)
        + sun_security_pkcs11_secmod::natives(java_version)
        + sun_java2d_loops_drawglyphlistlcd::natives(java_version)
        + sun_java2d_metal_mtllayer::natives(java_version)
        + sun_java2d_opengl_glxsurfacedata::natives(java_version)
        + sun_java2d_pipe_bufferedmaskblit::natives(java_version)
        + sun_nio_ch_filechannelimpl::natives(java_version)
}

/// `m` is registered under this class, method name and descriptor.
pub open spec fn has_key(m: NativeMethod, class_name: Seq<char>, method_name: Seq<char>, descriptor: Seq<char>) -> bool {
    m.class_name@ == class_name && m.method_name@ == method_name && m.descriptor@ == descriptor
}

/// The last of the first `k` registrations under the key: a later registration replaces
/// an earlier one.
pub open spec fn last_match(
    methods: Seq<NativeMethod>,
    class_name: Seq<char>,
    method_name: Seq<char>,
    descriptor: Seq<char>,
    k: int,
) -> Option<int>
    decreases k,
{
    if k <= 0 {
        None
    } else if has_key(methods[k - 1], class_name, method_name, descriptor) {
        Some(k - 1)
    } else {
        last_match(methods, class_name, method_name, descriptor, k - 1)
    }
}

/// Whether two strings are equal.
fn same_text(a: &str, b: &str) -> (r: bool)
    ensures
        r == (a@ == b@),
{
    let n = a.unicode_len();
    if n != b.unicode_len() {
        return false;
    }
    let mut i: usize = 0;
    while i < n
        invariant
            n == a@.len(),
            n == b@.len(),
            i <= n,
            forall|j: int| 0 <= j < i ==> a@[j] == b@[j],
        decreases n - i,
    {
        if a.get_char(i) != b.get_char(i) {
            return false;
        }
        i = i + 1;
    }
    assert(a@ =~= b@);
    true
}

impl MethodRegistry {
    pub closed spec fn spec_java_version(&self) -> u16 {
        self.java_version
    }

    pub closed spec fn methods(&self) -> Seq<NativeMethod> {
        self.methods@
    }

    pub open spec fn spec_len(&self) -> usize {
        self.methods().len() as usize
    }

    /// An empty table for the release with class-file major version `java_version`.
    pub fn empty(java_version: u16) -> (r: MethodRegistry)
        ensures
            r.spec_java_version() == java_version,
            r.methods().len() == 0,
    {
        MethodRegistry { java_version, methods: Vec::new() }
    }

    /// The table of every native method of the release with class-file major version
    /// `java_version`.
    pub fn new(java_version: u16) -> (r: MethodRegistry)
        ensures
            r.spec_java_version() == java_version,
            r.methods() == all_natives(java_version),
    {
        let mut registry = MethodRegistry::empty(java_version);
        com_sun_imageio_plugins_jpeg_jpegimagewriter::register(&mut registry);
        java_io_filedescriptor::register(&mut registry);
        java_io_fileinputstream::register(&mut registry);
        java_lang_compiler::register(&mut registry);
        java_lang_strictmath::register(&mut registry);
        java_lang_thread::register(&mut registry);
        java_lang_classloader::register(&mut registry);
        jdk_internal_misc_unsafe::register(&mut registry);
        jdk_internal_reflect_constantpool::register(&mut registry);
        jdk_internal_misc_vm::register(&mut registry);
        jdk_internal_vm_vmsupport::register(&mut registry);
        sun_instrument_instrumentationimpl::register(&mut registry);
        sun_java2d_loops_transformhelper::register(&mut registry);
        sun_java2d_opengl_cglgraphicsconfig::register(&mut registry);
        sun_management_filesystemimpl::register(&mut registry);
        sun_reflect_reflection::register(&mut registry);
        sun_security_pkcs11_secmod::register(&mut registry);
        sun_java2d_loops_drawglyphlistlcd::register(&mut registry);
        sun_java2d_metal_mtllayer::register(&mut registry);
        sun_java2d_opengl_glxsurfacedata::register(&mut registry);
        sun_java2d_pipe_bufferedmaskblit::register(&mut registry);
        sun_nio_ch_filechannelimpl::register(&mut registry);
        assert(registry.methods() =~= all_natives(java_version));
        registry
    }

    /// The class-file major version of the release.
    #[verifier::when_used_as_spec(spec_java_version)]
    pub fn java_version(&self) -> (r: u16)
        ensures
            r == self.spec_java_version(),
    {
        self.java_version
    }

    /// The number of registrations.
    #[verifier::when_used_as_spec(spec_len)]
    pub fn len(&self) -> (r: usize)
        ensures
            r == self.spec_len(),
    {
        self.methods.len()
    }

    /// Registers `function` for the method; it replaces an earlier registration of it.
    pub fn register(
        &mut self,
        class_name: &'static str,
        method_name: &'static str,
        descriptor: &'static str,
        function: &'static str,
    )
        ensures
            final(self).spec_java_version() == old(self).spec_java_version(),
            final(self).methods() == old(self).methods().push(
                NativeMethod { class_name, method_name, descriptor, function },
            ),
    {
        self.methods.push(NativeMethod { class_name, method_name, descriptor, function });
    }

    /// The host function of the method: the last one registered for it; an
    /// `UnsatisfiedLinkError` where none is.
    pub fn lookup(&self, class_name: &str, method_name: &str, descriptor: &str) -> (r: Result<
        &'static str,
        Error,
    >)
        ensures
            match last_match(self.methods(), class_name@, method_name@, descriptor@, self.methods().len() as int) {
                Option::Some(k) => r == Ok::<&'static str, Error>(self.methods()[k].function),
                Option::None => r matches Err(Error::UnsatisfiedLinkError(_)),
            },
    {
        let mut k: usize = self.methods.len();
        while k > 0
            invariant
                k <= self.methods@.len(),
                last_match(self.methods@, class_name@, method_name@, descriptor@, self.methods@.len() as int)
                    == last_match(self.methods@, class_name@, method_name@, descriptor@, k as int),
            decreases k,
        {
            let m = &self.methods[k - 1];
            if same_text(m.class_name, class_name) && same_text(m.method_name, method_name)
                && same_text(m.descriptor, descriptor) {
                return Ok(m.function);
            }
            k = k - 1;
        }
        let mut name = String::from_str(class_name);
        name.append(".");
        name.append(method_name);
        name.append(descriptor);
        Err(Error::UnsatisfiedLinkError(name))
    }
}

} // verus!
