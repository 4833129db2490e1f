//! The native methods of `com.sun.imageio.plugins.jpeg.JPEGImageWriter`.

use crate::native_methods::{entry, MethodRegistry, NativeMethod};
use vstd::prelude::*;

verus! {

/// The native methods of `com.sun.imageio.plugins.jpeg.JPEGImageWriter` registered for the release with class-file major
/// version `java_version`, in order.
pub open spec fn natives(java_version: u16) -> Seq<NativeMethod> {
    seq![
        entry("com/sun/imageio/plugins/jpeg/JPEGImageWriter", "abortWrite", "(J)V", "abort_write"),
        entry("com/sun/imageio/plugins/jpeg/JPEGImageWriter", "disposeWriter", "(J)V", "dispose_writer"),
        entry("com/sun/imageio/plugins/jpeg/JPEGImageWriter", "initJPEGImageWriter", "()J", "init_jpeg_image_writer"),
        entry("com/sun/imageio/plugins/jpeg/JPEGImageWriter", "initWriterIDs", "(Ljava/lang/Class;Ljava/lang/Class;)V", "init_writer_ids"),
        entry("com/sun/imageio/plugins/jpeg/JPEGImageWriter", "resetWriter", "(J)V", "reset_writer"),
        entry("com/sun/imageio/plugins/jpeg/JPEGImageWriter", "setDest", "(J)V", "set_dest"),
        entry("com/sun/imageio/plugins/jpeg/JPEGImageWriter", "writeImage", "(J[BIII[IIIIII[Ljavax/imageio/plugins/jpeg/JPEGQTable;Z[Ljavax/imageio/plugins/jpeg/JPEGHuffmanTable;[Ljavax/imageio/plugins/jpeg/JPEGHuffmanTable;ZZZI[I[I[I[I[IZI)Z", "write_image"),
        entry("com/sun/imageio/plugins/jpeg/JPEGImageWriter", "writeTables", "(J[Ljavax/imageio/plugins/jpeg/JPEGQTable;[Ljavax/imageio/plugins/jpeg/JPEGHuffmanTable;[Ljavax/imageio/plugins/jpeg/JPEGHuffmanTable;)V", "write_tables"),
    ]
}

/// Register all native methods for `com.sun.imageio.plugins.jpeg.JPEGImageWriter`.
pub fn register(registry: &mut MethodRegistry)
    ensures
        final(registry).java_version() == old(registry).java_version(),
        final(registry).methods() == old(registry).methods() + natives(old(registry).java_version()),
{
    let class_name = "com/sun/imageio/plugins/jpeg/JPEGImageWriter";
    registry.register(class_name, "abortWrite", "(J)V", "abort_write");
    registry.register(class_name, "disposeWriter", "(J)V", "dispose_writer");
    registry.register(class_name, "initJPEGImageWriter", "()J", "init_jpeg_image_writer");
    registry.register(class_name, "initWriterIDs", "(Ljava/lang/Class;Ljava/lang/Class;)V", "init_writer_ids");
    registry.register(class_name, "resetWriter", "(J)V", "reset_writer");
    registry.register(class_name, "setDest", "(J)V", "set_dest");
    registry.register(class_name, "writeImage", "(J[BIII[IIIIII[Ljavax/imageio/plugins/jpeg/JPEGQTable;Z[Ljavax/imageio/plugins/jpeg/JPEGHuffmanTable;[Ljavax/imageio/plugins/jpeg/JPEGHuffmanTable;ZZZI[I[I[I[I[IZI)Z", "write_image");
    registry.register(class_name, "writeTables", "(J[Ljavax/imageio/plugins/jpeg/JPEGQTable;[Ljavax/imageio/plugins/jpeg/JPEGHuffmanTable;[Ljavax/imageio/plugins/jpeg/JPEGHuffmanTable;)V", "write_tables");
    assert(registry.methods() =~= old(registry).methods() + natives(old(registry).java_version()));
}

} // verus!
