//! The native methods of `sun.java2d.loops.DrawGlyphListLCD`.

use crate::native_methods::{entry, MethodRegistry, NativeMethod, JAVA_11};
use vstd::prelude::*;

verus! {

/// The native methods of `sun.java2d.loops.DrawGlyphListLCD` registered for the release with class-file major
/// version `java_version`, in order.
pub open spec fn natives(java_version: u16) -> Seq<NativeMethod> {
    (if java_version <= JAVA_11 {
        seq![
            entry("sun/java2d/loops/DrawGlyphListLCD", "DrawGlyphListLCD", "(Lsun/java2d/SunGraphics2D;Lsun/java2d/SurfaceData;Lsun/font/GlyphList;)V", "draw_glyph_list_lcd"),
        ]
    } else {
        seq![
            entry("sun/java2d/loops/DrawGlyphListLCD", "DrawGlyphListLCD", "(Lsun/java2d/SunGraphics2D;Lsun/java2d/SurfaceData;Lsun/font/GlyphList;II)V", "draw_glyph_list_lcd"),
        ]
    })
}

/// Register all native methods for `sun.java2d.loops.DrawGlyphListLCD`.
pub fn register(registry: &mut MethodRegistry)
    ensures
        final(registry).java_version() == old(registry).java_version(),
        final(registry).methods() == old(registry).methods() + natives(old(registry).java_version()),
{
    let class_name = "sun/java2d/loops/DrawGlyphListLCD";
    let java_version = registry.java_version();

    if java_version <= JAVA_11 {
        registry.register(class_name, "DrawGlyphListLCD", "(Lsun/java2d/SunGraphics2D;Lsun/java2d/SurfaceData;Lsun/font/GlyphList;)V", "draw_glyph_list_lcd");
    } else {
        registry.register(class_name, "DrawGlyphListLCD", "(Lsun/java2d/SunGraphics2D;Lsun/java2d/SurfaceData;Lsun/font/GlyphList;II)V", "draw_glyph_list_lcd");
    }
    assert(registry.methods() =~= old(registry).methods() + natives(old(registry).java_version()));
}

} // verus!
