use ristretto::constant_pool::{Constant, ConstantPool};

#[test]
fn utf8_is_interned() {
    let mut pool = ConstantPool::new();
    let first = pool.add_utf8("foo").expect("added");
    let len = pool.len();
    let second = pool.add_utf8("foo").expect("added");
    assert_eq!(first, second);
    assert_eq!(len, pool.len());
    let other = pool.add_utf8("bar").expect("added");
    assert_ne!(first, other);
}

#[test]
fn adders_intern_and_index_from_one() {
    let mut pool = ConstantPool::new();
    assert_eq!(1, pool.add_integer(42).expect("added"));
    assert_eq!(2, pool.add_long(42).expect("added"));
    // the long takes two slots
    assert_eq!(4, pool.add_integer(7).expect("added"));
    assert_eq!(2, pool.add_long(42).expect("interned"));
    assert!(pool.get(3).is_none());
    assert!(pool.get(0).is_none());
    assert_eq!(Some(&Constant::Integer(7)), pool.get(4));
    let class = pool.add_class("java/lang/Object").expect("added");
    assert_eq!(class, pool.add_class("java/lang/Object").expect("interned"));
    assert_eq!("java/lang/Object", pool.try_get_class_name(class).expect("class name"));
}

#[test]
fn add_does_not_intern() {
    let mut pool = ConstantPool::new();
    let a = pool.add(Constant::Integer(1)).expect("added");
    let b = pool.add(Constant::Integer(1)).expect("added");
    assert_ne!(a, b);
}

#[test]
fn pool_round_trip() {
    let mut pool = ConstantPool::new();
    pool.add_string("foo").expect("added");
    pool.add_double(42.1f64.to_bits()).expect("added");
    pool.add_float(1.5f32.to_bits()).expect("added");
    pool.add(Constant::MethodHandle { reference_kind: 6, reference_index: 1 }).expect("added");
    let mut bytes = Vec::new();
    pool.to_bytes(&mut bytes).expect("writes");
    let (decoded, end) = ConstantPool::from_bytes(&bytes, 0).expect("parses");
    assert_eq!(bytes.len(), end);
    assert_eq!(pool, decoded);
    assert_eq!(u16::from_be_bytes([bytes[0], bytes[1]]) as usize, pool.len() + 1);
}

#[test]
fn try_get_utf8_errors() {
    let mut pool = ConstantPool::new();
    let index = pool.add_integer(3).expect("added");
    assert!(pool.try_get_utf8(index).is_err());
    assert!(pool.try_get_utf8(9).is_err());
}

#[test]
fn strings_are_stored_in_modified_utf8() {
    let mut pool = ConstantPool::new();
    let nul = pool.add_utf8("a\u{0}b").expect("added");
    assert_eq!(Some(&Constant::Utf8(vec![0x61, 0xC0, 0x80, 0x62])), pool.get(nul));
    let emoji = pool.add_utf8("\u{1F600}").expect("added");
    assert_eq!(Some(&Constant::Utf8(vec![0xED, 0xA0, 0xBD, 0xED, 0xB8, 0x80])), pool.get(emoji));
    let accent = pool.add_utf8("\u{e9}").expect("added");
    assert_eq!(Some(&Constant::Utf8(vec![0xC3, 0xA9])), pool.get(accent));
    assert_eq!("\u{e9}", pool.try_get_utf8(accent).expect("text"));
}
