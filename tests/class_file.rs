use ristretto::error::Error;
use ristretto::class_file::{Attribute, ClassFile, Method};
use ristretto::constant_pool::ConstantPool;

fn utf8(bytes: &mut Vec<u8>, text: &str) {
    bytes.push(1);
    bytes.extend_from_slice(&(text.len() as u16).to_be_bytes());
    bytes.extend_from_slice(text.as_bytes());
}

/// A class named `X` extending `java/lang/Object`, with no members and no attributes.
fn minimal_class() -> Vec<u8> {
    let mut bytes = vec![0xCA, 0xFE, 0xBA, 0xBE, 0x00, 0x00, 0x00, 0x34, 0x00, 0x05];
    utf8(&mut bytes, "X");
    bytes.extend_from_slice(&[7, 0, 1]);
    utf8(&mut bytes, "java/lang/Object");
    bytes.extend_from_slice(&[7, 0, 3]);
    bytes.extend_from_slice(&[0x00, 0x21, 0x00, 0x02, 0x00, 0x04, 0, 0, 0, 0, 0, 0, 0, 0]);
    bytes
}

#[test]
fn minimal_class_round_trip() {
    let bytes = minimal_class();
    let class_file = ClassFile::from_bytes(&bytes).expect("parses");
    assert_eq!(0x34, class_file.major_version);
    assert_eq!("X", class_file.class_name().expect("class name"));
    assert_eq!(bytes, class_file.to_bytes().expect("writes"));
}

#[test]
fn long_constant_keeps_its_unusable_slot() {
    let mut bytes = vec![0xCA, 0xFE, 0xBA, 0xBE, 0x00, 0x00, 0x00, 0x34, 0x00, 0x07];
    utf8(&mut bytes, "X");
    bytes.extend_from_slice(&[7, 0, 1]);
    bytes.extend_from_slice(&[5, 0, 0, 0, 0, 0, 0, 0, 42]);
    utf8(&mut bytes, "java/lang/Object");
    bytes.extend_from_slice(&[7, 0, 5]);
    bytes.extend_from_slice(&[0x00, 0x21, 0x00, 0x02, 0x00, 0x06, 0, 0, 0, 0, 0, 0, 0, 0]);
    let class_file = ClassFile::from_bytes(&bytes).expect("parses");
    assert_eq!(6, class_file.constant_pool.len());
    assert!(class_file.constant_pool.get(4).is_none());
    assert_eq!(bytes, class_file.to_bytes().expect("writes"));
}

#[test]
fn trailing_bytes_and_bad_magic_are_rejected() {
    let mut bytes = minimal_class();
    bytes.push(0);
    assert!(ClassFile::from_bytes(&bytes).is_err());
    let mut bytes = minimal_class();
    bytes[0] = 0;
    assert!(ClassFile::from_bytes(&bytes).is_err());
    let bytes = minimal_class();
    assert!(ClassFile::from_bytes(&bytes[..bytes.len() - 1]).is_err());
}

#[test]
fn test_method() {
    let mut constant_pool = ConstantPool::new();
    constant_pool.add_utf8("ConstantValue").expect("added");
    let attribute_bytes = [0, 1, 0, 0, 0, 2, 4, 2];
    let attribute = Attribute { name_index: 1, info: attribute_bytes[6..].to_vec() };
    let method = Method { access_flags: 0x0001, name_index: 1, descriptor_index: 2, attributes: vec![attribute] };

    let mut bytes = Vec::new();
    method.to_bytes(&mut bytes).expect("writes");
    assert_eq!(&bytes[6..], &[0, 1, 0, 1, 0, 0, 0, 2, 4, 2]);

    let (result, end) = Method::from_bytes(&constant_pool, &bytes, 0).expect("parses");
    assert_eq!(bytes.len(), end);
    assert_eq!(result, method);
}

#[test]
fn attribute_length_past_the_end_is_rejected() {
    let bytes = [0, 1, 0, 2, 0, 0, 0, 1, 0, 0, 0, 9, 4, 2];
    assert!(Method::from_bytes(&ConstantPool::new(), &bytes, 0).is_err());
}

#[test]
fn method_errors_are_truncation() {
    let pool = ConstantPool::new();
    assert!(matches!(Method::from_bytes(&pool, &[0, 1, 0, 2], 0), Err(Error::Truncated)));
    assert!(matches!(Method::from_bytes(&pool, &[0, 1, 0, 2, 0, 3, 0, 1, 0, 1, 0, 0, 0, 9, 1], 0), Err(Error::Truncated)));
}

#[test]
fn code_attribute_must_fill_its_length() {
    let mut pool = ConstantPool::new();
    let code = pool.add_utf8("Code").expect("added");
    assert_eq!(1, code);
    // a Code attribute of two bytes cannot hold its fixed parts
    let short = [0, 9, 0, 2, 0, 3, 0, 1, 0, 1, 0, 0, 0, 2, 0, 1];
    assert!(matches!(Method::from_bytes(&pool, &short, 0), Err(Error::AttributeLengthMismatch)));
    // max_stack 1, max_locals 1, code [return], no handlers, no attributes: 13 bytes
    let good = [0, 9, 0, 2, 0, 3, 0, 1, 0, 1, 0, 0, 0, 13, 0, 1, 0, 1, 0, 0, 0, 1, 0xb1, 0, 0, 0, 0];
    let (method, end) = Method::from_bytes(&pool, &good, 0).expect("parses");
    assert_eq!(good.len(), end);
    assert_eq!(1, method.attributes.len());
}

#[test]
fn class_name_of_a_non_class_fails() {
    let mut bytes = minimal_class();
    // this_class names the Utf8 entry 1 instead of the Class entry 2
    let at = bytes.len() - 11;
    bytes[at] = 1;
    let class_file = ClassFile::from_bytes(&bytes).expect("parses");
    assert!(class_file.class_name().is_err());
}
