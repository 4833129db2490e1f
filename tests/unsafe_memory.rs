use ristretto::unsafe_memory::{compare_and_set, get_reference_type, BaseType, Storage, Value};

#[test]
fn null_base_reads_the_offset() {
    assert_eq!(Value::Long(42), get_reference_type(None, 42, Some(BaseType::Long)).expect("long"));
    assert_eq!(Value::Int(42), get_reference_type(None, 42, Some(BaseType::Int)).expect("int"));
    assert!(get_reference_type(None, 42, Some(BaseType::Double)).is_err());
    assert!(get_reference_type(None, 42, None).is_err());
    assert!(get_reference_type(None, i64::MAX, Some(BaseType::Byte)).is_err());
}

#[test]
fn reads_fields_and_elements() {
    let object = Storage::Fields(vec![Value::Int(1), Value::Object(Some(7))]);
    assert_eq!(Value::Object(Some(7)), get_reference_type(Some(&object), 1, None).expect("field"));
    assert!(get_reference_type(Some(&object), 2, None).is_err());
    let array = Storage::References(vec![None, Some(3)]);
    assert_eq!(Value::Object(Some(3)), get_reference_type(Some(&array), 1, None).expect("element"));
    assert!(get_reference_type(Some(&array), -1, None).is_err());
}

#[test]
fn compare_and_set_swaps_only_on_match() {
    let mut object = Storage::Fields(vec![Value::Int(5), Value::Long(9)]);
    assert!(!compare_and_set(&mut object, 0, Value::Int(4), Value::Int(6)).expect("compares"));
    assert!(compare_and_set(&mut object, 0, Value::Int(5), Value::Int(6)).expect("swaps"));
    assert_eq!(Storage::Fields(vec![Value::Int(6), Value::Long(9)]), object);
    let mut array = Storage::References(vec![None]);
    assert!(compare_and_set(&mut array, 0, Value::Object(None), Value::Object(Some(2))).expect("swaps"));
    assert_eq!(Storage::References(vec![Some(2)]), array);
    assert!(compare_and_set(&mut array, 0, Value::Int(0), Value::Int(1)).is_err());
}

use ristretto::unsafe_memory::object_field_offset;

#[test]
fn field_offsets_follow_the_layout() {
    let layout = vec!["value".to_string(), "hash".to_string(), "coder".to_string()];
    assert_eq!(1, object_field_offset(&layout, "hash").expect("field"));
    assert_eq!(0, object_field_offset(&layout, "value").expect("field"));
    assert!(object_field_offset(&layout, "missing").is_err());
}
