use ristretto::constant_pool::constant_debug;
use ristretto::constant_pool::Constant;
use ristretto::constant_pool::ConstantPool;
use ristretto::error::Error;
use ristretto::ldc::{ldc, ldc2_w, ldc_w, load_constant, LoadedConstant};

#[test]
fn test_ldc() {
    let mut pool = ConstantPool::new();
    let index = pool.add_integer(42).expect("added");
    let index = u8::try_from(index).expect("small index");
    assert_eq!(LoadedConstant::Int(42), ldc(&pool, index).expect("loads"));
}

#[test]
fn test_ldc_w() {
    let mut pool = ConstantPool::new();
    let index = pool.add_integer(42).expect("added");
    assert_eq!(LoadedConstant::Int(42), ldc_w(&pool, index).expect("loads"));
}

#[test]
fn test_constant_integer() {
    let mut pool = ConstantPool::new();
    let index = pool.add_integer(42).expect("added");
    assert_eq!(LoadedConstant::Int(42), load_constant(&pool, index).expect("loads"));
}

#[test]
fn test_load_constant_float() {
    let mut pool = ConstantPool::new();
    let index = pool.add_float(42.1f32.to_bits()).expect("added");
    let LoadedConstant::Float(bits) = load_constant(&pool, index).expect("loads") else {
        panic!("not a float");
    };
    let value = f32::from_bits(bits) - 42.1f32;
    assert!(value.abs() < 0.1f32);
}

#[test]
fn test_load_constant_string() {
    let mut pool = ConstantPool::new();
    let index = pool.add_string("foo").expect("added");
    assert_eq!(LoadedConstant::String("foo".to_string()), load_constant(&pool, index).expect("loads"));
}

#[test]
fn test_load_constant_class() {
    let mut pool = ConstantPool::new();
    let index = pool.add_class("java/lang/Object").expect("added");
    assert_eq!(
        LoadedConstant::Class("java/lang/Object".to_string()),
        load_constant(&pool, index).expect("loads")
    );
}

#[test]
fn test_load_constant_invalid_index() {
    let pool = ConstantPool::new();
    let result = load_constant(&pool, 42);
    assert!(matches!(result, Err(Error::InvalidConstantIndex(42))));
}

#[test]
fn test_load_constant_invalid_type() {
    let mut pool = ConstantPool::new();
    let index = pool.add_long(42).expect("added");
    let result = load_constant(&pool, index);
    assert!(matches!(
        result,
        Err(Error::InvalidConstant { expected, actual }) if expected == "integer|float|string|class|methodhandle|methodtype|dynamic" && actual == "Long(42)"
    ));
}

#[test]
fn test_ldc2_w_long() {
    let mut pool = ConstantPool::new();
    let index = pool.add_long(42).expect("added");
    assert_eq!(LoadedConstant::Long(42), ldc2_w(&pool, index).expect("loads"));
}

#[test]
fn test_ldc2_w_double() {
    let mut pool = ConstantPool::new();
    let index = pool.add_double(42.1f64.to_bits()).expect("added");
    let LoadedConstant::Double(bits) = ldc2_w(&pool, index).expect("loads") else {
        panic!("not a double");
    };
    let value = f64::from_bits(bits) - 42.1f64;
    assert!(value.abs() < 0.1f64);
}

#[test]
fn test_ldc2_w_invalid_index() {
    let pool = ConstantPool::new();
    let result = ldc2_w(&pool, 42);
    assert!(matches!(result, Err(Error::InvalidConstantIndex(42))));
}

#[test]
fn test_ldc2_w_invalid_type() {
    let mut pool = ConstantPool::new();
    let index = pool.add_integer(42).expect("added");
    let result = ldc2_w(&pool, index);
    assert!(matches!(
        result,
        Err(Error::InvalidConstant { expected, actual }) if expected == "long|double" && actual == "Integer(42)"
    ));
}

#[test]
fn method_handles_types_and_dynamic_constants_load() {
    let mut pool = ConstantPool::new();
    let handle = pool.add(Constant::MethodHandle { reference_kind: 6, reference_index: 3 }).expect("added");
    assert_eq!(
        LoadedConstant::MethodHandle { reference_kind: 6, reference_index: 3 },
        load_constant(&pool, handle).expect("loads")
    );
    let descriptor = pool.add_utf8("(I)V").expect("added");
    let method_type = pool.add(Constant::MethodType(descriptor)).expect("added");
    assert_eq!(LoadedConstant::MethodType("(I)V".to_string()), ldc_w(&pool, method_type).expect("loads"));
    let dynamic = pool
        .add(Constant::Dynamic { bootstrap_method_attr_index: 0, name_and_type_index: 2 })
        .expect("added");
    assert_eq!(
        LoadedConstant::Dynamic { bootstrap_method_attr_index: 0, name_and_type_index: 2 },
        load_constant(&pool, dynamic).expect("loads")
    );
}

#[test]
fn strings_with_nul_and_supplementary_characters_load() {
    let mut pool = ConstantPool::new();
    for text in ["a\u{0}b", "\u{1F600}!", "caf\u{e9}"] {
        let index = pool.add_string(text).expect("added");
        assert_eq!(index, pool.add_string(text).expect("interned"));
        assert_eq!(LoadedConstant::String(text.to_string()), load_constant(&pool, index).expect("loads"));
    }
}

#[test]
fn invalid_constants_report_their_debug_form() {
    let constants = [
        Constant::Long(-7),
        Constant::Utf8(vec![102, 111, 111]),
        Constant::FieldRef { class_index: 1, name_and_type_index: 2 },
        Constant::Double(4),
        Constant::Integer(i32::MIN),
    ];
    for constant in constants {
        assert_eq!(format!("{constant:?}"), constant_debug(&constant));
    }
}
