use ristretto::java_error::JavaError;

#[test]
fn test_arithmetic_exception() {
    let error = JavaError::ArithmeticException("division by zero".to_string());
    assert_eq!(error.class_name(), "java/lang/ArithmeticException");
    assert_eq!(error.message(), "division by zero");
}

#[test]
fn test_array_index_out_of_bounds_exception() {
    let error = JavaError::ArrayIndexOutOfBoundsException { index: 5, length: 3 };
    assert_eq!(error.class_name(), "java/lang/ArrayIndexOutOfBoundsException");
    assert_eq!(error.message(), "Index 5 out of bounds for length 3");
}

#[test]
fn test_class_cast_exception() {
    let error = JavaError::ClassCastException {
        source_class_name: "java.lang.String".to_string(),
        target_class_name: "java.lang.Integer".to_string(),
    };
    assert_eq!(error.class_name(), "java/lang/ClassCastException");
    assert_eq!(
        error.message(),
        "class java.lang.String cannot be cast to class java.lang.Integer"
    );
}

#[test]
fn test_null_pointer_exception() {
    let error = JavaError::NullPointerException("null".to_string());
    assert_eq!(error.class_name(), "java/lang/NullPointerException");
    assert_eq!(error.message(), "null");
}

#[test]
fn large_indices_in_message() {
    let error = JavaError::ArrayIndexOutOfBoundsException { index: 1234567, length: 0 };
    assert_eq!(error.message(), "Index 1234567 out of bounds for length 0");
}
