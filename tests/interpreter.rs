use ristretto::interpreter::{find_handler, iadd, idiv, ineg, irem, isub, unwind, Handler};
use ristretto::java_error::JavaError;

#[test]
fn division_by_zero_throws() {
    let error = idiv(1, 0).expect_err("throws");
    assert_eq!("java/lang/ArithmeticException", error.class_name());
    assert_eq!("/ by zero", error.message());
    assert!(irem(1, 0).is_err());
}

#[test]
fn min_divided_by_minus_one_is_min() {
    assert_eq!(i32::MIN, idiv(i32::MIN, -1).expect("no trap"));
    assert_eq!(0, irem(i32::MIN, -1).expect("no trap"));
}

#[test]
fn division_rounds_toward_zero() {
    assert_eq!(-3, idiv(-7, 2).expect("quotient"));
    assert_eq!(-1, irem(-7, 2).expect("remainder"));
    assert_eq!(3, idiv(7, 2).expect("quotient"));
    assert_eq!(1, irem(7, -2).expect("remainder"));
}

#[test]
fn addition_wraps() {
    assert_eq!(42, iadd(40, 2));
    assert_eq!(i32::MIN, iadd(i32::MAX, 1));
    assert_eq!(i32::MAX, isub(i32::MIN, 1));
    assert_eq!(i32::MIN, ineg(i32::MIN));
    assert_eq!(7, ineg(-7));
}

fn any_handler(start: usize, end: usize, handler: usize) -> Handler {
    Handler { start, end, handler, catch_type: None }
}

#[test]
fn handlers_match_by_range_and_class() {
    let error = JavaError::ArithmeticException("/ by zero".to_string());
    let handlers = vec![
        Handler { start: 0, end: 4, handler: 9, catch_type: Some("java/lang/NullPointerException".to_string()) },
        Handler { start: 0, end: 4, handler: 10, catch_type: Some("java/lang/RuntimeException".to_string()) },
        any_handler(0, 8, 11),
    ];
    assert_eq!(Some(1), find_handler(&handlers, 2, &error));
    assert_eq!(Some(2), find_handler(&handlers, 5, &error));
    assert_eq!(None, find_handler(&handlers, 8, &error));
}

#[test]
fn uncaught_exception_leaves_every_frame() {
    let error = JavaError::ArithmeticException("/ by zero".to_string());
    let tables = vec![vec![any_handler(0, 2, 5)], vec![], vec![any_handler(3, 4, 6)]];
    assert_eq!(Some((0, 0)), unwind(&tables, &vec![1, 0, 7], &error));
    assert_eq!(Some((2, 0)), unwind(&tables, &vec![1, 0, 3], &error));
    assert_eq!(None, unwind(&tables, &vec![4, 0, 7], &error));
}

use ristretto::code::from_bytes;
use ristretto::interpreter::{execute, Completion};

#[test]
fn add_returns_forty_two() {
    // static int add(int a, int b) { return a + b; }
    let code = from_bytes(&[0x1a, 0x1b, 0x60, 0xac]).expect("decodes");
    let result = execute(&code, &vec![40, 2], 2, 100).expect("runs");
    assert!(matches!(result, Completion::Returned(Some(42))));
}

#[test]
fn abs_of_minus_seven() {
    // static int abs(int n) { if (n < 0) return -n; return n; }
    let code = from_bytes(&[0x1a, 0x9c, 0x00, 0x06, 0x1a, 0x74, 0xac, 0x1a, 0xac]).expect("decodes");
    assert!(matches!(execute(&code, &vec![-7], 1, 100).expect("runs"), Completion::Returned(Some(7))));
    assert!(matches!(execute(&code, &vec![5], 1, 100).expect("runs"), Completion::Returned(Some(5))));
}

#[test]
fn divide_by_zero_surfaces_as_java_exception() {
    // static int div(int a, int b) { return a / b; }
    let code = from_bytes(&[0x1a, 0x1b, 0x6c, 0xac]).expect("decodes");
    match execute(&code, &vec![1, 0], 2, 100).expect("no host error") {
        Completion::Threw(error) => {
            assert_eq!("java/lang/ArithmeticException", error.class_name());
            assert_eq!("/ by zero", error.message());
        }
        other => panic!("unexpected completion {other:?}"),
    }
}

#[test]
fn loop_counts_down_and_step_limit_holds() {
    // int i = 3; int s = 0; while (i > 0) { s += i; i--; } return s;
    let code = from_bytes(&[
        0x06, 0x3b, 0x03, 0x3c, 0x1a, 0x9e, 0x00, 0x0d, 0x1b, 0x1a, 0x60, 0x3c, 0x84, 0x00, 0xff,
        0xa7, 0xff, 0xf5, 0x1b, 0xac,
    ])
    .expect("decodes");
    assert!(matches!(execute(&code, &vec![], 2, 1000).expect("runs"), Completion::Returned(Some(6))));
    assert!(execute(&code, &vec![], 2, 5).is_err());
    assert!(execute(&code, &vec![1, 2, 3], 2, 1000).is_err());
}

use ristretto::interpreter::{dcmp, fcmp};

#[test]
fn nan_comparisons_follow_the_instruction() {
    let nan = f32::NAN.to_bits();
    let one = 1.0f32.to_bits();
    assert_eq!(-1, fcmp(nan, one, -1));
    assert_eq!(1, fcmp(nan, one, 1));
    assert_eq!(-1, fcmp(one, nan, -1));
    assert_eq!(0, fcmp((-0.0f32).to_bits(), 0.0f32.to_bits(), -1));
    assert_eq!(-1, fcmp((-2.5f32).to_bits(), one, 1));
    assert_eq!(1, fcmp(f32::INFINITY.to_bits(), one, -1));
    assert_eq!(-1, dcmp(f64::NAN.to_bits(), 0.0f64.to_bits(), -1));
    assert_eq!(1, dcmp(f64::NAN.to_bits(), 0.0f64.to_bits(), 1));
    assert_eq!(1, dcmp(3.0f64.to_bits(), (-3.0f64).to_bits(), -1));
}
