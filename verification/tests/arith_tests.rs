use quickpython::arith::{int_binary, text_less, IntOp};
use quickpython::value::ExceptionType;

#[test]
fn int_add_sub_mul() {
    assert_eq!(int_binary(IntOp::Add, 2, 3).ok(), Some(5));
    assert_eq!(int_binary(IntOp::Sub, 2, 3).ok(), Some(-1));
    assert_eq!(int_binary(IntOp::Mul, -4, 6).ok(), Some(-24));
    assert_eq!(int_binary(IntOp::Add, i32::MAX - 1, 1).ok(), Some(i32::MAX));
}

#[test]
fn int_division_rounds_toward_zero() {
    assert_eq!(int_binary(IntOp::Div, 7, 2).ok(), Some(3));
    assert_eq!(int_binary(IntOp::Div, -7, 2).ok(), Some(-3));
    assert_eq!(int_binary(IntOp::Div, 7, -2).ok(), Some(-3));
    assert_eq!(int_binary(IntOp::Div, -7, -2).ok(), Some(3));
    assert_eq!(int_binary(IntOp::Div, i32::MIN, 1).ok(), Some(i32::MIN));
    assert_eq!(int_binary(IntOp::Div, i32::MIN, -2).ok(), Some(1 << 30));
}

#[test]
fn int_remainder_takes_sign_of_dividend() {
    assert_eq!(int_binary(IntOp::Mod, 7, 3).ok(), Some(1));
    assert_eq!(int_binary(IntOp::Mod, -7, 3).ok(), Some(-1));
    assert_eq!(int_binary(IntOp::Mod, 7, -3).ok(), Some(1));
    assert_eq!(int_binary(IntOp::Mod, -7, -3).ok(), Some(-1));
    assert_eq!(int_binary(IntOp::Mod, i32::MIN, 7).ok(), Some(-2));
}

#[test]
fn int_zero_divisor_raises() {
    let e = int_binary(IntOp::Div, 5, 0).unwrap_err();
    assert_eq!(e.exception_type, ExceptionType::ZeroDivisionError);
    assert_eq!(e.message, "division by zero");
    let e = int_binary(IntOp::Mod, 5, 0).unwrap_err();
    assert_eq!(e.exception_type, ExceptionType::ZeroDivisionError);
    assert_eq!(e.message, "integer modulo by zero");
}

#[test]
fn strings_order_lexicographically() {
    assert!(text_less("apple", "banana"));
    assert!(!text_less("banana", "apple"));
    assert!(text_less("app", "apple"));
    assert!(!text_less("apple", "app"));
    assert!(!text_less("same", "same"));
    assert!(text_less("", "a"));
    assert!(!text_less("", ""));
    assert!(text_less("Zebra", "apple"));
    assert!(text_less("é", "😀"));
}

#[test]
fn text_order_is_total() {
    let words = ["", "a", "ab", "b", "B", "é", "abc"];
    for a in words.iter() {
        for b in words.iter() {
            let before = text_less(a, b);
            let after = text_less(b, a);
            let same = a == b;
            assert_eq!([before, same, after].iter().filter(|x| **x).count(), 1);
        }
    }
}
