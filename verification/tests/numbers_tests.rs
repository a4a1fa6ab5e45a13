use quickpython::numbers::{int_of_text, int_text};
use quickpython::value::ExceptionType;

#[test]
fn test_int_of_text_accepts_what_str_parse_accepts() {
    for s in ["0", "42", "-17", "+5", "007", "2147483647", "-2147483648"] {
        assert_eq!(int_of_text(s).ok(), s.parse::<i32>().ok(), "{}", s);
    }
}

#[test]
fn test_int_of_text_rejects() {
    for s in ["", "-", "+", " 1", "1 ", "1_000", "12a", "2147483648", "-2147483649", "99999999999999999999", "--1"] {
        let e = int_of_text(s).err().unwrap();
        assert!(s.parse::<i32>().is_err());
        assert_eq!(e.exception_type, ExceptionType::ValueError);
        assert_eq!(e.message, format!("invalid literal for int() with base 10: '{}'", s));
    }
}

#[test]
fn test_int_text_and_roundtrip() {
    for i in [0, 7, -7, 10, 1234567, i32::MAX, i32::MIN] {
        assert_eq!(int_text(i), i.to_string());
        assert_eq!(int_of_text(&int_text(i)).ok(), Some(i));
    }
}
