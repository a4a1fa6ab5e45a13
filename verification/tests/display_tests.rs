use quickpython::display::{inline_text, print_text, Shown};
use quickpython::value::{DictKey, ExceptionType, TypeObject};

#[test]
fn print_scalars() {
    assert_eq!(print_text(&Shown::Int(-42)), "-42");
    assert_eq!(print_text(&Shown::Float("1.5".to_string())), "1.5");
    assert_eq!(print_text(&Shown::Bool(true)), "True");
    assert_eq!(print_text(&Shown::Bool(false)), "False");
    assert_eq!(print_text(&Shown::Str("hi there".to_string())), "hi there");
    assert_eq!(print_text(&Shown::NoneValue), "None");
}

#[test]
fn inline_scalars() {
    assert_eq!(inline_text(&Shown::Str("hi".to_string())), "'hi'");
    assert_eq!(inline_text(&Shown::Bool(true)), "True");
    assert_eq!(inline_text(&Shown::Bool(false)), "False");
    assert_eq!(inline_text(&Shown::Int(0)), "0");
}

#[test]
fn print_list_quotes_nested_strings() {
    let v = Shown::List(vec![
        Shown::Int(1),
        Shown::Str("a".to_string()),
        Shown::Bool(false),
        Shown::NoneValue,
        Shown::List(vec![]),
    ]);
    assert_eq!(print_text(&v), "[1, 'a', False, None, []]");
}

#[test]
fn print_tuples() {
    assert_eq!(print_text(&Shown::Tuple(vec![Shown::Int(7)])), "(7,)");
    assert_eq!(print_text(&Shown::Tuple(vec![])), "()");
    assert_eq!(
        print_text(&Shown::Tuple(vec![Shown::Int(1), Shown::Int(2)])),
        "(1, 2)"
    );
}

#[test]
fn print_dict_entries_in_given_order() {
    let v = Shown::Dict(vec![
        (DictKey::String("name".to_string()), Shown::Str("Bob".to_string())),
        (DictKey::Int(3), Shown::List(vec![Shown::Int(4)])),
    ]);
    assert_eq!(print_text(&v), "{'name': 'Bob', 3: [4]}");
    assert_eq!(print_text(&Shown::Dict(vec![])), "{}");
}

#[test]
fn print_objects() {
    assert_eq!(print_text(&Shown::Iterator), "<iterator>");
    assert_eq!(print_text(&Shown::Function("f".to_string())), "<function f>");
    assert_eq!(
        print_text(&Shown::Exception(ExceptionType::ValueError, "bad value".to_string())),
        "ValueError: bad value"
    );
    assert_eq!(print_text(&Shown::Module("os".to_string())), "<module 'os'>");
    assert_eq!(print_text(&Shown::NativeFunction), "<built-in function>");
    assert_eq!(print_text(&Shown::BoundMethod("split".to_string())), "<bound method split>");
    assert_eq!(print_text(&Shown::Regex), "<regex pattern>");
    assert_eq!(print_text(&Shown::Match(2, 15)), "<re.Match object; span=(2, 15)>");
    assert_eq!(
        print_text(&Shown::Slice(Some(1), None, Some(-2))),
        "slice(Some(1), None, Some(-2))"
    );
    assert_eq!(print_text(&Shown::Type(TypeObject::NoneType)), "<class 'NoneType'>");
    assert_eq!(print_text(&Shown::Coroutine("main".to_string())), "<coroutine object main>");
    assert_eq!(print_text(&Shown::AsyncSleep("0.5".to_string())), "<async sleep 0.5>");
}
