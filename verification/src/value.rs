use vstd::prelude::*;

verus! {

/// The exception classes that the interpreter knows about.
///
/// `Exception` is the base class of all the others; there is no deeper
/// hierarchy.
#[derive(Debug, Clone, Copy, PartialEq, Eq, Structural)]
pub enum ExceptionType {
    Exception,
    RuntimeError,
    IndexError,
    KeyError,
    ValueError,
    TypeError,
    ZeroDivisionError,
    IteratorError,
    OSError,
    AttributeError,
}

/// Number of exception classes; their codes are `0 .. EXCEPTION_TYPE_COUNT`.
pub const EXCEPTION_TYPE_COUNT: i32 = 10;

impl ExceptionType {
    /// The integer code of an exception class, as stored in bytecode.
    pub open spec fn code(self) -> int {
        match self {
            ExceptionType::Exception => 0,
            ExceptionType::RuntimeError => 1,
            ExceptionType::IndexError => 2,
            ExceptionType::KeyError => 3,
            ExceptionType::ValueError => 4,
            ExceptionType::TypeError => 5,
            ExceptionType::ZeroDivisionError => 6,
            ExceptionType::IteratorError => 7,
            ExceptionType::OSError => 8,
            ExceptionType::AttributeError => 9,
        }
    }

    /// The class whose code is `code`, if there is one.
    pub open spec fn from_code(code: int) -> Option<ExceptionType> {
        if code == 0 {
            Some(ExceptionType::Exception)
        } else if code == 1 {
            Some(ExceptionType::RuntimeError)
        } else if code == 2 {
            Some(ExceptionType::IndexError)
        } else if code == 3 {
            Some(ExceptionType::KeyError)
        } else if code == 4 {
            Some(ExceptionType::ValueError)
        } else if code == 5 {
            Some(ExceptionType::TypeError)
        } else if code == 6 {
            Some(ExceptionType::ZeroDivisionError)
        } else if code == 7 {
            Some(ExceptionType::IteratorError)
        } else if code == 8 {
            Some(ExceptionType::OSError)
        } else if code == 9 {
            Some(ExceptionType::AttributeError)
        } else {
            None
        }
    }

    /// An exception of class `self` is caught by a handler for class `handler`
    /// exactly when the handler names the same class or the base class.
    pub open spec fn caught_by(self, handler: ExceptionType) -> bool {
        handler == ExceptionType::Exception || self == handler
    }

    /// The integer code of this exception class.
    pub fn as_i32(&self) -> (res: i32)
        ensures
            res == self.code(),
    {
        match self {
            ExceptionType::Exception => 0,
            ExceptionType::RuntimeError => 1,
            ExceptionType::IndexError => 2,
            ExceptionType::KeyError => 3,
            ExceptionType::ValueError => 4,
            ExceptionType::TypeError => 5,
            ExceptionType::ZeroDivisionError => 6,
            ExceptionType::IteratorError => 7,
            ExceptionType::OSError => 8,
            ExceptionType::AttributeError => 9,
        }
    }

    /// The exception class with the given code, or `None` for a code that
    /// names no class.
    pub fn from_i32(code: i32) -> (res: Option<ExceptionType>)
        ensures
            res == ExceptionType::from_code(code as int),
    {
        match code {
            0 => Some(ExceptionType::Exception),
            1 => Some(ExceptionType::RuntimeError),
            2 => Some(ExceptionType::IndexError),
            3 => Some(ExceptionType::KeyError),
            4 => Some(ExceptionType::ValueError),
            5 => Some(ExceptionType::TypeError),
            6 => Some(ExceptionType::ZeroDivisionError),
            7 => Some(ExceptionType::IteratorError),
            8 => Some(ExceptionType::OSError),
            9 => Some(ExceptionType::AttributeError),
            _ => None,
        }
    }

    /// Whether an `except handler:` clause catches an exception of this class.
    pub fn matches(&self, handler: &ExceptionType) -> (res: bool)
        ensures
            res == self.caught_by(*handler),
    {
        *handler == ExceptionType::Exception || *self == *handler
    }

    /// The Python name of the class.
    pub fn name(&self) -> (res: &'static str)
        ensures
            res@ == self.spec_name(),
    {
        match self {
            ExceptionType::Exception => "Exception",
            ExceptionType::RuntimeError => "RuntimeError",
            ExceptionType::IndexError => "IndexError",
            ExceptionType::KeyError => "KeyError",
            ExceptionType::ValueError => "ValueError",
            ExceptionType::TypeError => "TypeError",
            ExceptionType::ZeroDivisionError => "ZeroDivisionError",
            ExceptionType::IteratorError => "IteratorError",
            ExceptionType::OSError => "OSError",
            ExceptionType::AttributeError => "AttributeError",
        }
    }

    /// The Python name of the class, as a sequence of characters.
    pub open spec fn spec_name(self) -> Seq<char> {
        match self {
            ExceptionType::Exception => "Exception"@,
            ExceptionType::RuntimeError => "RuntimeError"@,
            ExceptionType::IndexError => "IndexError"@,
            ExceptionType::KeyError => "KeyError"@,
            ExceptionType::ValueError => "ValueError"@,
            ExceptionType::TypeError => "TypeError"@,
            ExceptionType::ZeroDivisionError => "ZeroDivisionError"@,
            ExceptionType::IteratorError => "IteratorError"@,
            ExceptionType::OSError => "OSError"@,
            ExceptionType::AttributeError => "AttributeError"@,
        }
    }
}

/// Decoding the code of a class gives the class back.
pub proof fn lemma_exception_code_roundtrip(t: ExceptionType)
    ensures
        ExceptionType::from_code(t.code()) == Some(t),
        0 <= t.code() < EXCEPTION_TYPE_COUNT,
{
}

/// A code decodes to a class exactly when it lies in `0 .. 10`, and then the
/// class has that code.
pub proof fn lemma_exception_code_decode(code: int)
    ensures
        ExceptionType::from_code(code) is Some <==> 0 <= code < EXCEPTION_TYPE_COUNT,
        ExceptionType::from_code(code) matches Some(t) ==> t.code() == code,
{
}

/// Every class is caught by a handler for itself and by one for `Exception`;
/// no other handler catches it.
pub proof fn lemma_exception_hierarchy(t: ExceptionType, handler: ExceptionType)
    ensures
        t.caught_by(t),
        t.caught_by(ExceptionType::Exception),
        t.caught_by(handler) ==> handler == t || handler == ExceptionType::Exception,
        ExceptionType::Exception.caught_by(handler) ==> handler == ExceptionType::Exception,
{
}

/// Distinct classes have distinct codes.
pub proof fn lemma_exception_code_injective(a: ExceptionType, b: ExceptionType)
    ensures
        a.code() == b.code() ==> a == b,
{
}

/// A dictionary key: only strings and integers can be keys.
#[derive(Debug, Clone, PartialEq, Eq, Hash)]
pub enum DictKey {
    String(String),
    Int(i32),
}

/// The mathematical value of a dictionary key.
pub enum DictKeyView {
    String(Seq<char>),
    Int(int),
}

impl View for DictKey {
    type V = DictKeyView;

    open spec fn view(&self) -> DictKeyView {
        match self {
            DictKey::String(s) => DictKeyView::String(s@),
            DictKey::Int(i) => DictKeyView::Int(*i as int),
        }
    }
}

impl DictKey {
    /// Whether two keys name the same dictionary entry.
    pub fn same_key(&self, other: &DictKey) -> (res: bool)
        ensures
            res == (self@ == other@),
    {
        match (self, other) {
            (DictKey::String(a), DictKey::String(b)) => a.eq(b),
            (DictKey::Int(a), DictKey::Int(b)) => *a == *b,
            _ => false,
        }
    }
}

/// The built-in type objects that `isinstance` accepts.
#[derive(Debug, Clone, Copy, PartialEq, Eq, Structural)]
pub enum TypeObject {
    Int,
    Float,
    Bool,
    Str,
    List,
    Dict,
    Tuple,
    NoneType,
}

impl TypeObject {
    /// The Python name of the type.
    pub open spec fn spec_name(self) -> Seq<char> {
        match self {
            TypeObject::Int => "int"@,
            TypeObject::Float => "float"@,
            TypeObject::Bool => "bool"@,
            TypeObject::Str => "str"@,
            TypeObject::List => "list"@,
            TypeObject::Dict => "dict"@,
            TypeObject::Tuple => "tuple"@,
            TypeObject::NoneType => "NoneType"@,
        }
    }

    /// The Python name of the type.
    pub fn name(&self) -> (res: &'static str)
        ensures
            res@ == self.spec_name(),
    {
        match self {
            TypeObject::Int => "int",
            TypeObject::Float => "float",
            TypeObject::Bool => "bool",
            TypeObject::Str => "str",
            TypeObject::List => "list",
            TypeObject::Dict => "dict",
            TypeObject::Tuple => "tuple",
            TypeObject::NoneType => "NoneType",
        }
    }
}

/// The result of a successful regular-expression match.
#[derive(Debug, Clone)]
pub struct MatchObject {
    pub text: String,
    pub start: usize,
    pub end: usize,
    pub groups: Vec<Option<String>>,
}

impl MatchObject {
    /// A match of `text[start..end]` with its captured groups.
    pub fn new(text: String, start: usize, end: usize, groups: Vec<Option<String>>) -> (res:
        MatchObject)
        ensures
            res.text == text,
            res.start == start,
            res.end == end,
            res.groups == groups,
    {
        MatchObject { text, start, end, groups }
    }
}

/// One frame of an exception's traceback.
#[derive(Debug, Clone)]
pub struct TracebackFrame {
    pub function_name: String,
    pub line_number: usize,
}

/// An exception object: its class, its message and an optional traceback.
#[derive(Debug, Clone)]
pub struct ExceptionValue {
    pub exception_type: ExceptionType,
    pub message: String,
    pub traceback: Option<Vec<TracebackFrame>>,
}

impl ExceptionValue {
    /// A fresh exception of the given class, without a traceback.
    pub fn new(exception_type: ExceptionType, message: String) -> (res: ExceptionValue)
        ensures
            res.exception_type == exception_type,
            res.message == message,
            res.traceback is None,
    {
        ExceptionValue { exception_type, message, traceback: None }
    }

    /// Exceptions compare equal when class and message agree; the traceback
    /// is not compared.
    pub fn same_exception(&self, other: &ExceptionValue) -> (res: bool)
        ensures
            res == (self.exception_type == other.exception_type && self.message@
                == other.message@),
    {
        self.exception_type == other.exception_type && self.message.eq(&other.message)
    }
}

/// An exception as its class and message.
pub type Raised = (ExceptionType, Seq<char>);

/// The class and message of an exception.
pub open spec fn raised(e: ExceptionValue) -> Raised {
    (e.exception_type, e.message@)
}

/// The version a list moves to when it is modified: one more, wrapping
/// around at `usize::MAX`.
pub open spec fn next_version(v: usize) -> usize {
    if v == usize::MAX {
        0
    } else {
        (v + 1) as usize
    }
}

/// A list's items together with a modification counter, which lets an
/// iterator notice that the list changed under it.
#[derive(Debug, Clone)]
pub struct ListValue<T> {
    pub items: Vec<T>,
    pub version: usize,
}

impl<T> ListValue<T> {
    /// An empty list at version 0.
    pub fn new() -> (res: ListValue<T>)
        ensures
            res.items@.len() == 0,
            res.version == 0,
    {
        ListValue { items: Vec::new(), version: 0 }
    }

    /// A list holding `items`, at version 0.
    pub fn with_items(items: Vec<T>) -> (res: ListValue<T>)
        ensures
            res.items@ == items@,
            res.version == 0,
    {
        ListValue { items, version: 0 }
    }

    /// Records a modification; the counter wraps around at `usize::MAX`.
    pub fn increment_version(&mut self)
        ensures
            final(self).items@ == old(self).items@,
            final(self).version == next_version(old(self).version),
    {
        if self.version == usize::MAX {
            self.version = 0;
        } else {
            self.version = self.version + 1;
        }
    }
}

} // verus!
