use vstd::prelude::*;
use crate::strings::views;
use crate::value::{ExceptionType, TypeObject};

verus! {

/// One instruction of the stack machine.
///
/// A float constant is carried by its IEEE-754 bit pattern (`f64::to_bits`),
/// which is exactly what the binary format stores.
#[derive(Debug, Clone, PartialEq)]
pub enum Instruction {
    PushInt(i32),
    PushFloat(u64),
    PushBool(bool),
    PushNone,
    PushString(String),
    PushType(TypeObject),
    Pop,
    Add,
    Sub,
    Mul,
    Div,
    Mod,
    Negate,
    Not,
    Eq,
    Ne,
    Lt,
    Le,
    Gt,
    Ge,
    Contains,
    NotContains,
    Is,
    IsNot,
    GetGlobal(String),
    SetGlobal(String),
    GetLocal(usize),
    SetLocal(usize),
    Jump(usize),
    JumpIfFalse(usize),
    JumpIfFalseOrPop(usize),
    JumpIfTrueOrPop(usize),
    MakeFunction { name: String, params: Vec<String>, code_len: usize, is_async: bool },
    Call(usize),
    Return,
    Print(usize),
    Int,
    Float,
    Str,
    IsInstance,
    Len,
    Range,
    BuildList(usize),
    BuildTuple(usize),
    BuildDict(usize),
    GetItem,
    BuildSlice,
    GetItemSlice,
    SetItem,
    UnpackSequence(usize),
    CallMethod(String, usize),
    GetIter,
    ForIter(usize),
    Break,
    Continue,
    Raise,
    MakeException(ExceptionType),
    SetupTry(usize),
    PopTry,
    GetExceptionType,
    MatchException,
    Dup,
    SetupFinally(usize),
    PopFinally,
    EndFinally,
    Import(String),
    GetAttr(String),
    Await,
}

/// A program: a flat sequence of instructions, addressed by index.
pub type ByteCode = Vec<Instruction>;

/// The mathematical value of an instruction: strings are taken by their
/// characters.
pub enum Instr {
    PushInt(i32),
    PushFloat(u64),
    PushBool(bool),
    PushNone,
    PushString(Seq<char>),
    PushType(TypeObject),
    Pop,
    Add,
    Sub,
    Mul,
    Div,
    Mod,
    Negate,
    Not,
    Eq,
    Ne,
    Lt,
    Le,
    Gt,
    Ge,
    Contains,
    NotContains,
    Is,
    IsNot,
    GetGlobal(Seq<char>),
    SetGlobal(Seq<char>),
    GetLocal(usize),
    SetLocal(usize),
    Jump(usize),
    JumpIfFalse(usize),
    JumpIfFalseOrPop(usize),
    JumpIfTrueOrPop(usize),
    MakeFunction { name: Seq<char>, params: Seq<Seq<char>>, code_len: usize, is_async: bool },
    Call(usize),
    Return,
    Print(usize),
    Int,
    Float,
    Str,
    IsInstance,
    Len,
    Range,
    BuildList(usize),
    BuildTuple(usize),
    BuildDict(usize),
    GetItem,
    BuildSlice,
    GetItemSlice,
    SetItem,
    UnpackSequence(usize),
    CallMethod(Seq<char>, usize),
    GetIter,
    ForIter(usize),
    Break,
    Continue,
    Raise,
    MakeException(ExceptionType),
    SetupTry(usize),
    PopTry,
    GetExceptionType,
    MatchException,
    Dup,
    SetupFinally(usize),
    PopFinally,
    EndFinally,
    Import(Seq<char>),
    GetAttr(Seq<char>),
    Await,
}

impl View for Instruction {
    type V = Instr;

    open spec fn view(&self) -> Instr {
        match self {
            Instruction::PushInt(v) => Instr::PushInt(*v),
            Instruction::PushFloat(v) => Instr::PushFloat(*v),
            Instruction::PushBool(b) => Instr::PushBool(*b),
            Instruction::PushNone => Instr::PushNone,
            Instruction::PushString(s) => Instr::PushString(s@),
            Instruction::PushType(t) => Instr::PushType(*t),
            Instruction::Pop => Instr::Pop,
            Instruction::Add => Instr::Add,
            Instruction::Sub => Instr::Sub,
            Instruction::Mul => Instr::Mul,
            Instruction::Div => Instr::Div,
            Instruction::Mod => Instr::Mod,
            Instruction::Negate => Instr::Negate,
            Instruction::Not => Instr::Not,
            Instruction::Eq => Instr::Eq,
            Instruction::Ne => Instr::Ne,
            Instruction::Lt => Instr::Lt,
            Instruction::Le => Instr::Le,
            Instruction::Gt => Instr::Gt,
            Instruction::Ge => Instr::Ge,
            Instruction::Contains => Instr::Contains,
            Instruction::NotContains => Instr::NotContains,
            Instruction::Is => Instr::Is,
            Instruction::IsNot => Instr::IsNot,
            Instruction::GetGlobal(s) => Instr::GetGlobal(s@),
            Instruction::SetGlobal(s) => Instr::SetGlobal(s@),
            Instruction::GetLocal(i) => Instr::GetLocal(*i),
            Instruction::SetLocal(i) => Instr::SetLocal(*i),
            Instruction::Jump(t) => Instr::Jump(*t),
            Instruction::JumpIfFalse(t) => Instr::JumpIfFalse(*t),
            Instruction::JumpIfFalseOrPop(t) => Instr::JumpIfFalseOrPop(*t),
            Instruction::JumpIfTrueOrPop(t) => Instr::JumpIfTrueOrPop(*t),
            Instruction::MakeFunction { name, params, code_len, is_async } => Instr::MakeFunction {
                name: name@,
                params: views(params@),
                code_len: *code_len,
                is_async: *is_async,
            },
            Instruction::Call(n) => Instr::Call(*n),
            Instruction::Return => Instr::Return,
            Instruction::Print(n) => Instr::Print(*n),
            Instruction::Int => Instr::Int,
            Instruction::Float => Instr::Float,
            Instruction::Str => Instr::Str,
            Instruction::IsInstance => Instr::IsInstance,
            Instruction::Len => Instr::Len,
            Instruction::Range => Instr::Range,
            Instruction::BuildList(n) => Instr::BuildList(*n),
            Instruction::BuildTuple(n) => Instr::BuildTuple(*n),
            Instruction::BuildDict(n) => Instr::BuildDict(*n),
            Instruction::GetItem => Instr::GetItem,
            Instruction::BuildSlice => Instr::BuildSlice,
            Instruction::GetItemSlice => Instr::GetItemSlice,
            Instruction::SetItem => Instr::SetItem,
            Instruction::UnpackSequence(n) => Instr::UnpackSequence(*n),
            Instruction::CallMethod(s, n) => Instr::CallMethod(s@, *n),
            Instruction::GetIter => Instr::GetIter,
            Instruction::ForIter(t) => Instr::ForIter(*t),
            Instruction::Break => Instr::Break,
            Instruction::Continue => Instr::Continue,
            Instruction::Raise => Instr::Raise,
            Instruction::MakeException(t) => Instr::MakeException(*t),
            Instruction::SetupTry(t) => Instr::SetupTry(*t),
            Instruction::PopTry => Instr::PopTry,
            Instruction::GetExceptionType => Instr::GetExceptionType,
            Instruction::MatchException => Instr::MatchException,
            Instruction::Dup => Instr::Dup,
            Instruction::SetupFinally(t) => Instr::SetupFinally(*t),
            Instruction::PopFinally => Instr::PopFinally,
            Instruction::EndFinally => Instr::EndFinally,
            Instruction::Import(s) => Instr::Import(s@),
            Instruction::GetAttr(s) => Instr::GetAttr(s@),
            Instruction::Await => Instr::Await,
        }
    }
}

/// The mathematical value of a program.
pub open spec fn code_view(code: Seq<Instruction>) -> Seq<Instr> {
    code.map_values(|i: Instruction| i@)
}

/// A copy of a list of strings.
fn copy_strings(v: &Vec<String>) -> (res: Vec<String>)
    ensures
        views(res@) == views(v@),
{
    let mut out: Vec<String> = Vec::new();
    let mut i: usize = 0;
    while i < v.len()
        invariant
            i <= v@.len(),
            out@.len() == i,
            forall|j: int| 0 <= j < i ==> #[trigger] out@[j]@ == v@[j]@,
        decreases v@.len() - i,
    {
        out.push(v[i].clone());
        i = i + 1;
    }
    assert(views(out@) =~= views(v@));
    out
}

/// A copy of an instruction.
pub fn copy_instruction(i: &Instruction) -> (res: Instruction)
    ensures
        res@ == i@,
{
    match i {
            Instruction::PushInt(a0) => Instruction::PushInt(*a0),
            Instruction::PushFloat(a0) => Instruction::PushFloat(*a0),
            Instruction::PushBool(a0) => Instruction::PushBool(*a0),
            Instruction::PushNone => Instruction::PushNone,
            Instruction::PushString(a0) => Instruction::PushString(a0.clone()),
            Instruction::PushType(a0) => Instruction::PushType(*a0),
            Instruction::Pop => Instruction::Pop,
            Instruction::Add => Instruction::Add,
            Instruction::Sub => Instruction::Sub,
            Instruction::Mul => Instruction::Mul,
            Instruction::Div => Instruction::Div,
            Instruction::Mod => Instruction::Mod,
            Instruction::Negate => Instruction::Negate,
            Instruction::Not => Instruction::Not,
            Instruction::Eq => Instruction::Eq,
            Instruction::Ne => Instruction::Ne,
            Instruction::Lt => Instruction::Lt,
            Instruction::Le => Instruction::Le,
            Instruction::Gt => Instruction::Gt,
            Instruction::Ge => Instruction::Ge,
            Instruction::Contains => Instruction::Contains,
            Instruction::NotContains => Instruction::NotContains,
            Instruction::Is => Instruction::Is,
            Instruction::IsNot => Instruction::IsNot,
            Instruction::GetGlobal(a0) => Instruction::GetGlobal(a0.clone()),
            Instruction::SetGlobal(a0) => Instruction::SetGlobal(a0.clone()),
            Instruction::GetLocal(a0) => Instruction::GetLocal(*a0),
            Instruction::SetLocal(a0) => Instruction::SetLocal(*a0),
            Instruction::Jump(a0) => Instruction::Jump(*a0),
            Instruction::JumpIfFalse(a0) => Instruction::JumpIfFalse(*a0),
            Instruction::JumpIfFalseOrPop(a0) => Instruction::JumpIfFalseOrPop(*a0),
            Instruction::JumpIfTrueOrPop(a0) => Instruction::JumpIfTrueOrPop(*a0),
            Instruction::MakeFunction { name, params, code_len, is_async } => Instruction::MakeFunction {
                name: name.clone(),
                params: copy_strings(params),
                code_len: *code_len,
                is_async: *is_async,
            },
            Instruction::Call(a0) => Instruction::Call(*a0),
            Instruction::Return => Instruction::Return,
            Instruction::Print(a0) => Instruction::Print(*a0),
            Instruction::Int => Instruction::Int,
            Instruction::Float => Instruction::Float,
            Instruction::Str => Instruction::Str,
            Instruction::IsInstance => Instruction::IsInstance,
            Instruction::Len => Instruction::Len,
            Instruction::Range => Instruction::Range,
            Instruction::BuildList(a0) => Instruction::BuildList(*a0),
            Instruction::BuildTuple(a0) => Instruction::BuildTuple(*a0),
            Instruction::BuildDict(a0) => Instruction::BuildDict(*a0),
            Instruction::GetItem => Instruction::GetItem,
            Instruction::BuildSlice => Instruction::BuildSlice,
            Instruction::GetItemSlice => Instruction::GetItemSlice,
            Instruction::SetItem => Instruction::SetItem,
            Instruction::UnpackSequence(a0) => Instruction::UnpackSequence(*a0),
            Instruction::CallMethod(a0, a1) => Instruction::CallMethod(a0.clone(), *a1),
            Instruction::GetIter => Instruction::GetIter,
            Instruction::ForIter(a0) => Instruction::ForIter(*a0),
            Instruction::Break => Instruction::Break,
            Instruction::Continue => Instruction::Continue,
            Instruction::Raise => Instruction::Raise,
            Instruction::MakeException(a0) => Instruction::MakeException(*a0),
            Instruction::SetupTry(a0) => Instruction::SetupTry(*a0),
            Instruction::PopTry => Instruction::PopTry,
            Instruction::GetExceptionType => Instruction::GetExceptionType,
            Instruction::MatchException => Instruction::MatchException,
            Instruction::Dup => Instruction::Dup,
            Instruction::SetupFinally(a0) => Instruction::SetupFinally(*a0),
            Instruction::PopFinally => Instruction::PopFinally,
            Instruction::EndFinally => Instruction::EndFinally,
            Instruction::Import(a0) => Instruction::Import(a0.clone()),
            Instruction::GetAttr(a0) => Instruction::GetAttr(a0.clone()),
            Instruction::Await => Instruction::Await,
    }
}

/// A copy of the instructions at positions `from` up to `to`.
pub fn copy_code(code: &Vec<Instruction>, from: usize, to: usize) -> (res: Vec<Instruction>)
    requires
        from <= to <= code@.len(),
    ensures
        code_view(res@) == code_view(code@).subrange(from as int, to as int),
{
    let mut out: Vec<Instruction> = Vec::new();
    let mut k: usize = from;
    while k < to
        invariant
            from <= k <= to,
            to <= code@.len(),
            out@.len() == k - from,
            forall|j: int| 0 <= j < out@.len() ==> #[trigger] out@[j]@ == code@[from + j]@,
        decreases to - k,
    {
        out.push(copy_instruction(&code[k]));
        k = k + 1;
    }
    assert(code_view(out@) =~= code_view(code@).subrange(from as int, to as int));
    out
}

} // verus!
