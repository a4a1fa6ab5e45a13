//! QuickPython: a small Python bytecode interpreter core.
use vstd::prelude::*;

pub mod args;
pub mod arith;
pub mod ast;
pub mod blocks;
pub mod builtins;
pub mod bytecode;
pub mod calls;
pub mod codegen;
pub mod display;
pub mod compiler;
pub mod extension;
pub mod frames;
pub mod iteration;
pub mod json;
pub mod jumps;
pub mod llm;
pub mod machine;
pub mod methods;
pub mod numbers;
pub mod objects;
pub mod parse;
pub mod re;
pub mod serializer;
pub mod slice;
pub mod strings;
pub mod text;
pub mod value;

pub use builtins::is_builtin_module;
pub use bytecode::{ByteCode, Instruction};
pub use serializer::{deserialize_bytecode, serialize_bytecode};
pub use value::{DictKey, ExceptionType, ExceptionValue, ListValue, MatchObject, TracebackFrame, TypeObject};

verus! {

} // verus!
