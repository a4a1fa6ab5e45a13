//! The `.pyq` binary format of a program.
//!
//! A file is the four magic bytes `QPY\0`, the format version and the number
//! of instructions (each a little-endian `u32`), then the instructions one
//! after the other. An instruction is an opcode byte followed by its operand:
//! integers little-endian, a float by its bit pattern, a string by its UTF-8
//! byte length and its bytes.
use vstd::prelude::*;
use crate::bytecode::{ByteCode, Instr, Instruction, code_view};
use crate::text::{decimal_text, hex2_text, push_decimal, push_hex2, string_from_utf8};

verus! {

broadcast use vstd::utf8::group_utf8_lib;

/// The magic bytes that open every `.pyq` file.
pub open spec fn magic() -> Seq<u8> {
    seq![0x51u8, 0x50u8, 0x59u8, 0x00u8]
}

/// The format version that this library writes, and the newest it reads.
pub const FORMAT_VERSION: u32 = 5;

/// Length of the file header in bytes.
pub const HEADER_LEN: usize = 12;

// ---------------------------------------------------------------------------
// Fixed-width integers
// ---------------------------------------------------------------------------

/// The low 16 bits of `v`, least significant byte first.
pub open spec fn le_u16(v: nat) -> Seq<u8> {
    seq![(v % 256) as u8, ((v / 256) % 256) as u8]
}

/// The low 32 bits of `v`, least significant byte first.
pub open spec fn le_u32(v: nat) -> Seq<u8> {
    seq![
        (v % 256) as u8,
        ((v / 0x100) % 256) as u8,
        ((v / 0x10000) % 256) as u8,
        ((v / 0x1000000) % 256) as u8,
    ]
}

/// The low 64 bits of `v`, least significant byte first.
pub open spec fn le_u64(v: nat) -> Seq<u8> {
    le_u32(v % 0x1_0000_0000) + le_u32(v / 0x1_0000_0000)
}

/// The two's-complement bit pattern of a 32-bit signed integer.
pub open spec fn i32_bits(v: i32) -> nat {
    if v >= 0 {
        v as nat
    } else {
        (v + 0x1_0000_0000) as nat
    }
}

/// The signed integer whose two's-complement bit pattern is `u`.
pub open spec fn i32_of_bits(u: nat) -> int {
    if u < 0x8000_0000 {
        u as int
    } else {
        u - 0x1_0000_0000
    }
}

/// The little-endian 16-bit number at `pos`.
pub open spec fn u16_at(s: Seq<u8>, pos: int) -> nat {
    (s[pos] + 256 * s[pos + 1]) as nat
}

/// The little-endian 32-bit number at `pos`.
pub open spec fn u32_at(s: Seq<u8>, pos: int) -> nat {
    (s[pos] + 0x100 * s[pos + 1] + 0x10000 * s[pos + 2] + 0x1000000 * s[pos + 3]) as nat
}

/// The little-endian 64-bit number at `pos`.
pub open spec fn u64_at(s: Seq<u8>, pos: int) -> nat {
    u32_at(s, pos) + 0x1_0000_0000 * u32_at(s, pos + 4)
}

/// The UTF-8 bytes of a string.
pub open spec fn utf8(s: Seq<char>) -> Seq<u8> {
    vstd::utf8::encode_utf8(s)
}

// ---------------------------------------------------------------------------
// Encoding
// ---------------------------------------------------------------------------

/// Why an instruction has no encoding in the binary format.
#[derive(Debug, Clone, Copy, PartialEq, Eq, Structural)]
pub enum SerializeError {
    /// Function definitions, calls and returns.
    Function,
    /// Building and indexing lists, tuples and dictionaries; method calls.
    Container,
    /// A `break` that was not compiled to a jump.
    Break,
    /// A `continue` that was not compiled to a jump.
    Continue,
    /// Creating and raising exceptions.
    Exception,
    /// Try, except and finally blocks.
    Handler,
    /// Imports and attribute access.
    Import,
    /// Boolean operators, membership and identity tests.
    Logic,
    /// Type objects, `str()` and `isinstance()`.
    Types,
    /// Awaiting a coroutine.
    Async,
}

impl SerializeError {
    /// The message that reports the error.
    pub open spec fn text(self) -> Seq<char> {
        match self {
            SerializeError::Function => "Function instructions cannot be serialized yet"@,
            SerializeError::Container => "List/Dict instructions cannot be serialized yet"@,
            SerializeError::Break => "Break instructions cannot be serialized (should be compiled to Jump)"@,
            SerializeError::Continue => "Continue instructions cannot be serialized (should be compiled to Jump)"@,
            SerializeError::Exception => "Exception instructions cannot be serialized yet"@,
            SerializeError::Handler => "Try-except-finally instructions cannot be serialized yet"@,
            SerializeError::Import => "Import instructions cannot be serialized yet"@,
            SerializeError::Logic => "Logical instructions cannot be serialized yet"@,
            SerializeError::Types => "Type instructions cannot be serialized yet"@,
            SerializeError::Async => "Async instructions cannot be serialized yet"@,
        }
    }

    /// The message that reports the error.
    pub fn message(&self) -> (res: String)
        ensures
            res@ == self.text(),
    {
        match self {
            SerializeError::Function => String::from_str(
                "Function instructions cannot be serialized yet",
            ),
            SerializeError::Container => String::from_str(
                "List/Dict instructions cannot be serialized yet",
            ),
            SerializeError::Break => String::from_str(
                "Break instructions cannot be serialized (should be compiled to Jump)",
            ),
            SerializeError::Continue => String::from_str(
                "Continue instructions cannot be serialized (should be compiled to Jump)",
            ),
            SerializeError::Exception => String::from_str(
                "Exception instructions cannot be serialized yet",
            ),
            SerializeError::Handler => String::from_str(
                "Try-except-finally instructions cannot be serialized yet",
            ),
            SerializeError::Import => String::from_str(
                "Import instructions cannot be serialized yet",
            ),
            SerializeError::Logic => String::from_str(
                "Logical instructions cannot be serialized yet",
            ),
            SerializeError::Types => String::from_str("Type instructions cannot be serialized yet"),
            SerializeError::Async => String::from_str(
                "Async instructions cannot be serialized yet",
            ),
        }
    }
}

/// A string operand with a 32-bit length prefix.
pub open spec fn long_str(s: Seq<char>) -> Seq<u8> {
    le_u32(utf8(s).len()) + utf8(s)
}

/// A name operand with a 16-bit length prefix.
pub open spec fn short_str(s: Seq<char>) -> Seq<u8> {
    le_u16(utf8(s).len()) + utf8(s)
}

/// The encoding of one instruction, or why it has none.
///
/// Lengths, local indices and jump targets are written with the width that
/// the format gives them; a larger value keeps only its low bits.
pub open spec fn encode_instr(i: Instr) -> Result<Seq<u8>, SerializeError> {
    match i {
        Instr::PushInt(v) => Ok(seq![0x01u8] + le_u32(i32_bits(v))),
        Instr::PushBool(b) => Ok(seq![0x02u8, if b { 1u8 } else { 0u8 }]),
        Instr::PushNone => Ok(seq![0x03u8]),
        Instr::Pop => Ok(seq![0x04u8]),
        Instr::PushString(s) => Ok(seq![0x05u8] + long_str(s)),
        Instr::PushFloat(bits) => Ok(seq![0x06u8] + le_u64(bits as nat)),
        Instr::Add => Ok(seq![0x10u8]),
        Instr::Sub => Ok(seq![0x11u8]),
        Instr::Mul => Ok(seq![0x12u8]),
        Instr::Div => Ok(seq![0x13u8]),
        Instr::Eq => Ok(seq![0x14u8]),
        Instr::Ne => Ok(seq![0x15u8]),
        Instr::Lt => Ok(seq![0x16u8]),
        Instr::Le => Ok(seq![0x17u8]),
        Instr::Gt => Ok(seq![0x18u8]),
        Instr::Ge => Ok(seq![0x19u8]),
        Instr::Negate => Ok(seq![0x1Au8]),
        Instr::Mod => Ok(seq![0x1Bu8]),
        Instr::GetGlobal(s) => Ok(seq![0x20u8] + short_str(s)),
        Instr::SetGlobal(s) => Ok(seq![0x21u8] + short_str(s)),
        Instr::GetLocal(n) => Ok(seq![0x22u8] + le_u16(n as nat)),
        Instr::SetLocal(n) => Ok(seq![0x23u8] + le_u16(n as nat)),
        Instr::Jump(t) => Ok(seq![0x30u8] + le_u32(t as nat)),
        Instr::JumpIfFalse(t) => Ok(seq![0x31u8] + le_u32(t as nat)),
        Instr::Print(n) => Ok(seq![0x40u8] + le_u32(n as nat)),
        Instr::Int => Ok(seq![0x41u8]),
        Instr::Float => Ok(seq![0x42u8]),
        Instr::Len => Ok(seq![0x43u8]),
        Instr::Range => Ok(seq![0x50u8]),
        Instr::GetIter => Ok(seq![0x51u8]),
        Instr::ForIter(t) => Ok(seq![0x52u8] + le_u32(t as nat)),
        Instr::MakeFunction { .. } | Instr::Call(_) | Instr::Return => Err(
            SerializeError::Function,
        ),
        Instr::BuildList(_) | Instr::BuildTuple(_) | Instr::BuildDict(_) | Instr::GetItem
        | Instr::BuildSlice | Instr::GetItemSlice | Instr::SetItem | Instr::UnpackSequence(_)
        | Instr::CallMethod(_, _) => Err(SerializeError::Container),
        Instr::Break => Err(SerializeError::Break),
        Instr::Continue => Err(SerializeError::Continue),
        Instr::MakeException(_) | Instr::Raise => Err(SerializeError::Exception),
        Instr::SetupTry(_) | Instr::PopTry | Instr::GetExceptionType | Instr::MatchException
        | Instr::Dup | Instr::SetupFinally(_) | Instr::PopFinally | Instr::EndFinally => Err(
            SerializeError::Handler,
        ),
        Instr::Import(_) | Instr::GetAttr(_) => Err(SerializeError::Import),
        Instr::Not | Instr::Contains | Instr::NotContains | Instr::Is | Instr::IsNot
        | Instr::JumpIfFalseOrPop(_) | Instr::JumpIfTrueOrPop(_) => Err(SerializeError::Logic),
        Instr::PushType(_) | Instr::Str | Instr::IsInstance => Err(SerializeError::Types),
        Instr::Await => Err(SerializeError::Async),
    }
}

/// The encodings of a sequence of instructions, one after the other, or the
/// error of the first instruction that has none.
pub open spec fn encode_all(code: Seq<Instr>) -> Result<Seq<u8>, SerializeError>
    decreases code.len(),
{
    if code.len() == 0 {
        Ok(seq![])
    } else {
        match encode_all(code.drop_last()) {
            Ok(prefix) => match encode_instr(code.last()) {
                Ok(bytes) => Ok(prefix + bytes),
                Err(e) => Err(e),
            },
            Err(e) => Err(e),
        }
    }
}

/// The file header for a program of `count` instructions.
pub open spec fn header(count: nat) -> Seq<u8> {
    magic() + le_u32(FORMAT_VERSION as nat) + le_u32(count)
}

/// The `.pyq` image of a program, or why it has none.
pub open spec fn encode_program(code: Seq<Instr>) -> Result<Seq<u8>, SerializeError> {
    match encode_all(code) {
        Ok(body) => Ok(header(code.len()) + body),
        Err(e) => Err(e),
    }
}

fn write_u16(buf: &mut Vec<u8>, v: u64)
    ensures
        final(buf)@ == old(buf)@ + le_u16(v as nat),
{
    buf.push((v % 256) as u8);
    buf.push(((v / 256) % 256) as u8);
    assert(final(buf)@ =~= old(buf)@ + le_u16(v as nat));
}

fn write_u32(buf: &mut Vec<u8>, v: u64)
    ensures
        final(buf)@ == old(buf)@ + le_u32(v as nat),
{
    buf.push((v % 256) as u8);
    buf.push(((v / 0x100) % 256) as u8);
    buf.push(((v / 0x10000) % 256) as u8);
    buf.push(((v / 0x1000000) % 256) as u8);
    assert(final(buf)@ =~= old(buf)@ + le_u32(v as nat));
}

fn write_u64(buf: &mut Vec<u8>, v: u64)
    ensures
        final(buf)@ == old(buf)@ + le_u64(v as nat),
{
    write_u32(buf, v % 0x1_0000_0000);
    write_u32(buf, v / 0x1_0000_0000);
    assert(final(buf)@ =~= old(buf)@ + le_u64(v as nat));
}

fn write_bytes(buf: &mut Vec<u8>, bytes: &[u8])
    ensures
        final(buf)@ == old(buf)@ + bytes@,
{
    let n = bytes.len();
    let mut i: usize = 0;
    while i < n
        invariant
            n == bytes@.len(),
            i <= n,
            buf@ == old(buf)@ + bytes@.subrange(0, i as int),
        decreases n - i,
    {
        buf.push(bytes[i]);
        i = i + 1;
        assert(buf@ =~= old(buf)@ + bytes@.subrange(0, i as int));
    }
    assert(bytes@.subrange(0, n as int) =~= bytes@);
}

fn write_long_str(buf: &mut Vec<u8>, s: &String)
    ensures
        final(buf)@ == old(buf)@ + long_str(s@),
{
    let bytes = s.as_str().as_bytes();
    write_u32(buf, bytes.len() as u64);
    write_bytes(buf, bytes);
    assert(final(buf)@ =~= old(buf)@ + long_str(s@));
}

fn write_short_str(buf: &mut Vec<u8>, s: &String)
    ensures
        final(buf)@ == old(buf)@ + short_str(s@),
{
    let bytes = s.as_str().as_bytes();
    write_u16(buf, bytes.len() as u64);
    write_bytes(buf, bytes);
    assert(final(buf)@ =~= old(buf)@ + short_str(s@));
}

fn write_op(buf: &mut Vec<u8>, op: u8)
    ensures
        final(buf)@ == old(buf)@ + seq![op],
{
    buf.push(op);
    assert(final(buf)@ =~= old(buf)@ + seq![op]);
}

/// Appends the encoding of `instruction` to `buffer`; on error `buffer` is
/// left unchanged.
pub fn serialize_instruction(buffer: &mut Vec<u8>, instruction: &Instruction) -> (res: Result<
    (),
    SerializeError,
>)
    ensures
        match encode_instr(instruction@) {
            Ok(bytes) => res is Ok && final(buffer)@ == old(buffer)@ + bytes,
            Err(e) => res == Err::<(), SerializeError>(e) && final(buffer)@ == old(buffer)@,
        },
{
    match instruction {
        Instruction::PushInt(value) => {
            write_op(buffer, 0x01);
            let bits: u64 = if *value >= 0 {
                *value as u64
            } else {
                (*value as i64 + 0x1_0000_0000i64) as u64
            };
            write_u32(buffer, bits);
        },
        Instruction::PushFloat(bits) => {
            write_op(buffer, 0x06);
            write_u64(buffer, *bits);
        },
        Instruction::PushBool(b) => {
            write_op(buffer, 0x02);
            write_op(buffer, if *b { 1 } else { 0 });
            assert(final(buffer)@ =~= old(buffer)@ + seq![0x02u8, if *b { 1u8 } else { 0u8 }]);
        },
        Instruction::PushNone => write_op(buffer, 0x03),
        Instruction::PushString(s) => {
            write_op(buffer, 0x05);
            write_long_str(buffer, s);
        },
        Instruction::Pop => write_op(buffer, 0x04),
        Instruction::Add => write_op(buffer, 0x10),
        Instruction::Sub => write_op(buffer, 0x11),
        Instruction::Mul => write_op(buffer, 0x12),
        Instruction::Div => write_op(buffer, 0x13),
        Instruction::Mod => write_op(buffer, 0x1B),
        Instruction::Negate => write_op(buffer, 0x1A),
        Instruction::Eq => write_op(buffer, 0x14),
        Instruction::Ne => write_op(buffer, 0x15),
        Instruction::Lt => write_op(buffer, 0x16),
        Instruction::Le => write_op(buffer, 0x17),
        Instruction::Gt => write_op(buffer, 0x18),
        Instruction::Ge => write_op(buffer, 0x19),
        Instruction::GetGlobal(name) => {
            write_op(buffer, 0x20);
            write_short_str(buffer, name);
        },
        Instruction::SetGlobal(name) => {
            write_op(buffer, 0x21);
            write_short_str(buffer, name);
        },
        Instruction::GetLocal(index) => {
            write_op(buffer, 0x22);
            write_u16(buffer, *index as u64);
        },
        Instruction::SetLocal(index) => {
            write_op(buffer, 0x23);
            write_u16(buffer, *index as u64);
        },
        Instruction::Jump(target) => {
            write_op(buffer, 0x30);
            write_u32(buffer, *target as u64);
        },
        Instruction::JumpIfFalse(target) => {
            write_op(buffer, 0x31);
            write_u32(buffer, *target as u64);
        },
        Instruction::Print(count) => {
            write_op(buffer, 0x40);
            write_u32(buffer, *count as u64);
        },
        Instruction::Int => write_op(buffer, 0x41),
        Instruction::Float => write_op(buffer, 0x42),
        Instruction::Len => write_op(buffer, 0x43),
        Instruction::Range => write_op(buffer, 0x50),
        Instruction::GetIter => write_op(buffer, 0x51),
        Instruction::ForIter(target) => {
            write_op(buffer, 0x52);
            write_u32(buffer, *target as u64);
        },
        Instruction::MakeFunction { .. } | Instruction::Call(_) | Instruction::Return => {
            return Err(SerializeError::Function);
        },
        Instruction::BuildList(_)
        | Instruction::BuildTuple(_)
        | Instruction::BuildDict(_)
        | Instruction::GetItem
        | Instruction::BuildSlice
        | Instruction::GetItemSlice
        | Instruction::SetItem
        | Instruction::UnpackSequence(_)
        | Instruction::CallMethod(_, _) => {
            return Err(SerializeError::Container);
        },
        Instruction::Break => {
            return Err(SerializeError::Break);
        },
        Instruction::Continue => {
            return Err(SerializeError::Continue);
        },
        Instruction::MakeException(_) | Instruction::Raise => {
            return Err(SerializeError::Exception);
        },
        Instruction::SetupTry(_)
        | Instruction::PopTry
        | Instruction::GetExceptionType
        | Instruction::MatchException
        | Instruction::Dup
        | Instruction::SetupFinally(_)
        | Instruction::PopFinally
        | Instruction::EndFinally => {
            return Err(SerializeError::Handler);
        },
        Instruction::Import(_) | Instruction::GetAttr(_) => {
            return Err(SerializeError::Import);
        },
        Instruction::Not
        | Instruction::Contains
        | Instruction::NotContains
        | Instruction::Is
        | Instruction::IsNot
        | Instruction::JumpIfFalseOrPop(_)
        | Instruction::JumpIfTrueOrPop(_) => {
            return Err(SerializeError::Logic);
        },
        Instruction::PushType(_) | Instruction::Str | Instruction::IsInstance => {
            return Err(SerializeError::Types);
        },
        Instruction::Await => {
            return Err(SerializeError::Async);
        },
    }
    Ok(())
}

/// Encodes a program in the `.pyq` format.
///
/// Fails, with the message of the first instruction that has no encoding,
/// exactly when some instruction has none.
pub fn serialize_bytecode(bytecode: &ByteCode) -> (res: Result<Vec<u8>, String>)
    ensures
        match encode_program(code_view(bytecode@)) {
            Ok(bytes) => res matches Ok(out) && out@ == bytes,
            Err(e) => res matches Err(msg) && msg@ == e.text(),
        },
{
    let mut buffer: Vec<u8> = Vec::new();
    write_op(&mut buffer, 0x51);
    write_op(&mut buffer, 0x50);
    write_op(&mut buffer, 0x59);
    write_op(&mut buffer, 0x00);
    write_u32(&mut buffer, FORMAT_VERSION as u64);
    write_u32(&mut buffer, bytecode.len() as u64);
    let ghost head = buffer@;
    assert(head =~= header(bytecode@.len()));
    let n = bytecode.len();
    let mut i: usize = 0;
    while i < n
        invariant
            n == bytecode@.len(),
            i <= n,
            head == header(n as nat),
            encode_all(code_view(bytecode@.subrange(0, i as int))) matches Ok(body) && buffer@
                == head + body,
        decreases n - i,
    {
        let ghost before = buffer@;
        let r = serialize_instruction(&mut buffer, &bytecode[i]);
        let ghost prefix = code_view(bytecode@.subrange(0, i as int));
        let ghost next = code_view(bytecode@.subrange(0, i + 1));
        assert(next.drop_last() =~= prefix);
        assert(next.last() == bytecode@[i as int]@);
        match r {
            Ok(()) => {},
            Err(e) => {
                proof {
                    let code = code_view(bytecode@);
                    assert(code.subrange(0, i as int) =~= prefix);
                    lemma_encode_error_persists(code, i as int, n as int);
                    assert(code.subrange(0, n as int) =~= code);
                }
                return Err(e.message());
            },
        }
        i = i + 1;
        assert(buffer@ =~= head + encode_all(next)->Ok_0);
    }
    assert(bytecode@.subrange(0, n as int) =~= bytecode@);
    Ok(buffer)
}

/// A program has a `.pyq` image exactly when every one of its instructions
/// has an encoding: serializing fails if and only if some instruction cannot
/// be serialized.
pub proof fn lemma_serialize_fails_iff_unserializable(code: Seq<Instr>)
    ensures
        encode_all(code) is Err <==> exists|i: int| 0 <= i < code.len() && #[trigger] encode_instr(code[i]) is Err,
    decreases code.len(),
{
    if code.len() > 0 {
        let init = code.drop_last();
        lemma_serialize_fails_iff_unserializable(init);
        if encode_all(code) is Err {
            if encode_all(init) is Err {
                let i = choose|i: int| 0 <= i < init.len() && #[trigger] encode_instr(init[i]) is Err;
                assert(code[i] == init[i]);
            } else {
                assert(encode_instr(code[code.len() - 1]) is Err);
            }
        } else {
            assert forall|i: int| 0 <= i < code.len() implies !(#[trigger] encode_instr(code[i]) is Err) by {
                if i < code.len() - 1 {
                    assert(code[i] == init[i]);
                }
            }
        }
    }
}

/// Once an instruction has no encoding, every longer prefix that holds it
/// has none either, and the error is that instruction's.
proof fn lemma_encode_error_persists(code: Seq<Instr>, i: int, k: int)
    requires
        0 <= i < k <= code.len(),
        encode_all(code.subrange(0, i)) is Ok,
        encode_instr(code[i]) is Err,
    ensures
        encode_all(code.subrange(0, k)) == Err::<Seq<u8>, SerializeError>(
            encode_instr(code[i])->Err_0,
        ),
    decreases k,
{
    assert(code.subrange(0, k).drop_last() =~= code.subrange(0, k - 1));
    if k > i + 1 {
        lemma_encode_error_persists(code, i, k - 1);
    }
}


// ---------------------------------------------------------------------------
// Decoding
// ---------------------------------------------------------------------------

/// Why a byte sequence is not a `.pyq` image.
#[derive(Debug, Clone, Copy, PartialEq, Eq, Structural)]
pub enum DecodeError {
    /// Fewer bytes than a header.
    TooShort,
    /// The file does not start with the magic bytes.
    BadMagic,
    /// The file was written by a newer format version.
    UnsupportedVersion(u32),
    /// An instruction was expected but the data ended.
    UnexpectedEnd,
    /// The operand of the instruction with this opcode is cut off.
    Truncated(u8),
    /// The string operand of the instruction with this opcode is cut off.
    StringTooShort(u8),
    /// A string constant is not valid UTF-8.
    InvalidUtf8String,
    /// A variable name is not valid UTF-8.
    InvalidUtf8Name,
    /// A byte that is no opcode.
    UnknownOpcode(u8),
}

/// The name of the instruction that an opcode with an operand stands for.
pub open spec fn operand_opcode_name(op: u8) -> Seq<char> {
    if op == 0x01 {
        "PushInt"@
    } else if op == 0x02 {
        "PushBool"@
    } else if op == 0x05 {
        "PushString"@
    } else if op == 0x06 {
        "PushFloat"@
    } else if op == 0x20 {
        "GetGlobal"@
    } else if op == 0x21 {
        "SetGlobal"@
    } else if op == 0x22 {
        "GetLocal"@
    } else if op == 0x23 {
        "SetLocal"@
    } else if op == 0x30 {
        "Jump"@
    } else if op == 0x31 {
        "JumpIfFalse"@
    } else if op == 0x40 {
        "Print"@
    } else {
        "ForIter"@
    }
}

fn push_operand_opcode_name(s: &mut String, op: u8)
    ensures
        final(s)@ == old(s)@ + operand_opcode_name(op),
{
    let name = if op == 0x01 {
        "PushInt"
    } else if op == 0x02 {
        "PushBool"
    } else if op == 0x05 {
        "PushString"
    } else if op == 0x06 {
        "PushFloat"
    } else if op == 0x20 {
        "GetGlobal"
    } else if op == 0x21 {
        "SetGlobal"
    } else if op == 0x22 {
        "GetLocal"
    } else if op == 0x23 {
        "SetLocal"
    } else if op == 0x30 {
        "Jump"
    } else if op == 0x31 {
        "JumpIfFalse"
    } else if op == 0x40 {
        "Print"
    } else {
        "ForIter"
    };
    s.append(name);
}

impl DecodeError {
    /// The message that reports the error.
    pub open spec fn text(self) -> Seq<char> {
        match self {
            DecodeError::TooShort => "Invalid bytecode: too short"@,
            DecodeError::BadMagic => "Invalid bytecode: wrong magic number"@,
            DecodeError::UnsupportedVersion(v) => "Unsupported bytecode version: "@
                + decimal_text(v as nat),
            DecodeError::UnexpectedEnd => "Unexpected end of bytecode"@,
            DecodeError::Truncated(op) => "Invalid "@ + operand_opcode_name(op) + " instruction"@,
            DecodeError::StringTooShort(op) => "Invalid "@ + operand_opcode_name(op)
                + " instruction: string too short"@,
            DecodeError::InvalidUtf8String => "Invalid UTF-8 in string"@,
            DecodeError::InvalidUtf8Name => "Invalid UTF-8 in variable name"@,
            DecodeError::UnknownOpcode(op) => "Unknown opcode: 0x"@ + hex2_text(op),
        }
    }

    /// The message that reports the error.
    pub fn message(&self) -> (res: String)
        ensures
            res@ == self.text(),
    {
        match self {
            DecodeError::TooShort => String::from_str("Invalid bytecode: too short"),
            DecodeError::BadMagic => String::from_str("Invalid bytecode: wrong magic number"),
            DecodeError::UnsupportedVersion(v) => {
                let mut s = String::from_str("Unsupported bytecode version: ");
                push_decimal(&mut s, *v as u64);
                s
            },
            DecodeError::UnexpectedEnd => String::from_str("Unexpected end of bytecode"),
            DecodeError::Truncated(op) => {
                let mut s = String::from_str("Invalid ");
                push_operand_opcode_name(&mut s, *op);
                s.append(" instruction");
                s
            },
            DecodeError::StringTooShort(op) => {
                let mut s = String::from_str("Invalid ");
                push_operand_opcode_name(&mut s, *op);
                s.append(" instruction: string too short");
                s
            },
            DecodeError::InvalidUtf8String => String::from_str("Invalid UTF-8 in string"),
            DecodeError::InvalidUtf8Name => String::from_str("Invalid UTF-8 in variable name"),
            DecodeError::UnknownOpcode(op) => {
                let mut s = String::from_str("Unknown opcode: 0x");
                push_hex2(&mut s, *op);
                s
            },
        }
    }
}

/// The opcodes that stand alone, without an operand, and their instructions.
pub open spec fn plain_instr(op: u8) -> Option<Instr> {
    if op == 0x03 {
        Some(Instr::PushNone)
    } else if op == 0x04 {
        Some(Instr::Pop)
    } else if op == 0x10 {
        Some(Instr::Add)
    } else if op == 0x11 {
        Some(Instr::Sub)
    } else if op == 0x12 {
        Some(Instr::Mul)
    } else if op == 0x13 {
        Some(Instr::Div)
    } else if op == 0x14 {
        Some(Instr::Eq)
    } else if op == 0x15 {
        Some(Instr::Ne)
    } else if op == 0x16 {
        Some(Instr::Lt)
    } else if op == 0x17 {
        Some(Instr::Le)
    } else if op == 0x18 {
        Some(Instr::Gt)
    } else if op == 0x19 {
        Some(Instr::Ge)
    } else if op == 0x1A {
        Some(Instr::Negate)
    } else if op == 0x1B {
        Some(Instr::Mod)
    } else if op == 0x41 {
        Some(Instr::Int)
    } else if op == 0x42 {
        Some(Instr::Float)
    } else if op == 0x43 {
        Some(Instr::Len)
    } else if op == 0x50 {
        Some(Instr::Range)
    } else if op == 0x51 {
        Some(Instr::GetIter)
    } else {
        None
    }
}

/// The instruction that a 32-bit operand completes, for the opcodes that
/// take one.
pub open spec fn u32_operand_instr(op: u8, v: nat) -> Option<Instr> {
    if op == 0x30 {
        Some(Instr::Jump(v as usize))
    } else if op == 0x31 {
        Some(Instr::JumpIfFalse(v as usize))
    } else if op == 0x40 {
        Some(Instr::Print(v as usize))
    } else if op == 0x52 {
        Some(Instr::ForIter(v as usize))
    } else {
        None
    }
}

/// Decodes the instruction at the start of `s`: the instruction and the
/// number of bytes it takes, or why there is none.
pub open spec fn decode_instr(s: Seq<u8>) -> Result<(Instr, nat), DecodeError> {
    if s.len() == 0 {
        Err(DecodeError::UnexpectedEnd)
    } else {
        let op = s[0];
        if plain_instr(op) is Some {
            Ok((plain_instr(op)->Some_0, 1))
        } else if op == 0x01 {
            if s.len() < 5 {
                Err(DecodeError::Truncated(op))
            } else {
                Ok((Instr::PushInt(i32_of_bits(u32_at(s, 1)) as i32), 5))
            }
        } else if op == 0x02 {
            if s.len() < 2 {
                Err(DecodeError::Truncated(op))
            } else {
                Ok((Instr::PushBool(s[1] != 0), 2))
            }
        } else if op == 0x05 {
            if s.len() < 5 {
                Err(DecodeError::Truncated(op))
            } else if s.len() < 5 + u32_at(s, 1) {
                Err(DecodeError::StringTooShort(op))
            } else {
                let bytes = s.subrange(5, 5 + u32_at(s, 1) as int);
                if vstd::utf8::valid_utf8(bytes) {
                    Ok((Instr::PushString(vstd::utf8::decode_utf8(bytes)), 5 + u32_at(s, 1)))
                } else {
                    Err(DecodeError::InvalidUtf8String)
                }
            }
        } else if op == 0x06 {
            if s.len() < 9 {
                Err(DecodeError::Truncated(op))
            } else {
                Ok((Instr::PushFloat(u64_at(s, 1) as u64), 9))
            }
        } else if op == 0x20 || op == 0x21 {
            if s.len() < 3 {
                Err(DecodeError::Truncated(op))
            } else if s.len() < 3 + u16_at(s, 1) {
                Err(DecodeError::StringTooShort(op))
            } else {
                let bytes = s.subrange(3, 3 + u16_at(s, 1) as int);
                if vstd::utf8::valid_utf8(bytes) {
                    let name = vstd::utf8::decode_utf8(bytes);
                    Ok(
                        (
                            if op == 0x20 {
                                Instr::GetGlobal(name)
                            } else {
                                Instr::SetGlobal(name)
                            },
                            3 + u16_at(s, 1),
                        ),
                    )
                } else {
                    Err(DecodeError::InvalidUtf8Name)
                }
            }
        } else if op == 0x22 || op == 0x23 {
            if s.len() < 3 {
                Err(DecodeError::Truncated(op))
            } else {
                let index = u16_at(s, 1) as usize;
                Ok(
                    (
                        if op == 0x22 {
                            Instr::GetLocal(index)
                        } else {
                            Instr::SetLocal(index)
                        },
                        3,
                    ),
                )
            }
        } else if u32_operand_instr(op, 0) is Some {
            if s.len() < 5 {
                Err(DecodeError::Truncated(op))
            } else {
                Ok((u32_operand_instr(op, u32_at(s, 1))->Some_0, 5))
            }
        } else {
            Err(DecodeError::UnknownOpcode(op))
        }
    }
}

/// Decodes `n` instructions one after the other from offset 12 on: the
/// instructions and the offset after them, or the first error.
pub open spec fn decode_from(data: Seq<u8>, n: nat) -> Result<(Seq<Instr>, nat), DecodeError>
    decreases n,
{
    if n == 0 {
        Ok((seq![], HEADER_LEN as nat))
    } else {
        match decode_from(data, (n - 1) as nat) {
            Ok((code, off)) => match decode_instr(data.subrange(off as int, data.len() as int)) {
                Ok((i, k)) => Ok((code.push(i), off + k)),
                Err(e) => Err(e),
            },
            Err(e) => Err(e),
        }
    }
}

/// The program that a `.pyq` image holds, or why it holds none. Bytes after
/// the last instruction are ignored.
pub open spec fn decode_program(data: Seq<u8>) -> Result<Seq<Instr>, DecodeError> {
    if data.len() < HEADER_LEN {
        Err(DecodeError::TooShort)
    } else if data.subrange(0, 4) != magic() {
        Err(DecodeError::BadMagic)
    } else if u32_at(data, 4) > FORMAT_VERSION {
        Err(DecodeError::UnsupportedVersion(u32_at(data, 4) as u32))
    } else {
        match decode_from(data, u32_at(data, 8)) {
            Ok((code, _)) => Ok(code),
            Err(e) => Err(e),
        }
    }
}

/// A decoded instruction takes at least one byte and no more than there are.
pub proof fn lemma_decode_instr_len(s: Seq<u8>)
    ensures
        decode_instr(s) matches Ok((_, k)) ==> 1 <= k <= s.len(),
{
}

/// Decoding keeps the offset within the data.
proof fn lemma_decode_from_offset(data: Seq<u8>, n: nat)
    requires
        data.len() >= HEADER_LEN,
    ensures
        decode_from(data, n) matches Ok((code, off)) ==> HEADER_LEN <= off <= data.len()
            && code.len() == n,
    decreases n,
{
    if n > 0 {
        lemma_decode_from_offset(data, (n - 1) as nat);
        if let Ok((code, off)) = decode_from(data, (n - 1) as nat) {
            lemma_decode_instr_len(data.subrange(off as int, data.len() as int));
        }
    }
}

fn read_u16(data: &[u8], pos: usize) -> (res: u64)
    requires
        pos + 2 <= data@.len(),
    ensures
        res == u16_at(data@, pos as int),
{
    data[pos] as u64 + 256 * (data[pos + 1] as u64)
}

fn read_u32(data: &[u8], pos: usize) -> (res: u64)
    requires
        pos + 4 <= data@.len(),
    ensures
        res == u32_at(data@, pos as int),
        res < 0x1_0000_0000,
{
    data[pos] as u64 + 0x100 * (data[pos + 1] as u64) + 0x10000 * (data[pos + 2] as u64)
        + 0x1000000 * (data[pos + 3] as u64)
}

fn read_u64(data: &[u8], pos: usize) -> (res: u64)
    requires
        pos + 8 <= data.len(),
    ensures
        res == u64_at(data@, pos as int),
{
    let lo = read_u32(data, pos);
    let hi = read_u32(data, pos + 4);
    lo + 0x1_0000_0000 * hi
}

/// A copy of `data[start..end]`.
fn copy_range(data: &[u8], start: usize, end: usize) -> (res: Vec<u8>)
    requires
        start <= end <= data@.len(),
    ensures
        res@ == data@.subrange(start as int, end as int),
{
    let mut out: Vec<u8> = Vec::new();
    let mut i = start;
    while i < end
        invariant
            start <= i <= end,
            end <= data@.len(),
            out@ == data@.subrange(start as int, i as int),
        decreases end - i,
    {
        out.push(data[i]);
        i = i + 1;
        assert(out@ =~= data@.subrange(start as int, i as int));
    }
    out
}

/// Decodes the instruction at `pos`: the instruction and the number of bytes
/// that it takes.
pub fn deserialize_instruction(data: &[u8], pos: usize) -> (res: Result<
    (Instruction, usize),
    DecodeError,
>)
    requires
        pos <= data@.len(),
    ensures
        match decode_instr(data@.subrange(pos as int, data@.len() as int)) {
            Ok((i, k)) => res matches Ok((ins, len)) && ins@ == i && len == k,
            Err(e) => res == Err::<(Instruction, usize), DecodeError>(e),
        },
{
    let ghost s = data@.subrange(pos as int, data@.len() as int);
    let avail = data.len() - pos;
    if avail == 0 {
        return Err(DecodeError::UnexpectedEnd);
    }
    let op = data[pos];
    assert(s[0] == op);
    let plain = match op {
        0x03 => Some(Instruction::PushNone),
        0x04 => Some(Instruction::Pop),
        0x10 => Some(Instruction::Add),
        0x11 => Some(Instruction::Sub),
        0x12 => Some(Instruction::Mul),
        0x13 => Some(Instruction::Div),
        0x14 => Some(Instruction::Eq),
        0x15 => Some(Instruction::Ne),
        0x16 => Some(Instruction::Lt),
        0x17 => Some(Instruction::Le),
        0x18 => Some(Instruction::Gt),
        0x19 => Some(Instruction::Ge),
        0x1A => Some(Instruction::Negate),
        0x1B => Some(Instruction::Mod),
        0x41 => Some(Instruction::Int),
        0x42 => Some(Instruction::Float),
        0x43 => Some(Instruction::Len),
        0x50 => Some(Instruction::Range),
        0x51 => Some(Instruction::GetIter),
        _ => None,
    };
    if let Some(ins) = plain {
        return Ok((ins, 1));
    }
    assert(plain_instr(op) is None);
    if op == 0x01 {
        if avail < 5 {
            return Err(DecodeError::Truncated(op));
        }
        let u = read_u32(data, pos + 1);
        assert(u == u32_at(s, 1));
        let v: i32 = if u < 0x8000_0000 {
            u as i32
        } else {
            (u as i64 - 0x1_0000_0000i64) as i32
        };
        return Ok((Instruction::PushInt(v), 5));
    }
    if op == 0x02 {
        if avail < 2 {
            return Err(DecodeError::Truncated(op));
        }
        return Ok((Instruction::PushBool(data[pos + 1] != 0), 2));
    }
    if op == 0x05 {
        if avail < 5 {
            return Err(DecodeError::Truncated(op));
        }
        let len = read_u32(data, pos + 1);
        assert(len == u32_at(s, 1));
        if (avail as u64) < 5 + len {
            return Err(DecodeError::StringTooShort(op));
        }
        let bytes = copy_range(data, pos + 5, pos + 5 + len as usize);
        assert(bytes@ =~= s.subrange(5, 5 + len as int));
        match string_from_utf8(bytes) {
            Some(text) => {
                return Ok((Instruction::PushString(text), 5 + len as usize));
            },
            None => {
                return Err(DecodeError::InvalidUtf8String);
            },
        }
    }
    if op == 0x06 {
        if avail < 9 {
            return Err(DecodeError::Truncated(op));
        }
        let bits = read_u64(data, pos + 1);
        assert(bits == u64_at(s, 1));
        return Ok((Instruction::PushFloat(bits), 9));
    }
    if op == 0x20 || op == 0x21 {
        if avail < 3 {
            return Err(DecodeError::Truncated(op));
        }
        let len = read_u16(data, pos + 1);
        assert(len == u16_at(s, 1));
        if (avail as u64) < 3 + len {
            return Err(DecodeError::StringTooShort(op));
        }
        let bytes = copy_range(data, pos + 3, pos + 3 + len as usize);
        assert(bytes@ =~= s.subrange(3, 3 + len as int));
        match string_from_utf8(bytes) {
            Some(name) => {
                let ins = if op == 0x20 {
                    Instruction::GetGlobal(name)
                } else {
                    Instruction::SetGlobal(name)
                };
                return Ok((ins, 3 + len as usize));
            },
            None => {
                return Err(DecodeError::InvalidUtf8Name);
            },
        }
    }
    if op == 0x22 || op == 0x23 {
        if avail < 3 {
            return Err(DecodeError::Truncated(op));
        }
        let index = read_u16(data, pos + 1);
        assert(index == u16_at(s, 1));
        let ins = if op == 0x22 {
            Instruction::GetLocal(index as usize)
        } else {
            Instruction::SetLocal(index as usize)
        };
        return Ok((ins, 3));
    }
    if op == 0x30 || op == 0x31 || op == 0x40 || op == 0x52 {
        if avail < 5 {
            return Err(DecodeError::Truncated(op));
        }
        let v = read_u32(data, pos + 1);
        assert(v == u32_at(s, 1));
        let ins = if op == 0x30 {
            Instruction::Jump(v as usize)
        } else if op == 0x31 {
            Instruction::JumpIfFalse(v as usize)
        } else if op == 0x40 {
            Instruction::Print(v as usize)
        } else {
            Instruction::ForIter(v as usize)
        };
        return Ok((ins, 5));
    }
    Err(DecodeError::UnknownOpcode(op))
}

/// Decodes a `.pyq` image.
///
/// Fails exactly when the data is no image of a program, with the message
/// that says why.
pub fn deserialize_bytecode(data: &[u8]) -> (res: Result<ByteCode, String>)
    ensures
        match decode_program(data@) {
            Ok(code) => res matches Ok(bc) && code_view(bc@) == code,
            Err(e) => res matches Err(msg) && msg@ == e.text(),
        },
{
    match decode_bytecode(data) {
        Ok(bc) => Ok(bc),
        Err(e) => Err(e.message()),
    }
}

/// Decodes a `.pyq` image, reporting failure as a [`DecodeError`].
pub fn decode_bytecode(data: &[u8]) -> (res: Result<ByteCode, DecodeError>)
    ensures
        match decode_program(data@) {
            Ok(code) => res matches Ok(bc) && code_view(bc@) == code,
            Err(e) => res == Err::<ByteCode, DecodeError>(e),
        },
{
    if data.len() < HEADER_LEN {
        return Err(DecodeError::TooShort);
    }
    if !(data[0] == 0x51 && data[1] == 0x50 && data[2] == 0x59 && data[3] == 0x00) {
        assert(data@.subrange(0, 4) != magic()) by {
            if data@.subrange(0, 4) == magic() {
                assert(data@.subrange(0, 4)[0] == data@[0]);
                assert(data@.subrange(0, 4)[1] == data@[1]);
                assert(data@.subrange(0, 4)[2] == data@[2]);
                assert(data@.subrange(0, 4)[3] == data@[3]);
            }
        }
        return Err(DecodeError::BadMagic);
    }
    assert(data@.subrange(0, 4) =~= magic());
    let version = read_u32(data, 4);
    if version > FORMAT_VERSION as u64 {
        return Err(DecodeError::UnsupportedVersion(version as u32));
    }
    let count = read_u32(data, 8);
    let mut bytecode: Vec<Instruction> = Vec::new();
    let mut offset: usize = HEADER_LEN;
    let mut i: u64 = 0;
    assert(code_view(bytecode@) =~= Seq::<Instr>::empty());
    while i < count
        invariant
            i <= count,
            count == u32_at(data@, 8),
            data@.len() >= HEADER_LEN,
            data@.subrange(0, 4) == magic(),
            u32_at(data@, 4) <= FORMAT_VERSION,
            decode_from(data@, i as nat) == Ok::<(Seq<Instr>, nat), DecodeError>(
                (code_view(bytecode@), offset as nat),
            ),
            offset <= data@.len(),
        decreases count - i,
    {
        let r = deserialize_instruction(data, offset);
        let ghost rest = data@.subrange(offset as int, data@.len() as int);
        proof {
            lemma_decode_instr_len(rest);
            lemma_decode_from_offset(data@, i as nat);
        }
        assert(decode_from(data@, (i + 1) as nat) == match decode_instr(rest) {
            Ok((ins, k)) => Ok::<(Seq<Instr>, nat), DecodeError>(
                (code_view(bytecode@).push(ins), (offset + k) as nat),
            ),
            Err(e) => Err(e),
        });
        match r {
            Ok((ins, len)) => {
                assert(len <= data.len() - offset);
                let ghost old_code = code_view(bytecode@);
                bytecode.push(ins);
                assert(code_view(bytecode@) =~= old_code.push(ins@));
                offset = offset + len;
                i = i + 1;
            },
            Err(e) => {
                proof {
                    if i + 1 < count {
                        lemma_decode_error_persists(data@, i as nat, count as nat);
                    }
                }
                assert(decode_from(data@, count as nat) == Err::<(Seq<Instr>, nat), DecodeError>(
                    e,
                ));
                return Err(e);
            },
        }
    }
    Ok(bytecode)
}

/// Once decoding fails, decoding more instructions fails the same way.
proof fn lemma_decode_error_persists(data: Seq<u8>, i: nat, n: nat)
    requires
        i < n,
        decode_from(data, i) is Ok,
        decode_from(data, i + 1) is Err,
    ensures
        decode_from(data, n) == decode_from(data, i + 1),
    decreases n,
{
    if n > i + 1 {
        lemma_decode_error_persists(data, i, (n - 1) as nat);
    }
}

// ---------------------------------------------------------------------------
// Round trip
// ---------------------------------------------------------------------------

/// Whether every operand of an instruction fits the width that the format
/// gives it, so that nothing is cut off when it is written.
pub open spec fn instr_fits(i: Instr) -> bool {
    match i {
        Instr::PushString(s) => utf8(s).len() < 0x1_0000_0000,
        Instr::GetGlobal(s) => utf8(s).len() < 0x10000,
        Instr::SetGlobal(s) => utf8(s).len() < 0x10000,
        Instr::GetLocal(n) => n < 0x10000,
        Instr::SetLocal(n) => n < 0x10000,
        Instr::Jump(t) => t < 0x1_0000_0000,
        Instr::JumpIfFalse(t) => t < 0x1_0000_0000,
        Instr::ForIter(t) => t < 0x1_0000_0000,
        Instr::Print(n) => n < 0x1_0000_0000,
        _ => true,
    }
}

/// Whether a program can be written without cutting anything off: it has
/// fewer than 2^32 instructions and every operand fits its field.
pub open spec fn program_fits(code: Seq<Instr>) -> bool {
    &&& code.len() < 0x1_0000_0000
    &&& forall|k: int| 0 <= k < code.len() ==> instr_fits(#[trigger] code[k])
}

proof fn lemma_u16_bytes(v: u32)
    by (bit_vector)
    requires
        v < 0x10000,
    ensures
        (v % 256) + 256 * ((v / 256) % 256) == v,
{
}

proof fn lemma_u32_bytes(v: u32)
    by (bit_vector)
    ensures
        (v % 256) + 0x100 * ((v / 0x100) % 256) + 0x10000 * ((v / 0x10000) % 256) + 0x1000000 * ((v
            / 0x1000000) % 256) == v,
{
}

/// A 32-bit number written at `pos` reads back as itself.
proof fn lemma_u32_roundtrip(s: Seq<u8>, pos: int, v: nat)
    requires
        v < 0x1_0000_0000,
        0 <= pos,
        pos + 4 <= s.len(),
        s.subrange(pos, pos + 4) == le_u32(v),
    ensures
        u32_at(s, pos) == v,
{
    assert(s[pos] == s.subrange(pos, pos + 4)[0]);
    assert(s[pos + 1] == s.subrange(pos, pos + 4)[1]);
    assert(s[pos + 2] == s.subrange(pos, pos + 4)[2]);
    assert(s[pos + 3] == s.subrange(pos, pos + 4)[3]);
    lemma_u32_bytes(v as u32);
}

/// A 16-bit number written at `pos` reads back as itself.
proof fn lemma_u16_roundtrip(s: Seq<u8>, pos: int, v: nat)
    requires
        v < 0x10000,
        0 <= pos,
        pos + 2 <= s.len(),
        s.subrange(pos, pos + 2) == le_u16(v),
    ensures
        u16_at(s, pos) == v,
{
    assert(s[pos] == s.subrange(pos, pos + 2)[0]);
    assert(s[pos + 1] == s.subrange(pos, pos + 2)[1]);
    lemma_u16_bytes(v as u32);
}

/// A 64-bit number written at `pos` reads back as itself.
proof fn lemma_u64_roundtrip(s: Seq<u8>, pos: int, v: u64)
    requires
        0 <= pos,
        pos + 8 <= s.len(),
        s.subrange(pos, pos + 8) == le_u64(v as nat),
    ensures
        u64_at(s, pos) == v,
{
    let lo = (v as nat) % 0x1_0000_0000;
    let hi = (v as nat) / 0x1_0000_0000;
    assert(s.subrange(pos, pos + 4) =~= s.subrange(pos, pos + 8).subrange(0, 4));
    assert(s.subrange(pos + 4, pos + 8) =~= s.subrange(pos, pos + 8).subrange(4, 8));
    assert(le_u64(v as nat).subrange(0, 4) =~= le_u32(lo));
    assert(le_u64(v as nat).subrange(4, 8) =~= le_u32(hi));
    lemma_u32_roundtrip(s, pos, lo);
    lemma_u32_roundtrip(s, pos + 4, hi);
}

/// Decoding the encoding of an instruction that fits the format gives the
/// instruction back, whatever follows it.
pub proof fn lemma_decode_encoded_instr(i: Instr, rest: Seq<u8>)
    requires
        encode_instr(i) is Ok,
        instr_fits(i),
    ensures
        decode_instr(encode_instr(i)->Ok_0 + rest) == Ok::<(Instr, nat), DecodeError>(
            (i, encode_instr(i)->Ok_0.len()),
        ),
{
    let enc = encode_instr(i)->Ok_0;
    let s = enc + rest;
    assert(s[0] == enc[0]);
    match i {
        Instr::PushInt(v) => {
            assert(s.subrange(1, 5) =~= le_u32(i32_bits(v)));
            lemma_u32_roundtrip(s, 1, i32_bits(v));
        },
        Instr::PushBool(b) => {
            assert(s[1] == enc[1]);
        },
        Instr::PushFloat(bits) => {
            assert(s.subrange(1, 9) =~= le_u64(bits as nat));
            lemma_u64_roundtrip(s, 1, bits);
        },
        Instr::PushString(t) => {
            let b = utf8(t);
            assert(s.subrange(1, 5) =~= le_u32(b.len()));
            lemma_u32_roundtrip(s, 1, b.len());
            assert(s.subrange(5, 5 + b.len() as int) =~= b);
        },
        Instr::GetGlobal(t) => {
            let b = utf8(t);
            assert(s.subrange(1, 3) =~= le_u16(b.len()));
            lemma_u16_roundtrip(s, 1, b.len());
            assert(s.subrange(3, 3 + b.len() as int) =~= b);
        },
        Instr::SetGlobal(t) => {
            let b = utf8(t);
            assert(s.subrange(1, 3) =~= le_u16(b.len()));
            lemma_u16_roundtrip(s, 1, b.len());
            assert(s.subrange(3, 3 + b.len() as int) =~= b);
        },
        Instr::GetLocal(n) => {
            assert(s.subrange(1, 3) =~= le_u16(n as nat));
            lemma_u16_roundtrip(s, 1, n as nat);
        },
        Instr::SetLocal(n) => {
            assert(s.subrange(1, 3) =~= le_u16(n as nat));
            lemma_u16_roundtrip(s, 1, n as nat);
        },
        Instr::Jump(t) => {
            assert(s.subrange(1, 5) =~= le_u32(t as nat));
            lemma_u32_roundtrip(s, 1, t as nat);
        },
        Instr::JumpIfFalse(t) => {
            assert(s.subrange(1, 5) =~= le_u32(t as nat));
            lemma_u32_roundtrip(s, 1, t as nat);
        },
        Instr::ForIter(t) => {
            assert(s.subrange(1, 5) =~= le_u32(t as nat));
            lemma_u32_roundtrip(s, 1, t as nat);
        },
        Instr::Print(t) => {
            assert(s.subrange(1, 5) =~= le_u32(t as nat));
            lemma_u32_roundtrip(s, 1, t as nat);
        },
        _ => {},
    }
}

/// The encoding of a program is the encoding of a prefix followed by the
/// encoding of the rest.
proof fn lemma_encode_all_split(code: Seq<Instr>, j: int)
    requires
        0 <= j <= code.len(),
        encode_all(code) is Ok,
    ensures
        encode_all(code.subrange(0, j)) is Ok,
        encode_all(code.subrange(j, code.len() as int)) is Ok,
        encode_all(code)->Ok_0 == encode_all(code.subrange(0, j))->Ok_0 + encode_all(
            code.subrange(j, code.len() as int),
        )->Ok_0,
    decreases code.len(),
{
    if j == code.len() {
        assert(code.subrange(0, j) =~= code);
        assert(code.subrange(j, code.len() as int) =~= Seq::<Instr>::empty());
        assert(encode_all(code)->Ok_0 + seq![] =~= encode_all(code)->Ok_0);
    } else {
        let init = code.drop_last();
        lemma_encode_all_split(init, j);
        assert(init.subrange(0, j) =~= code.subrange(0, j));
        let tail = code.subrange(j, code.len() as int);
        assert(tail.drop_last() =~= init.subrange(j, init.len() as int));
        assert(tail.last() == code.last());
        assert(encode_all(code)->Ok_0 =~= encode_all(code.subrange(0, j))->Ok_0 + encode_all(
            tail,
        )->Ok_0);
    }
}

/// The encoding of a program that starts with `x` is the encoding of `x`
/// followed by that of the rest.
proof fn lemma_encode_all_first(code: Seq<Instr>)
    requires
        code.len() > 0,
        encode_all(code) is Ok,
    ensures
        encode_instr(code[0]) is Ok,
        encode_all(code.subrange(1, code.len() as int)) is Ok,
        encode_all(code)->Ok_0 == encode_instr(code[0])->Ok_0 + encode_all(
            code.subrange(1, code.len() as int),
        )->Ok_0,
{
    lemma_encode_all_split(code, 1);
    let one = code.subrange(0, 1);
    assert(one.drop_last() =~= Seq::<Instr>::empty());
    assert(one.last() == code[0]);
    assert(encode_all(Seq::<Instr>::empty()) == Ok::<Seq<u8>, SerializeError>(seq![]));
    assert(encode_instr(code[0]) is Ok);
    assert(seq![] + encode_instr(code[0])->Ok_0 =~= encode_instr(code[0])->Ok_0);
}

/// The bytes of an encoded program from the end of the first `j`
/// instructions on are the encoding of instruction `j` and what follows it.
proof fn lemma_encoded_suffix(code: Seq<Instr>, j: int)
    requires
        encode_program(code) is Ok,
        0 <= j < code.len(),
    ensures
        encode_all(code.subrange(0, j)) is Ok,
        encode_instr(code[j]) is Ok,
        encode_all(code.subrange(0, j + 1)) is Ok,
        encode_all(code.subrange(0, j + 1))->Ok_0 == encode_all(code.subrange(0, j))->Ok_0
            + encode_instr(code[j])->Ok_0,
        ({
            let data = encode_program(code)->Ok_0;
            let off = HEADER_LEN + encode_all(code.subrange(0, j))->Ok_0.len();
            let enc = encode_instr(code[j])->Ok_0;
            off + enc.len() <= data.len() && data.subrange(off as int, data.len() as int)
                == enc + data.subrange(off + enc.len(), data.len() as int)
        }),
{
    let data = encode_program(code)->Ok_0;
    lemma_encode_all_split(code, j);
    let pre = encode_all(code.subrange(0, j))->Ok_0;
    let tail = code.subrange(j, code.len() as int);
    lemma_encode_all_first(tail);
    assert(tail[0] == code[j]);
    let enc = encode_instr(code[j])->Ok_0;
    let after = encode_all(tail.subrange(1, tail.len() as int))->Ok_0;
    let off = HEADER_LEN + pre.len();
    assert(data =~= header(code.len()) + pre + (enc + after));
    assert(data.subrange(off as int, data.len() as int) =~= enc + after);
    assert(data.subrange(off + enc.len(), data.len() as int) =~= after);
    let pre_k = code.subrange(0, j + 1);
    assert(pre_k.drop_last() =~= code.subrange(0, j));
    assert(pre_k.last() == code[j]);
}

/// Decoding the first `k` instructions of an encoded program gives them back,
/// and stops right after their encodings.
#[verifier::spinoff_prover]
#[verifier::rlimit(40)]
proof fn lemma_decode_from_encoded(code: Seq<Instr>, k: nat)
    requires
        encode_program(code) is Ok,
        program_fits(code),
        k <= code.len(),
    ensures
        encode_all(code.subrange(0, k as int)) is Ok,
        decode_from(encode_program(code)->Ok_0, k) == Ok::<(Seq<Instr>, nat), DecodeError>(
            (
                code.subrange(0, k as int),
                (HEADER_LEN + encode_all(code.subrange(0, k as int))->Ok_0.len()) as nat,
            ),
        ),
    decreases k,
{
    let data = encode_program(code)->Ok_0;
    if k == 0 {
        assert(code.subrange(0, 0) =~= Seq::<Instr>::empty());
    } else {
        let j = (k - 1) as int;
        lemma_decode_from_encoded(code, (k - 1) as nat);
        lemma_encoded_suffix(code, j);
        let off = HEADER_LEN + encode_all(code.subrange(0, j))->Ok_0.len();
        let enc = encode_instr(code[j])->Ok_0;
        let after = data.subrange(off + enc.len(), data.len() as int);
        assert(instr_fits(code[j]));
        lemma_decode_encoded_instr(code[j], after);
        assert(code.subrange(0, k as int) =~= code.subrange(0, j).push(code[j]));
    }
}

/// Writing a program and reading it back gives the same program, provided
/// nothing had to be cut off to fit the format.
pub proof fn lemma_serialize_roundtrip(code: Seq<Instr>)
    requires
        encode_program(code) is Ok,
        program_fits(code),
    ensures
        decode_program(encode_program(code)->Ok_0) == Ok::<Seq<Instr>, DecodeError>(code),
{
    let data = encode_program(code)->Ok_0;
    let n = code.len();
    assert(data.subrange(0, 4) =~= magic());
    assert(data.subrange(4, 8) =~= le_u32(FORMAT_VERSION as nat));
    assert(data.subrange(8, 12) =~= le_u32(n));
    lemma_u32_roundtrip(data, 4, FORMAT_VERSION as nat);
    lemma_u32_roundtrip(data, 8, n);
    lemma_decode_from_encoded(code, n);
    assert(code.subrange(0, n as int) =~= code);
}

} // verus!
