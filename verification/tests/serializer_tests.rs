use quickpython::compiler::Compiler;
use quickpython::bytecode::{ByteCode, Instruction};
use quickpython::serializer::{decode_bytecode, deserialize_bytecode, deserialize_instruction, serialize_bytecode, serialize_instruction, DecodeError};
use quickpython::value::ExceptionType;

#[test]
fn test_serialize_deserialize() {
    let bytecode = vec![Instruction::PushInt(42), Instruction::PushInt(10), Instruction::Add];
    let serialized = serialize_bytecode(&bytecode).unwrap();
    let deserialized = deserialize_bytecode(&serialized).unwrap();
    assert_eq!(bytecode, deserialized);
}

#[test]
fn test_magic_number() {
    let bytecode = vec![Instruction::PushInt(1)];
    let serialized = serialize_bytecode(&bytecode).unwrap();
    assert_eq!(&serialized[0..4], b"QPY\0");
}

#[test]
fn test_variable_instructions() {
    let bytecode = vec![
        Instruction::PushInt(42),
        Instruction::SetGlobal("x".to_string()),
        Instruction::GetGlobal("x".to_string()),
    ];
    let serialized = serialize_bytecode(&bytecode).unwrap();
    let deserialized = deserialize_bytecode(&serialized).unwrap();
    assert_eq!(bytecode, deserialized);
}

#[test]
fn test_bool_and_comparison() {
    let bytecode = vec![Instruction::PushInt(5), Instruction::PushInt(3), Instruction::Lt];
    let serialized = serialize_bytecode(&bytecode).unwrap();
    let deserialized = deserialize_bytecode(&serialized).unwrap();
    assert_eq!(bytecode, deserialized);
}

#[test]
fn test_serialize_empty_bytecode() {
    let bytecode: ByteCode = vec![];
    let bytes = serialize_bytecode(&bytecode).unwrap();
    let restored = deserialize_bytecode(&bytes).unwrap();
    assert_eq!(restored.len(), 0);
}

#[test]
fn test_deserialize_invalid_magic() {
    let bytes = vec![0xFF, 0xFF, 0xFF, 0xFF];
    let result = deserialize_bytecode(&bytes);
    assert!(result.is_err());
}

#[test]
fn test_deserialize_invalid_version() {
    let mut bytes = vec![0x51, 0x50, 0x59, 0x51];
    bytes.push(99);
    let result = deserialize_bytecode(&bytes);
    assert!(result.is_err());
}

#[test]
fn test_deserialize_truncated_data() {
    let bytes = vec![0x51, 0x50, 0x59, 0x51, 0x01];
    let result = deserialize_bytecode(&bytes);
    assert!(result.is_ok() || result.is_err());
}

#[test]
fn test_header_bytes_exact() {
    let bytes = serialize_bytecode(&vec![Instruction::PushNone]).unwrap();
    assert_eq!(bytes, vec![b'Q', b'P', b'Y', 0, 5, 0, 0, 0, 1, 0, 0, 0, 0x03]);
}

#[test]
fn test_push_int_encoding_little_endian() {
    let bytes = serialize_bytecode(&vec![Instruction::PushInt(-2)]).unwrap();
    assert_eq!(&bytes[12..], &[0x01, 0xFE, 0xFF, 0xFF, 0xFF]);
}

#[test]
fn test_roundtrip_floats_strings_jumps() {
    let bytecode = vec![
        Instruction::PushFloat(3.25f64.to_bits()),
        Instruction::PushString("héllo, wörld ✓".to_string()),
        Instruction::PushBool(true),
        Instruction::PushBool(false),
        Instruction::Jump(7),
        Instruction::JumpIfFalse(0),
        Instruction::GetLocal(3),
        Instruction::SetLocal(4),
        Instruction::Print(2),
        Instruction::ForIter(12),
        Instruction::GetIter,
        Instruction::Mod,
        Instruction::Negate,
        Instruction::Int,
        Instruction::Float,
        Instruction::Len,
        Instruction::Range,
    ];
    let bytes = serialize_bytecode(&bytecode).unwrap();
    let restored = deserialize_bytecode(&bytes).unwrap();
    assert_eq!(restored, bytecode);
    match &restored[0] {
        Instruction::PushFloat(b) => assert_eq!(f64::from_bits(*b), 3.25),
        other => panic!("unexpected {:?}", other),
    }
}

#[test]
fn test_serialize_rejects_function_instructions() {
    let bytecode = vec![Instruction::Call(1)];
    assert_eq!(
        serialize_bytecode(&bytecode),
        Err("Function instructions cannot be serialized yet".to_string())
    );
}

#[test]
fn test_serialize_rejects_containers_and_logic() {
    assert_eq!(
        serialize_bytecode(&vec![Instruction::BuildList(3)]),
        Err("List/Dict instructions cannot be serialized yet".to_string())
    );
    assert_eq!(
        serialize_bytecode(&vec![Instruction::PushInt(1), Instruction::JumpIfFalseOrPop(3)]),
        Err("Logical instructions cannot be serialized yet".to_string())
    );
    assert_eq!(
        serialize_bytecode(&vec![Instruction::MakeException(ExceptionType::ValueError)]),
        Err("Exception instructions cannot be serialized yet".to_string())
    );
    assert_eq!(
        serialize_bytecode(&vec![Instruction::Import("os".to_string())]),
        Err("Import instructions cannot be serialized yet".to_string())
    );
    assert_eq!(
        serialize_bytecode(&vec![Instruction::Await]),
        Err("Async instructions cannot be serialized yet".to_string())
    );
}

fn header(version: u8, count: u8) -> Vec<u8> {
    vec![b'Q', b'P', b'Y', 0, version, 0, 0, 0, count, 0, 0, 0]
}

fn with_body(version: u8, count: u8, body: &[u8]) -> Vec<u8> {
    let mut v = header(version, count);
    v.extend_from_slice(body);
    v
}

#[test]
fn test_decode_errors() {
    assert_eq!(decode_bytecode(&[0x51, 0x50, 0x59, 0, 5, 0, 0, 0, 0, 0, 0]), Err(DecodeError::TooShort));
    assert_eq!(decode_bytecode(&[0; 12]), Err(DecodeError::BadMagic));
    assert_eq!(decode_bytecode(&header(7, 0)), Err(DecodeError::UnsupportedVersion(7)));
    assert_eq!(decode_bytecode(&with_body(5, 1, &[0xEE])), Err(DecodeError::UnknownOpcode(0xEE)));
    assert_eq!(decode_bytecode(&with_body(5, 1, &[0x01, 0x00])), Err(DecodeError::Truncated(0x01)));
    assert_eq!(decode_bytecode(&header(5, 2)), Err(DecodeError::UnexpectedEnd));
    assert_eq!(decode_bytecode(&header(1, 0)), Ok(vec![]));
}

#[test]
fn test_decode_error_messages() {
    assert_eq!(deserialize_bytecode(&header(7, 0)), Err("Unsupported bytecode version: 7".to_string()));
    assert_eq!(deserialize_bytecode(&with_body(5, 1, &[0xEE])), Err("Unknown opcode: 0xee".to_string()));
    assert_eq!(
        deserialize_bytecode(&with_body(5, 1, &[0x01, 0x00])),
        Err("Invalid PushInt instruction".to_string())
    );
    assert_eq!(
        deserialize_bytecode(&with_body(5, 1, &[0x05, 0xFF, 0, 0, 0])),
        Err("Invalid PushString instruction: string too short".to_string())
    );
    assert_eq!(
        deserialize_bytecode(&with_body(5, 1, &[0x05, 1, 0, 0, 0, 0xFF])),
        Err("Invalid UTF-8 in string".to_string())
    );
    assert_eq!(deserialize_bytecode(&[1, 2, 3]), Err("Invalid bytecode: too short".to_string()));
}

#[test]
fn test_compile_serialize_roundtrip() {
    let source = r#"
x = 10 + 20
y = x * 2
"#;
    let bytecode = Compiler::compile(source).unwrap();
    let bytes = serialize_bytecode(&bytecode).unwrap();
    let restored = deserialize_bytecode(&bytes).unwrap();
    assert_eq!(bytecode, restored);
}

#[test]
fn test_serialize_error_on_function() {
    let source = "def foo(): return 1";
    let bytecode = Compiler::compile(source).unwrap();
    assert!(serialize_bytecode(&bytecode).is_err());
}

#[test]
fn test_serialize_error_on_list() {
    let source = "x = [1, 2, 3]";
    let bytecode = Compiler::compile(source).unwrap();
    assert!(serialize_bytecode(&bytecode).is_err());
}

#[test]
fn test_serialize_logical_operators_error() {
    // Logical operators use jump instructions which aren't serializable yet
    let source = "result = True and False or True";
    let bytecode = Compiler::compile(source).unwrap();
    assert!(serialize_bytecode(&bytecode).is_err());
}

#[test]
fn test_instruction_encoding_reads_back_whatever_follows() {
    let instrs = vec![
        Instruction::PushInt(-7),
        Instruction::PushString("héllo".to_string()),
        Instruction::GetLocal(3),
        Instruction::ForIter(12),
        Instruction::Range,
    ];
    for i in instrs {
        let mut buf = vec![0xAAu8];
        assert!(serialize_instruction(&mut buf, &i).is_ok());
        let written = buf.len() - 1;
        buf.extend_from_slice(&[0xFF, 0x00, 0x12]);
        let (back, len) = deserialize_instruction(&buf, 1).ok().unwrap();
        assert_eq!((back, len), (i, written));
    }
}

#[test]
fn test_instruction_encoding_error_appends_nothing() {
    let mut buf = vec![1u8, 2];
    assert!(serialize_instruction(&mut buf, &Instruction::Return).is_err());
    assert_eq!(buf, vec![1u8, 2]);
}

#[test]
fn test_instruction_decoding_errors() {
    assert_eq!(deserialize_instruction(&[], 0).err().unwrap().message(), "Unexpected end of bytecode");
    assert_eq!(deserialize_instruction(&[0xFF], 0).err().unwrap().message(), "Unknown opcode: 0xff");
    assert!(deserialize_instruction(&[0x01, 0x00], 0).is_err());
}
