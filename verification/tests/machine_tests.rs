use quickpython::bytecode::Instruction;
use quickpython::machine::{Control, Machine};

fn next(c: Control) -> Option<usize> {
    match c {
        Control::Next(n) => n,
        Control::Raise(e) => panic!("raised {}", e.message),
        Control::Other => panic!("not a control instruction"),
    }
}

#[test]
fn test_machine_unwinds_to_handler_and_finishes() {
    let code = vec![
        Instruction::SetupTry(3),
        Instruction::Break,
        Instruction::Jump(9),
        Instruction::Pop,
        Instruction::Jump(9),
    ];
    let mut m: Machine<i64> = Machine::new();
    m.start(code.clone());
    let ip = m.fetch().unwrap();
    assert_eq!(ip, 0);
    let n = next(m.control(&code[ip], ip));
    assert_eq!(n, Some(1));
    assert!(m.finish_step(n, Ok(())).is_ok());

    let ip = m.fetch().unwrap();
    assert_eq!(ip, 1);
    match m.control(&code[ip], ip) {
        Control::Raise(e) => assert_eq!(e.message, "'break' outside loop"),
        _ => panic!("break should raise"),
    }
    // The caller hands the exception back as a value.
    assert!(m.finish_step(Some(ip), Err(99)).is_ok());
    assert_eq!(m.stack, vec![99]);
    assert!(m.blocks.is_empty());

    let ip = m.fetch().unwrap();
    assert_eq!(ip, 3);
    let n = next(m.control(&code[ip], ip));
    assert!(m.finish_step(n, Ok(())).is_ok());
    assert!(m.stack.is_empty());

    let ip = m.fetch().unwrap();
    let n = next(m.control(&code[ip], ip));
    assert_eq!(n, Some(9));
    assert!(m.finish_step(n, Ok(())).is_ok());
    assert_eq!(m.fetch(), None);
    assert!(m.frames.is_empty());
}

#[test]
fn test_machine_uncaught_exception_is_handed_back() {
    let mut m: Machine<i64> = Machine::new();
    m.start(vec![Instruction::Continue]);
    let ip = m.fetch().unwrap();
    match m.control(&Instruction::Continue, ip) {
        Control::Raise(e) => assert_eq!(e.message, "'continue' outside loop"),
        _ => panic!("continue should raise"),
    }
    assert_eq!(m.finish_step(Some(ip), Err(7)), Err(7));
}

#[test]
fn test_machine_calls_and_returns() {
    let mut m: Machine<i64> = Machine::new();
    m.start(vec![Instruction::PushInt(1), Instruction::PushInt(2)]);
    m.stack.push(5);
    m.enter_function(1, vec![10, 20], vec![Instruction::GetLocal(1), Instruction::Return]);
    assert_eq!(m.frames.len(), 2);
    assert_eq!(m.frames[0].ip, 1);
    assert_eq!(m.frames[1].stack_base, 1);
    let ip = m.fetch().unwrap();
    assert_eq!(ip, 0);
    let n = next(m.control(&Instruction::GetLocal(1), ip));
    assert!(m.finish_step(n, Ok(())).is_ok());
    assert_eq!(m.stack, vec![5, 20]);
    match m.control(&Instruction::GetLocal(2), 1) {
        Control::Raise(e) => assert_eq!(e.message, "local variable 2 not found"),
        _ => panic!("missing local should raise"),
    }
    let n = next(m.control(&Instruction::Return, 1));
    assert_eq!(n, None);
    assert!(m.finish_step(n, Ok(())).is_ok());
    assert_eq!(m.frames.len(), 1);
    assert_eq!(m.fetch(), Some(1));
    assert!(matches!(m.control(&Instruction::PushInt(2), 1), Control::Other));
}

#[test]
fn test_machine_pop_and_dup_underflow() {
    let mut m: Machine<i64> = Machine::new();
    m.start(vec![Instruction::Pop]);
    for i in [Instruction::Pop, Instruction::Dup] {
        match m.control(&i, 0) {
            Control::Raise(e) => assert_eq!(e.message, "Stack underflow"),
            _ => panic!("should raise"),
        }
    }
    m.stack.push(4);
    assert_eq!(next(m.control(&Instruction::Dup, 0)), Some(1));
    assert_eq!(m.stack, vec![4, 4]);
}

#[test]
fn test_machine_set_local_fills_and_keeps_top() {
    let mut m: Machine<i64> = Machine::new();
    m.start(vec![Instruction::SetLocal(2)]);
    let e = m.set_local(2, &0).unwrap_err();
    assert_eq!(e.message, "Stack underflow");
    m.stack.push(9);
    assert!(m.set_local(2, &0).is_ok());
    assert_eq!(m.frames[0].locals, vec![0, 0, 9]);
    assert_eq!(m.stack, vec![9]);
    m.stack.push(5);
    assert!(m.set_local(0, &0).is_ok());
    assert_eq!(m.frames[0].locals, vec![5, 0, 9]);
    let mut empty: Machine<i64> = Machine::new();
    empty.stack.push(1);
    assert_eq!(empty.set_local(0, &0).unwrap_err().message, "no active frame");
}

#[test]
fn test_machine_conditional_jumps() {
    let mut m: Machine<i64> = Machine::new();
    m.start(vec![]);
    m.stack.push(1);
    assert_eq!(m.branch(&Instruction::JumpIfFalse(7), 3, false), Some(7));
    assert!(m.stack.is_empty());
    m.stack.push(1);
    assert_eq!(m.branch(&Instruction::JumpIfFalse(7), 3, true), Some(4));
    assert!(m.stack.is_empty());
    m.stack.push(1);
    assert_eq!(m.branch(&Instruction::JumpIfFalseOrPop(7), 3, false), Some(7));
    assert_eq!(m.stack, vec![1]);
    assert_eq!(m.branch(&Instruction::JumpIfFalseOrPop(7), 3, true), Some(4));
    assert!(m.stack.is_empty());
    m.stack.push(1);
    assert_eq!(m.branch(&Instruction::JumpIfTrueOrPop(7), 3, true), Some(7));
    assert_eq!(m.stack, vec![1]);
    assert_eq!(m.branch(&Instruction::JumpIfTrueOrPop(7), 3, false), Some(4));
    assert!(m.stack.is_empty());
    m.stack.push(1);
    assert_eq!(m.branch(&Instruction::Pop, 3, true), None);
    assert_eq!(m.stack, vec![1]);
}

#[test]
fn test_machine_function_body() {
    let code = vec![
        Instruction::MakeFunction { name: "f".to_string(), params: vec!["x".to_string()], code_len: 2, is_async: false },
        Instruction::GetLocal(0),
        Instruction::Return,
        Instruction::PushNone,
    ];
    let mut m: Machine<i64> = Machine::new();
    assert_eq!(m.function_body(0, 2).unwrap_err().message, "no active frame");
    m.start(code);
    let (body, next) = m.function_body(0, 2).ok().unwrap();
    assert_eq!(body, vec![Instruction::GetLocal(0), Instruction::Return]);
    assert_eq!(next, 3);
}

#[test]
fn test_machine_for_iter_step() {
    let mut m: Machine<i64> = Machine::new();
    m.stack.push(100);
    assert_eq!(m.for_iter_step(4, 9, Some(1)), 5);
    assert_eq!(m.stack, vec![100, 1]);
    assert_eq!(m.for_iter_step(4, 9, None), 9);
    assert_eq!(m.stack, vec![100, 1]);
}
