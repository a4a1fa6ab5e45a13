use quickpython::ast::{
    Alias, BoolOp, CompareOp, Comprehension, Constant, DictItem, ExceptHandler, SynExpr, Operator, Program, SynStmt,
    UnaryOp,
};
use quickpython::bytecode::Instruction as I;
use quickpython::compiler::Compiler;
use quickpython::serializer::{deserialize_bytecode, serialize_bytecode};
use quickpython::value::{ExceptionType, TypeObject};

fn lit(v: i64) -> SynExpr {
    SynExpr::Constant(Constant::Int(v))
}

fn name(n: &str) -> SynExpr {
    SynExpr::Name(n.to_string())
}

fn s(x: &str) -> String {
    x.to_string()
}

fn assign(target: &str, value: SynExpr) -> SynStmt {
    SynStmt::Assign(vec![name(target)], value)
}

fn module(stmts: Vec<SynStmt>) -> Program {
    Program::Module(stmts)
}

fn call(f: &str, args: Vec<SynExpr>) -> SynExpr {
    SynExpr::Call(Box::new(name(f)), args)
}

#[test]
fn test_compile_assignment_of_sum() {
    let p = module(vec![assign("x", SynExpr::BinOp(Box::new(lit(1)), Operator::Add, Box::new(lit(2))))]);
    assert_eq!(
        Compiler::compile_program(&p),
        Ok(vec![I::PushInt(1), I::PushInt(2), I::Add, I::SetGlobal(s("x")), I::Pop])
    );
}

#[test]
fn test_compile_last_expression_keeps_value() {
    let p = module(vec![assign("x", lit(3)), SynStmt::Expr(name("x"))]);
    assert_eq!(
        Compiler::compile_program(&p),
        Ok(vec![I::PushInt(3), I::SetGlobal(s("x")), I::Pop, I::GetGlobal(s("x"))])
    );
    let p = module(vec![SynStmt::Expr(name("x")), SynStmt::Expr(name("y"))]);
    assert_eq!(Compiler::compile_program(&p), Ok(vec![I::GetGlobal(s("x")), I::Pop, I::GetGlobal(s("y"))]));
}

#[test]
fn test_compile_empty_module_and_expression() {
    assert_eq!(Compiler::compile_program(&module(vec![])), Ok(vec![]));
    let p = Program::Expression(SynExpr::Compare(Box::new(lit(5)), vec![CompareOp::Gt], vec![lit(3)]));
    assert_eq!(Compiler::compile_program(&p), Ok(vec![I::PushInt(5), I::PushInt(3), I::Gt]));
}

#[test]
fn test_compile_if_else_targets() {
    let p = module(vec![SynStmt::If(name("x"), vec![assign("y", lit(1))], vec![assign("y", lit(2))])]);
    assert_eq!(
        Compiler::compile_program(&p),
        Ok(vec![
            I::GetGlobal(s("x")),
            I::JumpIfFalse(6),
            I::PushInt(1),
            I::SetGlobal(s("y")),
            I::Pop,
            I::Jump(9),
            I::PushInt(2),
            I::SetGlobal(s("y")),
            I::Pop,
        ])
    );
}

#[test]
fn test_compile_if_without_else() {
    let p = module(vec![SynStmt::If(name("x"), vec![SynStmt::Pass], vec![]), SynStmt::Pass]);
    assert_eq!(Compiler::compile_program(&p), Ok(vec![I::GetGlobal(s("x")), I::JumpIfFalse(2)]));
}

#[test]
fn test_compile_while_with_break() {
    let p = module(vec![SynStmt::While(name("x"), vec![SynStmt::Break])]);
    assert_eq!(
        Compiler::compile_program(&p),
        Ok(vec![I::GetGlobal(s("x")), I::JumpIfFalse(4), I::Jump(4), I::Jump(0)])
    );
}

#[test]
fn test_compile_for_with_continue() {
    let p = module(vec![SynStmt::For(name("i"), name("y"), vec![SynStmt::Continue])]);
    assert_eq!(
        Compiler::compile_program(&p),
        Ok(vec![
            I::GetGlobal(s("y")),
            I::GetIter,
            I::ForIter(7),
            I::SetGlobal(s("i")),
            I::Pop,
            I::Jump(2),
            I::Jump(2),
            I::Pop,
        ])
    );
}

#[test]
fn test_compile_nested_loops_break_targets_innermost() {
    let inner = SynStmt::While(name("b"), vec![SynStmt::Break]);
    let p = module(vec![SynStmt::While(name("a"), vec![inner, SynStmt::Break])]);
    assert_eq!(
        Compiler::compile_program(&p),
        Ok(vec![
            I::GetGlobal(s("a")),
            I::JumpIfFalse(8),
            I::GetGlobal(s("b")),
            I::JumpIfFalse(6),
            I::Jump(6),
            I::Jump(2),
            I::Jump(8),
            I::Jump(0),
        ])
    );
}

#[test]
fn test_compile_break_and_continue_outside_loop() {
    assert_eq!(Compiler::compile_program(&module(vec![SynStmt::Break])), Err(s("'break' outside loop")));
    assert_eq!(Compiler::compile_program(&module(vec![SynStmt::Continue])), Err(s("'continue' outside loop")));
    let f = SynStmt::FunctionDef(s("f"), vec![], vec![SynStmt::Break]);
    let p = module(vec![SynStmt::While(name("x"), vec![f])]);
    assert_eq!(Compiler::compile_program(&p), Err(s("'break' outside loop")));
}

#[test]
fn test_compile_function_def() {
    let f = SynStmt::FunctionDef(s("f"), vec![s("a")], vec![SynStmt::Return(Some(name("a")))]);
    let p = module(vec![f]);
    assert_eq!(
        Compiler::compile_program(&p),
        Ok(vec![
            I::MakeFunction { name: s("f"), params: vec![s("a")], code_len: 2, is_async: false },
            I::GetLocal(0),
            I::Return,
            I::PushNone,
        ])
    );
}

#[test]
fn test_compile_function_without_return_and_async() {
    let body = vec![assign("b", name("a"))];
    let f = SynStmt::AsyncFunctionDef(s("g"), vec![s("a"), s("b")], body);
    assert_eq!(
        Compiler::compile_program(&module(vec![f])),
        Ok(vec![
            I::MakeFunction { name: s("g"), params: vec![s("a"), s("b")], code_len: 5, is_async: true },
            I::GetLocal(0),
            I::SetLocal(1),
            I::Pop,
            I::PushNone,
            I::Return,
        ])
    );
}

#[test]
fn test_compile_list_comprehension() {
    let gen = Comprehension { target: name("v"), iter: name("xs"), ifs: vec![name("v")] };
    let p = Program::Expression(SynExpr::ListComp(Box::new(name("v")), vec![gen]));
    let t = s("_listcomp_0");
    assert_eq!(
        Compiler::compile_program(&p),
        Ok(vec![
            I::BuildList(0),
            I::SetGlobal(t.clone()),
            I::Pop,
            I::GetGlobal(s("xs")),
            I::GetIter,
            I::ForIter(15),
            I::SetGlobal(s("v")),
            I::Pop,
            I::GetGlobal(s("v")),
            I::JumpIfFalse(14),
            I::GetGlobal(t.clone()),
            I::GetGlobal(s("v")),
            I::CallMethod(s("append"), 1),
            I::Pop,
            I::Jump(5),
            I::GetGlobal(t),
        ])
    );
}

#[test]
fn test_compile_list_comprehensions_are_numbered() {
    let comp = || {
        SynExpr::ListComp(
            Box::new(name("v")),
            vec![Comprehension { target: name("v"), iter: name("xs"), ifs: vec![] }],
        )
    };
    let p = module(vec![SynStmt::Expr(comp()), SynStmt::Expr(comp())]);
    let code = Compiler::compile_program(&p).unwrap();
    assert_eq!(code[1], I::SetGlobal(s("_listcomp_0")));
    assert!(code.contains(&I::SetGlobal(s("_listcomp_1"))));
}

#[test]
fn test_compile_try_except() {
    let h = ExceptHandler { type_: Some(name("ValueError")), name: Some(s("e")), body: vec![SynStmt::Pass] };
    let p = module(vec![SynStmt::Try(vec![SynStmt::Pass], vec![h], vec![])]);
    assert_eq!(
        Compiler::compile_program(&p),
        Ok(vec![
            I::SetupTry(3),
            I::PopTry,
            I::Jump(13),
            I::Dup,
            I::PushInt(4),
            I::MatchException,
            I::JumpIfFalse(11),
            I::Pop,
            I::SetGlobal(s("e")),
            I::Pop,
            I::Jump(13),
            I::Pop,
            I::Raise,
        ])
    );
}

#[test]
fn test_compile_try_finally() {
    let p = module(vec![SynStmt::Try(vec![SynStmt::Pass], vec![], vec![SynStmt::Expr(name("x"))])]);
    assert_eq!(
        Compiler::compile_program(&p),
        Ok(vec![
            I::SetupFinally(4),
            I::PopFinally,
            I::PushNone,
            I::Jump(4),
            I::GetGlobal(s("x")),
            I::Pop,
            I::EndFinally,
        ])
    );
}

#[test]
fn test_compile_unknown_exception_names() {
    let h = ExceptHandler { type_: Some(name("Bogus")), name: None, body: vec![] };
    let p = module(vec![SynStmt::Try(vec![SynStmt::Pass], vec![h], vec![])]);
    assert_eq!(Compiler::compile_program(&p), Err(s("Unknown exception type: Bogus")));
    let r = SynStmt::Raise(Some(call("Nope", vec![lit(1)])));
    assert_eq!(Compiler::compile_program(&module(vec![r])), Err(s("Unknown exception type: Nope")));
    assert_eq!(
        Compiler::compile_program(&module(vec![SynStmt::Raise(None)])),
        Err(s("bare raise not supported yet"))
    );
}

#[test]
fn test_compile_os_and_attribute_errors() {
    for (n, t) in [("OSError", ExceptionType::OSError), ("AttributeError", ExceptionType::AttributeError)] {
        let r = SynStmt::Raise(Some(call(n, vec![SynExpr::Constant(Constant::Str(s("m")))])));
        assert_eq!(
            Compiler::compile_program(&module(vec![r])),
            Ok(vec![I::PushString(s("m")), I::MakeException(t), I::Raise])
        );
        let h = ExceptHandler { type_: Some(name(n)), name: None, body: vec![] };
        let p = module(vec![SynStmt::Try(vec![SynStmt::Pass], vec![h], vec![])]);
        assert!(Compiler::compile_program(&p).is_ok());
    }
}

#[test]
fn test_compile_raise() {
    let r = SynStmt::Raise(Some(call("ValueError", vec![SynExpr::Constant(Constant::Str(s("bad")))])));
    assert_eq!(
        Compiler::compile_program(&module(vec![r])),
        Ok(vec![I::PushString(s("bad")), I::MakeException(ExceptionType::ValueError), I::Raise])
    );
}

#[test]
fn test_compile_short_circuit() {
    let e = SynExpr::BoolOp(BoolOp::And, Box::new(name("a")), vec![name("b"), name("c")]);
    assert_eq!(
        Compiler::compile_program(&Program::Expression(e)),
        Ok(vec![
            I::GetGlobal(s("a")),
            I::JumpIfFalseOrPop(3),
            I::GetGlobal(s("b")),
            I::JumpIfFalseOrPop(5),
            I::GetGlobal(s("c")),
        ])
    );
    let e = SynExpr::BoolOp(BoolOp::Or, Box::new(name("a")), vec![name("b")]);
    assert_eq!(
        Compiler::compile_program(&Program::Expression(e)),
        Ok(vec![I::GetGlobal(s("a")), I::JumpIfTrueOrPop(3), I::GetGlobal(s("b"))])
    );
}

#[test]
fn test_compile_fstring() {
    let e = SynExpr::JoinedStr(vec![
        SynExpr::Constant(Constant::Str(s("x="))),
        SynExpr::FormattedValue(Box::new(name("x")), s("fv")),
        SynExpr::Constant(Constant::Str(s(""))),
        SynExpr::Constant(Constant::Str(s("!"))),
    ]);
    assert_eq!(
        Compiler::compile_program(&Program::Expression(e)),
        Ok(vec![
            I::PushString(s("x=")),
            I::GetGlobal(s("x")),
            I::Str,
            I::Add,
            I::PushString(s("!")),
            I::Add,
        ])
    );
    assert_eq!(
        Compiler::compile_program(&Program::Expression(SynExpr::JoinedStr(vec![]))),
        Ok(vec![I::PushString(s(""))])
    );
}

#[test]
fn test_compile_builtin_calls() {
    let p = Program::Expression(call("range", vec![lit(5)]));
    assert_eq!(Compiler::compile_program(&p), Ok(vec![I::PushInt(1), I::PushInt(5), I::Range]));
    let p = Program::Expression(call("range", vec![lit(1), lit(10)]));
    assert_eq!(Compiler::compile_program(&p), Ok(vec![I::PushInt(2), I::PushInt(1), I::PushInt(10), I::Range]));
    let p = Program::Expression(call("print", vec![lit(1), lit(2)]));
    assert_eq!(Compiler::compile_program(&p), Ok(vec![I::PushInt(1), I::PushInt(2), I::Print(2)]));
    let p = Program::Expression(call("len", vec![name("x")]));
    assert_eq!(Compiler::compile_program(&p), Ok(vec![I::GetGlobal(s("x")), I::Len]));
    let p = Program::Expression(call("isinstance", vec![name("x"), name("int")]));
    assert_eq!(
        Compiler::compile_program(&p),
        Ok(vec![I::GetGlobal(s("x")), I::PushType(TypeObject::Int), I::IsInstance])
    );
    let p = Program::Expression(call("f", vec![lit(1)]));
    assert_eq!(Compiler::compile_program(&p), Ok(vec![I::GetGlobal(s("f")), I::PushInt(1), I::Call(1)]));
}

#[test]
fn test_compile_builtin_call_errors() {
    let p = Program::Expression(call("int", vec![lit(1), lit(2)]));
    assert_eq!(Compiler::compile_program(&p), Err(s("int() takes exactly one argument")));
    let p = Program::Expression(call("isinstance", vec![lit(1)]));
    assert_eq!(Compiler::compile_program(&p), Err(s("isinstance() takes exactly 2 arguments (1 given)")));
    let p = Program::Expression(call("range", vec![]));
    assert_eq!(Compiler::compile_program(&p), Err(s("range() takes 1 to 3 arguments")));
}

#[test]
fn test_compile_method_call_and_subscripts() {
    let m = SynExpr::Call(Box::new(SynExpr::Attribute(Box::new(name("s")), s("split"))), vec![]);
    assert_eq!(
        Compiler::compile_program(&Program::Expression(m)),
        Ok(vec![I::GetGlobal(s("s")), I::CallMethod(s("split"), 0)])
    );
    let sl = SynExpr::Slice(Some(Box::new(lit(1))), None, None, s("slice"));
    let e = SynExpr::Subscript(Box::new(name("xs")), Box::new(sl));
    assert_eq!(
        Compiler::compile_program(&Program::Expression(e)),
        Ok(vec![I::GetGlobal(s("xs")), I::PushInt(1), I::PushNone, I::PushNone, I::BuildSlice, I::GetItemSlice])
    );
    let e = SynExpr::Subscript(Box::new(name("xs")), Box::new(lit(0)));
    assert_eq!(
        Compiler::compile_program(&Program::Expression(e)),
        Ok(vec![I::GetGlobal(s("xs")), I::PushInt(0), I::GetItem])
    );
}

#[test]
fn test_compile_collections() {
    let d = SynExpr::Dict(vec![DictItem { key: Some(SynExpr::Constant(Constant::Str(s("k")))), value: lit(1) }]);
    assert_eq!(
        Compiler::compile_program(&Program::Expression(d)),
        Ok(vec![I::PushString(s("k")), I::PushInt(1), I::BuildDict(1)])
    );
    let d = SynExpr::Dict(vec![DictItem { key: None, value: name("other") }]);
    assert_eq!(Compiler::compile_program(&Program::Expression(d)), Err(s("Dictionary unpacking not supported")));
    let t = SynExpr::Tuple(vec![lit(1), lit(2)]);
    assert_eq!(Compiler::compile_program(&Program::Expression(t)), Ok(vec![I::PushInt(1), I::PushInt(2), I::BuildTuple(2)]));
    let l = SynExpr::List(vec![]);
    assert_eq!(Compiler::compile_program(&Program::Expression(l)), Ok(vec![I::BuildList(0)]));
}

#[test]
fn test_compile_unpacking_assignment() {
    let p = module(vec![SynStmt::Assign(vec![SynExpr::Tuple(vec![name("a"), name("b")])], name("t"))]);
    assert_eq!(
        Compiler::compile_program(&p),
        Ok(vec![
            I::GetGlobal(s("t")),
            I::UnpackSequence(2),
            I::SetGlobal(s("b")),
            I::Pop,
            I::SetGlobal(s("a")),
            I::Pop,
        ])
    );
    let bad = module(vec![SynStmt::Assign(vec![SynExpr::Tuple(vec![lit(1)])], name("t"))]);
    assert_eq!(Compiler::compile_program(&bad), Err(s("Unsupported unpacking target")));
}

#[test]
fn test_compile_aug_assign_and_imports() {
    let p = module(vec![SynStmt::AugAssign(name("x"), Operator::Add, lit(5))]);
    assert_eq!(
        Compiler::compile_program(&p),
        Ok(vec![I::GetGlobal(s("x")), I::PushInt(5), I::Add, I::SetGlobal(s("x")), I::Pop])
    );
    let p = module(vec![SynStmt::AugAssign(name("x"), Operator::Other(s("Pow")), lit(5))]);
    assert_eq!(Compiler::compile_program(&p), Err(s("Unsupported augmented operator: Pow")));
    let p = module(vec![SynStmt::Import(vec![Alias { name: s("os"), asname: Some(s("o")) }])]);
    assert_eq!(
        Compiler::compile_program(&p),
        Ok(vec![I::Import(s("os")), I::SetGlobal(s("o")), I::Pop])
    );
    let p = module(vec![SynStmt::ImportFrom(Some(s("os")), vec![Alias { name: s("path"), asname: None }])]);
    assert_eq!(
        Compiler::compile_program(&p),
        Ok(vec![
            I::Import(s("os")),
            I::Dup,
            I::GetAttr(s("path")),
            I::SetGlobal(s("path")),
            I::Pop,
            I::Pop,
        ])
    );
}

#[test]
fn test_compile_expression_errors() {
    let p = Program::Expression(lit(1i64 << 40));
    assert_eq!(Compiler::compile_program(&p), Err(s("Integer overflow")));
    let p = Program::Expression(SynExpr::BinOp(Box::new(lit(1)), Operator::Other(s("Pow")), Box::new(lit(2))));
    assert_eq!(Compiler::compile_program(&p), Err(s("Unsupported operator: Pow")));
    let p = Program::Expression(SynExpr::UnaryOp(UnaryOp::Other(s("Invert")), Box::new(lit(2))));
    assert_eq!(Compiler::compile_program(&p), Err(s("Unsupported unary operator: Invert")));
    let p = Program::Expression(SynExpr::Other(s("Lambda")));
    assert_eq!(Compiler::compile_program(&p), Err(s("Unsupported expression: Lambda")));
    let p = module(vec![SynStmt::Other(s("With"))]);
    assert_eq!(Compiler::compile_program(&p), Err(s("Unsupported statement: With")));
    let p = Program::Expression(SynExpr::Compare(
        Box::new(lit(1)),
        vec![CompareOp::Lt, CompareOp::Lt],
        vec![lit(2), lit(3)],
    ));
    assert_eq!(Compiler::compile_program(&p), Err(s("Only simple comparisons are supported")));
}

#[test]
fn test_compile_type_names_and_unary() {
    let p = Program::Expression(SynExpr::UnaryOp(UnaryOp::USub, Box::new(name("float"))));
    assert_eq!(Compiler::compile_program(&p), Ok(vec![I::PushType(TypeObject::Float), I::Negate]));
    let p = Program::Expression(SynExpr::UnaryOp(UnaryOp::UAdd, Box::new(lit(1))));
    assert_eq!(Compiler::compile_program(&p), Ok(vec![I::PushInt(1)]));
}

#[test]
fn test_compiled_straight_line_code_serializes_back() {
    let p = module(vec![
        assign("x", SynExpr::BinOp(Box::new(lit(10)), Operator::Add, Box::new(lit(20)))),
        assign("y", SynExpr::BinOp(Box::new(name("x")), Operator::Mult, Box::new(lit(2)))),
        SynStmt::While(
            SynExpr::Compare(Box::new(name("y")), vec![CompareOp::Lt], vec![lit(100)]),
            vec![SynStmt::AugAssign(name("y"), Operator::Add, lit(1))],
        ),
    ]);
    let code = Compiler::compile_program(&p).unwrap();
    let bytes = serialize_bytecode(&code).unwrap();
    assert_eq!(deserialize_bytecode(&bytes).unwrap(), code);
}

#[test]
fn test_compiled_loops_have_no_break_or_continue() {
    let body = vec![
        SynStmt::If(name("a"), vec![SynStmt::Break], vec![SynStmt::Continue]),
        SynStmt::Try(vec![SynStmt::Break], vec![], vec![SynStmt::Pass]),
    ];
    let p = module(vec![
        SynStmt::While(name("x"), body),
        SynStmt::For(name("i"), name("y"), vec![SynStmt::Continue, SynStmt::Break]),
    ]);
    let code = Compiler::compile_program(&p).unwrap();
    assert!(code.iter().all(|i| !matches!(i, I::Break | I::Continue)));

    let loops = module(vec![SynStmt::While(
        name("x"),
        vec![SynStmt::If(name("a"), vec![SynStmt::Break], vec![SynStmt::Continue])],
    )]);
    let code = Compiler::compile_program(&loops).unwrap();
    let bytes = serialize_bytecode(&code).unwrap();
    assert_eq!(deserialize_bytecode(&bytes).unwrap(), code);
}

/// Whether every jump of `code` lands in `0..=code.len()` and every function
/// body is such a block of its own.
fn jumps_stay_in_frame(code: &[I]) -> bool {
    let mut i = 0;
    while i < code.len() {
        match &code[i] {
            I::MakeFunction { code_len, .. } => {
                let end = i + 1 + code_len;
                if end > code.len() || !jumps_stay_in_frame(&code[i + 1..end]) {
                    return false;
                }
                i = end;
                continue;
            }
            I::Jump(t)
            | I::JumpIfFalse(t)
            | I::JumpIfFalseOrPop(t)
            | I::JumpIfTrueOrPop(t)
            | I::ForIter(t)
            | I::SetupTry(t)
            | I::SetupFinally(t) => {
                if *t > code.len() {
                    return false;
                }
            }
            _ => {}
        }
        i += 1;
    }
    true
}

#[test]
fn test_compiled_jumps_stay_in_their_frame() {
    let handler = ExceptHandler { type_: Some(name("ValueError")), name: Some(s("e")), body: vec![SynStmt::Break] };
    let loop_body = vec![
        SynStmt::If(name("a"), vec![SynStmt::Continue], vec![SynStmt::Pass]),
        SynStmt::Try(vec![SynStmt::Expr(call("f", vec![]))], vec![handler], vec![SynStmt::Pass]),
    ];
    let function = SynStmt::FunctionDef(
        s("g"),
        vec![s("n")],
        vec![
            SynStmt::While(name("n"), vec![SynStmt::AugAssign(name("n"), Operator::Sub, lit(1))]),
            SynStmt::Return(Some(SynExpr::BoolOp(BoolOp::And, Box::new(name("n")), vec![lit(2), lit(3)]))),
        ],
    );
    let p = module(vec![
        function,
        SynStmt::For(name("i"), call("range", vec![lit(3)]), loop_body),
        SynStmt::Expr(SynExpr::ListComp(
            Box::new(name("x")),
            vec![Comprehension { target: name("x"), iter: name("xs"), ifs: vec![name("x")] }],
        )),
    ]);
    let code = Compiler::compile_program(&p).unwrap();
    assert!(code.iter().any(|i| matches!(i, I::MakeFunction { .. })));
    assert!(jumps_stay_in_frame(&code));
}

#[test]
fn test_compile_source_text() {
    assert_eq!(Compiler::compile("1 + 2"), Ok(vec![I::PushInt(1), I::PushInt(2), I::Add]));
    assert_eq!(Compiler::compile(""), Ok(vec![]));
    assert_eq!(
        Compiler::compile("for i in range(1, 10):\n    pass"),
        Compiler::compile_program(&module(vec![SynStmt::For(
            name("i"),
            call("range", vec![lit(1), lit(10)]),
            vec![SynStmt::Pass],
        )]))
    );
}

#[test]
fn test_compile_source_errors() {
    assert_eq!(Compiler::compile("break"), Err(s("'break' outside loop")));
    assert_eq!(Compiler::compile("continue"), Err(s("'continue' outside loop")));
    let e = Compiler::compile("x = (1 +").unwrap_err();
    assert!(e.starts_with("Parse error: "));
    assert_eq!(Compiler::compile("try:\n    pass\nexcept OSError:\n    pass").is_ok(), true);
}
