use lib::compiler::CompileError;
use lib::compiler::Compiler;
use lib::compiler::Local;
use lib::expr::BinaryOp;
use lib::expr::Expr;
use lib::expr::UnaryOp;
use lib::opcode::OpCode;
use lib::stmt::Stmt;
use lib::value::Value;

fn num(text: &str) -> Expr {
    Expr::Number(text.to_string())
}

fn ident(name: &str) -> Box<Expr> {
    Box::new(Expr::Identifier(name.to_string()))
}

#[test]
fn compiles_number_literal() {
    let mut compiler = Compiler::new();
    compiler.compile(&num("5.0"));

    assert_eq!(compiler.chunk.code, vec![OpCode::Constant.to_byte(), 0]);
    assert_eq!(compiler.chunk.constants, vec![Value::Number("5.0".to_string())]);
}

#[test]
fn compiles_unary() {
    let mut compiler = Compiler::new();
    compiler.compile(&Expr::Unary { operator: UnaryOp::Negate, right: Box::new(num("5.0")) });

    assert_eq!(
        compiler.chunk.code,
        vec![OpCode::Constant.to_byte(), 0, OpCode::Negate.to_byte()]
    );
    assert_eq!(compiler.chunk.constants, vec![Value::Number("5.0".to_string())]);
}

#[test]
fn compiles_let_with_value() {
    let mut compiler = Compiler::new();
    compiler.compile_stmt(&Stmt::Let { name: "x".to_string(), value: Some(num("42.0")) });

    assert_eq!(
        compiler.chunk.code,
        vec![OpCode::Constant.to_byte(), 0, OpCode::DefineGlobal.to_byte(), 1]
    );
    assert_eq!(
        compiler.chunk.constants,
        vec![Value::Number("42.0".to_string()), Value::String("x".to_string())]
    );
}

#[test]
fn compiles_local_let() {
    let mut compiler = Compiler::new();
    compiler.compile_stmt(&Stmt::Block(vec![Stmt::Let {
        name: "x".to_string(),
        value: Some(num("42.0")),
    }]));

    assert_eq!(
        compiler.chunk.code,
        vec![OpCode::Constant.to_byte(), 0, OpCode::Pop.to_byte()]
    );
    assert_eq!(compiler.chunk.constants, vec![Value::Number("42.0".to_string())]);
    assert!(compiler.locals.is_empty());
}

#[test]
fn compiles_global_assignment() {
    let mut compiler = Compiler::new();
    compiler.compile(&Expr::Assignment { name: "x".to_string(), value: Box::new(num("20.0")) });

    assert_eq!(
        compiler.chunk.code,
        vec![OpCode::Constant.to_byte(), 0, OpCode::SetGlobal.to_byte(), 1]
    );
    assert_eq!(
        compiler.chunk.constants,
        vec![Value::Number("20.0".to_string()), Value::String("x".to_string())]
    );
}

#[test]
fn compiles_function() {
    let mut compiler = Compiler::new();
    compiler.compile_stmt(&Stmt::Fun { name: "foo".to_string(), parameters: vec![], body: vec![] });

    assert_eq!(
        compiler.chunk.code,
        vec![OpCode::Constant.to_byte(), 0, OpCode::DefineGlobal.to_byte(), 1]
    );
    assert_eq!(compiler.chunk.constants.len(), 2);
    assert_eq!(compiler.chunk.constants[1], Value::String("foo".to_string()));
    match &compiler.chunk.constants[0] {
        Value::Fun(chunk) => {
            assert!(chunk.code.is_empty());
            assert!(chunk.constants.is_empty());
        }
        _ => panic!("expected function"),
    }
}

#[test]
fn compiles_local_assignment() {
    let mut compiler = Compiler::new();
    compiler.scope_depth = 1;
    compiler.locals.push(Local { name: "x".to_string(), depth: 1 });

    compiler.compile(&Expr::Assignment { name: "x".to_string(), value: Box::new(num("20.0")) });

    assert_eq!(
        compiler.chunk.code,
        vec![OpCode::Constant.to_byte(), 0, OpCode::SetLocal.to_byte(), 0]
    );
    assert_eq!(compiler.chunk.constants, vec![Value::Number("20.0".to_string())]);
}

#[test]
fn compiles_while_with_local_assignment() {
    let mut compiler = Compiler::new();
    compiler.compile_stmt(&Stmt::Block(vec![
        Stmt::Let { name: "x".to_string(), value: Some(num("0.0")) },
        Stmt::While {
            condition: Expr::Binary { left: ident("x"), operator: BinaryOp::Less, right: Box::new(num("10.0")) },
            body: vec![Stmt::Expression(Expr::Assignment {
                name: "x".to_string(),
                value: Box::new(Expr::Binary { left: ident("x"), operator: BinaryOp::Add, right: Box::new(num("1.0")) }),
            })],
        },
    ]));

    assert_eq!(
        compiler.chunk.constants,
        vec![
            Value::Number("0.0".to_string()),
            Value::Number("10.0".to_string()),
            Value::Number("1.0".to_string()),
        ]
    );
    assert!(compiler.locals.is_empty());
}

#[test]
fn compiles_function_with_if_and_returns() {
    let mut compiler = Compiler::new();
    compiler.compile_stmt(&Stmt::Fun {
        name: "abs".to_string(),
        parameters: vec!["x".to_string()],
        body: vec![Stmt::If {
            condition: Expr::Binary { left: ident("x"), operator: BinaryOp::Less, right: Box::new(num("0.0")) },
            then_branch: vec![Stmt::Return(Some(Expr::Unary { operator: UnaryOp::Negate, right: ident("x") }))],
            else_branch: Some(vec![Stmt::Return(Some(Expr::Identifier("x".to_string())))]),
        }],
    });

    match &compiler.chunk.constants[0] {
        Value::Fun(chunk) => {
            assert_eq!(chunk.constants, vec![Value::Number("0.0".to_string())]);
            assert!(chunk.code.contains(&OpCode::Less.to_byte()));
            assert!(chunk.code.contains(&OpCode::JumpIfFalse.to_byte()));
            assert!(chunk.code.contains(&OpCode::Negate.to_byte()));
            assert!(chunk.code.contains(&OpCode::Return.to_byte()));
        }
        _ => panic!("expected function"),
    }
}

#[test]
fn compiles_while_with_if_else() {
    let mut compiler = Compiler::new();
    compiler.compile_stmt(&Stmt::Block(vec![
        Stmt::Let { name: "x".to_string(), value: Some(num("0.0")) },
        Stmt::While {
            condition: Expr::Binary { left: ident("x"), operator: BinaryOp::Less, right: Box::new(num("10.0")) },
            body: vec![Stmt::If {
                condition: Expr::Binary { left: ident("x"), operator: BinaryOp::Equal, right: Box::new(num("5.0")) },
                then_branch: vec![Stmt::Expression(Expr::Assignment {
                    name: "x".to_string(),
                    value: Box::new(num("10.0")),
                })],
                else_branch: Some(vec![Stmt::Expression(Expr::Assignment {
                    name: "x".to_string(),
                    value: Box::new(Expr::Binary { left: ident("x"), operator: BinaryOp::Add, right: Box::new(num("1.0")) }),
                })]),
            }],
        },
    ]));

    assert_eq!(
        compiler.chunk.constants,
        vec![
            Value::Number("0.0".to_string()),
            Value::Number("10.0".to_string()),
            Value::Number("5.0".to_string()),
            Value::Number("10.0".to_string()),
            Value::Number("1.0".to_string()),
        ]
    );
    assert!(compiler.locals.is_empty());

    let code = &compiler.chunk.code;
    assert!(code.contains(&OpCode::JumpIfFalse.to_byte()));
    assert!(code.contains(&OpCode::Jump.to_byte()));
    assert!(code.contains(&OpCode::Loop.to_byte()));
    assert!(code.contains(&OpCode::GetLocal.to_byte()));
    assert!(code.contains(&OpCode::SetLocal.to_byte()));
    assert!(code.contains(&OpCode::Less.to_byte()));
    assert!(code.contains(&OpCode::Equal.to_byte()));
    assert!(code.contains(&OpCode::Add.to_byte()));
}

#[test]
fn compiles_if_with_exact_jump_offsets() {
    let mut compiler = Compiler::new();
    compiler.compile_stmt(&Stmt::If {
        condition: Expr::Bool(true),
        then_branch: vec![Stmt::Expression(Expr::Nil)],
        else_branch: None,
    });
    let b = |op: OpCode| op.to_byte();
    assert_eq!(
        compiler.chunk.code,
        vec![
            b(OpCode::True),
            b(OpCode::JumpIfFalse), 0, 6,
            b(OpCode::Pop),
            b(OpCode::Nil), b(OpCode::Pop),
            b(OpCode::Jump), 0, 1,
            b(OpCode::Pop),
        ]
    );
}

#[test]
fn compiles_while_loop_back_to_condition() {
    let mut compiler = Compiler::new();
    compiler.compile_stmt(&Stmt::While { condition: Expr::Bool(false), body: vec![] });
    let b = |op: OpCode| op.to_byte();
    assert_eq!(
        compiler.chunk.code,
        vec![
            b(OpCode::False),
            b(OpCode::JumpIfFalse), 0, 4,
            b(OpCode::Pop),
            b(OpCode::Loop), 0, 8,
            b(OpCode::Pop),
        ]
    );
}

#[test]
fn compiles_and_or_with_short_circuit_jumps() {
    let mut compiler = Compiler::new();
    compiler.compile(&Expr::Binary { left: Box::new(Expr::Bool(false)), operator: BinaryOp::And, right: Box::new(Expr::Nil) });
    let b = |op: OpCode| op.to_byte();
    assert_eq!(
        compiler.chunk.code,
        vec![b(OpCode::False), b(OpCode::JumpIfFalse), 0, 2, b(OpCode::Pop), b(OpCode::Nil)]
    );

    let mut compiler = Compiler::new();
    compiler.compile(&Expr::Binary { left: Box::new(Expr::Nil), operator: BinaryOp::Or, right: Box::new(Expr::Bool(true)) });
    assert_eq!(
        compiler.chunk.code,
        vec![b(OpCode::Nil), b(OpCode::JumpIfTrue), 0, 2, b(OpCode::Pop), b(OpCode::True)]
    );
}

#[test]
fn compiles_derived_comparisons() {
    let b = |op: OpCode| op.to_byte();
    for (op, expected) in [
        (BinaryOp::NotEqual, vec![b(OpCode::Equal), b(OpCode::Not)]),
        (BinaryOp::GreaterEqual, vec![b(OpCode::Less), b(OpCode::Not)]),
        (BinaryOp::LessEqual, vec![b(OpCode::Greater), b(OpCode::Not)]),
    ] {
        let mut compiler = Compiler::new();
        compiler.compile(&Expr::Binary { left: Box::new(Expr::Nil), operator: op, right: Box::new(Expr::Nil) });
        let mut all = vec![b(OpCode::Nil), b(OpCode::Nil)];
        all.extend(expected);
        assert_eq!(compiler.chunk.code, all);
    }
}

#[test]
fn compiles_function_slots_and_arity() {
    let mut compiler = Compiler::new();
    compiler.compile_stmt(&Stmt::Fun {
        name: "f".to_string(),
        parameters: vec!["a".to_string(), "b".to_string()],
        body: vec![Stmt::Return(Some(Expr::Identifier("b".to_string())))],
    });
    match &compiler.chunk.constants[0] {
        Value::Fun(chunk) => {
            assert_eq!(chunk.arity, 2);
            assert_eq!(chunk.code, vec![OpCode::GetLocal.to_byte(), 2, OpCode::Return.to_byte()]);
        }
        _ => panic!("expected function"),
    }
}

#[test]
fn compiles_program_with_final_return() {
    let mut compiler = Compiler::new();
    compiler.compile_program(&vec![Stmt::Expression(Expr::Nil)]);
    let b = |op: OpCode| op.to_byte();
    assert_eq!(
        compiler.chunk.code,
        vec![b(OpCode::Nil), b(OpCode::Pop), b(OpCode::Nil), b(OpCode::Return)]
    );
    assert!(compiler.chunk.line.iter().all(|l| *l == 0));
}

#[test]
fn reports_too_many_call_arguments() {
    let mut compiler = Compiler::new();
    let arguments: Vec<Expr> = (0..256).map(|_| Expr::Nil).collect();
    let call = Expr::Call { callee: Box::new(Expr::Nil), arguments };
    assert_eq!(compiler.try_compile(&call), Err(CompileError::TooManyArguments));
}

#[test]
fn reports_too_many_constants() {
    let mut compiler = Compiler::new();
    for _ in 0..256 {
        assert_eq!(compiler.try_compile(&Expr::String("s".to_string())), Ok(()));
    }
    assert_eq!(compiler.try_compile(&Expr::String("s".to_string())), Err(CompileError::TooManyConstants));
}

#[test]
fn missing_values_compile_as_nil() {
    let mut a = Compiler::new();
    a.compile_stmt(&Stmt::Let { name: "x".to_string(), value: None });
    let mut b = Compiler::new();
    b.compile_stmt(&Stmt::Let { name: "x".to_string(), value: Some(Expr::Nil) });
    assert_eq!(a.chunk, b.chunk);
    assert_eq!(a.chunk.code, vec![OpCode::Nil.to_byte(), OpCode::DefineGlobal.to_byte(), 0]);

    let mut c = Compiler::new();
    c.compile_stmt(&Stmt::Return(None));
    assert_eq!(c.chunk.code, vec![OpCode::Nil.to_byte(), OpCode::Return.to_byte()]);
}

#[test]
fn block_exit_pops_one_per_let() {
    let mut compiler = Compiler::new();
    compiler.compile_stmt(&Stmt::Block(vec![
        Stmt::Let { name: "a".to_string(), value: Some(num("1")) },
        Stmt::Expression(Expr::Identifier("a".to_string())),
        Stmt::Let { name: "b".to_string(), value: None },
    ]));
    let pop = OpCode::Pop.to_byte();
    assert_eq!(
        compiler.chunk.code,
        vec![
            OpCode::Constant.to_byte(), 0,
            OpCode::GetLocal.to_byte(), 0, pop,
            OpCode::Nil.to_byte(),
            pop, pop,
        ]
    );
    assert!(compiler.locals.is_empty());
    assert_eq!(compiler.scope_depth, 0);
}

#[test]
fn compiling_keeps_what_was_written() {
    let mut compiler = Compiler::new();
    compiler.compile(&Expr::String("s".to_string()));
    let code = compiler.chunk.code.clone();
    let constants = compiler.chunk.constants.clone();
    compiler.compile(&Expr::Binary { left: Box::new(num("1")), operator: BinaryOp::Or, right: ident("y") });
    assert_eq!(compiler.chunk.code[..code.len()], code[..]);
    assert_eq!(compiler.chunk.constants[..constants.len()], constants[..]);
    assert_eq!(compiler.chunk.code.len(), compiler.chunk.line.len());
}

#[test]
fn if_branch_is_a_scope() {
    let mut compiler = Compiler::new();
    compiler.compile_stmt(&Stmt::If {
        condition: Expr::Bool(true),
        then_branch: vec![Stmt::Let { name: "y".to_string(), value: Some(num("1")) }],
        else_branch: None,
    });
    assert_eq!(compiler.chunk.constants, vec![Value::Number("1".to_string())]);
    assert!(compiler.locals.is_empty());
    assert_eq!(compiler.scope_depth, 0);
    let pop = OpCode::Pop.to_byte();
    assert_eq!(
        compiler.chunk.code,
        vec![
            OpCode::True.to_byte(),
            OpCode::JumpIfFalse.to_byte(), 0, 7,
            pop,
            OpCode::Constant.to_byte(), 0,
            pop,
            OpCode::Jump.to_byte(), 0, 1,
            pop,
        ]
    );
}
