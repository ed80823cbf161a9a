use lib::chunk::Chunk;
use lib::opcode::OpCode;
use lib::pipeline::compile_source;
use lib::pipeline::InterpretError;
use lib::value::Native;
use lib::value::Value;
use lib::vm::NumOp;
use lib::vm::RuntimeError;
use lib::vm::Step;
use lib::vm::VM;
use lib::vm::print_line;
use std::rc::Rc;

fn number_text(x: f64) -> String {
    format!("{}", x)
}

fn shown(v: &Value) -> Value {
    match v {
        Value::Number(t) => Value::Number(number_text(t.parse::<f64>().unwrap())),
        _ => v.duplicate(),
    }
}

/// Performs a numeric operation the way a host does it, in `f64`.
fn host(op: NumOp, left: &str, right: &str) -> Value {
    let a: f64 = left.parse().unwrap();
    if op == NumOp::Negate {
        return Value::Number(number_text(-a));
    }
    let b: f64 = right.parse().unwrap();
    match op {
        NumOp::Add => Value::Number(number_text(a + b)),
        NumOp::Subtract => Value::Number(number_text(a - b)),
        NumOp::Multiply => Value::Number(number_text(a * b)),
        NumOp::Divide => {
            if b == 0.0 {
                panic!("Divisor cannot be zero");
            }
            Value::Number(number_text(a / b))
        },
        NumOp::Greater => Value::Bool(a > b),
        NumOp::Less => Value::Bool(a < b),
        NumOp::Equal => Value::Bool(a == b),
        NumOp::Negate => unreachable!(),
    }
}

/// Runs `source` on `vm`: the lines printed, and how the run ended.
fn run_on(vm: &mut VM, source: &str) -> (Vec<String>, Result<Value, RuntimeError>) {
    let chunk = compile_source(source.to_string()).unwrap();
    vm.load(chunk);
    let mut out = Vec::new();
    loop {
        match vm.step() {
            Step::Continue => {},
            Step::Finished(v) => return (out, Ok(v)),
            Step::Print(args) => {
                let values: Vec<Value> = args.iter().map(shown).collect();
                out.push(print_line(&values));
            },
            Step::Numeric { op, left, right } => {
                let result = host(op, &left, &right);
                vm.resume(result).unwrap();
            },
            Step::Failed(e) => return (out, Err(e)),
        }
    }
}

fn run(source: &str) -> (Vec<String>, Result<Value, RuntimeError>) {
    let mut vm = VM::new();
    run_on(&mut vm, source)
}

fn printed(source: &str) -> Vec<String> {
    let (out, end) = run(source);
    assert_eq!(end, Ok(Value::Nil));
    out
}

#[test]
fn prints_arithmetic_on_a_global() {
    assert_eq!(printed("let x = 10;\nprint(x + 20);"), vec!["30"]);
}

#[test]
fn print_joins_its_arguments_with_spaces() {
    assert_eq!(printed("print(\"Hello from\", \"Zeta\");"), vec!["Hello from Zeta"]);
    assert_eq!(printed("print(print());"), vec!["", "nil"]);
}

#[test]
fn adds_strings_by_joining_them() {
    assert_eq!(printed("print(\"foo\" + \"bar\");"), vec!["foobar"]);
}

#[test]
fn and_or_return_operand_values_and_short_circuit() {
    assert_eq!(printed("print(true and \"yes\");"), vec!["yes"]);
    assert_eq!(printed("print(false and \"yes\");"), vec!["false"]);
    assert_eq!(printed("print(nil or \"dflt\");"), vec!["dflt"]);
    assert_eq!(printed("print(1 or print(\"NOPE\"));"), vec!["1"]);
}

#[test]
fn if_else_takes_one_branch() {
    let src = "let x = 10;\nif (x > 5) { print(\"big\"); } else { print(\"small\"); }\n\
               if (x < 5) { print(\"big\"); } else { print(\"small\"); }";
    assert_eq!(printed(src), vec!["big", "small"]);
}

#[test]
fn while_loop_counts() {
    let src = "let i = 0;\nwhile (i < 3) {\n  print(\"i:\", i);\n  i = i + 1;\n}";
    assert_eq!(printed(src), vec!["i: 0", "i: 1", "i: 2"]);
}

#[test]
fn calls_a_function() {
    assert_eq!(printed("fun add(a, b) { return a + b; }\nprint(add(3, 4));"), vec!["7"]);
}

#[test]
fn recursion_computes_a_factorial() {
    let src = "fun fact(n) {\n  if (n <= 1) { return 1; }\n  return n * fact(n - 1);\n}\nprint(fact(5));";
    assert_eq!(printed(src), vec!["120"]);
}

#[test]
fn branch_and_loop_bodies_are_scopes() {
    let src = "let a = 1;\nfun f() { let a = 2; print(a); if (a) { let a = 3; print(a); } print(a); return; }\nf();\nprint(a);";
    assert_eq!(printed(src), vec!["2", "3", "2", "1"]);
    let src = "fun f() { let a = 2; if (false) { let a = 3; } else { let b = 4; } print(a); return; }\nf();";
    assert_eq!(printed(src), vec!["2"]);
    let src = "fun g() { let i = 0; while (i < 3) { let t = i; i = t + 1; } print(i); return; }\ng();";
    assert_eq!(printed(src), vec!["3"]);
    let (out, end) = run("if (true) { let b = 2; }\nprint(b);");
    assert!(out.is_empty());
    assert_eq!(end, Err(RuntimeError::UndefinedVariable));
}

#[test]
fn assignment_is_an_expression() {
    assert_eq!(printed("let x = 1;\nprint(x = 5);\nprint(x);"), vec!["5", "5"]);
    assert_eq!(printed("if (true) { let y = 1; print(y = 7); print(y); }"), vec!["7", "7"]);
}

#[test]
fn derived_comparisons_and_not() {
    let src = "print(1 != 2, 2 >= 2, 3 <= 2, !nil, !0, !\"\", !\"a\", 1 == 1, \"a\" == \"a\", nil == false);";
    assert_eq!(printed(src), vec!["true true false true true true false true true false"]);
}

#[test]
fn negation_and_grouping() {
    assert_eq!(printed("print(-(1 + 2) * 3, --4);"), vec!["-9 4"]);
}

#[test]
fn functions_print_as_fn() {
    assert_eq!(printed("fun f() {}\nprint(f, print);"), vec!["<fn> <native fn>"]);
}

#[test]
fn bare_return_gives_nil() {
    assert_eq!(printed("fun f() { return; }\nprint(f());"), vec!["nil"]);
}

#[test]
fn a_function_without_return_runs_off_its_code() {
    let (out, end) = run("fun g() { print(1); }\ng();");
    assert_eq!(out, vec!["1"]);
    assert_eq!(end, Err(RuntimeError::CodeOutOfRange));
}

#[test]
fn globals_persist_across_loads() {
    let mut vm = VM::new();
    let (out, end) = run_on(&mut vm, "fun add(a, b) {\nreturn a + b;\n}");
    assert!(out.is_empty());
    assert_eq!(end, Ok(Value::Nil));
    let (out, end) = run_on(&mut vm, "print(add(1, 2));");
    assert_eq!(out, vec!["3"]);
    assert_eq!(end, Ok(Value::Nil));
}

#[test]
fn undefined_variable_is_an_error() {
    let (out, end) = run("print(y);");
    assert!(out.is_empty());
    assert_eq!(end, Err(RuntimeError::UndefinedVariable));
    let (_, end) = run("y = 3;");
    assert_eq!(end, Err(RuntimeError::UndefinedVariable));
}

#[test]
fn wrong_argument_count_is_an_error() {
    let (_, end) = run("fun f(a) { return a; }\nf(1, 2);");
    assert_eq!(end, Err(RuntimeError::ArityMismatch { expected: 1, received: 2 }));
}

#[test]
fn calling_a_non_function_is_an_error() {
    let (_, end) = run("let x = 1;\nx();");
    assert_eq!(end, Err(RuntimeError::NotCallable));
}

#[test]
fn type_mismatches_are_errors() {
    let (_, end) = run("print(-\"a\");");
    assert_eq!(end, Err(RuntimeError::OperandMustBeNumber));
    let (_, end) = run("print(1 + \"a\");");
    assert_eq!(end, Err(RuntimeError::OperandsMustBeNumbers));
    let (_, end) = run("print(\"a\" < \"b\");");
    assert_eq!(end, Err(RuntimeError::OperandsMustBeNumbers));
}

#[test]
fn division_hands_the_divisor_to_the_host() {
    let mut vm = VM::new();
    vm.load(compile_source("print(1 / 0);".to_string()).unwrap());
    let mut asked = None;
    for _ in 0..10 {
        if let Step::Numeric { op, left, right } = vm.step() {
            asked = Some((op, left, right));
            break;
        }
    }
    assert_eq!(asked, Some((NumOp::Divide, "1".to_string(), "0".to_string())));
}

#[test]
fn numeric_steps_hand_over_operand_texts() {
    let mut vm = VM::new();
    vm.load(compile_source("print(2 * 3.5);".to_string()).unwrap());
    let mut asked = None;
    for _ in 0..10 {
        if let Step::Numeric { op, left, right } = vm.step() {
            asked = Some((op, left, right));
            break;
        }
    }
    assert_eq!(asked, Some((NumOp::Multiply, "2".to_string(), "3.5".to_string())));
    assert!(matches!(vm.step(), Step::Failed(RuntimeError::AwaitingResult)));
    assert_eq!(vm.resume(Value::Number("7".to_string())), Ok(()));
    assert_eq!(vm.resume(Value::Nil), Err(RuntimeError::NotAwaiting));
}

#[test]
fn step_without_a_frame_is_an_error() {
    let mut vm = VM::new();
    assert!(matches!(vm.step(), Step::Failed(RuntimeError::NotRunning)));
}

#[test]
fn unknown_opcodes_and_code_end_are_errors() {
    let mut vm = VM::new();
    let mut chunk = Chunk::new();
    chunk.write(200, 0);
    vm.load(chunk);
    assert!(matches!(vm.step(), Step::Failed(RuntimeError::UnknownOpcode(200))));
    assert!(matches!(vm.step(), Step::Failed(RuntimeError::CodeOutOfRange)));
}

#[test]
fn return_without_a_value_underflows() {
    let mut vm = VM::new();
    let mut chunk = Chunk::new();
    chunk.write_opcode(OpCode::Return, 0);
    vm.load(chunk);
    assert!(matches!(vm.step(), Step::Failed(RuntimeError::StackUnderflow)));
}

#[test]
fn constant_index_past_the_pool_is_an_error() {
    let mut vm = VM::new();
    let mut chunk = Chunk::new();
    chunk.write_opcode(OpCode::Constant, 0);
    chunk.write(3, 0);
    vm.load(chunk);
    assert!(matches!(vm.step(), Step::Failed(RuntimeError::ConstantOutOfRange)));
}

#[test]
fn loop_jumps_back_past_the_start_is_an_error() {
    let mut vm = VM::new();
    let mut chunk = Chunk::new();
    chunk.write_opcode(OpCode::Loop, 0);
    chunk.write(0, 0);
    chunk.write(9, 0);
    vm.load(chunk);
    assert!(matches!(vm.step(), Step::Failed(RuntimeError::JumpOutOfRange)));
}

#[test]
fn top_level_return_finishes_with_its_value() {
    let mut vm = VM::new();
    let mut chunk = Chunk::new();
    let i = chunk.add_constant(Value::String("done".to_string()));
    chunk.write_opcode(OpCode::Constant, 0);
    chunk.write(i as u8, 0);
    chunk.write_opcode(OpCode::Return, 0);
    vm.load(chunk);
    assert!(matches!(vm.step(), Step::Continue));
    match vm.step() {
        Step::Finished(v) => assert_eq!(v, Value::String("done".to_string())),
        _ => panic!("expected the run to finish"),
    }
    assert!(matches!(vm.step(), Step::Failed(RuntimeError::NotRunning)));
}

#[test]
fn compile_source_reports_each_stage() {
    assert_eq!(compile_source("print(\"é\");".to_string()).err(), Some(InterpretError::NotAscii));
    assert_eq!(compile_source("let x = @;".to_string()).err(), Some(InterpretError::LexerStuck));
    assert!(matches!(compile_source("let = 1;".to_string()), Err(InterpretError::Parse(_))));
    let chunk = compile_source("".to_string()).unwrap();
    assert_eq!(chunk.code, vec![OpCode::Nil.to_byte(), OpCode::Return.to_byte()]);
    assert_eq!(chunk.arity, 0);
}

#[test]
fn truthiness_of_values() {
    assert!(Value::Bool(false).is_falsy());
    assert!(Value::Nil.is_falsy());
    assert!(Value::Number("0".to_string()).is_falsy());
    assert!(Value::Number("0.0".to_string()).is_falsy());
    assert!(Value::Number("-0".to_string()).is_falsy());
    assert!(Value::String(String::new()).is_falsy());
    assert!(!Value::Bool(true).is_falsy());
    assert!(!Value::Number("0.5".to_string()).is_falsy());
    assert!(!Value::Number("10".to_string()).is_falsy());
    assert!(!Value::String("0".to_string()).is_falsy());
    assert!(!Value::NativeFn(Native::Print).is_falsy());
    assert!(!Value::Fun(Rc::new(Chunk::new())).is_falsy());
}

#[test]
fn display_and_duplicate() {
    assert_eq!(Value::Number("2.5".to_string()).to_display_string(), "2.5");
    assert_eq!(Value::String("hi".to_string()).to_display_string(), "hi");
    assert_eq!(Value::Bool(true).to_display_string(), "true");
    assert_eq!(Value::Nil.to_display_string(), "nil");
    let f = Value::Fun(Rc::new(Chunk::new()));
    assert_eq!(f.duplicate(), f);
    assert_eq!(Value::number_from(&"3".to_string()), Value::Number("3".to_string()));
    assert_eq!(Value::string_from(&"s".to_string()), Value::String("s".to_string()));
}

#[test]
fn print_line_joins_texts_with_spaces() {
    assert_eq!(print_line(&vec![]), "");
    assert_eq!(print_line(&vec![Value::String("Hello from".to_string())]), "Hello from");
    let args = vec![
        Value::String("Hello from".to_string()),
        Value::String("Zeta".to_string()),
        Value::Number("3".to_string()),
        Value::Bool(false),
        Value::Nil,
        Value::NativeFn(Native::Print),
    ];
    assert_eq!(print_line(&args), "Hello from Zeta 3 false nil <native fn>");
}

fn assignment_chunk(name: &str) -> Chunk {
    let mut chunk = Chunk::new();
    chunk.add_constant(Value::Number("7".to_string()));
    chunk.add_constant(Value::String(name.to_string()));
    chunk.add_constant(Value::String("r".to_string()));
    for (op, operand) in [
        (OpCode::Constant, Some(0u8)),
        (OpCode::SetGlobal, Some(1)),
        (OpCode::DefineGlobal, Some(2)),
        (OpCode::Nil, None),
        (OpCode::Return, None),
    ] {
        chunk.write_opcode(op, 0);
        if let Some(b) = operand {
            chunk.write(b, 0);
        }
    }
    chunk
}

#[test]
fn an_assignment_run_sets_both_globals() {
    let mut vm = VM::new();
    run_on(&mut vm, "let x = 0;\nlet keep = 5;");
    vm.load(assignment_chunk("x"));
    let mut last = Step::Continue;
    for _ in 0..5 {
        last = vm.step();
    }
    assert!(matches!(last, Step::Finished(Value::Nil)));
    let (out, _) = run_on(&mut vm, "print(x, r, keep);");
    assert_eq!(out, vec!["7 7 5"]);
}

#[test]
fn an_assignment_run_to_an_undefined_name_fails() {
    let mut vm = VM::new();
    vm.load(assignment_chunk("nope"));
    assert!(matches!(vm.step(), Step::Continue));
    assert!(matches!(vm.step(), Step::Failed(RuntimeError::UndefinedVariable)));
    let mut fresh = VM::new();
    fresh.load(assignment_chunk("nope"));
    fresh.step();
    fresh.step();
    let (_, end) = run_on(&mut fresh, "print(nope);");
    assert_eq!(end, Err(RuntimeError::UndefinedVariable));
}
