use vstd::prelude::*;
use crate::chunk::Chunk;
use crate::chunk::values_view;
use crate::compiler::CompileError;
use crate::compiler::CompileState;
use crate::compiler::Compiler;
use crate::compiler::compile_program;
use crate::compiler::initial_state;
use crate::compiler::code_extends;
use crate::compiler::compile_expr;
use crate::compiler::lemma_short_circuit_layout;
use crate::compiler::short_circuit_jump;
use crate::expr::BinaryOp;
use crate::expr::ExprView;
use crate::opcode::OpCode;
use crate::opcode::opcode_byte;
use crate::parser::binary;
use crate::value::value_is_falsy;
use crate::vm::FrameView;
use crate::vm::StepView;
use crate::vm::VmView;
use crate::vm::lemma_conditional_jump_step;
use crate::vm::step_spec;
use crate::vm::with_top;
use crate::lexer::Lexer;
use crate::lexer::lemma_scan_ends_with_eof;
use crate::lexer::scan_source;
use crate::parser::ParseError;
use crate::parser::Parser;
use crate::parser::parse_tokens;

verus! {

/// Why a source text does not become a chunk.
#[derive(PartialEq, Eq, Debug, Clone, Copy, Structural)]
pub enum InterpretError {
    /// The source holds a character outside ASCII.
    NotAscii,
    /// The lexer reaches a character it cannot make progress on.
    LexerStuck,
    /// The tokens are not a program.
    Parse(ParseError),
    /// The program does not fit the bytecode's operands.
    Compile(CompileError),
}

/// The code a source text compiles to: lexing, parsing, then compiling the
/// whole program at the top level.
pub open spec fn source_code(s: Seq<char>) -> Result<CompileState, InterpretError> {
    if !vstd::utf8::is_ascii_chars(s) {
        Err(InterpretError::NotAscii)
    } else {
        match scan_source(s) {
            None => Err(InterpretError::LexerStuck),
            Some(ts) => match parse_tokens(ts) {
                Err(e) => Err(InterpretError::Parse(e)),
                Ok(stmts) => match compile_program(stmts, initial_state()) {
                    Err(e) => Err(InterpretError::Compile(e)),
                    Ok(st) => Ok(st),
                },
            },
        }
    }
}

/// Lexes, parses and compiles a source text into the chunk of its top-level
/// code.
pub fn compile_source(source: String) -> (r: Result<Chunk, InterpretError>)
    requires
        source@.len() < usize::MAX,
    ensures
        match source_code(source@) {
            Ok(st) => r matches Ok(c) && c.code@ == st.code && c.line@ == st.lines && values_view(
                c.constants@,
            ) == st.constants && c.arity == 0,
            Err(e) => r == Err::<Chunk, InterpretError>(e),
        },
{
    let ghost s = source@;
    if !source.is_ascii() {
        return Err(InterpretError::NotAscii);
    }
    let mut lexer = Lexer::new(source);
    let tokens = match lexer.try_scan_tokens() {
        Some(t) => t,
        None => return Err(InterpretError::LexerStuck),
    };
    proof {
        lemma_scan_ends_with_eof(s, 0, 1);
    }
    let mut parser = Parser::new(tokens);
    let stmts = match parser.try_parse_prog() {
        Ok(stmts) => stmts,
        Err(e) => return Err(InterpretError::Parse(e)),
    };
    let mut compiler = Compiler::new();
    match compiler.try_compile_program(&stmts) {
        Ok(()) => {},
        Err(e) => return Err(InterpretError::Compile(e)),
    }
    Ok(compiler.chunk)
}

/// Short-circuit evaluation of `left and right` and `left or right`: when a
/// frame running their code has just computed `left`, its next step either
/// jumps to the end of the expression, leaving `left` on the stack as the
/// result and skipping `right` (a falsy `left` for `and`, a truthy one for
/// `or`), or goes on to the `Pop` that discards `left` before `right` runs.
pub proof fn lemma_short_circuit(left: ExprView, op: BinaryOp, right: ExprView, st: CompileState, vm: VmView)
    requires
        op == BinaryOp::And || op == BinaryOp::Or,
        compile_expr(binary(left, op, right), st) is Ok,
        code_extends(compile_expr(binary(left, op, right), st).unwrap().code, vm.frames.last().chunk.code),
        vm.frames.last().chunk.code.len() <= usize::MAX,
        vm.frames.last().ip == compile_expr(left, st).unwrap().code.len(),
        vm.frames.len() > 0,
        vm.stack.len() > 0,
        !vm.awaiting,
    ensures
        ({
            let f = vm.frames.last();
            let skip = value_is_falsy(vm.stack.last()) == (op == BinaryOp::And);
            let end = compile_expr(binary(left, op, right), st).unwrap().code.len();
            &&& step_spec(vm) == (
                with_top(vm, FrameView { ip: if skip { end } else { f.ip + 3 }, ..f }),
                StepView::Continue,
            )
            &&& !skip ==> f.chunk.code[f.ip as int + 3] == opcode_byte(OpCode::Pop)
        }),
{
    lemma_short_circuit_layout(left, op, right, st);
    let whole = compile_expr(binary(left, op, right), st).unwrap().code;
    let f = vm.frames.last();
    let n = f.ip as int;
    assert(f.chunk.code[n] == whole[n]);
    assert(f.chunk.code[n + 1] == whole[n + 1]);
    assert(f.chunk.code[n + 2] == whole[n + 2]);
    assert(f.chunk.code[n + 3] == whole[n + 3]);
    lemma_conditional_jump_step(vm, short_circuit_jump(op));
}

} // verus!
