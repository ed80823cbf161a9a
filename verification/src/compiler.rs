use vstd::prelude::*;
use std::rc::Rc;
use crate::chunk::Chunk;
use crate::chunk::ChunkView;
use crate::chunk::values_view;
use crate::expr::BinaryOp;
use crate::expr::Expr;
use crate::expr::ExprView;
use crate::expr::UnaryOp;
use crate::opcode::OpCode;
use crate::opcode::opcode_byte;
use crate::stmt::Stmt;
use crate::stmt::StmtView;
use crate::stmt::names_view;
use crate::value::Value;
use crate::value::ValueView;
use crate::value::lemma_fun_view;

verus! {

/// Why a program cannot be compiled: an operand does not fit its bytes.
#[derive(PartialEq, Eq, Debug, Clone, Copy, Structural)]
pub enum CompileError {
    /// A constant index above 255.
    TooManyConstants,
    /// A local slot above 255.
    TooManyLocals,
    /// A call with more than 255 arguments.
    TooManyArguments,
    /// A forward jump over more than 65535 bytes.
    JumpTooLarge,
    /// A loop body of more than 65535 bytes.
    LoopTooLarge,
    /// Blocks nested deeper than the scope counter holds.
    ScopeTooDeep,
}

/// A local variable as the compiler tracks it.
#[verifier::ext_equal]
pub struct LocalView {
    pub name: Seq<char>,
    pub depth: nat,
}

/// What compiling depends on and changes: the code being written, its lines,
/// the constant pool, the locals in scope and the scope depth.
#[verifier::ext_equal]
pub struct CompileState {
    pub code: Seq<u8>,
    pub lines: Seq<usize>,
    pub constants: Seq<ValueView>,
    pub locals: Seq<LocalView>,
    pub depth: nat,
}

// ---------------------------------------------------------------------------
// Code generation, as a function of the syntax tree and the state.
// ---------------------------------------------------------------------------

/// Appends one byte (every byte is recorded on line 0).
pub open spec fn emit(st: CompileState, b: u8) -> CompileState {
    CompileState { code: st.code.push(b), lines: st.lines.push(0usize), ..st }
}

pub open spec fn emit_op(st: CompileState, op: OpCode) -> CompileState {
    emit(st, opcode_byte(op))
}

/// Adds `v` to the pool and emits `op` with the new index as its operand.
pub open spec fn emit_with_constant(st: CompileState, v: ValueView, op: OpCode) -> Result<
    CompileState,
    CompileError,
> {
    let index = st.constants.len();
    if index > 255 {
        Err(CompileError::TooManyConstants)
    } else {
        Ok(emit(emit_op(CompileState { constants: st.constants.push(v), ..st }, op), index as u8))
    }
}

/// Emits `op` with a one-byte operand.
pub open spec fn emit_with_operand(st: CompileState, op: OpCode, operand: nat, too_big: CompileError) -> Result<
    CompileState,
    CompileError,
> {
    if operand > 255 {
        Err(too_big)
    } else {
        Ok(emit(emit_op(st, op), operand as u8))
    }
}

/// The slot of the innermost local called `name`.
pub open spec fn resolve_local(locals: Seq<LocalView>, name: Seq<char>) -> Option<nat>
    decreases locals.len(),
{
    if locals.len() == 0 {
        None
    } else if locals.last().name == name {
        Some((locals.len() - 1) as nat)
    } else {
        resolve_local(locals.drop_last(), name)
    }
}

/// Shadowing: a name resolves to the most recent local that has it, and to
/// no slot where no local has it.
pub proof fn lemma_resolve_local(locals: Seq<LocalView>, name: Seq<char>)
    ensures
        resolve_local(locals, name) matches Some(i) ==> {
            &&& i < locals.len()
            &&& locals[i as int].name == name
            &&& forall|j: int| i < j < locals.len() ==> locals[j].name != name
        },
        resolve_local(locals, name) is None ==> forall|j: int| 0 <= j < locals.len() ==> locals[j].name != name,
    decreases locals.len(),
{
    if locals.len() > 0 && locals.last().name != name {
        lemma_resolve_local(locals.drop_last(), name);
        assert forall|j: int| 0 <= j < locals.len() - 1 implies locals[j] == locals.drop_last()[j] by {}
    }
}

/// Emits a jump with a placeholder operand; the position of the operand.
pub open spec fn emit_jump(st: CompileState, op: OpCode) -> (CompileState, int) {
    let s1 = emit_op(st, op);
    (emit(emit(s1, 0u8), 0u8), s1.code.len() as int)
}

/// Writes into the operand at `at` the distance from the end of the operand
/// to the end of the code.
pub open spec fn patch_jump(st: CompileState, at: int) -> Result<CompileState, CompileError> {
    let jump = st.code.len() - at - 2;
    if jump > 65535 {
        Err(CompileError::JumpTooLarge)
    } else {
        Ok(
            CompileState {
                code: st.code.update(at, (jump / 256) as u8).update(at + 1, (jump % 256) as u8),
                ..st
            },
        )
    }
}

/// Emits a backward jump to `start`.
pub open spec fn emit_loop(st: CompileState, start: int) -> Result<CompileState, CompileError> {
    let s1 = emit_op(st, OpCode::Loop);
    let offset = s1.code.len() + 2 - start;
    if offset > 65535 {
        Err(CompileError::LoopTooLarge)
    } else {
        Ok(emit(emit(s1, (offset / 256) as u8), (offset % 256) as u8))
    }
}

/// The instructions of a binary operator that is not `and` or `or`.
pub open spec fn emit_binary(st: CompileState, op: BinaryOp) -> CompileState {
    match op {
        BinaryOp::Add => emit_op(st, OpCode::Add),
        BinaryOp::Subtract => emit_op(st, OpCode::Subtract),
        BinaryOp::Multiply => emit_op(st, OpCode::Multiply),
        BinaryOp::Divide => emit_op(st, OpCode::Divide),
        BinaryOp::Equal => emit_op(st, OpCode::Equal),
        BinaryOp::NotEqual => emit_op(emit_op(st, OpCode::Equal), OpCode::Not),
        BinaryOp::Greater => emit_op(st, OpCode::Greater),
        BinaryOp::GreaterEqual => emit_op(emit_op(st, OpCode::Less), OpCode::Not),
        BinaryOp::Less => emit_op(st, OpCode::Less),
        BinaryOp::LessEqual => emit_op(emit_op(st, OpCode::Greater), OpCode::Not),
        BinaryOp::And => st,
        BinaryOp::Or => st,
    }
}

/// The code of an expression: it leaves the expression's value on the stack.
pub open spec fn compile_expr(e: ExprView, st: CompileState) -> Result<CompileState, CompileError>
    decreases e,
{
    match e {
        ExprView::Number(text) => emit_with_constant(st, ValueView::Number(text), OpCode::Constant),
        ExprView::Nil => Ok(emit_op(st, OpCode::Nil)),
        ExprView::Bool(b) => Ok(
            emit_op(
                st,
                if b {
                    OpCode::True
                } else {
                    OpCode::False
                },
            ),
        ),
        ExprView::Unary { operator, right } => match compile_expr(*right, st) {
            Ok(s1) => Ok(
                emit_op(
                    s1,
                    match operator {
                        UnaryOp::Negate => OpCode::Negate,
                        UnaryOp::Not => OpCode::Not,
                    },
                ),
            ),
            Err(err) => Err(err),
        },
        ExprView::Binary { left, operator, right } => if operator == BinaryOp::And || operator
            == BinaryOp::Or {
            match compile_expr(*left, st) {
                Ok(s1) => {
                    let (s2, at) = emit_jump(
                        s1,
                        if operator == BinaryOp::And {
                            OpCode::JumpIfFalse
                        } else {
                            OpCode::JumpIfTrue
                        },
                    );
                    match compile_expr(*right, emit_op(s2, OpCode::Pop)) {
                        Ok(s3) => patch_jump(s3, at),
                        Err(err) => Err(err),
                    }
                },
                Err(err) => Err(err),
            }
        } else {
            match compile_expr(*left, st) {
                Ok(s1) => match compile_expr(*right, s1) {
                    Ok(s2) => Ok(emit_binary(s2, operator)),
                    Err(err) => Err(err),
                },
                Err(err) => Err(err),
            }
        },
        ExprView::Grouping(inner) => compile_expr(*inner, st),
        ExprView::String(s) => emit_with_constant(st, ValueView::String(s), OpCode::Constant),
        ExprView::Identifier(name) => match resolve_local(st.locals, name) {
            Some(slot) => emit_with_operand(st, OpCode::GetLocal, slot, CompileError::TooManyLocals),
            None => emit_with_constant(st, ValueView::String(name), OpCode::GetGlobal),
        },
        ExprView::Assignment { name, value } => match compile_expr(*value, st) {
            Ok(s1) => match resolve_local(s1.locals, name) {
                Some(slot) => emit_with_operand(
                    s1,
                    OpCode::SetLocal,
                    slot,
                    CompileError::TooManyLocals,
                ),
                None => emit_with_constant(s1, ValueView::String(name), OpCode::SetGlobal),
            },
            Err(err) => Err(err),
        },
        ExprView::Call { callee, arguments } => match compile_expr(*callee, st) {
            Ok(s1) => match compile_exprs(arguments, s1) {
                Ok(s2) => emit_with_operand(
                    s2,
                    OpCode::Call,
                    arguments.len(),
                    CompileError::TooManyArguments,
                ),
                Err(err) => Err(err),
            },
            Err(err) => Err(err),
        },
    }
}

/// The code of a list of expressions, one after the other.
pub open spec fn compile_exprs(es: Seq<ExprView>, st: CompileState) -> Result<CompileState, CompileError>
    decreases es,
{
    if es.len() == 0 {
        Ok(st)
    } else {
        match compile_expr(es[0], st) {
            Ok(s1) => compile_exprs(es.subrange(1, es.len() as int), s1),
            Err(err) => Err(err),
        }
    }
}

/// Drops the locals deeper than the current depth, popping each off the
/// stack.
pub open spec fn end_scope(st: CompileState) -> CompileState
    decreases st.locals.len(),
{
    if st.locals.len() > 0 && st.locals.last().depth > st.depth {
        end_scope(emit_op(CompileState { locals: st.locals.drop_last(), ..st }, OpCode::Pop))
    } else {
        st
    }
}

/// A parameter as a local of its function's body.
pub open spec fn parameter_local(p: Seq<char>) -> LocalView {
    LocalView { name: p, depth: 1 }
}

/// The state a function body is compiled in: slot 0 holds the function
/// itself, the parameters follow, all at depth 1.
pub open spec fn function_state(name: Seq<char>, parameters: Seq<Seq<char>>) -> CompileState {
    CompileState {
        code: Seq::empty(),
        lines: Seq::empty(),
        constants: Seq::empty(),
        locals: seq![LocalView { name: name, depth: 1 }] + parameters.map_values(
            |p: Seq<char>| parameter_local(p),
        ),
        depth: 1,
    }
}

/// Binds `name` to the value on top of the stack: a global at depth 0, a new
/// local otherwise.
pub open spec fn declare(st: CompileState, name: Seq<char>) -> Result<CompileState, CompileError> {
    if st.depth == 0 {
        emit_with_constant(st, ValueView::String(name), OpCode::DefineGlobal)
    } else {
        Ok(CompileState { locals: st.locals.push(LocalView { name: name, depth: st.depth }), ..st })
    }
}

/// The code of a statement.
pub open spec fn compile_stmt(s: StmtView, st: CompileState) -> Result<CompileState, CompileError>
    decreases s, 2nat,
{
    match s {
        StmtView::Let { name, value } => {
            let loaded = match value {
                Some(e) => compile_expr(e, st),
                None => Ok(emit_op(st, OpCode::Nil)),
            };
            match loaded {
                Ok(s1) => declare(s1, name),
                Err(err) => Err(err),
            }
        },
        StmtView::Block(statements) => compile_scoped(statements, st),
        StmtView::Fun { name, parameters, body } => match compile_stmts(
            body,
            function_state(name, parameters),
        ) {
            Ok(inner) => {
                let f = ChunkView {
                    code: inner.code,
                    lines: inner.lines,
                    constants: inner.constants,
                    arity: parameters.len(),
                };
                match emit_with_constant(st, ValueView::Fun(f), OpCode::Constant) {
                    Ok(s1) => declare(s1, name),
                    Err(err) => Err(err),
                }
            },
            Err(err) => Err(err),
        },
        StmtView::If { condition, then_branch, else_branch } => match compile_expr(condition, st) {
            Ok(s1) => {
                let (s2, then_at) = emit_jump(s1, OpCode::JumpIfFalse);
                match compile_scoped(then_branch, emit_op(s2, OpCode::Pop)) {
                    Ok(s3) => {
                        let (s4, else_at) = emit_jump(s3, OpCode::Jump);
                        match patch_jump(s4, then_at) {
                            Ok(s5) => {
                                let s6 = emit_op(s5, OpCode::Pop);
                                let s7 = match else_branch {
                                    Some(b) => compile_scoped(b, s6),
                                    None => Ok(s6),
                                };
                                match s7 {
                                    Ok(s8) => patch_jump(s8, else_at),
                                    Err(err) => Err(err),
                                }
                            },
                            Err(err) => Err(err),
                        }
                    },
                    Err(err) => Err(err),
                }
            },
            Err(err) => Err(err),
        },
        StmtView::While { condition, body } => {
            let start = st.code.len() as int;
            match compile_expr(condition, st) {
                Ok(s1) => {
                    let (s2, exit_at) = emit_jump(s1, OpCode::JumpIfFalse);
                    match compile_scoped(body, emit_op(s2, OpCode::Pop)) {
                        Ok(s3) => match emit_loop(s3, start) {
                            Ok(s4) => match patch_jump(s4, exit_at) {
                                Ok(s5) => Ok(emit_op(s5, OpCode::Pop)),
                                Err(err) => Err(err),
                            },
                            Err(err) => Err(err),
                        },
                        Err(err) => Err(err),
                    }
                },
                Err(err) => Err(err),
            }
        },
        StmtView::Expression(e) => match compile_expr(e, st) {
            Ok(s1) => Ok(emit_op(s1, OpCode::Pop)),
            Err(err) => Err(err),
        },
        StmtView::Return(value) => {
            let loaded = match value {
                Some(e) => compile_expr(e, st),
                None => Ok(emit_op(st, OpCode::Nil)),
            };
            match loaded {
                Ok(s1) => Ok(emit_op(s1, OpCode::Return)),
                Err(err) => Err(err),
            }
        },
    }
}

/// The code of statements in a scope of their own, as a block and the
/// bodies of `if`, `else` and `while` are: they are compiled one level
/// deeper, and the locals they declare are popped at the end.
pub open spec fn compile_scoped(ss: Seq<StmtView>, st: CompileState) -> Result<CompileState, CompileError>
    decreases ss, 1nat,
{
    if st.depth >= 0xffff_ffff {
        Err(CompileError::ScopeTooDeep)
    } else {
        match compile_stmts(ss, CompileState { depth: st.depth + 1, ..st }) {
            Ok(s1) => Ok(end_scope(CompileState { depth: st.depth, ..s1 })),
            Err(err) => Err(err),
        }
    }
}

/// The code of a list of statements, one after the other.
pub open spec fn compile_stmts(ss: Seq<StmtView>, st: CompileState) -> Result<CompileState, CompileError>
    decreases ss, 0nat,
{
    if ss.len() == 0 {
        Ok(st)
    } else {
        match compile_stmt(ss[0], st) {
            Ok(s1) => compile_stmts(ss.subrange(1, ss.len() as int), s1),
            Err(err) => Err(err),
        }
    }
}

/// The code of a whole program: its statements, then `nil` returned from the
/// top-level frame.
pub open spec fn compile_program(ss: Seq<StmtView>, st: CompileState) -> Result<CompileState, CompileError> {
    match compile_stmts(ss, st) {
        Ok(s1) => Ok(emit_op(emit_op(s1, OpCode::Nil), OpCode::Return)),
        Err(err) => Err(err),
    }
}


// ---------------------------------------------------------------------------
// Laws of code generation.
// ---------------------------------------------------------------------------

/// A patched jump lands just past the code compiled so far: its operand,
/// read big-endian as the machine reads it, is the distance from the end of
/// the operand to the end of the code.
pub proof fn lemma_patched_jump_lands_at_end(st: CompileState, at: int)
    requires
        0 <= at,
        at + 2 <= st.code.len(),
    ensures
        patch_jump(st, at) matches Ok(s2) ==> {
            &&& s2.code.len() == st.code.len()
            &&& at + 2 + (s2.code[at] as int) * 256 + (s2.code[at + 1] as int) == s2.code.len()
        },
{
}

/// A loop jumps back to its start: after the `Loop` instruction and its
/// operand, stepping back by the operand, read big-endian, reaches `start`.
pub proof fn lemma_loop_lands_at_start(st: CompileState, start: int)
    requires
        0 <= start <= st.code.len(),
    ensures
        emit_loop(st, start) matches Ok(s2) ==> {
            let n = s2.code.len();
            &&& n == st.code.len() + 3
            &&& s2.code[n - 3] == opcode_byte(OpCode::Loop)
            &&& n - ((s2.code[n - 2] as int) * 256 + (s2.code[n - 1] as int)) == start
        },
{
}

/// A name resolves to the local at `i` when that local has it and no later
/// one does.
pub proof fn lemma_resolve_innermost(locals: Seq<LocalView>, name: Seq<char>, i: int)
    requires
        0 <= i < locals.len(),
        locals[i].name == name,
        forall|j: int| i < j < locals.len() ==> locals[j].name != name,
    ensures
        resolve_local(locals, name) == Some(i as nat),
{
    lemma_resolve_local(locals, name);
}

/// In a function's body the function's own name is slot 0 and the
/// parameters follow in order, the slots where a call leaves the function
/// value and its arguments; a later parameter shadows an earlier one of the
/// same name, and any parameter shadows the function's name.
pub proof fn lemma_function_slots(name: Seq<char>, parameters: Seq<Seq<char>>)
    ensures
        (forall|j: int| 0 <= j < parameters.len() ==> parameters[j] != name) ==> resolve_local(
            function_state(name, parameters).locals,
            name,
        ) == Some(0nat),
        forall|i: int|
            0 <= i < parameters.len() && (forall|j: int| i < j < parameters.len() ==> parameters[j] != parameters[i])
                ==> resolve_local(function_state(name, parameters).locals, #[trigger] parameters[i]) == Some((i + 1) as nat),
{
    let locals = function_state(name, parameters).locals;
    assert(locals.len() == parameters.len() + 1);
    assert forall|j: int| 0 <= j < parameters.len() implies #[trigger] locals[j + 1].name == parameters[j] by {}
    if forall|j: int| 0 <= j < parameters.len() ==> parameters[j] != name {
        assert forall|j: int| 0 < j < locals.len() implies locals[j].name != name by {
            assert(locals[(j - 1) + 1].name == parameters[j - 1]);
        }
        lemma_resolve_innermost(locals, name, 0);
    }
    assert forall|i: int|
        0 <= i < parameters.len() && (forall|j: int| i < j < parameters.len() ==> parameters[j] != parameters[i])
        implies resolve_local(locals, #[trigger] parameters[i]) == Some((i + 1) as nat) by {
        assert forall|j: int| i + 1 < j < locals.len() implies locals[j].name != parameters[i] by {
            assert(locals[(j - 1) + 1].name == parameters[j - 1]);
        }
        lemma_resolve_innermost(locals, parameters[i], i + 1);
    }
}

/// A function is compiled on its own: its chunk, which the enclosing code
/// loads as a constant, is the code of its body compiled from an empty
/// chunk with the function and its parameters as the only locals, whatever
/// the enclosing code holds; its arity is the number of parameters.
pub proof fn lemma_function_compiled_alone(
    name: Seq<char>,
    parameters: Seq<Seq<char>>,
    body: Seq<StmtView>,
    st: CompileState,
)
    requires
        compile_stmt(StmtView::Fun { name: name, parameters: parameters, body: body }, st) is Ok,
    ensures
        compile_stmts(body, function_state(name, parameters)) is Ok,
        ({
            let inner = compile_stmts(body, function_state(name, parameters)).unwrap();
            let after = compile_stmt(StmtView::Fun { name: name, parameters: parameters, body: body }, st).unwrap();
            &&& after.constants[st.constants.len() as int] == ValueView::Fun(
                ChunkView { code: inner.code, lines: inner.lines, constants: inner.constants, arity: parameters.len() },
            )
            &&& after.code.subrange(st.code.len() as int, st.code.len() as int + 2) == seq![
                opcode_byte(OpCode::Constant),
                st.constants.len() as u8,
            ]
        }),
{
    let after = compile_stmt(StmtView::Fun { name: name, parameters: parameters, body: body }, st).unwrap();
    let n = st.code.len() as int;
    assert(after.code.subrange(n, n + 2) =~= seq![opcode_byte(OpCode::Constant), st.constants.len() as u8]);
}

/// `let x;` compiles exactly as `let x = nil;`, and a bare `return;` as
/// `return nil;`.
pub proof fn lemma_missing_value_is_nil(name: Seq<char>, st: CompileState)
    ensures
        compile_stmt(StmtView::Let { name: name, value: None }, st) == compile_stmt(
            StmtView::Let { name: name, value: Some(ExprView::Nil) },
            st,
        ),
        compile_stmt(StmtView::Return(None), st) == compile_stmt(StmtView::Return(Some(ExprView::Nil)), st),
{
}

/// `!=`, `>=` and `<=` are not instructions of their own: they compile to
/// the code of `==`, `<` and `>` followed by `Not`.
pub proof fn lemma_derived_comparisons(left: ExprView, right: ExprView, st: CompileState)
    ensures
        compile_expr(ExprView::Binary { left: Box::new(left), operator: BinaryOp::NotEqual, right: Box::new(right) }, st)
            == negated(compile_expr(ExprView::Binary { left: Box::new(left), operator: BinaryOp::Equal, right: Box::new(right) }, st)),
        compile_expr(ExprView::Binary { left: Box::new(left), operator: BinaryOp::GreaterEqual, right: Box::new(right) }, st)
            == negated(compile_expr(ExprView::Binary { left: Box::new(left), operator: BinaryOp::Less, right: Box::new(right) }, st)),
        compile_expr(ExprView::Binary { left: Box::new(left), operator: BinaryOp::LessEqual, right: Box::new(right) }, st)
            == negated(compile_expr(ExprView::Binary { left: Box::new(left), operator: BinaryOp::Greater, right: Box::new(right) }, st)),
{
}

/// The code `r` followed by `Not`.
pub open spec fn negated(r: Result<CompileState, CompileError>) -> Result<CompileState, CompileError> {
    match r {
        Ok(s) => Ok(emit_op(s, OpCode::Not)),
        Err(e) => Err(e),
    }
}

/// `b` is `a` with more bytes after it.
pub open spec fn code_extends(a: Seq<u8>, b: Seq<u8>) -> bool {
    a.len() <= b.len() && b.subrange(0, a.len() as int) == a
}

proof fn lemma_code_extends_trans(a: Seq<u8>, b: Seq<u8>, c: Seq<u8>)
    requires
        code_extends(a, b),
        code_extends(b, c),
    ensures
        code_extends(a, c),
{
    assert(c.subrange(0, a.len() as int) =~= b.subrange(0, a.len() as int));
}

proof fn lemma_code_extends_patch(a: Seq<u8>, st: CompileState, at: int)
    requires
        code_extends(a, st.code),
        a.len() <= at,
        at + 2 <= st.code.len(),
    ensures
        patch_jump(st, at) matches Ok(s2) ==> code_extends(a, s2.code),
{
    if let Ok(s2) = patch_jump(st, at) {
        assert(s2.code.subrange(0, a.len() as int) =~= st.code.subrange(0, a.len() as int));
    }
}

/// `b` continues `a`: its code, lines and constant pool begin with those of
/// `a`, and its code and lines have grown by the same number of entries.
pub open spec fn grows(a: CompileState, b: CompileState) -> bool {
    &&& code_extends(a.code, b.code)
    &&& a.lines.len() <= b.lines.len()
    &&& b.lines.subrange(0, a.lines.len() as int) == a.lines
    &&& a.constants.len() <= b.constants.len()
    &&& b.constants.subrange(0, a.constants.len() as int) == a.constants
    &&& b.lines.len() - b.code.len() == a.lines.len() - a.code.len()
}

proof fn lemma_grows_refl(a: CompileState)
    ensures
        grows(a, a),
{
    assert(a.code.subrange(0, a.code.len() as int) =~= a.code);
    assert(a.lines.subrange(0, a.lines.len() as int) =~= a.lines);
    assert(a.constants.subrange(0, a.constants.len() as int) =~= a.constants);
}

proof fn lemma_grows_trans(a: CompileState, b: CompileState, c: CompileState)
    requires
        grows(a, b),
        grows(b, c),
    ensures
        grows(a, c),
{
    lemma_code_extends_trans(a.code, b.code, c.code);
    assert(c.lines.subrange(0, a.lines.len() as int) =~= b.lines.subrange(0, a.lines.len() as int));
    assert(c.constants.subrange(0, a.constants.len() as int) =~= b.constants.subrange(0, a.constants.len() as int));
}

proof fn lemma_grows_emit(st: CompileState, b: u8)
    ensures
        grows(st, emit(st, b)),
{
    let s2 = emit(st, b);
    assert(s2.code.subrange(0, st.code.len() as int) =~= st.code);
    assert(s2.lines.subrange(0, st.lines.len() as int) =~= st.lines);
    assert(s2.constants.subrange(0, st.constants.len() as int) =~= st.constants);
}

proof fn lemma_grows_with_operand(st: CompileState, op: OpCode, operand: nat, too_big: CompileError)
    ensures
        emit_with_operand(st, op, operand, too_big) matches Ok(s2) ==> grows(st, s2),
{
    if operand <= 255 {
        lemma_grows_emit(st, opcode_byte(op));
        lemma_grows_emit(emit_op(st, op), operand as u8);
        lemma_grows_trans(st, emit_op(st, op), emit(emit_op(st, op), operand as u8));
    }
}

proof fn lemma_grows_with_constant(st: CompileState, v: ValueView, op: OpCode)
    ensures
        emit_with_constant(st, v, op) matches Ok(s2) ==> grows(st, s2),
{
    let c = CompileState { constants: st.constants.push(v), ..st };
    assert(c.code.subrange(0, st.code.len() as int) =~= st.code);
    assert(c.lines.subrange(0, st.lines.len() as int) =~= st.lines);
    assert(c.constants.subrange(0, st.constants.len() as int) =~= st.constants);
    lemma_grows_emit(c, opcode_byte(op));
    lemma_grows_emit(emit_op(c, op), st.constants.len() as u8);
    lemma_grows_trans(st, c, emit_op(c, op));
    lemma_grows_trans(st, emit_op(c, op), emit(emit_op(c, op), st.constants.len() as u8));
}

proof fn lemma_grows_patch(a: CompileState, st: CompileState, at: int)
    requires
        grows(a, st),
        a.code.len() <= at,
        at + 2 <= st.code.len(),
    ensures
        patch_jump(st, at) matches Ok(s2) ==> grows(a, s2),
{
    lemma_code_extends_patch(a.code, st, at);
}

proof fn lemma_grows_binary(st: CompileState, op: BinaryOp)
    ensures
        grows(st, emit_binary(st, op)),
{
    lemma_grows_refl(st);
    let first = match op {
        BinaryOp::Add => OpCode::Add,
        BinaryOp::Subtract => OpCode::Subtract,
        BinaryOp::Multiply => OpCode::Multiply,
        BinaryOp::Divide => OpCode::Divide,
        BinaryOp::Equal => OpCode::Equal,
        BinaryOp::NotEqual => OpCode::Equal,
        BinaryOp::Greater => OpCode::Greater,
        BinaryOp::GreaterEqual => OpCode::Less,
        BinaryOp::Less => OpCode::Less,
        BinaryOp::LessEqual => OpCode::Greater,
        _ => OpCode::Pop,
    };
    lemma_grows_emit(st, opcode_byte(first));
    lemma_grows_emit(emit_op(st, first), opcode_byte(OpCode::Not));
    lemma_grows_trans(st, emit_op(st, first), emit_op(emit_op(st, first), OpCode::Not));
}

/// Compiling an expression only adds: the code, lines and constants written
/// so far stay as they were, new code comes with a line for each byte, and
/// the locals and the depth do not change.
pub proof fn lemma_expr_appends(e: ExprView, st: CompileState)
    ensures
        compile_expr(e, st) matches Ok(s2) ==> grows(st, s2) && s2.locals == st.locals && s2.depth == st.depth,
    decreases e,
{
    lemma_expr_keeps_scope(e, st);
    match e {
        ExprView::Number(text) => lemma_grows_with_constant(st, ValueView::Number(text), OpCode::Constant),
        ExprView::String(text) => lemma_grows_with_constant(st, ValueView::String(text), OpCode::Constant),
        ExprView::Nil => lemma_grows_emit(st, opcode_byte(OpCode::Nil)),
        ExprView::Bool(b) => {
            lemma_grows_emit(st, opcode_byte(OpCode::True));
            lemma_grows_emit(st, opcode_byte(OpCode::False));
        },
        ExprView::Unary { operator, right } => {
            lemma_expr_appends(*right, st);
            if let Ok(s1) = compile_expr(*right, st) {
                let op = match operator {
                    UnaryOp::Negate => OpCode::Negate,
                    UnaryOp::Not => OpCode::Not,
                };
                lemma_grows_emit(s1, opcode_byte(op));
                lemma_grows_trans(st, s1, emit_op(s1, op));
            }
        },
        ExprView::Binary { left, operator, right } => {
            lemma_expr_appends(*left, st);
            if let Ok(s1) = compile_expr(*left, st) {
                if operator == BinaryOp::And || operator == BinaryOp::Or {
                    let jop = if operator == BinaryOp::And {
                        OpCode::JumpIfFalse
                    } else {
                        OpCode::JumpIfTrue
                    };
                    let (s2, at) = emit_jump(s1, jop);
                    let s2p = emit_op(s2, OpCode::Pop);
                    let j1 = emit_op(s1, jop);
                    let j2 = emit(j1, 0u8);
                    lemma_grows_emit(s1, opcode_byte(jop));
                    lemma_grows_emit(j1, 0u8);
                    lemma_grows_emit(j2, 0u8);
                    lemma_grows_emit(s2, opcode_byte(OpCode::Pop));
                    lemma_grows_trans(st, s1, j1);
                    lemma_grows_trans(st, j1, j2);
                    lemma_grows_trans(st, j2, s2);
                    lemma_grows_trans(st, s2, s2p);
                    lemma_expr_appends(*right, s2p);
                    if let Ok(s3) = compile_expr(*right, s2p) {
                        lemma_grows_trans(st, s2p, s3);
                        lemma_grows_patch(st, s3, at);
                    }
                } else {
                    lemma_expr_appends(*right, s1);
                    if let Ok(s2) = compile_expr(*right, s1) {
                        lemma_grows_trans(st, s1, s2);
                        lemma_grows_binary(s2, operator);
                        lemma_grows_trans(st, s2, emit_binary(s2, operator));
                    }
                }
            }
        },
        ExprView::Grouping(inner) => lemma_expr_appends(*inner, st),
        ExprView::Identifier(name) => {
            match resolve_local(st.locals, name) {
                Some(slot) => lemma_grows_with_operand(st, OpCode::GetLocal, slot, CompileError::TooManyLocals),
                None => lemma_grows_with_constant(st, ValueView::String(name), OpCode::GetGlobal),
            }
        },
        ExprView::Assignment { name, value } => {
            lemma_expr_appends(*value, st);
            if let Ok(s1) = compile_expr(*value, st) {
                match resolve_local(s1.locals, name) {
                    Some(slot) => lemma_grows_with_operand(s1, OpCode::SetLocal, slot, CompileError::TooManyLocals),
                    None => lemma_grows_with_constant(s1, ValueView::String(name), OpCode::SetGlobal),
                }
                if let Ok(s2) = compile_expr(e, st) {
                    lemma_grows_trans(st, s1, s2);
                }
            }
        },
        ExprView::Call { callee, arguments } => {
            lemma_expr_appends(*callee, st);
            if let Ok(s1) = compile_expr(*callee, st) {
                lemma_exprs_append(arguments, s1);
                if let Ok(s2) = compile_exprs(arguments, s1) {
                    lemma_grows_trans(st, s1, s2);
                    lemma_grows_with_operand(s2, OpCode::Call, arguments.len(), CompileError::TooManyArguments);
                    if let Ok(s3) = compile_expr(e, st) {
                        lemma_grows_trans(st, s2, s3);
                    }
                }
            }
        },
    }
}

pub proof fn lemma_exprs_append(es: Seq<ExprView>, st: CompileState)
    ensures
        compile_exprs(es, st) matches Ok(s2) ==> grows(st, s2) && s2.locals == st.locals && s2.depth == st.depth,
    decreases es,
{
    if es.len() == 0 {
        lemma_grows_refl(st);
    } else {
        lemma_expr_appends(es[0], st);
        if let Ok(s1) = compile_expr(es[0], st) {
            lemma_exprs_append(es.subrange(1, es.len() as int), s1);
            if let Ok(s2) = compile_exprs(es.subrange(1, es.len() as int), s1) {
                lemma_grows_trans(st, s1, s2);
            }
        }
    }
}

/// The jump instruction that `and` (`JumpIfFalse`) or `or` (`JumpIfTrue`)
/// compiles to.
pub open spec fn short_circuit_jump(op: BinaryOp) -> OpCode {
    if op == BinaryOp::And {
        OpCode::JumpIfFalse
    } else {
        OpCode::JumpIfTrue
    }
}

/// The layout of `left and right` and `left or right`: the code of `left`,
/// then the conditional jump, whose operand leads to the end of the whole
/// expression, then `Pop`, then the code of `right`.
pub proof fn lemma_short_circuit_layout(left: ExprView, op: BinaryOp, right: ExprView, st: CompileState)
    requires
        op == BinaryOp::And || op == BinaryOp::Or,
        compile_expr(ExprView::Binary { left: Box::new(left), operator: op, right: Box::new(right) }, st) is Ok,
    ensures
        compile_expr(left, st) is Ok,
        ({
            let n = compile_expr(left, st).unwrap().code.len() as int;
            let code = compile_expr(ExprView::Binary { left: Box::new(left), operator: op, right: Box::new(right) }, st).unwrap().code;
            &&& code_extends(compile_expr(left, st).unwrap().code, code)
            &&& n + 4 <= code.len()
            &&& code[n] == opcode_byte(short_circuit_jump(op))
            &&& code[n + 3] == opcode_byte(OpCode::Pop)
            &&& n + 3 + (code[n + 1] as int) * 256 + (code[n + 2] as int) == code.len()
        }),
{
    let s1 = compile_expr(left, st).unwrap();
    let jop = short_circuit_jump(op);
    let (s2, at) = emit_jump(s1, jop);
    let s2p = emit_op(s2, OpCode::Pop);
    let s3 = compile_expr(right, s2p).unwrap();
    let n = s1.code.len() as int;
    lemma_expr_appends(right, s2p);
    assert(s3.code[n] == s3.code.subrange(0, s2p.code.len() as int)[n]);
    assert(s3.code[n + 3] == s3.code.subrange(0, s2p.code.len() as int)[n + 3]);
    lemma_patched_jump_lands_at_end(s3, at);
    assert(code_extends(s1.code, s2p.code)) by {
        assert(s2p.code.subrange(0, n) =~= s1.code);
    }
    lemma_code_extends_trans(s1.code, s2p.code, s3.code);
    lemma_code_extends_patch(s1.code, s3, at);
}

/// No local is deeper than the current scope.
pub open spec fn scopes_ordered(st: CompileState) -> bool {
    forall|i: int| 0 <= i < st.locals.len() ==> #[trigger] st.locals[i].depth <= st.depth
}

/// `s2` has the depth of `st`, keeps its locals, and adds only locals of
/// that depth.
pub open spec fn extends_scope(st: CompileState, s2: CompileState) -> bool {
    &&& s2.depth == st.depth
    &&& st.locals.len() <= s2.locals.len()
    &&& s2.locals.subrange(0, st.locals.len() as int) == st.locals
    &&& forall|i: int| st.locals.len() <= i < s2.locals.len() ==> #[trigger] s2.locals[i].depth == st.depth
}

proof fn lemma_extends_scope_trans(a: CompileState, b: CompileState, c: CompileState)
    requires
        extends_scope(a, b),
        extends_scope(b, c),
    ensures
        extends_scope(a, c),
{
    assert(c.locals.subrange(0, a.locals.len() as int) =~= b.locals.subrange(0, a.locals.len() as int));
    assert forall|i: int| a.locals.len() <= i < c.locals.len() implies #[trigger] c.locals[i].depth == a.depth by {
        if i < b.locals.len() {
            assert(c.locals[i] == c.locals.subrange(0, b.locals.len() as int)[i]);
        }
    }
}

proof fn lemma_extends_scope_same(a: CompileState, b: CompileState)
    requires
        b.locals == a.locals,
        b.depth == a.depth,
    ensures
        extends_scope(a, b),
{
    assert(b.locals.subrange(0, a.locals.len() as int) =~= a.locals);
}

/// Expressions neither declare locals nor change the depth.
pub proof fn lemma_expr_keeps_scope(e: ExprView, st: CompileState)
    ensures
        compile_expr(e, st) matches Ok(s2) ==> s2.locals == st.locals && s2.depth == st.depth,
    decreases e,
{
    match e {
        ExprView::Unary { operator, right } => lemma_expr_keeps_scope(*right, st),
        ExprView::Binary { left, operator, right } => {
            lemma_expr_keeps_scope(*left, st);
            match compile_expr(*left, st) {
                Ok(s1) => {
                    let (s2, at) = emit_jump(
                        s1,
                        if operator == BinaryOp::And {
                            OpCode::JumpIfFalse
                        } else {
                            OpCode::JumpIfTrue
                        },
                    );
                    lemma_expr_keeps_scope(*right, emit_op(s2, OpCode::Pop));
                    lemma_expr_keeps_scope(*right, s1);
                },
                Err(_) => {},
            }
        },
        ExprView::Grouping(inner) => lemma_expr_keeps_scope(*inner, st),
        ExprView::Assignment { name, value } => lemma_expr_keeps_scope(*value, st),
        ExprView::Call { callee, arguments } => {
            lemma_expr_keeps_scope(*callee, st);
            match compile_expr(*callee, st) {
                Ok(s1) => lemma_exprs_keep_scope(arguments, s1),
                Err(_) => {},
            }
        },
        _ => {},
    }
}

pub proof fn lemma_exprs_keep_scope(es: Seq<ExprView>, st: CompileState)
    ensures
        compile_exprs(es, st) matches Ok(s2) ==> s2.locals == st.locals && s2.depth == st.depth,
    decreases es,
{
    if es.len() > 0 {
        lemma_expr_keeps_scope(es[0], st);
        match compile_expr(es[0], st) {
            Ok(s1) => lemma_exprs_keep_scope(es.subrange(1, es.len() as int), s1),
            Err(_) => {},
        }
    }
}

/// Ending a scope drops exactly the locals deeper than the current depth,
/// when those are the last ones.
proof fn lemma_end_scope(st: CompileState, keep: int)
    requires
        0 <= keep <= st.locals.len(),
        forall|i: int| 0 <= i < keep ==> #[trigger] st.locals[i].depth <= st.depth,
        forall|i: int| keep <= i < st.locals.len() ==> #[trigger] st.locals[i].depth > st.depth,
    ensures
        end_scope(st).locals == st.locals.subrange(0, keep),
        end_scope(st).depth == st.depth,
        end_scope(st).code == st.code + pops((st.locals.len() - keep) as nat),
    decreases st.locals.len(),
{
    if st.locals.len() > keep {
        let next = emit_op(CompileState { locals: st.locals.drop_last(), ..st }, OpCode::Pop);
        lemma_end_scope(next, keep);
        assert(next.locals.subrange(0, keep) =~= st.locals.subrange(0, keep));
        assert(next.code + pops((next.locals.len() - keep) as nat) =~= st.code + pops(
            (st.locals.len() - keep) as nat,
        ));
    } else {
        assert(st.code + pops(0) =~= st.code);
        if st.locals.len() > 0 {
            assert(st.locals.last() == st.locals[keep - 1]);
        }
        assert(st.locals.subrange(0, keep) =~= st.locals);
    }
}

/// `k` `Pop` instructions.
pub open spec fn pops(k: nat) -> Seq<u8> {
    Seq::new(k, |i: int| opcode_byte(OpCode::Pop))
}

/// The number of `let` statements in `ss`.
pub open spec fn count_lets(ss: Seq<StmtView>) -> nat
    decreases ss.len(),
{
    if ss.len() == 0 {
        0
    } else {
        (if ss[0] is Let {
            1nat
        } else {
            0nat
        }) + count_lets(ss.subrange(1, ss.len() as int))
    }
}

/// Statements that are all `let` or expression statements.
pub open spec fn lets_and_expressions(ss: Seq<StmtView>) -> bool {
    forall|i: int| 0 <= i < ss.len() ==> (#[trigger] ss[i] is Let || ss[i] is Expression)
}

/// Inside a scope, `let` and expression statements declare one local per
/// `let` and keep the depth.
proof fn lemma_lets_declare_locals(ss: Seq<StmtView>, st: CompileState)
    requires
        lets_and_expressions(ss),
        st.depth > 0,
    ensures
        compile_stmts(ss, st) matches Ok(s2) ==> s2.locals.len() == st.locals.len() + count_lets(ss)
            && s2.depth == st.depth,
    decreases ss.len(),
{
    if ss.len() > 0 {
        let rest = ss.subrange(1, ss.len() as int);
        assert(lets_and_expressions(rest)) by {
            assert forall|i: int| 0 <= i < rest.len() implies (#[trigger] rest[i] is Let || rest[i] is Expression) by {
                assert(rest[i] == ss[i + 1]);
            }
        }
        assert(ss[0] is Let || ss[0] is Expression);
        match ss[0] {
            StmtView::Let { name, value } => {
                match value {
                    Some(e) => lemma_expr_keeps_scope(e, st),
                    None => {},
                }
            },
            StmtView::Expression(e) => lemma_expr_keeps_scope(e, st),
            _ => {},
        }
        if let Ok(s1) = compile_stmt(ss[0], st) {
            lemma_lets_declare_locals(rest, s1);
        }
    }
}

/// At the end of a block of `let` and expression statements, the code of
/// the statements is followed by one `Pop` for each `let`, and the locals
/// and the depth are as before the block.
pub proof fn lemma_block_pops_its_locals(stmts: Seq<StmtView>, st: CompileState)
    requires
        scopes_ordered(st),
        lets_and_expressions(stmts),
    ensures
        compile_stmt(StmtView::Block(stmts), st) matches Ok(s2) ==> {
            &&& compile_stmts(stmts, CompileState { depth: st.depth + 1, ..st }) is Ok
            &&& s2.code == compile_stmts(stmts, CompileState { depth: st.depth + 1, ..st }).unwrap().code
                + pops(count_lets(stmts))
            &&& s2.locals == st.locals
            &&& s2.depth == st.depth
        },
{
    lemma_block_restores_scope(stmts, st);
    if let Ok(s2) = compile_stmt(StmtView::Block(stmts), st) {
        let inner = CompileState { depth: st.depth + 1, ..st };
        lemma_stmts_extend_scope(stmts, inner);
        lemma_lets_declare_locals(stmts, inner);
        let s1 = compile_stmts(stmts, inner).unwrap();
        let closing = CompileState { depth: st.depth, ..s1 };
        assert forall|i: int| 0 <= i < st.locals.len() implies #[trigger] closing.locals[i].depth <= closing.depth by {
            assert(closing.locals[i] == s1.locals.subrange(0, st.locals.len() as int)[i]);
        }
        lemma_end_scope(closing, st.locals.len() as int);
    }
}

/// A scope gives back the locals and the depth it started with.
pub proof fn lemma_scoped_restores(ss: Seq<StmtView>, st: CompileState)
    requires
        scopes_ordered(st),
    ensures
        compile_scoped(ss, st) matches Ok(s2) ==> s2.locals == st.locals && s2.depth == st.depth,
    decreases ss, 1nat,
{
    if let Ok(s2) = compile_scoped(ss, st) {
        let inner = CompileState { depth: st.depth + 1, ..st };
        lemma_stmts_extend_scope(ss, inner);
        let s1 = compile_stmts(ss, inner).unwrap();
        let closing = CompileState { depth: st.depth, ..s1 };
        assert forall|i: int| 0 <= i < st.locals.len() implies #[trigger] closing.locals[i].depth <= closing.depth by {
            assert(closing.locals[i] == s1.locals.subrange(0, st.locals.len() as int)[i]);
        }
        lemma_end_scope(closing, st.locals.len() as int);
    }
}

/// Compiling a statement keeps the depth and the locals already declared,
/// and declares new locals only at the current depth.
pub proof fn lemma_stmt_extends_scope(s: StmtView, st: CompileState)
    requires
        scopes_ordered(st),
    ensures
        compile_stmt(s, st) matches Ok(s2) ==> extends_scope(st, s2) && scopes_ordered(s2),
    decreases s, 2nat,
{
    match compile_stmt(s, st) {
        Ok(s2) => {
            match s {
                StmtView::Let { name, value } => {
                    match value {
                        Some(e) => lemma_expr_keeps_scope(e, st),
                        None => {},
                    }
                    let s1 = match value {
                        Some(e) => compile_expr(e, st).unwrap(),
                        None => emit_op(st, OpCode::Nil),
                    };
                    assert(s2 == declare(s1, name).unwrap());
                    if st.depth != 0 {
                        assert(s2.locals.subrange(0, st.locals.len() as int) =~= st.locals);
                    } else {
                        lemma_extends_scope_same(st, s2);
                    }
                },
                StmtView::Block(statements) => {
                    lemma_scoped_restores(statements, st);
                    lemma_extends_scope_same(st, s2);
                },
                StmtView::Fun { name, parameters, body } => {
                    let inner = compile_stmts(body, function_state(name, parameters)).unwrap();
                    let f = ChunkView {
                        code: inner.code,
                        lines: inner.lines,
                        constants: inner.constants,
                        arity: parameters.len(),
                    };
                    let s1 = emit_with_constant(st, ValueView::Fun(f), OpCode::Constant).unwrap();
                    if st.depth != 0 {
                        assert(s2.locals.subrange(0, st.locals.len() as int) =~= st.locals);
                    } else {
                        lemma_extends_scope_same(st, s2);
                    }
                },
                StmtView::If { condition, then_branch, else_branch } => {
                    lemma_expr_keeps_scope(condition, st);
                    let s1 = compile_expr(condition, st).unwrap();
                    let (j2, then_at) = emit_jump(s1, OpCode::JumpIfFalse);
                    let s2a = emit_op(j2, OpCode::Pop);
                    lemma_scoped_restores(then_branch, s2a);
                    let s3 = compile_scoped(then_branch, s2a).unwrap();
                    lemma_extends_scope_same(st, s3);
                    let (s4, else_at) = emit_jump(s3, OpCode::Jump);
                    let s5 = patch_jump(s4, then_at).unwrap();
                    let s6 = emit_op(s5, OpCode::Pop);
                    lemma_extends_scope_same(s3, s6);
                    lemma_extends_scope_trans(st, s3, s6);
                    match else_branch {
                        Some(b) => {
                            lemma_scoped_restores(b, s6);
                            let s8 = compile_scoped(b, s6).unwrap();
                            lemma_extends_scope_same(s6, s8);
                            lemma_extends_scope_trans(st, s6, s8);
                            lemma_extends_scope_same(s8, s2);
                            lemma_extends_scope_trans(st, s8, s2);
                        },
                        None => {
                            lemma_extends_scope_same(s6, s2);
                            lemma_extends_scope_trans(st, s6, s2);
                        },
                    }
                },
                StmtView::While { condition, body } => {
                    lemma_expr_keeps_scope(condition, st);
                    let s1 = compile_expr(condition, st).unwrap();
                    let (j2, exit_at) = emit_jump(s1, OpCode::JumpIfFalse);
                    let s2a = emit_op(j2, OpCode::Pop);
                    lemma_scoped_restores(body, s2a);
                    let s3 = compile_scoped(body, s2a).unwrap();
                    lemma_extends_scope_same(st, s3);
                    lemma_extends_scope_same(s3, s2);
                    lemma_extends_scope_trans(st, s3, s2);
                },
                StmtView::Expression(e) => {
                    lemma_expr_keeps_scope(e, st);
                    lemma_extends_scope_same(st, s2);
                },
                StmtView::Return(value) => {
                    match value {
                        Some(e) => lemma_expr_keeps_scope(e, st),
                        None => {},
                    }
                    lemma_extends_scope_same(st, s2);
                },
            }
        },
        Err(_) => {},
    }
}

pub proof fn lemma_stmts_extend_scope(ss: Seq<StmtView>, st: CompileState)
    requires
        scopes_ordered(st),
    ensures
        compile_stmts(ss, st) matches Ok(s2) ==> extends_scope(st, s2) && scopes_ordered(s2),
    decreases ss, 0nat,
{
    if ss.len() == 0 {
        lemma_extends_scope_same(st, st);
    } else {
        lemma_stmt_extends_scope(ss[0], st);
        match compile_stmt(ss[0], st) {
            Ok(s1) => {
                lemma_stmts_extend_scope(ss.subrange(1, ss.len() as int), s1);
                match compile_stmts(ss.subrange(1, ss.len() as int), s1) {
                    Ok(s2) => lemma_extends_scope_trans(st, s1, s2),
                    Err(_) => {},
                }
            },
            Err(_) => {},
        }
    }
}

/// A block's locals go out of scope at its end: compiling a block leaves
/// the locals and the depth as they were.
pub proof fn lemma_block_restores_scope(stmts: Seq<StmtView>, st: CompileState)
    requires
        scopes_ordered(st),
    ensures
        compile_stmt(StmtView::Block(stmts), st) matches Ok(s2) ==> s2.locals == st.locals && s2.depth
            == st.depth,
{
    lemma_scoped_restores(stmts, st);
}

/// The bodies of `if`, `else` and `while` are scopes too: a `let` in them
/// declares a local of the body, gone after it, so the statement leaves the
/// locals and the depth as they were.
pub proof fn lemma_branches_are_scopes(s: StmtView, st: CompileState)
    requires
        scopes_ordered(st),
        s is If || s is While,
    ensures
        compile_stmt(s, st) matches Ok(s2) ==> s2.locals == st.locals && s2.depth == st.depth,
{
    lemma_stmt_extends_scope(s, st);
    if let Ok(s2) = compile_stmt(s, st) {
        match s {
            StmtView::If { condition, then_branch, else_branch } => {
                lemma_expr_keeps_scope(condition, st);
                let s1 = compile_expr(condition, st).unwrap();
                let (j2, then_at) = emit_jump(s1, OpCode::JumpIfFalse);
                let s2a = emit_op(j2, OpCode::Pop);
                lemma_scoped_restores(then_branch, s2a);
                let s3 = compile_scoped(then_branch, s2a).unwrap();
                let (s4, else_at) = emit_jump(s3, OpCode::Jump);
                let s6 = emit_op(patch_jump(s4, then_at).unwrap(), OpCode::Pop);
                match else_branch {
                    Some(b) => lemma_scoped_restores(b, s6),
                    None => {},
                }
            },
            StmtView::While { condition, body } => {
                lemma_expr_keeps_scope(condition, st);
                let s1 = compile_expr(condition, st).unwrap();
                let (j2, exit_at) = emit_jump(s1, OpCode::JumpIfFalse);
                lemma_scoped_restores(body, emit_op(j2, OpCode::Pop));
            },
            _ => {},
        }
    }
}

proof fn lemma_grows_same(a: CompileState, b: CompileState)
    requires
        a.code == b.code,
        a.lines == b.lines,
        a.constants == b.constants,
    ensures
        grows(a, b),
{
    lemma_grows_refl(a);
}

proof fn lemma_end_scope_grows(st: CompileState)
    ensures
        grows(st, end_scope(st)),
    decreases st.locals.len(),
{
    if st.locals.len() > 0 && st.locals.last().depth > st.depth {
        let dropped = CompileState { locals: st.locals.drop_last(), ..st };
        let next = emit_op(dropped, OpCode::Pop);
        lemma_grows_same(st, dropped);
        lemma_grows_emit(dropped, opcode_byte(OpCode::Pop));
        lemma_grows_trans(st, dropped, next);
        lemma_end_scope_grows(next);
        lemma_grows_trans(st, next, end_scope(next));
    } else {
        lemma_grows_refl(st);
    }
}

proof fn lemma_declare_grows(st: CompileState, name: Seq<char>)
    ensures
        declare(st, name) matches Ok(s2) ==> grows(st, s2),
{
    if st.depth == 0 {
        lemma_grows_with_constant(st, ValueView::String(name), OpCode::DefineGlobal);
    } else {
        lemma_grows_same(st, declare(st, name).unwrap());
    }
}

proof fn lemma_jump_grows(st: CompileState, op: OpCode)
    ensures
        grows(st, emit_jump(st, op).0),
        emit_jump(st, op).1 == st.code.len() + 1,
        emit_jump(st, op).0.code.len() == st.code.len() + 3,
{
    let j1 = emit_op(st, op);
    let j2 = emit(j1, 0u8);
    lemma_grows_emit(st, opcode_byte(op));
    lemma_grows_emit(j1, 0u8);
    lemma_grows_emit(j2, 0u8);
    lemma_grows_trans(st, j1, j2);
    lemma_grows_trans(st, j2, emit(j2, 0u8));
}

/// Compiling a statement only adds: the code, lines and constants written
/// so far stay as they were, and new code comes with a line for each byte.
pub proof fn lemma_stmt_grows(s: StmtView, st: CompileState)
    ensures
        compile_stmt(s, st) matches Ok(s2) ==> grows(st, s2),
    decreases s, 2nat,
{
    if let Ok(s2) = compile_stmt(s, st) {
        match s {
            StmtView::Let { name, value } => {
                let s1 = match value {
                    Some(e) => compile_expr(e, st).unwrap(),
                    None => emit_op(st, OpCode::Nil),
                };
                match value {
                    Some(e) => lemma_expr_appends(e, st),
                    None => lemma_grows_emit(st, opcode_byte(OpCode::Nil)),
                }
                lemma_declare_grows(s1, name);
                lemma_grows_trans(st, s1, s2);
            },
            StmtView::Block(statements) => lemma_scoped_grows(statements, st),
            StmtView::Fun { name, parameters, body } => {
                let inner = compile_stmts(body, function_state(name, parameters)).unwrap();
                let f = ChunkView {
                    code: inner.code,
                    lines: inner.lines,
                    constants: inner.constants,
                    arity: parameters.len(),
                };
                lemma_grows_with_constant(st, ValueView::Fun(f), OpCode::Constant);
                let s1 = emit_with_constant(st, ValueView::Fun(f), OpCode::Constant).unwrap();
                lemma_declare_grows(s1, name);
                lemma_grows_trans(st, s1, s2);
            },
            StmtView::If { condition, then_branch, else_branch } => {
                lemma_expr_appends(condition, st);
                let s1 = compile_expr(condition, st).unwrap();
                lemma_jump_grows(s1, OpCode::JumpIfFalse);
                let (j2, then_at) = emit_jump(s1, OpCode::JumpIfFalse);
                let s2a = emit_op(j2, OpCode::Pop);
                lemma_grows_emit(j2, opcode_byte(OpCode::Pop));
                lemma_scoped_grows(then_branch, s2a);
                let s3 = compile_scoped(then_branch, s2a).unwrap();
                lemma_jump_grows(s3, OpCode::Jump);
                let (s4, else_at) = emit_jump(s3, OpCode::Jump);
                lemma_grows_trans(st, s1, j2);
                lemma_grows_trans(st, j2, s2a);
                lemma_grows_trans(st, s2a, s3);
                lemma_grows_trans(st, s3, s4);
                lemma_grows_patch(st, s4, then_at);
                let s5 = patch_jump(s4, then_at).unwrap();
                let s6 = emit_op(s5, OpCode::Pop);
                lemma_grows_emit(s5, opcode_byte(OpCode::Pop));
                lemma_grows_trans(st, s5, s6);
                let s8 = match else_branch {
                    Some(b) => {
                        lemma_scoped_grows(b, s6);
                        compile_scoped(b, s6).unwrap()
                    },
                    None => {
                        lemma_grows_refl(s6);
                        s6
                    },
                };
                lemma_grows_trans(st, s6, s8);
                lemma_grows_patch(st, s8, else_at);
            },
            StmtView::While { condition, body } => {
                lemma_expr_appends(condition, st);
                let s1 = compile_expr(condition, st).unwrap();
                lemma_jump_grows(s1, OpCode::JumpIfFalse);
                let (j2, exit_at) = emit_jump(s1, OpCode::JumpIfFalse);
                let s2a = emit_op(j2, OpCode::Pop);
                lemma_grows_emit(j2, opcode_byte(OpCode::Pop));
                lemma_scoped_grows(body, s2a);
                let s3 = compile_scoped(body, s2a).unwrap();
                lemma_grows_trans(st, s1, j2);
                lemma_grows_trans(st, j2, s2a);
                lemma_grows_trans(st, s2a, s3);
                let start = st.code.len() as int;
                let l1 = emit_op(s3, OpCode::Loop);
                let offset = l1.code.len() + 2 - start;
                let l2 = emit(l1, (offset / 256) as u8);
                let s4 = emit(l2, (offset % 256) as u8);
                lemma_grows_emit(s3, opcode_byte(OpCode::Loop));
                lemma_grows_emit(l1, (offset / 256) as u8);
                lemma_grows_emit(l2, (offset % 256) as u8);
                lemma_grows_trans(st, s3, l1);
                lemma_grows_trans(st, l1, l2);
                lemma_grows_trans(st, l2, s4);
                lemma_grows_patch(st, s4, exit_at);
                let s5 = patch_jump(s4, exit_at).unwrap();
                lemma_grows_emit(s5, opcode_byte(OpCode::Pop));
                lemma_grows_trans(st, s5, s2);
            },
            StmtView::Expression(e) => {
                lemma_expr_appends(e, st);
                let s1 = compile_expr(e, st).unwrap();
                lemma_grows_emit(s1, opcode_byte(OpCode::Pop));
                lemma_grows_trans(st, s1, s2);
            },
            StmtView::Return(value) => {
                let s1 = match value {
                    Some(e) => compile_expr(e, st).unwrap(),
                    None => emit_op(st, OpCode::Nil),
                };
                match value {
                    Some(e) => lemma_expr_appends(e, st),
                    None => lemma_grows_emit(st, opcode_byte(OpCode::Nil)),
                }
                lemma_grows_emit(s1, opcode_byte(OpCode::Return));
                lemma_grows_trans(st, s1, s2);
            },
        }
    }
}

pub proof fn lemma_stmts_grow(ss: Seq<StmtView>, st: CompileState)
    ensures
        compile_stmts(ss, st) matches Ok(s2) ==> grows(st, s2),
    decreases ss, 0nat,
{
    if ss.len() == 0 {
        lemma_grows_refl(st);
    } else {
        lemma_stmt_grows(ss[0], st);
        if let Ok(s1) = compile_stmt(ss[0], st) {
            lemma_stmts_grow(ss.subrange(1, ss.len() as int), s1);
            if let Ok(s2) = compile_stmts(ss.subrange(1, ss.len() as int), s1) {
                lemma_grows_trans(st, s1, s2);
            }
        }
    }
}

pub proof fn lemma_scoped_grows(ss: Seq<StmtView>, st: CompileState)
    ensures
        compile_scoped(ss, st) matches Ok(s2) ==> grows(st, s2),
    decreases ss, 1nat,
{
    if let Ok(s2) = compile_scoped(ss, st) {
        let inner = CompileState { depth: st.depth + 1, ..st };
        lemma_grows_same(st, inner);
        lemma_stmts_grow(ss, inner);
        let s1 = compile_stmts(ss, inner).unwrap();
        let closing = CompileState { depth: st.depth, ..s1 };
        lemma_grows_same(s1, closing);
        lemma_end_scope_grows(closing);
        lemma_grows_trans(st, inner, s1);
        lemma_grows_trans(st, s1, closing);
        lemma_grows_trans(st, closing, s2);
    }
}

/// The layout of an `if`: after the condition's code comes `JumpIfFalse`,
/// then the `Pop` of the condition on the path into the `then` branch. The
/// jump lands on a second `Pop`, which drops the condition on the other
/// path, with or without an `else`; the `then` branch ends with a `Jump`
/// over that `Pop` and the `else` branch to the end of the statement. So
/// the condition is popped whichever branch runs.
pub proof fn lemma_if_layout(
    condition: ExprView,
    then_branch: Seq<StmtView>,
    else_branch: Option<Seq<StmtView>>,
    st: CompileState,
)
    requires
        compile_stmt(
            StmtView::If { condition: condition, then_branch: then_branch, else_branch: else_branch },
            st,
        ) is Ok,
    ensures
        compile_expr(condition, st) is Ok,
        ({
            let n = compile_expr(condition, st).unwrap().code.len() as int;
            let c = compile_stmt(
                StmtView::If { condition: condition, then_branch: then_branch, else_branch: else_branch },
                st,
            ).unwrap().code;
            let target = n + 3 + (c[n + 1] as int) * 256 + (c[n + 2] as int);
            &&& n + 4 <= target < c.len()
            &&& c[n] == opcode_byte(OpCode::JumpIfFalse)
            &&& c[n + 3] == opcode_byte(OpCode::Pop)
            &&& c[target] == opcode_byte(OpCode::Pop)
            &&& c[target - 3] == opcode_byte(OpCode::Jump)
            &&& target + (c[target - 2] as int) * 256 + (c[target - 1] as int) == c.len()
        }),
{
    let s1 = compile_expr(condition, st).unwrap();
    let n = s1.code.len() as int;
    lemma_jump_grows(s1, OpCode::JumpIfFalse);
    let (j2, then_at) = emit_jump(s1, OpCode::JumpIfFalse);
    let s2a = emit_op(j2, OpCode::Pop);
    lemma_grows_emit(j2, opcode_byte(OpCode::Pop));
    lemma_scoped_grows(then_branch, s2a);
    let s3 = compile_scoped(then_branch, s2a).unwrap();
    lemma_jump_grows(s3, OpCode::Jump);
    let (s4, else_at) = emit_jump(s3, OpCode::Jump);
    let s5 = patch_jump(s4, then_at).unwrap();
    lemma_patched_jump_lands_at_end(s4, then_at);
    let s6 = emit_op(s5, OpCode::Pop);
    lemma_grows_emit(s5, opcode_byte(OpCode::Pop));
    let s8 = match else_branch {
        Some(b) => {
            lemma_scoped_grows(b, s6);
            compile_scoped(b, s6).unwrap()
        },
        None => {
            lemma_grows_refl(s6);
            s6
        },
    };
    let whole = patch_jump(s8, else_at).unwrap();
    lemma_patched_jump_lands_at_end(s8, else_at);
    let c = whole.code;
    let t = s5.code.len() as int;
    // bytes of s2a survive into s4 and s5 (the patch writes only at then_at)
    lemma_grows_trans(s2a, s3, s4);
    assert(s4.code[n] == s4.code.subrange(0, s2a.code.len() as int)[n]);
    assert(s4.code[n + 3] == s4.code.subrange(0, s2a.code.len() as int)[n + 3]);
    assert(s4.code[t - 3] == s4.code.subrange(0, s3.code.len() as int + 1)[t - 3]) by {
        assert(s4.code.subrange(0, s3.code.len() as int) == s3.code);
    }
    // bytes of s6 survive into s8
    assert(s8.code.subrange(0, s6.code.len() as int) == s6.code);
    assert(s8.code[n] == s6.code[n]);
    assert(s8.code[n + 1] == s6.code[n + 1]);
    assert(s8.code[n + 2] == s6.code[n + 2]);
    assert(s8.code[n + 3] == s6.code[n + 3]);
    assert(s8.code[t] == s6.code[t]);
    assert(s8.code[t - 3] == s6.code[t - 3]);
}

/// The layout of a `while`: the condition's code starts where the statement
/// starts, then comes `JumpIfFalse` and the `Pop` of the condition on the
/// way into the body; after the body, `Loop` jumps back to the start of the
/// condition, and the exit jump lands on the final `Pop`, which drops the
/// condition when the loop ends.
pub proof fn lemma_while_layout(condition: ExprView, body: Seq<StmtView>, st: CompileState)
    requires
        compile_stmt(StmtView::While { condition: condition, body: body }, st) is Ok,
    ensures
        compile_expr(condition, st) is Ok,
        ({
            let n = compile_expr(condition, st).unwrap().code.len() as int;
            let c = compile_stmt(StmtView::While { condition: condition, body: body }, st).unwrap().code;
            let exit = n + 3 + (c[n + 1] as int) * 256 + (c[n + 2] as int);
            &&& code_extends(st.code, c)
            &&& n + 8 <= c.len()
            &&& c[n] == opcode_byte(OpCode::JumpIfFalse)
            &&& c[n + 3] == opcode_byte(OpCode::Pop)
            &&& exit == c.len() - 1
            &&& c[exit] == opcode_byte(OpCode::Pop)
            &&& c[c.len() - 4] == opcode_byte(OpCode::Loop)
            &&& (c.len() - 1) - ((c[c.len() - 3] as int) * 256 + (c[c.len() - 2] as int)) == st.code.len()
        }),
{
    lemma_expr_appends(condition, st);
    let s1 = compile_expr(condition, st).unwrap();
    let n = s1.code.len() as int;
    let start = st.code.len() as int;
    lemma_jump_grows(s1, OpCode::JumpIfFalse);
    let (j2, exit_at) = emit_jump(s1, OpCode::JumpIfFalse);
    let s2a = emit_op(j2, OpCode::Pop);
    lemma_grows_emit(j2, opcode_byte(OpCode::Pop));
    lemma_scoped_grows(body, s2a);
    let s3 = compile_scoped(body, s2a).unwrap();
    lemma_grows_trans(j2, s2a, s3);
    lemma_loop_lands_at_start(s3, start);
    let s4 = emit_loop(s3, start).unwrap();
    let s5 = patch_jump(s4, exit_at).unwrap();
    lemma_patched_jump_lands_at_end(s4, exit_at);
    let whole = emit_op(s5, OpCode::Pop);
    assert(s3.code.subrange(0, s2a.code.len() as int) == s2a.code);
    assert(s3.code[n] == s2a.code[n]);
    assert(s3.code[n + 3] == s2a.code[n + 3]);
    assert(s4.code.subrange(0, s3.code.len() as int) =~= s3.code);
    lemma_grows_trans(st, s1, j2);
    lemma_grows_trans(st, j2, s3);
    assert(code_extends(st.code, whole.code)) by {
        assert(whole.code.subrange(0, start) =~= s3.code.subrange(0, start));
    }
}

/// Reading a name: the most recent local of that name is read from its slot
/// with `GetLocal`; a name no local has is a global, read with `GetGlobal`
/// and a new constant holding the name.
pub proof fn lemma_name_reads(name: Seq<char>, st: CompileState)
    ensures
        forall|i: int|
            0 <= i < st.locals.len() && i <= 255 && #[trigger] st.locals[i].name == name && (forall|j: int|
                i < j < st.locals.len() ==> st.locals[j].name != name) ==> compile_expr(ExprView::Identifier(name), st)
                == Ok::<CompileState, CompileError>(
                CompileState { code: st.code + seq![opcode_byte(OpCode::GetLocal), i as u8], lines: st.lines + seq![0usize, 0usize], ..st },
            ),
        (forall|j: int| 0 <= j < st.locals.len() ==> st.locals[j].name != name) && st.constants.len() <= 255
            ==> compile_expr(ExprView::Identifier(name), st) == Ok::<CompileState, CompileError>(
            CompileState {
                code: st.code + seq![opcode_byte(OpCode::GetGlobal), st.constants.len() as u8],
                lines: st.lines + seq![0usize, 0usize],
                constants: st.constants.push(ValueView::String(name)),
                ..st
            },
        ),
{
    lemma_resolve_local(st.locals, name);
    assert forall|i: int|
        0 <= i < st.locals.len() && i <= 255 && #[trigger] st.locals[i].name == name && (forall|j: int|
            i < j < st.locals.len() ==> st.locals[j].name != name) implies compile_expr(ExprView::Identifier(name), st)
            == Ok::<CompileState, CompileError>(
            CompileState { code: st.code + seq![opcode_byte(OpCode::GetLocal), i as u8], lines: st.lines + seq![0usize, 0usize], ..st },
        ) by {
        lemma_resolve_innermost(st.locals, name, i);
        let r = compile_expr(ExprView::Identifier(name), st).unwrap();
        assert(r.code =~= st.code + seq![opcode_byte(OpCode::GetLocal), i as u8]);
        assert(r.lines =~= st.lines + seq![0usize, 0usize]);
    }
    if (forall|j: int| 0 <= j < st.locals.len() ==> st.locals[j].name != name) && st.constants.len() <= 255 {
        let r = compile_expr(ExprView::Identifier(name), st).unwrap();
        assert(r.code =~= st.code + seq![opcode_byte(OpCode::GetGlobal), st.constants.len() as u8]);
        assert(r.lines =~= st.lines + seq![0usize, 0usize]);
    }
}

/// `r` and the state `after` are what `s` says compiling gives.
pub open spec fn outcome(r: Result<(), CompileError>, after: CompileState, s: Result<CompileState, CompileError>) -> bool {
    match s {
        Ok(st) => r is Ok && after == st,
        Err(e) => r == Err::<(), CompileError>(e),
    }
}

// ---------------------------------------------------------------------------
// The compiler.
// ---------------------------------------------------------------------------

/// A local variable: its name and the depth of the scope that declared it.
pub struct Local {
    pub name: String,
    pub depth: u32,
}

pub open spec fn locals_view(ls: Seq<Local>) -> Seq<LocalView> {
    ls.map_values(|l: Local| LocalView { name: l.name@, depth: l.depth as nat })
}

/// Compiles syntax trees into a chunk, tracking the locals in scope.
pub struct Compiler {
    pub chunk: Chunk,
    pub scope_depth: u32,
    pub locals: Vec<Local>,
}

/// The state before anything is compiled.
pub open spec fn initial_state() -> CompileState {
    CompileState {
        code: Seq::empty(),
        lines: Seq::empty(),
        constants: Seq::empty(),
        locals: Seq::empty(),
        depth: 0,
    }
}

impl Compiler {
    /// What this compiler has written and tracks.
    pub open spec fn state(&self) -> CompileState {
        CompileState {
            code: self.chunk.code@,
            lines: self.chunk.line@,
            constants: values_view(self.chunk.constants@),
            locals: locals_view(self.locals@),
            depth: self.scope_depth as nat,
        }
    }

    /// A compiler at the top level, with an empty chunk.
    pub fn new() -> (c: Compiler)
        ensures
            c.state() == initial_state(),
            c.chunk.code@ == Seq::<u8>::empty(),
            c.chunk.line@ == Seq::<usize>::empty(),
            c.chunk.constants@ == Seq::<Value>::empty(),
            c.locals@ == Seq::<Local>::empty(),
            c.scope_depth == 0,
            c.chunk.arity == 0,
    {
        let c = Compiler { chunk: Chunk::new(), scope_depth: 0, locals: Vec::new() };
        assert(c.state() =~= initial_state());
        c
    }

    /// Adds `value` to the pool and emits `op` with its index.
    fn emit_constant(&mut self, value: Value, op: OpCode) -> (r: Result<(), CompileError>)
        ensures
            outcome(r, final(self).state(), emit_with_constant(old(self).state(), value.view_value(), op)),
            final(self).chunk.arity == old(self).chunk.arity,
            final(self).scope_depth == old(self).scope_depth,
            final(self).chunk.code@.len() >= old(self).chunk.code@.len(),
    {
        let ghost before = self.chunk.constants@;
        let ghost v = value.view_value();
        let index = self.chunk.add_constant(value);
        assert(values_view(self.chunk.constants@) =~= values_view(before).push(v));
        if index > 255 {
            return Err(CompileError::TooManyConstants);
        }
        self.chunk.write_opcode(op, 0);
        self.chunk.write(index as u8, 0);
        Ok(())
    }

    /// Emits `op` with a one-byte operand.
    fn emit_operand(&mut self, op: OpCode, operand: usize, too_big: CompileError) -> (r: Result<(), CompileError>)
        ensures
            outcome(r, final(self).state(), emit_with_operand(old(self).state(), op, operand as nat, too_big)),
            final(self).chunk.arity == old(self).chunk.arity,
            final(self).scope_depth == old(self).scope_depth,
            final(self).chunk.code@.len() >= old(self).chunk.code@.len(),
    {
        if operand > 255 {
            return Err(too_big);
        }
        self.chunk.write_opcode(op, 0);
        self.chunk.write(operand as u8, 0);
        Ok(())
    }

    /// The slot of the innermost local called `name`.
    fn resolve_local(&self, name: &String) -> (r: Option<usize>)
        ensures
            r matches Some(i) ==> resolve_local(locals_view(self.locals@), name@) == Some(i as nat),
            r is None ==> resolve_local(locals_view(self.locals@), name@) is None,
    {
        let ghost lv = locals_view(self.locals@);
        proof {
            lemma_resolve_local(lv, name@);
        }
        let mut i = self.locals.len();
        assert(lv.take(i as int) =~= lv);
        while i > 0
            invariant
                i <= self.locals@.len(),
                lv == locals_view(self.locals@),
                resolve_local(lv, name@) == resolve_local(lv.take(i as int), name@),
            decreases i,
        {
            let ghost pre = lv.take(i as int);
            assert(pre.last() == lv[i - 1]);
            assert(pre.drop_last() =~= lv.take(i - 1));
            if self.locals[i - 1].name == *name {
                return Some(i - 1);
            }
            i -= 1;
        }
        None
    }

    /// Emits a jump with a placeholder operand; the position of the operand.
    fn emit_jump(&mut self, op: OpCode) -> (at: usize)
        ensures
            (final(self).state(), at as int) == emit_jump(old(self).state(), op),
            final(self).chunk.arity == old(self).chunk.arity,
            final(self).scope_depth == old(self).scope_depth,
            final(self).chunk.code@.len() == at + 2,
            at >= old(self).chunk.code@.len(),
    {
        self.chunk.write_opcode(op, 0);
        let idx = self.chunk.code.len();
        self.chunk.write(0, 0);
        self.chunk.write(0, 0);
        idx
    }

    /// Emits a backward jump to `loop_start`: a `Loop` whose operand, read
    /// by the machine after the operand, leads back to `loop_start`.
    fn emit_loop(&mut self, loop_start: usize) -> (r: Result<(), CompileError>)
        requires
            loop_start <= old(self).chunk.code@.len(),
        ensures
            outcome(r, final(self).state(), emit_loop(old(self).state(), loop_start as int)),
            final(self).chunk.arity == old(self).chunk.arity,
            final(self).scope_depth == old(self).scope_depth,
            final(self).chunk.code@.len() >= old(self).chunk.code@.len(),
            r is Ok ==> {
                let code = final(self).chunk.code@;
                &&& code.len() == old(self).chunk.code@.len() + 3
                &&& code.len() - (code[code.len() - 2] * 256 + code[code.len() - 1]) == loop_start
            },
    {
        self.chunk.write_opcode(OpCode::Loop, 0);
        let distance = self.chunk.code.len() - loop_start;
        if distance > 65533 {
            return Err(CompileError::LoopTooLarge);
        }
        let offset = distance + 2;
        self.chunk.write((offset / 256) as u8, 0);
        self.chunk.write((offset % 256) as u8, 0);
        Ok(())
    }

    /// Fills in the operand at `offset` with the distance from the end of the
    /// operand to the end of the code, so that the jump lands there.
    fn patch_jump(&mut self, offset: usize) -> (r: Result<(), CompileError>)
        requires
            offset + 2 <= old(self).chunk.code@.len(),
        ensures
            outcome(r, final(self).state(), patch_jump(old(self).state(), offset as int)),
            final(self).chunk.arity == old(self).chunk.arity,
            final(self).scope_depth == old(self).scope_depth,
            final(self).chunk.code@.len() == old(self).chunk.code@.len(),
            r is Ok ==> {
                let code = final(self).chunk.code@;
                offset + 2 + (code[offset as int] * 256 + code[offset + 1]) == code.len()
            },
    {
        let jump = self.chunk.code.len() - offset - 2;
        if jump > 65535 {
            return Err(CompileError::JumpTooLarge);
        }
        self.chunk.code.set(offset, (jump / 256) as u8);
        self.chunk.code.set(offset + 1, (jump % 256) as u8);
        Ok(())
    }

    /// Emits the code of an expression: it leaves the expression's value on
    /// the stack.
    pub fn try_compile(&mut self, expr: &Expr) -> (r: Result<(), CompileError>)
        ensures
            outcome(r, final(self).state(), compile_expr(expr.view_expr(), old(self).state())),
            final(self).chunk.arity == old(self).chunk.arity,
            final(self).scope_depth == old(self).scope_depth,
            r is Ok ==> final(self).chunk.code@.len() >= old(self).chunk.code@.len(),
        decreases expr,
    {
        match expr {
            Expr::Number(val) => self.emit_constant(Value::number_from(val), OpCode::Constant),
            Expr::Nil => {
                self.chunk.write_opcode(OpCode::Nil, 0);
                Ok(())
            },
            Expr::Bool(val) => {
                if *val == true {
                    self.chunk.write_opcode(OpCode::True, 0)
                } else {
                    self.chunk.write_opcode(OpCode::False, 0)
                }
                Ok(())
            },
            Expr::Unary { operator, right } => {
                match self.try_compile(right) {
                    Ok(()) => {},
                    Err(e) => return Err(e),
                }
                match operator {
                    UnaryOp::Negate => self.chunk.write_opcode(OpCode::Negate, 0),
                    UnaryOp::Not => self.chunk.write_opcode(OpCode::Not, 0),
                }
                Ok(())
            },
            Expr::Binary { left, operator, right } => {
                match self.try_compile(left) {
                    Ok(()) => {},
                    Err(e) => return Err(e),
                }
                if *operator == BinaryOp::And || *operator == BinaryOp::Or {
                    let end = if *operator == BinaryOp::And {
                        self.emit_jump(OpCode::JumpIfFalse)
                    } else {
                        self.emit_jump(OpCode::JumpIfTrue)
                    };
                    self.chunk.write_opcode(OpCode::Pop, 0);
                    match self.try_compile(right) {
                        Ok(()) => {},
                        Err(e) => return Err(e),
                    }
                    return self.patch_jump(end);
                }
                match self.try_compile(right) {
                    Ok(()) => {},
                    Err(e) => return Err(e),
                }
                match operator {
                    BinaryOp::Add => self.chunk.write_opcode(OpCode::Add, 0),
                    BinaryOp::Subtract => self.chunk.write_opcode(OpCode::Subtract, 0),
                    BinaryOp::Multiply => self.chunk.write_opcode(OpCode::Multiply, 0),
                    BinaryOp::Divide => self.chunk.write_opcode(OpCode::Divide, 0),
                    BinaryOp::Equal => self.chunk.write_opcode(OpCode::Equal, 0),
                    BinaryOp::NotEqual => {
                        self.chunk.write_opcode(OpCode::Equal, 0);
                        self.chunk.write_opcode(OpCode::Not, 0);
                    },
                    BinaryOp::Greater => self.chunk.write_opcode(OpCode::Greater, 0),
                    BinaryOp::GreaterEqual => {
                        self.chunk.write_opcode(OpCode::Less, 0);
                        self.chunk.write_opcode(OpCode::Not, 0);
                    },
                    BinaryOp::Less => self.chunk.write_opcode(OpCode::Less, 0),
                    BinaryOp::LessEqual => {
                        self.chunk.write_opcode(OpCode::Greater, 0);
                        self.chunk.write_opcode(OpCode::Not, 0);
                    },
                    _ => {},
                }
                Ok(())
            },
            Expr::Grouping(val) => self.try_compile(val),
            Expr::String(str) => self.emit_constant(Value::string_from(str), OpCode::Constant),
            Expr::Identifier(name) => match self.resolve_local(name) {
                Some(index) => self.emit_operand(OpCode::GetLocal, index, CompileError::TooManyLocals),
                None => self.emit_constant(Value::string_from(name), OpCode::GetGlobal),
            },
            Expr::Assignment { name, value } => {
                match self.try_compile(value) {
                    Ok(()) => {},
                    Err(e) => return Err(e),
                }
                match self.resolve_local(name) {
                    Some(index) => self.emit_operand(OpCode::SetLocal, index, CompileError::TooManyLocals),
                    None => self.emit_constant(Value::string_from(name), OpCode::SetGlobal),
                }
            },
            Expr::Call { callee, arguments } => {
                match self.try_compile(callee) {
                    Ok(()) => {},
                    Err(e) => return Err(e),
                }
                let ghost args = expr.view_expr()->Call_arguments;
                let ghost start = self.state();
                let mut i: usize = 0;
                assert(args.subrange(0, args.len() as int) =~= args);
                #[verifier::loop_isolation(false)]
                while i < arguments.len()
                    invariant
                        args == expr.view_expr()->Call_arguments,
                        args.len() == arguments@.len(),
                        forall|k: int| 0 <= k < args.len() ==> args[k] == (#[trigger] arguments@[k]).view_expr(),
                        0 <= i <= arguments.len(),
                        self.chunk.arity == old(self).chunk.arity,
                        self.scope_depth == old(self).scope_depth,
                        self.chunk.code@.len() >= old(self).chunk.code@.len(),
                        compile_exprs(args, start) == compile_exprs(args.subrange(i as int, args.len() as int), self.state()),
                    decreases arguments.len() - i,
                {
                    let ghost rest = args.subrange(i as int, args.len() as int);
                    assert(rest[0] == arguments@[i as int].view_expr());
                    assert(rest.subrange(1, rest.len() as int) =~= args.subrange(i + 1, args.len() as int));
                    let ghost pre = self.state();
                    proof {
                        assert(decreases_to!(expr => arguments@[i as int]));
                    }
                    match self.try_compile(&arguments[i]) {
                        Ok(()) => {},
                        Err(e) => {
                            assert(compile_exprs(rest, pre) == Err::<CompileState, CompileError>(e));
                            return Err(e);
                        },
                    }
                    i += 1;
                }
                assert(args.subrange(i as int, args.len() as int) =~= Seq::<ExprView>::empty());
                assert(compile_exprs(args, start) == Ok::<CompileState, CompileError>(self.state()));
                self.emit_operand(OpCode::Call, arguments.len(), CompileError::TooManyArguments)
            },
        }
    }

    /// Binds `name` to the value on top of the stack: a global at the top
    /// level, a new local in a scope.
    fn declare(&mut self, name: &String) -> (r: Result<(), CompileError>)
        ensures
            outcome(r, final(self).state(), declare(old(self).state(), name@)),
            final(self).chunk.arity == old(self).chunk.arity,
            final(self).scope_depth == old(self).scope_depth,
            final(self).chunk.code@.len() >= old(self).chunk.code@.len(),
    {
        if self.scope_depth == 0 {
            self.emit_constant(Value::string_from(name), OpCode::DefineGlobal)
        } else {
            let ghost before = self.locals@;
            let local = Local { name: name.clone(), depth: self.scope_depth };
            self.locals.push(local);
            assert(locals_view(self.locals@) =~= locals_view(before).push(
                LocalView { name: name@, depth: self.scope_depth as nat },
            ));
            Ok(())
        }
    }

    /// Emits the code of a list of statements, one after the other.
    fn compile_list(&mut self, statements: &Vec<Stmt>) -> (r: Result<(), CompileError>)
        ensures
            outcome(r, final(self).state(), compile_stmts(Stmt::view_list(statements), old(self).state())),
            final(self).chunk.arity == old(self).chunk.arity,
            r is Ok ==> final(self).scope_depth == old(self).scope_depth,
            r is Ok ==> final(self).chunk.code@.len() >= old(self).chunk.code@.len(),
        decreases statements, 0nat,
    {
        let ghost ss = Stmt::view_list(statements);
        let ghost start = self.state();
        let mut i: usize = 0;
        assert(ss.subrange(0, ss.len() as int) =~= ss);
        while i < statements.len()
            invariant
                ss == Stmt::view_list(statements),
                start == old(self).state(),
                0 <= i <= statements.len(),
                self.chunk.arity == old(self).chunk.arity,
                self.scope_depth == old(self).scope_depth,
                self.chunk.code@.len() >= old(self).chunk.code@.len(),
                compile_stmts(ss, start) == compile_stmts(ss.subrange(i as int, ss.len() as int), self.state()),
            decreases statements.len() - i,
        {
            let ghost rest = ss.subrange(i as int, ss.len() as int);
            let ghost pre = self.state();
            assert(rest[0] == statements@[i as int].view_stmt());
            assert(rest.subrange(1, rest.len() as int) =~= ss.subrange(i + 1, ss.len() as int));
            proof {
                assert(decreases_to!(statements => statements@[i as int]));
            }
            match self.try_compile_stmt(&statements[i]) {
                Ok(()) => {},
                Err(e) => {
                    assert(compile_stmts(rest, pre) == Err::<CompileState, CompileError>(e));
                    return Err(e);
                },
            }
            i += 1;
        }
        assert(ss.subrange(i as int, ss.len() as int) =~= Seq::<StmtView>::empty());
        Ok(())
    }

    /// Emits the code of statements in a scope of their own: one level
    /// deeper, with a `Pop` for each local they declare at the end.
    fn compile_scoped(&mut self, statements: &Vec<Stmt>) -> (r: Result<(), CompileError>)
        ensures
            outcome(r, final(self).state(), compile_scoped(Stmt::view_list(statements), old(self).state())),
            final(self).chunk.arity == old(self).chunk.arity,
            r is Ok ==> final(self).scope_depth == old(self).scope_depth,
            r is Ok ==> final(self).chunk.code@.len() >= old(self).chunk.code@.len(),
        decreases statements, 1nat,
    {
        if self.scope_depth == 0xffff_ffff {
            return Err(CompileError::ScopeTooDeep);
        }
        self.scope_depth += 1;
        match self.compile_list(statements) {
            Ok(()) => {},
            Err(e) => return Err(e),
        }
        self.scope_depth -= 1;
        let ghost entry = self.state();
        while self.locals.len() > 0 && self.locals[self.locals.len() - 1].depth > self.scope_depth
            invariant
                end_scope(entry) == end_scope(self.state()),
                self.chunk.arity == old(self).chunk.arity,
                self.scope_depth == old(self).scope_depth,
                self.chunk.code@.len() >= old(self).chunk.code@.len(),
            decreases self.locals.len(),
        {
            let ghost pre = self.state();
            self.locals.pop();
            self.chunk.write_opcode(OpCode::Pop, 0);
            assert(self.state() =~= emit_op(CompileState { locals: pre.locals.drop_last(), ..pre }, OpCode::Pop));
        }
        Ok(())
    }

    /// Emits the code of a statement.
    #[verifier::spinoff_prover]
    #[verifier::rlimit(40)]
    pub fn try_compile_stmt(&mut self, stmt: &Stmt) -> (r: Result<(), CompileError>)
        ensures
            outcome(r, final(self).state(), compile_stmt(stmt.view_stmt(), old(self).state())),
            final(self).chunk.arity == old(self).chunk.arity,
            r is Ok ==> final(self).scope_depth == old(self).scope_depth,
            r is Ok ==> final(self).chunk.code@.len() >= old(self).chunk.code@.len(),
        decreases stmt, 2nat,
    {
        match stmt {
            Stmt::Let { name, value } => {
                match value {
                    Some(expr) => match self.try_compile(expr) {
                        Ok(()) => {},
                        Err(e) => return Err(e),
                    },
                    None => {
                        self.chunk.write_opcode(OpCode::Nil, 0);
                    },
                }
                self.declare(name)
            },
            Stmt::Block(statements) => self.compile_scoped(statements),
            Stmt::Fun { name, parameters, body } => {
                let mut fun_compiler = Compiler::new();
                fun_compiler.scope_depth += 1;
                let local = Local { name: name.clone(), depth: fun_compiler.scope_depth };
                fun_compiler.locals.push(local);
                let ghost pv = names_view(parameters@);
                let mut i: usize = 0;
                assert(locals_view(fun_compiler.locals@) =~= seq![LocalView { name: name@, depth: 1 }] + pv.subrange(0, 0).map_values(|p: Seq<char>| parameter_local(p)));
                while i < parameters.len()
                    invariant
                        pv == names_view(parameters@),
                        0 <= i <= parameters.len(),
                        fun_compiler.chunk.code@ == Seq::<u8>::empty(),
                        fun_compiler.chunk.line@ == Seq::<usize>::empty(),
                        fun_compiler.chunk.constants@ == Seq::<Value>::empty(),
                        fun_compiler.chunk.arity == 0,
                        fun_compiler.scope_depth == 1,
                        locals_view(fun_compiler.locals@) == seq![LocalView { name: name@, depth: 1 }] + pv.subrange(0, i as int).map_values(|p: Seq<char>| parameter_local(p)),
                    decreases parameters.len() - i,
                {
                    let ghost before = fun_compiler.locals@;
                    let param = Local { name: parameters[i].clone(), depth: fun_compiler.scope_depth };
                    fun_compiler.locals.push(param);
                    assert(pv[i as int] == parameters@[i as int]@);
                    assert(locals_view(fun_compiler.locals@) =~= locals_view(before).push(parameter_local(pv[i as int])));
                    assert(pv.subrange(0, i + 1).map_values(|p: Seq<char>| parameter_local(p)) =~= pv.subrange(0, i as int).map_values(|p: Seq<char>| parameter_local(p)).push(parameter_local(pv[i as int])));
                    assert(locals_view(fun_compiler.locals@) =~= seq![LocalView { name: name@, depth: 1 }] + pv.subrange(0, i + 1).map_values(|p: Seq<char>| parameter_local(p)));
                    i += 1;
                }
                assert(pv.subrange(0, i as int) =~= pv);
                assert(values_view(fun_compiler.chunk.constants@) =~= Seq::<ValueView>::empty());
                assert(fun_compiler.state() =~= function_state(name@, pv));
                match fun_compiler.compile_list(body) {
                    Ok(()) => {},
                    Err(e) => return Err(e),
                }
                let mut chunk = fun_compiler.chunk;
                chunk.arity = parameters.len();
                let value = Value::Fun(Rc::new(chunk));
                proof {
                    lemma_fun_view(&value);
                }
                match self.emit_constant(value, OpCode::Constant) {
                    Ok(()) => {},
                    Err(e) => return Err(e),
                }
                self.declare(name)
            },
            Stmt::If { condition, then_branch, else_branch } => {
                match self.try_compile(condition) {
                    Ok(()) => {},
                    Err(e) => return Err(e),
                }
                let then_offset = self.emit_jump(OpCode::JumpIfFalse);
                self.chunk.write_opcode(OpCode::Pop, 0);
                match self.compile_scoped(then_branch) {
                    Ok(()) => {},
                    Err(e) => return Err(e),
                }
                let else_offset = self.emit_jump(OpCode::Jump);
                match self.patch_jump(then_offset) {
                    Ok(()) => {},
                    Err(e) => return Err(e),
                }
                self.chunk.write_opcode(OpCode::Pop, 0);
                match else_branch {
                    Some(else_branch) => match self.compile_scoped(else_branch) {
                        Ok(()) => {},
                        Err(e) => return Err(e),
                    },
                    None => {},
                }
                self.patch_jump(else_offset)
            },
            Stmt::While { condition, body } => {
                let loop_start = self.chunk.code.len();
                match self.try_compile(condition) {
                    Ok(()) => {},
                    Err(e) => return Err(e),
                }
                let false_offset = self.emit_jump(OpCode::JumpIfFalse);
                self.chunk.write_opcode(OpCode::Pop, 0);
                match self.compile_scoped(body) {
                    Ok(()) => {},
                    Err(e) => return Err(e),
                }
                match self.emit_loop(loop_start) {
                    Ok(()) => {},
                    Err(e) => return Err(e),
                }
                match self.patch_jump(false_offset) {
                    Ok(()) => {},
                    Err(e) => return Err(e),
                }
                self.chunk.write_opcode(OpCode::Pop, 0);
                Ok(())
            },
            Stmt::Expression(expr) => {
                match self.try_compile(expr) {
                    Ok(()) => {},
                    Err(e) => return Err(e),
                }
                self.chunk.write_opcode(OpCode::Pop, 0);
                Ok(())
            },
            Stmt::Return(expr) => {
                match expr {
                    Some(expr) => match self.try_compile(expr) {
                        Ok(()) => {},
                        Err(e) => return Err(e),
                    },
                    None => {
                        self.chunk.write_opcode(OpCode::Nil, 0);
                    },
                }
                self.chunk.write_opcode(OpCode::Return, 0);
                Ok(())
            },
        }
    }

    /// Emits the code of an expression, which must compile.
    pub fn compile(&mut self, expr: &Expr)
        requires
            compile_expr(expr.view_expr(), old(self).state()) is Ok,
        ensures
            compile_expr(expr.view_expr(), old(self).state()) == Ok::<CompileState, CompileError>(final(self).state()),
            final(self).chunk.arity == old(self).chunk.arity,
    {
        let _ = self.try_compile(expr);
    }

    /// Emits the code of a statement, which must compile.
    pub fn compile_stmt(&mut self, stmt: &Stmt)
        requires
            compile_stmt(stmt.view_stmt(), old(self).state()) is Ok,
        ensures
            compile_stmt(stmt.view_stmt(), old(self).state()) == Ok::<CompileState, CompileError>(final(self).state()),
            final(self).chunk.arity == old(self).chunk.arity,
    {
        let _ = self.try_compile_stmt(stmt);
    }

    /// Emits the code of a whole program: its statements, then a return of
    /// `nil` from the top-level frame.
    pub fn try_compile_program(&mut self, stmts: &Vec<Stmt>) -> (r: Result<(), CompileError>)
        ensures
            outcome(r, final(self).state(), compile_program(Stmt::view_list(stmts), old(self).state())),
            final(self).chunk.arity == old(self).chunk.arity,
    {
        match self.compile_list(stmts) {
            Ok(()) => {},
            Err(e) => return Err(e),
        }
        self.chunk.write_opcode(OpCode::Nil, 0);
        self.chunk.write_opcode(OpCode::Return, 0);
        Ok(())
    }

    /// Emits the code of a whole program, which must compile.
    pub fn compile_program(&mut self, stmts: &Vec<Stmt>)
        requires
            compile_program(Stmt::view_list(stmts), old(self).state()) is Ok,
        ensures
            compile_program(Stmt::view_list(stmts), old(self).state()) == Ok::<CompileState, CompileError>(final(self).state()),
            final(self).chunk.arity == old(self).chunk.arity,
    {
        let _ = self.try_compile_program(stmts);
    }
}

} // verus!
