use vstd::prelude::*;
use std::rc::Rc;
use crate::chunk::Chunk;
use crate::chunk::ChunkView;
use crate::chunk::values_view;
use crate::opcode::OpCode;
use crate::opcode::byte_opcode;
use crate::opcode::byte_to_opcode;
use crate::opcode::lemma_opcode_round_trip;
use crate::opcode::opcode_byte;
use crate::value::Native;
use crate::value::Value;
use crate::value::ValueView;
use crate::value::lemma_fun_view;
use crate::value::share_chunk;
use crate::value::value_is_falsy;
use crate::value::display_text;

verus! {

/// Why the machine stopped.
#[derive(PartialEq, Eq, Debug, Clone, Copy, Structural)]
pub enum RuntimeError {
    /// `step` was called while the result of a numeric operation was owed.
    AwaitingResult,
    /// `resume` was called while no result was owed.
    NotAwaiting,
    /// No frame is running.
    NotRunning,
    /// An instruction or operand lies past the end of the code.
    CodeOutOfRange,
    /// A byte that is no instruction.
    UnknownOpcode(u8),
    /// An instruction needed more values than the stack holds.
    StackUnderflow,
    /// `Negate` of something other than a number.
    OperandMustBeNumber,
    /// Arithmetic or ordering on something other than two numbers.
    OperandsMustBeNumbers,
    /// A constant index past the end of the pool.
    ConstantOutOfRange,
    /// A global's name that is not a string constant.
    ExpectedStringConstant,
    /// Reading or assigning a global that was never defined.
    UndefinedVariable,
    /// A local slot past the top of the stack.
    SlotOutOfRange,
    /// A jump that leaves the range of positions.
    JumpOutOfRange,
    /// A call with a number of arguments other than the function's arity.
    ArityMismatch { expected: usize, received: usize },
    /// A call of something that is not a function.
    NotCallable,
}

/// Operations on numbers, which the machine asks its host to perform.
#[derive(PartialEq, Eq, Debug, Clone, Copy, Structural)]
pub enum NumOp {
    Negate,
    Add,
    Subtract,
    Multiply,
    Divide,
    Greater,
    Less,
    Equal,
}

/// What one step of the machine came to.
pub enum Step {
    /// An instruction ran; the machine can step again.
    Continue,
    /// The top-level frame returned this value; the run is over.
    Finished(Value),
    /// An operation on numbers (`right` is empty for `Negate`): the machine
    /// has popped the operands and waits for the result, given to `resume`.
    Numeric { op: NumOp, left: String, right: String },
    /// The native `print` was called with these arguments; the machine has
    /// replaced the call by its result, `nil`.
    Print(Vec<Value>),
    /// The program failed.
    Failed(RuntimeError),
}

/// The mathematical value of a step's outcome.
pub enum StepView {
    Continue,
    Finished(ValueView),
    Numeric { op: NumOp, left: Seq<char>, right: Seq<char> },
    Print(Seq<ValueView>),
    Failed(RuntimeError),
}

impl Step {
    pub open spec fn view_step(&self) -> StepView {
        match self {
            Step::Continue => StepView::Continue,
            Step::Finished(v) => StepView::Finished(v.view_value()),
            Step::Numeric { op, left, right } => StepView::Numeric { op: *op, left: left@, right: right@ },
            Step::Print(args) => StepView::Print(values_view(args@)),
            Step::Failed(e) => StepView::Failed(*e),
        }
    }
}

/// A running function: its chunk, the position of its next instruction, and
/// the stack slot of the function itself, where its locals begin.
#[verifier::ext_equal]
pub struct FrameView {
    pub chunk: ChunkView,
    pub ip: nat,
    pub base: nat,
}

/// The state of the machine.
#[verifier::ext_equal]
pub struct VmView {
    pub stack: Seq<ValueView>,
    pub globals: Map<Seq<char>, ValueView>,
    pub frames: Seq<FrameView>,
    /// Whether the result of a numeric operation is owed to the machine.
    pub awaiting: bool,
}

// ---------------------------------------------------------------------------
// One step of the machine, as a function of its state.
// ---------------------------------------------------------------------------

pub open spec fn cont(vm: VmView) -> (VmView, StepView) {
    (vm, StepView::Continue)
}

pub open spec fn fail(vm: VmView, e: RuntimeError) -> (VmView, StepView) {
    (vm, StepView::Failed(e))
}

pub open spec fn push(vm: VmView, v: ValueView) -> VmView {
    VmView { stack: vm.stack.push(v), ..vm }
}

pub open spec fn pop(vm: VmView) -> VmView {
    VmView { stack: vm.stack.drop_last(), ..vm }
}

/// The state with the top frame replaced by `f`.
pub open spec fn with_top(vm: VmView, f: FrameView) -> VmView {
    VmView { frames: vm.frames.update(vm.frames.len() - 1, f), ..vm }
}

/// Reads the byte at the top frame's position and moves past it.
pub open spec fn read_byte(vm: VmView) -> Option<(VmView, u8)> {
    let f = vm.frames.last();
    if vm.frames.len() > 0 && f.ip < f.chunk.code.len() {
        Some((with_top(vm, FrameView { ip: f.ip + 1, ..f }), f.chunk.code[f.ip as int]))
    } else {
        None
    }
}

/// Reads a two-byte big-endian operand; the state after as far as it got.
pub open spec fn read_u16(vm: VmView) -> (VmView, Option<nat>) {
    match read_byte(vm) {
        Some((v1, high)) => match read_byte(v1) {
            Some((v2, low)) => (v2, Some((high as nat) * 256 + (low as nat))),
            None => (v1, None),
        },
        None => (vm, None),
    }
}

/// Reads a one-byte constant index and gives the constant.
pub open spec fn read_constant(vm: VmView) -> (VmView, Result<ValueView, RuntimeError>) {
    match read_byte(vm) {
        Some((v1, index)) => {
            let pool = v1.frames.last().chunk.constants;
            if (index as int) < pool.len() {
                (v1, Ok(pool[index as int]))
            } else {
                (v1, Err(RuntimeError::ConstantOutOfRange))
            }
        },
        None => (vm, Err(RuntimeError::CodeOutOfRange)),
    }
}

/// Reads a constant that names a global.
pub open spec fn read_name(vm: VmView) -> (VmView, Result<Seq<char>, RuntimeError>) {
    let (v1, c) = read_constant(vm);
    (
        v1,
        match c {
            Ok(ValueView::String(name)) => Ok(name),
            Ok(_) => Err(RuntimeError::ExpectedStringConstant),
            Err(e) => Err(e),
        },
    )
}

/// Pops the two operands of a binary instruction: the state after, the
/// left one, the right one.
pub open spec fn pop_two(vm: VmView) -> Option<(VmView, ValueView, ValueView)> {
    if vm.stack.len() >= 2 {
        let right = vm.stack.last();
        let left = vm.stack.drop_last().last();
        Some((VmView { stack: vm.stack.drop_last().drop_last(), ..vm }, left, right))
    } else {
        None
    }
}

/// Asks the host for `op` on two numbers.
pub open spec fn ask(vm: VmView, op: NumOp, left: Seq<char>, right: Seq<char>) -> (VmView, StepView) {
    (VmView { awaiting: true, ..vm }, StepView::Numeric { op: op, left: left, right: right })
}

/// `Negate`, `Add`, `Subtract`, `Multiply`, `Divide`, `Greater`, `Less`,
/// `Equal`. Numbers go to the host; two strings added are joined; values
/// that are not both numbers are equal when they are the same value. Two
/// functions are the same value when their chunks are: the same code,
/// lines, arity and constants, where constant numbers compare by their
/// text, so a function holding `1.0` differs from one holding `1`.
pub open spec fn exec_numeric(vm: VmView, op: NumOp) -> (VmView, StepView) {
    if op == NumOp::Negate {
        if vm.stack.len() == 0 {
            fail(vm, RuntimeError::StackUnderflow)
        } else {
            match vm.stack.last() {
                ValueView::Number(t) => ask(pop(vm), NumOp::Negate, t, Seq::empty()),
                _ => fail(pop(vm), RuntimeError::OperandMustBeNumber),
            }
        }
    } else {
        match pop_two(vm) {
            Some((v1, left, right)) => match (left, right) {
                (ValueView::Number(a), ValueView::Number(b)) => ask(v1, op, a, b),
                (ValueView::String(a), ValueView::String(b)) => if op == NumOp::Add {
                    cont(push(v1, ValueView::String(a + b)))
                } else if op == NumOp::Equal {
                    cont(push(v1, ValueView::Bool(a == b)))
                } else {
                    fail(v1, RuntimeError::OperandsMustBeNumbers)
                },
                _ => if op == NumOp::Equal {
                    cont(push(v1, ValueView::Bool(left == right)))
                } else {
                    fail(v1, RuntimeError::OperandsMustBeNumbers)
                },
            },
            None => fail(vm, RuntimeError::StackUnderflow),
        }
    }
}

/// `DefineGlobal`, `GetGlobal`, `SetGlobal`.
pub open spec fn exec_global(vm: VmView, op: OpCode) -> (VmView, StepView) {
    let (v1, read) = read_name(vm);
    match read {
        Ok(name) => if op == OpCode::GetGlobal {
            if v1.globals.contains_key(name) {
                cont(push(v1, v1.globals[name]))
            } else {
                fail(v1, RuntimeError::UndefinedVariable)
            }
        } else if v1.stack.len() == 0 {
            fail(v1, RuntimeError::StackUnderflow)
        } else if op == OpCode::DefineGlobal {
            cont(VmView { globals: v1.globals.insert(name, v1.stack.last()), ..pop(v1) })
        } else if v1.globals.contains_key(name) {
            cont(VmView { globals: v1.globals.insert(name, v1.stack.last()), ..v1 })
        } else {
            fail(v1, RuntimeError::UndefinedVariable)
        },
        Err(e) => fail(v1, e),
    }
}

/// `GetLocal`, `SetLocal`: slots count from the top frame's base.
pub open spec fn exec_local(vm: VmView, op: OpCode) -> (VmView, StepView) {
    match read_byte(vm) {
        Some((v1, slot)) => {
            let index = v1.frames.last().base + slot;
            if op == OpCode::GetLocal {
                if index < v1.stack.len() {
                    cont(push(v1, v1.stack[index as int]))
                } else {
                    fail(v1, RuntimeError::SlotOutOfRange)
                }
            } else if v1.stack.len() == 0 {
                fail(v1, RuntimeError::StackUnderflow)
            } else if index < v1.stack.len() {
                cont(VmView { stack: v1.stack.update(index as int, v1.stack.last()), ..v1 })
            } else {
                fail(v1, RuntimeError::SlotOutOfRange)
            }
        },
        None => fail(vm, RuntimeError::CodeOutOfRange),
    }
}

/// Moves the top frame's position by `offset`, forward or back.
pub open spec fn jump(vm: VmView, offset: nat, forward: bool) -> (VmView, StepView) {
    let f = vm.frames.last();
    if forward {
        if f.ip + offset <= usize::MAX {
            cont(with_top(vm, FrameView { ip: f.ip + offset, ..f }))
        } else {
            fail(vm, RuntimeError::JumpOutOfRange)
        }
    } else if offset <= f.ip {
        cont(with_top(vm, FrameView { ip: (f.ip - offset) as nat, ..f }))
    } else {
        fail(vm, RuntimeError::JumpOutOfRange)
    }
}

/// `Jump`, `JumpIfFalse`, `JumpIfTrue` (the two conditional ones look at the
/// top of the stack and leave it there), `Loop`.
pub open spec fn exec_jump(vm: VmView, op: OpCode) -> (VmView, StepView) {
    let (v1, read) = read_u16(vm);
    match read {
        Some(offset) => if op == OpCode::Jump {
            jump(v1, offset, true)
        } else if op == OpCode::Loop {
            jump(v1, offset, false)
        } else if v1.stack.len() == 0 {
            fail(v1, RuntimeError::StackUnderflow)
        } else if value_is_falsy(v1.stack.last()) == (op == OpCode::JumpIfFalse) {
            jump(v1, offset, true)
        } else {
            cont(v1)
        },
        None => fail(v1, RuntimeError::CodeOutOfRange),
    }
}

/// `Call` with a one-byte argument count: a function gets a new frame whose
/// base is the function's own slot, once the count matches its arity; the
/// native `print` is replaced, with its arguments, by `nil`.
pub open spec fn exec_call(vm: VmView) -> (VmView, StepView) {
    match read_byte(vm) {
        Some((v1, count)) => if v1.stack.len() < count + 1 {
            fail(v1, RuntimeError::StackUnderflow)
        } else {
            let at = v1.stack.len() - count - 1;
            match v1.stack[at] {
                ValueView::Fun(f) => if f.arity != count {
                    fail(
                        v1,
                        RuntimeError::ArityMismatch { expected: f.arity as usize, received: count as usize },
                    )
                } else {
                    cont(VmView { frames: v1.frames.push(FrameView { chunk: f, ip: 0, base: at as nat }), ..v1 })
                },
                ValueView::NativeFn(Native::Print) => (
                    VmView { stack: v1.stack.take(at).push(ValueView::Nil), ..v1 },
                    StepView::Print(v1.stack.subrange(at + 1, v1.stack.len() as int)),
                ),
                _ => fail(v1, RuntimeError::NotCallable),
            }
        },
        None => fail(vm, RuntimeError::CodeOutOfRange),
    }
}

/// `Return`: pops the value, then the frame, cuts the stack back to the
/// frame's base and pushes the value; the top-level frame's value ends the
/// run instead.
pub open spec fn exec_return(vm: VmView) -> (VmView, StepView) {
    if vm.stack.len() == 0 {
        fail(vm, RuntimeError::StackUnderflow)
    } else {
        let value = vm.stack.last();
        let rest = vm.stack.drop_last();
        let base = vm.frames.last().base;
        let kept = if base < rest.len() {
            rest.take(base as int)
        } else {
            rest
        };
        let frames = vm.frames.drop_last();
        if frames.len() == 0 {
            (VmView { stack: kept, frames: frames, ..vm }, StepView::Finished(value))
        } else {
            cont(VmView { stack: kept.push(value), frames: frames, ..vm })
        }
    }
}

/// Runs the instruction `op`, whose byte has been read.
pub open spec fn exec_op(vm: VmView, op: OpCode) -> (VmView, StepView) {
    match op {
        OpCode::Constant => {
            let (v1, read) = read_constant(vm);
            match read {
                Ok(value) => cont(push(v1, value)),
                Err(e) => fail(v1, e),
            }
        },
        OpCode::Nil => cont(push(vm, ValueView::Nil)),
        OpCode::True => cont(push(vm, ValueView::Bool(true))),
        OpCode::False => cont(push(vm, ValueView::Bool(false))),
        OpCode::Pop => cont(
            if vm.stack.len() > 0 {
                pop(vm)
            } else {
                vm
            },
        ),
        OpCode::Not => if vm.stack.len() == 0 {
            fail(vm, RuntimeError::StackUnderflow)
        } else {
            cont(push(pop(vm), ValueView::Bool(value_is_falsy(vm.stack.last()))))
        },
        OpCode::Negate => exec_numeric(vm, NumOp::Negate),
        OpCode::Add => exec_numeric(vm, NumOp::Add),
        OpCode::Subtract => exec_numeric(vm, NumOp::Subtract),
        OpCode::Multiply => exec_numeric(vm, NumOp::Multiply),
        OpCode::Divide => exec_numeric(vm, NumOp::Divide),
        OpCode::Greater => exec_numeric(vm, NumOp::Greater),
        OpCode::Less => exec_numeric(vm, NumOp::Less),
        OpCode::Equal => exec_numeric(vm, NumOp::Equal),
        OpCode::DefineGlobal => exec_global(vm, op),
        OpCode::GetGlobal => exec_global(vm, op),
        OpCode::SetGlobal => exec_global(vm, op),
        OpCode::GetLocal => exec_local(vm, op),
        OpCode::SetLocal => exec_local(vm, op),
        OpCode::Jump => exec_jump(vm, op),
        OpCode::JumpIfFalse => exec_jump(vm, op),
        OpCode::JumpIfTrue => exec_jump(vm, op),
        OpCode::Loop => exec_jump(vm, op),
        OpCode::Call => exec_call(vm),
        OpCode::Return => exec_return(vm),
    }
}

/// One step: read the top frame's next instruction and run it.
pub open spec fn step_spec(vm: VmView) -> (VmView, StepView) {
    if vm.awaiting {
        fail(vm, RuntimeError::AwaitingResult)
    } else if vm.frames.len() == 0 {
        fail(vm, RuntimeError::NotRunning)
    } else {
        match read_byte(vm) {
            Some((v1, byte)) => match byte_opcode(byte) {
                Some(op) => exec_op(v1, op),
                None => fail(v1, RuntimeError::UnknownOpcode(byte)),
            },
            None => fail(vm, RuntimeError::CodeOutOfRange),
        }
    }
}


// ---------------------------------------------------------------------------
// Laws of the machine.
// ---------------------------------------------------------------------------

/// Assigning to a global that was never defined is an error, not a
/// definition: the globals stay as they were.
pub proof fn lemma_set_undefined_global_fails(vm: VmView)
    requires
        read_name(vm).1 matches Ok(name) && !read_name(vm).0.globals.contains_key(name),
    ensures
        exec_global(vm, OpCode::SetGlobal).1 == (if read_name(vm).0.stack.len() == 0 {
            StepView::Failed(RuntimeError::StackUnderflow)
        } else {
            StepView::Failed(RuntimeError::UndefinedVariable)
        }),
        exec_global(vm, OpCode::SetGlobal).0.globals == vm.globals,
{
}

/// Assignment is an expression: storing into a global or a local leaves the
/// assigned value on top of the stack.
pub proof fn lemma_assignment_keeps_value(vm: VmView, op: OpCode)
    requires
        op == OpCode::SetGlobal || op == OpCode::SetLocal,
        exec_op(vm, op).1 == StepView::Continue,
    ensures
        exec_op(vm, op).0.stack.len() == vm.stack.len(),
        exec_op(vm, op).0.stack.last() == vm.stack.last(),
        op == OpCode::SetGlobal ==> exec_op(vm, op).0.globals == vm.globals.insert(
            read_name(vm).1->Ok_0,
            vm.stack.last(),
        ),
{
    if op == OpCode::SetLocal {
        let (v1, slot) = read_byte(vm).unwrap();
        let index = v1.frames.last().base + slot;
        let after = exec_op(vm, op).0;
        if index == v1.stack.len() - 1 {
            assert(after.stack.last() == v1.stack.last());
        } else {
            assert(after.stack.last() == after.stack[after.stack.len() - 1]);
        }
    }
}

/// Conditional jumps look at the condition without popping it.
pub proof fn lemma_conditional_jump_keeps_stack(vm: VmView, op: OpCode)
    requires
        op == OpCode::JumpIfFalse || op == OpCode::JumpIfTrue,
    ensures
        exec_op(vm, op).0.stack == vm.stack,
{
}

/// A conditional jump at the top frame's position reads its two-byte
/// operand and looks at the top of the stack: `JumpIfFalse` on a falsy value
/// and `JumpIfTrue` on a truthy one move forward by the operand from the end
/// of the instruction; otherwise the machine goes on after the instruction.
pub proof fn lemma_conditional_jump_step(vm: VmView, op: OpCode)
    requires
        op == OpCode::JumpIfFalse || op == OpCode::JumpIfTrue,
        !vm.awaiting,
        vm.frames.len() > 0,
        vm.stack.len() > 0,
        vm.frames.last().ip + 3 <= vm.frames.last().chunk.code.len(),
        vm.frames.last().chunk.code[vm.frames.last().ip as int] == opcode_byte(op),
        vm.frames.last().ip + 3 + (vm.frames.last().chunk.code[vm.frames.last().ip as int + 1] as int) * 256
            + (vm.frames.last().chunk.code[vm.frames.last().ip as int + 2] as int) <= usize::MAX,
    ensures
        ({
            let f = vm.frames.last();
            let offset = (f.chunk.code[f.ip as int + 1] as nat) * 256 + (f.chunk.code[f.ip as int + 2] as nat);
            let taken = value_is_falsy(vm.stack.last()) == (op == OpCode::JumpIfFalse);
            step_spec(vm) == (
                with_top(vm, FrameView { ip: if taken { f.ip + 3 + offset } else { f.ip + 3 }, ..f }),
                StepView::Continue,
            )
        }),
{
    let f = vm.frames.last();
    let offset = (f.chunk.code[f.ip as int + 1] as nat) * 256 + (f.chunk.code[f.ip as int + 2] as nat);
    let taken = value_is_falsy(vm.stack.last()) == (op == OpCode::JumpIfFalse);
    lemma_opcode_round_trip(op);
    let (v1, b) = read_byte(vm).unwrap();
    assert(b == opcode_byte(op));
    let target = FrameView { ip: if taken { f.ip + 3 + offset } else { f.ip + 3 }, ..f };
    assert(exec_op(v1, op).0 =~= with_top(vm, target));
}

/// A call checks the argument count against the function's arity before
/// making a frame; the new frame starts at the function's first
/// instruction, with its base at the function's own slot.
pub proof fn lemma_call_checks_arity(vm: VmView)
    requires
        read_byte(vm) matches Some((v1, count)) && v1.stack.len() >= count + 1 && v1.stack[v1.stack.len() - count - 1] is Fun,
    ensures
        ({
            let (v1, count) = read_byte(vm).unwrap();
            let at = v1.stack.len() - count - 1;
            let f = v1.stack[at]->Fun_0;
            if f.arity != count {
                exec_call(vm).1 == StepView::Failed(RuntimeError::ArityMismatch { expected: f.arity as usize, received: count as usize })
            } else {
                &&& exec_call(vm).1 == StepView::Continue
                &&& exec_call(vm).0.frames == v1.frames.push(FrameView { chunk: f, ip: 0, base: at as nat })
                &&& exec_call(vm).0.stack == v1.stack
            }
        }),
{
}

/// Calling the native `print` hands its arguments to the host and replaces
/// the call, callee and arguments, by `nil`; no frame is made.
pub proof fn lemma_print_returns_nil(vm: VmView)
    requires
        read_byte(vm) matches Some((v1, count)) && v1.stack.len() >= count + 1
            && v1.stack[v1.stack.len() - count - 1] == ValueView::NativeFn(Native::Print),
    ensures
        ({
            let (v1, count) = read_byte(vm).unwrap();
            let at = v1.stack.len() - count - 1;
            &&& exec_call(vm).1 == StepView::Print(v1.stack.subrange(at + 1, v1.stack.len() as int))
            &&& exec_call(vm).0.stack == v1.stack.take(at).push(ValueView::Nil)
            &&& exec_call(vm).0.frames == v1.frames
        }),
{
}

/// Returning from a function pops its frame and replaces everything from
/// its base up by the returned value.
pub proof fn lemma_return_replaces_frame(vm: VmView)
    requires
        vm.stack.len() > 0,
        vm.frames.len() > 1,
        vm.frames.last().base < vm.stack.len(),
    ensures
        exec_return(vm).1 == StepView::Continue,
        exec_return(vm).0.frames == vm.frames.drop_last(),
        exec_return(vm).0.stack == vm.stack.take(vm.frames.last().base as int).push(vm.stack.last()),
{
    let base = vm.frames.last().base as int;
    assert(vm.stack.drop_last().take(base) =~= vm.stack.take(base));
}

/// Equality of values that are not two numbers: `Equal` replaces the two
/// values by whether they are the same value. Two strings are equal exactly
/// when they have the same length and the same character at each position,
/// and a string never equals a value of another kind.
pub proof fn lemma_equal_compares_values(vm: VmView)
    requires
        vm.stack.len() >= 2,
        !(vm.stack.last() is Number && vm.stack.drop_last().last() is Number),
    ensures
        ({
            let right = vm.stack.last();
            let left = vm.stack.drop_last().last();
            let rest = vm.stack.drop_last().drop_last();
            &&& exec_op(vm, OpCode::Equal) == (
                VmView { stack: rest.push(ValueView::Bool(left == right)), ..vm },
                StepView::Continue,
            )
            &&& (left is String && right is String) ==> (left == right <==> (left->String_0.len()
                == right->String_0.len() && forall|i: int|
                0 <= i < left->String_0.len() ==> left->String_0[i] == right->String_0[i]))
            &&& (left is String && !(right is String)) ==> left != right
        }),
{
    let right = vm.stack.last();
    let left = vm.stack.drop_last().last();
    if let (ValueView::String(a), ValueView::String(b)) = (left, right) {
        if a.len() == b.len() && forall|i: int| 0 <= i < a.len() ==> a[i] == b[i] {
            assert(a =~= b);
        }
    }
}

/// Locals live in the stack from the frame's base: `GetLocal k` pushes the
/// value `k` slots above the base, and `SetLocal k` stores the top of the
/// stack there and leaves it on top.
pub proof fn lemma_local_slots(vm: VmView, op: OpCode)
    requires
        op == OpCode::GetLocal || op == OpCode::SetLocal,
        read_byte(vm) matches Some((v1, k)) && v1.frames.last().base + k < v1.stack.len(),
        vm.stack.len() > 0,
    ensures
        ({
            let (v1, k) = read_byte(vm).unwrap();
            let slot = v1.frames.last().base + k;
            &&& exec_op(vm, op).1 == StepView::Continue
            &&& exec_op(vm, op).0.frames == v1.frames
            &&& op == OpCode::GetLocal ==> exec_op(vm, op).0.stack == vm.stack.push(vm.stack[slot as int])
            &&& op == OpCode::SetLocal ==> {
                &&& exec_op(vm, op).0.stack.len() == vm.stack.len()
                &&& exec_op(vm, op).0.stack[slot as int] == vm.stack.last()
                &&& exec_op(vm, op).0.stack.last() == vm.stack.last()
                &&& forall|j: int| 0 <= j < vm.stack.len() && j != slot ==> exec_op(vm, op).0.stack[j] == vm.stack[j]
            }
        }),
{
}

/// `Not` replaces the top of the stack by whether it is falsy.
pub proof fn lemma_not_negates_truthiness(vm: VmView)
    requires
        vm.stack.len() > 0,
    ensures
        exec_op(vm, OpCode::Not) == (
            VmView { stack: vm.stack.drop_last().push(ValueView::Bool(value_is_falsy(vm.stack.last()))), ..vm },
            StepView::Continue,
        ),
        vm.stack.last() == ValueView::Bool(true) ==> exec_op(vm, OpCode::Not).0.stack.last() == ValueView::Bool(false),
        vm.stack.last() == ValueView::Nil ==> exec_op(vm, OpCode::Not).0.stack.last() == ValueView::Bool(true),
{
}

/// A number literal (digits, with at most a dot among them) is falsy
/// exactly when all its digits are zeros.
pub proof fn lemma_number_falsy(t: Seq<char>)
    requires
        exists|i: int| 0 <= i < t.len() && '0' <= #[trigger] t[i] && t[i] <= '9',
        forall|i: int| 0 <= i < t.len() ==> ('0' <= #[trigger] t[i] && t[i] <= '9') || t[i] == '.',
    ensures
        value_is_falsy(ValueView::Number(t)) <==> (forall|i: int| 0 <= i < t.len() && '0' <= #[trigger] t[i] && t[i] <= '9' ==> t[i] == '0'),
{
    if forall|i: int| 0 <= i < t.len() && '0' <= #[trigger] t[i] && t[i] <= '9' ==> t[i] == '0' {
        let i = choose|i: int| 0 <= i < t.len() && '0' <= #[trigger] t[i] && t[i] <= '9';
        assert(t[i] == '0');
    }
}

/// The stack drains at the end of a run: when the top-level frame, whose
/// base is the bottom of the stack, returns, the run finishes with the
/// returned value and leaves no value and no frame behind.
pub proof fn lemma_top_level_return_drains_stack(vm: VmView)
    requires
        vm.stack.len() > 0,
        vm.frames.len() == 1,
        vm.frames[0].base == 0,
    ensures
        exec_return(vm).1 == StepView::Finished(vm.stack.last()),
        exec_return(vm).0.stack.len() == 0,
        exec_return(vm).0.frames.len() == 0,
        exec_return(vm).0.globals == vm.globals,
{
}

/// `Add` takes two numbers (the host adds them) or two strings (joined);
/// any other pair of operands is an error.
pub proof fn lemma_add_operands(vm: VmView)
    requires
        vm.stack.len() >= 2,
    ensures
        ({
            let right = vm.stack.last();
            let left = vm.stack.drop_last().last();
            let rest = vm.stack.drop_last().drop_last();
            let (after, outcome) = exec_op(vm, OpCode::Add);
            match (left, right) {
                (ValueView::Number(a), ValueView::Number(b)) => {
                    &&& outcome == StepView::Numeric { op: NumOp::Add, left: a, right: b }
                    &&& after.stack == rest
                    &&& after.awaiting
                },
                (ValueView::String(a), ValueView::String(b)) => {
                    &&& outcome == StepView::Continue
                    &&& after.stack == rest.push(ValueView::String(a + b))
                },
                _ => {
                    &&& outcome == StepView::Failed(RuntimeError::OperandsMustBeNumbers)
                    &&& after.stack == rest
                },
            }
        }),
{
}

/// Truthiness: `false`, `nil`, zero and the empty string are false;
/// `true`, functions and natives are true.
pub proof fn lemma_truthiness(c: ChunkView)
    ensures
        value_is_falsy(ValueView::Bool(false)),
        value_is_falsy(ValueView::Nil),
        value_is_falsy(ValueView::Number(seq!['0'])),
        value_is_falsy(ValueView::String(Seq::empty())),
        !value_is_falsy(ValueView::Bool(true)),
        !value_is_falsy(ValueView::Fun(c)),
        !value_is_falsy(ValueView::NativeFn(Native::Print)),
{
    assert(seq!['0'][0] == '0');
}

// ---------------------------------------------------------------------------
// Runs of the machine.
// ---------------------------------------------------------------------------

/// The machine after at most `n` steps: it stops at the first step that is
/// not `Continue` (a finished run, a failure, or a request to the host), and
/// gives that step's outcome, or `Continue` when all `n` steps continued.
pub open spec fn run_steps(vm: VmView, n: nat) -> (VmView, StepView)
    decreases n,
{
    if n == 0 {
        (vm, StepView::Continue)
    } else {
        let (v1, outcome) = step_spec(vm);
        if outcome == StepView::Continue {
            run_steps(v1, (n - 1) as nat)
        } else {
            (v1, outcome)
        }
    }
}

/// The global that the next step names, if its instruction is `op` (a
/// `DefineGlobal` or a `SetGlobal`) and the name can be read.
pub open spec fn named_global(vm: VmView, op: OpCode) -> Set<Seq<char>> {
    if !vm.awaiting && vm.frames.len() > 0 {
        match read_byte(vm) {
            Some((v1, byte)) => if byte_opcode(byte) == Some(op) {
                match read_name(v1).1 {
                    Ok(name) => set![name],
                    Err(_) => Set::empty(),
                }
            } else {
                Set::empty()
            },
            None => Set::empty(),
        }
    } else {
        Set::empty()
    }
}

/// The globals that the instructions `op` executed by `run_steps(vm, n)`
/// name.
pub open spec fn run_named_globals(vm: VmView, n: nat, op: OpCode) -> Set<Seq<char>>
    decreases n,
{
    if n == 0 {
        Set::empty()
    } else {
        let (v1, outcome) = step_spec(vm);
        if outcome == StepView::Continue {
            named_global(vm, op) + run_named_globals(v1, (n - 1) as nat, op)
        } else {
            named_global(vm, op)
        }
    }
}

/// From `before` to `after` no global is removed, only the names in
/// `defined` are added, and only those in `defined` or `assigned` change
/// their value.
pub open spec fn globals_kept(
    before: Map<Seq<char>, ValueView>,
    after: Map<Seq<char>, ValueView>,
    defined: Set<Seq<char>>,
    assigned: Set<Seq<char>>,
) -> bool {
    &&& forall|k: Seq<char>| before.contains_key(k) ==> after.contains_key(k)
    &&& forall|k: Seq<char>| after.contains_key(k) && !before.contains_key(k) ==> defined.contains(k)
    &&& forall|k: Seq<char>|
        before.contains_key(k) && !defined.contains(k) && !assigned.contains(k) ==> after[k] == before[k]
}

/// One step changes the globals only through a `DefineGlobal`, which may
/// add its name, or a `SetGlobal`, which only changes a global that exists;
/// no global is removed.
pub proof fn lemma_step_keeps_globals(vm: VmView)
    ensures
        globals_kept(
            vm.globals,
            step_spec(vm).0.globals,
            named_global(vm, OpCode::DefineGlobal),
            named_global(vm, OpCode::SetGlobal),
        ),
{
    if !vm.awaiting && vm.frames.len() > 0 {
        if let Some((v1, byte)) = read_byte(vm) {
            if let Some(op) = byte_opcode(byte) {
                let after = exec_op(v1, op).0;
                if op == OpCode::DefineGlobal || op == OpCode::SetGlobal {
                    match read_name(v1).1 {
                        Ok(name) => {
                            assert(named_global(vm, op) == set![name]);
                        },
                        Err(_) => {},
                    }
                } else {
                    assert(after.globals == v1.globals);
                }
            }
        }
    }
}

/// Over a run, no global is removed, a global is added only by an executed
/// `DefineGlobal` (an assignment to an undefined name adds nothing), and
/// only the globals that executed `DefineGlobal` and `SetGlobal`
/// instructions name change their value. So definitions persist from one
/// run to the next.
pub proof fn lemma_run_keeps_globals(vm: VmView, n: nat)
    ensures
        globals_kept(
            vm.globals,
            run_steps(vm, n).0.globals,
            run_named_globals(vm, n, OpCode::DefineGlobal),
            run_named_globals(vm, n, OpCode::SetGlobal),
        ),
    decreases n,
{
    if n > 0 {
        lemma_step_keeps_globals(vm);
        let (v1, outcome) = step_spec(vm);
        if outcome == StepView::Continue {
            lemma_run_keeps_globals(v1, (n - 1) as nat);
        }
    }
}

/// Assignment over a whole run: the chunk `Constant 0; SetGlobal 1;
/// DefineGlobal 2; Nil; Return`, with constants `v`, the name `n` and the
/// name `r`, run as the only frame, its base at the bottom of the stack
/// (what `load` starts, whatever the stack holds). If `n` is defined, the
/// run finishes with `nil` and an empty stack, and both `n` and `r` hold
/// `v`: assigning leaves the assigned value on the stack. If not, the
/// second step fails with `UndefinedVariable`, no global is added or
/// changed, and `n` stays undefined.
pub proof fn lemma_assignment_run(vm: VmView, v: ValueView, n: Seq<char>, r: Seq<char>)
    requires
        !vm.awaiting,
        vm.frames.len() == 1,
        vm.frames[0].ip == 0,
        vm.frames[0].base == 0,
        vm.frames[0].chunk.code == seq![
            opcode_byte(OpCode::Constant),
            0u8,
            opcode_byte(OpCode::SetGlobal),
            1u8,
            opcode_byte(OpCode::DefineGlobal),
            2u8,
            opcode_byte(OpCode::Nil),
            opcode_byte(OpCode::Return),
        ],
        vm.frames[0].chunk.constants == seq![v, ValueView::String(n), ValueView::String(r)],
    ensures
        vm.globals.contains_key(n) ==> run_steps(vm, 5) == (
            VmView { stack: Seq::empty(), frames: Seq::empty(), globals: vm.globals.insert(n, v).insert(r, v), ..vm },
            StepView::Finished(ValueView::Nil),
        ),
        !vm.globals.contains_key(n) ==> run_steps(vm, 5).1 == StepView::Failed(RuntimeError::UndefinedVariable)
            && run_steps(vm, 5).0.globals == vm.globals,
{
    let f = vm.frames[0];
    let at = |ip: nat| with_top(vm, FrameView { ip: ip, ..f });
    lemma_opcode_round_trip(OpCode::Constant);
    lemma_opcode_round_trip(OpCode::SetGlobal);
    lemma_opcode_round_trip(OpCode::DefineGlobal);
    lemma_opcode_round_trip(OpCode::Nil);
    lemma_opcode_round_trip(OpCode::Return);
    let s1 = VmView { stack: vm.stack.push(v), ..at(2) };
    assert(step_spec(vm) == (s1, StepView::Continue)) by {
        assert(step_spec(vm).0 =~= s1);
    }
    if vm.globals.contains_key(n) {
        let s2 = VmView { globals: vm.globals.insert(n, v), ..VmView { stack: vm.stack.push(v), ..at(4) } };
        assert(step_spec(s1) == (s2, StepView::Continue)) by {
            assert(s1.frames.last() == FrameView { ip: 2, ..f });
            assert(step_spec(s1).0 =~= s2);
        }
        let s3 = VmView { globals: vm.globals.insert(n, v).insert(r, v), ..at(6) };
        assert(step_spec(s2) == (s3, StepView::Continue)) by {
            assert(s2.frames.last() == FrameView { ip: 4, ..f });
            assert(vm.stack.push(v).drop_last() =~= vm.stack);
            assert(step_spec(s2).0 =~= s3);
        }
        let s4 = VmView { stack: vm.stack.push(ValueView::Nil), ..s3 };
        let s4 = VmView { frames: s4.frames.update(0, FrameView { ip: 7, ..f }), ..s4 };
        assert(step_spec(s3) == (s4, StepView::Continue)) by {
            assert(s3.frames.last() == FrameView { ip: 6, ..f });
            assert(step_spec(s3).0 =~= s4);
        }
        let s5 = VmView { stack: Seq::empty(), frames: Seq::empty(), globals: vm.globals.insert(n, v).insert(r, v), ..vm };
        assert(step_spec(s4) == (s5, StepView::Finished(ValueView::Nil))) by {
            assert(s4.frames.last() == FrameView { ip: 7, ..f });
            assert(vm.stack.push(ValueView::Nil).drop_last() =~= vm.stack);
            assert(vm.stack.take(0) =~= Seq::<ValueView>::empty());
            assert(step_spec(s4).0 =~= s5);
        }
        reveal_with_fuel(run_steps, 6);
    } else {
        assert(s1.frames.last() == FrameView { ip: 2, ..f });
        assert(step_spec(s1).1 == StepView::Failed(RuntimeError::UndefinedVariable));
        assert(step_spec(s1).0.globals == vm.globals);
        reveal_with_fuel(run_steps, 3);
    }
}

// ---------------------------------------------------------------------------
// The globals: a list of distinct names with their values.
// ---------------------------------------------------------------------------

/// The globals as a map; a later entry for a name overrides an earlier one.
pub open spec fn globals_map(g: Seq<(String, Value)>) -> Map<Seq<char>, ValueView>
    decreases g.len(),
{
    if g.len() == 0 {
        Map::empty()
    } else {
        globals_map(g.drop_last()).insert(g.last().0@, g.last().1.view_value())
    }
}

pub open spec fn names_distinct(g: Seq<(String, Value)>) -> bool {
    forall|i: int, j: int| 0 <= i < j < g.len() ==> g[i].0@ != g[j].0@
}

/// Each entry's name is in the map, with the entry's value.
proof fn lemma_globals_get(g: Seq<(String, Value)>, i: int)
    requires
        names_distinct(g),
        0 <= i < g.len(),
    ensures
        globals_map(g).contains_key(g[i].0@),
        globals_map(g)[g[i].0@] == g[i].1.view_value(),
    decreases g.len(),
{
    if i < g.len() - 1 {
        lemma_globals_get(g.drop_last(), i);
    }
}

/// A name of no entry is not in the map.
proof fn lemma_globals_absent(g: Seq<(String, Value)>, k: Seq<char>)
    requires
        forall|i: int| 0 <= i < g.len() ==> g[i].0@ != k,
    ensures
        !globals_map(g).contains_key(k),
    decreases g.len(),
{
    if g.len() > 0 {
        lemma_globals_absent(g.drop_last(), k);
    }
}

/// Replacing the entry of a name is inserting into the map.
proof fn lemma_globals_set(g: Seq<(String, Value)>, i: int, e: (String, Value))
    requires
        names_distinct(g),
        0 <= i < g.len(),
        g[i].0@ == e.0@,
    ensures
        names_distinct(g.update(i, e)),
        globals_map(g.update(i, e)) == globals_map(g).insert(e.0@, e.1.view_value()),
    decreases g.len(),
{
    let u = g.update(i, e);
    if i == g.len() - 1 {
        assert(u.drop_last() =~= g.drop_last());
        assert(globals_map(u) =~= globals_map(g).insert(e.0@, e.1.view_value()));
    } else {
        lemma_globals_set(g.drop_last(), i, e);
        assert(u.drop_last() =~= g.drop_last().update(i, e));
        assert(globals_map(u) =~= globals_map(g).insert(e.0@, e.1.view_value()));
    }
}

/// Appending an entry with a new name is inserting into the map.
proof fn lemma_globals_push(g: Seq<(String, Value)>, e: (String, Value))
    requires
        names_distinct(g),
        forall|i: int| 0 <= i < g.len() ==> g[i].0@ != e.0@,
    ensures
        names_distinct(g.push(e)),
        globals_map(g.push(e)) == globals_map(g).insert(e.0@, e.1.view_value()),
{
    assert(g.push(e).drop_last() =~= g);
}

// ---------------------------------------------------------------------------
// The machine.
// ---------------------------------------------------------------------------

/// A running function.
pub struct CallFrame {
    chunk: Rc<Chunk>,
    ip: usize,
    base: usize,
}

impl CallFrame {
    pub closed spec fn view_frame(&self) -> FrameView {
        FrameView { chunk: (*self.chunk).view_chunk(), ip: self.ip as nat, base: self.base as nat }
    }
}

pub open spec fn frames_view(fs: Seq<CallFrame>) -> Seq<FrameView> {
    fs.map_values(|f: CallFrame| f.view_frame())
}

/// A stack machine: a value stack shared by all frames, the globals, and the
/// call frames.
pub struct VM {
    stack: Vec<Value>,
    globals: Vec<(String, Value)>,
    frames: Vec<CallFrame>,
    awaiting: bool,
}

impl VM {
    /// The machine's state.
    pub closed spec fn view_vm(&self) -> VmView {
        VmView {
            stack: values_view(self.stack@),
            globals: globals_map(self.globals@),
            frames: frames_view(self.frames@),
            awaiting: self.awaiting,
        }
    }

    /// The machine's invariant: no global is listed twice.
    pub closed spec fn wf(&self) -> bool {
        names_distinct(self.globals@)
    }

    /// A machine with an empty stack, no globals and no frames.
    pub fn new() -> (vm: VM)
        ensures
            vm.wf(),
            vm.view_vm() == (VmView {
                stack: Seq::empty(),
                globals: Map::empty(),
                frames: Seq::empty(),
                awaiting: false,
            }),
    {
        let vm = VM { stack: Vec::new(), globals: Vec::new(), frames: Vec::new(), awaiting: false };
        assert(vm.view_vm() =~= (VmView {
            stack: Seq::empty(),
            globals: Map::empty(),
            frames: Seq::empty(),
            awaiting: false,
        }));
        vm
    }

    /// The index of the global called `name`.
    fn find_global(&self, name: &String) -> (r: Option<usize>)
        ensures
            r matches Some(i) ==> i < self.globals@.len() && self.globals@[i as int].0@ == name@,
            r is None ==> forall|i: int| 0 <= i < self.globals@.len() ==> self.globals@[i].0@ != name@,
    {
        let mut i: usize = 0;
        while i < self.globals.len()
            invariant
                0 <= i <= self.globals@.len(),
                forall|k: int| 0 <= k < i ==> self.globals@[k].0@ != name@,
            decreases self.globals@.len() - i,
        {
            if self.globals[i].0 == *name {
                return Some(i);
            }
            i += 1;
        }
        None
    }

    /// Sets the global `name` to `value`, defining it if it is new.
    fn set_global(&mut self, name: String, value: Value)
        requires
            old(self).wf(),
        ensures
            final(self).wf(),
            final(self).view_vm() == (VmView {
                globals: old(self).view_vm().globals.insert(name@, value.view_value()),
                ..old(self).view_vm()
            }),
    {
        let ghost g = self.globals@;
        let ghost e = (name, value);
        match self.find_global(&name) {
            Some(i) => {
                proof {
                    lemma_globals_set(g, i as int, e);
                }
                self.globals.set(i, (name, value));
            },
            None => {
                proof {
                    lemma_globals_push(g, e);
                }
                self.globals.push((name, value));
            },
        }
        assert(self.view_vm() =~= (VmView {
            globals: old(self).view_vm().globals.insert(e.0@, e.1.view_value()),
            ..old(self).view_vm()
        }));
    }

    /// Starts running `chunk` as the top-level frame, with `print` defined.
    pub fn load(&mut self, chunk: Chunk)
        requires
            old(self).wf(),
        ensures
            final(self).wf(),
            final(self).view_vm() == (VmView {
                frames: old(self).view_vm().frames.push(FrameView { chunk: chunk.view_chunk(), ip: 0, base: 0 }),
                globals: old(self).view_vm().globals.insert(seq!['p', 'r', 'i', 'n', 't'], ValueView::NativeFn(Native::Print)),
                ..old(self).view_vm()
            }),
    {
        let ghost fv = FrameView { chunk: chunk.view_chunk(), ip: 0, base: 0 };
        let frame = CallFrame { chunk: Rc::new(chunk), ip: 0, base: 0 };
        let ghost before = self.frames@;
        self.frames.push(frame);
        assert(frames_view(self.frames@) =~= frames_view(before).push(fv));
        let name = String::from_str("print");
        proof {
            reveal_strlit("print");
            assert(name@ =~= seq!['p', 'r', 'i', 'n', 't']);
        }
        self.set_global(name, Value::NativeFn(Native::Print));
    }

    /// Reads the byte at the top frame's position and moves past it.
    fn fetch_byte(&mut self) -> (r: Option<u8>)
        requires
            old(self).wf(),
        ensures
            final(self).wf(),
            match read_byte(old(self).view_vm()) {
                Some((v, b)) => r == Some(b) && final(self).view_vm() == v,
                None => r is None && final(self).view_vm() == old(self).view_vm(),
            },
    {
        let n = self.frames.len();
        if n == 0 {
            return None;
        }
        let ip = self.frames[n - 1].ip;
        if ip >= self.frames[n - 1].chunk.code.len() {
            return None;
        }
        let b = self.frames[n - 1].chunk.code[ip];
        let ghost before = self.frames@;
        let ghost top = before[n - 1].view_frame();
        match self.frames.pop() {
            Some(f) => {
                let frame = CallFrame { chunk: f.chunk, ip: ip + 1, base: f.base };
                self.frames.push(frame);
            },
            None => {},
        }
        assert(frames_view(self.frames@) =~= frames_view(before).update(
            n - 1,
            FrameView { ip: top.ip + 1, ..top },
        ));
        assert(self.view_vm() =~= with_top(old(self).view_vm(), FrameView { ip: top.ip + 1, ..top }));
        Some(b)
    }

    /// Reads a two-byte big-endian operand.
    fn fetch_u16(&mut self) -> (r: Option<usize>)
        requires
            old(self).wf(),
        ensures
            final(self).wf(),
            final(self).view_vm() == read_u16(old(self).view_vm()).0,
            match read_u16(old(self).view_vm()).1 {
                Some(n) => r == Some(n as usize),
                None => r is None,
            },
    {
        let high = match self.fetch_byte() {
            Some(b) => b,
            None => return None,
        };
        let low = match self.fetch_byte() {
            Some(b) => b,
            None => return None,
        };
        Some((high as usize) * 256 + (low as usize))
    }

    /// Reads a constant index and gives a copy of the constant.
    fn fetch_constant(&mut self) -> (r: Result<Value, RuntimeError>)
        requires
            old(self).wf(),
        ensures
            final(self).wf(),
            final(self).view_vm() == read_constant(old(self).view_vm()).0,
            match read_constant(old(self).view_vm()).1 {
                Ok(c) => r matches Ok(v) && v.view_value() == c,
                Err(e) => r == Err::<Value, RuntimeError>(e),
            },
    {
        let index = match self.fetch_byte() {
            Some(b) => b as usize,
            None => return Err(RuntimeError::CodeOutOfRange),
        };
        let n = self.frames.len();
        assert(self.view_vm().frames.last() == self.frames@[n - 1].view_frame());
        if index >= self.frames[n - 1].chunk.constants.len() {
            return Err(RuntimeError::ConstantOutOfRange);
        }
        Ok(self.frames[n - 1].chunk.constants[index].duplicate())
    }

    /// Reads a constant that names a global.
    fn fetch_name(&mut self) -> (r: Result<String, RuntimeError>)
        requires
            old(self).wf(),
        ensures
            final(self).wf(),
            final(self).view_vm() == read_name(old(self).view_vm()).0,
            match read_name(old(self).view_vm()).1 {
                Ok(name) => r matches Ok(s) && s@ == name,
                Err(e) => r == Err::<String, RuntimeError>(e),
            },
    {
        match self.fetch_constant() {
            Ok(Value::String(s)) => Ok(s),
            Ok(_) => Err(RuntimeError::ExpectedStringConstant),
            Err(e) => Err(e),
        }
    }

    /// `Negate`, `Add`, `Subtract`, `Multiply`, `Divide`, `Greater`, `Less`,
    /// `Equal`.
    fn run_numeric(&mut self, op: NumOp) -> (s: Step)
        requires
            old(self).wf(),
        ensures
            final(self).wf(),
            final(self).view_vm() == exec_numeric(old(self).view_vm(), op).0,
            s.view_step() == exec_numeric(old(self).view_vm(), op).1,
    {
        let ghost vm = self.view_vm();
        if op == NumOp::Negate {
            let ghost before = self.stack@;
            let v = match self.stack.pop() {
                Some(v) => v,
                None => return Step::Failed(RuntimeError::StackUnderflow),
            };
            assert(values_view(self.stack@) =~= values_view(before).drop_last());
            assert(self.view_vm() =~= pop(vm));
            match v {
                Value::Number(t) => {
                    self.awaiting = true;
                    Step::Numeric { op: NumOp::Negate, left: t, right: String::new() }
                },
                _ => Step::Failed(RuntimeError::OperandMustBeNumber),
            }
        } else {
            if self.stack.len() < 2 {
                return Step::Failed(RuntimeError::StackUnderflow);
            }
            let ghost before = self.stack@;
            let right = match self.stack.pop() {
                Some(v) => v,
                None => return Step::Failed(RuntimeError::StackUnderflow),
            };
            let left = match self.stack.pop() {
                Some(v) => v,
                None => return Step::Failed(RuntimeError::StackUnderflow),
            };
            assert(values_view(self.stack@) =~= values_view(before).drop_last().drop_last());
            assert(values_view(before).last() == right.view_value());
            assert(values_view(before).drop_last().last() == left.view_value());
            match (left, right) {
                (Value::Number(a), Value::Number(b)) => {
                    self.awaiting = true;
                    Step::Numeric { op: op, left: a, right: b }
                },
                (Value::String(a), Value::String(b)) => {
                    if op == NumOp::Add {
                        let joined = a.concat(b.as_str());
                        self.push_value(Value::String(joined));
                        Step::Continue
                    } else if op == NumOp::Equal {
                        let same = a == b;
                        self.push_value(Value::Bool(same));
                        Step::Continue
                    } else {
                        Step::Failed(RuntimeError::OperandsMustBeNumbers)
                    }
                },
                (l, r) => {
                    if op == NumOp::Equal {
                        let same = values_equal(&l, &r);
                        self.push_value(Value::Bool(same));
                        Step::Continue
                    } else {
                        Step::Failed(RuntimeError::OperandsMustBeNumbers)
                    }
                },
            }
        }
    }

    /// `DefineGlobal`, `GetGlobal`, `SetGlobal`.
    fn run_global(&mut self, op: OpCode) -> (s: Step)
        requires
            old(self).wf(),
            op == OpCode::DefineGlobal || op == OpCode::GetGlobal || op == OpCode::SetGlobal,
        ensures
            final(self).wf(),
            final(self).view_vm() == exec_global(old(self).view_vm(), op).0,
            s.view_step() == exec_global(old(self).view_vm(), op).1,
    {
        let name = match self.fetch_name() {
            Ok(n) => n,
            Err(e) => return Step::Failed(e),
        };
        let ghost g = self.globals@;
        if op == OpCode::GetGlobal {
            match self.find_global(&name) {
                Some(i) => {
                    proof {
                        lemma_globals_get(g, i as int);
                    }
                    let v = self.globals[i].1.duplicate();
                    self.push_value(v);
                    Step::Continue
                },
                None => {
                    proof {
                        lemma_globals_absent(g, name@);
                    }
                    Step::Failed(RuntimeError::UndefinedVariable)
                },
            }
        } else if self.stack.len() == 0 {
            Step::Failed(RuntimeError::StackUnderflow)
        } else if op == OpCode::DefineGlobal {
            let ghost before = self.stack@;
            let ghost v1 = self.view_vm();
            let v = match self.stack.pop() {
                Some(v) => v,
                None => return Step::Failed(RuntimeError::StackUnderflow),
            };
            assert(values_view(self.stack@) =~= values_view(before).drop_last());
            assert(self.view_vm() =~= pop(v1));
            self.set_global(name, v);
            Step::Continue
        } else {
            match self.find_global(&name) {
                Some(i) => {
                    proof {
                        lemma_globals_get(g, i as int);
                    }
                    let v = self.stack[self.stack.len() - 1].duplicate();
                    self.set_global(name, v);
                    Step::Continue
                },
                None => {
                    proof {
                        lemma_globals_absent(g, name@);
                    }
                    Step::Failed(RuntimeError::UndefinedVariable)
                },
            }
        }
    }

    /// `GetLocal`, `SetLocal`.
    fn run_local(&mut self, op: OpCode) -> (s: Step)
        requires
            old(self).wf(),
            op == OpCode::GetLocal || op == OpCode::SetLocal,
        ensures
            final(self).wf(),
            final(self).view_vm() == exec_local(old(self).view_vm(), op).0,
            s.view_step() == exec_local(old(self).view_vm(), op).1,
    {
        let slot = match self.fetch_byte() {
            Some(b) => b as usize,
            None => return Step::Failed(RuntimeError::CodeOutOfRange),
        };
        let n = self.frames.len();
        assert(self.view_vm().frames.last() == self.frames@[n - 1].view_frame());
        let base = self.frames[n - 1].base;
        let len = self.stack.len();
        let in_range = base < len && slot < len - base;
        if op == OpCode::GetLocal {
            if in_range {
                let v = self.stack[base + slot].duplicate();
                self.push_value(v);
                Step::Continue
            } else {
                Step::Failed(RuntimeError::SlotOutOfRange)
            }
        } else if len == 0 {
            Step::Failed(RuntimeError::StackUnderflow)
        } else if in_range {
            let ghost before = self.stack@;
            let ghost v1 = self.view_vm();
            let v = self.stack[len - 1].duplicate();
            self.stack.set(base + slot, v);
            assert(values_view(self.stack@) =~= values_view(before).update(
                (base + slot) as int,
                values_view(before).last(),
            ));
            assert(self.view_vm() =~= (VmView { stack: v1.stack.update((base + slot) as int, v1.stack.last()), ..v1 }));
            Step::Continue
        } else {
            Step::Failed(RuntimeError::SlotOutOfRange)
        }
    }

    /// Moves the top frame's position by `offset`, forward or back.
    fn jump_by(&mut self, offset: usize, forward: bool) -> (s: Step)
        requires
            old(self).wf(),
            old(self).view_vm().frames.len() > 0,
        ensures
            final(self).wf(),
            final(self).view_vm() == jump(old(self).view_vm(), offset as nat, forward).0,
            s.view_step() == jump(old(self).view_vm(), offset as nat, forward).1,
    {
        let n = self.frames.len();
        let ip = self.frames[n - 1].ip;
        let target = if forward {
            if ip > usize::MAX - offset {
                return Step::Failed(RuntimeError::JumpOutOfRange);
            }
            ip + offset
        } else {
            if offset > ip {
                return Step::Failed(RuntimeError::JumpOutOfRange);
            }
            ip - offset
        };
        let ghost before = self.frames@;
        let ghost top = before[n - 1].view_frame();
        match self.frames.pop() {
            Some(f) => {
                let frame = CallFrame { chunk: f.chunk, ip: target, base: f.base };
                self.frames.push(frame);
            },
            None => {},
        }
        assert(frames_view(self.frames@) =~= frames_view(before).update(
            n - 1,
            FrameView { ip: target as nat, ..top },
        ));
        assert(self.view_vm() =~= with_top(old(self).view_vm(), FrameView { ip: target as nat, ..top }));
        Step::Continue
    }

    /// `Jump`, `JumpIfFalse`, `JumpIfTrue`, `Loop`.
    fn run_jump(&mut self, op: OpCode) -> (s: Step)
        requires
            old(self).wf(),
            op == OpCode::Jump || op == OpCode::JumpIfFalse || op == OpCode::JumpIfTrue || op == OpCode::Loop,
        ensures
            final(self).wf(),
            final(self).view_vm() == exec_jump(old(self).view_vm(), op).0,
            s.view_step() == exec_jump(old(self).view_vm(), op).1,
    {
        let offset = match self.fetch_u16() {
            Some(o) => o,
            None => return Step::Failed(RuntimeError::CodeOutOfRange),
        };
        if op == OpCode::Jump {
            self.jump_by(offset, true)
        } else if op == OpCode::Loop {
            self.jump_by(offset, false)
        } else if self.stack.len() == 0 {
            Step::Failed(RuntimeError::StackUnderflow)
        } else {
            let falsy = self.stack[self.stack.len() - 1].is_falsy();
            if falsy == (op == OpCode::JumpIfFalse) {
                self.jump_by(offset, true)
            } else {
                Step::Continue
            }
        }
    }

    /// `Call`.
    fn run_call(&mut self) -> (s: Step)
        requires
            old(self).wf(),
        ensures
            final(self).wf(),
            final(self).view_vm() == exec_call(old(self).view_vm()).0,
            s.view_step() == exec_call(old(self).view_vm()).1,
    {
        let count = match self.fetch_byte() {
            Some(b) => b as usize,
            None => return Step::Failed(RuntimeError::CodeOutOfRange),
        };
        let len = self.stack.len();
        if len < count + 1 {
            return Step::Failed(RuntimeError::StackUnderflow);
        }
        let at = len - count - 1;
        let callee = self.stack[at].duplicate();
        proof {
            lemma_fun_view(&callee);
        }
        match callee {
            Value::Fun(c) => {
                if count != c.arity {
                    return Step::Failed(RuntimeError::ArityMismatch { expected: c.arity, received: count });
                }
                let ghost before = self.frames@;
                let ghost fv = FrameView { chunk: (*c).view_chunk(), ip: 0, base: at as nat };
                self.frames.push(CallFrame { chunk: c, ip: 0, base: at });
                assert(frames_view(self.frames@) =~= frames_view(before).push(fv));
                Step::Continue
            },
            Value::NativeFn(Native::Print) => {
                let ghost before = self.stack@;
                let args = self.stack.split_off(at + 1);
                self.stack.truncate(at);
                self.stack.push(Value::Nil);
                assert(values_view(args@) =~= values_view(before).subrange(at + 1, len as int));
                assert(values_view(self.stack@) =~= values_view(before).take(at as int).push(ValueView::Nil));
                Step::Print(args)
            },
            _ => Step::Failed(RuntimeError::NotCallable),
        }
    }

    /// `Return`.
    fn run_return(&mut self) -> (s: Step)
        requires
            old(self).wf(),
            old(self).view_vm().frames.len() > 0,
        ensures
            final(self).wf(),
            final(self).view_vm() == exec_return(old(self).view_vm()).0,
            s.view_step() == exec_return(old(self).view_vm()).1,
    {
        let ghost vm = self.view_vm();
        let ghost stack0 = self.stack@;
        let ghost frames0 = self.frames@;
        let value = match self.stack.pop() {
            Some(v) => v,
            None => return Step::Failed(RuntimeError::StackUnderflow),
        };
        let frame = match self.frames.pop() {
            Some(f) => f,
            None => return Step::Failed(RuntimeError::NotRunning),
        };
        assert(frame.view_frame() == vm.frames.last());
        assert(frames_view(self.frames@) =~= vm.frames.drop_last());
        let ghost rest = self.stack@;
        assert(values_view(rest) =~= vm.stack.drop_last());
        self.stack.truncate(frame.base);
        proof {
            if frame.base < rest.len() {
                assert(values_view(self.stack@) =~= values_view(rest).take(frame.base as int));
            } else {
                assert(values_view(self.stack@) =~= values_view(rest));
            }
        }
        if self.frames.len() == 0 {
            return Step::Finished(value);
        }
        self.push_value(value);
        Step::Continue
    }

    /// Runs the instruction `op`, whose byte has been read.
    fn run_op(&mut self, op: OpCode) -> (s: Step)
        requires
            old(self).wf(),
            old(self).view_vm().frames.len() > 0,
        ensures
            final(self).wf(),
            final(self).view_vm() == exec_op(old(self).view_vm(), op).0,
            s.view_step() == exec_op(old(self).view_vm(), op).1,
    {
        match op {
            OpCode::Constant => match self.fetch_constant() {
                Ok(v) => {
                    self.push_value(v);
                    Step::Continue
                },
                Err(e) => Step::Failed(e),
            },
            OpCode::Nil => {
                self.push_value(Value::Nil);
                Step::Continue
            },
            OpCode::True => {
                self.push_value(Value::Bool(true));
                Step::Continue
            },
            OpCode::False => {
                self.push_value(Value::Bool(false));
                Step::Continue
            },
            OpCode::Pop => {
                let ghost before = self.stack@;
                let ghost vm = self.view_vm();
                self.stack.pop();
                proof {
                    if before.len() > 0 {
                        assert(values_view(self.stack@) =~= values_view(before).drop_last());
                        assert(self.view_vm() =~= pop(vm));
                    }
                }
                Step::Continue
            },
            OpCode::Not => {
                let ghost before = self.stack@;
                let ghost vm = self.view_vm();
                let v = match self.stack.pop() {
                    Some(v) => v,
                    None => return Step::Failed(RuntimeError::StackUnderflow),
                };
                assert(values_view(self.stack@) =~= values_view(before).drop_last());
                assert(self.view_vm() =~= pop(vm));
                let falsy = v.is_falsy();
                self.push_value(Value::Bool(falsy));
                Step::Continue
            },
            OpCode::Negate => self.run_numeric(NumOp::Negate),
            OpCode::Add => self.run_numeric(NumOp::Add),
            OpCode::Subtract => self.run_numeric(NumOp::Subtract),
            OpCode::Multiply => self.run_numeric(NumOp::Multiply),
            OpCode::Divide => self.run_numeric(NumOp::Divide),
            OpCode::Greater => self.run_numeric(NumOp::Greater),
            OpCode::Less => self.run_numeric(NumOp::Less),
            OpCode::Equal => self.run_numeric(NumOp::Equal),
            OpCode::DefineGlobal => self.run_global(op),
            OpCode::GetGlobal => self.run_global(op),
            OpCode::SetGlobal => self.run_global(op),
            OpCode::GetLocal => self.run_local(op),
            OpCode::SetLocal => self.run_local(op),
            OpCode::Jump => self.run_jump(op),
            OpCode::JumpIfFalse => self.run_jump(op),
            OpCode::JumpIfTrue => self.run_jump(op),
            OpCode::Loop => self.run_jump(op),
            OpCode::Call => self.run_call(),
            OpCode::Return => self.run_return(),
        }
    }

    /// Runs the top frame's next instruction.
    pub fn step(&mut self) -> (s: Step)
        requires
            old(self).wf(),
        ensures
            final(self).wf(),
            final(self).view_vm() == step_spec(old(self).view_vm()).0,
            s.view_step() == step_spec(old(self).view_vm()).1,
    {
        if self.awaiting {
            return Step::Failed(RuntimeError::AwaitingResult);
        }
        if self.frames.len() == 0 {
            return Step::Failed(RuntimeError::NotRunning);
        }
        let byte = match self.fetch_byte() {
            Some(b) => b,
            None => return Step::Failed(RuntimeError::CodeOutOfRange),
        };
        match byte_to_opcode(byte) {
            Ok(op) => self.run_op(op),
            Err(b) => Step::Failed(RuntimeError::UnknownOpcode(b)),
        }
    }

    /// Hands the machine the result of the numeric operation it asked for;
    /// it goes on the stack.
    pub fn resume(&mut self, result: Value) -> (r: Result<(), RuntimeError>)
        requires
            old(self).wf(),
        ensures
            final(self).wf(),
            old(self).view_vm().awaiting ==> r is Ok && final(self).view_vm() == (VmView {
                awaiting: false,
                ..push(old(self).view_vm(), result.view_value())
            }),
            !old(self).view_vm().awaiting ==> r == Err::<(), RuntimeError>(RuntimeError::NotAwaiting)
                && final(self).view_vm() == old(self).view_vm(),
    {
        if !self.awaiting {
            return Err(RuntimeError::NotAwaiting);
        }
        self.push_value(result);
        self.awaiting = false;
        Ok(())
    }

    fn push_value(&mut self, v: Value)
        requires
            old(self).wf(),
        ensures
            final(self).wf(),
            final(self).view_vm() == push(old(self).view_vm(), v.view_value()),
    {
        let ghost before = self.stack@;
        let ghost vv = v.view_value();
        self.stack.push(v);
        assert(values_view(self.stack@) =~= values_view(before).push(vv));
        assert(self.view_vm() =~= push(old(self).view_vm(), vv));
    }
}

/// The texts of `vs`, as `print` shows them, joined by single spaces.
pub open spec fn joined_text(vs: Seq<ValueView>) -> Seq<char>
    decreases vs.len(),
{
    if vs.len() == 0 {
        Seq::empty()
    } else if vs.len() == 1 {
        display_text(vs[0])
    } else {
        joined_text(vs.drop_last()) + seq![' '] + display_text(vs.last())
    }
}

/// The line the native `print` writes for its arguments: their texts joined
/// by single spaces. Numbers appear as their text; the program rewrites each
/// number's text in `f64` format before it calls this.
pub fn print_line(args: &Vec<Value>) -> (line: String)
    ensures
        line@ == joined_text(values_view(args@)),
{
    let ghost vs = values_view(args@);
    let mut line = String::new();
    let mut i: usize = 0;
    assert(vs.take(0) =~= Seq::<ValueView>::empty());
    while i < args.len()
        invariant
            vs == values_view(args@),
            0 <= i <= args@.len(),
            line@ == joined_text(vs.take(i as int)),
        decreases args.len() - i,
    {
        let ghost before = line@;
        if i > 0 {
            line.append(" ");
        }
        let text = args[i].to_display_string();
        line.append(text.as_str());
        proof {
            reveal_strlit(" ");
            assert(" "@ =~= seq![' ']);
            let next = vs.take(i + 1);
            assert(next.drop_last() =~= vs.take(i as int));
            assert(next.last() == args@[i as int].view_value());
            if i == 0 {
                assert(line@ =~= display_text(next[0]));
            } else {
                assert(line@ =~= before + seq![' '] + display_text(next.last()));
            }
        }
        i += 1;
    }
    assert(vs.take(args@.len() as int) =~= vs);
    line
}

/// Whether two values are the same value (numbers by their text).
fn values_equal(a: &Value, b: &Value) -> (r: bool)
    ensures
        r == (a.view_value() == b.view_value()),
    decreases a,
{
    proof {
        lemma_fun_view(a);
        lemma_fun_view(b);
    }
    match (a, b) {
        (Value::Number(x), Value::Number(y)) => *x == *y,
        (Value::String(x), Value::String(y)) => *x == *y,
        (Value::Bool(x), Value::Bool(y)) => *x == *y,
        (Value::Nil, Value::Nil) => true,
        (Value::NativeFn(x), Value::NativeFn(y)) => *x == *y,
        (Value::Fun(x), Value::Fun(y)) => {
            let r = chunks_equal(x, y);
            assert(r == (a.view_value() == b.view_value()));
            r
        },
        _ => {
            assert(a.view_value() != b.view_value());
            false
        },
    }
}

/// Whether two chunks are the same: the same code, lines, arity and
/// constants.
fn chunks_equal(a: &Chunk, b: &Chunk) -> (r: bool)
    ensures
        r == (a.view_chunk() == b.view_chunk()),
    decreases a,
{
    if a.arity != b.arity || a.code.len() != b.code.len() || a.line.len() != b.line.len()
        || a.constants.len() != b.constants.len() {
        assert(a.view_chunk().constants.len() == a.constants@.len());
        assert(b.view_chunk().constants.len() == b.constants@.len());
        assert(a.view_chunk() != b.view_chunk());
        return false;
    }
    let mut i: usize = 0;
    while i < a.code.len()
        invariant
            a.code@.len() == b.code@.len(),
            0 <= i <= a.code@.len(),
            forall|k: int| 0 <= k < i ==> a.code@[k] == b.code@[k],
        decreases a.code@.len() - i,
    {
        if a.code[i] != b.code[i] {
            return false;
        }
        i += 1;
    }
    assert(a.code@ =~= b.code@);
    let mut i: usize = 0;
    while i < a.line.len()
        invariant
            a.line@.len() == b.line@.len(),
            0 <= i <= a.line@.len(),
            forall|k: int| 0 <= k < i ==> a.line@[k] == b.line@[k],
        decreases a.line@.len() - i,
    {
        if a.line[i] != b.line[i] {
            return false;
        }
        i += 1;
    }
    assert(a.line@ =~= b.line@);
    let ghost av = values_view(a.constants@);
    let ghost bv = values_view(b.constants@);
    let mut i: usize = 0;
    while i < a.constants.len()
        invariant
            a.constants@.len() == b.constants@.len(),
            av == values_view(a.constants@),
            bv == values_view(b.constants@),
            0 <= i <= a.constants@.len(),
            forall|k: int| 0 <= k < i ==> av[k] == bv[k],
        decreases a.constants@.len() - i,
    {
        proof {
            assert(decreases_to!(a => a.constants@[i as int]));
        }
        if !values_equal(&a.constants[i], &b.constants[i]) {
            assert(av[i as int] != bv[i as int]);
            return false;
        }
        i += 1;
    }
    assert(av =~= bv);
    true
}

} // verus!
