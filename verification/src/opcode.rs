use vstd::prelude::*;

verus! {

/// The instructions of the virtual machine. Each is one byte in a chunk's
/// code; `Constant`, `DefineGlobal`, `GetGlobal`, `SetGlobal`, `GetLocal`,
/// `SetLocal` and `Call` take a one-byte operand, `Jump`, `JumpIfFalse`,
/// `JumpIfTrue` and `Loop` a two-byte big-endian one.
#[derive(Debug, PartialEq, Eq, Copy, Clone, Structural)]
pub enum OpCode {
    Constant,
    Add,
    Subtract,
    Multiply,
    Divide,
    Negate,
    Not,
    True,
    False,
    Return,
    Nil,
    Equal,
    Greater,
    Less,
    Pop,
    DefineGlobal,
    GetGlobal,
    SetGlobal,
    GetLocal,
    SetLocal,
    Jump,
    JumpIfFalse,
    JumpIfTrue,
    Loop,
    Call,
}

/// The byte that encodes each instruction.
pub open spec fn opcode_byte(op: OpCode) -> u8 {
    match op {
        OpCode::Constant => 0u8,
        OpCode::Add => 1u8,
        OpCode::Subtract => 2u8,
        OpCode::Multiply => 3u8,
        OpCode::Divide => 4u8,
        OpCode::Negate => 5u8,
        OpCode::Not => 6u8,
        OpCode::True => 7u8,
        OpCode::False => 8u8,
        OpCode::Return => 9u8,
        OpCode::Nil => 10u8,
        OpCode::Equal => 11u8,
        OpCode::Greater => 12u8,
        OpCode::Less => 13u8,
        OpCode::Pop => 14u8,
        OpCode::DefineGlobal => 15u8,
        OpCode::GetGlobal => 16u8,
        OpCode::SetGlobal => 17u8,
        OpCode::GetLocal => 18u8,
        OpCode::SetLocal => 19u8,
        OpCode::Jump => 20u8,
        OpCode::JumpIfFalse => 21u8,
        OpCode::JumpIfTrue => 22u8,
        OpCode::Loop => 23u8,
        OpCode::Call => 24u8,
    }
}

/// The instruction that a byte encodes, if any.
pub open spec fn byte_opcode(byte: u8) -> Option<OpCode> {
    if byte == 0u8 {
        Some(OpCode::Constant)
    }     else if byte == 1u8 {
        Some(OpCode::Add)
    }     else if byte == 2u8 {
        Some(OpCode::Subtract)
    }     else if byte == 3u8 {
        Some(OpCode::Multiply)
    }     else if byte == 4u8 {
        Some(OpCode::Divide)
    }     else if byte == 5u8 {
        Some(OpCode::Negate)
    }     else if byte == 6u8 {
        Some(OpCode::Not)
    }     else if byte == 7u8 {
        Some(OpCode::True)
    }     else if byte == 8u8 {
        Some(OpCode::False)
    }     else if byte == 9u8 {
        Some(OpCode::Return)
    }     else if byte == 10u8 {
        Some(OpCode::Nil)
    }     else if byte == 11u8 {
        Some(OpCode::Equal)
    }     else if byte == 12u8 {
        Some(OpCode::Greater)
    }     else if byte == 13u8 {
        Some(OpCode::Less)
    }     else if byte == 14u8 {
        Some(OpCode::Pop)
    }     else if byte == 15u8 {
        Some(OpCode::DefineGlobal)
    }     else if byte == 16u8 {
        Some(OpCode::GetGlobal)
    }     else if byte == 17u8 {
        Some(OpCode::SetGlobal)
    }     else if byte == 18u8 {
        Some(OpCode::GetLocal)
    }     else if byte == 19u8 {
        Some(OpCode::SetLocal)
    }     else if byte == 20u8 {
        Some(OpCode::Jump)
    }     else if byte == 21u8 {
        Some(OpCode::JumpIfFalse)
    }     else if byte == 22u8 {
        Some(OpCode::JumpIfTrue)
    }     else if byte == 23u8 {
        Some(OpCode::Loop)
    }     else if byte == 24u8 {
        Some(OpCode::Call)
    } else {
        None
    }
}

impl OpCode {
    /// The byte that encodes this instruction.
    pub fn to_byte(self) -> (b: u8)
        ensures
            b == opcode_byte(self),
    {
        match self {
            OpCode::Constant => 0,
            OpCode::Add => 1,
            OpCode::Subtract => 2,
            OpCode::Multiply => 3,
            OpCode::Divide => 4,
            OpCode::Negate => 5,
            OpCode::Not => 6,
            OpCode::True => 7,
            OpCode::False => 8,
            OpCode::Return => 9,
            OpCode::Nil => 10,
            OpCode::Equal => 11,
            OpCode::Greater => 12,
            OpCode::Less => 13,
            OpCode::Pop => 14,
            OpCode::DefineGlobal => 15,
            OpCode::GetGlobal => 16,
            OpCode::SetGlobal => 17,
            OpCode::GetLocal => 18,
            OpCode::SetLocal => 19,
            OpCode::Jump => 20,
            OpCode::JumpIfFalse => 21,
            OpCode::JumpIfTrue => 22,
            OpCode::Loop => 23,
            OpCode::Call => 24,
        }
    }
}

/// Decodes an instruction byte; an unknown byte comes back as the error.
pub fn byte_to_opcode(byte: u8) -> (r: Result<OpCode, u8>)
    ensures
        r == (match byte_opcode(byte) {
            Some(op) => Ok(op),
            None => Err(byte),
        }),
{
    match byte {
        0 => Ok(OpCode::Constant),
        1 => Ok(OpCode::Add),
        2 => Ok(OpCode::Subtract),
        3 => Ok(OpCode::Multiply),
        4 => Ok(OpCode::Divide),
        5 => Ok(OpCode::Negate),
        6 => Ok(OpCode::Not),
        7 => Ok(OpCode::True),
        8 => Ok(OpCode::False),
        9 => Ok(OpCode::Return),
        10 => Ok(OpCode::Nil),
        11 => Ok(OpCode::Equal),
        12 => Ok(OpCode::Greater),
        13 => Ok(OpCode::Less),
        14 => Ok(OpCode::Pop),
        15 => Ok(OpCode::DefineGlobal),
        16 => Ok(OpCode::GetGlobal),
        17 => Ok(OpCode::SetGlobal),
        18 => Ok(OpCode::GetLocal),
        19 => Ok(OpCode::SetLocal),
        20 => Ok(OpCode::Jump),
        21 => Ok(OpCode::JumpIfFalse),
        22 => Ok(OpCode::JumpIfTrue),
        23 => Ok(OpCode::Loop),
        24 => Ok(OpCode::Call),
        _ => Err(byte),
    }
}

/// Decoding the byte of an instruction gives the instruction back.
pub proof fn lemma_opcode_round_trip(op: OpCode)
    ensures
        byte_opcode(opcode_byte(op)) == Some(op),
{
}

/// A byte that decodes to an instruction is that instruction's byte, and the
/// bytes that decode are exactly those below the number of instructions.
pub proof fn lemma_byte_round_trip(byte: u8)
    ensures
        byte_opcode(byte) matches Some(op) ==> opcode_byte(op) == byte,
        byte_opcode(byte) is Some <==> byte < 25,
{
}

} // verus!
