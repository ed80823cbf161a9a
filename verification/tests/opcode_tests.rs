use lib::opcode::OpCode;
use lib::opcode::byte_to_opcode;

#[test]
fn opcode_round_trip() {
    let opcodes = [
        OpCode::Constant, OpCode::Add, OpCode::Subtract, OpCode::Multiply, OpCode::Divide,
        OpCode::Negate, OpCode::Not, OpCode::True, OpCode::False, OpCode::Return, OpCode::Nil,
        OpCode::Equal, OpCode::Greater, OpCode::Less, OpCode::Pop, OpCode::DefineGlobal,
        OpCode::GetGlobal, OpCode::SetGlobal, OpCode::GetLocal, OpCode::SetLocal, OpCode::Jump,
        OpCode::JumpIfFalse, OpCode::JumpIfTrue, OpCode::Loop, OpCode::Call,
    ];
    for opcode in opcodes {
        assert_eq!(byte_to_opcode(opcode.to_byte()), Ok(opcode));
    }
}

#[test]
fn unknown_bytes_are_errors() {
    assert_eq!(byte_to_opcode(0), Ok(OpCode::Constant));
    assert_eq!(byte_to_opcode(13), Ok(OpCode::Less));
    assert_eq!(byte_to_opcode(24), Ok(OpCode::Call));
    assert_eq!(byte_to_opcode(25), Err(25));
    assert_eq!(byte_to_opcode(255), Err(255));
}
