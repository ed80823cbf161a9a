use vstd::prelude::*;
use crate::opcode::OpCode;
use crate::opcode::opcode_byte;
use crate::value::Value;
use crate::value::ValueView;

verus! {

/// Compiled code: instruction bytes, the line of each byte, the constant
/// pool, and the number of parameters of the function it is the body of.
#[derive(PartialEq, Debug, Clone)]
pub struct Chunk {
    pub code: Vec<u8>,
    pub line: Vec<usize>,
    pub constants: Vec<Value>,
    pub arity: usize,
}

/// The mathematical value of a chunk.
#[verifier::ext_equal]
pub struct ChunkView {
    pub code: Seq<u8>,
    pub lines: Seq<usize>,
    pub constants: Seq<ValueView>,
    pub arity: nat,
}

/// The views of a sequence of values.
pub open spec fn values_view(vs: Seq<Value>) -> Seq<ValueView> {
    vs.map_values(|v: Value| v.view_value())
}

impl Chunk {
    /// The mathematical value of this chunk.
    pub open spec fn view_chunk(&self) -> ChunkView {
        ChunkView {
            code: self.code@,
            lines: self.line@,
            constants: values_view(self.constants@),
            arity: self.arity as nat,
        }
    }

    /// An empty chunk, of arity zero.
    pub fn new() -> (c: Self)
        ensures
            c.code@ == Seq::<u8>::empty(),
            c.line@ == Seq::<usize>::empty(),
            c.constants@ == Seq::<Value>::empty(),
            c.arity == 0,
    {
        Chunk { code: Vec::new(), line: Vec::new(), constants: Vec::new(), arity: 0 }
    }

    /// Appends a byte, recording its line.
    pub fn write(&mut self, byte: u8, line: usize)
        ensures
            final(self).code@ == old(self).code@.push(byte),
            final(self).line@ == old(self).line@.push(line),
            final(self).constants == old(self).constants,
            final(self).arity == old(self).arity,
    {
        self.code.push(byte);
        self.line.push(line);
    }

    /// Appends an instruction's byte, recording its line.
    pub fn write_opcode(&mut self, op: OpCode, line: usize)
        ensures
            final(self).code@ == old(self).code@.push(opcode_byte(op)),
            final(self).line@ == old(self).line@.push(line),
            final(self).constants == old(self).constants,
            final(self).arity == old(self).arity,
    {
        self.write(op.to_byte(), line);
    }

    /// Appends a constant; its index in the pool.
    pub fn add_constant(&mut self, value: Value) -> (index: usize)
        ensures
            final(self).constants@ == old(self).constants@.push(value),
            index == old(self).constants@.len(),
            final(self).code == old(self).code,
            final(self).line == old(self).line,
            final(self).arity == old(self).arity,
    {
        self.constants.push(value);
        self.constants.len() - 1
    }
}

} // verus!
