//! Bytecode chunks: instructions, their source lines, and a constant table.

use vstd::prelude::*;
use crate::value::Value;

verus! {

/// One bytecode operation; `Constant` and `DefineGlobal` carry an index
/// into the owning chunk's constant table.
#[derive(Debug, Copy, Clone, PartialEq, Eq, Structural)]
pub enum OpCode {
    Constant(usize),
    Nil,
    True,
    False,
    Pop,
    Equal,
    Greater,
    Less,
    Add,
    Subtract,
    Multiply,
    Divide,
    Negate,
    Not,
    Print,
    DefineGlobal(usize),
    Return,
}

/// An opcode paired with the 1-based source line of the token that
/// produced it.
#[derive(Debug, Copy, Clone, PartialEq, Eq, Structural)]
pub struct Instruction {
    pub code: OpCode,
    pub line: usize,
}

impl Instruction {
    /// Pair an opcode with its source line.
    pub fn new(code: OpCode, line: usize) -> (r: Instruction)
        ensures
            r == (Instruction { code, line }),
    {
        Instruction { code, line }
    }
}

/// An append-only sequence of instructions plus its constant table.
#[derive(Debug)]
pub struct Chunk {
    pub instructions: Vec<Instruction>,
    pub constants: Vec<Value>,
}

/// Every constant-table index that an instruction carries is in range.
pub open spec fn chunk_wf(instructions: Seq<Instruction>, constants: Seq<Value>) -> bool {
    forall|i: int|
        0 <= i < instructions.len() ==> match #[trigger] instructions[i].code {
            OpCode::Constant(c) => c < constants.len(),
            OpCode::DefineGlobal(c) => c < constants.len(),
            _ => true,
        }
}

/// How many operands the instruction pops.
pub open spec fn op_pops(code: OpCode) -> int {
    match code {
        OpCode::Constant(_) => 0,
        OpCode::Nil => 0,
        OpCode::True => 0,
        OpCode::False => 0,
        OpCode::Pop => 1,
        OpCode::Equal => 2,
        OpCode::Greater => 2,
        OpCode::Less => 2,
        OpCode::Add => 2,
        OpCode::Subtract => 2,
        OpCode::Multiply => 2,
        OpCode::Divide => 2,
        OpCode::Negate => 1,
        OpCode::Not => 1,
        OpCode::Print => 1,
        OpCode::DefineGlobal(_) => 1,
        OpCode::Return => 1,
    }
}

/// How many results the instruction pushes.
pub open spec fn op_pushes(code: OpCode) -> int {
    match code {
        OpCode::Constant(_) => 1,
        OpCode::Nil => 1,
        OpCode::True => 1,
        OpCode::False => 1,
        OpCode::Pop => 0,
        OpCode::Equal => 1,
        OpCode::Greater => 1,
        OpCode::Less => 1,
        OpCode::Add => 1,
        OpCode::Subtract => 1,
        OpCode::Multiply => 1,
        OpCode::Divide => 1,
        OpCode::Negate => 1,
        OpCode::Not => 1,
        OpCode::Print => 0,
        OpCode::DefineGlobal(_) => 0,
        OpCode::Return => 0,
    }
}

/// The stack depth after running the code from depth `d`, when no
/// instruction ever pops below the starting floor; `None` marks an
/// underflow.
pub open spec fn balanced_from(code: Seq<Instruction>, d: int) -> Option<int>
    decreases code.len(),
{
    if code.len() == 0 {
        Some(d)
    } else {
        let op = code[0].code;
        if d >= op_pops(op) {
            balanced_from(code.drop_first(), d - op_pops(op) + op_pushes(op))
        } else {
            None
        }
    }
}

/// The instruction is one an expression compiles to: it neither discards
/// nor terminates.
pub open spec fn expr_op(code: OpCode) -> bool {
    match code {
        OpCode::Pop => false,
        OpCode::Print => false,
        OpCode::DefineGlobal(_) => false,
        OpCode::Return => false,
        _ => true,
    }
}

/// Every instruction of the segment is an expression instruction.
pub open spec fn expr_code(seg: Seq<Instruction>) -> bool {
    forall|i: int| 0 <= i < seg.len() ==> expr_op(#[trigger] seg[i].code)
}

/// No instruction of the segment terminates the chunk.
pub open spec fn no_return(seg: Seq<Instruction>) -> bool {
    forall|i: int| 0 <= i < seg.len() ==> !((#[trigger] seg[i].code) matches OpCode::Return)
}

/// Depth bookkeeping concatenates: running `a` then `b` from depth `d`
/// is running `b` from where `a` ended.
pub proof fn lemma_balanced_concat(a: Seq<Instruction>, b: Seq<Instruction>, d: int)
    requires
        balanced_from(a, d) matches Some(_),
    ensures
        balanced_from(a + b, d) == balanced_from(b, balanced_from(a, d)->Some_0),
    decreases a.len(),
{
    if a.len() == 0 {
        assert(a + b =~= b);
    } else {
        assert((a + b)[0] == a[0]);
        assert((a + b).drop_first() =~= a.drop_first() + b);
        lemma_balanced_concat(a.drop_first(), b, d - op_pops(a[0].code) + op_pushes(a[0].code));
    }
}

/// Raising the starting depth raises the final depth by the same amount.
pub proof fn lemma_balanced_shift(code: Seq<Instruction>, d: int, k: int)
    requires
        balanced_from(code, d) matches Some(_),
        k >= 0,
    ensures
        balanced_from(code, d + k) == Some(balanced_from(code, d)->Some_0 + k),
    decreases code.len(),
{
    if code.len() > 0 {
        lemma_balanced_shift(
            code.drop_first(),
            d - op_pops(code[0].code) + op_pushes(code[0].code),
            k,
        );
    }
}

/// One instruction's depth effect.
pub proof fn lemma_balanced_one(i: Instruction, d: int)
    requires
        d >= op_pops(i.code),
    ensures
        balanced_from(seq![i], d) == Some(d - op_pops(i.code) + op_pushes(i.code)),
{
    assert(seq![i].drop_first() =~= Seq::<Instruction>::empty());
    assert(balanced_from(Seq::<Instruction>::empty(), d - op_pops(i.code) + op_pushes(i.code))
        == Some(d - op_pops(i.code) + op_pushes(i.code)));
}

impl Chunk {
    /// An empty chunk.
    pub fn new() -> (r: Chunk)
        ensures
            r.instructions@ == Seq::<Instruction>::empty(),
            r.constants@ == Seq::<Value>::empty(),
    {
        Chunk { instructions: Vec::new(), constants: Vec::new() }
    }

    /// Append a value to the constant table and return its index.
    pub fn add_constant(&mut self, value: Value) -> (r: usize)
        ensures
            final(self).constants@ == old(self).constants@.push(value),
            final(self).instructions@ == old(self).instructions@,
            r == old(self).constants@.len(),
    {
        let constant = self.constants.len();
        self.constants.push(value);
        constant
    }

    /// Append one instruction.
    pub fn write_chunk(&mut self, code: OpCode, line: usize)
        ensures
            final(self).instructions@ == old(self).instructions@.push(
                Instruction { code, line },
            ),
            final(self).constants@ == old(self).constants@,
    {
        self.instructions.push(Instruction::new(code, line));
    }
}

} // verus!
