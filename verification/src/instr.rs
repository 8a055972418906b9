//! The instruction set, runtime faults, and assembly-time errors.

use vstd::prelude::*;

verus! {

/// One virtual-machine instruction.  Positional operands (jump and call
/// targets) are absolute positions in the instruction array; `Get`/`Set`
/// and `GetArg`/`SetArg` carry frame-relative stack indices.
#[derive(Clone, Copy, Debug, PartialEq, Eq, Structural)]
pub enum Instruction {
    Push(i64),
    Pop,
    Add,
    Sub,
    Incr,
    Decr,
    Mul,
    Div,
    Jump(usize),
    JE(usize),
    JNE(usize),
    JGT(usize),
    JLT(usize),
    JGE(usize),
    JLE(usize),
    Get(usize),
    SetIdx(usize),
    GetArg(usize),
    SetArg(usize),
    Noop,
    Print,
    PrintC,
    PrintStack,
    Call(usize),
    Ret,
}

/// A runtime fault.  Every fault is fatal: the engine stops at the faulting
/// instruction and reports the state reached so far.
#[derive(Clone, Copy, Debug, PartialEq, Eq, Structural)]
pub enum Fault {
    /// Pop or peek on an empty operand stack.
    StackUnderflow,
    /// An indexed stack access outside the current bounds.
    IndexOutOfRange,
    /// `Ret`, `GetArg` or `SetArg` with no active call frame.
    CallStackUnderflow,
    /// Division by zero.
    DivisionByZero,
    /// An arithmetic result outside the value range.
    ArithmeticOverflow,
    /// Packed execution only: position outside the byte stream, an unknown
    /// opcode byte, or an operand that does not fit a position.
    InvalidBytecode,
}

/// An assembly-time error.  Each variant carries the position (line index)
/// of the offending line.
#[derive(Clone, Copy, Debug, PartialEq, Eq, Structural)]
pub enum AsmError {
    /// A line that matches no instruction form.
    UnknownInstruction(usize),
    /// An operand that is not a well-formed integer literal in range.
    BadLiteral(usize),
    /// A jump to a label that no `label` line declares.
    UndefinedLabel(usize),
    /// A `Proc` or `Call` naming a procedure that no scan registered.
    UndefinedProcedure(usize),
    /// A `Proc` with no `End` line before the token stream ends.
    UnterminatedProc(usize),
}

impl Instruction {
    /// True of the instructions that carry an operand in packed form.
    pub open spec fn has_operand(self) -> bool {
        match self {
            Instruction::Push(_) => true,
            Instruction::Jump(_) => true,
            Instruction::JE(_) => true,
            Instruction::JNE(_) => true,
            Instruction::JGT(_) => true,
            Instruction::JLT(_) => true,
            Instruction::JGE(_) => true,
            Instruction::JLE(_) => true,
            Instruction::Get(_) => true,
            Instruction::SetIdx(_) => true,
            Instruction::GetArg(_) => true,
            Instruction::SetArg(_) => true,
            Instruction::Call(_) => true,
            _ => false,
        }
    }

    /// The width of the instruction in packed form: one discriminant byte,
    /// plus eight operand bytes when it carries an operand.
    pub open spec fn packed_size(self) -> int {
        if self.has_operand() {
            9
        } else {
            1
        }
    }
}

} // verus!
