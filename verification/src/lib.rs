//! A small stack-based virtual machine with a line-oriented assembler.
//!
//! Source text is tokenized (by the caller) into whitespace-split lines.
//! A resolver pass turns label and procedure names into absolute program
//! positions, the assembler emits one instruction per line, and the
//! execution engine interprets the result against an operand stack and a
//! call-frame stack.  Programs can run either as tagged instructions or
//! lowered into a packed byte stream; both forms are proved to produce the
//! same output and the same final stack.

pub mod assembler;
pub mod bytes;
pub mod code;
pub mod engine;
pub mod equiv;
pub mod fmt;
pub mod instr;
pub mod laws;
pub mod machine;
pub mod numeral;
pub mod packed;
pub mod stack;
