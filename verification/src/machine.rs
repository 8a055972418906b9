//! The mathematical model of the execution engine: a state, a step
//! function, and bounded iteration of the step function.  Both execution
//! engines (tagged instructions and packed bytes) are proved against this
//! model; they share the per-instruction effect `apply_instr` and differ
//! only in how the current instruction and the fall-through position are
//! obtained.

use vstd::prelude::*;
use crate::fmt::{dec_str, low_byte_char, stack_repr};
use crate::instr::{Fault, Instruction};

verus! {

/// The model state: the program position, the operand stack, the call
/// frames as (frame offset, return position) pairs, and the output
/// written so far.  Positions are in instruction space for the tagged
/// engine and in byte space for the packed engine.
#[verifier::ext_equal]
pub struct MState {
    pub ip: int,
    pub stack: Seq<i64>,
    pub frames: Seq<(int, int)>,
    pub out: Seq<char>,
}

/// The result of stepping the model: still running, halted normally, or
/// stopped at a fatal fault.  The carried state in `Halted` and `Faulted`
/// is the state at the halt or at the faulting instruction.
#[verifier::ext_equal]
pub enum StepResult {
    Next(MState),
    Halted(MState),
    Faulted(Fault, MState),
}

/// The base for frame-relative addressing: the offset recorded by the
/// innermost call frame, or 0 outside any call.
pub open spec fn frame_base(s: MState) -> int {
    if s.frames.len() == 0 {
        0
    } else {
        s.frames.last().0
    }
}

/// The state after the start of execution: position 0, everything empty.
pub open spec fn init_state() -> MState {
    MState { ip: 0, stack: Seq::empty(), frames: Seq::empty(), out: Seq::empty() }
}

/// The effect of one instruction on the state.  `fall` is the position of
/// the next instruction in program order; jump targets come from the
/// instruction itself.  Bounds are tested before any change, so a faulting
/// step leaves the state untouched.
pub open spec fn apply_instr(ins: Instruction, fall: int, s: MState) -> StepResult {
    let n = s.stack.len() as int;
    match ins {
        Instruction::Push(v) => StepResult::Next(
            MState { ip: fall, stack: s.stack.push(v), ..s },
        ),
        Instruction::Pop => {
            if n == 0 {
                StepResult::Faulted(Fault::StackUnderflow, s)
            } else {
                StepResult::Next(MState { ip: fall, stack: s.stack.drop_last(), ..s })
            }
        },
        Instruction::Add => {
            if n < 2 {
                StepResult::Faulted(Fault::StackUnderflow, s)
            } else {
                let a = s.stack.last();
                let b = s.stack[n - 2];
                match b.checked_add(a) {
                    Some(r) => StepResult::Next(
                        MState { ip: fall, stack: s.stack.drop_last().drop_last().push(r), ..s },
                    ),
                    None => StepResult::Faulted(Fault::ArithmeticOverflow, s),
                }
            }
        },
        Instruction::Sub => {
            if n < 2 {
                StepResult::Faulted(Fault::StackUnderflow, s)
            } else {
                let a = s.stack.last();
                let b = s.stack[n - 2];
                match b.checked_sub(a) {
                    Some(r) => StepResult::Next(
                        MState { ip: fall, stack: s.stack.drop_last().drop_last().push(r), ..s },
                    ),
                    None => StepResult::Faulted(Fault::ArithmeticOverflow, s),
                }
            }
        },
        Instruction::Mul => {
            if n < 2 {
                StepResult::Faulted(Fault::StackUnderflow, s)
            } else {
                let a = s.stack.last();
                let b = s.stack[n - 2];
                match b.checked_mul(a) {
                    Some(r) => StepResult::Next(
                        MState { ip: fall, stack: s.stack.drop_last().drop_last().push(r), ..s },
                    ),
                    None => StepResult::Faulted(Fault::ArithmeticOverflow, s),
                }
            }
        },
        Instruction::Div => {
            if n < 2 {
                StepResult::Faulted(Fault::StackUnderflow, s)
            } else {
                let a = s.stack.last();
                let b = s.stack[n - 2];
                if a == 0 {
                    StepResult::Faulted(Fault::DivisionByZero, s)
                } else {
                    match b.checked_div(a) {
                        Some(r) => StepResult::Next(
                            MState {
                                ip: fall,
                                stack: s.stack.drop_last().drop_last().push(r),
                                ..s
                            },
                        ),
                        None => StepResult::Faulted(Fault::ArithmeticOverflow, s),
                    }
                }
            }
        },
        Instruction::Incr => {
            if n == 0 {
                StepResult::Faulted(Fault::StackUnderflow, s)
            } else {
                match s.stack.last().checked_add(1) {
                    Some(r) => StepResult::Next(
                        MState { ip: fall, stack: s.stack.update(n - 1, r), ..s },
                    ),
                    None => StepResult::Faulted(Fault::ArithmeticOverflow, s),
                }
            }
        },
        Instruction::Decr => {
            if n == 0 {
                StepResult::Faulted(Fault::StackUnderflow, s)
            } else {
                match s.stack.last().checked_sub(1) {
                    Some(r) => StepResult::Next(
                        MState { ip: fall, stack: s.stack.update(n - 1, r), ..s },
                    ),
                    None => StepResult::Faulted(Fault::ArithmeticOverflow, s),
                }
            }
        },
        Instruction::Jump(t) => StepResult::Next(MState { ip: t as int, ..s }),
        Instruction::JE(t) => cond_jump(s, fall, t as int, s.stack.last() == 0),
        Instruction::JNE(t) => cond_jump(s, fall, t as int, s.stack.last() != 0),
        Instruction::JGT(t) => cond_jump(s, fall, t as int, s.stack.last() > 0),
        Instruction::JLT(t) => cond_jump(s, fall, t as int, s.stack.last() < 0),
        Instruction::JGE(t) => cond_jump(s, fall, t as int, s.stack.last() >= 0),
        Instruction::JLE(t) => cond_jump(s, fall, t as int, s.stack.last() <= 0),
        Instruction::Get(i) => {
            let idx = frame_base(s) + i;
            if 0 <= idx < n {
                StepResult::Next(MState { ip: fall, stack: s.stack.push(s.stack[idx]), ..s })
            } else {
                StepResult::Faulted(Fault::IndexOutOfRange, s)
            }
        },
        Instruction::SetIdx(i) => {
            let idx = frame_base(s) + i;
            if 0 <= idx < n {
                StepResult::Next(
                    MState { ip: fall, stack: s.stack.update(idx, s.stack.last()), ..s },
                )
            } else {
                StepResult::Faulted(Fault::IndexOutOfRange, s)
            }
        },
        Instruction::GetArg(i) => {
            if s.frames.len() == 0 {
                StepResult::Faulted(Fault::CallStackUnderflow, s)
            } else {
                let idx = s.frames.last().0 - 1 - i;
                if 0 <= idx < n {
                    StepResult::Next(
                        MState { ip: fall, stack: s.stack.push(s.stack[idx]), ..s },
                    )
                } else {
                    StepResult::Faulted(Fault::IndexOutOfRange, s)
                }
            }
        },
        Instruction::SetArg(i) => {
            if s.frames.len() == 0 {
                StepResult::Faulted(Fault::CallStackUnderflow, s)
            } else {
                let idx = s.frames.last().0 - 1 - i;
                if idx < 0 {
                    StepResult::Faulted(Fault::IndexOutOfRange, s)
                } else if n == 0 {
                    StepResult::Faulted(Fault::StackUnderflow, s)
                } else if idx >= n {
                    StepResult::Faulted(Fault::IndexOutOfRange, s)
                } else {
                    StepResult::Next(
                        MState { ip: fall, stack: s.stack.update(idx, s.stack.last()), ..s },
                    )
                }
            }
        },
        Instruction::Noop => StepResult::Next(MState { ip: fall, ..s }),
        Instruction::Print => {
            if n == 0 {
                StepResult::Faulted(Fault::StackUnderflow, s)
            } else {
                StepResult::Next(
                    MState { ip: fall, out: s.out + dec_str(s.stack.last() as int), ..s },
                )
            }
        },
        Instruction::PrintC => {
            if n == 0 {
                StepResult::Faulted(Fault::StackUnderflow, s)
            } else {
                StepResult::Next(
                    MState { ip: fall, out: s.out.push(low_byte_char(s.stack.last())), ..s },
                )
            }
        },
        Instruction::PrintStack => StepResult::Next(
            MState { ip: fall, out: s.out + stack_repr(s.stack), ..s },
        ),
        Instruction::Call(t) => StepResult::Next(
            MState { ip: t as int, frames: s.frames.push((n, fall)), ..s },
        ),
        Instruction::Ret => {
            if s.frames.len() == 0 {
                StepResult::Faulted(Fault::CallStackUnderflow, s)
            } else {
                StepResult::Next(
                    MState { ip: s.frames.last().1, frames: s.frames.drop_last(), ..s },
                )
            }
        },
    }
}

/// A conditional jump: peek the top value; when the predicate holds, pop
/// it and jump, else fall through leaving the value in place.
pub open spec fn cond_jump(s: MState, fall: int, target: int, taken: bool) -> StepResult {
    if s.stack.len() == 0 {
        StepResult::Faulted(Fault::StackUnderflow, s)
    } else if taken {
        StepResult::Next(MState { ip: target, stack: s.stack.drop_last(), ..s })
    } else {
        StepResult::Next(MState { ip: fall, ..s })
    }
}

/// One step of the tagged engine: halt when the position is past the end,
/// else apply the instruction at the position with fall-through one ahead.
pub open spec fn step(p: Seq<Instruction>, s: MState) -> StepResult {
    if 0 <= s.ip < p.len() {
        apply_instr(p[s.ip], s.ip + 1, s)
    } else {
        StepResult::Halted(s)
    }
}

/// `n` steps of the tagged engine, stopping early at a halt or a fault.
pub open spec fn run_n(p: Seq<Instruction>, s: MState, n: nat) -> StepResult
    decreases n,
{
    if n == 0 {
        StepResult::Next(s)
    } else {
        match step(p, s) {
            StepResult::Next(s2) => run_n(p, s2, (n - 1) as nat),
            r => r,
        }
    }
}

/// Iteration unrolled at the far end: `n + 1` steps are `n` steps followed
/// by one more, unless the run already ended.
pub proof fn lemma_run_n_snoc(p: Seq<Instruction>, s: MState, n: nat)
    ensures
        run_n(p, s, n + 1) == (match run_n(p, s, n) {
            StepResult::Next(s2) => step(p, s2),
            r => r,
        }),
    decreases n,
{
    reveal_with_fuel(run_n, 2);
    if n > 0 {
        match step(p, s) {
            StepResult::Next(s2) => {
                lemma_run_n_snoc(p, s2, (n - 1) as nat);
            },
            _ => {},
        }
    }
}

/// A halt or a fault is absorbing: more steps change nothing.
pub proof fn lemma_run_n_stable(p: Seq<Instruction>, s: MState, n: nat, m: nat)
    requires
        n <= m,
        !(run_n(p, s, n) is Next),
    ensures
        run_n(p, s, m) == run_n(p, s, n),
    decreases m - n,
{
    if n < m {
        lemma_run_n_snoc(p, s, (m - 1) as nat);
        lemma_run_n_stable(p, s, n, (m - 1) as nat);
    }
}

} // verus!
