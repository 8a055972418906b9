//! The execution engine over tagged instructions: a machine value holding
//! the live state, a single-step function, and a bounded run loop.  Each
//! is proved to follow the model in `machine` exactly.

use vstd::prelude::*;
use crate::fmt::{push_dec_i64, push_low_byte_char, push_stack_repr};
use crate::instr::{Fault, Instruction};
use crate::machine::{
    apply_instr, init_state, lemma_run_n_snoc, lemma_run_n_stable, run_n, step, MState,
    StepResult,
};
use crate::stack::{Stack, StackFrame};

verus! {

/// The live state of a running machine: the current position, the operand
/// stack, the call frames, and the output written so far.
pub struct Vm {
    pub ip: usize,
    pub stack: Stack,
    pub frames: Vec<StackFrame>,
    pub output: Vec<char>,
}

/// The frame records as the model sees them.
pub open spec fn frames_view(fs: Seq<StackFrame>) -> Seq<(int, int)> {
    fs.map_values(|f: StackFrame| (f.stack_offset as int, f.ip as int))
}

impl View for Vm {
    type V = MState;

    open spec fn view(&self) -> MState {
        MState {
            ip: self.ip as int,
            stack: self.stack@,
            frames: frames_view(self.frames@),
            out: self.output@,
        }
    }
}

/// What one step or a bounded run reports: still running, halted past the
/// program's end, or stopped at a fatal fault.
#[derive(Clone, Copy, Debug, PartialEq, Eq, Structural)]
pub enum Status {
    Running,
    Halted,
    Faulted(Fault),
}

/// How a step result of the model shows up as a status and a machine state.
pub open spec fn status_matches(r: StepResult, st: Status, m: MState) -> bool {
    match r {
        StepResult::Next(s2) => st == Status::Running && m == s2,
        StepResult::Halted(s2) => st == Status::Halted && m == s2,
        StepResult::Faulted(f, s2) => st == (Status::Faulted(f)) && m == s2,
    }
}

impl Vm {
    /// A machine at the start of execution: position 0, everything empty.
    pub fn new() -> (vm: Vm)
        ensures
            vm@ == init_state(),
    {
        let vm = Vm { ip: 0, stack: Stack::new(), frames: Vec::new(), output: Vec::new() };
        proof {
            assert(frames_view(vm.frames@) =~= Seq::<(int, int)>::empty());
            assert(vm@ =~= init_state());
        }
        vm
    }

    /// The frame-relative addressing base: the innermost frame's recorded
    /// offset, or 0 outside any call.
    fn base(&self) -> (b: usize)
        ensures
            b == crate::machine::frame_base(self@),
    {
        if self.frames.len() == 0 {
            0
        } else {
            self.frames[self.frames.len() - 1].stack_offset
        }
    }

    /// Perform one already-fetched instruction.  `fall` is the position of
    /// the next instruction in program order.
    pub(crate) fn apply(&mut self, ins: Instruction, fall: usize) -> (st: Status)
        ensures
            status_matches(apply_instr(ins, fall as int, old(self)@), st, final(self)@),
    {
        let ghost pre = self@;
        match ins {
            Instruction::Push(v) => {
                self.stack.push(v);
                self.ip = fall;
                proof {
                    assert(self@ =~= (MState { ip: fall as int, stack: pre.stack.push(v), ..pre }));
                }
                Status::Running
            },
            Instruction::Pop => {
                if self.stack.len() == 0 {
                    Status::Faulted(Fault::StackUnderflow)
                } else {
                    self.stack.pop();
                    self.ip = fall;
                    proof {
                        assert(self@ =~= (MState {
                            ip: fall as int,
                            stack: pre.stack.drop_last(),
                            ..pre
                        }));
                    }
                    Status::Running
                }
            },
            Instruction::Add => self.arith(fall, 0),
            Instruction::Sub => self.arith(fall, 1),
            Instruction::Mul => self.arith(fall, 2),
            Instruction::Div => self.arith(fall, 3),
            Instruction::Incr => {
                if self.stack.len() == 0 {
                    Status::Faulted(Fault::StackUnderflow)
                } else {
                    let t = self.stack.peek();
                    match t.checked_add(1) {
                        Some(r) => {
                            let p = self.stack.peek_mut();
                            *p = r;
                            self.ip = fall;
                            proof {
                                assert(self@ =~= (MState {
                                    ip: fall as int,
                                    stack: pre.stack.update(pre.stack.len() - 1, r),
                                    ..pre
                                }));
                            }
                            Status::Running
                        },
                        None => Status::Faulted(Fault::ArithmeticOverflow),
                    }
                }
            },
            Instruction::Decr => {
                if self.stack.len() == 0 {
                    Status::Faulted(Fault::StackUnderflow)
                } else {
                    let t = self.stack.peek();
                    match t.checked_sub(1) {
                        Some(r) => {
                            let p = self.stack.peek_mut();
                            *p = r;
                            self.ip = fall;
                            proof {
                                assert(self@ =~= (MState {
                                    ip: fall as int,
                                    stack: pre.stack.update(pre.stack.len() - 1, r),
                                    ..pre
                                }));
                            }
                            Status::Running
                        },
                        None => Status::Faulted(Fault::ArithmeticOverflow),
                    }
                }
            },
            Instruction::Jump(t) => {
                self.ip = t;
                proof {
                    assert(self@ =~= (MState { ip: t as int, ..pre }));
                }
                Status::Running
            },
            Instruction::JE(t) => self.cond_jump(fall, t, 0),
            Instruction::JNE(t) => self.cond_jump(fall, t, 1),
            Instruction::JGT(t) => self.cond_jump(fall, t, 2),
            Instruction::JLT(t) => self.cond_jump(fall, t, 3),
            Instruction::JGE(t) => self.cond_jump(fall, t, 4),
            Instruction::JLE(t) => self.cond_jump(fall, t, 5),
            Instruction::Get(i) => {
                let base = self.base();
                let len = self.stack.len();
                if i < len && base < len - i {
                    let v = *self.stack.get(base + i);
                    self.stack.push(v);
                    self.ip = fall;
                    proof {
                        assert(self@ =~= (MState {
                            ip: fall as int,
                            stack: pre.stack.push(pre.stack[base + i]),
                            ..pre
                        }));
                    }
                    Status::Running
                } else {
                    Status::Faulted(Fault::IndexOutOfRange)
                }
            },
            Instruction::SetIdx(i) => {
                let base = self.base();
                let len = self.stack.len();
                if i < len && base < len - i {
                    let top = self.stack.peek();
                    let p = self.stack.get_mut(base + i);
                    *p = top;
                    self.ip = fall;
                    proof {
                        assert(self@ =~= (MState {
                            ip: fall as int,
                            stack: pre.stack.update(base + i, pre.stack.last()),
                            ..pre
                        }));
                    }
                    Status::Running
                } else {
                    Status::Faulted(Fault::IndexOutOfRange)
                }
            },
            Instruction::GetArg(i) => {
                if self.frames.len() == 0 {
                    Status::Faulted(Fault::CallStackUnderflow)
                } else {
                    let base = self.frames[self.frames.len() - 1].stack_offset;
                    let len = self.stack.len();
                    if i < base && base - 1 - i < len {
                        let v = *self.stack.get(base - 1 - i);
                        self.stack.push(v);
                        self.ip = fall;
                        proof {
                            assert(self@ =~= (MState {
                                ip: fall as int,
                                stack: pre.stack.push(pre.stack[base - 1 - i]),
                                ..pre
                            }));
                        }
                        Status::Running
                    } else {
                        Status::Faulted(Fault::IndexOutOfRange)
                    }
                }
            },
            Instruction::SetArg(i) => {
                if self.frames.len() == 0 {
                    Status::Faulted(Fault::CallStackUnderflow)
                } else {
                    let base = self.frames[self.frames.len() - 1].stack_offset;
                    let len = self.stack.len();
                    if !(i < base) {
                        Status::Faulted(Fault::IndexOutOfRange)
                    } else if len == 0 {
                        Status::Faulted(Fault::StackUnderflow)
                    } else if !(base - 1 - i < len) {
                        Status::Faulted(Fault::IndexOutOfRange)
                    } else {
                        let top = self.stack.peek();
                        let p = self.stack.get_mut(base - 1 - i);
                        *p = top;
                        self.ip = fall;
                        proof {
                            assert(self@ =~= (MState {
                                ip: fall as int,
                                stack: pre.stack.update(base - 1 - i, pre.stack.last()),
                                ..pre
                            }));
                        }
                        Status::Running
                    }
                }
            },
            Instruction::Noop => {
                self.ip = fall;
                proof {
                    assert(self@ =~= (MState { ip: fall as int, ..pre }));
                }
                Status::Running
            },
            Instruction::Print => {
                if self.stack.len() == 0 {
                    Status::Faulted(Fault::StackUnderflow)
                } else {
                    let t = self.stack.peek();
                    push_dec_i64(t, &mut self.output);
                    self.ip = fall;
                    proof {
                        assert(self@ =~= (MState {
                            ip: fall as int,
                            out: pre.out + crate::fmt::dec_str(pre.stack.last() as int),
                            ..pre
                        }));
                    }
                    Status::Running
                }
            },
            Instruction::PrintC => {
                if self.stack.len() == 0 {
                    Status::Faulted(Fault::StackUnderflow)
                } else {
                    let t = self.stack.peek();
                    push_low_byte_char(t, &mut self.output);
                    self.ip = fall;
                    proof {
                        assert(self@ =~= (MState {
                            ip: fall as int,
                            out: pre.out.push(crate::fmt::low_byte_char(pre.stack.last())),
                            ..pre
                        }));
                    }
                    Status::Running
                }
            },
            Instruction::PrintStack => {
                push_stack_repr(&self.stack.0, &mut self.output);
                self.ip = fall;
                proof {
                    assert(self@ =~= (MState {
                        ip: fall as int,
                        out: pre.out + crate::fmt::stack_repr(pre.stack),
                        ..pre
                    }));
                }
                Status::Running
            },
            Instruction::Call(t) => {
                let frame = StackFrame { stack_offset: self.stack.len(), ip: fall };
                self.frames.push(frame);
                self.ip = t;
                proof {
                    assert(frames_view(self.frames@) =~= pre.frames.push(
                        (pre.stack.len() as int, fall as int),
                    ));
                    assert(self@ =~= (MState {
                        ip: t as int,
                        frames: pre.frames.push((pre.stack.len() as int, fall as int)),
                        ..pre
                    }));
                }
                Status::Running
            },
            Instruction::Ret => {
                if self.frames.len() == 0 {
                    Status::Faulted(Fault::CallStackUnderflow)
                } else {
                    let frame = self.frames[self.frames.len() - 1];
                    self.frames.pop();
                    self.ip = frame.ip;
                    proof {
                        assert(frames_view(old(self).frames@.drop_last()) =~= frames_view(
                            old(self).frames@,
                        ).drop_last());
                        assert(self@ =~= (MState {
                            ip: pre.frames.last().1,
                            frames: pre.frames.drop_last(),
                            ..pre
                        }));
                    }
                    Status::Running
                }
            },
        }
    }

    /// A binary arithmetic instruction: peek the two topmost values, test
    /// the result, and only then replace them by it.  `op` selects among
    /// add, subtract, multiply and divide.
    fn arith(&mut self, fall: usize, op: u8) -> (st: Status)
        requires
            op < 4,
        ensures
            status_matches(
                apply_instr(
                    if op == 0 {
                        Instruction::Add
                    } else if op == 1 {
                        Instruction::Sub
                    } else if op == 2 {
                        Instruction::Mul
                    } else {
                        Instruction::Div
                    },
                    fall as int,
                    old(self)@,
                ),
                st,
                final(self)@,
            ),
    {
        let ghost pre = self@;
        let len = self.stack.len();
        if len < 2 {
            return Status::Faulted(Fault::StackUnderflow);
        }
        let a = self.stack.peek();
        let b = *self.stack.get(len - 2);
        if op == 3 && a == 0 {
            return Status::Faulted(Fault::DivisionByZero);
        }
        let r = if op == 0 {
            b.checked_add(a)
        } else if op == 1 {
            b.checked_sub(a)
        } else if op == 2 {
            b.checked_mul(a)
        } else {
            b.checked_div(a)
        };
        match r {
            Some(v) => {
                self.stack.pop();
                self.stack.pop();
                self.stack.push(v);
                self.ip = fall;
                proof {
                    assert(self@ =~= (MState {
                        ip: fall as int,
                        stack: pre.stack.drop_last().drop_last().push(v),
                        ..pre
                    }));
                }
                Status::Running
            },
            None => Status::Faulted(Fault::ArithmeticOverflow),
        }
    }

    /// A conditional jump: peek the top value; when the predicate selected
    /// by `cond` holds, pop it and jump to `t`, else fall through.
    fn cond_jump(&mut self, fall: usize, t: usize, cond: u8) -> (st: Status)
        requires
            cond < 6,
        ensures
            status_matches(
                apply_instr(
                    if cond == 0 {
                        Instruction::JE(t)
                    } else if cond == 1 {
                        Instruction::JNE(t)
                    } else if cond == 2 {
                        Instruction::JGT(t)
                    } else if cond == 3 {
                        Instruction::JLT(t)
                    } else if cond == 4 {
                        Instruction::JGE(t)
                    } else {
                        Instruction::JLE(t)
                    },
                    fall as int,
                    old(self)@,
                ),
                st,
                final(self)@,
            ),
    {
        let ghost pre = self@;
        if self.stack.len() == 0 {
            return Status::Faulted(Fault::StackUnderflow);
        }
        let top = self.stack.peek();
        let taken = if cond == 0 {
            top == 0
        } else if cond == 1 {
            top != 0
        } else if cond == 2 {
            top > 0
        } else if cond == 3 {
            top < 0
        } else if cond == 4 {
            top >= 0
        } else {
            top <= 0
        };
        if taken {
            self.stack.pop();
            self.ip = t;
            proof {
                assert(self@ =~= (MState { ip: t as int, stack: pre.stack.drop_last(), ..pre }));
            }
        } else {
            self.ip = fall;
            proof {
                assert(self@ =~= (MState { ip: fall as int, ..pre }));
            }
        }
        Status::Running
    }

    /// One step against `program`: halt when the position is past the end,
    /// else perform the instruction there.
    pub fn step(&mut self, program: &Vec<Instruction>) -> (st: Status)
        ensures
            status_matches(step(program@, old(self)@), st, final(self)@),
    {
        if self.ip >= program.len() {
            return Status::Halted;
        }
        let ins = program[self.ip];
        let fall = self.ip + 1;
        self.apply(ins, fall)
    }

    /// Run at most `fuel` steps against `program`.  Reports `Running` when
    /// the bound was reached with the program neither halted nor faulted;
    /// the machine then stands exactly `fuel` steps further and the run can
    /// be resumed.
    pub fn run(&mut self, program: &Vec<Instruction>, fuel: u64) -> (st: Status)
        ensures
            status_matches(run_n(program@, old(self)@, fuel as nat), st, final(self)@),
    {
        let ghost s0 = self@;
        let mut k: u64 = 0;
        while k < fuel
            invariant
                k <= fuel,
                s0 == old(self)@,
                run_n(program@, s0, k as nat) == StepResult::Next(self@),
            decreases fuel - k,
        {
            let ghost pre = self@;
            let st = self.step(program);
            proof {
                lemma_run_n_snoc(program@, s0, k as nat);
            }
            match st {
                Status::Running => {
                    k = k + 1;
                },
                _ => {
                    proof {
                        lemma_run_n_stable(program@, s0, (k + 1) as nat, fuel as nat);
                    }
                    return st;
                },
            }
        }
        Status::Running
    }
}

/// What a finished bounded run reports: the status together with the final
/// operand stack and the output written.
pub struct RunResult {
    pub status: Status,
    pub stack: Vec<i64>,
    pub output: Vec<char>,
}

/// How a step result of the model shows up as a reported run result.
pub open spec fn result_matches(r: StepResult, res: RunResult) -> bool {
    match r {
        StepResult::Next(s) => res.status == Status::Running && res.stack@ == s.stack
            && res.output@ == s.out,
        StepResult::Halted(s) => res.status == Status::Halted && res.stack@ == s.stack
            && res.output@ == s.out,
        StepResult::Faulted(f, s) => res.status == (Status::Faulted(f)) && res.stack@ == s.stack
            && res.output@ == s.out,
    }
}

/// Assemble-and-go entry point for tagged instructions: run a fresh
/// machine for at most `fuel` steps and report what it reached.
pub fn interpret_tagged(program: &Vec<Instruction>, fuel: u64) -> (res: RunResult)
    ensures
        result_matches(run_n(program@, init_state(), fuel as nat), res),
{
    let mut vm = Vm::new();
    let status = vm.run(program, fuel);
    RunResult { status, stack: vm.stack.into_vec(), output: vm.output }
}

} // verus!
