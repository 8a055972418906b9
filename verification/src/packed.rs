//! Execution of packed bytecode: decoding of one instruction at a byte
//! position, the packed step, and the engine loop over it.  Decoding is
//! proved to invert the lowering in `code`, which the simulation argument
//! in `equiv` builds on.

use vstd::prelude::*;
use crate::bytes::{be_val, lemma_be_bytes_val, lemma_bits_roundtrip, p256, read_be_u64, u64_bits_to_i64};
use crate::code::{enc, enc_prog, lemma_enc_at, lemma_enc_len, lemma_end_byte, lemma_off_mono, off, opcode, operand_bits, retarget, targets_ok, END_BYTE};
use crate::engine::{result_matches, status_matches, RunResult, Status, Vm};
use crate::instr::{Fault, Instruction};
use crate::machine::{apply_instr, init_state, MState, StepResult};

verus! {

/// What decoding at a byte position yields: an instruction and its width,
/// the terminator, or nothing meaningful.
pub enum Decoded {
    Ready(Instruction, int),
    Terminator,
    Malformed,
}

/// True of the discriminant bytes of instructions that carry no operand.
pub open spec fn is_plain_opcode(b: u8) -> bool {
    (1 <= b <= 7) || (19 <= b <= 22) || b == 24
}

/// True of the discriminant bytes of instructions whose operand is a
/// position or an index (every operand-carrying opcode except `Push`).
pub open spec fn is_pos_opcode(b: u8) -> bool {
    (8 <= b <= 18) || b == 23
}

/// The operand-free instruction a discriminant byte stands for.
pub open spec fn plain_instr(b: u8) -> Instruction {
    if b == 1 {
        Instruction::Pop
    } else if b == 2 {
        Instruction::Add
    } else if b == 3 {
        Instruction::Sub
    } else if b == 4 {
        Instruction::Incr
    } else if b == 5 {
        Instruction::Decr
    } else if b == 6 {
        Instruction::Mul
    } else if b == 7 {
        Instruction::Div
    } else if b == 19 {
        Instruction::Noop
    } else if b == 20 {
        Instruction::Print
    } else if b == 21 {
        Instruction::PrintC
    } else if b == 22 {
        Instruction::PrintStack
    } else {
        Instruction::Ret
    }
}

/// The position- or index-carrying instruction a discriminant byte stands
/// for, with its decoded operand.
pub open spec fn pos_instr(b: u8, t: usize) -> Instruction {
    if b == 8 {
        Instruction::Jump(t)
    } else if b == 9 {
        Instruction::JE(t)
    } else if b == 10 {
        Instruction::JNE(t)
    } else if b == 11 {
        Instruction::JGT(t)
    } else if b == 12 {
        Instruction::JLT(t)
    } else if b == 13 {
        Instruction::JGE(t)
    } else if b == 14 {
        Instruction::JLE(t)
    } else if b == 15 {
        Instruction::Get(t)
    } else if b == 16 {
        Instruction::SetIdx(t)
    } else if b == 17 {
        Instruction::GetArg(t)
    } else if b == 18 {
        Instruction::SetArg(t)
    } else {
        Instruction::Call(t)
    }
}

/// Decode the instruction that starts at byte position `ip`.
pub open spec fn decode_at(code: Seq<u8>, ip: int) -> Decoded {
    if !(0 <= ip < code.len()) {
        Decoded::Malformed
    } else {
        let b = code[ip];
        if b == END_BYTE {
            Decoded::Terminator
        } else if b == 0 {
            if ip + 9 <= code.len() {
                Decoded::Ready(
                    Instruction::Push(
                        u64_bits_to_i64(be_val(code.subrange(ip + 1, ip + 9)) as u64),
                    ),
                    9,
                )
            } else {
                Decoded::Malformed
            }
        } else if is_pos_opcode(b) {
            if ip + 9 <= code.len() {
                let u = be_val(code.subrange(ip + 1, ip + 9));
                if u <= usize::MAX {
                    Decoded::Ready(pos_instr(b, u as usize), 9)
                } else {
                    Decoded::Malformed
                }
            } else {
                Decoded::Malformed
            }
        } else if is_plain_opcode(b) {
            Decoded::Ready(plain_instr(b), 1)
        } else {
            Decoded::Malformed
        }
    }
}

/// One step of the packed engine: halt on the terminator byte, stop at a
/// fault on anything undecodable, else apply the decoded instruction.
pub open spec fn pstep(code: Seq<u8>, s: MState) -> StepResult {
    match decode_at(code, s.ip) {
        Decoded::Terminator => StepResult::Halted(s),
        Decoded::Malformed => StepResult::Faulted(Fault::InvalidBytecode, s),
        Decoded::Ready(ins, sz) => apply_instr(ins, s.ip + sz, s),
    }
}

/// `n` steps of the packed engine, stopping early at a halt or a fault.
pub open spec fn prun_n(code: Seq<u8>, s: MState, n: nat) -> StepResult
    decreases n,
{
    if n == 0 {
        StepResult::Next(s)
    } else {
        match pstep(code, s) {
            StepResult::Next(s2) => prun_n(code, s2, (n - 1) as nat),
            r => r,
        }
    }
}

/// Iteration unrolled at the far end, as for the tagged engine.
pub proof fn lemma_prun_n_snoc(code: Seq<u8>, s: MState, n: nat)
    ensures
        prun_n(code, s, n + 1) == (match prun_n(code, s, n) {
            StepResult::Next(s2) => pstep(code, s2),
            r => r,
        }),
    decreases n,
{
    reveal_with_fuel(prun_n, 2);
    if n > 0 {
        match pstep(code, s) {
            StepResult::Next(s2) => {
                lemma_prun_n_snoc(code, s2, (n - 1) as nat);
            },
            _ => {},
        }
    }
}

/// A halt or a fault is absorbing, as for the tagged engine.
pub proof fn lemma_prun_n_stable(code: Seq<u8>, s: MState, n: nat, m: nat)
    requires
        n <= m,
        !(prun_n(code, s, n) is Next),
    ensures
        prun_n(code, s, m) == prun_n(code, s, n),
    decreases m - n,
{
    if n < m {
        lemma_prun_n_snoc(code, s, (m - 1) as nat);
        lemma_prun_n_stable(code, s, n, (m - 1) as nat);
    }
}

/// Decoding the packed program at instruction `i`'s byte offset yields
/// exactly that instruction, its positional operand in byte space, with
/// its width.
pub proof fn lemma_decode_enc(p: Seq<Instruction>, i: int)
    requires
        0 <= i < p.len(),
        targets_ok(p),
        off(p, p.len() as int) < usize::MAX,
    ensures
        decode_at(enc_prog(p), off(p, i)) == Decoded::Ready(
            retarget(p[i], p),
            p[i].packed_size(),
        ),
{
    lemma_enc_at(p, i);
    lemma_enc_len(p[i], p);
    lemma_off_mono(p, 0, i);
    lemma_off_mono(p, i + 1, p.len() as int);
    let code = enc_prog(p);
    let a = off(p, i);
    let r = retarget(p[i], p);
    let e = enc(r);
    assert(code[a] == e[0]) by {
        assert(code.subrange(a, a + p[i].packed_size())[0] == code[a]);
    }
    assert(e[0] == opcode(r));
    if p[i].has_operand() {
        assert(code.subrange(a + 1, a + 9) =~= be_bytes_of(r)) by {
            assert forall|k: int| 0 <= k < 8 implies code.subrange(a + 1, a + 9)[k]
                == be_bytes_of(r)[k] by {
                assert(code.subrange(a, a + 9)[k + 1] == code[a + k + 1]);
                assert(e[k + 1] == be_bytes_of(r)[k]);
            }
        }
        reveal_with_fuel(p256, 9);
        lemma_be_bytes_val(operand_bits(r) as nat, 8);
        assert(be_val(code.subrange(a + 1, a + 9)) == operand_bits(r));
        match p[i] {
            Instruction::Push(v) => {
                lemma_bits_roundtrip(v);
            },
            _ => {
                assert(operand_bits(r) <= usize::MAX);
            },
        }
    }
}

/// The eight operand bytes of an operand-carrying instruction.
pub open spec fn be_bytes_of(r: Instruction) -> Seq<u8> {
    crate::bytes::be_bytes(operand_bits(r) as nat, 8)
}

/// Decoding at the byte offset just past the last instruction meets the
/// terminator.
pub proof fn lemma_decode_end(p: Seq<Instruction>)
    ensures
        decode_at(enc_prog(p), off(p, p.len() as int)) == Decoded::Terminator,
{
    lemma_end_byte(p);
    lemma_off_mono(p, 0, p.len() as int);
}

impl Vm {
    /// One step against packed bytecode: halt on the terminator byte,
    /// fault on anything undecodable, else perform the decoded
    /// instruction.
    pub fn step_packed(&mut self, code: &Vec<u8>) -> (st: Status)
        ensures
            status_matches(pstep(code@, old(self)@), st, final(self)@),
    {
        let n = code.len();
        if self.ip >= n {
            return Status::Faulted(Fault::InvalidBytecode);
        }
        let b = code[self.ip];
        if b == END_BYTE {
            return Status::Halted;
        }
        if b == 0 {
            if n - self.ip < 9 {
                return Status::Faulted(Fault::InvalidBytecode);
            }
            let u = read_be_u64(code, self.ip + 1);
            let v = 0i64.wrapping_add_unsigned(u);
            assert(v == u64_bits_to_i64(u));
            let fall = self.ip + 9;
            self.apply(Instruction::Push(v), fall)
        } else if (b >= 8 && b <= 18) || b == 23 {
            if n - self.ip < 9 {
                return Status::Faulted(Fault::InvalidBytecode);
            }
            let u = read_be_u64(code, self.ip + 1);
            if u > usize::MAX as u64 {
                return Status::Faulted(Fault::InvalidBytecode);
            }
            let t = u as usize;
            let ins = if b == 8 {
                Instruction::Jump(t)
            } else if b == 9 {
                Instruction::JE(t)
            } else if b == 10 {
                Instruction::JNE(t)
            } else if b == 11 {
                Instruction::JGT(t)
            } else if b == 12 {
                Instruction::JLT(t)
            } else if b == 13 {
                Instruction::JGE(t)
            } else if b == 14 {
                Instruction::JLE(t)
            } else if b == 15 {
                Instruction::Get(t)
            } else if b == 16 {
                Instruction::SetIdx(t)
            } else if b == 17 {
                Instruction::GetArg(t)
            } else if b == 18 {
                Instruction::SetArg(t)
            } else {
                Instruction::Call(t)
            };
            assert(ins == pos_instr(b, t));
            let fall = self.ip + 9;
            self.apply(ins, fall)
        } else if (b >= 1 && b <= 7) || (b >= 19 && b <= 22) || b == 24 {
            let ins = if b == 1 {
                Instruction::Pop
            } else if b == 2 {
                Instruction::Add
            } else if b == 3 {
                Instruction::Sub
            } else if b == 4 {
                Instruction::Incr
            } else if b == 5 {
                Instruction::Decr
            } else if b == 6 {
                Instruction::Mul
            } else if b == 7 {
                Instruction::Div
            } else if b == 19 {
                Instruction::Noop
            } else if b == 20 {
                Instruction::Print
            } else if b == 21 {
                Instruction::PrintC
            } else if b == 22 {
                Instruction::PrintStack
            } else {
                Instruction::Ret
            };
            assert(ins == plain_instr(b));
            let fall = self.ip + 1;
            self.apply(ins, fall)
        } else {
            Status::Faulted(Fault::InvalidBytecode)
        }
    }

    /// Run at most `fuel` steps against packed bytecode.
    pub fn run_packed(&mut self, code: &Vec<u8>, fuel: u64) -> (st: Status)
        ensures
            status_matches(prun_n(code@, old(self)@, fuel as nat), st, final(self)@),
    {
        let ghost s0 = self@;
        let mut k: u64 = 0;
        while k < fuel
            invariant
                k <= fuel,
                s0 == old(self)@,
                prun_n(code@, s0, k as nat) == StepResult::Next(self@),
            decreases fuel - k,
        {
            let ghost pre = self@;
            let st = self.step_packed(code);
            proof {
                lemma_prun_n_snoc(code@, s0, k as nat);
            }
            match st {
                Status::Running => {
                    k = k + 1;
                },
                _ => {
                    proof {
                        lemma_prun_n_stable(code@, s0, (k + 1) as nat, fuel as nat);
                    }
                    return st;
                },
            }
        }
        Status::Running
    }
}

/// Assemble-and-go entry point for packed bytecode: run a fresh machine
/// on `code` for at most `fuel` steps and report what it reached.
pub fn interpret(code: &Vec<u8>, fuel: u64) -> (res: RunResult)
    ensures
        result_matches(prun_n(code@, init_state(), fuel as nat), res),
{
    let mut vm = Vm::new();
    let status = vm.run_packed(code, fuel);
    RunResult { status, stack: vm.stack.into_vec(), output: vm.output }
}

} // verus!
