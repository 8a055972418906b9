//! Packed execution simulates tagged execution.  States of the two
//! engines correspond through the position table: each byte position
//! is the byte offset of its instruction position, while stacks,
//! frame offsets and output agree exactly.  One step of either engine
//! keeps the correspondence, so the two runs of one program produce the
//! same output, the same final stack, and the same fault, step for step.

use vstd::prelude::*;
use crate::code::{enc_prog, lemma_off_mono, off, retarget, target_ok, targets_ok};
use crate::instr::Instruction;
use crate::engine::{result_matches, RunResult};
use crate::machine::{init_state, run_n, step, MState, StepResult};
use crate::packed::{lemma_decode_enc, lemma_decode_end, prun_n, pstep};

verus! {

/// Call frames correspond when they pair the same offsets with return
/// positions carried over from instruction space to byte space.
pub open spec fn frames_corr(p: Seq<Instruction>, tf: Seq<(int, int)>, pf: Seq<(int, int)>) -> bool {
    &&& pf.len() == tf.len()
    &&& forall|k: int|
        0 <= k < tf.len() ==> {
            &&& pf[k].0 == (#[trigger] tf[k]).0
            &&& 0 <= tf[k].1 <= p.len()
            &&& pf[k].1 == off(p, tf[k].1)
        }
}

/// A packed state corresponds to a tagged state when its position is the
/// matching byte offset and everything else agrees.
pub open spec fn state_corr(p: Seq<Instruction>, ts: MState, ps: MState) -> bool {
    &&& 0 <= ts.ip <= p.len()
    &&& ps.ip == off(p, ts.ip)
    &&& ps.stack == ts.stack
    &&& ps.out == ts.out
    &&& frames_corr(p, ts.frames, ps.frames)
}

/// Step results correspond when both continue in corresponding states,
/// both halt, or both stop at the same fault — with equal stacks and
/// equal output in the terminal cases.
pub open spec fn result_corr(p: Seq<Instruction>, tr: StepResult, pr: StepResult) -> bool {
    match (tr, pr) {
        (StepResult::Next(t), StepResult::Next(q)) => state_corr(p, t, q),
        (StepResult::Halted(t), StepResult::Halted(q)) => t.stack == q.stack && t.out == q.out,
        (StepResult::Faulted(f, t), StepResult::Faulted(g, q)) => f == g && t.stack == q.stack
            && t.out == q.out,
        _ => false,
    }
}

/// A position mapped to byte space is in range of the byte positions.
proof fn lemma_pos_fits(p: Seq<Instruction>, t: int)
    requires
        0 <= t <= p.len(),
        off(p, p.len() as int) < usize::MAX,
    ensures
        0 <= off(p, t) < usize::MAX,
        ((off(p, t) as usize) as int) == off(p, t),
{
    lemma_off_mono(p, 0, t);
    lemma_off_mono(p, t, p.len() as int);
}

/// One step of the packed engine matches one step of the tagged engine
/// from corresponding states.
pub proof fn lemma_step_corr(p: Seq<Instruction>, ts: MState, ps: MState)
    requires
        targets_ok(p),
        off(p, p.len() as int) < usize::MAX,
        state_corr(p, ts, ps),
    ensures
        result_corr(p, step(p, ts), pstep(enc_prog(p), ps)),
{
    if ts.ip == p.len() {
        lemma_decode_end(p);
    } else {
        let i = ts.ip;
        let ins = p[i];
        lemma_decode_enc(p, i);
        lemma_pos_fits(p, i + 1);
        assert(off(p, i + 1) == off(p, i) + ins.packed_size());
        let fall_t = i + 1;
        let fall_p = off(p, i + 1);
        assert(target_ok(ins, p.len() as int));
        if ts.frames.len() > 0 {
            assert(ps.frames[ps.frames.len() - 1].0 == ts.frames[ts.frames.len() - 1].0);
        }
        match ins {
            Instruction::Jump(t) => {
                lemma_pos_fits(p, t as int);
            },
            Instruction::JE(t) => {
                lemma_pos_fits(p, t as int);
            },
            Instruction::JNE(t) => {
                lemma_pos_fits(p, t as int);
            },
            Instruction::JGT(t) => {
                lemma_pos_fits(p, t as int);
            },
            Instruction::JLT(t) => {
                lemma_pos_fits(p, t as int);
            },
            Instruction::JGE(t) => {
                lemma_pos_fits(p, t as int);
            },
            Instruction::JLE(t) => {
                lemma_pos_fits(p, t as int);
            },
            Instruction::Call(t) => {
                lemma_pos_fits(p, t as int);
                match (step(p, ts), pstep(enc_prog(p), ps)) {
                    (StepResult::Next(t2), StepResult::Next(q2)) => {
                        assert(frames_corr(p, t2.frames, q2.frames)) by {
                            assert(t2.frames == ts.frames.push(
                                (ts.stack.len() as int, fall_t),
                            ));
                            assert(q2.frames == ps.frames.push(
                                (ps.stack.len() as int, fall_p),
                            ));
                            assert forall|k: int| 0 <= k < t2.frames.len() implies {
                                &&& q2.frames[k].0 == (#[trigger] t2.frames[k]).0
                                &&& 0 <= t2.frames[k].1 <= p.len()
                                &&& q2.frames[k].1 == off(p, t2.frames[k].1)
                            } by {
                                if k < ts.frames.len() {
                                    assert(t2.frames[k] == ts.frames[k]);
                                    assert(q2.frames[k] == ps.frames[k]);
                                }
                            }
                        }
                    },
                    _ => {},
                }
            },
            Instruction::Ret => {
                if ts.frames.len() > 0 {
                    let k = ts.frames.len() - 1;
                    assert(ps.frames[k as int].1 == off(p, ts.frames[k as int].1));
                    lemma_pos_fits(p, ts.frames[k as int].1);
                    match (step(p, ts), pstep(enc_prog(p), ps)) {
                        (StepResult::Next(t2), StepResult::Next(q2)) => {
                            assert(t2.frames =~= ts.frames.drop_last());
                            assert(q2.frames =~= ps.frames.drop_last());
                            assert(frames_corr(p, t2.frames, q2.frames));
                        },
                        _ => {},
                    }
                }
            },
            _ => {},
        }
    }
}

/// Any number of steps of the packed engine matches the same number of
/// steps of the tagged engine from corresponding states.
pub proof fn lemma_run_corr(p: Seq<Instruction>, ts: MState, ps: MState, n: nat)
    requires
        targets_ok(p),
        off(p, p.len() as int) < usize::MAX,
        state_corr(p, ts, ps),
    ensures
        result_corr(p, run_n(p, ts, n), prun_n(enc_prog(p), ps, n)),
    decreases n,
{
    if n > 0 {
        lemma_step_corr(p, ts, ps);
        match (step(p, ts), pstep(enc_prog(p), ps)) {
            (StepResult::Next(t2), StepResult::Next(q2)) => {
                lemma_run_corr(p, t2, q2, (n - 1) as nat);
            },
            _ => {},
        }
    }
}

/// Packed-bytecode execution and tagged-instruction execution of the same
/// program produce the same output and the same final stack: after any
/// number of steps from the start, the two runs have either both still
/// running in corresponding states, both halted, or both stopped at the
/// same fault, with equal stacks and equal output.
pub proof fn lemma_packed_matches_tagged(p: Seq<Instruction>, n: nat)
    requires
        targets_ok(p),
        off(p, p.len() as int) < usize::MAX,
    ensures
        result_corr(p, run_n(p, init_state(), n), prun_n(enc_prog(p), init_state(), n)),
{
    assert(state_corr(p, init_state(), init_state()));
    lemma_run_corr(p, init_state(), init_state(), n);
}


/// What the two engines report agrees: a fresh tagged run of a program
/// and a fresh packed run of its lowering, given the same step bound,
/// reach the same status and report the same stack and the same output.
pub proof fn lemma_reported_results_agree(
    p: Seq<Instruction>,
    n: nat,
    rt: RunResult,
    rp: RunResult,
)
    requires
        targets_ok(p),
        off(p, p.len() as int) < usize::MAX,
        result_matches(run_n(p, init_state(), n), rt),
        result_matches(prun_n(enc_prog(p), init_state(), n), rp),
    ensures
        rp.status == rt.status,
        rp.stack@ == rt.stack@,
        rp.output@ == rt.output@,
{
    lemma_packed_matches_tagged(p, n);
}

} // verus!
