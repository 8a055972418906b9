//! The stated laws of the machine, each proved against the model: the
//! arithmetic of two pushed values, repeated increment and decrement,
//! what a conditional jump consumes, frame-relative addressing, and that
//! a call returns control to the instruction after the call.

use vstd::prelude::*;
use crate::instr::{Fault, Instruction};
use crate::machine::{
    apply_instr, cond_jump, frame_base, init_state, run_n, step, MState, StepResult,
};

verus! {

/// The magnitude of a number.
pub open spec fn abs_val(x: int) -> int {
    if x < 0 {
        -x
    } else {
        x
    }
}

/// Integer division truncating toward zero, as the machine divides:
/// divide the magnitudes, then restore the sign.
pub open spec fn trunc_div(b: int, a: int) -> int
    recommends
        a != 0,
{
    if (b < 0) == (a < 0) {
        abs_val(b) / abs_val(a)
    } else {
        -(abs_val(b) / abs_val(a))
    }
}

/// The machine state after a three-instruction arithmetic program has
/// halted: one stack cell, nothing else.
pub open spec fn halted_one_cell(v: i64) -> StepResult {
    StepResult::Halted(
        MState { ip: 3, stack: seq![v], frames: Seq::empty(), out: Seq::empty() },
    )
}

/// Pushing `a`, pushing `b` and adding leaves one stack cell equal to
/// `a + b`, for all values whose sum the cell can hold.
pub proof fn lemma_push_push_add(a: i64, b: i64)
    requires
        i64::MIN <= a + b <= i64::MAX,
    ensures
        run_n(seq![Instruction::Push(a), Instruction::Push(b), Instruction::Add], init_state(), 4)
            == halted_one_cell((a + b) as i64),
{
    let p = seq![Instruction::Push(a), Instruction::Push(b), Instruction::Add];
    reveal_with_fuel(run_n, 6);
    let s0 = init_state();
    let s1 = MState { ip: 1, stack: seq![a], frames: Seq::empty(), out: Seq::empty() };
    let s2 = MState { ip: 2, stack: seq![a, b], frames: Seq::empty(), out: Seq::empty() };
    let s3 = MState {
        ip: 3,
        stack: seq![(a + b) as i64],
        frames: Seq::empty(),
        out: Seq::empty(),
    };
    assert(s0.stack.push(a) =~= s1.stack);
    assert(step(p, s0) == StepResult::Next(s1));
    assert(s1.stack.push(b) =~= s2.stack);
    assert(step(p, s1) == StepResult::Next(s2));
    assert(s2.stack[0] == a && s2.stack.last() == b);
    assert(s2.stack.drop_last().drop_last().push((a + b) as i64) =~= s3.stack);
    assert(step(p, s2) == StepResult::Next(s3));
    assert(step(p, s3) == StepResult::Halted(s3));
}

/// Pushing `a`, pushing `b` and subtracting leaves one stack cell: the
/// value popped second minus the value popped first, `a - b`.
pub proof fn lemma_push_push_sub(a: i64, b: i64)
    requires
        i64::MIN <= a - b <= i64::MAX,
    ensures
        run_n(seq![Instruction::Push(a), Instruction::Push(b), Instruction::Sub], init_state(), 4)
            == halted_one_cell((a - b) as i64),
{
    let p = seq![Instruction::Push(a), Instruction::Push(b), Instruction::Sub];
    reveal_with_fuel(run_n, 6);
    let s0 = init_state();
    let s1 = MState { ip: 1, stack: seq![a], frames: Seq::empty(), out: Seq::empty() };
    let s2 = MState { ip: 2, stack: seq![a, b], frames: Seq::empty(), out: Seq::empty() };
    let s3 = MState {
        ip: 3,
        stack: seq![(a - b) as i64],
        frames: Seq::empty(),
        out: Seq::empty(),
    };
    assert(s0.stack.push(a) =~= s1.stack);
    assert(step(p, s0) == StepResult::Next(s1));
    assert(s1.stack.push(b) =~= s2.stack);
    assert(step(p, s1) == StepResult::Next(s2));
    assert(s2.stack[0] == a && s2.stack.last() == b);
    assert(s2.stack.drop_last().drop_last().push((a - b) as i64) =~= s3.stack);
    assert(step(p, s2) == StepResult::Next(s3));
    assert(step(p, s3) == StepResult::Halted(s3));
}

/// Pushing `a`, pushing `b` and dividing leaves one stack cell: the value
/// popped second divided by the value popped first, `a / b` truncated
/// toward zero.
pub proof fn lemma_push_push_div(a: i64, b: i64)
    requires
        b != 0,
        !(a == i64::MIN && b == -1),
    ensures
        run_n(seq![Instruction::Push(a), Instruction::Push(b), Instruction::Div], init_state(), 4)
            == halted_one_cell(trunc_div(a as int, b as int) as i64),
{
    let p = seq![Instruction::Push(a), Instruction::Push(b), Instruction::Div];
    reveal_with_fuel(run_n, 6);
    let s0 = init_state();
    let s1 = MState { ip: 1, stack: seq![a], frames: Seq::empty(), out: Seq::empty() };
    let s2 = MState { ip: 2, stack: seq![a, b], frames: Seq::empty(), out: Seq::empty() };
    let q = trunc_div(a as int, b as int);
    assert(abs_val(a as int) / abs_val(b as int) <= abs_val(a as int)) by {
        vstd::arithmetic::div_mod::lemma_div_nonincreasing(abs_val(a as int), abs_val(b as int));
    }
    assert(abs_val(a as int) / abs_val(b as int) >= 0) by {
        vstd::arithmetic::div_mod::lemma_div_pos_is_pos(abs_val(a as int), abs_val(b as int));
    }
    if a == i64::MIN && b < 0 {
        assert(abs_val(b as int) >= 2);
        assert(1 * 0x8000000000000000 < abs_val(b as int) * 0x8000000000000000) by {
            vstd::arithmetic::mul::lemma_mul_strict_inequality(
                1,
                abs_val(b as int),
                0x8000000000000000,
            );
        }
        vstd::arithmetic::div_mod::lemma_multiply_divide_lt(
            abs_val(a as int),
            abs_val(b as int),
            0x8000000000000000,
        );
    }
    assert(i64::MIN <= q <= i64::MAX);
    let s3 = MState { ip: 3, stack: seq![q as i64], frames: Seq::empty(), out: Seq::empty() };
    assert(s0.stack.push(a) =~= s1.stack);
    assert(step(p, s0) == StepResult::Next(s1));
    assert(s1.stack.push(b) =~= s2.stack);
    assert(step(p, s1) == StepResult::Next(s2));
    assert(s2.stack[0] == a && s2.stack.last() == b);
    assert(a.checked_div(b) == Some(q as i64));
    assert(s2.stack.drop_last().drop_last().push(q as i64) =~= s3.stack);
    assert(step(p, s2) == StepResult::Next(s3));
    assert(step(p, s3) == StepResult::Halted(s3));
}

/// Pushing a zero divisor and then dividing stops at the division fault,
/// whatever was pushed below it.
pub proof fn lemma_div_by_zero_faults(a: i64)
    ensures
        run_n(
            seq![Instruction::Push(a), Instruction::Push(0i64), Instruction::Div],
            init_state(),
            4,
        ) matches StepResult::Faulted(f, s) && f == Fault::DivisionByZero && s.out
            == Seq::<char>::empty(),
{
    let p = seq![Instruction::Push(a), Instruction::Push(0i64), Instruction::Div];
    reveal_with_fuel(run_n, 6);
    let s0 = init_state();
    let s1 = MState { ip: 1, stack: seq![a], frames: Seq::empty(), out: Seq::empty() };
    let s2 = MState { ip: 2, stack: seq![a, 0i64], frames: Seq::empty(), out: Seq::empty() };
    assert(s0.stack.push(a) =~= s1.stack);
    assert(step(p, s0) == StepResult::Next(s1));
    assert(s1.stack.push(0i64) =~= s2.stack);
    assert(step(p, s1) == StepResult::Next(s2));
    assert(s2.stack.last() == 0i64);
    assert(step(p, s2) == StepResult::Faulted(Fault::DivisionByZero, s2));
}

/// A run of `n` `Incr` instructions adds `n` to the top stack cell and
/// moves the position past the run, changing nothing else — in
/// particular, no net stack-length change.
pub proof fn lemma_incr_run(p: Seq<Instruction>, s: MState, n: nat)
    requires
        0 <= s.ip,
        s.ip + n <= p.len(),
        forall|k: int| s.ip <= k < s.ip + n ==> p[k] == Instruction::Incr,
        s.stack.len() > 0,
        s.stack.last() + n <= i64::MAX,
    ensures
        run_n(p, s, n) == StepResult::Next(
            MState {
                ip: s.ip + n,
                stack: s.stack.update(s.stack.len() - 1, (s.stack.last() + n) as i64),
                ..s
            },
        ),
    decreases n,
{
    if n == 0 {
        assert(s.stack.update(s.stack.len() - 1, (s.stack.last() + 0) as i64) =~= s.stack);
        assert(run_n(p, s, 0) == StepResult::Next(
            MState { ip: s.ip, stack: s.stack, frames: s.frames, out: s.out },
        ));
    } else {
        assert(p[s.ip] == Instruction::Incr);
        let t = (s.stack.last() + 1) as i64;
        let s1 = MState { ip: s.ip + 1, stack: s.stack.update(s.stack.len() - 1, t), ..s };
        assert(s.stack.last().checked_add(1) == Some(t));
        assert(step(p, s) == StepResult::Next(s1));
        assert(s1.stack.len() == s.stack.len());
        assert(s1.stack.last() == t);
        lemma_incr_run(p, s1, (n - 1) as nat);
        assert(s1.stack.update(s1.stack.len() - 1, (s1.stack.last() + (n - 1)) as i64)
            =~= s.stack.update(s.stack.len() - 1, (s.stack.last() + n) as i64));
    }
}

/// A run of `n` `Decr` instructions subtracts `n` from the top stack cell
/// and moves the position past the run, changing nothing else.
pub proof fn lemma_decr_run(p: Seq<Instruction>, s: MState, n: nat)
    requires
        0 <= s.ip,
        s.ip + n <= p.len(),
        forall|k: int| s.ip <= k < s.ip + n ==> p[k] == Instruction::Decr,
        s.stack.len() > 0,
        s.stack.last() - n >= i64::MIN,
    ensures
        run_n(p, s, n) == StepResult::Next(
            MState {
                ip: s.ip + n,
                stack: s.stack.update(s.stack.len() - 1, (s.stack.last() - n) as i64),
                ..s
            },
        ),
    decreases n,
{
    if n == 0 {
        assert(s.stack.update(s.stack.len() - 1, (s.stack.last() - 0) as i64) =~= s.stack);
        assert(run_n(p, s, 0) == StepResult::Next(
            MState { ip: s.ip, stack: s.stack, frames: s.frames, out: s.out },
        ));
    } else {
        assert(p[s.ip] == Instruction::Decr);
        let t = (s.stack.last() - 1) as i64;
        let s1 = MState { ip: s.ip + 1, stack: s.stack.update(s.stack.len() - 1, t), ..s };
        assert(s.stack.last().checked_sub(1) == Some(t));
        assert(step(p, s) == StepResult::Next(s1));
        assert(s1.stack.len() == s.stack.len());
        assert(s1.stack.last() == t);
        lemma_decr_run(p, s1, (n - 1) as nat);
        assert(s1.stack.update(s1.stack.len() - 1, (s1.stack.last() - (n - 1)) as i64)
            =~= s.stack.update(s.stack.len() - 1, (s.stack.last() - n) as i64));
    }
}

/// Pushing `v` and applying `Incr` `n` times yields a single cell `v + n`.
pub proof fn lemma_push_incr_n(v: i64, n: nat)
    requires
        v + n <= i64::MAX,
    ensures
        run_n(
            seq![Instruction::Push(v)] + Seq::new(n, |k: int| Instruction::Incr),
            init_state(),
            n + 1,
        ) == StepResult::Next(
            MState {
                ip: n + 1 as int,
                stack: seq![(v + n) as i64],
                frames: Seq::empty(),
                out: Seq::empty(),
            },
        ),
{
    let p = seq![Instruction::Push(v)] + Seq::new(n, |k: int| Instruction::Incr);
    reveal_with_fuel(run_n, 2);
    let s0 = init_state();
    let s1 = MState { ip: 1, stack: seq![v], frames: Seq::empty(), out: Seq::empty() };
    assert(p[0] == Instruction::Push(v));
    assert(s0.stack.push(v) =~= s1.stack);
    assert(step(p, s0) == StepResult::Next(s1));
    assert(run_n(p, s0, n + 1) == run_n(p, s1, n));
    assert(forall|k: int| 1 <= k < 1 + n ==> p[k] == Instruction::Incr);
    lemma_incr_run(p, s1, n);
    assert(s1.stack.update(0, (v + n) as i64) =~= seq![(v + n) as i64]);
}

/// Pushing `v` and applying `Decr` `n` times yields a single cell `v - n`.
pub proof fn lemma_push_decr_n(v: i64, n: nat)
    requires
        v - n >= i64::MIN,
    ensures
        run_n(
            seq![Instruction::Push(v)] + Seq::new(n, |k: int| Instruction::Decr),
            init_state(),
            n + 1,
        ) == StepResult::Next(
            MState {
                ip: n + 1 as int,
                stack: seq![(v - n) as i64],
                frames: Seq::empty(),
                out: Seq::empty(),
            },
        ),
{
    let p = seq![Instruction::Push(v)] + Seq::new(n, |k: int| Instruction::Decr);
    reveal_with_fuel(run_n, 2);
    let s0 = init_state();
    let s1 = MState { ip: 1, stack: seq![v], frames: Seq::empty(), out: Seq::empty() };
    assert(p[0] == Instruction::Push(v));
    assert(s0.stack.push(v) =~= s1.stack);
    assert(step(p, s0) == StepResult::Next(s1));
    assert(run_n(p, s0, n + 1) == run_n(p, s1, n));
    assert(forall|k: int| 1 <= k < 1 + n ==> p[k] == Instruction::Decr);
    lemma_decr_run(p, s1, n);
    assert(s1.stack.update(0, (v - n) as i64) =~= seq![(v - n) as i64]);
}

/// A conditional jump consumes the tested value if and only if the branch
/// is taken: when the predicate holds of the top value, the value is
/// popped and control moves to the target; otherwise the value stays and
/// control falls through.
pub proof fn lemma_cond_jump_consumes(s: MState, fall: int, target: int, taken: bool)
    requires
        s.stack.len() > 0,
    ensures
        taken ==> cond_jump(s, fall, target, taken) == StepResult::Next(
            MState { ip: target, stack: s.stack.drop_last(), ..s },
        ),
        !taken ==> cond_jump(s, fall, target, taken) == StepResult::Next(
            MState { ip: fall, ..s },
        ),
{
}

/// Each conditional jump peeks the top value and is `cond_jump` with its
/// own predicate of that value: zero, nonzero, positive, negative,
/// non-negative, non-positive.
pub proof fn lemma_conditional_jumps_peek_top(s: MState, fall: int, t: usize)
    ensures
        apply_instr(Instruction::JE(t), fall, s) == cond_jump(
            s,
            fall,
            t as int,
            s.stack.last() == 0,
        ),
        apply_instr(Instruction::JNE(t), fall, s) == cond_jump(
            s,
            fall,
            t as int,
            s.stack.last() != 0,
        ),
        apply_instr(Instruction::JGT(t), fall, s) == cond_jump(
            s,
            fall,
            t as int,
            s.stack.last() > 0,
        ),
        apply_instr(Instruction::JLT(t), fall, s) == cond_jump(
            s,
            fall,
            t as int,
            s.stack.last() < 0,
        ),
        apply_instr(Instruction::JGE(t), fall, s) == cond_jump(
            s,
            fall,
            t as int,
            s.stack.last() >= 0,
        ),
        apply_instr(Instruction::JLE(t), fall, s) == cond_jump(
            s,
            fall,
            t as int,
            s.stack.last() <= 0,
        ),
{
}

/// Inside a call frame with recorded offset `f`, `Get i` reads the value
/// at absolute position `f + i`: position `f` is the first value pushed
/// within the call, and no caller value below the frame base is reached.
pub proof fn lemma_get_frame_relative(s: MState, i: usize, fall: int)
    requires
        s.frames.len() > 0,
        0 <= s.frames.last().0,
        s.frames.last().0 + i < s.stack.len(),
    ensures
        apply_instr(Instruction::Get(i), fall, s) == StepResult::Next(
            MState { ip: fall, stack: s.stack.push(s.stack[s.frames.last().0 + i]), ..s },
        ),
        frame_base(s) == s.frames.last().0,
{
}

/// Inside a call frame with recorded offset `f`, `GetArg i` reads the
/// value at absolute position `f - 1 - i`: position `f - 1` is the last
/// value the caller pushed before the call.
pub proof fn lemma_getarg_frame_relative(s: MState, i: usize, fall: int)
    requires
        s.frames.len() > 0,
        0 <= s.frames.last().0 - 1 - i < s.stack.len(),
    ensures
        apply_instr(Instruction::GetArg(i), fall, s) == StepResult::Next(
            MState { ip: fall, stack: s.stack.push(s.stack[s.frames.last().0 - 1 - i]), ..s },
        ),
{
}

/// `Call p` records the position following the call and moves to `p`; a
/// later `Ret` with that frame on top returns control exactly there,
/// whatever the stack has become in between.
pub proof fn lemma_call_ret_returns(p: Seq<Instruction>, s: MState, s2: MState, target: usize)
    requires
        0 <= s.ip < p.len(),
        p[s.ip] == Instruction::Call(target),
        s2.frames == s.frames.push((s.stack.len() as int, s.ip + 1)),
    ensures
        step(p, s) == StepResult::Next(
            MState {
                ip: target as int,
                frames: s.frames.push((s.stack.len() as int, s.ip + 1)),
                ..s
            },
        ),
        apply_instr(Instruction::Ret, s2.ip + 1, s2) == StepResult::Next(
            MState { ip: s.ip + 1, frames: s.frames, ..s2 },
        ),
{
    assert(s2.frames.last() == (s.stack.len() as int, s.ip + 1));
    assert(s2.frames.drop_last() =~= s.frames);
}

} // verus!
