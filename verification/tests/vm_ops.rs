use stackvm::engine::{interpret_tagged, RunResult, Status, Vm};
use stackvm::instr::{Fault, Instruction};
use stackvm::stack::Stack;

fn out_str(r: &RunResult) -> String {
    r.output.iter().collect()
}

const FUEL: u64 = 10_000;

#[test]
fn push_push_add_leaves_sum() {
    let p = vec![Instruction::Push(3), Instruction::Push(4), Instruction::Add];
    let r = interpret_tagged(&p, FUEL);
    assert_eq!(r.status, Status::Halted);
    assert_eq!(r.stack, vec![7]);
}

#[test]
fn add_works_on_negatives() {
    let p = vec![Instruction::Push(-10), Instruction::Push(4), Instruction::Add];
    let r = interpret_tagged(&p, FUEL);
    assert_eq!(r.status, Status::Halted);
    assert_eq!(r.stack, vec![-6]);
}

#[test]
fn sub_subtracts_top_from_below() {
    let p = vec![Instruction::Push(5), Instruction::Push(3), Instruction::Sub];
    let r = interpret_tagged(&p, FUEL);
    assert_eq!(r.status, Status::Halted);
    assert_eq!(r.stack, vec![2]);
}

#[test]
fn mul_multiplies() {
    let p = vec![Instruction::Push(-6), Instruction::Push(7), Instruction::Mul];
    let r = interpret_tagged(&p, FUEL);
    assert_eq!(r.status, Status::Halted);
    assert_eq!(r.stack, vec![-42]);
}

#[test]
fn div_truncates_toward_zero() {
    let p = vec![Instruction::Push(-7), Instruction::Push(2), Instruction::Div];
    let r = interpret_tagged(&p, FUEL);
    assert_eq!(r.status, Status::Halted);
    assert_eq!(r.stack, vec![-3]);

    let p = vec![Instruction::Push(7), Instruction::Push(-2), Instruction::Div];
    let r = interpret_tagged(&p, FUEL);
    assert_eq!(r.status, Status::Halted);
    assert_eq!(r.stack, vec![-3]);

    let p = vec![Instruction::Push(7), Instruction::Push(2), Instruction::Div];
    let r = interpret_tagged(&p, FUEL);
    assert_eq!(r.stack, vec![3]);
}

#[test]
fn div_by_zero_faults() {
    let p = vec![Instruction::Push(5), Instruction::Push(0), Instruction::Div];
    let r = interpret_tagged(&p, FUEL);
    assert_eq!(r.status, Status::Faulted(Fault::DivisionByZero));
    assert!(r.output.is_empty());
}

#[test]
fn div_overflow_faults() {
    let p = vec![Instruction::Push(i64::MIN), Instruction::Push(-1), Instruction::Div];
    let r = interpret_tagged(&p, FUEL);
    assert_eq!(r.status, Status::Faulted(Fault::ArithmeticOverflow));
}

#[test]
fn add_overflow_faults() {
    let p = vec![Instruction::Push(i64::MAX), Instruction::Push(1), Instruction::Add];
    let r = interpret_tagged(&p, FUEL);
    assert_eq!(r.status, Status::Faulted(Fault::ArithmeticOverflow));
}

#[test]
fn incr_decr_keep_stack_length() {
    let p = vec![
        Instruction::Push(10),
        Instruction::Incr,
        Instruction::Incr,
        Instruction::Incr,
    ];
    let r = interpret_tagged(&p, FUEL);
    assert_eq!(r.status, Status::Halted);
    assert_eq!(r.stack, vec![13]);

    let p = vec![Instruction::Push(10), Instruction::Decr, Instruction::Decr];
    let r = interpret_tagged(&p, FUEL);
    assert_eq!(r.stack, vec![8]);
}

#[test]
fn lone_pop_faults_before_output() {
    let p = vec![Instruction::Pop];
    let r = interpret_tagged(&p, FUEL);
    assert_eq!(r.status, Status::Faulted(Fault::StackUnderflow));
    assert!(r.output.is_empty());
    assert!(r.stack.is_empty());
}

#[test]
fn je_zero_jumps_and_pops() {
    let p = vec![Instruction::Push(0), Instruction::JE(3)];
    let r = interpret_tagged(&p, FUEL);
    assert_eq!(r.status, Status::Halted);
    assert!(r.stack.is_empty());
}

#[test]
fn je_nonzero_falls_through_and_keeps_value() {
    let p = vec![Instruction::Push(5), Instruction::JE(3)];
    let r = interpret_tagged(&p, FUEL);
    assert_eq!(r.status, Status::Halted);
    assert_eq!(r.stack, vec![5]);
}

#[test]
fn jne_jgt_jlt_jge_jle_predicates() {
    // each program pushes v then tests; taken leaves [], not taken leaves [v]
    let cases: Vec<(Instruction, i64, bool)> = vec![
        (Instruction::JNE(3), 5, true),
        (Instruction::JNE(3), 0, false),
        (Instruction::JGT(3), 1, true),
        (Instruction::JGT(3), 0, false),
        (Instruction::JLT(3), -1, true),
        (Instruction::JLT(3), 0, false),
        (Instruction::JGE(3), 0, true),
        (Instruction::JGE(3), -1, false),
        (Instruction::JLE(3), 0, true),
        (Instruction::JLE(3), 1, false),
    ];
    for (ins, v, taken) in cases {
        let p = vec![Instruction::Push(v), ins];
        let r = interpret_tagged(&p, FUEL);
        assert_eq!(r.status, Status::Halted);
        if taken {
            assert!(r.stack.is_empty(), "{:?} on {} should pop", ins, v);
        } else {
            assert_eq!(r.stack, vec![v], "{:?} on {} should keep", ins, v);
        }
    }
}

#[test]
fn jump_is_unconditional() {
    let p = vec![Instruction::Jump(2), Instruction::Push(1), Instruction::Noop];
    let r = interpret_tagged(&p, FUEL);
    assert_eq!(r.status, Status::Halted);
    assert!(r.stack.is_empty());
}

#[test]
fn get_without_frame_is_absolute() {
    let p = vec![Instruction::Push(10), Instruction::Push(20), Instruction::Get(0)];
    let r = interpret_tagged(&p, FUEL);
    assert_eq!(r.stack, vec![10, 20, 10]);
}

#[test]
fn set_overwrites_without_popping() {
    let p = vec![Instruction::Push(10), Instruction::Push(20), Instruction::SetIdx(0)];
    let r = interpret_tagged(&p, FUEL);
    assert_eq!(r.stack, vec![20, 20]);
}

#[test]
fn get_out_of_range_faults() {
    let p = vec![Instruction::Push(1), Instruction::Get(5)];
    let r = interpret_tagged(&p, FUEL);
    assert_eq!(r.status, Status::Faulted(Fault::IndexOutOfRange));
}

#[test]
fn getarg_without_frame_faults() {
    let p = vec![Instruction::Push(1), Instruction::GetArg(0)];
    let r = interpret_tagged(&p, FUEL);
    assert_eq!(r.status, Status::Faulted(Fault::CallStackUnderflow));
}

#[test]
fn setarg_without_frame_faults() {
    let p = vec![Instruction::Push(1), Instruction::SetArg(0)];
    let r = interpret_tagged(&p, FUEL);
    assert_eq!(r.status, Status::Faulted(Fault::CallStackUnderflow));
}

#[test]
fn ret_without_frame_faults() {
    let p = vec![Instruction::Ret];
    let r = interpret_tagged(&p, FUEL);
    assert_eq!(r.status, Status::Faulted(Fault::CallStackUnderflow));
}

#[test]
fn call_ret_returns_after_call() {
    // 0: Jump 3 (skip body), 1: Incr, 2: Ret, 3: Push 41, 4: Call 1, 5: Noop
    let p = vec![
        Instruction::Jump(3),
        Instruction::Incr,
        Instruction::Ret,
        Instruction::Push(41),
        Instruction::Call(1),
        Instruction::Noop,
    ];
    let r = interpret_tagged(&p, FUEL);
    assert_eq!(r.status, Status::Halted);
    assert_eq!(r.stack, vec![42]);
}

#[test]
fn get_in_procedure_is_frame_relative() {
    // proc at 1: pushes 99, then Get 0 reads its own first value, not the caller's 7
    let p = vec![
        Instruction::Jump(5),
        Instruction::Push(99),
        Instruction::Get(0),
        Instruction::Ret,
        Instruction::Noop,
        Instruction::Push(7),
        Instruction::Call(1),
    ];
    let r = interpret_tagged(&p, FUEL);
    assert_eq!(r.status, Status::Halted);
    assert_eq!(r.stack, vec![7, 99, 99]);
}

#[test]
fn getarg_reads_last_caller_value() {
    let p = vec![
        Instruction::Jump(3),
        Instruction::GetArg(0),
        Instruction::Ret,
        Instruction::Push(7),
        Instruction::Push(8),
        Instruction::Call(1),
    ];
    let r = interpret_tagged(&p, FUEL);
    assert_eq!(r.status, Status::Halted);
    assert_eq!(r.stack, vec![7, 8, 8]);
}

#[test]
fn setarg_writes_caller_slot() {
    let p = vec![
        Instruction::Jump(4),
        Instruction::Push(5),
        Instruction::SetArg(0),
        Instruction::Ret,
        Instruction::Push(7),
        Instruction::Call(1),
    ];
    let r = interpret_tagged(&p, FUEL);
    assert_eq!(r.status, Status::Halted);
    assert_eq!(r.stack, vec![5, 5]);
}

#[test]
fn print_writes_decimal_without_popping() {
    let p = vec![Instruction::Push(7), Instruction::Print];
    let r = interpret_tagged(&p, FUEL);
    assert_eq!(out_str(&r), "7");
    assert_eq!(r.stack, vec![7]);

    let p = vec![Instruction::Push(-12), Instruction::Print];
    let r = interpret_tagged(&p, FUEL);
    assert_eq!(out_str(&r), "-12");

    let p = vec![Instruction::Push(i64::MIN), Instruction::Print];
    let r = interpret_tagged(&p, FUEL);
    assert_eq!(out_str(&r), "-9223372036854775808");
}

#[test]
fn printc_writes_low_byte_as_char() {
    let p = vec![Instruction::Push(72), Instruction::PrintC];
    let r = interpret_tagged(&p, FUEL);
    assert_eq!(out_str(&r), "H");

    // 328 = 256 + 72: only the low byte counts
    let p = vec![Instruction::Push(328), Instruction::PrintC];
    let r = interpret_tagged(&p, FUEL);
    assert_eq!(out_str(&r), "H");
}

#[test]
fn printstack_writes_debug_form() {
    let p = vec![Instruction::Push(1), Instruction::Push(-3), Instruction::PrintStack];
    let r = interpret_tagged(&p, FUEL);
    assert_eq!(out_str(&r), format!("{:?}\n", vec![1i64, -3]));

    let p = vec![Instruction::PrintStack];
    let r = interpret_tagged(&p, FUEL);
    assert_eq!(out_str(&r), "[]\n");
}

#[test]
fn run_is_resumable_after_fuel() {
    let p = vec![Instruction::Push(1), Instruction::Push(2), Instruction::Add];
    let mut vm = Vm::new();
    let st = vm.run(&p, 1);
    assert_eq!(st, Status::Running);
    let st = vm.run(&p, FUEL);
    assert_eq!(st, Status::Halted);
    assert_eq!(vm.stack.0, vec![3]);
}

#[test]
fn infinite_loop_reports_running() {
    let p = vec![Instruction::Jump(0)];
    let r = interpret_tagged(&p, 1000);
    assert_eq!(r.status, Status::Running);
}

#[test]
fn stack_operations() {
    let mut s = Stack::new();
    assert_eq!(s.len(), 0);
    s.push(4);
    s.push(9);
    assert_eq!(s.peek(), 9);
    assert_eq!(*s.get(0), 4);
    {
        let t = s.peek_mut();
        *t += 1;
    }
    assert_eq!(s.peek(), 10);
    {
        let t = s.get_mut(0);
        *t = -1;
    }
    assert_eq!(*s.get(0), -1);
    assert_eq!(s.pop(), 10);
    assert_eq!(s.len(), 1);
    assert_eq!(s.into_vec(), vec![-1]);
}
