use stackvm::code::{to_code, try_to_code};
use stackvm::engine::{interpret_tagged, RunResult, Status};
use stackvm::instr::{Fault, Instruction};
use stackvm::packed::interpret;

fn out_str(r: &RunResult) -> String {
    r.output.iter().collect()
}

const FUEL: u64 = 10_000;

/// Both engines must agree on status, final stack, and output.
fn both_agree(p: &Vec<Instruction>) -> RunResult {
    let tagged = interpret_tagged(p, FUEL);
    let code = try_to_code(p).expect("program must lower");
    let packed = interpret(&code, FUEL);
    assert_eq!(tagged.status, packed.status, "status differs for {:?}", p);
    assert_eq!(tagged.stack, packed.stack, "stack differs for {:?}", p);
    assert_eq!(tagged.output, packed.output, "output differs for {:?}", p);
    tagged
}

#[test]
fn packed_bytes_have_one_or_nine_byte_instructions() {
    let p = vec![Instruction::Push(1), Instruction::Pop];
    let code = to_code(&p);
    assert_eq!(code, vec![0, 0, 0, 0, 0, 0, 0, 0, 1, 1, 25]);
}

#[test]
fn packed_operand_is_big_endian() {
    let p = vec![Instruction::Push(258)];
    let code = to_code(&p);
    assert_eq!(code, vec![0, 0, 0, 0, 0, 0, 0, 1, 2, 25]);
}

#[test]
fn packed_negative_operand_is_twos_complement() {
    let p = vec![Instruction::Push(-1)];
    let code = to_code(&p);
    assert_eq!(code, vec![0, 255, 255, 255, 255, 255, 255, 255, 255, 25]);
}

#[test]
fn packed_targets_are_rewritten_to_byte_offsets() {
    // positions: Noop at byte 0, Jump at byte 1, Noop at byte 10
    let p = vec![Instruction::Noop, Instruction::Jump(2), Instruction::Noop];
    let code = to_code(&p);
    let mut expected = vec![19u8, 8];
    expected.extend_from_slice(&[0, 0, 0, 0, 0, 0, 0, 10]);
    expected.push(19);
    expected.push(25);
    assert_eq!(code, expected);
}

#[test]
fn try_to_code_rejects_targets_past_the_end() {
    let p = vec![Instruction::Jump(5)];
    assert!(try_to_code(&p).is_none());
}

#[test]
fn packed_and_tagged_agree_on_arithmetic() {
    let r = both_agree(&vec![
        Instruction::Push(3),
        Instruction::Push(4),
        Instruction::Add,
        Instruction::Push(10),
        Instruction::Sub,
        Instruction::Push(-2),
        Instruction::Mul,
        Instruction::Push(4),
        Instruction::Div,
        Instruction::Incr,
        Instruction::Decr,
        Instruction::Noop,
    ]);
    assert_eq!(r.status, Status::Halted);
    // 3+4=7; 7-10=-3; -3*-2=6; 6/4=1; 1+1-1=1
    assert_eq!(r.stack, vec![1]);
}

#[test]
fn packed_and_tagged_agree_on_jumps() {
    let conds: Vec<fn(usize) -> Instruction> = vec![
        Instruction::JE,
        Instruction::JNE,
        Instruction::JGT,
        Instruction::JLT,
        Instruction::JGE,
        Instruction::JLE,
    ];
    for mk in &conds {
        for v in [-1i64, 0, 1] {
            let r = both_agree(&vec![
                Instruction::Push(v),
                mk(3),
                Instruction::Push(100),
                Instruction::Noop,
            ]);
            assert_eq!(r.status, Status::Halted);
        }
    }
    let r = both_agree(&vec![Instruction::Jump(2), Instruction::Push(1), Instruction::Noop]);
    assert_eq!(r.status, Status::Halted);
    assert!(r.stack.is_empty());
}

#[test]
fn packed_and_tagged_agree_on_frames_and_prints() {
    let r = both_agree(&vec![
        Instruction::Jump(7),
        Instruction::Push(100),
        Instruction::Get(0),
        Instruction::GetArg(0),
        Instruction::SetArg(1),
        Instruction::SetIdx(0),
        Instruction::Ret,
        Instruction::Push(7),
        Instruction::Push(8),
        Instruction::Call(1),
        Instruction::Print,
        Instruction::PrintC,
        Instruction::PrintStack,
        Instruction::Pop,
    ]);
    assert_eq!(r.status, Status::Halted);
}

#[test]
fn packed_and_tagged_agree_on_faults() {
    let faulting: Vec<Vec<Instruction>> = vec![
        vec![Instruction::Pop],
        vec![Instruction::Ret],
        vec![Instruction::Push(1), Instruction::Push(0), Instruction::Div],
        vec![Instruction::GetArg(0)],
        vec![Instruction::Get(3)],
        vec![Instruction::Push(i64::MAX), Instruction::Incr],
    ];
    for p in &faulting {
        let r = both_agree(p);
        assert!(matches!(r.status, Status::Faulted(_)), "{:?} should fault", p);
    }
}

#[test]
fn packed_lone_pop_faults_before_output() {
    let code = to_code(&vec![Instruction::Pop]);
    let r = interpret(&code, FUEL);
    assert_eq!(r.status, Status::Faulted(Fault::StackUnderflow));
    assert!(r.output.is_empty());
}

#[test]
fn packed_end_byte_halts() {
    let code = vec![25u8];
    let r = interpret(&code, FUEL);
    assert_eq!(r.status, Status::Halted);
    assert!(r.stack.is_empty());
}

#[test]
fn packed_unknown_opcode_faults() {
    let code = vec![200u8];
    let r = interpret(&code, FUEL);
    assert_eq!(r.status, Status::Faulted(Fault::InvalidBytecode));
}

#[test]
fn packed_truncated_operand_faults() {
    let code = vec![0u8, 1, 2];
    let r = interpret(&code, FUEL);
    assert_eq!(r.status, Status::Faulted(Fault::InvalidBytecode));
}

#[test]
fn packed_infinite_loop_reports_running() {
    let code = to_code(&vec![Instruction::Jump(0)]);
    let r = interpret(&code, 500);
    assert_eq!(r.status, Status::Running);
}

#[test]
fn packed_print_output_matches_tagged_exactly() {
    let p = vec![
        Instruction::Push(-3),
        Instruction::Print,
        Instruction::Push(33),
        Instruction::PrintC,
        Instruction::PrintStack,
    ];
    let r = both_agree(&p);
    assert_eq!(out_str(&r), "-3![-3, 33]\n");
}

#[test]
fn empty_program_packs_to_the_terminator_alone() {
    let p: Vec<Instruction> = vec![];
    let code = to_code(&p);
    assert_eq!(code, vec![25]);
    let r = interpret(&code, FUEL);
    assert_eq!(r.status, Status::Halted);
    assert!(r.stack.is_empty());
    assert!(r.output.is_empty());
}

#[test]
fn packed_extreme_operands_roundtrip() {
    for v in [i64::MAX, i64::MIN, 0, -1, 1] {
        let r = both_agree(&vec![Instruction::Push(v)]);
        assert_eq!(r.stack, vec![v]);
    }
}
