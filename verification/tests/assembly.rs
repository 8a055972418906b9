use stackvm::assembler::{assemble, find_label, find_procedures, parse_instruction};
use stackvm::instr::{AsmError, Instruction};
use stackvm::numeral::{parse_i64, parse_usize};

fn lines(src: &[&str]) -> Vec<Vec<String>> {
    src.iter()
        .map(|l| l.split_whitespace().map(|t| t.to_string()).collect())
        .collect()
}

#[test]
fn plain_mnemonics_assemble() {
    let l = lines(&[
        "Pop", "Add", "Sub", "Mul", "Div", "Incr", "Decr", "Print", "PrintC", "PrintStack",
        "Ret",
    ]);
    let p = assemble(&l).unwrap();
    assert_eq!(
        p,
        vec![
            Instruction::Pop,
            Instruction::Add,
            Instruction::Sub,
            Instruction::Mul,
            Instruction::Div,
            Instruction::Incr,
            Instruction::Decr,
            Instruction::Print,
            Instruction::PrintC,
            Instruction::PrintStack,
            Instruction::Ret,
        ]
    );
}

#[test]
fn push_and_index_operands_assemble() {
    let l = lines(&["Push -42", "Get 1", "Set 0", "GetArg 2", "SetArg 3"]);
    let p = assemble(&l).unwrap();
    assert_eq!(
        p,
        vec![
            Instruction::Push(-42),
            Instruction::Get(1),
            Instruction::SetIdx(0),
            Instruction::GetArg(2),
            Instruction::SetArg(3),
        ]
    );
}

#[test]
fn label_lines_occupy_a_position() {
    let l = lines(&["label top", "Push 1", "Jump top"]);
    let p = assemble(&l).unwrap();
    assert_eq!(p, vec![Instruction::Noop, Instruction::Push(1), Instruction::Jump(0)]);
}

#[test]
fn all_conditional_jumps_resolve_labels() {
    let l = lines(&["label t", "JE t", "JNE t", "JGT t", "JLT t", "JGE t", "JLE t"]);
    let p = assemble(&l).unwrap();
    assert_eq!(
        p,
        vec![
            Instruction::Noop,
            Instruction::JE(0),
            Instruction::JNE(0),
            Instruction::JGT(0),
            Instruction::JLT(0),
            Instruction::JGE(0),
            Instruction::JLE(0),
        ]
    );
}

#[test]
fn procedure_lowering_matches_positions() {
    let l = lines(&[
        "Proc add", "Add", "Ret", "End", "Push 2", "Push 5", "Call add", "Print",
    ]);
    let p = assemble(&l).unwrap();
    assert_eq!(
        p,
        vec![
            Instruction::Jump(4),
            Instruction::Add,
            Instruction::Ret,
            Instruction::Noop,
            Instruction::Push(2),
            Instruction::Push(5),
            Instruction::Call(1),
            Instruction::Print,
        ]
    );
}

#[test]
fn redeclared_label_overwrites() {
    let l = lines(&["label x", "label x", "Jump x"]);
    let p = assemble(&l).unwrap();
    assert_eq!(p, vec![Instruction::Noop, Instruction::Noop, Instruction::Jump(1)]);
}

#[test]
fn unknown_mnemonic_is_reported_with_its_line() {
    let l = lines(&["Push 1", "Frobnicate"]);
    assert_eq!(assemble(&l), Err(AsmError::UnknownInstruction(1)));
}

#[test]
fn bad_literal_is_reported() {
    let l = lines(&["Push abc"]);
    assert_eq!(assemble(&l), Err(AsmError::BadLiteral(0)));
    let l = lines(&["Push 99999999999999999999"]);
    assert_eq!(assemble(&l), Err(AsmError::BadLiteral(0)));
    let l = lines(&["Get -1"]);
    assert_eq!(assemble(&l), Err(AsmError::BadLiteral(0)));
}

#[test]
fn undefined_label_is_reported() {
    let l = lines(&["Jump nowhere"]);
    assert_eq!(assemble(&l), Err(AsmError::UndefinedLabel(0)));
}

#[test]
fn undefined_procedure_is_reported() {
    let l = lines(&["Call missing"]);
    assert_eq!(assemble(&l), Err(AsmError::UndefinedProcedure(0)));
}

#[test]
fn unterminated_proc_is_reported() {
    let l = lines(&["Push 1", "Proc f", "Add"]);
    assert_eq!(assemble(&l), Err(AsmError::UnterminatedProc(1)));
}

#[test]
fn find_label_recognizes_label_lines() {
    let line: Vec<String> = vec!["label".to_string(), "x".to_string()];
    assert_eq!(find_label(3, &line), Some(("x".to_string(), 3)));
    let line: Vec<String> = vec!["Push".to_string(), "1".to_string()];
    assert_eq!(find_label(3, &line), None);
    let line: Vec<String> = vec!["label".to_string()];
    assert_eq!(find_label(0, &line), None);
}

#[test]
fn find_procedures_records_ranges() {
    let l = lines(&["Proc f", "Ret", "End", "Push 1"]);
    let t = find_procedures(&l).unwrap();
    assert_eq!(t, vec![("f".to_string(), (0, 3))]);
}

#[test]
fn find_procedures_skips_nested_declarations() {
    let l = lines(&["Proc a", "Proc b", "End", "End", "Proc c", "End"]);
    let t = find_procedures(&l).unwrap();
    // the scan resumes after a's End, so b is never registered; the second
    // End line stands alone and c follows
    assert_eq!(t, vec![("a".to_string(), (0, 3)), ("c".to_string(), (4, 6))]);
}

#[test]
fn parse_instruction_uses_tables() {
    let labels = vec![("top".to_string(), 7usize)];
    let procs = vec![("f".to_string(), (2usize, 5usize))];
    let line: Vec<String> = vec!["Jump".to_string(), "top".to_string()];
    assert_eq!(parse_instruction(&line, &labels, &procs, 0), Ok(Instruction::Jump(7)));
    let line: Vec<String> = vec!["Call".to_string(), "f".to_string()];
    assert_eq!(parse_instruction(&line, &labels, &procs, 0), Ok(Instruction::Call(3)));
    let line: Vec<String> = vec!["Proc".to_string(), "f".to_string()];
    assert_eq!(parse_instruction(&line, &labels, &procs, 0), Ok(Instruction::Jump(5)));
    let line: Vec<String> = vec!["End".to_string()];
    assert_eq!(parse_instruction(&line, &labels, &procs, 0), Ok(Instruction::Noop));
}

#[test]
fn numeral_parsing_matches_operand_grammar() {
    assert_eq!(parse_i64("0"), Some(0));
    assert_eq!(parse_i64("+5"), Some(5));
    assert_eq!(parse_i64("-5"), Some(-5));
    assert_eq!(parse_i64("9223372036854775807"), Some(i64::MAX));
    assert_eq!(parse_i64("-9223372036854775808"), Some(i64::MIN));
    assert_eq!(parse_i64("9223372036854775808"), None);
    assert_eq!(parse_i64(""), None);
    assert_eq!(parse_i64("-"), None);
    assert_eq!(parse_i64("1x"), None);
    assert_eq!(parse_i64("12 "), None);

    assert_eq!(parse_usize("3"), Some(3));
    assert_eq!(parse_usize("+3"), Some(3));
    assert_eq!(parse_usize("-1"), None);
    assert_eq!(parse_usize("-0"), None);
    assert_eq!(parse_usize(""), None);
}

#[test]
fn empty_program_assembles_to_nothing() {
    let l: Vec<Vec<String>> = vec![];
    assert_eq!(assemble(&l), Ok(vec![]));
}

#[test]
fn label_line_with_extra_tokens_still_occupies_a_position() {
    let l = lines(&["label a b c", "Push 1"]);
    let p = assemble(&l).unwrap();
    assert_eq!(p, vec![Instruction::Noop, Instruction::Push(1)]);
}

#[test]
fn operand_mnemonic_without_operand_is_invalid() {
    let l = lines(&["Push"]);
    assert_eq!(assemble(&l), Err(AsmError::UnknownInstruction(0)));
    let l = lines(&["Push 1 2"]);
    assert_eq!(assemble(&l), Err(AsmError::UnknownInstruction(0)));
    let l = lines(&["End extra"]);
    assert_eq!(assemble(&l), Err(AsmError::UnknownInstruction(0)));
}

#[test]
fn push_extreme_literals_assemble() {
    let l = lines(&["Push 9223372036854775807", "Push -9223372036854775808"]);
    let p = assemble(&l).unwrap();
    assert_eq!(p, vec![Instruction::Push(i64::MAX), Instruction::Push(i64::MIN)]);
}
