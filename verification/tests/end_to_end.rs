use stackvm::assembler::assemble;
use stackvm::code::try_to_code;
use stackvm::engine::{interpret_tagged, RunResult, Status};
use stackvm::instr::Fault;
use stackvm::packed::interpret;

const FUEL: u64 = 100_000;

/// Split source text into token lines, discarding blank and comment
/// lines, as the surrounding program does before assembly.
fn tokenize(src: &str) -> Vec<Vec<String>> {
    src.split('\n')
        .map(|l| l.split_whitespace().map(|t| t.to_string()).collect::<Vec<String>>())
        .filter(|l| !l.is_empty() && l[0] != "--")
        .collect()
}

fn out_str(r: &RunResult) -> String {
    r.output.iter().collect()
}

/// Assemble and run on both engines, checking that they agree.
fn run_source(src: &str) -> RunResult {
    let lines = tokenize(src);
    let prog = assemble(&lines).expect("assembly must succeed");
    let tagged = interpret_tagged(&prog, FUEL);
    let code = try_to_code(&prog).expect("program must lower");
    let packed = interpret(&code, FUEL);
    assert_eq!(tagged.status, packed.status);
    assert_eq!(tagged.stack, packed.stack);
    assert_eq!(tagged.output, packed.output);
    tagged
}

#[test]
fn add_and_print_outputs_seven() {
    let r = run_source("Push 3\nPush 4\nAdd\nPrint");
    assert_eq!(r.status, Status::Halted);
    assert_eq!(out_str(&r), "7");
    assert_eq!(r.stack, vec![7]);
}

#[test]
fn procedure_call_outputs_seven() {
    let r = run_source("Proc add\nAdd\nRet\nEnd\nPush 2\nPush 5\nCall add\nPrint");
    assert_eq!(r.status, Status::Halted);
    assert_eq!(out_str(&r), "7");
}

#[test]
fn lone_pop_terminates_abnormally_without_output() {
    let lines = tokenize("Pop");
    let prog = assemble(&lines).unwrap();
    let tagged = interpret_tagged(&prog, FUEL);
    assert_eq!(tagged.status, Status::Faulted(Fault::StackUnderflow));
    assert!(tagged.output.is_empty());

    let code = try_to_code(&prog).unwrap();
    let packed = interpret(&code, FUEL);
    assert_eq!(packed.status, Status::Faulted(Fault::StackUnderflow));
    assert!(packed.output.is_empty());
}

#[test]
fn comments_and_blank_lines_are_discarded() {
    let r = run_source("-- a comment line\n\nPush 1\n   \n-- another\nPush 2\nAdd\nPrint");
    assert_eq!(out_str(&r), "3");
}

#[test]
fn loop_with_label_counts_down() {
    // count down from 3 to 0, printing the value each time round
    let src = "Push 3\nlabel top\nGet 0\nPrint\nPop\nDecr\nGet 0\nJNE top\nPop\nPrintStack";
    let r = run_source(src);
    assert_eq!(r.status, Status::Halted);
    assert_eq!(out_str(&r), "321[0]\n");
}

#[test]
fn printstack_matches_debug_form_end_to_end() {
    let r = run_source("Push 10\nPush -20\nPrintStack");
    assert_eq!(out_str(&r), format!("{:?}\n", vec![10i64, -20]));
}

#[test]
fn procedure_with_arguments_swaps_through_setarg() {
    let src = "Proc bump\nGetArg 0\nIncr\nSetArg 0\nPop\nRet\nEnd\nPush 9\nCall bump\nPrint";
    let r = run_source(src);
    assert_eq!(r.status, Status::Halted);
    assert_eq!(out_str(&r), "10");
    assert_eq!(r.stack, vec![10]);
}
