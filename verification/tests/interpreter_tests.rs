use brainfuck::fault::Fault;
use brainfuck::interpreter::{Interpreter, Outcome, RunFailure};
use brainfuck::token::Token;

const FUEL: usize = 10_000_000;

fn run(source: &str, input: &[u8]) -> Outcome {
    let mut it = Interpreter::new(source.chars().collect());
    it.interpret(&input.to_vec(), FUEL)
}

fn expect_output(source: &str, input: &[u8]) -> Vec<u8> {
    match run(source, input) {
        Outcome::Done(out) => out,
        Outcome::Fault(f) => panic!("unexpected fault: {}", f.diagnostic()),
        Outcome::Pending => panic!("ran out of fuel"),
    }
}

fn expect_fault(source: &str, input: &[u8]) -> RunFailure {
    match run(source, input) {
        Outcome::Fault(f) => f,
        Outcome::Done(_) => panic!("expected a fault, program completed"),
        Outcome::Pending => panic!("ran out of fuel"),
    }
}

#[test]
fn letter_a_from_nested_loop() {
    let out = expect_output("++++++++[>++++++++<-]>+.", &[]);
    assert_eq!(out, b"A".to_vec());
}

#[test]
fn echo_one_byte() {
    let out = expect_output(",.", &[0x42]);
    assert_eq!(out, b"B".to_vec());
}

#[test]
fn loop_with_no_output_completes() {
    let out = expect_output("++[>+<-]", &[]);
    assert_eq!(out, Vec::<u8>::new());
}

#[test]
fn move_left_at_edge_underflows() {
    let f = expect_fault("<", &[]);
    assert_eq!(f.kind, Fault::PointerUnderflow);
    assert!(f.diagnostic().contains("PointerUnderflow"));
    assert_eq!(f.output, Vec::<u8>::new());
}

#[test]
fn lone_open_bracket_is_unbalanced() {
    // An unmatched `[` is reported as UnbalancedLoop when it executes, even
    // though the current cell is zero.
    let f = expect_fault("[", &[]);
    assert_eq!(f.kind, Fault::UnbalancedLoop);
    assert!(f.diagnostic().contains("UnbalancedLoop"));
}

#[test]
fn lone_close_bracket_is_unbalanced() {
    let f = expect_fault("]", &[]);
    assert_eq!(f.kind, Fault::UnbalancedLoop);
}

#[test]
fn input_on_empty_stream_is_exhausted() {
    let f = expect_fault(",", &[]);
    assert_eq!(f.kind, Fault::InputExhausted);
    assert!(f.diagnostic().contains("InputExhausted"));
}

#[test]
fn infinite_loop_stays_pending() {
    // `+[]` never terminates; within any step budget it must still be running,
    // not spuriously done or faulted.
    match run("+[]", &[]) {
        Outcome::Pending => {},
        Outcome::Done(_) => panic!("infinite loop claimed to finish"),
        Outcome::Fault(_) => panic!("infinite loop claimed to fault"),
    }
}

#[test]
fn roundtrip_every_byte() {
    for b in 0..=255u8 {
        let out = expect_output(",.", &[b]);
        assert_eq!(out, vec![b]);
    }
}

#[test]
fn move_right_past_last_cell_overflows() {
    let source: String = ">".repeat(30000);
    let f = expect_fault(&source, &[]);
    assert_eq!(f.kind, Fault::PointerOverflow);
    assert!(f.diagnostic().contains("PointerOverflow"));
}

#[test]
fn move_right_to_last_cell_is_fine() {
    let source: String = ">".repeat(29999);
    let out = expect_output(&source, &[]);
    assert_eq!(out, Vec::<u8>::new());
}

#[test]
fn increment_wraps_255_to_zero() {
    let source = format!("{}.", "+".repeat(256));
    let out = expect_output(&source, &[]);
    assert_eq!(out, vec![0u8]);
}

#[test]
fn decrement_wraps_zero_to_255() {
    let out = expect_output("-.", &[]);
    assert_eq!(out, vec![255u8]);
}

#[test]
fn plus_then_minus_leaves_cell_unchanged() {
    let out = expect_output("+-.", &[]);
    assert_eq!(out, vec![0u8]);
}

#[test]
fn comments_and_whitespace_are_invisible() {
    let plain = expect_output(",.", &[0x41]);
    let noisy = expect_output("read one byte , then\n\twrite it back . done!", &[0x41]);
    assert_eq!(plain, noisy);
}

#[test]
fn raw_bytes_above_127_are_output_as_is() {
    let out = expect_output(",.", &[0xFF]);
    assert_eq!(out, vec![0xFF]);
}

#[test]
fn multiple_outputs_in_program_order() {
    let out = expect_output(",.+.+.", &[10]);
    assert_eq!(out, vec![10, 11, 12]);
}

#[test]
fn trace_lists_innermost_frame_first() {
    // The fault happens at `<` (index 2) inside the loop entered at `[`
    // (index 1); the trace reports the inner frame first.
    let f = expect_fault("+[<]", &[]);
    assert_eq!(f.kind, Fault::PointerUnderflow);
    assert_eq!(f.trace.len(), 2);
    assert_eq!(f.trace[0].token, Token::Left);
    assert_eq!(f.trace[0].index, 2);
    assert_eq!(f.trace[0].cell, 0);
    assert_eq!(f.trace[1].token, Token::EnterLoop);
    assert_eq!(f.trace[1].index, 1);
}

#[test]
fn diagnostic_text_for_underflow() {
    let f = expect_fault("<", &[]);
    assert_eq!(
        f.diagnostic(),
        "InterpreterError  PointerUnderflow\n\tat cell 0, token: Left (index 0)"
    );
}

#[test]
fn diagnostic_renders_multi_digit_positions() {
    let source = format!("{},", "+".repeat(10));
    let f = expect_fault(&source, &[]);
    assert_eq!(f.kind, Fault::InputExhausted);
    assert!(f.diagnostic().contains("(index 10)"));
    assert!(f.diagnostic().contains("token: Input"));
}

#[test]
fn fault_messages_name_the_kind() {
    assert_eq!(Fault::PointerUnderflow.message(), "PointerUnderflow");
    assert_eq!(Fault::PointerOverflow.message(), "PointerOverflow");
    assert_eq!(Fault::UnbalancedLoop.message(), "UnbalancedLoop");
    assert_eq!(Fault::InputExhausted.message(), "InputExhausted");
}

#[test]
fn output_before_fault_is_kept() {
    let f = expect_fault("+.<", &[]);
    assert_eq!(f.kind, Fault::PointerUnderflow);
    assert_eq!(f.output, vec![1u8]);
}

#[test]
fn empty_program_halts_with_no_output() {
    let out = expect_output("", &[]);
    assert_eq!(out, Vec::<u8>::new());
}

#[test]
fn comment_only_program_halts_with_no_output() {
    let out = expect_output("just a note about the program", &[]);
    assert_eq!(out, Vec::<u8>::new());
}

#[test]
fn skipped_loop_body_runs_nothing() {
    // The cell is zero at `[`, so the body (which would fault) is jumped over.
    let out = expect_output("[<],.", &[9]);
    assert_eq!(out, vec![9u8]);
}

#[test]
fn nested_loops_multiply() {
    // 3 * 4 = 12: the outer loop runs three times, adding four each time.
    let out = expect_output("+++[>++++<-]>.", &[]);
    assert_eq!(out, vec![12u8]);
}
