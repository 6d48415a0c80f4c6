use brainfuck::interpreter::{Frame, Interpreter, Outcome, Progress};
use brainfuck::lexer::Lexer;
use brainfuck::tape::Tape;
use brainfuck::token::Token;

#[test]
fn tokenize_recognizes_all_eight_opcodes() {
    let mut lexer = Lexer::new("<>+-.,[]".chars().collect());
    let tokens = lexer.tokenize();
    assert_eq!(
        tokens,
        vec![
            Token::Left,
            Token::Right,
            Token::Plus,
            Token::Minus,
            Token::Output,
            Token::Input,
            Token::EnterLoop,
            Token::ExitLoop,
        ]
    );
}

#[test]
fn tokenize_drops_unrecognized_characters() {
    let mut lexer = Lexer::new("a + b - c . d , e [ f ] g < h > i".chars().collect());
    let tokens = lexer.tokenize();
    assert_eq!(
        tokens,
        vec![
            Token::Plus,
            Token::Minus,
            Token::Output,
            Token::Input,
            Token::EnterLoop,
            Token::ExitLoop,
            Token::Left,
            Token::Right,
        ]
    );
}

#[test]
fn tokenize_empty_source_gives_no_tokens() {
    let mut lexer = Lexer::new(Vec::new());
    assert_eq!(lexer.tokenize(), Vec::<Token>::new());
}

#[test]
fn tokenize_keeps_source_order_of_duplicates() {
    let mut lexer = Lexer::new("+x+y-z+".chars().collect());
    let tokens = lexer.tokenize();
    assert_eq!(tokens, vec![Token::Plus, Token::Plus, Token::Minus, Token::Plus]);
}

#[test]
fn tokenize_handles_non_ascii_noise() {
    let mut lexer = Lexer::new("données→+λ.".chars().collect());
    let tokens = lexer.tokenize();
    assert_eq!(tokens, vec![Token::Plus, Token::Output]);
}

#[test]
fn engine_resumes_after_a_pause() {
    // Run the letter-A program one instruction at a time through the public
    // engine and check that chunked execution produces the same output as a
    // single run.
    let mut lexer = Lexer::new("++++++++[>++++++++<-]>+.".chars().collect());
    let tokens = lexer.tokenize();
    let mut tape = Tape::new();
    let mut output: Vec<u8> = Vec::new();
    let mut frames: Vec<Frame> = Vec::new();
    let mut ip: usize = 0;
    let mut in_pos: usize = 0;
    let input: Vec<u8> = Vec::new();
    loop {
        match Interpreter::execute(
            &tokens,
            &mut tape,
            &input,
            &mut output,
            &mut frames,
            ip,
            in_pos,
            1,
        ) {
            Ok(Progress::Halted) => break,
            Ok(Progress::Paused { ip: p, in_pos: q }) => {
                ip = p;
                in_pos = q;
            },
            Err(f) => panic!("unexpected fault: {:?}", f),
        }
    }
    assert_eq!(output, b"A".to_vec());
}

#[test]
fn interpreter_can_run_twice_sequentially() {
    let mut first = Interpreter::new(",.".chars().collect());
    match first.interpret(&vec![7u8], 1000) {
        Outcome::Done(out) => assert_eq!(out, vec![7u8]),
        _ => panic!("expected completion"),
    }
    let mut second = Interpreter::new("+.".chars().collect());
    match second.interpret(&Vec::new(), 1000) {
        Outcome::Done(out) => assert_eq!(out, vec![1u8]),
        _ => panic!("expected completion"),
    }
}
