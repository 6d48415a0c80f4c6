use vstd::prelude::*;

verus! {

/// One of the eight primitive instructions. Every other source character is
/// dropped at tokenization.
#[derive(Clone, Copy, PartialEq, Eq, Structural, Debug)]
pub enum Token {
    Left,
    Right,
    Plus,
    Minus,
    Output,
    Input,
    EnterLoop,
    ExitLoop,
}

/// The recognition table: which opcode, if any, a source character denotes.
pub open spec fn opcode_of(c: char) -> Option<Token> {
    match c {
        '<' => Some(Token::Left),
        '>' => Some(Token::Right),
        '+' => Some(Token::Plus),
        '-' => Some(Token::Minus),
        '.' => Some(Token::Output),
        ',' => Some(Token::Input),
        '[' => Some(Token::EnterLoop),
        ']' => Some(Token::ExitLoop),
        _ => None,
    }
}

pub open spec fn is_opcode_char(c: char) -> bool {
    opcode_of(c) is Some
}

} // verus!
