use crate::token::{is_opcode_char, opcode_of, Token};
use vstd::prelude::*;

verus! {

/// What tokenization yields: the opcodes of the recognized characters of `s`,
/// in source order; every other character is dropped.
pub open spec fn tokens_of(s: Seq<char>) -> Seq<Token>
    decreases s.len(),
{
    if s.len() == 0 {
        Seq::empty()
    } else {
        match opcode_of(s[0]) {
            Some(t) => seq![t] + tokens_of(s.drop_first()),
            None => tokens_of(s.drop_first()),
        }
    }
}

/// Tokenization distributes over concatenation of sources.
pub proof fn lemma_tokens_of_concat(a: Seq<char>, b: Seq<char>)
    ensures
        tokens_of(a + b) == tokens_of(a) + tokens_of(b),
    decreases a.len(),
{
    if a.len() == 0 {
        assert(a + b =~= b);
        assert(tokens_of(a) + tokens_of(b) =~= tokens_of(b));
    } else {
        lemma_tokens_of_concat(a.drop_first(), b);
        assert((a + b).drop_first() =~= a.drop_first() + b);
        assert((a + b)[0] == a[0]);
        match opcode_of(a[0]) {
            Some(t) => {
                assert(seq![t] + (tokens_of(a.drop_first()) + tokens_of(b)) =~= (seq![t]
                    + tokens_of(a.drop_first())) + tokens_of(b));
            },
            None => {},
        }
    }
}

pub struct Lexer {
    content: Vec<char>,
    cursor: usize,
}

impl Lexer {
    /// The source characters this lexer was built over.
    pub closed spec fn content_view(&self) -> Seq<char> {
        self.content@
    }

    /// How far tokenization has advanced into the source.
    pub closed spec fn cursor_view(&self) -> int {
        self.cursor as int
    }

    /// The cursor never passes the end of the source.
    pub closed spec fn wf(&self) -> bool {
        self.cursor <= self.content.len()
    }

    pub fn new(content: Vec<char>) -> (l: Lexer)
        ensures
            l.content_view() == content@,
            l.cursor_view() == 0,
            l.wf(),
    {
        Lexer { content, cursor: 0 }
    }

    /// Convert the remaining source into the opcode sequence, in source order,
    /// dropping every unrecognized character.
    pub fn tokenize(&mut self) -> (tokens: Vec<Token>)
        requires
            old(self).wf(),
        ensures
            final(self).wf(),
            tokens@ == tokens_of(old(self).content_view().skip(old(self).cursor_view())),
            final(self).content_view() == old(self).content_view(),
            final(self).cursor_view() == old(self).content_view().len(),
    {
        let mut tokens: Vec<Token> = Vec::new();
        let ghost orig: Seq<char> = self.content@;
        let ghost start: int = self.cursor as int;
        proof {
            assert(tokens_of(orig.skip(start)) =~= tokens@ + tokens_of(orig.skip(start)));
        }
        while self.cursor < self.content.len()
            invariant
                start <= self.cursor as int <= orig.len(),
                self.content@ == orig,
                tokens_of(orig.skip(start)) == tokens@ + tokens_of(orig.skip(self.cursor as int)),
            decreases orig.len() - self.cursor,
        {
            let c = self.content[self.cursor];
            let ghost i: int = self.cursor as int;
            let tok: Option<Token> = match c {
                '<' => Some(Token::Left),
                '>' => Some(Token::Right),
                '+' => Some(Token::Plus),
                '-' => Some(Token::Minus),
                '.' => Some(Token::Output),
                ',' => Some(Token::Input),
                '[' => Some(Token::EnterLoop),
                ']' => Some(Token::ExitLoop),
                _ => None,
            };
            proof {
                assert(tok == opcode_of(c));
                assert(orig.skip(i).len() > 0);
                assert(orig.skip(i)[0] == orig[i]);
                assert(orig.skip(i).drop_first() =~= orig.skip(i + 1));
            }
            let ghost pre: Seq<Token> = tokens@;
            if let Some(t) = tok {
                tokens.push(t);
                proof {
                    assert(tokens@ =~= pre + seq![t]);
                    assert((pre + seq![t]) + tokens_of(orig.skip(i + 1)) =~= pre + (seq![t]
                        + tokens_of(orig.skip(i + 1))));
                }
            }
            self.cursor = self.cursor + 1;
        }
        proof {
            assert(orig.skip(orig.len() as int).len() == 0);
            assert(tokens@ + tokens_of(orig.skip(orig.len() as int)) =~= tokens@);
        }
        tokens
    }
}

} // verus!
