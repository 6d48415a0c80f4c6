use crate::fault::{fault_name, Fault};
use crate::interpreter::{frames_view, Frame, RunFailure};
use crate::machine::SpecFrame;
use crate::token::Token;
use vstd::prelude::*;
use vstd::string::StringExecFns;

verus! {

/// The name of a token, as it appears in a trace line.
pub open spec fn token_name(t: Token) -> Seq<char> {
    match t {
        Token::Left => "Left"@,
        Token::Right => "Right"@,
        Token::Plus => "Plus"@,
        Token::Minus => "Minus"@,
        Token::Output => "Output"@,
        Token::Input => "Input"@,
        Token::EnterLoop => "EnterLoop"@,
        Token::ExitLoop => "ExitLoop"@,
    }
}

impl Token {
    /// The token's name, for a trace line.
    pub fn name(&self) -> (r: &'static str)
        ensures
            r@ == token_name(*self),
    {
        match self {
            Token::Left => "Left",
            Token::Right => "Right",
            Token::Plus => "Plus",
            Token::Minus => "Minus",
            Token::Output => "Output",
            Token::Input => "Input",
            Token::EnterLoop => "EnterLoop",
            Token::ExitLoop => "ExitLoop",
        }
    }
}

/// The character for one decimal digit.
pub open spec fn digit_char(d: nat) -> char {
    if d == 0 {
        '0'
    } else if d == 1 {
        '1'
    } else if d == 2 {
        '2'
    } else if d == 3 {
        '3'
    } else if d == 4 {
        '4'
    } else if d == 5 {
        '5'
    } else if d == 6 {
        '6'
    } else if d == 7 {
        '7'
    } else if d == 8 {
        '8'
    } else {
        '9'
    }
}

/// The decimal digits of `n`, most significant first, with no leading zero
/// except for zero itself.
pub open spec fn dec_rep(n: nat) -> Seq<char>
    decreases n,
{
    if n < 10 {
        seq![digit_char(n)]
    } else {
        dec_rep(n / 10).push(digit_char(n % 10))
    }
}

/// Append the character of one decimal digit.
fn append_digit(s: &mut String, d: usize)
    requires
        d < 10,
    ensures
        final(s)@ == old(s)@ + seq![digit_char(d as nat)],
{
    if d == 0 {
        s.append("0");
        proof {
            reveal_strlit("0");
            assert("0"@ =~= seq![digit_char(0)]);
        }
    } else if d == 1 {
        s.append("1");
        proof {
            reveal_strlit("1");
            assert("1"@ =~= seq![digit_char(1)]);
        }
    } else if d == 2 {
        s.append("2");
        proof {
            reveal_strlit("2");
            assert("2"@ =~= seq![digit_char(2)]);
        }
    } else if d == 3 {
        s.append("3");
        proof {
            reveal_strlit("3");
            assert("3"@ =~= seq![digit_char(3)]);
        }
    } else if d == 4 {
        s.append("4");
        proof {
            reveal_strlit("4");
            assert("4"@ =~= seq![digit_char(4)]);
        }
    } else if d == 5 {
        s.append("5");
        proof {
            reveal_strlit("5");
            assert("5"@ =~= seq![digit_char(5)]);
        }
    } else if d == 6 {
        s.append("6");
        proof {
            reveal_strlit("6");
            assert("6"@ =~= seq![digit_char(6)]);
        }
    } else if d == 7 {
        s.append("7");
        proof {
            reveal_strlit("7");
            assert("7"@ =~= seq![digit_char(7)]);
        }
    } else if d == 8 {
        s.append("8");
        proof {
            reveal_strlit("8");
            assert("8"@ =~= seq![digit_char(8)]);
        }
    } else {
        s.append("9");
        proof {
            reveal_strlit("9");
            assert("9"@ =~= seq![digit_char(9)]);
        }
    }
}

/// Append the decimal representation of `n`.
fn append_decimal(s: &mut String, n: usize)
    ensures
        final(s)@ == old(s)@ + dec_rep(n as nat),
    decreases n,
{
    if n >= 10 {
        append_decimal(s, n / 10);
    }
    append_digit(s, n % 10);
    proof {
        if n >= 10 {
            assert((old(s)@ + dec_rep(n as nat / 10)) + seq![digit_char((n % 10) as nat)] =~= old(
                s,
            )@ + dec_rep(n as nat));
        } else {
            assert(old(s)@ + seq![digit_char(n as nat)] =~= old(s)@ + dec_rep(n as nat));
        }
    }
}

/// One trace line: the data cursor, the token name, and the token position.
pub open spec fn frame_line(f: SpecFrame) -> Seq<char> {
    "\n\tat cell "@ + dec_rep(f.cell as nat) + ", token: "@ + token_name(f.token) + " (index "@
        + dec_rep(f.index as nat) + ")"@
}

/// The full diagnostic text for a fault: a header naming the fault kind,
/// then one line per trace frame, in trace order.
pub open spec fn diagnostic_text(kind: Fault, trace: Seq<SpecFrame>) -> Seq<char>
    decreases trace.len(),
{
    if trace.len() == 0 {
        "InterpreterError  "@ + fault_name(kind)
    } else {
        diagnostic_text(kind, trace.drop_last()) + frame_line(trace.last())
    }
}

impl RunFailure {
    /// Render the diagnostic: the header with the fault kind, then each
    /// trace frame on its own line, innermost frame first.
    pub fn diagnostic(&self) -> (r: String)
        ensures
            r@ == diagnostic_text(self.kind, frames_view(self.trace@)),
    {
        let ghost fv: Seq<SpecFrame> = frames_view(self.trace@);
        let mut s = String::new();
        s.append("InterpreterError  ");
        s.append(self.kind.message());
        proof {
            assert(fv.take(0) =~= Seq::<SpecFrame>::empty());
            assert(s@ =~= diagnostic_text(self.kind, fv.take(0)));
        }
        let mut i: usize = 0;
        while i < self.trace.len()
            invariant
                i <= self.trace@.len(),
                fv == frames_view(self.trace@),
                s@ == diagnostic_text(self.kind, fv.take(i as int)),
            decreases self.trace@.len() - i,
        {
            let ghost base: Seq<char> = s@;
            let fr = self.trace[i];
            s.append("\n\tat cell ");
            append_decimal(&mut s, fr.cell);
            s.append(", token: ");
            s.append(fr.token.name());
            s.append(" (index ");
            append_decimal(&mut s, fr.index);
            s.append(")");
            proof {
                assert(fv[i as int] == self.trace@[i as int]@);
                assert(s@ =~= base + frame_line(fv[i as int]));
                assert(fv.take(i + 1).drop_last() =~= fv.take(i as int));
                assert(fv.take(i + 1).last() == fv[i as int]);
                assert(s@ =~= diagnostic_text(self.kind, fv.take(i + 1)));
            }
            i = i + 1;
        }
        proof {
            assert(fv.take(self.trace@.len() as int) =~= fv);
        }
        s
    }
}

} // verus!
