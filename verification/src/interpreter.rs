use crate::fault::Fault;
use crate::lexer::{tokens_of, Lexer};
use crate::machine::{
    find_close, find_open, init_state, lemma_find_close_range, lemma_find_open_range,
    lemma_steps_snoc, record_frame, step, steps, ExecState, Machine, SpecFrame,
};
use crate::tape::Tape;
use crate::token::Token;
use vstd::prelude::*;

verus! {

/// One line of a diagnostic trace: the data cursor, the opcode under
/// execution, and the opcode's position in the token sequence.
#[derive(Clone, Copy, PartialEq, Eq, Structural, Debug)]
pub struct Frame {
    pub cell: usize,
    pub token: Token,
    pub index: usize,
}

impl View for Frame {
    type V = SpecFrame;

    open spec fn view(&self) -> SpecFrame {
        SpecFrame { cell: self.cell as int, token: self.token, index: self.index as int }
    }
}

/// The trace stack as the machine model sees it.
pub open spec fn frames_view(frames: Seq<Frame>) -> Seq<SpecFrame> {
    frames.map_values(|f: Frame| f@)
}

/// The machine state that a set of interpreter variables stands for.
pub open spec fn live_state(
    tape: Tape,
    ip: int,
    input: Seq<u8>,
    in_pos: int,
    output: Seq<u8>,
    frames: Seq<Frame>,
) -> ExecState {
    ExecState {
        tape: tape.cells_view(),
        cursor: tape.cursor_view(),
        ip: ip,
        input: input.skip(in_pos),
        output: output,
        frames: frames_view(frames),
    }
}

/// The machine can reach this normal halting state from `from`.
pub open spec fn reaches_done(tokens: Seq<Token>, from: ExecState, st: ExecState) -> bool {
    exists|n: nat| steps(tokens, Machine::Running(from), n) == Machine::Done(st)
}

/// The machine can reach this faulted state from `from`.
pub open spec fn reaches_fault(
    tokens: Seq<Token>,
    from: ExecState,
    f: Fault,
    st: ExecState,
) -> bool {
    exists|n: nat| steps(tokens, Machine::Running(from), n) == Machine::Failed(f, st)
}

/// Scan forward for the `]` matching the bracket level open just before
/// `start`, exactly as `find_close` describes.
fn scan_close(tokens: &Vec<Token>, start: usize) -> (r: Option<usize>)
    requires
        start <= tokens@.len(),
    ensures
        match r {
            Option::Some(e) => find_close(tokens@, start as int, 0) == Some(e as int),
            Option::None => find_close(tokens@, start as int, 0) is None,
        },
{
    let mut j = start;
    let mut level: usize = 0;
    while j < tokens.len()
        invariant
            start <= j <= tokens@.len(),
            level <= j - start,
            find_close(tokens@, start as int, 0) == find_close(tokens@, j as int, level as int),
        decreases tokens@.len() - j,
    {
        let t = tokens[j];
        if t == Token::ExitLoop {
            if level == 0 {
                return Some(j);
            }
            level = level - 1;
        } else if t == Token::EnterLoop {
            level = level + 1;
        }
        j = j + 1;
    }
    None
}

/// Scan backward for the `[` matching the bracket level closed just after
/// `start`, exactly as `find_open` describes.
#[verifier::loop_isolation(false)]
fn scan_open(tokens: &Vec<Token>, start: usize) -> (r: Option<usize>)
    requires
        start < tokens@.len(),
    ensures
        match r {
            Option::Some(s) => find_open(tokens@, start as int, 0) == Some(s as int),
            Option::None => find_open(tokens@, start as int, 0) is None,
        },
{
    let n_tokens = tokens.len();
    let mut j = start;
    let mut level: usize = 0;
    loop
        invariant
            j <= start < tokens@.len(),
            level <= start - j,
            find_open(tokens@, start as int, 0) == find_open(tokens@, j as int, level as int),
        decreases j,
    {
        let t = tokens[j];
        if t == Token::EnterLoop {
            if level == 0 {
                return Some(j);
            }
            level = level - 1;
        } else if t == Token::ExitLoop {
            level = level + 1;
        }
        if j == 0 {
            proof {
                assert(find_open(tokens@, -1, level as int) is None);
            }
            return None;
        }
        j = j - 1;
    }
}

/// Why a run stopped: the fault kind, the trace stack with the innermost
/// frame first, and the bytes already written before the fault.
pub struct RunFailure {
    pub kind: Fault,
    pub trace: Vec<Frame>,
    pub output: Vec<u8>,
}

/// How far a budgeted run of the engine got.
#[derive(Clone, Copy, PartialEq, Eq, Structural, Debug)]
pub enum Progress {
    /// The instruction cursor passed the last token: normal completion.
    Halted,
    /// The step budget ran out first; execution can resume at this
    /// instruction cursor and input position.
    Paused { ip: usize, in_pos: usize },
}

/// What a whole budgeted run of a program produced.
pub enum Outcome {
    /// Normal completion, with everything the program wrote.
    Done(Vec<u8>),
    /// A runtime fault, with its diagnostic material.
    Fault(RunFailure),
    /// The step budget ran out before the program halted.
    Pending,
}

/// The interpreter: owns the lexer built over a source program.
pub struct Interpreter {
    lexer: Lexer,
}

impl Interpreter {
    /// The source characters this interpreter was built over.
    pub closed spec fn source(&self) -> Seq<char> {
        self.lexer.content_view()
    }

    pub closed spec fn wf(&self) -> bool {
        self.lexer.wf() && self.lexer.cursor_view() == 0
    }

    pub fn new(content: Vec<char>) -> (it: Interpreter)
        ensures
            it.wf(),
            it.source() == content@,
    {
        Interpreter { lexer: Lexer::new(content) }
    }

    /// The execution engine. Runs the token sequence against the given tape,
    /// starting at instruction cursor `start_ip` with `start_in` input bytes
    /// already consumed, reading further input bytes in order and appending
    /// output bytes, until the instruction cursor passes the last token, a
    /// fault is raised, or `fuel` instructions have executed. The result is
    /// exactly what the step machine reaches from the starting state; after a
    /// pause, a further call resumes where this one stopped.
    #[verifier::loop_isolation(false)]
    pub fn execute(
        tokens: &Vec<Token>,
        tape: &mut Tape,
        input: &Vec<u8>,
        output: &mut Vec<u8>,
        frames: &mut Vec<Frame>,
        start_ip: usize,
        start_in: usize,
        fuel: usize,
    ) -> (r: Result<Progress, Fault>)
        requires
            old(tape).wf(),
            start_ip <= tokens@.len(),
            start_in <= input@.len(),
        ensures
            final(tape).wf(),
            (match r {
                Result::Ok(Progress::Halted) => exists|st: ExecState|
                    #[trigger] reaches_done(
                        tokens@,
                        live_state(
                            *old(tape),
                            start_ip as int,
                            input@,
                            start_in as int,
                            old(output)@,
                            old(frames)@,
                        ),
                        st,
                    ) && st.tape == final(tape).cells_view()
                        && st.cursor == final(tape).cursor_view()
                        && st.output == final(output)@,
                Result::Ok(Progress::Paused { ip, in_pos }) => ip <= tokens@.len() && in_pos
                    <= input@.len() && steps(
                    tokens@,
                    Machine::Running(
                        live_state(
                            *old(tape),
                            start_ip as int,
                            input@,
                            start_in as int,
                            old(output)@,
                            old(frames)@,
                        ),
                    ),
                    fuel as nat,
                ) == Machine::Running(
                    live_state(
                        *final(tape),
                        ip as int,
                        input@,
                        in_pos as int,
                        final(output)@,
                        final(frames)@,
                    ),
                ),
                Result::Err(f) => exists|st: ExecState|
                    #[trigger] reaches_fault(
                        tokens@,
                        live_state(
                            *old(tape),
                            start_ip as int,
                            input@,
                            start_in as int,
                            old(output)@,
                            old(frames)@,
                        ),
                        f,
                        st,
                    ) && st.tape == final(tape).cells_view()
                        && st.cursor == final(tape).cursor_view()
                        && st.output == final(output)@
                        && st.frames == frames_view(final(frames)@),
            }),
    {
        let ghost toks: Seq<Token> = tokens@;
        let ghost pre: ExecState = live_state(
            *old(tape),
            start_ip as int,
            input@,
            start_in as int,
            old(output)@,
            old(frames)@,
        );
        let mut token_cursor: usize = start_ip;
        let mut in_pos: usize = start_in;
        let mut steps_left: usize = fuel;
        let ghost mut n: nat = 0;

        proof {
            assert(steps(toks, Machine::Running(pre), 0) == Machine::Running(pre));
            assert(pre =~= live_state(
                *tape,
                token_cursor as int,
                input@,
                in_pos as int,
                output@,
                frames@,
            ));
        }
        while token_cursor < tokens.len() && steps_left > 0
            invariant
                tape.wf(),
                token_cursor <= tokens@.len(),
                in_pos <= input@.len(),
                n + steps_left == fuel,
                steps(toks, Machine::Running(pre), n) == Machine::Running(
                    live_state(*tape, token_cursor as int, input@, in_pos as int, output@, frames@),
                ),
            decreases steps_left,
        {
            steps_left = steps_left - 1;
            let ghost cur: ExecState = live_state(
                *tape,
                token_cursor as int,
                input@,
                in_pos as int,
                output@,
                frames@,
            );
            let ghost ip0: int = in_pos as int;
            let t = tokens[token_cursor];
            let pos = tape.position();
            let fr = Frame { cell: pos, token: t, index: token_cursor };
            if frames.len() == 0 {
                frames.push(fr);
            } else {
                let l = frames.len() - 1;
                frames.set(l, fr);
            }
            let ghost st1: ExecState = (ExecState { frames: record_frame(toks, cur), ..cur });
            proof {
                assert(frames_view(frames@) =~= record_frame(toks, cur));
                lemma_steps_snoc(toks, Machine::Running(pre), n);
                n = n + 1;
            }
            match t {
                Token::Left => {
                    let res = tape.move_left();
                    if let Err(f) = res {
                        proof {
                            assert(step(toks, Machine::Running(cur)) =~= Machine::Failed(f, st1));
                            assert(reaches_fault(toks, pre, f, st1));
                        }
                        return Err(f);
                    }
                    token_cursor = token_cursor + 1;
                },
                Token::Right => {
                    let res = tape.move_right();
                    if let Err(f) = res {
                        proof {
                            assert(step(toks, Machine::Running(cur)) =~= Machine::Failed(f, st1));
                            assert(reaches_fault(toks, pre, f, st1));
                        }
                        return Err(f);
                    }
                    token_cursor = token_cursor + 1;
                },
                Token::Plus => {
                    tape.inc();
                    token_cursor = token_cursor + 1;
                },
                Token::Minus => {
                    tape.dec();
                    token_cursor = token_cursor + 1;
                },
                Token::Output => {
                    let b = tape.read();
                    output.push(b);
                    token_cursor = token_cursor + 1;
                },
                Token::Input => {
                    if in_pos >= input.len() {
                        proof {
                            assert(input@.skip(ip0) =~= Seq::<u8>::empty());
                            assert(step(toks, Machine::Running(cur)) =~= Machine::Failed(
                                Fault::InputExhausted,
                                st1,
                            ));
                            assert(reaches_fault(toks, pre, Fault::InputExhausted, st1));
                        }
                        return Err(Fault::InputExhausted);
                    }
                    let b = input[in_pos];
                    tape.write(b);
                    in_pos = in_pos + 1;
                    token_cursor = token_cursor + 1;
                    proof {
                        assert(input@.skip(ip0)[0] == input@[ip0]);
                        assert(input@.skip(ip0).drop_first() =~= input@.skip(in_pos as int));
                    }
                },
                Token::EnterLoop => {
                    let m = scan_close(tokens, token_cursor + 1);
                    match m {
                        Option::None => {
                            proof {
                                assert(step(toks, Machine::Running(cur)) =~= Machine::Failed(
                                    Fault::UnbalancedLoop,
                                    st1,
                                ));
                                assert(reaches_fault(toks, pre, Fault::UnbalancedLoop, st1));
                            }
                            return Err(Fault::UnbalancedLoop);
                        },
                        Option::Some(e) => {
                            proof {
                                lemma_find_close_range(toks, token_cursor as int + 1, 0);
                            }
                            if tape.read() == 0 {
                                token_cursor = e + 1;
                            } else {
                                frames.push(fr);
                                proof {
                                    assert(frames_view(frames@) =~= st1.frames.push(
                                        (SpecFrame {
                                            cell: st1.cursor,
                                            token: toks[st1.ip],
                                            index: st1.ip,
                                        }),
                                    ));
                                }
                                token_cursor = token_cursor + 1;
                            }
                        },
                    }
                },
                Token::ExitLoop => {
                    if token_cursor == 0 {
                        proof {
                            assert(find_open(toks, -1, 0) is None);
                            assert(step(toks, Machine::Running(cur)) =~= Machine::Failed(
                                Fault::UnbalancedLoop,
                                st1,
                            ));
                            assert(reaches_fault(toks, pre, Fault::UnbalancedLoop, st1));
                        }
                        return Err(Fault::UnbalancedLoop);
                    }
                    let m = scan_open(tokens, token_cursor - 1);
                    match m {
                        Option::None => {
                            proof {
                                assert(step(toks, Machine::Running(cur)) =~= Machine::Failed(
                                    Fault::UnbalancedLoop,
                                    st1,
                                ));
                                assert(reaches_fault(toks, pre, Fault::UnbalancedLoop, st1));
                            }
                            return Err(Fault::UnbalancedLoop);
                        },
                        Option::Some(s) => {
                            proof {
                                lemma_find_open_range(toks, token_cursor as int - 1, 0);
                            }
                            if tape.read() != 0 {
                                token_cursor = s + 1;
                            } else {
                                if frames.len() > 1 {
                                    let _popped = frames.pop();
                                    proof {
                                        assert(frames_view(frames@) =~= st1.frames.drop_last());
                                    }
                                }
                                token_cursor = token_cursor + 1;
                            }
                        },
                    }
                },
            }
            proof {
                assert(step(toks, Machine::Running(cur)) =~= Machine::Running(
                    live_state(*tape, token_cursor as int, input@, in_pos as int, output@, frames@),
                ));
            }
        }
        if token_cursor < tokens.len() {
            return Ok(Progress::Paused { ip: token_cursor, in_pos });
        }
        proof {
            let fin = live_state(
                *tape,
                token_cursor as int,
                input@,
                in_pos as int,
                output@,
                frames@,
            );
            lemma_steps_snoc(toks, Machine::Running(pre), n);
            assert(step(toks, Machine::Running(fin)) =~= Machine::Done(fin));
            assert(reaches_done(toks, pre, fin));
        }
        Ok(Progress::Halted)
    }

    /// Tokenize the source and run it against a fresh tape on the given
    /// input, for at most `fuel` instructions. On normal completion the full
    /// output is returned; on a fault the bytes written so far come back with
    /// the fault kind and the trace, innermost frame first; a program that
    /// needs more than `fuel` steps is still pending.
    pub fn interpret(&mut self, input: &Vec<u8>, fuel: usize) -> (r: Outcome)
        requires
            old(self).wf(),
        ensures
            final(self).source() == old(self).source(),
            (match r {
                Outcome::Done(out) => exists|st: ExecState|
                    #[trigger] reaches_done(
                        tokens_of(old(self).source()),
                        init_state(input@),
                        st,
                    ) && st.output == out@,
                Outcome::Fault(fail) => exists|st: ExecState|
                    #[trigger] reaches_fault(
                        tokens_of(old(self).source()),
                        init_state(input@),
                        fail.kind,
                        st,
                    ) && st.output == fail.output@ && frames_view(fail.trace@)
                        == st.frames.reverse(),
                Outcome::Pending => steps(
                    tokens_of(old(self).source()),
                    Machine::Running(init_state(input@)),
                    fuel as nat,
                ) is Running,
            }),
    {
        let tokens = self.lexer.tokenize();
        proof {
            assert(old(self).source().skip(0) =~= old(self).source());
        }
        let mut tape = Tape::new();
        let mut output: Vec<u8> = Vec::new();
        let mut frames: Vec<Frame> = Vec::new();
        let ghost pre: ExecState = live_state(tape, 0, input@, 0, output@, frames@);
        proof {
            assert(frames_view(frames@) =~= Seq::<SpecFrame>::empty());
            assert(pre =~= init_state(input@));
        }
        let res = Interpreter::execute(&tokens, &mut tape, input, &mut output, &mut frames, 0, 0, fuel);
        match res {
            Result::Ok(Progress::Halted) => Outcome::Done(output),
            Result::Ok(Progress::Paused { .. }) => Outcome::Pending,
            Result::Err(kind) => {
                let ghost orig: Seq<Frame> = frames@;
                let mut trace: Vec<Frame> = Vec::new();
                while frames.len() > 0
                    invariant
                        frames@.len() <= orig.len(),
                        frames@ == orig.subrange(0, frames@.len() as int),
                        trace@.len() + frames@.len() == orig.len(),
                        forall|i: int|
                            0 <= i < trace@.len() ==> trace@[i] == orig[orig.len() - 1 - i],
                    decreases frames@.len(),
                {
                    let popped = frames.pop();
                    if let Some(fr) = popped {
                        trace.push(fr);
                        proof {
                            assert(frames@ =~= orig.subrange(0, frames@.len() as int));
                        }
                    }
                }
                proof {
                    let st = choose|st: ExecState|
                        reaches_fault(tokens@, pre, kind, st) && st.tape == tape.cells_view()
                            && st.cursor == tape.cursor_view() && st.output == output@ && st.frames
                            == frames_view(orig);
                    assert(frames_view(trace@) =~= frames_view(orig).reverse());
                    assert(reaches_fault(tokens_of(old(self).source()), init_state(input@), kind, st));
                }
                Outcome::Fault(RunFailure { kind, trace, output })
            },
        }
    }
}

} // verus!
