use crate::fault::Fault;
use crate::tape::{dec_cell, inc_cell, TAPE_LEN};
use crate::token::Token;
use vstd::prelude::*;

verus! {

/// A snapshot of the currently executing instruction, recorded for the
/// diagnostic trace: the data cursor, the opcode, and its token position.
#[verifier::ext_equal]
pub ghost struct SpecFrame {
    pub cell: int,
    pub token: Token,
    pub index: int,
}

/// The full state of a running interpreter: the tape cells, the data cursor,
/// the instruction cursor, the input bytes not yet consumed, the output bytes
/// emitted so far, and the trace stack (outermost frame first).
#[verifier::ext_equal]
pub ghost struct ExecState {
    pub tape: Seq<u8>,
    pub cursor: int,
    pub ip: int,
    pub input: Seq<u8>,
    pub output: Seq<u8>,
    pub frames: Seq<SpecFrame>,
}

/// A machine is either still running, halted normally, or halted on a fault.
#[verifier::ext_equal]
pub ghost enum Machine {
    Running(ExecState),
    Done(ExecState),
    Failed(Fault, ExecState),
}

/// The state a run starts from: a zeroed tape, both cursors at 0, the given
/// input still unread, nothing written, and an empty trace stack.
pub open spec fn init_state(input: Seq<u8>) -> ExecState {
    ExecState {
        tape: Seq::new(TAPE_LEN as nat, |i: int| 0u8),
        cursor: 0,
        ip: 0,
        input: input,
        output: Seq::empty(),
        frames: Seq::empty(),
    }
}

/// The position of the `]` that closes the bracket level entered before `j`:
/// the first `]` at or after `j` once `level` more `[` have been balanced.
pub open spec fn find_close(tokens: Seq<Token>, j: int, level: int) -> Option<int>
    decreases tokens.len() - j,
{
    if j < 0 || j >= tokens.len() {
        None
    } else if tokens[j] == Token::ExitLoop {
        if level == 0 {
            Some(j)
        } else {
            find_close(tokens, j + 1, level - 1)
        }
    } else if tokens[j] == Token::EnterLoop {
        find_close(tokens, j + 1, level + 1)
    } else {
        find_close(tokens, j + 1, level)
    }
}

/// The position of the `[` that opens the bracket level left after `j`:
/// the first `[` at or before `j` once `level` more `]` have been balanced.
pub open spec fn find_open(tokens: Seq<Token>, j: int, level: int) -> Option<int>
    decreases j + 1,
{
    if j < 0 || j >= tokens.len() {
        None
    } else if tokens[j] == Token::EnterLoop {
        if level == 0 {
            Some(j)
        } else {
            find_open(tokens, j - 1, level - 1)
        }
    } else if tokens[j] == Token::ExitLoop {
        find_open(tokens, j - 1, level + 1)
    } else {
        find_open(tokens, j - 1, level)
    }
}

/// A successful forward scan lands on a `]` at or after where it started.
pub proof fn lemma_find_close_range(tokens: Seq<Token>, j: int, level: int)
    ensures
        find_close(tokens, j, level) matches Some(e) ==> j <= e < tokens.len() && tokens[e]
            == Token::ExitLoop,
    decreases tokens.len() - j,
{
    if 0 <= j < tokens.len() {
        lemma_find_close_range(tokens, j + 1, level - 1);
        lemma_find_close_range(tokens, j + 1, level + 1);
        lemma_find_close_range(tokens, j + 1, level);
    }
}

/// A successful backward scan lands on a `[` at or before where it started.
pub proof fn lemma_find_open_range(tokens: Seq<Token>, j: int, level: int)
    ensures
        find_open(tokens, j, level) matches Some(s) ==> 0 <= s <= j && s < tokens.len() && tokens[s]
            == Token::EnterLoop,
    decreases j + 1,
{
    if 0 <= j < tokens.len() {
        lemma_find_open_range(tokens, j - 1, level - 1);
        lemma_find_open_range(tokens, j - 1, level + 1);
        lemma_find_open_range(tokens, j - 1, level);
    }
}

/// A state the machine can actually be in: a full tape, the data cursor
/// inside it, and the instruction cursor at most one past the last token.
pub open spec fn wf_state(tokens: Seq<Token>, st: ExecState) -> bool {
    &&& st.tape.len() == TAPE_LEN
    &&& 0 <= st.cursor < TAPE_LEN
    &&& 0 <= st.ip <= tokens.len()
}

/// One step out of a well-formed state leaves the machine in a well-formed
/// state, whether it keeps running, halts, or faults.
pub proof fn lemma_step_preserves_wf(tokens: Seq<Token>, st: ExecState)
    requires
        wf_state(tokens, st),
    ensures
        (match step(tokens, Machine::Running(st)) {
            Machine::Running(st2) => wf_state(tokens, st2),
            Machine::Done(st2) => wf_state(tokens, st2),
            Machine::Failed(f, st2) => wf_state(tokens, st2),
        }),
{
    if 0 <= st.ip < tokens.len() {
        match tokens[st.ip] {
            Token::EnterLoop => {
                lemma_find_close_range(tokens, st.ip + 1, 0);
            },
            Token::ExitLoop => {
                lemma_find_open_range(tokens, st.ip - 1, 0);
            },
            _ => {},
        }
    }
}

/// The trace stack after the top frame is brought up to date for the
/// instruction about to execute.
pub open spec fn record_frame(tokens: Seq<Token>, st: ExecState) -> Seq<SpecFrame> {
    let fr = SpecFrame { cell: st.cursor, token: tokens[st.ip], index: st.ip };
    if st.frames.len() == 0 {
        seq![fr]
    } else {
        st.frames.update(st.frames.len() - 1, fr)
    }
}

/// One step of the interpreter: execute the instruction under the instruction
/// cursor, or halt when the cursor has passed the last token. Halted machines
/// do not move. A bracket with no matching partner faults as `UnbalancedLoop`
/// the moment it executes, whatever the current cell holds; an output
/// instruction appends the raw byte value of the current cell.
pub open spec fn step(tokens: Seq<Token>, m: Machine) -> Machine {
    match m {
        Machine::Running(pre) => {
            if !(0 <= pre.ip < tokens.len()) {
                Machine::Done(pre)
            } else {
                let st = ExecState { frames: record_frame(tokens, pre), ..pre };
                match tokens[st.ip] {
                    Token::Left => if st.cursor == 0 {
                        Machine::Failed(Fault::PointerUnderflow, st)
                    } else {
                        Machine::Running(ExecState { cursor: st.cursor - 1, ip: st.ip + 1, ..st })
                    },
                    Token::Right => if st.cursor == TAPE_LEN - 1 {
                        Machine::Failed(Fault::PointerOverflow, st)
                    } else {
                        Machine::Running(ExecState { cursor: st.cursor + 1, ip: st.ip + 1, ..st })
                    },
                    Token::Plus => Machine::Running(
                        ExecState {
                            tape: st.tape.update(st.cursor, inc_cell(st.tape[st.cursor])),
                            ip: st.ip + 1,
                            ..st
                        },
                    ),
                    Token::Minus => Machine::Running(
                        ExecState {
                            tape: st.tape.update(st.cursor, dec_cell(st.tape[st.cursor])),
                            ip: st.ip + 1,
                            ..st
                        },
                    ),
                    Token::Output => Machine::Running(
                        ExecState { output: st.output.push(st.tape[st.cursor]), ip: st.ip + 1, ..st },
                    ),
                    Token::Input => if st.input.len() == 0 {
                        Machine::Failed(Fault::InputExhausted, st)
                    } else {
                        Machine::Running(
                            ExecState {
                                tape: st.tape.update(st.cursor, st.input[0]),
                                input: st.input.drop_first(),
                                ip: st.ip + 1,
                                ..st
                            },
                        )
                    },
                    Token::EnterLoop => match find_close(tokens, st.ip + 1, 0) {
                        Option::None => Machine::Failed(Fault::UnbalancedLoop, st),
                        Option::Some(e) => if st.tape[st.cursor] == 0 {
                            Machine::Running(ExecState { ip: e + 1, ..st })
                        } else {
                            Machine::Running(
                                ExecState {
                                    ip: st.ip + 1,
                                    frames: st.frames.push(
                                        SpecFrame {
                                            cell: st.cursor,
                                            token: tokens[st.ip],
                                            index: st.ip,
                                        },
                                    ),
                                    ..st
                                },
                            )
                        },
                    },
                    Token::ExitLoop => match find_open(tokens, st.ip - 1, 0) {
                        Option::None => Machine::Failed(Fault::UnbalancedLoop, st),
                        Option::Some(s) => if st.tape[st.cursor] != 0 {
                            Machine::Running(ExecState { ip: s + 1, ..st })
                        } else {
                            Machine::Running(
                                ExecState {
                                    ip: st.ip + 1,
                                    frames: if st.frames.len() > 1 {
                                        st.frames.drop_last()
                                    } else {
                                        st.frames
                                    },
                                    ..st
                                },
                            )
                        },
                    },
                }
            }
        },
        Machine::Done(st) => Machine::Done(st),
        Machine::Failed(f, st) => Machine::Failed(f, st),
    }
}

/// `n` steps of the interpreter.
pub open spec fn steps(tokens: Seq<Token>, m: Machine, n: nat) -> Machine
    decreases n,
{
    if n == 0 {
        m
    } else {
        steps(tokens, step(tokens, m), (n - 1) as nat)
    }
}

/// Stepping `n + 1` times is stepping once after `n` times.
pub proof fn lemma_steps_snoc(tokens: Seq<Token>, m: Machine, n: nat)
    ensures
        steps(tokens, m, n + 1) == step(tokens, steps(tokens, m, n)),
    decreases n,
{
    if n == 0 {
        assert(steps(tokens, m, 1) == steps(tokens, step(tokens, m), 0));
        assert(steps(tokens, step(tokens, m), 0) == step(tokens, m));
        assert(steps(tokens, m, 0) == m);
    } else {
        lemma_steps_snoc(tokens, step(tokens, m), (n - 1) as nat);
        assert(steps(tokens, m, n + 1) == steps(tokens, step(tokens, m), n));
        assert(steps(tokens, m, n) == steps(tokens, step(tokens, m), (n - 1) as nat));
    }
}

/// Stepping `a + b` times is stepping `b` times after `a` times.
pub proof fn lemma_steps_add(tokens: Seq<Token>, m: Machine, a: nat, b: nat)
    ensures
        steps(tokens, m, a + b) == steps(tokens, steps(tokens, m, a), b),
    decreases a,
{
    if a > 0 {
        lemma_steps_add(tokens, step(tokens, m), (a - 1) as nat, b);
        assert(steps(tokens, m, a + b) == steps(tokens, step(tokens, m), (a + b - 1) as nat));
    }
}

/// A machine that has halted stays exactly where it halted.
pub proof fn lemma_halted_absorbs(tokens: Seq<Token>, m: Machine, n: nat)
    requires
        m is Done || m is Failed,
    ensures
        steps(tokens, m, n) == m,
    decreases n,
{
    if n > 0 {
        lemma_halted_absorbs(tokens, step(tokens, m), (n - 1) as nat);
    }
}

/// Execution is deterministic: however many steps two observers take, once
/// each sees a halted machine they see the same halted machine.
pub proof fn lemma_halt_unique(tokens: Seq<Token>, m: Machine, n1: nat, n2: nat)
    requires
        !(steps(tokens, m, n1) is Running),
        !(steps(tokens, m, n2) is Running),
    ensures
        steps(tokens, m, n1) == steps(tokens, m, n2),
{
    if n1 <= n2 {
        lemma_steps_add(tokens, m, n1, (n2 - n1) as nat);
        lemma_halted_absorbs(tokens, steps(tokens, m, n1), (n2 - n1) as nat);
    } else {
        lemma_steps_add(tokens, m, n2, (n1 - n2) as nat);
        lemma_halted_absorbs(tokens, steps(tokens, m, n2), (n1 - n2) as nat);
    }
}

} // verus!
