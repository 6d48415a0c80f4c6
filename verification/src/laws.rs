use crate::lexer::{lemma_tokens_of_concat, tokens_of};
use crate::machine::{
    find_close, find_open, init_state, lemma_step_preserves_wf, lemma_steps_snoc, step, steps,
    wf_state, ExecState, Machine,
};
use crate::tape::{inc_cell, TAPE_LEN};
use crate::token::{is_opcode_char, opcode_of, Token};
use vstd::prelude::*;

verus! {

/// Tokenization keeps exactly the opcode characters, in their source order:
/// the token sequence is the source filtered down to opcode characters, each
/// mapped to its opcode.
pub proof fn lemma_tokenize_keeps_source_order(s: Seq<char>)
    ensures
        tokens_of(s) == s.filter(|c: char| is_opcode_char(c)).map_values(
            (|c: char| opcode_of(c).unwrap()),
        ),
    decreases s.len(),
{
    let pred = |c: char| is_opcode_char(c);
    let f = |c: char| opcode_of(c).unwrap();
    reveal_with_fuel(Seq::<char>::filter, 2);
    if s.len() == 0 {
        assert(s.filter(pred) =~= s);
        assert(s.map_values(f) =~= Seq::<Token>::empty());
    } else {
        let a = s.drop_last();
        let last = s.last();
        lemma_tokenize_keeps_source_order(a);
        assert(s =~= a + seq![last]);
        lemma_tokens_of_concat(a, seq![last]);
        Seq::filter_distributes_over_add(a, seq![last], pred);
        assert(seq![last].drop_first() =~= Seq::<char>::empty());
        assert(seq![last].drop_last() =~= Seq::<char>::empty());
        assert(tokens_of(Seq::<char>::empty()) == Seq::<Token>::empty());
        assert(Seq::<char>::empty().filter(pred) == Seq::<char>::empty());
        assert(seq![last].len() == 1 && seq![last][0] == last && seq![last].last() == last);
        if is_opcode_char(last) {
            assert(tokens_of(seq![last]) =~= seq![opcode_of(last).unwrap()]);
            assert(seq![last].filter(pred) == Seq::<char>::empty().filter(pred).push(last));
            assert(seq![last].filter(pred) =~= seq![last]);
            assert(s.filter(pred) =~= a.filter(pred).push(last));
            assert(a.filter(pred).push(last).map_values(f) =~= a.filter(pred).map_values(f).push(
                f(last),
            ));
            assert(tokens_of(s) =~= s.filter(pred).map_values(f));
        } else {
            assert(tokens_of(seq![last]) =~= Seq::<Token>::empty());
            assert(tokens_of(s) =~= tokens_of(a));
            assert(seq![last].filter(pred) == Seq::<char>::empty().filter(pred));
            assert(seq![last].filter(pred) =~= Seq::<char>::empty());
            assert(s.filter(pred) =~= a.filter(pred) + Seq::<char>::empty());
            assert(s.filter(pred) =~= a.filter(pred));
        }
    }
}

/// Tokenization is blind to everything but opcode characters: inserting any
/// non-opcode character anywhere in the source leaves the token sequence
/// unchanged.
pub proof fn lemma_tokenize_ignores_nonopcode(a: Seq<char>, c: char, b: Seq<char>)
    requires
        !is_opcode_char(c),
    ensures
        tokens_of(a + seq![c] + b) == tokens_of(a + b),
{
    lemma_tokens_of_concat(a, seq![c] + b);
    lemma_tokens_of_concat(seq![c], b);
    lemma_tokens_of_concat(a, b);
    assert(a + seq![c] + b =~= a + (seq![c] + b));
    assert(seq![c].drop_first() =~= Seq::<char>::empty());
    assert(tokens_of(Seq::<char>::empty()) == Seq::<Token>::empty());
    assert(seq![c].len() == 1 && seq![c][0] == c);
    assert(tokens_of(seq![c]) =~= Seq::<Token>::empty());
    assert(tokens_of(a) + (tokens_of(seq![c]) + tokens_of(b)) =~= tokens_of(a) + tokens_of(b));
}

/// Whatever state a run reaches, it is well formed; in particular the data
/// cursor always stays inside the tape. (Cells hold bytes by type, so every
/// cell value is in 0..=255 in every reachable state.)
pub proof fn lemma_run_states_wf(tokens: Seq<Token>, m: Machine, n: nat)
    requires
        (match m {
            Machine::Running(st) => wf_state(tokens, st),
            Machine::Done(st) => wf_state(tokens, st),
            Machine::Failed(f, st) => wf_state(tokens, st),
        }),
    ensures
        (match steps(tokens, m, n) {
            Machine::Running(st) => wf_state(tokens, st),
            Machine::Done(st) => wf_state(tokens, st),
            Machine::Failed(f, st) => wf_state(tokens, st),
        }),
    decreases n,
{
    if n > 0 {
        match m {
            Machine::Running(st) => {
                lemma_step_preserves_wf(tokens, st);
            },
            _ => {},
        }
        lemma_run_states_wf(tokens, step(tokens, m), (n - 1) as nat);
    }
}

/// The data cursor is always in `[0, TAPE_LEN)`: in every state a program
/// reaches from the initial one, however many steps it has taken.
pub proof fn lemma_data_cursor_in_range(tokens: Seq<Token>, input: Seq<u8>, n: nat)
    ensures
        (match steps(tokens, Machine::Running(init_state(input)), n) {
            Machine::Running(st) => 0 <= st.cursor < TAPE_LEN,
            Machine::Done(st) => 0 <= st.cursor < TAPE_LEN,
            Machine::Failed(f, st) => 0 <= st.cursor < TAPE_LEN,
        }),
{
    assert(wf_state(tokens, init_state(input)));
    lemma_run_states_wf(tokens, Machine::Running(init_state(input)), n);
}

/// An increment followed by a decrement of the same cell is a no-op: two
/// steps later, the tape, the cursor, the input, and the output are all
/// unchanged, and the instruction cursor has moved past both instructions.
pub proof fn lemma_plus_then_minus_is_noop(tokens: Seq<Token>, st: ExecState)
    requires
        wf_state(tokens, st),
        st.ip + 1 < tokens.len(),
        tokens[st.ip] == Token::Plus,
        tokens[st.ip + 1] == Token::Minus,
    ensures
        steps(tokens, Machine::Running(st), 2) matches Machine::Running(st2) && st2.tape == st.tape
            && st2.cursor == st.cursor && st2.ip == st.ip + 2 && st2.input == st.input && st2.output
            == st.output,
{
    let m0 = Machine::Running(st);
    let m1 = step(tokens, m0);
    let m2 = step(tokens, m1);
    assert(steps(tokens, m0, 2) == steps(tokens, m1, 1));
    assert(steps(tokens, m1, 1) == steps(tokens, m2, 0));
    assert(steps(tokens, m2, 0) == m2);
    let v = st.tape[st.cursor];
    assert(st.tape.update(st.cursor, inc_cell(v))[st.cursor] == inc_cell(v));
    assert(st.tape.update(st.cursor, inc_cell(v)).update(st.cursor, v) =~= st.tape);
}

/// `k` applications of the wrap-around increment.
pub open spec fn iter_inc(k: nat, v: u8) -> u8
    decreases k,
{
    if k == 0 {
        v
    } else {
        inc_cell(iter_inc((k - 1) as nat, v))
    }
}

/// Repeated increments count modulo 256.
pub proof fn lemma_iter_inc_mod(k: nat, v: u8)
    ensures
        iter_inc(k, v) == ((v + k) % 256) as u8,
    decreases k,
{
    if k > 0 {
        lemma_iter_inc_mod((k - 1) as nat, v);
    }
}

/// A run of `k` consecutive increment instructions adds `k` to the current
/// cell modulo 256 and touches nothing else on the tape.
pub proof fn lemma_plus_run(tokens: Seq<Token>, st: ExecState, k: nat)
    requires
        wf_state(tokens, st),
        st.ip + k <= tokens.len(),
        forall|j: int| st.ip <= j < st.ip + k ==> tokens[j] == Token::Plus,
    ensures
        steps(tokens, Machine::Running(st), k) matches Machine::Running(st2) && st2.tape
            == st.tape.update(st.cursor, iter_inc(k, st.tape[st.cursor])) && st2.cursor == st.cursor
            && st2.ip == st.ip + k && st2.input == st.input && st2.output == st.output,
    decreases k,
{
    let v = st.tape[st.cursor];
    if k == 0 {
        assert(st.tape.update(st.cursor, v) =~= st.tape);
    } else {
        lemma_plus_run(tokens, st, (k - 1) as nat);
        lemma_steps_snoc(tokens, Machine::Running(st), (k - 1) as nat);
        let prev = steps(tokens, Machine::Running(st), (k - 1) as nat);
        assert(prev matches Machine::Running(st2) && st2.tape[st2.cursor] == iter_inc(
            (k - 1) as nat,
            v,
        ));
        assert(st.tape.update(st.cursor, iter_inc((k - 1) as nat, v)).update(
            st.cursor,
            iter_inc(k, v),
        ) =~= st.tape.update(st.cursor, iter_inc(k, v)));
    }
}

/// 256 consecutive increment instructions on a zero cell leave the whole tape
/// exactly as it was.
pub proof fn lemma_cell_wraps_to_zero(tokens: Seq<Token>, st: ExecState)
    requires
        wf_state(tokens, st),
        st.ip + 256 <= tokens.len(),
        forall|j: int| st.ip <= j < st.ip + 256 ==> tokens[j] == Token::Plus,
        st.tape[st.cursor] == 0,
    ensures
        steps(tokens, Machine::Running(st), 256) matches Machine::Running(st2) && st2.tape
            == st.tape && st2.cursor == st.cursor && st2.ip == st.ip + 256,
{
    lemma_plus_run(tokens, st, 256);
    lemma_iter_inc_mod(256, 0);
    assert(iter_inc(256, 0) == 0);
    assert(st.tape.update(st.cursor, 0u8) =~= st.tape);
}

/// The instruction under the cursor can execute without a fault: a move does
/// not run off the tape's edge, an input instruction has a byte left to read,
/// and a bracket has a matching partner.
pub open spec fn safe_running(tokens: Seq<Token>, m: Machine) -> bool {
    m matches Machine::Running(st) ==> (0 <= st.ip < tokens.len() ==> (match tokens[st.ip] {
        Token::Left => st.cursor != 0,
        Token::Right => st.cursor != TAPE_LEN - 1,
        Token::Input => st.input.len() != 0,
        Token::EnterLoop => find_close(tokens, st.ip + 1, 0) is Some,
        Token::ExitLoop => find_open(tokens, st.ip - 1, 0) is Some,
        _ => true,
    }))
}

/// A program whose brackets always match, whose data cursor never runs off
/// either edge of the tape, and which never needs more input than was
/// provided, never faults: if it halts at all, it halts normally and emits no
/// diagnostic.
pub proof fn lemma_safe_run_never_faults(tokens: Seq<Token>, m: Machine, n: nat)
    requires
        !(m is Failed),
        forall|k: nat| k < n ==> safe_running(tokens, #[trigger] steps(tokens, m, k)),
    ensures
        !(steps(tokens, m, n) is Failed),
    decreases n,
{
    if n > 0 {
        lemma_safe_run_never_faults(tokens, m, (n - 1) as nat);
        lemma_steps_snoc(tokens, m, (n - 1) as nat);
        let prev = steps(tokens, m, (n - 1) as nat);
        assert(safe_running(tokens, prev));
        assert(!(step(tokens, prev) is Failed));
    }
}

/// For every byte, the program `,.` copies its single input byte to the
/// output and halts normally after three steps.
pub proof fn lemma_roundtrip(b: u8)
    ensures
        ({
            let tokens = tokens_of(",."@);
            steps(tokens, Machine::Running(init_state(seq![b])), 3) matches Machine::Done(st)
                && st.output =~= seq![b]
        }),
{
    reveal_strlit(",.");
    let s = ",."@;
    assert(s.len() == 2 && s[0] == ',' && s[1] == '.');
    assert(s.drop_first() =~= seq!['.']);
    assert(seq!['.'].drop_first() =~= Seq::<char>::empty());
    assert(tokens_of(Seq::<char>::empty()) == Seq::<Token>::empty());
    assert(tokens_of(seq!['.']) =~= seq![Token::Output]);
    let tokens = tokens_of(s);
    assert(tokens =~= seq![Token::Input, Token::Output]);
    let st0 = init_state(seq![b]);
    let m0 = Machine::Running(st0);
    let m1 = step(tokens, m0);
    let m2 = step(tokens, m1);
    let m3 = step(tokens, m2);
    assert(steps(tokens, m0, 3) == steps(tokens, m1, 2));
    assert(steps(tokens, m1, 2) == steps(tokens, m2, 1));
    assert(steps(tokens, m2, 1) == steps(tokens, m3, 0));
    assert(steps(tokens, m3, 0) == m3);
    assert(st0.input.len() == 1 && st0.input[0] == b);
    assert(seq![b].drop_first() =~= Seq::<u8>::empty());
    assert(st0.tape.update(0, b)[0] == b);
    assert(m1 matches Machine::Running(st1) && st1.ip == 1 && st1.tape[0] == b && st1.output
        =~= Seq::<u8>::empty());
    assert(m2 matches Machine::Running(st2) && st2.ip == 2 && st2.output =~= seq![b]);
    assert(m3 matches Machine::Done(st3) && st3.output =~= seq![b]);
}

} // verus!

