//! The tape interpreter: a small-step machine over a linked program.
//!
//! The machine is the spec function [`step`], iterated by [`run`]; the
//! executable [`eval`] drives the machine for a caller-chosen number of
//! steps at most, and returns the bytes it wrote together with whether the
//! machine stopped on its own. Since a stopped machine stands still, a run
//! that stops within the budget is reported completely; a program that
//! never stops (a loop such as `+[]` is a correct program that runs
//! forever) outruns every budget, and is reported as not stopped.

use vstd::prelude::*;

use crate::command::Command;

verus! {

/// Number of byte cells on the tape.
pub const TAPE_LEN: usize = 30000;

/// The whole machine state: the tape, the memory pointer, the program
/// counter, the input bytes not yet consumed, and the output bytes written
/// so far.
pub struct EvalState {
    pub tape: Seq<u8>,
    pub pointer: int,
    pub pc: int,
    pub input: Seq<u8>,
    pub output: Seq<u8>,
}

/// The machine at rest: a zeroed tape, both pointers at 0, all input ahead,
/// no output yet.
pub open spec fn init_state(input: Seq<u8>) -> EvalState {
    EvalState {
        tape: Seq::new(TAPE_LEN as nat, |i: int| 0u8),
        pointer: 0,
        pc: 0,
        input: input,
        output: Seq::empty(),
    }
}

/// The program counter has left the program: the run is complete.
pub open spec fn halted(prog: Seq<Command>, st: EvalState) -> bool {
    !(0 <= st.pc < prog.len())
}

/// The next instruction would move the memory pointer off the tape. The
/// machine refuses the move and stops instead of corrupting memory.
pub open spec fn stuck(prog: Seq<Command>, st: EvalState) -> bool {
    0 <= st.pc < prog.len() && match prog[st.pc] {
        Command::IncrementPointer => st.pointer + 1 >= TAPE_LEN,
        Command::DecrementPointer => st.pointer <= 0,
        _ => false,
    }
}

/// The machine takes no further steps: it ran past the program or refused a
/// pointer move.
pub open spec fn stopped(prog: Seq<Command>, st: EvalState) -> bool {
    halted(prog, st) || stuck(prog, st)
}

/// A cell is an unsigned byte with wrap-around.
pub open spec fn wrap_inc(b: u8) -> u8 {
    if b == 255 {
        0
    } else {
        (b + 1) as u8
    }
}

pub open spec fn wrap_dec(b: u8) -> u8 {
    if b == 0 {
        255
    } else {
        (b - 1) as u8
    }
}

/// One step of the machine, for a state that is not stopped. The program
/// counter always advances by one after the dispatch, so a taken jump to a
/// partner bracket at `t` continues at `t + 1`.
pub open spec fn step(prog: Seq<Command>, st: EvalState) -> EvalState {
    match prog[st.pc] {
        Command::IncrementPointer => EvalState { pointer: st.pointer + 1, pc: st.pc + 1, ..st },
        Command::DecrementPointer => EvalState { pointer: st.pointer - 1, pc: st.pc + 1, ..st },
        Command::IncrementValue => EvalState {
            tape: st.tape.update(st.pointer, wrap_inc(st.tape[st.pointer])),
            pc: st.pc + 1,
            ..st
        },
        Command::DecrementValue => EvalState {
            tape: st.tape.update(st.pointer, wrap_dec(st.tape[st.pointer])),
            pc: st.pc + 1,
            ..st
        },
        Command::OutputValue => EvalState {
            output: st.output.push(st.tape[st.pointer]),
            pc: st.pc + 1,
            ..st
        },
        Command::InputValue => {
            if st.input.len() == 0 {
                EvalState { tape: st.tape.update(st.pointer, 0u8), pc: st.pc + 1, ..st }
            } else {
                EvalState {
                    tape: st.tape.update(st.pointer, st.input[0]),
                    input: st.input.drop_first(),
                    pc: st.pc + 1,
                    ..st
                }
            }
        },
        Command::ForwardsTo(t) => EvalState {
            pc: if st.tape[st.pointer] == 0 {
                t + 1
            } else {
                st.pc + 1
            },
            ..st
        },
        Command::BackwardsTo(t) => EvalState {
            pc: if st.tape[st.pointer] != 0 {
                t + 1
            } else {
                st.pc + 1
            },
            ..st
        },
    }
}

/// The machine after `n` steps from `st`, standing still once stopped.
pub open spec fn run(prog: Seq<Command>, st: EvalState, n: nat) -> EvalState
    decreases n,
{
    if n == 0 {
        st
    } else {
        let prev = run(prog, st, (n - 1) as nat);
        if stopped(prog, prev) {
            prev
        } else {
            step(prog, prev)
        }
    }
}

/// Once the machine stops it stays put: running longer changes nothing.
pub proof fn lemma_run_stopped_stable(prog: Seq<Command>, st: EvalState, m: nat, n: nat)
    requires
        m <= n,
        stopped(prog, run(prog, st, m)),
    ensures
        run(prog, st, n) == run(prog, st, m),
    decreases n,
{
    if n > m {
        lemma_run_stopped_stable(prog, st, m, (n - 1) as nat);
    }
}

/// Determinism: a program and an input have at most one stopped outcome.
/// Two runs from the same start that both stop, after however many steps,
/// stop in the same state — in particular with the same output bytes.
pub proof fn lemma_eval_deterministic(prog: Seq<Command>, input: Seq<u8>, n1: nat, n2: nat)
    requires
        stopped(prog, run(prog, init_state(input), n1)),
        stopped(prog, run(prog, init_state(input), n2)),
    ensures
        run(prog, init_state(input), n1) == run(prog, init_state(input), n2),
{
    if n1 <= n2 {
        lemma_run_stopped_stable(prog, init_state(input), n1, n2);
    } else {
        lemma_run_stopped_stable(prog, init_state(input), n2, n1);
    }
}

/// End-of-input policy: when `,` executes with the input exhausted, the
/// current cell becomes 0 and the input stays exhausted.
pub proof fn lemma_input_eof_zeroes_cell(prog: Seq<Command>, st: EvalState)
    requires
        0 <= st.pc < prog.len(),
        prog[st.pc] == Command::InputValue,
        st.input.len() == 0,
        0 <= st.pointer < st.tape.len(),
    ensures
        step(prog, st).tape[st.pointer] == 0,
        step(prog, st).input == st.input,
{
}

/// Appends one output byte, as-is.
fn write_byte(writer: &mut Vec<u8>, byte: u8)
    ensures
        final(writer)@ == old(writer)@.push(byte),
{
    writer.push(byte);
}

/// Reads the next input byte and advances the cursor; at end of input the
/// byte is 0 and the cursor stays.
fn read_byte(input: &[u8], pos: &mut usize) -> (b: u8)
    requires
        *old(pos) <= input@.len(),
    ensures
        *old(pos) < input@.len() ==> b == input@[*old(pos) as int] && *final(pos) == *old(pos) + 1,
        *old(pos) >= input@.len() ==> b == 0 && *final(pos) == *old(pos),
{
    if *pos < input.len() {
        let b = input[*pos];
        *pos = *pos + 1;
        b
    } else {
        0
    }
}

/// Runs a linked program against a fresh tape for at most `fuel` machine
/// steps, consuming bytes of `input` from the front.
///
/// Returns the bytes the program wrote and whether the machine stopped on
/// its own: `r.0` is the output of [`run`] after `fuel` steps from
/// [`init_state`], and `r.1` says whether that state is [`stopped`] — the
/// program ran to completion or refused a pointer move off the tape. Since
/// [`run`] stands still once stopped, a run that stops within the budget is
/// reported completely, whatever the budget. A program may never stop (a
/// loop such as `+[]` is a correct program that runs forever); no budget is
/// enough for it, and `r.1` stays false.
pub fn eval(program: Vec<Command>, input: &[u8], fuel: u64) -> (r: (Vec<u8>, bool))
    ensures
        ({
            let fin = run(program@, init_state(input@), fuel as nat);
            r.0@ == fin.output && r.1 == stopped(program@, fin)
        }),
{
    let prog_len = program.len();
    let mut tape: Vec<u8> = Vec::new();
    let mut fill: usize = 0;
    while fill < TAPE_LEN
        invariant
            fill == tape@.len(),
            fill <= TAPE_LEN,
            forall|j: int| 0 <= j < fill ==> tape@[j] == 0u8,
        decreases TAPE_LEN - fill,
    {
        tape.push(0u8);
        fill += 1;
    }
    let mut pointer: usize = 0;
    let mut pc: usize = 0;
    let mut read_pos: usize = 0;
    let mut out: Vec<u8> = Vec::new();
    let mut used: u64 = 0;
    let ghost init = init_state(input@);
    proof {
        assert(tape@ =~= init.tape);
        assert(input@.skip(0) =~= input@);
        assert(run(program@, init, 0) == init);
    }
    while pc < prog_len && used < fuel
        invariant
            init == init_state(input@),
            prog_len == program@.len(),
            tape@.len() == TAPE_LEN,
            pointer < TAPE_LEN,
            read_pos <= input@.len(),
            used <= fuel,
            run(program@, init, used as nat) == (EvalState {
                tape: tape@,
                pointer: pointer as int,
                pc: pc as int,
                input: input@.skip(read_pos as int),
                output: out@,
            }),
        decreases fuel - used,
    {
        let ghost pre = run(program@, init, used as nat);
        match program[pc] {
            Command::IncrementPointer => {
                if pointer + 1 >= TAPE_LEN {
                    proof {
                        assert(stuck(program@, pre));
                        lemma_run_stopped_stable(program@, init, used as nat, fuel as nat);
                    }
                    return (out, true);
                }
                pointer = pointer + 1;
            },
            Command::DecrementPointer => {
                if pointer == 0 {
                    proof {
                        assert(stuck(program@, pre));
                        lemma_run_stopped_stable(program@, init, used as nat, fuel as nat);
                    }
                    return (out, true);
                }
                pointer = pointer - 1;
            },
            Command::IncrementValue => {
                let b = tape[pointer];
                tape[pointer] = if b == 255 {
                    0
                } else {
                    b + 1
                };
            },
            Command::DecrementValue => {
                let b = tape[pointer];
                tape[pointer] = if b == 0 {
                    255
                } else {
                    b - 1
                };
            },
            Command::OutputValue => {
                write_byte(&mut out, tape[pointer]);
            },
            Command::InputValue => {
                let ghost before = read_pos as int;
                let b = read_byte(input, &mut read_pos);
                tape[pointer] = b;
                proof {
                    if before < input@.len() {
                        assert(input@.skip(before).drop_first() =~= input@.skip(before + 1));
                        assert(input@.skip(before)[0] == input@[before]);
                    } else {
                        assert(input@.skip(before).len() == 0);
                    }
                }
            },
            Command::ForwardsTo(t) => {
                if tape[pointer] == 0 {
                    if t >= prog_len {
                        proof {
                            assert(run(program@, init, (used + 1) as nat) == step(program@, pre));
                            assert(halted(program@, run(program@, init, (used + 1) as nat)));
                            lemma_run_stopped_stable(
                                program@,
                                init,
                                (used + 1) as nat,
                                fuel as nat,
                            );
                        }
                        return (out, true);
                    }
                    pc = t;
                }
            },
            Command::BackwardsTo(t) => {
                if tape[pointer] != 0 {
                    if t >= prog_len {
                        proof {
                            assert(run(program@, init, (used + 1) as nat) == step(program@, pre));
                            assert(halted(program@, run(program@, init, (used + 1) as nat)));
                            lemma_run_stopped_stable(
                                program@,
                                init,
                                (used + 1) as nat,
                                fuel as nat,
                            );
                        }
                        return (out, true);
                    }
                    pc = t;
                }
            },
        }
        pc = pc + 1;
        used = used + 1;
        proof {
            assert(run(program@, init, used as nat) == step(program@, pre));
        }
    }
    let done = if pc >= prog_len {
        proof {
            lemma_run_stopped_stable(program@, init, used as nat, fuel as nat);
        }
        true
    } else {
        match program[pc] {
            Command::IncrementPointer => pointer + 1 >= TAPE_LEN,
            Command::DecrementPointer => pointer == 0,
            _ => false,
        }
    };
    (out, done)
}

} // verus!
