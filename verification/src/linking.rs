//! Filtering and bracket linkage: what the scan's bookkeeping guarantees
//! about the emitted program.
//!
//! The invariant [`links_consistent`] holds of every scan state: the open
//! stack ascends and points at placeholders, and every instruction outside
//! the stack is half of a resolved pair whose two targets name each other.
//! [`mirrors_source`] adds that the emitted instructions stand for exactly
//! the command characters of the source, in order. From the two, a
//! successful parse filters its source ([`lemma_filtering`]) and links its
//! brackets in a bijection ([`lemma_bracket_bijection`]).

use vstd::prelude::*;

use crate::command::{Command, command_chars, denotes, is_command_char};
use crate::parser::{ParseState, lemma_parse_sizes, parse_chars, parse_ok, parse_step, parsed_program};

verus! {

/// Every scan state keeps its links consistent: the open stack ascends and
/// names `ForwardsTo` placeholders, every `ForwardsTo` off the stack points
/// forwards at the `BackwardsTo` that points back at it, and every
/// `BackwardsTo` points backwards at the resolved `ForwardsTo` that points
/// forwards at it.
pub open spec fn links_consistent(st: ParseState) -> bool {
    let p = st.program;
    let ops = st.opens;
    &&& forall|a: int, b: int|
        0 <= a < b < ops.len() ==> #[trigger] ops[a] < #[trigger] ops[b]
    &&& forall|a: int|
        0 <= a < ops.len() ==> (#[trigger] ops[a] as int) < p.len() && p[ops[a] as int] is ForwardsTo
    &&& forall|i: int|
        0 <= i < p.len() && (#[trigger] p[i]) is ForwardsTo && !ops.contains(i as usize) ==> {
            &&& i < p[i]->ForwardsTo_0 < p.len()
            &&& p[p[i]->ForwardsTo_0 as int] == Command::BackwardsTo(i as usize)
        }
    &&& forall|j: int|
        0 <= j < p.len() && (#[trigger] p[j]) is BackwardsTo ==> {
            &&& p[j]->BackwardsTo_0 < j
            &&& p[p[j]->BackwardsTo_0 as int] == Command::ForwardsTo(j as usize)
            &&& !ops.contains(p[j]->BackwardsTo_0)
        }
}

/// While no stray `]` has been seen, the emitted instructions stand for
/// exactly the command characters of the source, in order.
pub open spec fn mirrors_source(st: ParseState, s: Seq<char>) -> bool {
    !st.extra_close ==> {
        let cs = command_chars(s);
        &&& st.program.len() == cs.len()
        &&& forall|i: int| 0 <= i < cs.len() ==> denotes(#[trigger] st.program[i], cs[i])
    }
}

/// A linked instruction standing for a source character is a bracket exactly
/// when the character is.
proof fn lemma_denotes_bracket(cmd: Command, c: char)
    requires
        denotes(cmd, c),
    ensures
        cmd is ForwardsTo <==> c == '[',
        cmd is BackwardsTo <==> c == ']',
{
}

/// The scan invariant, by induction over the source.
pub proof fn lemma_parse_invariant(s: Seq<char>)
    requires
        s.len() <= usize::MAX,
    ensures
        links_consistent(parse_chars(s)),
        mirrors_source(parse_chars(s), s),
    decreases s.len(),
{
    reveal(Seq::<_>::filter);
    if s.len() == 0 {
    } else {
        let s0 = s.drop_last();
        let c = s.last();
        lemma_parse_invariant(s0);
        lemma_parse_sizes(s0);
        let st0 = parse_chars(s0);
        let st = parse_chars(s);
        assert(st == parse_step(st0, c));
        let p0 = st0.program;
        let ops0 = st0.opens;
        let p = st.program;
        let ops = st.opens;
        let n = p0.len() as int;
        let cs0 = command_chars(s0);
        let cs = command_chars(s);
        assert(cs == if is_command_char(c) {
            cs0.push(c)
        } else {
            cs0
        });
        if c == '[' {
            assert forall|i: int|
                0 <= i < p.len() && (#[trigger] p[i]) is ForwardsTo && !ops.contains(
                    i as usize,
                ) implies {
                &&& i < p[i]->ForwardsTo_0 < p.len()
                &&& p[p[i]->ForwardsTo_0 as int] == Command::BackwardsTo(i as usize)
            } by {
                assert(ops[ops.len() - 1] == n as usize);
                assert(ops.contains(n as usize));
                assert(i < n);
                if ops0.contains(i as usize) {
                    let a = choose|a: int| 0 <= a < ops0.len() && ops0[a] == i as usize;
                    assert(ops[a] == i as usize);
                    assert(ops.contains(i as usize));
                }
            }
            assert forall|j: int|
                0 <= j < p.len() && (#[trigger] p[j]) is BackwardsTo implies {
                &&& p[j]->BackwardsTo_0 < j
                &&& p[p[j]->BackwardsTo_0 as int] == Command::ForwardsTo(j as usize)
                &&& !ops.contains(p[j]->BackwardsTo_0)
            } by {
                assert(j < n);
                let t = p[j]->BackwardsTo_0;
                assert(!ops0.contains(t));
                if ops.contains(t) {
                    let a = choose|a: int| 0 <= a < ops.len() && ops[a] == t;
                    assert(a == ops.len() - 1);
                    assert(t == n as usize);
                }
            }
        } else if c == ']' && ops0.len() > 0 {
            let u = ops0.last();
            let ui = u as int;
            assert(ui < n && p0[ui] is ForwardsTo);
            assert(ops0.contains(u));
            assert(!ops.contains(u)) by {
                if ops.contains(u) {
                    let a = choose|a: int| 0 <= a < ops.len() && ops[a] == u;
                    assert(ops0[a] == u && a < ops0.len() - 1);
                    assert(ops0[a] < ops0[ops0.len() - 1]);
                }
            }
            assert forall|x: usize| #[trigger] ops.contains(x) implies ops0.contains(x) && x != u by {
                let a = choose|a: int| 0 <= a < ops.len() && ops[a] == x;
                assert(ops0[a] == x);
                assert(ops0[a] < ops0[ops0.len() - 1]);
            }
            assert forall|x: usize|
                ops0.contains(x) && x != u implies #[trigger] ops.contains(x) by {
                let a = choose|a: int| 0 <= a < ops0.len() && ops0[a] == x;
                assert(a < ops0.len() - 1);
                assert(ops[a] == x);
            }
            assert forall|i: int|
                0 <= i < p.len() && (#[trigger] p[i]) is ForwardsTo && !ops.contains(
                    i as usize,
                ) implies {
                &&& i < p[i]->ForwardsTo_0 < p.len()
                &&& p[p[i]->ForwardsTo_0 as int] == Command::BackwardsTo(i as usize)
            } by {
                assert(i < n);
                if i == ui {
                    assert(p[i] == Command::ForwardsTo(n as usize));
                    assert(p[n] == Command::BackwardsTo(u));
                } else {
                    assert(p[i] == p0[i]);
                    assert(!ops0.contains(i as usize));
                    let t = p0[i]->ForwardsTo_0;
                    assert(i < t < n && p0[t as int] == Command::BackwardsTo(i as usize));
                    assert(t as int != ui);
                    assert(p[t as int] == p0[t as int]);
                }
            }
            assert forall|j: int|
                0 <= j < p.len() && (#[trigger] p[j]) is BackwardsTo implies {
                &&& p[j]->BackwardsTo_0 < j
                &&& p[p[j]->BackwardsTo_0 as int] == Command::ForwardsTo(j as usize)
                &&& !ops.contains(p[j]->BackwardsTo_0)
            } by {
                if j == n {
                    assert(p[j] == Command::BackwardsTo(u));
                    assert(p[ui] == Command::ForwardsTo(n as usize));
                } else {
                    assert(j != ui);
                    assert(p[j] == p0[j]);
                    let t = p0[j]->BackwardsTo_0;
                    assert(t < j && p0[t as int] == Command::ForwardsTo(j as usize));
                    assert(!ops0.contains(t));
                    assert(t != u);
                    assert(p[t as int] == p0[t as int]);
                }
            }
            if !st.extra_close {
                assert(cs[ui] == cs0[ui]);
                lemma_denotes_bracket(p0[ui], cs0[ui]);
                assert(cs0[ui] == '[');
                assert forall|i: int| 0 <= i < cs.len() implies denotes(
                    #[trigger] p[i],
                    cs[i],
                ) by {
                    if i == n {
                        assert(p[i] == Command::BackwardsTo(u));
                    } else if i == ui {
                        assert(p[i] == Command::ForwardsTo(n as usize));
                    } else {
                        assert(p[i] == p0[i] && cs[i] == cs0[i]);
                    }
                }
            }
        } else {
            assert forall|i: int|
                0 <= i < p.len() && (#[trigger] p[i]) is ForwardsTo && !ops.contains(
                    i as usize,
                ) implies {
                &&& i < p[i]->ForwardsTo_0 < p.len()
                &&& p[p[i]->ForwardsTo_0 as int] == Command::BackwardsTo(i as usize)
            } by {
                assert(i < n);
            }
            assert forall|j: int|
                0 <= j < p.len() && (#[trigger] p[j]) is BackwardsTo implies {
                &&& p[j]->BackwardsTo_0 < j
                &&& p[p[j]->BackwardsTo_0 as int] == Command::ForwardsTo(j as usize)
                &&& !ops.contains(p[j]->BackwardsTo_0)
            } by {
                assert(j < n);
            }
        }
    }
}

/// Filtering: on a source with no stray `]`, the emitted instruction
/// sequence stands for exactly the subsequence of command characters, in
/// order and position; discarded characters emit nothing.
pub proof fn lemma_filtering(s: Seq<char>)
    requires
        s.len() <= usize::MAX,
        !parse_chars(s).extra_close,
    ensures
        parsed_program(s).len() == command_chars(s).len(),
        forall|i: int|
            0 <= i < command_chars(s).len() ==> denotes(
                #[trigger] parsed_program(s)[i],
                command_chars(s)[i],
            ),
{
    lemma_parse_invariant(s);
}

/// Bracket bijection: in a successfully parsed program, the bracket
/// instructions pair off. Every `ForwardsTo(t)` at `i` has `BackwardsTo(i)`
/// at `t` with `i < t`, and every `BackwardsTo(t)` at `j` has
/// `ForwardsTo(j)` at `t` with `t < j`; in particular every jump target is
/// inside the program.
pub proof fn lemma_bracket_bijection(s: Seq<char>)
    requires
        s.len() <= usize::MAX,
        parse_ok(s),
    ensures
        ({
            let p = parsed_program(s);
            &&& forall|i: int|
                0 <= i < p.len() && (#[trigger] p[i]) is ForwardsTo ==> {
                    &&& i < p[i]->ForwardsTo_0 < p.len()
                    &&& p[p[i]->ForwardsTo_0 as int] == Command::BackwardsTo(i as usize)
                }
            &&& forall|j: int|
                0 <= j < p.len() && (#[trigger] p[j]) is BackwardsTo ==> {
                    &&& p[j]->BackwardsTo_0 < j
                    &&& p[p[j]->BackwardsTo_0 as int] == Command::ForwardsTo(j as usize)
                }
        }),
{
    lemma_parse_invariant(s);
}

} // verus!
