//! The parser/linker: a single left-to-right scan that discards non-command
//! characters and resolves each bracket pair to direct jump targets.
//!
//! The scan is modelled by the spec functions [`parse_step`] and
//! [`parse_chars`]: a fold over the source characters whose state is the
//! emitted program, the stack of still-open `[` indices, and a flag recording
//! whether a `]` ever arrived with no `[` open. The executable [`read`]
//! follows that fold step for step.

use vstd::prelude::*;

use crate::command::{Command, is_command_char, plain_command};

verus! {

/// The parser's state after scanning a prefix of the source.
pub struct ParseState {
    /// Instructions emitted so far. Entries whose index is on `opens` are
    /// placeholders: their target is patched when the matching `]` arrives.
    pub program: Seq<Command>,
    /// Emitted indices of `[` instructions whose `]` has not been seen yet,
    /// outermost first.
    pub opens: Seq<usize>,
    /// Whether some `]` arrived while no `[` was open. Such a `]` emits
    /// nothing, and the scan goes on only to classify the failure at the end.
    pub extra_close: bool,
}

pub open spec fn parse_init() -> ParseState {
    ParseState { program: Seq::empty(), opens: Seq::empty(), extra_close: false }
}

/// One character of the scan. `[` emits a placeholder and opens a bracket;
/// `]` pops the innermost open `[`, patches it to `ForwardsTo` the index of
/// this `]`, and emits the `BackwardsTo` partner; the six plain command
/// characters emit their instruction; everything else is discarded.
pub open spec fn parse_step(st: ParseState, c: char) -> ParseState {
    let pos = st.program.len();
    if c == '[' {
        ParseState {
            program: st.program.push(Command::ForwardsTo(0)),
            opens: st.opens.push(pos as usize),
            extra_close: st.extra_close,
        }
    } else if c == ']' {
        if st.opens.len() > 0 {
            let open_idx = st.opens.last();
            ParseState {
                program: st.program.update(
                    open_idx as int,
                    Command::ForwardsTo(pos as usize),
                ).push(Command::BackwardsTo(open_idx)),
                opens: st.opens.drop_last(),
                extra_close: st.extra_close,
            }
        } else {
            ParseState { program: st.program, opens: st.opens, extra_close: true }
        }
    } else if is_command_char(c) {
        ParseState {
            program: st.program.push(plain_command(c)),
            opens: st.opens,
            extra_close: st.extra_close,
        }
    } else {
        st
    }
}

/// The parser's state after scanning all of `s`.
pub open spec fn parse_chars(s: Seq<char>) -> ParseState
    decreases s.len(),
{
    if s.len() == 0 {
        parse_init()
    } else {
        parse_step(parse_chars(s.drop_last()), s.last())
    }
}

/// Parsing `s` succeeds: every `[` was closed and no stray `]` was seen.
pub open spec fn parse_ok(s: Seq<char>) -> bool {
    &&& parse_chars(s).opens.len() == 0
    &&& !parse_chars(s).extra_close
}

/// The linked program that a successful parse of `s` returns.
pub open spec fn parsed_program(s: Seq<char>) -> Seq<Command> {
    parse_chars(s).program
}

/// Scanning one more character folds one more step.
pub proof fn lemma_parse_chars_snoc(s: Seq<char>, i: int)
    requires
        0 <= i < s.len(),
    ensures
        parse_chars(s.take(i + 1)) == parse_step(parse_chars(s.take(i)), s[i]),
{
    assert(s.take(i + 1).drop_last() =~= s.take(i));
    assert(s.take(i + 1).last() == s[i]);
}

/// Sizes of the scan state: no more instructions than characters, and every
/// open `[` index points into the emitted program.
pub proof fn lemma_parse_sizes(s: Seq<char>)
    requires
        s.len() <= usize::MAX,
    ensures
        parse_chars(s).program.len() <= s.len(),
        forall|k: int|
            0 <= k < parse_chars(s).opens.len()
                ==> (parse_chars(s).opens[k] as int) < parse_chars(s).program.len(),
    decreases s.len(),
{
    if s.len() > 0 {
        lemma_parse_sizes(s.drop_last());
    }
}

/// Parses source text into a linked program.
///
/// Exactly the command characters of `source` produce instructions, in order,
/// and each bracket instruction carries the index of its partner; the scan is
/// the one that [`parse_chars`] describes. Parsing fails, and no program is
/// returned, precisely when some `[` is never closed (reported first) or some
/// `]` never had an open `[`.
pub fn read(source: &str) -> (r: Result<Vec<Command>, &'static str>)
    ensures
        r is Ok <==> parse_ok(source@),
        parse_ok(source@) ==> (r matches Ok(p) && p@ == parsed_program(source@)),
        parse_chars(source@).opens.len() > 0 ==> (r matches Err(m) && m@ == "Too many open braces"@),
        parse_chars(source@).opens.len() == 0 && parse_chars(source@).extra_close ==> (r matches Err(
            m,
        ) && m@ == "Too many close braces"@),
{
    let n = source.unicode_len();
    let mut program: Vec<Command> = Vec::new();
    let mut opens: Vec<usize> = Vec::new();
    let mut extra_close: bool = false;
    let mut idx: usize = 0;
    while idx < n
        invariant
            n == source@.len(),
            idx <= n,
            program@ == parse_chars(source@.take(idx as int)).program,
            opens@ == parse_chars(source@.take(idx as int)).opens,
            extra_close == parse_chars(source@.take(idx as int)).extra_close,
        decreases n - idx,
    {
        proof {
            lemma_parse_chars_snoc(source@, idx as int);
            lemma_parse_sizes(source@.take(idx as int));
        }
        let c = source.get_char(idx);
        if c == '[' {
            let pos = program.len();
            program.push(Command::ForwardsTo(0));
            opens.push(pos);
        } else if c == ']' {
            match opens.pop() {
                Some(open_idx) => {
                    let here = program.len();
                    program[open_idx] = Command::ForwardsTo(here);
                    program.push(Command::BackwardsTo(open_idx));
                },
                None => {
                    extra_close = true;
                },
            }
        } else if c == '>' {
            program.push(Command::IncrementPointer);
        } else if c == '<' {
            program.push(Command::DecrementPointer);
        } else if c == '+' {
            program.push(Command::IncrementValue);
        } else if c == '-' {
            program.push(Command::DecrementValue);
        } else if c == '.' {
            program.push(Command::OutputValue);
        } else if c == ',' {
            program.push(Command::InputValue);
        }
        idx += 1;
    }
    proof {
        assert(source@.take(n as int) =~= source@);
    }
    if opens.len() > 0 {
        Err("Too many open braces")
    } else if extra_close {
        Err("Too many close braces")
    } else {
        Ok(program)
    }
}

} // verus!
