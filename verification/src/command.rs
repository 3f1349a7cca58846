//! The command alphabet: the eight instructions a program is made of, and the
//! mapping from source characters to instructions.

use vstd::prelude::*;

verus! {

/// One instruction of a linked program.
///
/// The two bracket instructions carry the emitted index of their partner:
/// `ForwardsTo(t)` is an `[` whose matching `]` sits at index `t`, and
/// `BackwardsTo(t)` is a `]` whose matching `[` sits at index `t`. The
/// interpreter jumps to the stored index and then advances by one, so a taken
/// jump continues just past the partner bracket.
#[derive(PartialEq, Eq, Structural, Debug, Clone, Copy)]
pub enum Command {
    IncrementPointer,
    DecrementPointer,
    IncrementValue,
    DecrementValue,
    OutputValue,
    InputValue,
    ForwardsTo(usize),
    BackwardsTo(usize),
}

/// The eight characters that denote commands; every other character is
/// discarded by the parser.
pub open spec fn is_command_char(c: char) -> bool {
    ||| c == '>'
    ||| c == '<'
    ||| c == '+'
    ||| c == '-'
    ||| c == '.'
    ||| c == ','
    ||| c == '['
    ||| c == ']'
}

/// The instruction a non-bracket command character stands for.
pub open spec fn plain_command(c: char) -> Command {
    if c == '>' {
        Command::IncrementPointer
    } else if c == '<' {
        Command::DecrementPointer
    } else if c == '+' {
        Command::IncrementValue
    } else if c == '-' {
        Command::DecrementValue
    } else if c == '.' {
        Command::OutputValue
    } else {
        Command::InputValue
    }
}

/// Does the linked instruction `cmd` stand for the source character `c`?
/// Brackets are matched by variant alone, since their targets depend on the
/// surrounding source.
pub open spec fn denotes(cmd: Command, c: char) -> bool {
    if c == '[' {
        cmd is ForwardsTo
    } else if c == ']' {
        cmd is BackwardsTo
    } else {
        is_command_char(c) && cmd == plain_command(c)
    }
}

/// The subsequence of `s` made of its command characters, in order.
pub open spec fn command_chars(s: Seq<char>) -> Seq<char> {
    s.filter(|c: char| is_command_char(c))
}

} // verus!
