//! Balance detection: parsing succeeds exactly on sources whose bracket
//! subsequence is a balanced parenthesization.
//!
//! [`depth`] counts opens minus closes, so a source is [`balanced`] when the
//! whole count is zero and no prefix has more closes than opens. The law
//! [`lemma_balance_detection`] ties that to the parser: success is balance,
//! a stray `]` is a prefix dipping below zero, and when no prefix dips the
//! open-bracket stack left at the end is exactly the final depth.

use vstd::prelude::*;

use crate::parser::{parse_chars, parse_ok, parse_step};

verus! {

/// `[`s minus `]`s over all of `s`; other characters count nothing.
pub open spec fn depth(s: Seq<char>) -> int
    decreases s.len(),
{
    if s.len() == 0 {
        0
    } else {
        depth(s.drop_last()) + (if s.last() == '[' {
            1int
        } else if s.last() == ']' {
            -1int
        } else {
            0int
        })
    }
}

/// The bracket subsequence of `s` is balanced: every `[` has a later
/// matching `]` with correct nesting.
pub open spec fn balanced(s: Seq<char>) -> bool {
    &&& depth(s) == 0
    &&& forall|k: int| 0 <= k <= s.len() ==> depth(#[trigger] s.take(k)) >= 0
}

/// The scan's bookkeeping in terms of `depth`: while no stray `]` has been
/// seen the open stack is as deep as the bracket count, and a stray `]` is
/// seen exactly when some prefix count dips below zero.
proof fn lemma_parse_depth(s: Seq<char>)
    ensures
        !parse_chars(s).extra_close ==> parse_chars(s).opens.len() == depth(s),
        parse_chars(s).extra_close <==> (exists|k: int|
            0 <= k <= s.len() && depth(#[trigger] s.take(k)) < 0),
    decreases s.len(),
{
    if s.len() == 0 {
        assert forall|k: int| 0 <= k <= s.len() implies depth(#[trigger] s.take(k)) >= 0 by {
            assert(s.take(k) =~= s);
        }
    } else {
        let s0 = s.drop_last();
        let c = s.last();
        lemma_parse_depth(s0);
        assert(parse_chars(s) == parse_step(parse_chars(s0), c));
        assert forall|k: int| 0 <= k <= s0.len() implies #[trigger] s.take(k) == s0.take(k) by {
            assert(s.take(k) =~= s0.take(k));
        }
        assert(s.take(s.len() as int) =~= s);
        if parse_chars(s).extra_close {
            if parse_chars(s0).extra_close {
                let k = choose|k: int| 0 <= k <= s0.len() && depth(#[trigger] s0.take(k)) < 0;
                assert(depth(s.take(k)) < 0);
            } else {
                assert(c == ']' && parse_chars(s0).opens.len() == 0);
                assert(depth(s.take(s.len() as int)) < 0);
            }
        } else {
            assert(!parse_chars(s0).extra_close);
            assert forall|k: int| 0 <= k <= s.len() implies depth(#[trigger] s.take(k)) >= 0 by {
                if k <= s0.len() {
                    assert(depth(s0.take(k)) >= 0);
                } else {
                    assert(s.take(k) =~= s);
                }
            }
        }
    }
}

/// Balance detection: `read` succeeds on `s` iff the bracket subsequence of
/// `s` is balanced. Otherwise the failure kind fits the imbalance: the
/// stray-`]` flag is raised exactly when some prefix has more `]`s than
/// `[`s, and when no prefix does, the `[`s left open at the end number
/// exactly the final depth.
pub proof fn lemma_balance_detection(s: Seq<char>)
    ensures
        parse_ok(s) <==> balanced(s),
        !parse_chars(s).extra_close ==> parse_chars(s).opens.len() == depth(s),
        parse_chars(s).extra_close <==> (exists|k: int|
            0 <= k <= s.len() && depth(#[trigger] s.take(k)) < 0),
{
    lemma_parse_depth(s);
}

} // verus!
