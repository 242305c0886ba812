//! Edit distance between character sequences: the number of single-character
//! insertions, deletions and substitutions needed to turn one into the other.

use vstd::prelude::*;

verus! {

/// The smaller of two natural numbers.
pub open spec fn min2(a: nat, b: nat) -> nat {
    if a <= b {
        a
    } else {
        b
    }
}

/// Minimum number of single-character insert, delete or substitute operations
/// that turn `a` into `b` (the classic Levenshtein recurrence).
pub open spec fn edit_distance(a: Seq<char>, b: Seq<char>) -> nat
    decreases a.len(), b.len(),
{
    if a.len() == 0 {
        b.len()
    } else if b.len() == 0 {
        a.len()
    } else {
        let sub_cost: nat = if a.last() == b.last() {
            0
        } else {
            1
        };
        min2(
            edit_distance(a.drop_last(), b.drop_last()) + sub_cost,
            min2(edit_distance(a.drop_last(), b) + 1, edit_distance(a, b.drop_last()) + 1),
        )
    }
}

/// Relies on strsim::levenshtein: it computes the Levenshtein edit distance
/// over the characters of its two arguments by the standard dynamic program.
#[verifier::external_body]
pub(crate) fn levenshtein_distance(a: &str, b: &str) -> (r: usize)
    ensures
        r as nat == edit_distance(a@, b@),
{
    strsim::levenshtein(a, b)
}

} // verus!
