//! How a payment is split between vault yield and the borrower.

use vstd::prelude::*;

verus! {

/// What is still to be sourced from the borrower after a vault handed over `pulled`
/// of the `remaining` amount of a payment: yield is used first, the borrower pays the
/// rest. A vault that hands over nothing (or reports a negative amount) leaves all of
/// it due; one that hands over at least the amount leaves nothing.
pub fn still_due(remaining: i128, pulled: i128) -> (r: i128)
    requires
        remaining >= 0,
    ensures
        r == (if pulled <= 0 {
            remaining as int
        } else if pulled >= remaining {
            0
        } else {
            remaining - pulled
        }),
        0 <= r <= remaining,
{
    if pulled <= 0 {
        remaining
    } else if pulled >= remaining {
        0
    } else {
        remaining - pulled
    }
}

} // verus!
