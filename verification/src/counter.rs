//! Counters that only ever go up. A counter that has reached the largest
//! value stays there rather than wrap to zero.

use vstd::prelude::*;

verus! {

/// `c` counted up by `n`, stopping at the largest value.
pub open spec fn raised(c: u64, n: nat) -> u64 {
    if c + n <= u64::MAX {
        (c + n) as u64
    } else {
        u64::MAX
    }
}

/// `c` counted up by one, stopping at the largest value.
pub open spec fn bump(c: u64) -> u64 {
    raised(c, 1)
}

/// Counts `c` up by one.
pub fn increment(c: u64) -> (r: u64)
    ensures
        r == bump(c),
        r >= c,
{
    if c < u64::MAX {
        c + 1
    } else {
        c
    }
}

/// Counts `c` up by `n`.
pub fn increase(c: u64, n: usize) -> (r: u64)
    ensures
        r == raised(c, n as nat),
        r >= c,
{
    let n64: u64 = n as u64;
    if n64 <= u64::MAX - c {
        c + n64
    } else {
        u64::MAX
    }
}

} // verus!
