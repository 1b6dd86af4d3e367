//! Wall-clock time as seconds and microseconds.

use vstd::prelude::*;

verus! {

/// Microseconds in a second.
pub const MICRO_PER_SEC: usize = 1_000_000;

/// A time split into whole seconds and the microseconds past them.
#[derive(Clone, Copy, PartialEq, Eq, Structural, Debug)]
pub struct TimeVal {
    /// Whole seconds.
    pub sec: usize,
    /// Microseconds past `sec`.
    pub usec: usize,
}

impl TimeVal {
    /// Splits `us` microseconds into seconds and microseconds.
    pub fn from_us(us: usize) -> (tv: TimeVal)
        ensures
            tv.sec == us / MICRO_PER_SEC,
            tv.usec == us % MICRO_PER_SEC,
            tv.usec < MICRO_PER_SEC,
            tv.sec * MICRO_PER_SEC + tv.usec == us,
    {
        let tv = TimeVal { sec: us / MICRO_PER_SEC, usec: us % MICRO_PER_SEC };
        proof {
            vstd::arithmetic::div_mod::lemma_fundamental_div_mod(us as int, MICRO_PER_SEC as int);
        }
        tv
    }
}

} // verus!
