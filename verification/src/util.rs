//! Small time and arithmetic helpers shared by the game loop scheduler.

use vstd::prelude::*;

verus! {

/// A point in wall-clock time, as whole milliseconds since the Unix epoch.
/// The transport layer converts whatever clock representation it uses into
/// this plain value before handing it to the core.
#[derive(Clone, Copy, PartialEq, Eq, Structural, Debug)]
pub struct Timestamp {
    pub ms: i64,
}

/// Milliseconds elapsed from `from` to `to`.  The clock may move backwards
/// between two observations; that case is reported as an error so that the
/// scheduler never feeds a negative duration into its lag accumulator.
pub fn elapsed_ms(from: Timestamp, to: Timestamp) -> (r: Result<u64, ()>)
    ensures
        r is Ok <==> to.ms >= from.ms,
        r is Ok ==> r->Ok_0 == to.ms - from.ms,
{
    let diff: i128 = (to.ms as i128) - (from.ms as i128);
    if diff >= 0 {
        Ok(diff as u64)
    } else {
        Err(())
    }
}

/// What `clamp` returns.
pub open spec fn spec_clamp(val: int, min: int, max: int) -> int {
    if val < min {
        min
    } else if val > max {
        max
    } else {
        val
    }
}

/// Restricts `val` to the interval `[min, max]`.  When the interval is
/// empty (`min > max`), the lower bound wins, as in the original ordering
/// of the two comparisons.
pub fn clamp(val: i64, min: i64, max: i64) -> (r: i64)
    ensures
        r == spec_clamp(val as int, min as int, max as int),
        val < min ==> r == min,
        val >= min && val > max ==> r == max,
        min <= val && val <= max ==> r == val,
{
    if val < min {
        min
    } else if val > max {
        max
    } else {
        val
    }
}

/// Produces the strictly increasing sequence of tick identifiers that the
/// scheduler publishes once per frame.
#[derive(Clone, Copy, PartialEq, Eq, Structural, Debug)]
pub struct SeqIdGen {
    pub next: u64,
}

impl SeqIdGen {
    pub fn new() -> (r: SeqIdGen)
        ensures
            r.next == 0,
    {
        SeqIdGen { next: 0 }
    }

    /// Hands out the next identifier; every identifier is produced once.
    pub fn gen(&mut self) -> (r: u64)
        requires
            old(self).next < u64::MAX,
        ensures
            r == old(self).next,
            final(self).next == old(self).next + 1,
    {
        let r = self.next;
        self.next = self.next + 1;
        r
    }
}

impl Default for SeqIdGen {
    fn default() -> (r: SeqIdGen)
        ensures
            r.next == 0,
    {
        SeqIdGen { next: 0 }
    }
}

} // verus!
