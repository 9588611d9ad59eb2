//! Readings of the Internet Computer's clock.

use vstd::prelude::*;

verus! {

/// The timestamp for `ns` nanoseconds: the signed integer with the same bits.
pub open spec fn timestamp(ns: u64) -> int {
    if ns <= i64::MAX {
        ns as int
    } else {
        ns - 0x1_0000_0000_0000_0000
    }
}

/// The timestamp for `ns` nanoseconds since the epoch.
pub fn timestamp_from_ns(ns: u64) -> (result: i64)
    ensures
        result == timestamp(ns),
        ns <= i64::MAX ==> result == ns,
        (ns - result) % 0x1_0000_0000_0000_0000 == 0,
{
    proof {
        law_timestamp_is_the_reading(ns);
    }
    let result: i64 = ns as i64;
    assert(ns <= 0x7fff_ffff_ffff_ffffu64 ==> ns as i64 == ns) by (bit_vector);
    assert(ns > 0x7fff_ffff_ffff_ffffu64 ==> ns as i64 == ns - 0x1_0000_0000_0000_0000) by (
    bit_vector);
    result
}

/// A reading below 2^63 is its own timestamp, and every reading differs from its
/// timestamp, which fits in an `i64`, by a multiple of 2^64.
pub proof fn law_timestamp_is_the_reading(ns: u64)
    ensures
        ns <= i64::MAX ==> timestamp(ns) == ns,
        i64::MIN <= timestamp(ns) <= i64::MAX,
        (ns - timestamp(ns)) % 0x1_0000_0000_0000_0000 == 0,
{
}

/// A clock that goes on by `elapsed` nanoseconds, and stays below 2^63, moves the
/// timestamp on by as much.
pub proof fn law_timestamps_measure_time(ns: u64, elapsed: u64)
    requires
        ns + elapsed <= i64::MAX,
    ensures
        timestamp((ns + elapsed) as u64) - timestamp(ns) == elapsed,
{
}

} // verus!
