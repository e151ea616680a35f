//! The rate at which a search proceeds: attempts per second of elapsed time,
//! as a whole number.

use vstd::arithmetic::div_mod::{lemma_fundamental_div_mod, lemma_mod_bound};
use vstd::prelude::*;

verus! {

/// The number of nanoseconds in a second.
pub const NANOS_PER_SECOND: u64 = 1_000_000_000;

/// A span of time in nanoseconds, given as its whole seconds and the
/// nanoseconds beyond them.
pub open spec fn nanos_of(seconds: u64, subsec_nanos: u32) -> int {
    seconds * NANOS_PER_SECOND + subsec_nanos
}

/// Whether `rate` is the whole number nearest to `attempts` per second over
/// `nanos` nanoseconds, a half counting upwards: whether the quotient of
/// attempts and seconds lies from half below `rate` up to, but not at, half
/// above it.
pub open spec fn is_rate(rate: int, attempts: u64, nanos: int) -> bool {
    2 * rate * nanos - nanos <= 2 * attempts * NANOS_PER_SECOND < 2 * rate * nanos + nanos
}

/// The rate of a search that has made `attempts` attempts in the time given:
/// attempts per second, rounded to the nearest whole number. `None` where no
/// time has elapsed.
pub fn attempts_per_second(attempts: u64, seconds: u64, subsec_nanos: u32) -> (r: Option<u128>)
    ensures
        match r {
            Some(rate) => nanos_of(seconds, subsec_nanos) > 0 && is_rate(
                rate as int,
                attempts,
                nanos_of(seconds, subsec_nanos),
            ),
            None => nanos_of(seconds, subsec_nanos) == 0,
        },
{
    let scale: u128 = NANOS_PER_SECOND as u128;
    let nanos: u128 = seconds as u128 * scale + subsec_nanos as u128;
    if nanos == 0 {
        return None;
    }
    let doubled: u128 = 2 * (attempts as u128) * scale;
    let rate: u128 = (doubled + nanos) / (2 * nanos);
    proof {
        let dividend = (doubled + nanos) as int;
        let divisor = (2 * nanos) as int;
        lemma_fundamental_div_mod(dividend, divisor);
        lemma_mod_bound(dividend, divisor);
        assert(divisor * (dividend / divisor) == 2 * (rate as int) * (nanos as int))
            by (nonlinear_arith)
            requires
                divisor == 2 * nanos,
                dividend / divisor == rate,
        ;
    }
    Some(rate)
}

/// There is one rate for a number of attempts and a span of time.
pub proof fn lemma_rate_is_unique(first: int, second: int, attempts: u64, nanos: int)
    requires
        nanos > 0,
        is_rate(first, attempts, nanos),
        is_rate(second, attempts, nanos),
    ensures
        first == second,
{
    if first < second {
        assert(2 * first * nanos + nanos <= 2 * second * nanos - nanos) by (nonlinear_arith)
            requires
                first + 1 <= second,
                nanos > 0,
        ;
    } else if second < first {
        assert(2 * second * nanos + nanos <= 2 * first * nanos - nanos) by (nonlinear_arith)
            requires
                second + 1 <= first,
                nanos > 0,
        ;
    }
}

} // verus!
