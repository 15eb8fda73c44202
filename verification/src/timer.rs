//! Derivation of the hardware-timer divisor/counter pair from a requested
//! tick rate.
//!
//! The controller's raw tick rate `rate` is divided by a divisor drawn from
//! the doubling sequence 1, 2, 4, ..., 128 and then by ten times the requested
//! rate; the smallest divisor whose resulting counter fits an unsigned 32-bit
//! register is chosen.  If no divisor up to 64 yields a representable counter,
//! the search gives up at 128 and the last counter computed (at divisor 64) is
//! applied truncated — a boundary case the hardware programming sequence
//! deliberately reproduces.

use vstd::arithmetic::div_mod::{lemma_div_is_ordered, lemma_div_is_ordered_by_denominator};
use vstd::prelude::*;

verus! {

/// The requested rate is scaled by ten for sub-integer precision.
pub open spec fn scaled_target(target: u32) -> int {
    target as int * 10
}

/// The counter the hardware would be programmed with for divisor `d`.
pub open spec fn counter_for(rate: u64, target: u32, d: int) -> int
    recommends
        1 <= d,
        1 <= target,
{
    (rate as int / d) / scaled_target(target)
}

/// Whether the counter for divisor `d` is representable in 32 bits.
pub open spec fn divisor_fits(rate: u64, target: u32, d: int) -> bool {
    counter_for(rate, target, d) < 0x1_0000_0000
}

/// The divisor candidates the doubling search can visit.
pub open spec fn is_candidate(d: int) -> bool {
    d == 1 || d == 2 || d == 4 || d == 8 || d == 16 || d == 32 || d == 64 || d == 128
}

/// The divisor the doubling search settles on, starting from candidate `d`:
/// the first candidate whose counter is representable, or 128 if none is.
pub open spec fn chosen_from(rate: u64, target: u32, d: int) -> int
    decreases (if d < 128 { 128 - d } else { 0int }) when 1 <= d
{
    if d >= 128 {
        128
    } else if divisor_fits(rate, target, d) {
        d
    } else {
        chosen_from(rate, target, 2 * d)
    }
}

/// The divisor selected for the pair (rate, target).
pub open spec fn chosen_divisor(rate: u64, target: u32) -> int {
    chosen_from(rate, target, 1)
}

/// The (untruncated) counter that goes with the selected divisor.  When the
/// search fails, the counter from the last candidate tried (64) is kept.
pub open spec fn chosen_counter(rate: u64, target: u32) -> int {
    if chosen_divisor(rate, target) < 128 {
        counter_for(rate, target, chosen_divisor(rate, target))
    } else {
        counter_for(rate, target, 64)
    }
}

/// Compute the divisor/counter pair for a controller with raw tick rate
/// `rate` and a requested rate of `target` ticks per second.
pub fn derive_timer_config(rate: u64, target: u32) -> (r: (u8, u32))
    requires
        1 <= target,
    ensures
        r.0 as int == chosen_divisor(rate, target),
        r.1 as int == chosen_counter(rate, target) % 0x1_0000_0000,
        chosen_divisor(rate, target) < 128 ==> r.1 as int == chosen_counter(rate, target),
{
    let scaled: u64 = (target as u64) * 10;
    let mut divisor: u8 = 1;
    let mut counter: u64 = 0;
    loop
        invariant_except_break
            divisor == 1 || divisor == 2 || divisor == 4 || divisor == 8 || divisor == 16
                || divisor == 32 || divisor == 64,
        invariant
            scaled == target as u64 * 10,
            1 <= target,
            chosen_from(rate, target, divisor as int) == chosen_divisor(rate, target),
        ensures
            (divisor as int == chosen_divisor(rate, target) && divisor < 128
                && counter < 0x1_0000_0000u64
                && counter as int == counter_for(rate, target, divisor as int))
            || (divisor == 128 && chosen_divisor(rate, target) == 128
                && counter as int == counter_for(rate, target, 64)),
        decreases 128 - divisor,
    {
        counter = (rate / (divisor as u64)) / scaled;
        proof {
            assert(counter as int == counter_for(rate, target, divisor as int));
        }
        if counter < 0x1_0000_0000u64 {
            break;
        }
        if divisor == 64 {
            proof {
                assert(!divisor_fits(rate, target, 64));
                assert(chosen_from(rate, target, 128) == 128);
            }
            divisor = 128;
            break;
        }
        proof {
            assert(!divisor_fits(rate, target, divisor as int));
        }
        divisor = divisor * 2;
    }
    let stored: u32 = (counter % 0x1_0000_0000u64) as u32;
    proof {
        lemma_counter_nonnegative(rate, target);
        if chosen_divisor(rate, target) < 128 {
            vstd::arithmetic::div_mod::lemma_small_mod(counter as nat, 0x1_0000_0000nat);
        }
    }
    (divisor, stored)
}

proof fn lemma_counter_nonnegative(rate: u64, target: u32)
    requires
        1 <= target,
    ensures
        0 <= counter_for(rate, target, 64),
        forall|d: int| 1 <= d ==> 0 <= #[trigger] counter_for(rate, target, d),
{
    assert forall|d: int| 1 <= d implies 0 <= #[trigger] counter_for(rate, target, d) by {
        lemma_div_is_ordered(0, rate as int, d);
        lemma_div_is_ordered(0, rate as int / d, scaled_target(target));
    }
}

/// A representable counter stays representable when the requested rate grows:
/// dividing the same pre-divided rate by a larger scaled target cannot give a
/// larger counter.
proof fn lemma_fits_monotone(rate: u64, t1: u32, t2: u32, d: int)
    requires
        1 <= t1 <= t2,
        1 <= d,
        divisor_fits(rate, t1, d),
    ensures
        divisor_fits(rate, t2, d),
{
    lemma_div_is_ordered(0, rate as int, d);
    lemma_div_is_ordered_by_denominator(rate as int / d, scaled_target(t1), scaled_target(t2));
}

/// The search never settles below its starting candidate.
proof fn lemma_chosen_from_lower_bound(rate: u64, target: u32, d: int)
    requires
        is_candidate(d),
    ensures
        d <= chosen_from(rate, target, d),
        chosen_from(rate, target, d) <= 128,
    decreases 128 - d,
{
    if d < 128 && !divisor_fits(rate, target, d) {
        lemma_chosen_from_lower_bound(rate, target, 2 * d);
    }
}

proof fn lemma_chosen_from_monotone(rate: u64, t1: u32, t2: u32, d: int)
    requires
        1 <= t1 <= t2,
        is_candidate(d),
    ensures
        chosen_from(rate, t2, d) <= chosen_from(rate, t1, d),
    decreases 128 - d,
{
    if d < 128 {
        if divisor_fits(rate, t1, d) {
            lemma_fits_monotone(rate, t1, t2, d);
        } else if divisor_fits(rate, t2, d) {
            lemma_chosen_from_lower_bound(rate, t1, 2 * d);
        } else {
            lemma_chosen_from_monotone(rate, t1, t2, 2 * d);
        }
    }
}

/// Divisor selection is monotonic in the requested rate: a lower requested
/// rate never needs a smaller divisor, so for targets `t1 < t2` over the same
/// raw rate the divisor chosen for `t1` is at least the one chosen for `t2`.
pub proof fn lemma_divisor_monotonic(rate: u64, t1: u32, t2: u32)
    requires
        1 <= t1 < t2,
    ensures
        chosen_divisor(rate, t2) <= chosen_divisor(rate, t1),
{
    lemma_chosen_from_monotone(rate, t1, t2, 1);
}

} // verus!
