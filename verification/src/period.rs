//! The period clock: turns a block height into the start of the payment
//! period that contains it. A period is a window of `periodicity` blocks,
//! aligned to the genesis height.

use vstd::prelude::*;
use vstd::arithmetic::div_mod::{
    lemma_fundamental_div_mod, lemma_mod_division_less_than_divisor, lemma_mod_multiples_basic,
};

verus! {

/// The start of the period containing `current`: the greatest height that is
/// `initial` plus a whole number of periods and does not exceed `current`.
pub open spec fn spec_period_start(current: int, initial: int, periodicity: int) -> int {
    current - ((current - initial) % periodicity)
}

/// The remainder taken by `spec_period_start` lies in `[0, periodicity)`,
/// so the period start lies in `(current - periodicity, current]`.
pub proof fn lemma_period_start_bounds(current: int, initial: int, periodicity: int)
    requires
        periodicity > 0,
        initial <= current,
    ensures
        initial <= spec_period_start(current, initial, periodicity) <= current,
        current - periodicity < spec_period_start(current, initial, periodicity),
{
    lemma_mod_division_less_than_divisor(current - initial, periodicity);
    if current - initial < periodicity {
        vstd::arithmetic::div_mod::lemma_small_mod((current - initial) as nat, periodicity as nat);
    }
}

/// The period start is aligned: starting from it, no blocks of its own period
/// have elapsed, so taking the period start twice gives the same height.
pub proof fn lemma_period_start_idempotent(current: int, initial: int, periodicity: int)
    requires
        periodicity > 0,
        initial <= current,
    ensures
        spec_period_start(
            spec_period_start(current, initial, periodicity),
            initial,
            periodicity,
        ) == spec_period_start(current, initial, periodicity),
{
    let d = current - initial;
    let s = spec_period_start(current, initial, periodicity);
    lemma_fundamental_div_mod(d, periodicity);
    assert(s - initial == periodicity * (d / periodicity));
    lemma_mod_multiples_basic(d / periodicity, periodicity);
    assert((s - initial) % periodicity == 0);
}

/// Computes the start of the period containing `current`.
pub fn period_start(current: u32, initial: u32, periodicity: u32) -> (r: u32)
    requires
        periodicity > 0,
        initial <= current,
    ensures
        r == spec_period_start(current as int, initial as int, periodicity as int),
        initial <= r <= current,
{
    proof {
        lemma_period_start_bounds(current as int, initial as int, periodicity as int);
    }
    current - ((current - initial) % periodicity)
}

} // verus!
