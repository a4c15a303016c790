//! Utilization figures, in hundredths of a percent.
use vstd::prelude::*;

verus! {

/// `100 * used / total`, with two decimals kept and the rest truncated,
/// counted in units of 0.01%.
pub open spec fn hundredths_of_percent(used: nat, total: nat) -> nat
    recommends
        total > 0,
{
    (used * 10000) / total
}

/// The share of `total` that `used` makes up, in hundredths of a percent
/// (2500 stands for 25.00%). A total of zero leaves the share undefined,
/// which is reported as `None`.
pub fn memory_percentage(used: u64, total: u64) -> (r: Option<u128>)
    ensures
        total == 0 ==> r is None,
        total > 0 ==> r == Some(hundredths_of_percent(used as nat, total as nat) as u128),
{
    if total == 0 {
        None
    } else {
        let scaled: u128 = used as u128 * 10000;
        assert(scaled / (total as u128) <= scaled) by (nonlinear_arith)
            requires
                total > 0,
        ;
        Some(scaled / (total as u128))
    }
}

} // verus!
