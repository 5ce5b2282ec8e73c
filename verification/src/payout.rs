//! The payout schedule: the credit awarded for each possible line sum.

use vstd::prelude::*;

verus! {

/// The payout awarded for a line whose three cells sum to `sum`.  Sums
/// outside 6..=24 cannot arise from three distinct digits 1-9 and pay
/// nothing.
pub open spec fn spec_payout(sum: int) -> int {
    if sum == 6 {
        10000
    } else if sum == 7 {
        36
    } else if sum == 8 {
        720
    } else if sum == 9 {
        360
    } else if sum == 10 {
        80
    } else if sum == 11 {
        252
    } else if sum == 12 {
        108
    } else if sum == 13 {
        72
    } else if sum == 14 {
        54
    } else if sum == 15 {
        180
    } else if sum == 16 {
        72
    } else if sum == 17 {
        180
    } else if sum == 18 {
        119
    } else if sum == 19 {
        36
    } else if sum == 20 {
        306
    } else if sum == 21 {
        1080
    } else if sum == 22 {
        144
    } else if sum == 23 {
        1800
    } else if sum == 24 {
        3600
    } else {
        0
    }
}

/// Look up the payout for a line sum.
pub fn payout(sum: u8) -> (r: u64)
    ensures
        r as int == spec_payout(sum as int),
{
    match sum {
        6 => 10000,
        7 => 36,
        8 => 720,
        9 => 360,
        10 => 80,
        11 => 252,
        12 => 108,
        13 => 72,
        14 => 54,
        15 => 180,
        16 => 72,
        17 => 180,
        18 => 119,
        19 => 36,
        20 => 306,
        21 => 1080,
        22 => 144,
        23 => 1800,
        24 => 3600,
        _ => 0,
    }
}

} // verus!
