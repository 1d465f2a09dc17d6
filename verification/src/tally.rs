//! Resolution of a poll from its tally.
use vstd::prelude::*;
use crate::math::{decimal_atomics, mul_div, Ratio, DECIMAL_FRACTIONAL};
use crate::types::Rejection;

verus! {

/// Votes were cast, the denominator is not zero, and the cast weight over the
/// denominator, floored to eighteen places, is at least `quorum`.
pub open spec fn quorum_reached(tallied: int, denominator: int, quorum: Ratio) -> bool {
    tallied > 0 && denominator > 0 && mul_div(tallied, DECIMAL_FRACTIONAL as int, denominator)
        >= quorum.atomics
}

/// The yes weight over the cast weight, floored to eighteen places, is
/// strictly above `threshold`.
pub open spec fn threshold_exceeded(yes: int, tallied: int, threshold: Ratio) -> bool {
    tallied > 0 && mul_div(yes, DECIMAL_FRACTIONAL as int, tallied) > threshold.atomics
}

/// `None` for a poll that passes, else the reason for which it is rejected.
pub open spec fn verdict(yes: u128, no: u128, denominator: u128, quorum: Ratio, threshold: Ratio) -> Option<Rejection> {
    if !quorum_reached(yes + no, denominator as int, quorum) {
        Some(Rejection::QuorumNotReached)
    } else if !threshold_exceeded(yes as int, yes + no, threshold) {
        Some(Rejection::ThresholdNotReached)
    } else {
        None
    }
}

/// Decides a poll with `yes` and `no` votes against the weight `denominator`.
pub fn resolve(yes: u128, no: u128, denominator: u128, quorum: Ratio, threshold: Ratio) -> (r: Option<Rejection>)
    requires
        yes + no <= u128::MAX,
    ensures
        r == verdict(yes, no, denominator, quorum, threshold),
{
    let tallied: u128 = yes + no;
    if tallied == 0 || denominator == 0 {
        return Some(Rejection::QuorumNotReached);
    }
    let quorum_met = match decimal_atomics(tallied, denominator) {
        Some(reached) => reached >= quorum.atomics,
        None => true,
    };
    if !quorum_met {
        return Some(Rejection::QuorumNotReached);
    }
    let exceeded = match decimal_atomics(yes, tallied) {
        Some(reached) => reached > threshold.atomics,
        None => true,
    };
    if exceeded {
        None
    } else {
        Some(Rejection::ThresholdNotReached)
    }
}

} // verus!
