use std::cmp::Ordering;
use vstd::prelude::*;

use crate::common::Side;

verus! {

/// `a` is strictly more competitive than `b` on `side`: the higher bid, the
/// lower ask.
pub open spec fn better(side: Side, a: i64, b: i64) -> bool {
    match side {
        Side::BUY => a > b,
        Side::SELL => a < b,
    }
}

/// Orders bid prices: the higher price is the greater.
pub fn bids_comparator(lhs: i64, rhs: i64) -> (r: Ordering)
    ensures
        match r {
            Ordering::Greater => lhs > rhs,
            Ordering::Less => lhs < rhs,
            Ordering::Equal => lhs == rhs,
        },
{
    if lhs > rhs {
        Ordering::Greater
    } else if lhs < rhs {
        Ordering::Less
    } else {
        Ordering::Equal
    }
}

/// Orders ask prices: the lower price is the greater.
pub fn asks_comparator(lhs: i64, rhs: i64) -> (r: Ordering)
    ensures
        match r {
            Ordering::Greater => lhs < rhs,
            Ordering::Less => lhs > rhs,
            Ordering::Equal => lhs == rhs,
        },
{
    if lhs > rhs {
        Ordering::Less
    } else if lhs < rhs {
        Ordering::Greater
    } else {
        Ordering::Equal
    }
}

/// The comparator of `side`, applied to two prices.
pub fn compare(side: Side, lhs: i64, rhs: i64) -> (r: Ordering)
    ensures
        match r {
            Ordering::Greater => better(side, lhs, rhs),
            Ordering::Less => better(side, rhs, lhs),
            Ordering::Equal => lhs == rhs,
        },
{
    match side {
        Side::BUY => bids_comparator(lhs, rhs),
        Side::SELL => asks_comparator(lhs, rhs),
    }
}

/// Whether `a` is strictly more competitive than `b` on `side`.
pub fn is_better(side: Side, a: i64, b: i64) -> (r: bool)
    ensures
        r == better(side, a, b),
{
    match compare(side, a, b) {
        Ordering::Greater => true,
        Ordering::Less => false,
        Ordering::Equal => false,
    }
}

} // verus!
