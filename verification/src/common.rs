use vstd::prelude::*;

verus! {

/// Fixed-point number with eight implied decimal digits.
pub type Decimal64 = i64;

/// The side of the market that a ladder holds.
#[allow(non_camel_case_types)]
#[derive(Debug, Copy, Clone, PartialEq, Eq, Structural)]
pub enum Side {
    BUY,
    SELL,
}

/// Why a call on a ladder or a book was refused.
#[derive(Debug, Copy, Clone, PartialEq, Eq, Structural)]
pub enum LadderError {
    /// The call does not fit the batch state: `begin` inside a batch, or
    /// `end` or a mutation outside of one.
    InvalidCall,
}

} // verus!
