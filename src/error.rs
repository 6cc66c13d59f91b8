use vstd::prelude::*;

verus! {

/// The ways in which an operation of the market can be refused.
///
/// Every one of them is recoverable: the operation that returns it leaves
/// the state as it found it.
#[derive(Clone, Copy, Debug, PartialEq, Eq, Structural)]
pub enum MarketError {
    /// A lookup by identifier or by unique name found nothing.
    NotFound,
    /// A unique name is already taken.
    AlreadyExists,
    /// A negative price, a zero quantity, a malformed value, or an amount
    /// beyond what the integer types can hold.
    InvalidArgument,
    /// The cash balance does not cover a purchase.
    InsufficientFunds,
    /// Fewer units are held than a sale asks for.
    InsufficientHoldings,
    /// The credential does not match the account's.
    InvalidCredential,
    /// The account already has an open session.
    AlreadyBound,
}

} // verus!
