//! Errors of the escrow state machine.

use vstd::prelude::*;

verus! {

/// Why an operation was refused. Every error is fatal to the single attempt
/// and leaves all persisted state exactly as it was before the call.
#[derive(Clone, Copy, PartialEq, Eq, Structural, Debug)]
pub enum EscrowError {
    /// `make` found an open record already derived from the same
    /// `(maker, seed)` pair.
    AlreadyExists,
    /// `exchange` or `refund` referenced a record that does not exist
    /// (never created, or already closed).
    NotFound,
    /// `refund` was invoked by an identity other than the record's maker.
    Unauthorized,
    /// The source holding lacks the requested amount.
    InsufficientFunds,
    /// The custody holding named by the caller does not match the one the
    /// record authorizes (its asset differs from the offered asset).
    InvalidCustody,
    /// The transfer primitive refused the movement: crediting the
    /// destination holding would overflow its balance.
    TransferError,
}

} // verus!
