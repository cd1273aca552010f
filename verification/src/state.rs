//! The escrow record and the identities that may own an asset holding.

use vstd::prelude::*;

verus! {

/// The owner of an asset holding.
///
/// A holding is owned either by an ordinary party (identified by an opaque
/// integer) or by an escrow record, identified by the pair from which the
/// record's address is derived. Because the two variants are structurally
/// distinct and the pair is carried verbatim, derived ownership is
/// collision-resistant by construction: no party's holding can ever alias a
/// custody holding, and custody holdings of distinct records never alias.
#[derive(Clone, Copy, PartialEq, Eq, Structural, Debug)]
pub enum Authority {
    /// An ordinary party, such as a maker or a taker.
    Party { id: u64 },
    /// The custody authority derived from the escrow record keyed by
    /// `(maker, seed)`. Only the state machine moves funds out of a holding
    /// owned this way.
    Record { maker: u64, seed: u64 },
}

/// One pending exchange offer.
///
/// Immutable between creation by `make` and deletion by `exchange` or
/// `refund`; the deposited amount is not stored here because the custody
/// holding's balance is the ground truth for it.
#[derive(Clone, Copy, PartialEq, Eq, Structural, Debug)]
pub struct Escrow {
    /// Discriminator chosen by the maker; unique per maker among open records.
    pub seed: u64,
    /// The party that created the offer and deposited the offered asset.
    pub maker: u64,
    /// Asset type placed in custody.
    pub token_mint_a: u64,
    /// Asset type the maker requires in return.
    pub token_mint_b: u64,
    /// Quantity of `token_mint_b` required to unlock the offer.
    pub receive_amount: u64,
    /// Salt recorded at derivation time, needed to re-derive the custody
    /// authority; carried verbatim and never interpreted by the core.
    pub bump: u8,
}

} // verus!
