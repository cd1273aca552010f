//! The functional model of the ledger and of each operation's outcome.
//!
//! Every executable operation on `crate::ledger::Ledger` is specified against
//! one of the `*_outcome` functions below: the operation returns `Ok` and
//! moves the ledger to exactly the model's new state, or returns the model's
//! error and leaves the ledger untouched. All-or-nothing behaviour is
//! therefore part of every operation's contract, not a side remark.

use vstd::prelude::*;

use crate::errors::EscrowError;
use crate::state::{Authority, Escrow};

verus! {

/// Abstract state of the ledger.
#[verifier::ext_equal]
pub struct LedgerView {
    /// Balance of every `(owner, asset)` pair. The map is total: a holding
    /// that was never funded has balance 0.
    pub balances: Map<(Authority, u64), u64>,
    /// The open escrow records, keyed by `(maker, seed)`.
    pub records: Map<(u64, u64), Escrow>,
}

impl LedgerView {
    /// Balance of `owner`'s holding of `asset`.
    pub open spec fn balance(self, owner: Authority, asset: u64) -> u64 {
        self.balances[(owner, asset)]
    }

    /// The open record derived from `(maker, seed)`, if any.
    pub open spec fn record(self, maker: u64, seed: u64) -> Option<Escrow> {
        if self.records.dom().contains((maker, seed)) {
            Some(self.records[(maker, seed)])
        } else {
            None
        }
    }

    /// The custody authority of the record derived from `(maker, seed)`.
    pub open spec fn custody(maker: u64, seed: u64) -> Authority {
        Authority::Record { maker, seed }
    }

    /// Invariant of every reachable ledger state.
    ///
    /// - the balance map is total;
    /// - a record is stored under the key it derives from;
    /// - custody holdings are tied to their record: a holding owned by a
    ///   record authority carries a positive balance only while that record
    ///   is open, and only in the record's offered asset. In particular a
    ///   closed record's custody holding is empty, and the custody holding
    ///   of an open record never holds any asset but the offered one.
    pub open spec fn wf(self) -> bool {
        &&& forall|k: (Authority, u64)| #[trigger] self.balances.dom().contains(k)
        &&& forall|m: u64, s: u64|
            #[trigger] self.records.dom().contains((m, s)) ==> self.records[(m, s)].maker == m
                && self.records[(m, s)].seed == s
        &&& forall|m: u64, s: u64, a: u64|
            #[trigger] self.balances[(Authority::Record { maker: m, seed: s }, a)] > 0
                ==> self.records.dom().contains((m, s)) && self.records[(m, s)].token_mint_a == a
    }
}

/// Outcome of the asset-transfer primitive: move `amount` units of `asset`
/// from `from`'s holding to `to`'s holding. Amount-exact and atomic; refuses
/// a movement the source cannot cover and one the destination cannot absorb.
pub open spec fn transfer_outcome(
    v: LedgerView,
    from: Authority,
    to: Authority,
    asset: u64,
    amount: u64,
) -> Result<LedgerView, EscrowError> {
    if v.balance(from, asset) < amount {
        Err(EscrowError::InsufficientFunds)
    } else if from == to {
        Ok(v)
    } else if v.balance(to, asset) + amount > u64::MAX {
        Err(EscrowError::TransferError)
    } else {
        Ok(
            LedgerView {
                balances: v.balances.insert(
                    (from, asset),
                    (v.balance(from, asset) - amount) as u64,
                ).insert((to, asset), (v.balance(to, asset) + amount) as u64),
                records: v.records,
            },
        )
    }
}

/// Outcome of `Make`: create the record derived from `(maker, seed)` and its
/// custody holding, and fund the holding with `deposit` units of
/// `token_mint_a` taken from the maker's own holding, all atomically.
pub open spec fn make_outcome(
    v: LedgerView,
    maker: u64,
    seed: u64,
    token_mint_a: u64,
    token_mint_b: u64,
    deposit: u64,
    receive: u64,
    bump: u8,
) -> Result<LedgerView, EscrowError> {
    if v.record(maker, seed) is Some {
        Err(EscrowError::AlreadyExists)
    } else {
        match transfer_outcome(
            v,
            Authority::Party { id: maker },
            LedgerView::custody(maker, seed),
            token_mint_a,
            deposit,
        ) {
            Err(e) => Err(e),
            Ok(v1) => Ok(
                LedgerView {
                    balances: v1.balances,
                    records: v1.records.insert(
                        (maker, seed),
                        Escrow {
                            seed,
                            maker,
                            token_mint_a,
                            token_mint_b,
                            receive_amount: receive,
                            bump,
                        },
                    ),
                },
            ),
        }
    }
}

/// Outcome of `Exchange`: against the open record derived from
/// `(maker, seed)`, move the wanted amount from the taker to the maker, then
/// the custody holding's entire balance to the taker, then delete the record
/// — one indivisible step. `custody_asset` is the asset of the holding the
/// caller presents as custody; it must be the record's offered asset.
pub open spec fn exchange_outcome(
    v: LedgerView,
    taker: u64,
    maker: u64,
    seed: u64,
    custody_asset: u64,
) -> Result<LedgerView, EscrowError> {
    match v.record(maker, seed) {
        None => Err(EscrowError::NotFound),
        Some(e) => {
            if custody_asset != e.token_mint_a {
                Err(EscrowError::InvalidCustody)
            } else {
                match transfer_outcome(
                    v,
                    Authority::Party { id: taker },
                    Authority::Party { id: e.maker },
                    e.token_mint_b,
                    e.receive_amount,
                ) {
                    Err(err) => Err(err),
                    Ok(v1) => {
                        let custody = LedgerView::custody(maker, seed);
                        match transfer_outcome(
                            v1,
                            custody,
                            Authority::Party { id: taker },
                            e.token_mint_a,
                            v1.balance(custody, e.token_mint_a),
                        ) {
                            Err(err) => Err(err),
                            Ok(v2) => Ok(
                                LedgerView {
                                    balances: v2.balances,
                                    records: v2.records.remove((maker, seed)),
                                },
                            ),
                        }
                    },
                }
            }
        },
    }
}

/// Outcome of `Cancel`: against the open record derived from
/// `(maker, seed)` and on the maker's own authority, move the custody
/// holding's entire balance back to the maker and delete the record.
pub open spec fn cancel_outcome(
    v: LedgerView,
    caller: u64,
    maker: u64,
    seed: u64,
) -> Result<LedgerView, EscrowError> {
    match v.record(maker, seed) {
        None => Err(EscrowError::NotFound),
        Some(e) => {
            if caller != e.maker {
                Err(EscrowError::Unauthorized)
            } else {
                let custody = LedgerView::custody(maker, seed);
                match transfer_outcome(
                    v,
                    custody,
                    Authority::Party { id: e.maker },
                    e.token_mint_a,
                    v.balance(custody, e.token_mint_a),
                ) {
                    Err(err) => Err(err),
                    Ok(v1) => Ok(
                        LedgerView {
                            balances: v1.balances,
                            records: v1.records.remove((maker, seed)),
                        },
                    ),
                }
            }
        },
    }
}

/// Outcome of endowing a party's holding from outside the escrow subsystem
/// (an issuance): `amount` fresh units of `asset` are credited to `party`.
pub open spec fn mint_outcome(
    v: LedgerView,
    party: u64,
    asset: u64,
    amount: u64,
) -> Result<LedgerView, EscrowError> {
    let owner = Authority::Party { id: party };
    if v.balance(owner, asset) + amount > u64::MAX {
        Err(EscrowError::TransferError)
    } else {
        Ok(
            LedgerView {
                balances: v.balances.insert(
                    (owner, asset),
                    (v.balance(owner, asset) + amount) as u64,
                ),
                records: v.records,
            },
        )
    }
}

} // verus!
