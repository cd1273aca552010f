//! A verified core for a two-party conditional token exchange (escrow).
//!
//! A maker deposits an amount of one asset into a custody holding whose sole
//! authority is the escrow record itself, naming how much of another asset
//! they want in return. A taker may fulfill the offer atomically, or the
//! maker may cancel and recover the deposit. The `Ledger` type holds the
//! records and all asset balances; `make`, `exchange` and `refund` are the
//! three transitions of the state machine, each proved against a functional
//! model of its outcome.

pub mod errors;
pub mod ledger;
pub mod laws;
pub mod model;
pub mod state;
