use escrow::errors::EscrowError;
use escrow::ledger::Ledger;
use escrow::state::{Authority, Escrow};

const ASSET_A: u64 = 7;
const ASSET_B: u64 = 9;
const MAKER: u64 = 1;
const TAKER: u64 = 2;
const SEED: u64 = 42;

fn party(id: u64) -> Authority {
    Authority::Party { id }
}

fn custody(maker: u64, seed: u64) -> Authority {
    Authority::Record { maker, seed }
}

/// A ledger with an open offer: maker deposited 100 of asset A, wants 50 of
/// asset B.
fn open_offer() -> Ledger {
    let mut l = Ledger::new();
    assert_eq!(l.mint_to(MAKER, ASSET_A, 100), Ok(()));
    assert_eq!(l.make(MAKER, SEED, ASSET_A, ASSET_B, 100, 50, 3), Ok(()));
    l
}

#[test]
fn make_records_fields_and_funds_custody() {
    let l = open_offer();
    assert_eq!(
        l.get_record(MAKER, SEED),
        Some(Escrow {
            seed: SEED,
            maker: MAKER,
            token_mint_a: ASSET_A,
            token_mint_b: ASSET_B,
            receive_amount: 50,
            bump: 3,
        })
    );
    assert_eq!(l.balance_of(custody(MAKER, SEED), ASSET_A), 100);
    assert_eq!(l.balance_of(party(MAKER), ASSET_A), 0);
}

#[test]
fn make_with_insufficient_balance_fails() {
    let mut l = Ledger::new();
    assert_eq!(l.mint_to(MAKER, ASSET_A, 99), Ok(()));
    assert_eq!(
        l.make(MAKER, SEED, ASSET_A, ASSET_B, 100, 50, 3),
        Err(EscrowError::InsufficientFunds)
    );
    assert_eq!(l.balance_of(party(MAKER), ASSET_A), 99);
    assert_eq!(l.get_record(MAKER, SEED), None);
}

#[test]
fn duplicate_make_fails_regardless_of_arguments() {
    let mut l = open_offer();
    assert_eq!(l.mint_to(MAKER, ASSET_B, 500), Ok(()));
    assert_eq!(
        l.make(MAKER, SEED, ASSET_B, ASSET_A, 1, 2, 9),
        Err(EscrowError::AlreadyExists)
    );
    // The open offer is untouched.
    assert_eq!(l.balance_of(custody(MAKER, SEED), ASSET_A), 100);
    assert_eq!(l.balance_of(party(MAKER), ASSET_B), 500);
    assert_eq!(
        l.get_record(MAKER, SEED).map(|e| e.receive_amount),
        Some(50)
    );
}

#[test]
fn same_maker_distinct_seeds_coexist() {
    let mut l = Ledger::new();
    assert_eq!(l.mint_to(MAKER, ASSET_A, 100), Ok(()));
    assert_eq!(l.make(MAKER, 1, ASSET_A, ASSET_B, 60, 5, 0), Ok(()));
    assert_eq!(l.make(MAKER, 2, ASSET_A, ASSET_B, 40, 6, 0), Ok(()));
    assert_eq!(l.balance_of(custody(MAKER, 1), ASSET_A), 60);
    assert_eq!(l.balance_of(custody(MAKER, 2), ASSET_A), 40);
    assert_eq!(l.balance_of(party(MAKER), ASSET_A), 0);
}

#[test]
fn exchange_happy_path() {
    let mut l = open_offer();
    assert_eq!(l.mint_to(TAKER, ASSET_B, 60), Ok(()));
    assert_eq!(l.exchange(TAKER, MAKER, SEED, ASSET_A), Ok(()));
    assert_eq!(l.balance_of(party(MAKER), ASSET_B), 50);
    assert_eq!(l.balance_of(party(TAKER), ASSET_A), 100);
    assert_eq!(l.balance_of(party(TAKER), ASSET_B), 10);
    assert_eq!(l.balance_of(custody(MAKER, SEED), ASSET_A), 0);
    assert_eq!(l.get_record(MAKER, SEED), None);
}

#[test]
fn exchange_with_insufficient_funds_changes_nothing() {
    let mut l = open_offer();
    assert_eq!(l.mint_to(TAKER, ASSET_B, 40), Ok(()));
    assert_eq!(
        l.exchange(TAKER, MAKER, SEED, ASSET_A),
        Err(EscrowError::InsufficientFunds)
    );
    assert_eq!(l.balance_of(party(TAKER), ASSET_B), 40);
    assert_eq!(l.balance_of(party(MAKER), ASSET_B), 0);
    assert_eq!(l.balance_of(custody(MAKER, SEED), ASSET_A), 100);
    assert!(l.get_record(MAKER, SEED).is_some());
}

#[test]
fn exchange_reverses_first_leg_when_second_leg_overflows() {
    let mut l = open_offer();
    assert_eq!(l.mint_to(TAKER, ASSET_B, 50), Ok(()));
    // The taker's offered-asset holding cannot absorb the deposit.
    assert_eq!(l.mint_to(TAKER, ASSET_A, u64::MAX), Ok(()));
    assert_eq!(
        l.exchange(TAKER, MAKER, SEED, ASSET_A),
        Err(EscrowError::TransferError)
    );
    // Every balance and the record are exactly as before the call.
    assert_eq!(l.balance_of(party(TAKER), ASSET_B), 50);
    assert_eq!(l.balance_of(party(MAKER), ASSET_B), 0);
    assert_eq!(l.balance_of(party(TAKER), ASSET_A), u64::MAX);
    assert_eq!(l.balance_of(custody(MAKER, SEED), ASSET_A), 100);
    assert!(l.get_record(MAKER, SEED).is_some());
}

#[test]
fn exchange_with_wrong_custody_asset_fails() {
    let mut l = open_offer();
    assert_eq!(l.mint_to(TAKER, ASSET_B, 60), Ok(()));
    assert_eq!(
        l.exchange(TAKER, MAKER, SEED, ASSET_B),
        Err(EscrowError::InvalidCustody)
    );
    assert_eq!(l.balance_of(party(TAKER), ASSET_B), 60);
    assert_eq!(l.balance_of(custody(MAKER, SEED), ASSET_A), 100);
    assert!(l.get_record(MAKER, SEED).is_some());
}

#[test]
fn cancel_restores_the_deposit() {
    let mut l = open_offer();
    assert_eq!(l.refund(MAKER, MAKER, SEED), Ok(()));
    assert_eq!(l.balance_of(party(MAKER), ASSET_A), 100);
    assert_eq!(l.balance_of(custody(MAKER, SEED), ASSET_A), 0);
    assert_eq!(l.get_record(MAKER, SEED), None);
}

#[test]
fn cancel_by_another_identity_is_rejected() {
    let mut l = open_offer();
    assert_eq!(l.refund(TAKER, MAKER, SEED), Err(EscrowError::Unauthorized));
    assert_eq!(l.balance_of(custody(MAKER, SEED), ASSET_A), 100);
    assert_eq!(l.balance_of(party(MAKER), ASSET_A), 0);
    assert!(l.get_record(MAKER, SEED).is_some());
}

#[test]
fn closed_by_exchange_is_terminal() {
    let mut l = open_offer();
    assert_eq!(l.mint_to(TAKER, ASSET_B, 50), Ok(()));
    assert_eq!(l.exchange(TAKER, MAKER, SEED, ASSET_A), Ok(()));
    assert_eq!(
        l.exchange(TAKER, MAKER, SEED, ASSET_A),
        Err(EscrowError::NotFound)
    );
    assert_eq!(l.refund(MAKER, MAKER, SEED), Err(EscrowError::NotFound));
}

#[test]
fn closed_by_cancel_is_terminal() {
    let mut l = open_offer();
    assert_eq!(l.mint_to(TAKER, ASSET_B, 50), Ok(()));
    assert_eq!(l.refund(MAKER, MAKER, SEED), Ok(()));
    assert_eq!(
        l.exchange(TAKER, MAKER, SEED, ASSET_A),
        Err(EscrowError::NotFound)
    );
    assert_eq!(l.refund(MAKER, MAKER, SEED), Err(EscrowError::NotFound));
}

#[test]
fn operations_on_a_never_created_record_fail() {
    let mut l = Ledger::new();
    assert_eq!(l.exchange(TAKER, MAKER, SEED, ASSET_A), Err(EscrowError::NotFound));
    assert_eq!(l.refund(MAKER, MAKER, SEED), Err(EscrowError::NotFound));
}

#[test]
fn zero_deposit_offer_is_permitted() {
    let mut l = Ledger::new();
    assert_eq!(l.make(MAKER, SEED, ASSET_A, ASSET_B, 0, 50, 3), Ok(()));
    assert_eq!(l.balance_of(custody(MAKER, SEED), ASSET_A), 0);
    assert_eq!(l.mint_to(TAKER, ASSET_B, 50), Ok(()));
    assert_eq!(l.exchange(TAKER, MAKER, SEED, ASSET_A), Ok(()));
    assert_eq!(l.balance_of(party(MAKER), ASSET_B), 50);
    assert_eq!(l.balance_of(party(TAKER), ASSET_A), 0);
    assert_eq!(l.get_record(MAKER, SEED), None);
}

#[test]
fn same_asset_offer_is_a_degenerate_but_safe_case() {
    let mut l = Ledger::new();
    assert_eq!(l.mint_to(MAKER, ASSET_A, 100), Ok(()));
    assert_eq!(l.make(MAKER, SEED, ASSET_A, ASSET_A, 100, 50, 3), Ok(()));
    assert_eq!(l.mint_to(TAKER, ASSET_A, 50), Ok(()));
    assert_eq!(l.exchange(TAKER, MAKER, SEED, ASSET_A), Ok(()));
    assert_eq!(l.balance_of(party(MAKER), ASSET_A), 50);
    assert_eq!(l.balance_of(party(TAKER), ASSET_A), 100);
    assert_eq!(l.get_record(MAKER, SEED), None);
}

#[test]
fn maker_may_take_their_own_offer() {
    let mut l = open_offer();
    assert_eq!(l.mint_to(MAKER, ASSET_B, 50), Ok(()));
    assert_eq!(l.exchange(MAKER, MAKER, SEED, ASSET_A), Ok(()));
    assert_eq!(l.balance_of(party(MAKER), ASSET_A), 100);
    assert_eq!(l.balance_of(party(MAKER), ASSET_B), 50);
    assert_eq!(l.get_record(MAKER, SEED), None);
}

#[test]
fn mint_refuses_an_overflowing_credit() {
    let mut l = Ledger::new();
    assert_eq!(l.mint_to(MAKER, ASSET_A, u64::MAX), Ok(()));
    assert_eq!(l.mint_to(MAKER, ASSET_A, 1), Err(EscrowError::TransferError));
    assert_eq!(l.balance_of(party(MAKER), ASSET_A), u64::MAX);
}
