//! The laws of the escrow state machine, proved over the functional model.

use vstd::prelude::*;

use crate::errors::EscrowError;
use crate::model::{cancel_outcome, exchange_outcome, make_outcome, mint_outcome, LedgerView};
use crate::state::{Authority, Escrow};

verus! {

/// Creation exactness. After a successful `Make(maker, seed, deposit,
/// wanted)`, the custody holding's balance equals the deposit, the record's
/// fields equal the supplied arguments exactly, the deposit has left the
/// maker's own holding, and nothing else in the ledger has changed.
pub proof fn lemma_make_exact(
    v: LedgerView,
    maker: u64,
    seed: u64,
    token_mint_a: u64,
    token_mint_b: u64,
    deposit: u64,
    receive: u64,
    bump: u8,
)
    requires
        v.wf(),
        make_outcome(v, maker, seed, token_mint_a, token_mint_b, deposit, receive, bump) is Ok,
    ensures
        ({
            let v1 = make_outcome(
                v,
                maker,
                seed,
                token_mint_a,
                token_mint_b,
                deposit,
                receive,
                bump,
            )->Ok_0;
            let custody = LedgerView::custody(maker, seed);
            let own = Authority::Party { id: maker };
            &&& v1.record(maker, seed) == Some(
                Escrow {
                    seed,
                    maker,
                    token_mint_a,
                    token_mint_b,
                    receive_amount: receive,
                    bump,
                },
            )
            &&& v1.balance(custody, token_mint_a) == deposit
            &&& v.balance(own, token_mint_a) >= deposit
            &&& v1.balance(own, token_mint_a) == v.balance(own, token_mint_a) - deposit
            &&& forall|o: Authority, a: u64|
                (o, a) != (own, token_mint_a) && (o, a) != (custody, token_mint_a)
                    ==> #[trigger] v1.balance(o, a) == v.balance(o, a)
            &&& forall|m: u64, s: u64|
                (m, s) != (maker, seed) ==> #[trigger] v1.record(m, s) == v.record(m, s)
        }),
{
    let custody = LedgerView::custody(maker, seed);
    assert(v.balance(custody, token_mint_a) == 0);
}

/// No double creation. After a successful `Make`, a second `Make` with the
/// same `(maker, seed)` fails with `AlreadyExists` regardless of its other
/// argument values, and (by the operations' contracts) changes nothing.
pub proof fn lemma_no_double_creation(
    v: LedgerView,
    maker: u64,
    seed: u64,
    token_mint_a: u64,
    token_mint_b: u64,
    deposit: u64,
    receive: u64,
    bump: u8,
    token_mint_a2: u64,
    token_mint_b2: u64,
    deposit2: u64,
    receive2: u64,
    bump2: u8,
)
    requires
        make_outcome(v, maker, seed, token_mint_a, token_mint_b, deposit, receive, bump) is Ok,
    ensures
        make_outcome(
            make_outcome(v, maker, seed, token_mint_a, token_mint_b, deposit, receive, bump)
                ->Ok_0,
            maker,
            seed,
            token_mint_a2,
            token_mint_b2,
            deposit2,
            receive2,
            bump2,
        ) == Err::<LedgerView, EscrowError>(EscrowError::AlreadyExists),
{
}

/// `Make` is owed success exactly when the derived address is free and the
/// maker's holding covers the deposit; each failure names its cause.
pub proof fn lemma_make_success_iff(
    v: LedgerView,
    maker: u64,
    seed: u64,
    token_mint_a: u64,
    token_mint_b: u64,
    deposit: u64,
    receive: u64,
    bump: u8,
)
    requires
        v.wf(),
    ensures
        ({
            let r = make_outcome(v, maker, seed, token_mint_a, token_mint_b, deposit, receive, bump);
            let own = Authority::Party { id: maker };
            &&& r is Ok <==> v.record(maker, seed) is None && v.balance(own, token_mint_a)
                >= deposit
            &&& r == Err::<LedgerView, EscrowError>(EscrowError::AlreadyExists) <==> v.record(
                maker,
                seed,
            ) is Some
            &&& r == Err::<LedgerView, EscrowError>(EscrowError::InsufficientFunds) <==> v.record(
                maker,
                seed,
            ) is None && v.balance(own, token_mint_a) < deposit
        }),
{
    if v.record(maker, seed) is None {
        assert(v.balance(LedgerView::custody(maker, seed), token_mint_a) == 0);
    }
}

/// Exchange exactness. For an open record between distinct parties and over
/// distinct assets, a successful `Exchange` increases the maker's
/// wanted-asset balance by exactly the wanted amount, increases the taker's
/// offered-asset balance by exactly the original deposit (paid for out of
/// the taker's wanted-asset balance), drains and closes the custody holding,
/// deletes the record, and changes nothing else. Together with the
/// operation's contract — which returns the model's error and the unchanged
/// ledger on every failing path — no third outcome is observable.
pub proof fn lemma_exchange_exact(
    v: LedgerView,
    taker: u64,
    maker: u64,
    seed: u64,
    custody_asset: u64,
)
    requires
        v.wf(),
        exchange_outcome(v, taker, maker, seed, custody_asset) is Ok,
        taker != maker,
        v.record(maker, seed)->Some_0.token_mint_a != v.record(maker, seed)->Some_0.token_mint_b,
    ensures
        ({
            let e = v.record(maker, seed)->Some_0;
            let custody = LedgerView::custody(maker, seed);
            let deposit = v.balance(custody, e.token_mint_a);
            let maker_own = Authority::Party { id: maker };
            let taker_own = Authority::Party { id: taker };
            let v2 = exchange_outcome(v, taker, maker, seed, custody_asset)->Ok_0;
            &&& v2.balance(maker_own, e.token_mint_b) == v.balance(maker_own, e.token_mint_b)
                + e.receive_amount
            &&& v2.balance(taker_own, e.token_mint_a) == v.balance(taker_own, e.token_mint_a)
                + deposit
            &&& v2.balance(taker_own, e.token_mint_b) == v.balance(taker_own, e.token_mint_b)
                - e.receive_amount
            &&& v2.balance(custody, e.token_mint_a) == 0
            &&& v2.record(maker, seed) is None
            &&& forall|o: Authority, a: u64|
                (o, a) != (maker_own, e.token_mint_b) && (o, a) != (taker_own, e.token_mint_b)
                    && (o, a) != (taker_own, e.token_mint_a) && (o, a) != (
                    custody,
                    e.token_mint_a,
                ) ==> #[trigger] v2.balance(o, a) == v.balance(o, a)
            &&& forall|m: u64, s: u64|
                (m, s) != (maker, seed) ==> #[trigger] v2.record(m, s) == v.record(m, s)
        }),
{
    let e = v.record(maker, seed)->Some_0;
    assert(e.maker == maker);
}

/// `Exchange` between distinct parties over distinct assets is owed success
/// exactly when the record is open, the presented custody holding is the
/// record's, the taker's holding covers the wanted amount, and both credited
/// holdings can absorb their credit; each failure names its cause.
pub proof fn lemma_exchange_success_iff(
    v: LedgerView,
    taker: u64,
    maker: u64,
    seed: u64,
    custody_asset: u64,
)
    requires
        v.wf(),
        v.record(maker, seed) matches Some(e) ==> e.token_mint_a != e.token_mint_b,
        taker != maker,
    ensures
        ({
            let r = exchange_outcome(v, taker, maker, seed, custody_asset);
            match v.record(maker, seed) {
                None => r == Err::<LedgerView, EscrowError>(EscrowError::NotFound),
                Some(e) => {
                    let deposit = v.balance(LedgerView::custody(maker, seed), e.token_mint_a);
                    let taker_b = v.balance(Authority::Party { id: taker }, e.token_mint_b);
                    let maker_b = v.balance(Authority::Party { id: maker }, e.token_mint_b);
                    let taker_a = v.balance(Authority::Party { id: taker }, e.token_mint_a);
                    &&& custody_asset != e.token_mint_a ==> r == Err::<LedgerView, EscrowError>(
                        EscrowError::InvalidCustody,
                    )
                    &&& custody_asset == e.token_mint_a ==> {
                        &&& r is Ok <==> taker_b >= e.receive_amount && maker_b + e.receive_amount
                            <= u64::MAX && taker_a + deposit <= u64::MAX
                        &&& r == Err::<LedgerView, EscrowError>(EscrowError::InsufficientFunds)
                            <==> taker_b < e.receive_amount
                        &&& r == Err::<LedgerView, EscrowError>(EscrowError::TransferError)
                            <==> taker_b >= e.receive_amount && (maker_b + e.receive_amount
                            > u64::MAX || taker_a + deposit > u64::MAX)
                    }
                },
            }
        }),
{
    if v.record(maker, seed) is Some {
        assert(v.record(maker, seed)->Some_0.maker == maker);
    }
}

/// `Cancel` is owed success exactly when the record is open, the caller is
/// its maker, and the maker's holding can absorb the refunded deposit; each
/// failure names its cause.
pub proof fn lemma_cancel_success_iff(v: LedgerView, caller: u64, maker: u64, seed: u64)
    requires
        v.wf(),
    ensures
        ({
            let r = cancel_outcome(v, caller, maker, seed);
            match v.record(maker, seed) {
                None => r == Err::<LedgerView, EscrowError>(EscrowError::NotFound),
                Some(e) => {
                    let deposit = v.balance(LedgerView::custody(maker, seed), e.token_mint_a);
                    let maker_a = v.balance(Authority::Party { id: maker }, e.token_mint_a);
                    &&& caller != maker ==> r == Err::<LedgerView, EscrowError>(
                        EscrowError::Unauthorized,
                    )
                    &&& caller == maker ==> {
                        &&& r is Ok <==> maker_a + deposit <= u64::MAX
                        &&& r == Err::<LedgerView, EscrowError>(EscrowError::TransferError) <==>
                            maker_a + deposit > u64::MAX
                    }
                },
            }
        }),
{
    if v.record(maker, seed) is Some {
        assert(v.record(maker, seed)->Some_0.maker == maker);
    }
}

/// Cancel restores the deposit. For a record untouched since its `Make`,
/// `Cancel` by the maker succeeds and returns the ledger to exactly the
/// state before the `Make`: the maker's offered-asset balance is restored,
/// the custody holding is empty again, and the record is gone.
pub proof fn lemma_cancel_restores(
    v: LedgerView,
    maker: u64,
    seed: u64,
    token_mint_a: u64,
    token_mint_b: u64,
    deposit: u64,
    receive: u64,
    bump: u8,
)
    requires
        v.wf(),
        make_outcome(v, maker, seed, token_mint_a, token_mint_b, deposit, receive, bump) is Ok,
    ensures
        ({
            let v1 = make_outcome(
                v,
                maker,
                seed,
                token_mint_a,
                token_mint_b,
                deposit,
                receive,
                bump,
            )->Ok_0;
            cancel_outcome(v1, maker, maker, seed) == Ok::<LedgerView, EscrowError>(v)
        }),
{
    let v1 = make_outcome(v, maker, seed, token_mint_a, token_mint_b, deposit, receive, bump)
        ->Ok_0;
    let custody = LedgerView::custody(maker, seed);
    assert(v.balance(custody, token_mint_a) == 0);
    assert(v1.balance(custody, token_mint_a) == deposit);
    match cancel_outcome(v1, maker, maker, seed) {
        Ok(v2) => {
            assert(v2 =~= v);
        },
        Err(_) => {
            assert(false);
        },
    }
}

/// Unauthorized cancel is rejected: `Cancel` of an open record by any
/// identity other than its maker fails with `Unauthorized` (and, by the
/// operation's contract, changes nothing).
pub proof fn lemma_unauthorized_cancel(v: LedgerView, caller: u64, maker: u64, seed: u64)
    requires
        v.wf(),
        v.record(maker, seed) is Some,
        caller != maker,
    ensures
        cancel_outcome(v, caller, maker, seed) == Err::<LedgerView, EscrowError>(
            EscrowError::Unauthorized,
        ),
{
    assert(v.record(maker, seed)->Some_0.maker == maker);
}

/// On a ledger with no record under `(maker, seed)` — never created, or
/// already closed — every `Exchange` and every `Cancel` of that key fails
/// with `NotFound`.
pub proof fn lemma_absent_record_not_found(
    v: LedgerView,
    maker: u64,
    seed: u64,
    taker: u64,
    custody_asset: u64,
    caller: u64,
)
    requires
        v.record(maker, seed) is None,
    ensures
        exchange_outcome(v, taker, maker, seed, custody_asset) == Err::<LedgerView, EscrowError>(
            EscrowError::NotFound,
        ),
        cancel_outcome(v, caller, maker, seed) == Err::<LedgerView, EscrowError>(
            EscrowError::NotFound,
        ),
{
}

/// Terminal idempotence. Once a record is closed — by `Exchange` or by
/// `Cancel` — any further `Exchange` or `Cancel` referencing it fails with
/// `NotFound`.
pub proof fn lemma_closed_is_terminal(
    v: LedgerView,
    maker: u64,
    seed: u64,
    taker: u64,
    custody_asset: u64,
    caller: u64,
    taker2: u64,
    custody_asset2: u64,
    caller2: u64,
)
    ensures
        (exchange_outcome(v, taker, maker, seed, custody_asset) matches Ok(v2) ==> {
            &&& exchange_outcome(v2, taker2, maker, seed, custody_asset2) == Err::<
                LedgerView,
                EscrowError,
            >(EscrowError::NotFound)
            &&& cancel_outcome(v2, caller2, maker, seed) == Err::<LedgerView, EscrowError>(
                EscrowError::NotFound,
            )
        }),
        (cancel_outcome(v, caller, maker, seed) matches Ok(v1) ==> {
            &&& exchange_outcome(v1, taker2, maker, seed, custody_asset2) == Err::<
                LedgerView,
                EscrowError,
            >(EscrowError::NotFound)
            &&& cancel_outcome(v1, caller2, maker, seed) == Err::<LedgerView, EscrowError>(
                EscrowError::NotFound,
            )
        }),
{
}

/// Issuing fresh units to a party preserves the state-machine invariant.
pub proof fn lemma_mint_preserves_wf(v: LedgerView, party: u64, asset: u64, amount: u64)
    requires
        v.wf(),
        mint_outcome(v, party, asset, amount) is Ok,
    ensures
        mint_outcome(v, party, asset, amount)->Ok_0.wf(),
{
    let v1 = mint_outcome(v, party, asset, amount)->Ok_0;
    assert forall|m: u64, s: u64, a: u64|
        #[trigger] v1.balances[(Authority::Record { maker: m, seed: s }, a)] > 0 implies v1
        .records.dom().contains((m, s)) && v1.records[(m, s)].token_mint_a == a by {
        assert(v1.balances[(Authority::Record { maker: m, seed: s }, a)] == v.balances[(
            Authority::Record { maker: m, seed: s },
            a,
        )]);
    }
}

/// A successful `Make` preserves the state-machine invariant.
pub proof fn lemma_make_preserves_wf(
    v: LedgerView,
    maker: u64,
    seed: u64,
    token_mint_a: u64,
    token_mint_b: u64,
    deposit: u64,
    receive: u64,
    bump: u8,
)
    requires
        v.wf(),
        make_outcome(v, maker, seed, token_mint_a, token_mint_b, deposit, receive, bump) is Ok,
    ensures
        make_outcome(v, maker, seed, token_mint_a, token_mint_b, deposit, receive, bump)->Ok_0.wf(),
{
    let v1 = make_outcome(v, maker, seed, token_mint_a, token_mint_b, deposit, receive, bump)
        ->Ok_0;
    assert forall|m: u64, s: u64, a: u64|
        #[trigger] v1.balances[(Authority::Record { maker: m, seed: s }, a)] > 0 implies v1
        .records.dom().contains((m, s)) && v1.records[(m, s)].token_mint_a == a by {
        let key = (Authority::Record { maker: m, seed: s }, a);
        if m == maker && s == seed && a == token_mint_a {
        } else {
            assert(v1.balances[key] == v.balances[key]);
            assert(v.records.dom().contains((m, s)));
            assert(!(m == maker && s == seed));
        }
    }
}

/// A successful `Exchange` preserves the state-machine invariant.
pub proof fn lemma_exchange_preserves_wf(
    v: LedgerView,
    taker: u64,
    maker: u64,
    seed: u64,
    custody_asset: u64,
)
    requires
        v.wf(),
        exchange_outcome(v, taker, maker, seed, custody_asset) is Ok,
    ensures
        exchange_outcome(v, taker, maker, seed, custody_asset)->Ok_0.wf(),
{
    let v2 = exchange_outcome(v, taker, maker, seed, custody_asset)->Ok_0;
    let e = v.record(maker, seed)->Some_0;
    assert forall|m: u64, s: u64, a: u64|
        #[trigger] v2.balances[(Authority::Record { maker: m, seed: s }, a)] > 0 implies v2
        .records.dom().contains((m, s)) && v2.records[(m, s)].token_mint_a == a by {
        let key = (Authority::Record { maker: m, seed: s }, a);
        if m == maker && s == seed {
            if a == e.token_mint_a {
                assert(v2.balances[key] == 0);
            } else {
                assert(v2.balances[key] == v.balances[key]);
                assert(v.records[(m, s)].token_mint_a == a);
                assert(false);
            }
        } else {
            assert(v2.balances[key] == v.balances[key]);
        }
    }
}

/// A successful `Cancel` preserves the state-machine invariant.
pub proof fn lemma_cancel_preserves_wf(v: LedgerView, caller: u64, maker: u64, seed: u64)
    requires
        v.wf(),
        cancel_outcome(v, caller, maker, seed) is Ok,
    ensures
        cancel_outcome(v, caller, maker, seed)->Ok_0.wf(),
{
    let v1 = cancel_outcome(v, caller, maker, seed)->Ok_0;
    let e = v.record(maker, seed)->Some_0;
    assert forall|m: u64, s: u64, a: u64|
        #[trigger] v1.balances[(Authority::Record { maker: m, seed: s }, a)] > 0 implies v1
        .records.dom().contains((m, s)) && v1.records[(m, s)].token_mint_a == a by {
        let key = (Authority::Record { maker: m, seed: s }, a);
        if m == maker && s == seed {
            if a == e.token_mint_a {
                assert(v1.balances[key] == 0);
            } else {
                assert(v1.balances[key] == v.balances[key]);
                assert(v.records[(m, s)].token_mint_a == a);
                assert(false);
            }
        } else {
            assert(v1.balances[key] == v.balances[key]);
        }
    }
}

} // verus!
