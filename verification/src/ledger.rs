//! The executable ledger: asset holdings and open escrow records, with the
//! three transitions of the state machine (`make`, `exchange`, `refund`).

use vstd::prelude::*;

use crate::errors::EscrowError;
use crate::model::{
    cancel_outcome, exchange_outcome, make_outcome, mint_outcome, transfer_outcome, LedgerView,
};
use crate::state::{Authority, Escrow};

verus! {

/// One asset holding: `amount` units of `asset` owned by `owner`.
#[derive(Clone, Copy, PartialEq, Eq, Structural, Debug)]
pub(crate) struct Holding {
    pub(crate) owner: Authority,
    pub(crate) asset: u64,
    pub(crate) amount: u64,
}

/// Balance that a sequence of holdings assigns to `(owner, asset)`: the
/// amount of the matching entry, or 0 where none exists. Scans from the end;
/// under `holdings_unique` at most one entry can match, so the direction is
/// immaterial.
pub(crate) open spec fn balance_in(s: Seq<Holding>, owner: Authority, asset: u64) -> u64
    decreases s.len(),
{
    if s.len() == 0 {
        0u64
    } else if s.last().owner == owner && s.last().asset == asset {
        s.last().amount
    } else {
        balance_in(s.drop_last(), owner, asset)
    }
}

/// The record a sequence of escrows holds under `(maker, seed)`, if any.
pub(crate) open spec fn record_in(s: Seq<Escrow>, maker: u64, seed: u64) -> Option<Escrow>
    decreases s.len(),
{
    if s.len() == 0 {
        None::<Escrow>
    } else if s.last().maker == maker && s.last().seed == seed {
        Some(s.last())
    } else {
        record_in(s.drop_last(), maker, seed)
    }
}

/// No two holdings share an `(owner, asset)` key.
pub(crate) open spec fn holdings_unique(s: Seq<Holding>) -> bool {
    forall|i: int, j: int|
        0 <= i < j < s.len() ==> !(#[trigger] s[i].owner == #[trigger] s[j].owner
            && s[i].asset == s[j].asset)
}

/// No two records share a `(maker, seed)` key.
pub(crate) open spec fn escrows_unique(s: Seq<Escrow>) -> bool {
    forall|i: int, j: int|
        0 <= i < j < s.len() ==> !(#[trigger] s[i].maker == #[trigger] s[j].maker
            && s[i].seed == s[j].seed)
}

/// Where no entry matches `(owner, asset)`, the balance is 0.
proof fn lemma_balance_absent(s: Seq<Holding>, owner: Authority, asset: u64)
    requires
        forall|i: int| 0 <= i < s.len() ==> !(#[trigger] s[i].owner == owner && s[i].asset == asset),
    ensures
        balance_in(s, owner, asset) == 0,
    decreases s.len(),
{
    if s.len() > 0 {
        assert(s.last() == s[s.len() - 1]);
        lemma_balance_absent(s.drop_last(), owner, asset);
    }
}

/// Under uniqueness, the balance of a key is the amount of its entry.
proof fn lemma_balance_at(s: Seq<Holding>, i: int, owner: Authority, asset: u64)
    requires
        holdings_unique(s),
        0 <= i < s.len(),
        s[i].owner == owner,
        s[i].asset == asset,
    ensures
        balance_in(s, owner, asset) == s[i].amount,
    decreases s.len(),
{
    if i == s.len() - 1 {
        assert(s.last() == s[i]);
    } else {
        assert(!(s[i].owner == s[s.len() - 1].owner && s[i].asset == s[s.len() - 1].asset));
        assert(s.drop_last()[i] == s[i]);
        lemma_balance_at(s.drop_last(), i, owner, asset);
    }
}

/// Appending an entry sets its key's balance and leaves every other key's
/// balance unchanged.
proof fn lemma_balance_push(s: Seq<Holding>, h: Holding, owner: Authority, asset: u64)
    ensures
        balance_in(s.push(h), owner, asset) == if h.owner == owner && h.asset == asset {
            h.amount
        } else {
            balance_in(s, owner, asset)
        },
{
    assert(s.push(h).last() == h);
    assert(s.push(h).drop_last() =~= s);
}

/// Overwriting the entry at `i` with one of the same key sets that key's
/// balance and leaves every other key's balance unchanged.
proof fn lemma_balance_update(s: Seq<Holding>, i: int, h: Holding, owner: Authority, asset: u64)
    requires
        holdings_unique(s),
        0 <= i < s.len(),
        s[i].owner == h.owner,
        s[i].asset == h.asset,
    ensures
        balance_in(s.update(i, h), owner, asset) == if h.owner == owner && h.asset == asset {
            h.amount
        } else {
            balance_in(s, owner, asset)
        },
    decreases s.len(),
{
    let t = s.update(i, h);
    if i == s.len() - 1 {
        assert(t.last() == h);
        assert(t.drop_last() =~= s.drop_last());
        if !(h.owner == owner && h.asset == asset) {
            assert(s.last() == s[i]);
        }
    } else {
        assert(t.last() == s.last());
        assert(t.drop_last() =~= s.drop_last().update(i, h));
        assert(!(s[i].owner == s[s.len() - 1].owner && s[i].asset == s[s.len() - 1].asset));
        assert(s.drop_last()[i] == s[i]);
        lemma_balance_update(s.drop_last(), i, h, owner, asset);
    }
}

/// A key has no record exactly where no entry matches it.
proof fn lemma_record_absent(s: Seq<Escrow>, maker: u64, seed: u64)
    ensures
        record_in(s, maker, seed) is None <==> forall|i: int|
            0 <= i < s.len() ==> !(#[trigger] s[i].maker == maker && s[i].seed == seed),
    decreases s.len(),
{
    if s.len() > 0 {
        assert(s.last() == s[s.len() - 1]);
        lemma_record_absent(s.drop_last(), maker, seed);
        assert(forall|i: int| 0 <= i < s.len() - 1 ==> s.drop_last()[i] == s[i]);
    }
}

/// Under uniqueness, the record of a key is the entry that carries it.
proof fn lemma_record_at(s: Seq<Escrow>, i: int, maker: u64, seed: u64)
    requires
        escrows_unique(s),
        0 <= i < s.len(),
        s[i].maker == maker,
        s[i].seed == seed,
    ensures
        record_in(s, maker, seed) == Some(s[i]),
    decreases s.len(),
{
    if i == s.len() - 1 {
        assert(s.last() == s[i]);
    } else {
        assert(!(s[i].maker == s[s.len() - 1].maker && s[i].seed == s[s.len() - 1].seed));
        assert(s.drop_last()[i] == s[i]);
        lemma_record_at(s.drop_last(), i, maker, seed);
    }
}

/// Appending a record sets its key and leaves every other key unchanged.
proof fn lemma_record_push(s: Seq<Escrow>, e: Escrow, maker: u64, seed: u64)
    ensures
        record_in(s.push(e), maker, seed) == if e.maker == maker && e.seed == seed {
            Some(e)
        } else {
            record_in(s, maker, seed)
        },
{
    assert(s.push(e).last() == e);
    assert(s.push(e).drop_last() =~= s);
}

/// The executable ledger. Its abstract state is a `LedgerView`; every public
/// operation's contract is stated against that view.
pub struct Ledger {
    holdings: Vec<Holding>,
    escrows: Vec<Escrow>,
}

impl View for Ledger {
    type V = LedgerView;

    closed spec fn view(&self) -> LedgerView {
        LedgerView {
            balances: Map::new(
                |k: (Authority, u64)| true,
                |k: (Authority, u64)| balance_in(self.holdings@, k.0, k.1),
            ),
            records: Map::new(
                |k: (u64, u64)| record_in(self.escrows@, k.0, k.1) is Some,
                |k: (u64, u64)| record_in(self.escrows@, k.0, k.1)->Some_0,
            ),
        }
    }
}

impl Ledger {
    /// The ledger's representation keeps one entry per holding and per
    /// record, and its abstract state satisfies the state-machine invariant.
    pub closed spec fn wf(&self) -> bool {
        &&& holdings_unique(self.holdings@)
        &&& escrows_unique(self.escrows@)
        &&& self@.wf()
    }

    /// An empty ledger: no holdings funded, no records open.
    pub fn new() -> (l: Ledger)
        ensures
            l.wf(),
            l@ == (LedgerView {
                balances: Map::new(|k: (Authority, u64)| true, |k: (Authority, u64)| 0u64),
                records: Map::<(u64, u64), Escrow>::empty(),
            }),
            forall|o: Authority, a: u64| #[trigger] l@.balance(o, a) == 0,
            forall|m: u64, s: u64| #[trigger] l@.record(m, s) is None,
    {
        let l = Ledger { holdings: Vec::new(), escrows: Vec::new() };
        proof {
            assert(forall|o: Authority, a: u64|
                #[trigger] l@.balance(o, a) == balance_in(l.holdings@, o, a));
            assert(l.holdings@.len() == 0);
            assert(l.escrows@.len() == 0);
        }
        l
    }

    /// Index of the holding keyed `(owner, asset)`, if one exists.
    fn find_holding(&self, owner: Authority, asset: u64) -> (r: Option<usize>)
        requires
            holdings_unique(self.holdings@),
        ensures
            (match r {
                Some(i) => i < self.holdings@.len() && self.holdings@[i as int].owner == owner
                    && self.holdings@[i as int].asset == asset && balance_in(
                    self.holdings@,
                    owner,
                    asset,
                ) == self.holdings@[i as int].amount,
                None => balance_in(self.holdings@, owner, asset) == 0 && forall|k: int|
                    0 <= k < self.holdings@.len() ==> !(#[trigger] self.holdings@[k].owner == owner
                        && self.holdings@[k].asset == asset),
            }),
    {
        let n = self.holdings.len();
        for i in 0..n
            invariant
                n == self.holdings@.len(),
                holdings_unique(self.holdings@),
                forall|k: int|
                    0 <= k < i ==> !(#[trigger] self.holdings@[k].owner == owner
                        && self.holdings@[k].asset == asset),
        {
            if self.holdings[i].owner == owner && self.holdings[i].asset == asset {
                proof {
                    lemma_balance_at(self.holdings@, i as int, owner, asset);
                }
                return Some(i);
            }
        }
        proof {
            lemma_balance_absent(self.holdings@, owner, asset);
        }
        None
    }

    /// Balance of `owner`'s holding of `asset`.
    pub fn balance_of(&self, owner: Authority, asset: u64) -> (amount: u64)
        requires
            self.wf(),
        ensures
            amount == self@.balance(owner, asset),
    {
        match self.find_holding(owner, asset) {
            Some(i) => self.holdings[i].amount,
            None => 0,
        }
    }

    /// Overwrite (or create) the holding keyed `(owner, asset)`.
    fn set_balance(&mut self, owner: Authority, asset: u64, amount: u64)
        requires
            holdings_unique(old(self).holdings@),
        ensures
            holdings_unique(final(self).holdings@),
            final(self).escrows@ == old(self).escrows@,
            final(self)@.records == old(self)@.records,
            final(self)@.balances == old(self)@.balances.insert((owner, asset), amount),
    {
        let h = Holding { owner, asset, amount };
        let ghost s0 = self.holdings@;
        match self.find_holding(owner, asset) {
            Some(i) => {
                self.holdings[i] = h;
                proof {
                    assert(forall|x: int, y: int|
                        0 <= x < y < self.holdings@.len() ==> self.holdings@[x]
                            == s0.update(i as int, h)[x] && self.holdings@[y] == s0.update(
                            i as int,
                            h,
                        )[y]);
                    assert forall|o: Authority, a: u64|
                        #[trigger] balance_in(self.holdings@, o, a) == if o == owner && a
                            == asset {
                            amount
                        } else {
                            balance_in(s0, o, a)
                        } by {
                        lemma_balance_update(s0, i as int, h, o, a);
                    }
                }
            },
            None => {
                self.holdings.push(h);
                proof {
                    assert forall|o: Authority, a: u64|
                        #[trigger] balance_in(self.holdings@, o, a) == if o == owner && a
                            == asset {
                            amount
                        } else {
                            balance_in(s0, o, a)
                        } by {
                        lemma_balance_push(s0, h, o, a);
                    }
                    assert forall|x: int, y: int|
                        0 <= x < y < self.holdings@.len() implies !(
                    #[trigger] self.holdings@[x].owner == #[trigger] self.holdings@[y].owner
                        && self.holdings@[x].asset == self.holdings@[y].asset) by {
                        if y == self.holdings@.len() - 1 {
                            assert(balance_in(s0, owner, asset) == 0);
                        }
                    }
                }
            },
        }
        proof {
            assert(final(self)@.balances =~= old(self)@.balances.insert((owner, asset), amount));
            assert(final(self)@.records =~= old(self)@.records);
        }
    }

    /// Index of the record keyed `(maker, seed)`, if one is open.
    fn find_record(&self, maker: u64, seed: u64) -> (r: Option<usize>)
        requires
            escrows_unique(self.escrows@),
        ensures
            (match r {
                Some(i) => i < self.escrows@.len() && self.escrows@[i as int].maker == maker
                    && self.escrows@[i as int].seed == seed && record_in(self.escrows@, maker, seed)
                    == Some(self.escrows@[i as int]),
                None => record_in(self.escrows@, maker, seed) is None,
            }),
            self@.record(maker, seed) == record_in(self.escrows@, maker, seed),
    {
        let n = self.escrows.len();
        for i in 0..n
            invariant
                n == self.escrows@.len(),
                escrows_unique(self.escrows@),
                forall|k: int|
                    0 <= k < i ==> !(#[trigger] self.escrows@[k].maker == maker
                        && self.escrows@[k].seed == seed),
        {
            if self.escrows[i].maker == maker && self.escrows[i].seed == seed {
                proof {
                    lemma_record_at(self.escrows@, i as int, maker, seed);
                }
                return Some(i);
            }
        }
        proof {
            lemma_record_absent(self.escrows@, maker, seed);
        }
        None
    }

    /// The open record derived from `(maker, seed)`, if any.
    pub fn get_record(&self, maker: u64, seed: u64) -> (r: Option<Escrow>)
        requires
            self.wf(),
        ensures
            r == self@.record(maker, seed),
    {
        match self.find_record(maker, seed) {
            Some(i) => Some(self.escrows[i]),
            None => None,
        }
    }

    /// Append a record whose key is not yet taken.
    fn push_record(&mut self, e: Escrow)
        requires
            escrows_unique(old(self).escrows@),
            record_in(old(self).escrows@, e.maker, e.seed) is None,
        ensures
            escrows_unique(final(self).escrows@),
            final(self).holdings@ == old(self).holdings@,
            final(self)@.balances == old(self)@.balances,
            final(self)@.records == old(self)@.records.insert((e.maker, e.seed), e),
    {
        let ghost s0 = self.escrows@;
        self.escrows.push(e);
        proof {
            lemma_record_absent(s0, e.maker, e.seed);
            assert forall|m: u64, s: u64|
                #[trigger] record_in(self.escrows@, m, s) == if e.maker == m && e.seed == s {
                    Some(e)
                } else {
                    record_in(s0, m, s)
                } by {
                lemma_record_push(s0, e, m, s);
            }
            assert forall|x: int, y: int|
                0 <= x < y < self.escrows@.len() implies !(#[trigger] self.escrows@[x].maker
                == #[trigger] self.escrows@[y].maker && self.escrows@[x].seed
                == self.escrows@[y].seed) by {}
            assert(final(self)@.records =~= old(self)@.records.insert((e.maker, e.seed), e));
            assert(final(self)@.balances =~= old(self)@.balances);
        }
    }

    /// Remove the record keyed `(maker, seed)`.
    fn remove_record(&mut self, maker: u64, seed: u64)
        requires
            escrows_unique(old(self).escrows@),
            record_in(old(self).escrows@, maker, seed) is Some,
        ensures
            escrows_unique(final(self).escrows@),
            final(self).holdings@ == old(self).holdings@,
            final(self)@.balances == old(self)@.balances,
            final(self)@.records == old(self)@.records.remove((maker, seed)),
    {
        let ghost s0 = self.escrows@;
        let i = match self.find_record(maker, seed) {
            Some(i) => i,
            None => {
                proof {
                    assert(false);
                }
                0
            },
        };
        self.escrows.swap_remove(i);
        proof {
            let t = self.escrows@;
            assert(t =~= s0.update(i as int, s0.last()).drop_last());
            assert(forall|k: int| 0 <= k < t.len() ==> t[k] == s0[if k == i as int {
                s0.len() - 1
            } else {
                k
            }]);
            assert forall|x: int, y: int|
                0 <= x < y < t.len() implies !(#[trigger] t[x].maker == #[trigger] t[y].maker
                && t[x].seed == t[y].seed) by {}
            assert forall|m: u64, s: u64|
                #[trigger] record_in(t, m, s) == if m == maker && s == seed {
                    None::<Escrow>
                } else {
                    record_in(s0, m, s)
                } by {
                lemma_record_absent(t, m, s);
                lemma_record_absent(s0, m, s);
                if m == maker && s == seed {
                    assert(forall|k: int|
                        0 <= k < t.len() ==> !(#[trigger] t[k].maker == m && t[k].seed == s));
                    assert(record_in(t, m, s) is None);
                } else {
                    match record_in(s0, m, s) {
                        None => {
                            assert(record_in(t, m, s) is None);
                        },
                        Some(e) => {
                            lemma_record_some_at(s0, m, s);
                            let j = choose|j: int|
                                0 <= j < s0.len() && s0[j] == e && #[trigger] s0[j].maker == m
                                    && s0[j].seed == s;
                            if j == i as int {
                                assert(false);
                            } else if j == s0.len() - 1 {
                                assert(t[i as int] == e);
                                lemma_record_at(t, i as int, m, s);
                            } else {
                                assert(t[j] == e);
                                lemma_record_at(t, j, m, s);
                            }
                        },
                    }
                }
            }
            assert(final(self)@.records =~= old(self)@.records.remove((maker, seed)));
            assert(final(self)@.balances =~= old(self)@.balances);
        }
    }

    /// The asset-transfer primitive on this ledger: move `amount` units of
    /// `asset` from `from` to `to`, atomically and amount-exact.
    fn transfer(&mut self, from: Authority, to: Authority, asset: u64, amount: u64) -> (r: Result<
        (),
        EscrowError,
    >)
        requires
            holdings_unique(old(self).holdings@),
        ensures
            holdings_unique(final(self).holdings@),
            final(self).escrows@ == old(self).escrows@,
            (match transfer_outcome(old(self)@, from, to, asset, amount) {
                Ok(v) => r is Ok && final(self)@ == v,
                Err(e) => r == Err::<(), EscrowError>(e) && final(self)@ == old(self)@,
            }),
    {
        let fb = match self.find_holding(from, asset) {
            Some(i) => self.holdings[i].amount,
            None => 0,
        };
        if fb < amount {
            return Err(EscrowError::InsufficientFunds);
        }
        if from == to {
            return Ok(());
        }
        let tb = match self.find_holding(to, asset) {
            Some(i) => self.holdings[i].amount,
            None => 0,
        };
        if amount > u64::MAX - tb {
            return Err(EscrowError::TransferError);
        }
        self.set_balance(from, asset, fb - amount);
        self.set_balance(to, asset, tb + amount);
        proof {
            assert(final(self)@ =~= transfer_outcome(old(self)@, from, to, asset, amount)->Ok_0);
        }
        Ok(())
    }

    /// Credit `amount` fresh units of `asset` to `party`'s own holding: the
    /// issuance that endows parties from outside the escrow subsystem.
    pub fn mint_to(&mut self, party: u64, asset: u64, amount: u64) -> (r: Result<(), EscrowError>)
        requires
            old(self).wf(),
        ensures
            final(self).wf(),
            (match mint_outcome(old(self)@, party, asset, amount) {
                Ok(v) => r is Ok && final(self)@ == v,
                Err(e) => r == Err::<(), EscrowError>(e) && final(self)@ == old(self)@,
            }),
    {
        let owner = Authority::Party { id: party };
        let b = self.balance_of(owner, asset);
        if amount > u64::MAX - b {
            return Err(EscrowError::TransferError);
        }
        self.set_balance(owner, asset, b + amount);
        proof {
            assert(final(self)@ =~= mint_outcome(old(self)@, party, asset, amount)->Ok_0);
            crate::laws::lemma_mint_preserves_wf(old(self)@, party, asset, amount);
        }
        Ok(())
    }

    /// `Make`: create the escrow record derived from `(maker, seed)` and its
    /// custody holding, and fund the holding with `deposit` units of
    /// `token_mint_a` taken from the maker, all in one atomic step. The maker
    /// is the authenticated caller. Fails with `AlreadyExists` if the derived
    /// address is already taken, with `InsufficientFunds` if the maker's
    /// holding cannot cover the deposit; on any failure nothing changes.
    pub fn make(
        &mut self,
        maker: u64,
        seed: u64,
        token_mint_a: u64,
        token_mint_b: u64,
        deposit: u64,
        receive: u64,
        bump: u8,
    ) -> (r: Result<(), EscrowError>)
        requires
            old(self).wf(),
        ensures
            final(self).wf(),
            (match make_outcome(
                old(self)@,
                maker,
                seed,
                token_mint_a,
                token_mint_b,
                deposit,
                receive,
                bump,
            ) {
                Ok(v) => r is Ok && final(self)@ == v,
                Err(e) => r == Err::<(), EscrowError>(e) && final(self)@ == old(self)@,
            }),
    {
        if self.find_record(maker, seed).is_some() {
            return Err(EscrowError::AlreadyExists);
        }
        let custody = Authority::Record { maker, seed };
        match self.transfer(Authority::Party { id: maker }, custody, token_mint_a, deposit) {
            Err(e) => {
                return Err(e);
            },
            Ok(()) => {},
        }
        self.push_record(
            Escrow { seed, maker, token_mint_a, token_mint_b, receive_amount: receive, bump },
        );
        proof {
            let v1 = make_outcome(
                old(self)@,
                maker,
                seed,
                token_mint_a,
                token_mint_b,
                deposit,
                receive,
                bump,
            )->Ok_0;
            assert(final(self)@ =~= v1);
            crate::laws::lemma_make_preserves_wf(
                old(self)@,
                maker,
                seed,
                token_mint_a,
                token_mint_b,
                deposit,
                receive,
                bump,
            );
        }
        Ok(())
    }

    /// `Exchange`: fulfil the open record derived from `(maker, seed)`. The
    /// taker is the authenticated caller; `custody_asset` is the asset of the
    /// holding the caller presents as the record's custody. Atomically moves
    /// the wanted amount from the taker to the maker, the custody holding's
    /// entire balance (the original deposit) to the taker, and deletes the
    /// record. The two movements are staged: if the second one is refused,
    /// the first is reversed before the call returns, so a failed call
    /// leaves every balance and the record exactly as they were.
    pub fn exchange(&mut self, taker: u64, maker: u64, seed: u64, custody_asset: u64) -> (r: Result<
        (),
        EscrowError,
    >)
        requires
            old(self).wf(),
        ensures
            final(self).wf(),
            (match exchange_outcome(old(self)@, taker, maker, seed, custody_asset) {
                Ok(v) => r is Ok && final(self)@ == v,
                Err(e) => r == Err::<(), EscrowError>(e) && final(self)@ == old(self)@,
            }),
    {
        let rec = match self.find_record(maker, seed) {
            None => {
                return Err(EscrowError::NotFound);
            },
            Some(i) => self.escrows[i],
        };
        if custody_asset != rec.token_mint_a {
            return Err(EscrowError::InvalidCustody);
        }
        let custody = Authority::Record { maker, seed };
        let deposit = self.balance_of(custody, rec.token_mint_a);
        match self.transfer(
            Authority::Party { id: taker },
            Authority::Party { id: rec.maker },
            rec.token_mint_b,
            rec.receive_amount,
        ) {
            Err(e) => {
                return Err(e);
            },
            Ok(()) => {},
        }
        match self.transfer(custody, Authority::Party { id: taker }, rec.token_mint_a, deposit) {
            Err(e) => {
                let undo = self.transfer(
                    Authority::Party { id: rec.maker },
                    Authority::Party { id: taker },
                    rec.token_mint_b,
                    rec.receive_amount,
                );
                match undo {
                    Ok(()) => {},
                    Err(_) => {
                        proof {
                            assert(false);
                        }
                    },
                }
                proof {
                    assert(final(self)@ =~= old(self)@);
                }
                return Err(e);
            },
            Ok(()) => {},
        }
        self.remove_record(maker, seed);
        proof {
            let v2 = exchange_outcome(old(self)@, taker, maker, seed, custody_asset)->Ok_0;
            assert(final(self)@ =~= v2);
            crate::laws::lemma_exchange_preserves_wf(old(self)@, taker, maker, seed, custody_asset);
        }
        Ok(())
    }

    /// `Cancel`: abort the open record derived from `(maker, seed)`. Only
    /// the record's maker may call this (`caller` is the authenticated
    /// identity). Atomically moves the custody holding's entire balance back
    /// to the maker and deletes the record; on any failure nothing changes.
    pub fn refund(&mut self, caller: u64, maker: u64, seed: u64) -> (r: Result<(), EscrowError>)
        requires
            old(self).wf(),
        ensures
            final(self).wf(),
            (match cancel_outcome(old(self)@, caller, maker, seed) {
                Ok(v) => r is Ok && final(self)@ == v,
                Err(e) => r == Err::<(), EscrowError>(e) && final(self)@ == old(self)@,
            }),
    {
        let rec = match self.find_record(maker, seed) {
            None => {
                return Err(EscrowError::NotFound);
            },
            Some(i) => self.escrows[i],
        };
        if caller != rec.maker {
            return Err(EscrowError::Unauthorized);
        }
        let custody = Authority::Record { maker, seed };
        let amount = self.balance_of(custody, rec.token_mint_a);
        match self.transfer(custody, Authority::Party { id: rec.maker }, rec.token_mint_a, amount) {
            Err(e) => {
                return Err(e);
            },
            Ok(()) => {},
        }
        self.remove_record(maker, seed);
        proof {
            let v1 = cancel_outcome(old(self)@, caller, maker, seed)->Ok_0;
            assert(final(self)@ =~= v1);
            crate::laws::lemma_cancel_preserves_wf(old(self)@, caller, maker, seed);
        }
        Ok(())
    }
}

/// A present record is carried by some entry.
proof fn lemma_record_some_at(s: Seq<Escrow>, maker: u64, seed: u64)
    requires
        record_in(s, maker, seed) is Some,
    ensures
        exists|j: int|
            0 <= j < s.len() && s[j] == record_in(s, maker, seed)->Some_0 && #[trigger] s[j].maker
                == maker && s[j].seed == seed,
    decreases s.len(),
{
    if s.last().maker == maker && s.last().seed == seed {
        assert(s[s.len() - 1] == s.last());
    } else {
        lemma_record_some_at(s.drop_last(), maker, seed);
        let j = choose|j: int|
            0 <= j < s.drop_last().len() && s.drop_last()[j] == record_in(
                s.drop_last(),
                maker,
                seed,
            )->Some_0 && #[trigger] s.drop_last()[j].maker == maker && s.drop_last()[j].seed
                == seed;
        assert(s[j] == s.drop_last()[j]);
    }
}

} // verus!
