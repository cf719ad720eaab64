//! Type representation of a client.

use crate::errors::MyError;
use crate::four_decimals::{
    lemma_wrap_bounds, lemma_wrap_move, modulus, wrap_add, wrap_sub, FourDecimals,
};
use crate::transaction::{Transaction, TransactionType};
use std::collections::{HashMap, HashSet};
use vstd::prelude::*;

verus! {

broadcast use vstd::std_specs::hash::group_hash_axioms;

/// What an account is, with every balance as a number of ten-thousandths
/// modulo `modulus()`.
pub struct AccountState {
    /// Client id.
    pub id: u16,
    /// Funds that can be withdrawn.
    pub available: nat,
    /// Funds frozen by active disputes.
    pub held: nat,
    /// Set by a chargeback, never cleared.
    pub locked: bool,
    /// The amount recorded for each deposit and accepted withdrawal.
    pub amounts: Map<u32, nat>,
    /// The transactions under active dispute.
    pub disputed: Set<u32>,
}

impl AccountState {
    /// The account of a client that no transaction has reached yet.
    pub open spec fn fresh(id: u16) -> AccountState {
        AccountState {
            id,
            available: 0,
            held: 0,
            locked: false,
            amounts: Map::empty(),
            disputed: Set::empty(),
        }
    }

    /// Both balances are residues.
    pub open spec fn inv(self) -> bool {
        self.available < modulus() && self.held < modulus()
    }

    /// Available plus held.
    pub open spec fn total(self) -> nat {
        wrap_add(self.available, self.held)
    }

    /// The one transaction that an account refuses: a withdrawal of more
    /// than is available, on an account that is not locked.
    pub open spec fn rejects(self, t: Transaction) -> bool {
        !self.locked && t.kind == TransactionType::Withdrawal && t.amount_value()
            > self.available
    }

    /// The account after `t`. No balance is ever taken below zero: a
    /// withdrawal that `available` does not cover is refused, a dispute whose
    /// recorded amount `available` does not cover leaves the account as it
    /// was, and so does a resolve or a chargeback whose recorded amount
    /// `held` does not cover.
    pub open spec fn step(self, t: Transaction) -> AccountState {
        if self.locked {
            self
        } else {
            match t.kind {
                TransactionType::Deposit => AccountState {
                    available: wrap_add(self.available, t.amount_value()),
                    amounts: self.amounts.insert(t.tx, t.amount_value()),
                    ..self
                },
                TransactionType::Withdrawal => if t.amount_value() > self.available {
                    self
                } else {
                    AccountState {
                        available: (self.available - t.amount_value()) as nat,
                        amounts: self.amounts.insert(t.tx, t.amount_value()),
                        ..self
                    }
                },
                TransactionType::Dispute => if self.disputed.contains(t.tx) {
                    self
                } else if !self.amounts.contains_key(t.tx) {
                    AccountState { disputed: self.disputed.insert(t.tx), ..self }
                } else if self.amounts[t.tx] > self.available {
                    self
                } else {
                    AccountState {
                        available: (self.available - self.amounts[t.tx]) as nat,
                        held: wrap_add(self.held, self.amounts[t.tx]),
                        disputed: self.disputed.insert(t.tx),
                        ..self
                    }
                },
                TransactionType::Resolve => if !self.disputed.contains(t.tx) {
                    self
                } else if !self.amounts.contains_key(t.tx) {
                    AccountState { disputed: self.disputed.remove(t.tx), ..self }
                } else if self.amounts[t.tx] > self.held {
                    self
                } else {
                    AccountState {
                        available: wrap_add(self.available, self.amounts[t.tx]),
                        held: (self.held - self.amounts[t.tx]) as nat,
                        disputed: self.disputed.remove(t.tx),
                        ..self
                    }
                },
                TransactionType::Chargeback => if !self.disputed.contains(t.tx) {
                    self
                } else if !self.amounts.contains_key(t.tx) {
                    AccountState { disputed: self.disputed.remove(t.tx), ..self }
                } else if self.amounts[t.tx] > self.held {
                    self
                } else {
                    AccountState {
                        held: (self.held - self.amounts[t.tx]) as nat,
                        locked: true,
                        disputed: self.disputed.remove(t.tx),
                        ..self
                    }
                },
            }
        }
    }
}

/// The balances of one account, as a plain row.
#[derive(Debug, Clone, Copy, PartialEq, Eq, Structural)]
pub struct ClientRaw {
    /// Client id.
    pub client: u16,
    /// Available balance.
    pub available: FourDecimals,
    /// Held balance.
    pub held: FourDecimals,
    /// Available plus held.
    pub total: FourDecimals,
    /// Whether a chargeback has frozen the account.
    pub locked: bool,
}

impl ClientRaw {
    /// The row of an account in state `s`.
    pub open spec fn of(s: AccountState) -> ClientRaw {
        ClientRaw {
            client: s.id,
            available: FourDecimals::from_value(s.available),
            held: FourDecimals::from_value(s.held),
            total: FourDecimals::from_value(s.total()),
            locked: s.locked,
        }
    }
}

/// Type representation of a client.
#[derive(Debug, PartialEq, Eq)]
pub struct Client {
    id: u16,
    available: FourDecimals,
    held: FourDecimals,
    locked: bool,
    tx_amounts: HashMap<u32, FourDecimals>,
    disputes: HashSet<u32>,
}

impl View for Client {
    type V = AccountState;

    closed spec fn view(&self) -> AccountState {
        AccountState {
            id: self.id,
            available: self.available.value(),
            held: self.held.value(),
            locked: self.locked,
            amounts: Map::new(
                |tx: u32| self.tx_amounts@.contains_key(tx),
                |tx: u32| self.tx_amounts@[tx].value(),
            ),
            disputed: self.disputes@,
        }
    }
}

impl Client {
    /// Every amount that the account holds is a valid amount.
    pub closed spec fn wf(&self) -> bool {
        &&& self.available.wf()
        &&& self.held.wf()
        &&& forall|tx: u32| #[trigger]
            self.tx_amounts@.contains_key(tx) ==> self.tx_amounts@[tx].wf()
    }

    /// The balances of a valid account are residues.
    pub proof fn lemma_wf_inv(&self)
        requires
            self.wf(),
        ensures
            self@.inv(),
    {
    }

    /// Create a new [Client].
    pub fn new(id: u16) -> (r: Client)
        ensures
            r.wf(),
            r@ == AccountState::fresh(id),
    {
        let r = Client {
            id,
            available: FourDecimals::default(),
            held: FourDecimals::default(),
            locked: false,
            tx_amounts: HashMap::new(),
            disputes: HashSet::new(),
        };
        assert(r@.amounts =~= Map::empty());
        r
    }

    /// Get the [Client] total.
    pub fn total(&self) -> (r: FourDecimals)
        requires
            self.wf(),
        ensures
            r.wf(),
            r.value() == self@.total(),
    {
        self.available + self.held
    }

    /// Get the [Client] available balance.
    pub fn available(&self) -> (r: FourDecimals)
        requires
            self.wf(),
        ensures
            r.wf(),
            r.value() == self@.available,
    {
        self.available
    }

    /// Get the [Client] held balance.
    pub fn held(&self) -> (r: FourDecimals)
        requires
            self.wf(),
        ensures
            r.wf(),
            r.value() == self@.held,
    {
        self.held
    }

    /// The balances of the account, as a plain row.
    pub fn snapshot(&self) -> (r: ClientRaw)
        requires
            self.wf(),
        ensures
            r == ClientRaw::of(self@),
            r.available.wf(),
            r.held.wf(),
            r.total.wf(),
    {
        proof {
            self.available.lemma_value_roundtrip();
            self.held.lemma_value_roundtrip();
        }
        ClientRaw {
            client: self.id,
            available: self.available,
            held: self.held,
            total: self.available + self.held,
            locked: self.locked,
        }
    }

    /// Apply a [Transaction].
    ///
    /// A locked account takes nothing. A deposit and an accepted withdrawal
    /// record their amount under the transaction's id; a transaction without
    /// an amount counts as one of zero. A withdrawal of more than is
    /// available is refused, and is the only failure. A dispute moves the
    /// recorded amount from available to held, a resolve moves it back, and
    /// a chargeback removes it from held and locks the account; each does
    /// nothing where the transaction is not in the matching dispute state or
    /// has no recorded amount. No balance goes below zero: a dispute of more
    /// than is available (the funds have since been withdrawn) is ignored
    /// and opens no dispute, and a resolve or a chargeback of more than is
    /// held (the id was used again for another amount) is ignored and leaves
    /// the dispute open. None of these is an error.
    pub fn apply(&mut self, transaction: Transaction) -> (result: Result<(), MyError>)
        requires
            old(self).wf(),
            transaction.wf(),
        ensures
            final(self).wf(),
            final(self)@ == old(self)@.step(transaction),
            result == (if old(self)@.rejects(transaction) {
                Err::<(), MyError>(MyError::InsufficientFunds(old(self)@.id, transaction.tx))
            } else {
                Ok::<(), MyError>(())
            }),
    {
        if self.locked {
            return Ok(());
        }
        let amount = match transaction.amount {
            Some(a) => a,
            None => FourDecimals::default(),
        };
        match transaction.kind {
            TransactionType::Deposit => {
                self.tx_amounts.insert(transaction.tx, amount);
                self.available = self.available + amount;
                assert(self@.amounts =~= old(self)@.amounts.insert(
                    transaction.tx,
                    transaction.amount_value(),
                ));
            },
            TransactionType::Withdrawal => {
                if amount.exceeds(&self.available) {
                    return Err(MyError::InsufficientFunds(self.id, transaction.tx));
                }
                self.tx_amounts.insert(transaction.tx, amount);
                self.available = self.available - amount;
                assert(self@.amounts =~= old(self)@.amounts.insert(
                    transaction.tx,
                    transaction.amount_value(),
                ));
            },
            TransactionType::Dispute => {
                if self.disputes.contains(&transaction.tx) {
                    return Ok(());
                }
                let amount = match self.tx_amounts.get(&transaction.tx) {
                    None => {
                        self.disputes.insert(transaction.tx);
                        assert(self@.amounts =~= old(self)@.amounts);
                        return Ok(());
                    },
                    Some(amount) => *amount,
                };
                match self.available.checked_sub(amount) {
                    None => {
                        return Ok(());
                    },
                    Some(rest) => {
                        self.disputes.insert(transaction.tx);
                        self.available = rest;
                        self.held = self.held + amount;
                    },
                }
                assert(self@.amounts =~= old(self)@.amounts);
            },
            TransactionType::Resolve => {
                if !self.disputes.contains(&transaction.tx) {
                    return Ok(());
                }
                let amount = match self.tx_amounts.get(&transaction.tx) {
                    None => {
                        self.disputes.remove(&transaction.tx);
                        assert(self@.amounts =~= old(self)@.amounts);
                        return Ok(());
                    },
                    Some(amount) => *amount,
                };
                match self.held.checked_sub(amount) {
                    None => {
                        return Ok(());
                    },
                    Some(rest) => {
                        self.disputes.remove(&transaction.tx);
                        self.held = rest;
                        self.available = self.available + amount;
                    },
                }
                assert(self@.amounts =~= old(self)@.amounts);
            },
            TransactionType::Chargeback => {
                if !self.disputes.contains(&transaction.tx) {
                    return Ok(());
                }
                let amount = match self.tx_amounts.get(&transaction.tx) {
                    None => {
                        self.disputes.remove(&transaction.tx);
                        assert(self@.amounts =~= old(self)@.amounts);
                        return Ok(());
                    },
                    Some(amount) => *amount,
                };
                match self.held.checked_sub(amount) {
                    None => {
                        return Ok(());
                    },
                    Some(rest) => {
                        self.disputes.remove(&transaction.tx);
                        self.held = rest;
                        self.locked = true;
                    },
                }
                assert(self@.amounts =~= old(self)@.amounts);
            },
        };
        Ok(())
    }
}

/// The account that `ts`, applied in order, leaves of `s`.
pub open spec fn run(s: AccountState, ts: Seq<Transaction>) -> AccountState
    decreases ts.len(),
{
    if ts.len() == 0 {
        s
    } else {
        run(s, ts.drop_last()).step(ts.last())
    }
}

/// `ts` holds deposits and withdrawals only.
pub open spec fn only_cash(ts: Seq<Transaction>) -> bool {
    forall|i: int|
        0 <= i < ts.len() ==> (#[trigger] ts[i]).kind == TransactionType::Deposit || ts[i].kind
            == TransactionType::Withdrawal
}

/// The running balance of the deposits and withdrawals in `ts`: each
/// deposit is added, modulo `modulus()`, and each withdrawal that the
/// balance covers is subtracted.
pub open spec fn cash_balance(ts: Seq<Transaction>) -> nat
    decreases ts.len(),
{
    if ts.len() == 0 {
        0
    } else {
        let before = cash_balance(ts.drop_last());
        let amount = ts.last().amount_value();
        match ts.last().kind {
            TransactionType::Deposit => wrap_add(before, amount),
            TransactionType::Withdrawal => if amount > before {
                before
            } else {
                (before - amount) as nat
            },
            _ => before,
        }
    }
}

/// The sum of the deposits in `ts`.
pub open spec fn deposited(ts: Seq<Transaction>) -> nat
    decreases ts.len(),
{
    if ts.len() == 0 {
        0
    } else if ts.last().kind == TransactionType::Deposit {
        deposited(ts.drop_last()) + ts.last().amount_value()
    } else {
        deposited(ts.drop_last())
    }
}

/// The sum of the withdrawals in `ts` that the running balance covered.
pub open spec fn withdrawn(ts: Seq<Transaction>) -> nat
    decreases ts.len(),
{
    if ts.len() == 0 {
        0
    } else if ts.last().kind == TransactionType::Withdrawal && ts.last().amount_value()
        <= cash_balance(ts.drop_last()) {
        withdrawn(ts.drop_last()) + ts.last().amount_value()
    } else {
        withdrawn(ts.drop_last())
    }
}

/// Every transaction leaves both balances residues.
pub proof fn lemma_step_inv(s: AccountState, t: Transaction)
    requires
        s.inv(),
    ensures
        s.step(t).inv(),
        s.step(t).id == s.id,
{
    lemma_wrap_bounds(s.available, t.amount_value());
    if s.amounts.contains_key(t.tx) {
        lemma_wrap_bounds(s.available, s.amounts[t.tx]);
        lemma_wrap_bounds(s.held, s.amounts[t.tx]);
    }
}

/// A locked account takes no transaction.
pub proof fn law_locked_absorbs(s: AccountState, t: Transaction)
    requires
        s.locked,
    ensures
        s.step(t) == s,
{
}

/// Neither a dispute nor a resolve changes the total, or locks the account:
/// they only move funds between the available and the held balance.
pub proof fn law_dispute_resolve_keep_total(s: AccountState, t: Transaction)
    requires
        t.kind == TransactionType::Dispute || t.kind == TransactionType::Resolve,
    ensures
        s.step(t).total() == s.total(),
        s.step(t).locked == s.locked,
{
    if s.amounts.contains_key(t.tx) {
        lemma_wrap_move(s.available, s.held, s.amounts[t.tx]);
    }
}

/// A debit never wraps around: a withdrawal or a dispute leaves no more
/// available than there was, and a resolve or a chargeback no more held.
pub proof fn law_debits_are_covered(s: AccountState, t: Transaction)
    ensures
        t.kind == TransactionType::Withdrawal || t.kind == TransactionType::Dispute ==> s.step(
            t,
        ).available <= s.available,
        t.kind == TransactionType::Resolve || t.kind == TransactionType::Chargeback ==> s.step(
            t,
        ).held <= s.held,
{
}

/// With deposits and withdrawals only, nothing is ever held, the total is
/// the available balance, and the available balance is the running balance
/// of the sequence. Where the deposits together stay below `modulus()`,
/// that is the sum of the deposits less the sum of the withdrawals that
/// were not refused.
pub proof fn law_cash_only(id: u16, ts: Seq<Transaction>)
    requires
        only_cash(ts),
    ensures
        run(AccountState::fresh(id), ts).held == 0,
        run(AccountState::fresh(id), ts).total() == run(AccountState::fresh(id), ts).available,
        run(AccountState::fresh(id), ts).available == cash_balance(ts),
        !run(AccountState::fresh(id), ts).locked,
        run(AccountState::fresh(id), ts).disputed == Set::<u32>::empty(),
        cash_balance(ts) < modulus(),
        deposited(ts) < modulus() ==> cash_balance(ts) + withdrawn(ts) == deposited(ts),
    decreases ts.len(),
{
    if ts.len() > 0 {
        let before = ts.drop_last();
        assert forall|i: int| 0 <= i < before.len() implies (#[trigger] before[i]).kind
            == TransactionType::Deposit || before[i].kind == TransactionType::Withdrawal by {
            assert(before[i] == ts[i]);
        }
        law_cash_only(id, before);
        lemma_wrap_bounds(cash_balance(before), ts.last().amount_value());
        lemma_wrap_bounds(cash_balance(ts), 0);
    } else {
        lemma_wrap_bounds(0, 0);
    }
}

/// A dispute followed by the resolve of the same transaction leaves the
/// total as it was. Where the transaction was not under dispute before, and
/// the held balance has room for its amount, it leaves the whole account
/// as it was.
pub proof fn law_dispute_then_resolve(s: AccountState, dispute: Transaction, resolve: Transaction)
    requires
        s.inv(),
        dispute.kind == TransactionType::Dispute,
        resolve.kind == TransactionType::Resolve,
        dispute.tx == resolve.tx,
    ensures
        s.step(dispute).step(resolve).total() == s.total(),
        !s.disputed.contains(dispute.tx) && (s.amounts.contains_key(dispute.tx) ==> s.held
            + s.amounts[dispute.tx] < modulus()) ==> s.step(dispute).step(resolve) == s,
{
    let tx = dispute.tx;
    law_dispute_resolve_keep_total(s, dispute);
    law_dispute_resolve_keep_total(s.step(dispute), resolve);
    if !s.disputed.contains(tx) && !s.locked {
        let after = s.step(dispute).step(resolve);
        if !s.amounts.contains_key(tx) {
            assert(after.disputed =~= s.disputed);
        } else if s.amounts[tx] <= s.available && s.held + s.amounts[tx] < modulus() {
            let amount = s.amounts[tx];
            lemma_wrap_bounds(s.held, amount);
            lemma_wrap_bounds((s.available - amount) as nat, amount);
            assert(after.disputed =~= s.disputed);
        }
    }
}

/// A dispute that is honoured, followed by the chargeback of the same
/// transaction: the amount leaves the total, the account is locked, and no
/// later transaction changes it. A dispute is honoured on an open account
/// that has the transaction's amount on record and available, with room
/// for it in the held balance.
pub proof fn law_dispute_then_chargeback(
    s: AccountState,
    dispute: Transaction,
    chargeback: Transaction,
    later: Transaction,
)
    requires
        s.inv(),
        !s.locked,
        !s.disputed.contains(dispute.tx),
        s.amounts.contains_key(dispute.tx),
        s.amounts[dispute.tx] <= s.available,
        s.held + s.amounts[dispute.tx] < modulus(),
        dispute.kind == TransactionType::Dispute,
        chargeback.kind == TransactionType::Chargeback,
        dispute.tx == chargeback.tx,
    ensures
        s.step(dispute).step(chargeback).locked,
        s.step(dispute).step(chargeback).available == s.available - s.amounts[dispute.tx],
        s.step(dispute).step(chargeback).held == s.held,
        s.step(dispute).step(chargeback).total() == wrap_sub(s.total(), s.amounts[dispute.tx]),
        s.available + s.held < modulus() ==> s.step(dispute).step(chargeback).total()
            == s.total() - s.amounts[dispute.tx],
        s.step(dispute).step(chargeback).step(later) == s.step(dispute).step(chargeback),
{
    let amount = s.amounts[dispute.tx];
    let disputed = s.step(dispute);
    lemma_wrap_bounds(s.held, amount);
    law_dispute_resolve_keep_total(s, dispute);
    lemma_wrap_move(disputed.available, disputed.held, amount);
    lemma_wrap_bounds(s.available, s.held);
    lemma_wrap_bounds((s.available - amount) as nat, s.held);
}

/// A second dispute of a transaction changes nothing.
pub proof fn law_dispute_twice(s: AccountState, first: Transaction, second: Transaction)
    requires
        first.kind == TransactionType::Dispute,
        second.kind == TransactionType::Dispute,
        first.tx == second.tx,
    ensures
        s.step(first).step(second) == s.step(first),
{
}

/// The resolve or the chargeback of a transaction that is not under dispute
/// changes nothing.
pub proof fn law_settle_undisputed(s: AccountState, t: Transaction)
    requires
        t.kind == TransactionType::Resolve || t.kind == TransactionType::Chargeback,
        !s.disputed.contains(t.tx),
    ensures
        s.step(t) == s,
{
}

} // verus!
