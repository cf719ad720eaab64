//! The ledger: one account for each client that a transaction has named.

use crate::client::{run, AccountState, Client, ClientRaw};
use crate::errors::MyError;
use crate::transaction::Transaction;
use std::collections::HashMap;
use vstd::std_specs::hash::spec_hash_map_iter;
use vstd::std_specs::iter::IteratorSpec;
use vstd::prelude::*;

verus! {

broadcast use vstd::std_specs::hash::group_hash_axioms;

/// Container of [Client]s.
#[derive(Debug)]
pub struct Clients {
    clients: HashMap<u16, Client>,
}

/// The account that a transaction for `id` meets in `accounts`: the one on
/// record, or a fresh one.
pub open spec fn account_of(accounts: Map<u16, AccountState>, id: u16) -> AccountState {
    if accounts.contains_key(id) {
        accounts[id]
    } else {
        AccountState::fresh(id)
    }
}

/// The accounts after `t` has gone to the account of its client.
pub open spec fn ledger_step(accounts: Map<u16, AccountState>, t: Transaction) -> Map<
    u16,
    AccountState,
> {
    accounts.insert(t.client, account_of(accounts, t.client).step(t))
}

/// The accounts that `ts`, applied in order to an empty ledger, leave.
pub open spec fn ledger_run(ts: Seq<Transaction>) -> Map<u16, AccountState>
    decreases ts.len(),
{
    if ts.len() == 0 {
        Map::empty()
    } else {
        ledger_step(ledger_run(ts.drop_last()), ts.last())
    }
}

/// The transactions of `ts` that name the client `id`, in their order.
pub open spec fn of_client(ts: Seq<Transaction>, id: u16) -> Seq<Transaction>
    decreases ts.len(),
{
    if ts.len() == 0 {
        Seq::empty()
    } else if ts.last().client == id {
        of_client(ts.drop_last(), id).push(ts.last())
    } else {
        of_client(ts.drop_last(), id)
    }
}

/// A ledger holds an account for exactly the clients that its transactions
/// have named, and each account is what that client's own transactions, in
/// their order, make of a fresh account: the transactions of other clients
/// do not touch it.
pub proof fn law_clients_independent(ts: Seq<Transaction>, id: u16)
    ensures
        ledger_run(ts).contains_key(id) <==> of_client(ts, id).len() > 0,
        account_of(ledger_run(ts), id) == run(AccountState::fresh(id), of_client(ts, id)),
    decreases ts.len(),
{
    if ts.len() > 0 {
        law_clients_independent(ts.drop_last(), id);
        if ts.last().client == id {
            let mine = of_client(ts, id);
            assert(mine.drop_last() =~= of_client(ts.drop_last(), id));
        }
    }
}

impl View for Clients {
    type V = Map<u16, AccountState>;

    closed spec fn view(&self) -> Map<u16, AccountState> {
        Map::new(|id: u16| self.clients@.contains_key(id), |id: u16| self.clients@[id]@)
    }
}

impl Clients {
    /// Every account is valid and stands under its own client id.
    pub closed spec fn wf(&self) -> bool {
        forall|id: u16| #[trigger]
            self.clients@.contains_key(id) ==> self.clients@[id].wf() && self.clients@[id]@.id
                == id
    }

    /// A ledger holds finitely many accounts, and each stands under its own
    /// client id, with balances that are residues.
    pub proof fn law_account_ids(&self)
        requires
            self.wf(),
        ensures
            self@.dom().finite(),
            forall|id: u16| #[trigger]
                self@.contains_key(id) ==> self@[id].id == id && self@[id].inv(),
    {
        assert(self@.dom() =~= self.clients@.dom());
        assert forall|id: u16| #[trigger] self@.contains_key(id) implies self@[id].id == id
            && self@[id].inv() by {
            self.clients@[id].lemma_wf_inv();
        }
    }

    /// Create new [Clients].
    pub fn new() -> (r: Clients)
        ensures
            r.wf(),
            r@ == Map::<u16, AccountState>::empty(),
    {
        let r = Clients { clients: HashMap::new() };
        assert(r@ =~= Map::<u16, AccountState>::empty());
        r
    }

    /// Apply a [Transaction] to the account of its client, which is opened
    /// first where the client is new, and stays open where the account then
    /// refuses the transaction. No other account changes.
    pub fn apply(&mut self, transaction: Transaction) -> (result: Result<(), MyError>)
        requires
            old(self).wf(),
            transaction.wf(),
        ensures
            final(self).wf(),
            final(self)@ == ledger_step(old(self)@, transaction),
            result == (if account_of(old(self)@, transaction.client).rejects(transaction) {
                Err::<(), MyError>(MyError::InsufficientFunds(transaction.client, transaction.tx))
            } else {
                Ok::<(), MyError>(())
            }),
    {
        let client_id = transaction.client;
        let client = self.clients.entry(client_id).or_insert(Client::new(client_id));
        let result = client.apply(transaction);
        assert(self@ =~= ledger_step(old(self)@, transaction));
        result
    }

    /// The balances of every account, one entry for each client that a transaction
    /// has named, in no particular order.
    pub fn accounts(&self) -> (r: Vec<ClientRaw>)
        requires
            self.wf(),
        ensures
            r@.len() == self@.len(),
            forall|i: int|
                0 <= i < r@.len() ==> self@.contains_key(#[trigger] r@[i].client) && r@[i]
                    == ClientRaw::of(self@[r@[i].client]),
            forall|i: int, j: int|
                0 <= i < j < r@.len() ==> (#[trigger] r@[i]).client != (#[trigger] r@[j]).client,
            forall|id: u16|
                self@.contains_key(id) ==> exists|i: int|
                    0 <= i < r@.len() && (#[trigger] r@[i]).client == id,
    {
        let mut r: Vec<ClientRaw> = Vec::new();
        for entry in it: self.clients.iter()
            invariant
                self.wf(),
                it.seq() == spec_hash_map_iter(&self.clients).remaining(),
                it.seq().no_duplicates(),
                r@.len() == it.index(),
                forall|i: int|
                    0 <= i < r@.len() ==> (#[trigger] r@[i]).client == *it.seq()[i].0 && r@[i]
                        == ClientRaw::of((*it.seq()[i].1)@),
        {
            let (id, client) = entry;
            assert(self.clients@.contains_key(*id) && self.clients@[*id] == *client);
            r.push(client.snapshot());
        }
        proof {
            let listed = spec_hash_map_iter(&self.clients).remaining();
            assert(self@.dom() =~= self.clients@.dom());
            assert forall|i: int| 0 <= i < r@.len() implies self@.contains_key(
                #[trigger] r@[i].client,
            ) && r@[i] == ClientRaw::of(self@[r@[i].client]) by {
                assert(self.clients@.contains_key(*listed[i].0));
            }
            assert forall|i: int, j: int| 0 <= i < j < r@.len() implies (#[trigger] r@[i]).client
                != (#[trigger] r@[j]).client by {
                assert(self.clients@.contains_key(*listed[i].0));
                assert(self.clients@.contains_key(*listed[j].0));
                if r@[i].client == r@[j].client {
                    assert(listed[i] == listed[j]);
                }
            }
            assert forall|id: u16| self@.contains_key(id) implies exists|i: int|
                0 <= i < r@.len() && (#[trigger] r@[i]).client == id by {
                assert(self.clients@.contains_key(id));
                let i = listed.index_of((&id, &self.clients@[id]));
                assert(r@[i].client == id);
            }
        }
        r
    }
}

} // verus!
