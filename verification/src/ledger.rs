//! The ledger store: a passive keyed store holding the map from client id to
//! account and the map from transaction id to its retained deposit record.

use vstd::prelude::*;

use crate::types::{Account, DepositRecord};
use std::collections::HashMap;

verus! {

broadcast use vstd::std_specs::hash::group_hash_axioms;

/// The mathematical content of a [`Ledger`]: the two keyed stores, with no
/// notion of iteration order.
#[verifier::ext_equal]
pub struct LedgerModel {
    pub accounts: Map<u16, Account>,
    pub deposits: Map<u32, DepositRecord>,
}

impl LedgerModel {
    /// Every stored account is well formed under its key, and every retained
    /// deposit record carries a strictly positive amount.
    pub open spec fn wf(self) -> bool {
        &&& forall|c: u16| #[trigger]
            self.accounts.contains_key(c) ==> self.accounts[c].wf(c)
        &&& forall|tx: u32| #[trigger]
            self.deposits.contains_key(tx) ==> self.deposits[tx].amount > 0
    }

    /// The account seen for `client`: the stored one, or the zeroed account
    /// that a first transaction for `client` would create.
    pub open spec fn account_of(self, client: u16) -> Account {
        if self.accounts.contains_key(client) {
            self.accounts[client]
        } else {
            Account::new_spec(client)
        }
    }
}

/// The ledger store. Owns both maps; the processor borrows it mutably for
/// the duration of one transaction's application.
pub struct Ledger {
    accounts: HashMap<u16, Account>,
    deposits: HashMap<u32, DepositRecord>,
    clients: Vec<u16>,
}

impl View for Ledger {
    type V = LedgerModel;

    closed spec fn view(&self) -> LedgerModel {
        LedgerModel { accounts: self.accounts@, deposits: self.deposits@ }
    }
}

impl Ledger {
    /// The store's own invariant: the model is well formed, and the
    /// internal client list matches the account map.
    pub open spec fn wf(self) -> bool {
        &&& self@.wf()
        &&& self.clients_ok()
    }

    /// The internal client list holds exactly the account keys, each once.
    pub closed spec fn clients_ok(self) -> bool {
        &&& self.clients@.no_duplicates()
        &&& forall|i: int|
            0 <= i < self.clients@.len() ==> self.accounts@.contains_key(
                #[trigger] self.clients@[i],
            )
        &&& forall|c: u16| #[trigger]
            self.accounts@.contains_key(c) ==> self.clients@.contains(c)
    }

    /// An empty ledger: no accounts, no deposit records.
    pub fn new() -> (l: Ledger)
        ensures
            l.wf(),
            l@.accounts == Map::<u16, Account>::empty(),
            l@.deposits == Map::<u32, DepositRecord>::empty(),
    {
        let l = Ledger {
            accounts: HashMap::new(),
            deposits: HashMap::new(),
            clients: Vec::new(),
        };
        proof {
            assert(l@.accounts =~= Map::<u16, Account>::empty());
            assert(l@.deposits =~= Map::<u32, DepositRecord>::empty());
        }
        l
    }

    /// Returns the account stored for `client`, inserting the zeroed account
    /// first when none exists yet.
    pub fn get_or_create_account(&mut self, client: u16) -> (a: Account)
        requires
            old(self).wf(),
        ensures
            final(self).wf(),
            final(self)@.deposits == old(self)@.deposits,
            a == old(self)@.account_of(client),
            final(self)@.accounts == old(self)@.accounts.insert(client, a),
            a.wf(client),
    {
        match self.accounts.get(&client) {
            Some(a) => {
                let a = *a;
                proof {
                    assert(self@.accounts =~= old(self)@.accounts.insert(client, a));
                }
                a
            },
            None => {
                let a = Account::new(client);
                self.accounts.insert(client, a);
                self.clients.push(client);
                proof {
                    assert forall|c: u16| #[trigger]
                        self@.accounts.contains_key(c) implies self@.accounts[c].wf(c) by {
                        if c != client {
                            assert(old(self)@.accounts.contains_key(c));
                            assert(self@.accounts[c] == old(self)@.accounts[c]);
                        }
                    }
                    assert forall|t: u32| #[trigger]
                        self@.deposits.contains_key(t) implies self@.deposits[t].amount > 0 by {
                        assert(old(self)@.deposits.contains_key(t));
                    }
                    assert(!old(self).clients@.contains(client));
                    assert forall|i: int, j: int|
                        0 <= i < j < self.clients@.len() implies self.clients@[i]
                            != self.clients@[j] by {
                        if j < self.clients@.len() - 1 {
                            assert(old(self).clients@[i] != old(self).clients@[j]);
                        } else {
                            assert(self.clients@[i] == old(self).clients@[i]);
                            assert(old(self).clients@.contains(old(self).clients@[i]));
                        }
                    }
                    assert(self.clients@.no_duplicates());
                    assert forall|i: int|
                        0 <= i < self.clients@.len() implies self.accounts@.contains_key(
                        #[trigger] self.clients@[i],
                    ) by {
                        if i < self.clients@.len() - 1 {
                            assert(old(self).clients@[i] == self.clients@[i]);
                            assert(old(self).accounts@.contains_key(old(self).clients@[i]));
                        }
                    }
                    assert forall|c: u16| #[trigger]
                        self.accounts@.contains_key(c) implies self.clients@.contains(c) by {
                        if c == client {
                            assert(self.clients@[self.clients@.len() - 1] == client);
                        } else {
                            assert(old(self).accounts@.contains_key(c));
                            let i = old(self).clients@.index_of(c);
                            assert(self.clients@[i] == c);
                        }
                    }
                    assert(self.wf());
                }
                a
            },
        }
    }

    /// Stores `a` under its own client id. Meant to write back an account
    /// previously obtained from [`Ledger::get_or_create_account`].
    pub fn set_account(&mut self, a: Account)
        requires
            old(self).wf(),
            old(self)@.accounts.contains_key(a.client),
            a.wf(a.client),
        ensures
            final(self).wf(),
            final(self)@.deposits == old(self)@.deposits,
            final(self)@.accounts == old(self)@.accounts.insert(a.client, a),
    {
        self.accounts.insert(a.client, a);
        proof {
            assert forall|c: u16| #[trigger]
                self@.accounts.contains_key(c) implies self@.accounts[c].wf(c) by {
                if c != a.client {
                    assert(old(self)@.accounts.contains_key(c));
                    assert(self@.accounts[c] == old(self)@.accounts[c]);
                }
            }
            assert forall|t: u32| #[trigger]
                self@.deposits.contains_key(t) implies self@.deposits[t].amount > 0 by {
                assert(old(self)@.deposits.contains_key(t));
            }
            assert forall|i: int|
                0 <= i < self.clients@.len() implies self.accounts@.contains_key(
                #[trigger] self.clients@[i],
            ) by {
                assert(old(self).accounts@.contains_key(old(self).clients@[i]));
            }
            assert forall|c: u16| #[trigger]
                self.accounts@.contains_key(c) implies self.clients@.contains(c) by {
                if c != a.client {
                    assert(old(self).accounts@.contains_key(c));
                }
            }
            assert(self.wf());
        }
    }

    /// Returns the retained deposit record for transaction id `tx`, if one
    /// exists; absence is not an error, just "no such dispute target".
    pub fn get_deposit(&self, tx: u32) -> (r: Option<DepositRecord>)
        ensures
            r == if self@.deposits.contains_key(tx) {
                Some(self@.deposits[tx])
            } else {
                None::<DepositRecord>
            },
    {
        match self.deposits.get(&tx) {
            Some(d) => Some(*d),
            None => None,
        }
    }

    /// Stores `d` under transaction id `tx`, creating or overwriting the
    /// record.
    pub fn set_deposit(&mut self, tx: u32, d: DepositRecord)
        requires
            old(self).wf(),
            d.amount > 0,
        ensures
            final(self).wf(),
            final(self)@.accounts == old(self)@.accounts,
            final(self)@.deposits == old(self)@.deposits.insert(tx, d),
    {
        self.deposits.insert(tx, d);
        proof {
            assert forall|c: u16| #[trigger]
                self@.accounts.contains_key(c) implies self@.accounts[c].wf(c) by {
                assert(old(self)@.accounts.contains_key(c));
            }
            assert forall|t: u32| #[trigger]
                self@.deposits.contains_key(t) implies self@.deposits[t].amount > 0 by {
                if t != tx {
                    assert(old(self)@.deposits.contains_key(t));
                    assert(self@.deposits[t] == old(self)@.deposits[t]);
                }
            }
            assert forall|i: int|
                0 <= i < self.clients@.len() implies self.accounts@.contains_key(
                #[trigger] self.clients@[i],
            ) by {
                assert(old(self).accounts@.contains_key(old(self).clients@[i]));
            }
            assert forall|c: u16| #[trigger]
                self.accounts@.contains_key(c) implies self.clients@.contains(c) by {
                assert(old(self).accounts@.contains_key(c));
            }
            assert(self.wf());
        }
    }

    /// Returns the stored account for `client`, if any.
    pub fn get_account(&self, client: u16) -> (r: Option<Account>)
        ensures
            r == if self@.accounts.contains_key(client) {
                Some(self@.accounts[client])
            } else {
                None::<Account>
            },
    {
        match self.accounts.get(&client) {
            Some(a) => Some(*a),
            None => None,
        }
    }

    /// The final snapshot: every stored account exactly once, in an order
    /// that carries no meaning.
    pub fn accounts(&self) -> (r: Vec<Account>)
        requires
            self.wf(),
        ensures
            forall|i: int|
                0 <= i < r@.len() ==> self@.accounts.contains_key(#[trigger] r@[i].client)
                    && r@[i] == self@.accounts[r@[i].client],
            forall|c: u16| #[trigger]
                self@.accounts.contains_key(c) ==> exists|i: int|
                    0 <= i < r@.len() && r@[i].client == c,
            forall|i: int, j: int| 0 <= i < j < r@.len() ==> r@[i].client != r@[j].client,
    {
        let mut r: Vec<Account> = Vec::new();
        let n = self.clients.len();
        let mut k: usize = 0;
        while k < n
            invariant
                self.wf(),
                n == self.clients@.len(),
                k <= n,
                r@.len() == k,
                forall|i: int| 0 <= i < k ==> #[trigger] r@[i].client == self.clients@[i],
                forall|i: int|
                    0 <= i < k ==> self@.accounts.contains_key(#[trigger] r@[i].client)
                        && r@[i] == self@.accounts[r@[i].client],
            decreases n - k,
        {
            let c = self.clients[k];
            match self.accounts.get(&c) {
                Some(a) => {
                    proof {
                        assert(self@.accounts.contains_key(c));
                        assert(self@.accounts[c].wf(c));
                    }
                    r.push(*a);
                },
                None => {
                    proof {
                        assert(self.accounts@.contains_key(self.clients@[k as int]));
                        assert(false);
                    }
                },
            }
            k += 1;
        }
        proof {
            assert forall|c: u16| #[trigger]
                self@.accounts.contains_key(c) implies exists|i: int|
                0 <= i < r@.len() && r@[i].client == c by {
                let i = self.clients@.index_of(c);
                assert(self.clients@.contains(c));
                assert(r@[i].client == c);
            }
            assert forall|i: int, j: int|
                0 <= i < j < r@.len() implies r@[i].client != r@[j].client by {
                assert(self.clients@[i] != self.clients@[j]);
            }
        }
        r
    }
}

} // verus!
