//! The transaction processor: the state machine that applies one transaction
//! at a time against the ledger store. Invalid transactions are silently
//! dropped — no error, no side effect — since the feed is assumed noisy;
//! only well-formed transitions change state.

use vstd::prelude::*;

use crate::ledger::{Ledger, LedgerModel};
use crate::types::{Account, DepositRecord, Transaction};

verus! {

/// What one transaction's type-specific rule does to the (unlocked) account
/// it addresses and to the deposit records, before the unconditional
/// recomputation of `total`. A violated guard leaves both untouched.
pub open spec fn step_branch(
    a: Account,
    deposits: Map<u32, DepositRecord>,
    t: Transaction,
) -> (Account, Map<u32, DepositRecord>) {
    match t {
        Transaction::Deposit { client, tx, amount } => {
            if !deposits.contains_key(tx) && amount > 0 && a.available + a.held + amount
                <= i64::MAX {
                (
                    Account {
                        client: a.client,
                        available: (a.available + amount) as i64,
                        held: a.held,
                        total: a.total,
                        locked: a.locked,
                    },
                    deposits.insert(tx, DepositRecord { client, amount, disputed: false }),
                )
            } else {
                (a, deposits)
            }
        },
        Transaction::Withdrawal { client: _, tx: _, amount } => {
            if a.available >= amount && amount > 0 {
                (
                    Account {
                        client: a.client,
                        available: (a.available - amount) as i64,
                        held: a.held,
                        total: a.total,
                        locked: a.locked,
                    },
                    deposits,
                )
            } else {
                (a, deposits)
            }
        },
        Transaction::Dispute { client: _, tx } => {
            if deposits.contains_key(tx) && deposits[tx].client == a.client
                && !deposits[tx].disputed && a.available >= deposits[tx].amount {
                let d = deposits[tx];
                (
                    Account {
                        client: a.client,
                        available: (a.available - d.amount) as i64,
                        held: (a.held + d.amount) as i64,
                        total: a.total,
                        locked: a.locked,
                    },
                    deposits.insert(
                        tx,
                        DepositRecord { client: d.client, amount: d.amount, disputed: true },
                    ),
                )
            } else {
                (a, deposits)
            }
        },
        Transaction::Resolve { client: _, tx } => {
            if deposits.contains_key(tx) && deposits[tx].client == a.client
                && deposits[tx].disputed && a.held >= deposits[tx].amount {
                let d = deposits[tx];
                (
                    Account {
                        client: a.client,
                        available: (a.available + d.amount) as i64,
                        held: (a.held - d.amount) as i64,
                        total: a.total,
                        locked: a.locked,
                    },
                    deposits.insert(
                        tx,
                        DepositRecord { client: d.client, amount: d.amount, disputed: false },
                    ),
                )
            } else {
                (a, deposits)
            }
        },
        Transaction::Chargeback { client: _, tx } => {
            if deposits.contains_key(tx) && deposits[tx].client == a.client
                && deposits[tx].disputed && a.held >= deposits[tx].amount {
                let d = deposits[tx];
                (
                    Account {
                        client: a.client,
                        available: a.available,
                        held: (a.held - d.amount) as i64,
                        total: a.total,
                        locked: true,
                    },
                    deposits,
                )
            } else {
                (a, deposits)
            }
        },
    }
}

/// The full effect of applying one transaction to the ledger.
///
/// The account for the transaction's client is created (zeroed, unlocked)
/// if absent. A locked account accepts and ignores every transaction.
/// Otherwise the type-specific rule of [`step_branch`] runs, and `total`
/// is recomputed as `available + held` unconditionally.
pub open spec fn apply_spec(l: LedgerModel, t: Transaction) -> LedgerModel {
    let client = t.client_spec();
    let accounts0 = if l.accounts.contains_key(client) {
        l.accounts
    } else {
        l.accounts.insert(client, Account::new_spec(client))
    };
    let a = accounts0[client];
    if a.locked {
        LedgerModel { accounts: accounts0, deposits: l.deposits }
    } else {
        let stepped = step_branch(a, l.deposits, t);
        let a1 = stepped.0;
        let a2 = Account {
            client: a1.client,
            available: a1.available,
            held: a1.held,
            total: (a1.available + a1.held) as i64,
            locked: a1.locked,
        };
        LedgerModel { accounts: accounts0.insert(client, a2), deposits: stepped.1 }
    }
}

/// Applies `t` to the ledger: the single entry point of the processor.
///
/// Resolves (creating if absent) the account for `t`'s client; performs no
/// state change at all when that account is locked; otherwise branches on
/// the transaction type, applies its rule when every guard holds, and
/// recomputes the account's `total`.
pub fn process_transaction(t: Transaction, l: &mut Ledger)
    requires
        old(l).wf(),
    ensures
        final(l).wf(),
        final(l)@ == apply_spec(old(l)@, t),
{
    let ghost goal = apply_spec(old(l)@, t);
    let client = t.client();
    let a = l.get_or_create_account(client);
    if a.locked {
        proof {
            assert(old(l)@.accounts.contains_key(client));
            assert(l@.accounts =~= old(l)@.accounts);
            assert(l@ =~= goal);
        }
        return ;
    }
    let ghost stepped = step_branch(a, old(l)@.deposits, t);
    let mut a1 = a;
    match t {
        Transaction::Deposit { client: _, tx, amount } => {
            if l.get_deposit(tx).is_none() && amount > 0 && (a.available as i128) + (
            a.held as i128) + (amount as i128) <= (i64::MAX as i128) {
                a1.available = a.available + amount;
                l.set_deposit(tx, DepositRecord { client, amount, disputed: false });
            }
        },
        Transaction::Withdrawal { client: _, tx: _, amount } => {
            if a.available >= amount && amount > 0 {
                a1.available = a.available - amount;
            }
        },
        Transaction::Dispute { client: _, tx } => {
            match l.get_deposit(tx) {
                Some(d) => {
                    if d.client == a.client && !d.disputed && a.available >= d.amount {
                        a1.available = a.available - d.amount;
                        a1.held = a.held + d.amount;
                        l.set_deposit(
                            tx,
                            DepositRecord { client: d.client, amount: d.amount, disputed: true },
                        );
                    }
                },
                None => {},
            }
        },
        Transaction::Resolve { client: _, tx } => {
            match l.get_deposit(tx) {
                Some(d) => {
                    if d.client == a.client && d.disputed && a.held >= d.amount {
                        a1.available = a.available + d.amount;
                        a1.held = a.held - d.amount;
                        l.set_deposit(
                            tx,
                            DepositRecord { client: d.client, amount: d.amount, disputed: false },
                        );
                    }
                },
                None => {},
            }
        },
        Transaction::Chargeback { client: _, tx } => {
            match l.get_deposit(tx) {
                Some(d) => {
                    if d.client == a.client && d.disputed && a.held >= d.amount {
                        a1.held = a.held - d.amount;
                        a1.locked = true;
                    }
                },
                None => {},
            }
        },
    }
    proof {
        assert(a1 == stepped.0);
        assert(l@.deposits =~= stepped.1);
    }
    let a2 = Account {
        client: a1.client,
        available: a1.available,
        held: a1.held,
        total: a1.available + a1.held,
        locked: a1.locked,
    };
    l.set_account(a2);
    proof {
        assert(l@.accounts =~= goal.accounts);
        assert(l@.deposits =~= goal.deposits);
        assert(l@ =~= goal);
    }
}

/// The effect of replaying a whole stream of transactions, in input order,
/// starting from ledger state `l`.
pub open spec fn apply_all_spec(l: LedgerModel, ts: Seq<Transaction>) -> LedgerModel
    decreases ts.len(),
{
    if ts.len() == 0 {
        l
    } else {
        apply_all_spec(apply_spec(l, ts[0]), ts.drop_first())
    }
}

/// Replays every transaction of `ts`, in order, against the ledger.
pub fn process_all(ts: &Vec<Transaction>, l: &mut Ledger)
    requires
        old(l).wf(),
    ensures
        final(l).wf(),
        final(l)@ == apply_all_spec(old(l)@, ts@),
{
    let n = ts.len();
    let mut k: usize = 0;
    proof {
        assert(ts@.skip(0) =~= ts@);
    }
    while k < n
        invariant
            l.wf(),
            n == ts@.len(),
            k <= n,
            apply_all_spec(l@, ts@.skip(k as int)) == apply_all_spec(old(l)@, ts@),
        decreases n - k,
    {
        let ghost pre = l@;
        let t = ts[k];
        process_transaction(t, l);
        proof {
            assert(ts@.skip(k as int)[0] == ts@[k as int]);
            assert(ts@.skip(k as int).drop_first() =~= ts@.skip(k as int + 1));
            assert(apply_all_spec(pre, ts@.skip(k as int)) == apply_all_spec(
                l@,
                ts@.skip(k as int + 1),
            ));
        }
        k += 1;
    }
    proof {
        assert(ts@.skip(n as int) =~= Seq::<Transaction>::empty());
    }
}

} // verus!
