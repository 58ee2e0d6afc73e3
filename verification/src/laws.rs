//! The guarantees the processor gives, stated and proved over the
//! mathematical model that [`crate::processor::apply_spec`] defines.

use vstd::prelude::*;

use crate::ledger::LedgerModel;
use crate::processor::{apply_all_spec, apply_spec, step_branch};
use crate::types::{Account, Transaction};

verus! {

/// Applying any transaction to a well-formed ledger leaves it well formed:
/// for every account, `total == available + held` exactly, `available` and
/// `held` stay non-negative, and every retained deposit record keeps a
/// strictly positive amount.
pub proof fn lemma_apply_preserves_wf(l: LedgerModel, t: Transaction)
    requires
        l.wf(),
    ensures
        apply_spec(l, t).wf(),
{
    let client = t.client_spec();
    let accounts0 = if l.accounts.contains_key(client) {
        l.accounts
    } else {
        l.accounts.insert(client, Account::new_spec(client))
    };
    let a = accounts0[client];
    assert(a.wf(client));
    let l2 = apply_spec(l, t);
    if !a.locked {
        let stepped = step_branch(a, l.deposits, t);
        assert(stepped.0.client == client);
        assert forall|c: u16| #[trigger] l2.accounts.contains_key(c) implies l2.accounts[c].wf(
            c,
        ) by {
            if c != client {
                assert(l.accounts.contains_key(c));
            }
        }
        assert forall|tx: u32| #[trigger] l2.deposits.contains_key(tx) implies l2.deposits[tx].amount
            > 0 by {
            if l.deposits.contains_key(tx) {
                assert(l.deposits[tx].amount > 0);
            }
        }
    } else {
        assert forall|c: u16| #[trigger] l2.accounts.contains_key(c) implies l2.accounts[c].wf(
            c,
        ) by {
            if c != client {
                assert(l.accounts.contains_key(c));
            }
        }
    }
}

/// Once an account is locked, nothing about that client moves again: any
/// further transaction — whatever its type, client or amount — leaves the
/// locked client's account, and every deposit record owned by that client,
/// exactly as they were.
pub proof fn lemma_locked_client_frozen(l: LedgerModel, t: Transaction, c: u16)
    requires
        l.wf(),
        l.accounts.contains_key(c),
        l.accounts[c].locked,
    ensures
        apply_spec(l, t).accounts.contains_key(c),
        apply_spec(l, t).accounts[c] == l.accounts[c],
        forall|tx: u32|
            l.deposits.contains_key(tx) && l.deposits[tx].client == c ==> apply_spec(
                l,
                t,
            ).deposits.contains_key(tx) && apply_spec(l, t).deposits[tx] == l.deposits[tx],
{
    let client = t.client_spec();
    let accounts0 = if l.accounts.contains_key(client) {
        l.accounts
    } else {
        l.accounts.insert(client, Account::new_spec(client))
    };
    let a = accounts0[client];
    if client == c {
        assert(a.locked);
    } else {
        assert(a.wf(client));
        if !a.locked {
            let stepped = step_branch(a, l.deposits, t);
            assert forall|tx: u32|
                l.deposits.contains_key(tx) && l.deposits[tx].client == c implies apply_spec(
                l,
                t,
            ).deposits.contains_key(tx) && apply_spec(l, t).deposits[tx] == l.deposits[tx] by {
                assert(a.client == client);
            }
        }
    }
}

/// A transaction addressed to an already locked account is a complete
/// no-op: the whole ledger is unchanged.
pub proof fn lemma_locked_transaction_noop(l: LedgerModel, t: Transaction)
    requires
        l.wf(),
        l.accounts.contains_key(t.client_spec()),
        l.accounts[t.client_spec()].locked,
    ensures
        apply_spec(l, t) == l,
{
    assert(apply_spec(l, t) =~= l);
}

/// Repeating the same dispute, resolve or chargeback twice in a row has
/// exactly the effect of applying it once.
pub proof fn lemma_dispute_kind_idempotent(l: LedgerModel, t: Transaction)
    requires
        l.wf(),
        t.is_dispute_kind(),
    ensures
        apply_spec(apply_spec(l, t), t) == apply_spec(l, t),
{
    lemma_apply_preserves_wf(l, t);
    let client = t.client_spec();
    let l1 = apply_spec(l, t);
    let l2 = apply_spec(l1, t);
    assert(l1.accounts.contains_key(client));
    let a1 = l1.accounts[client];
    assert(a1.wf(client));
    if !a1.locked {
        let stepped = step_branch(a1, l1.deposits, t);
        assert(stepped.0 == a1 && stepped.1 == l1.deposits);
        assert(l2.accounts =~= l1.accounts);
        assert(l2 =~= l1);
    } else {
        assert(l2 =~= l1);
    }
}

/// A deposit whose transaction id was already used is ignored, regardless
/// of its amount or client: every account keeps its balances and lock
/// state, and the deposit records are untouched.
pub proof fn lemma_duplicate_deposit_ignored(l: LedgerModel, client: u16, tx: u32, amount: i64)
    requires
        l.wf(),
        l.deposits.contains_key(tx),
    ensures
        apply_spec(l, Transaction::Deposit { client, tx, amount }).deposits == l.deposits,
        forall|c: u16|
            apply_spec(l, Transaction::Deposit { client, tx, amount }).account_of(c)
                == l.account_of(c),
{
    let t = Transaction::Deposit { client, tx, amount };
    let l2 = apply_spec(l, t);
    assert forall|c: u16| l2.account_of(c) == l.account_of(c) by {
        if l.accounts.contains_key(client) {
            assert(l.accounts[client].wf(client));
        }
    }
}

/// A withdrawal for more than the account's available funds leaves every
/// account unchanged, and the deposit records untouched.
pub proof fn lemma_withdrawal_insufficient(l: LedgerModel, client: u16, tx: u32, amount: i64)
    requires
        l.wf(),
        amount > l.account_of(client).available,
    ensures
        apply_spec(l, Transaction::Withdrawal { client, tx, amount }).deposits == l.deposits,
        forall|c: u16|
            apply_spec(l, Transaction::Withdrawal { client, tx, amount }).account_of(c)
                == l.account_of(c),
{
    let t = Transaction::Withdrawal { client, tx, amount };
    let l2 = apply_spec(l, t);
    assert forall|c: u16| l2.account_of(c) == l.account_of(c) by {
        if l.accounts.contains_key(client) {
            assert(l.accounts[client].wf(client));
        }
    }
}

/// The well-formedness invariant holds at every point of processing: a
/// well-formed ledger stays well formed under any whole stream of
/// transactions.
pub proof fn lemma_apply_all_preserves_wf(l: LedgerModel, ts: Seq<Transaction>)
    requires
        l.wf(),
    ensures
        apply_all_spec(l, ts).wf(),
    decreases ts.len(),
{
    if ts.len() > 0 {
        lemma_apply_preserves_wf(l, ts[0]);
        lemma_apply_all_preserves_wf(apply_spec(l, ts[0]), ts.drop_first());
    }
}

/// Once an account is locked, no later transaction of the stream —
/// whatever its type, client or amount — changes the locked client's
/// account or the deposit records owned by that client.
pub proof fn lemma_locked_client_frozen_all(l: LedgerModel, ts: Seq<Transaction>, c: u16)
    requires
        l.wf(),
        l.accounts.contains_key(c),
        l.accounts[c].locked,
    ensures
        apply_all_spec(l, ts).accounts.contains_key(c),
        apply_all_spec(l, ts).accounts[c] == l.accounts[c],
        forall|tx: u32|
            l.deposits.contains_key(tx) && l.deposits[tx].client == c ==> apply_all_spec(
                l,
                ts,
            ).deposits.contains_key(tx) && apply_all_spec(l, ts).deposits[tx] == l.deposits[tx],
    decreases ts.len(),
{
    if ts.len() > 0 {
        lemma_apply_preserves_wf(l, ts[0]);
        lemma_locked_client_frozen(l, ts[0], c);
        lemma_locked_client_frozen_all(apply_spec(l, ts[0]), ts.drop_first(), c);
    }
}

} // verus!
