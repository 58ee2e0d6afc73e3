//! The data model: accounts, retained deposit records, and the transaction
//! stream's value type.

use vstd::prelude::*;

verus! {

/// One account per client id. Balances are fixed-point amounts (an `i64`
/// count of 1/10_000 currency units); `total` is kept equal to
/// `available + held` after every processed transaction.
#[derive(Clone, Copy, Debug, PartialEq, Eq, Structural)]
pub struct Account {
    pub client: u16,
    pub available: i64,
    pub held: i64,
    pub total: i64,
    pub locked: bool,
}

impl Account {
    /// The zeroed, unlocked account created the first time a client id is seen.
    pub open spec fn new_spec(client: u16) -> Account {
        Account { client, available: 0, held: 0, total: 0, locked: false }
    }

    /// A zeroed, unlocked account for `client`.
    pub fn new(client: u16) -> (a: Account)
        ensures
            a == Account::new_spec(client),
    {
        Account { client, available: 0, held: 0, total: 0, locked: false }
    }

    /// Well-formedness of an account stored under key `client`:
    /// balances are non-negative, their sum fits in an `i64`, and
    /// `total` is exactly that sum.
    pub open spec fn wf(self, client: u16) -> bool {
        &&& self.client == client
        &&& 0 <= self.available
        &&& 0 <= self.held
        &&& self.available + self.held <= i64::MAX
        &&& self.total == self.available + self.held
    }
}

/// The record retained for every accepted deposit, keyed by its transaction
/// id, so that later disputes can reference it and duplicate ids can be
/// rejected. Never deleted.
#[derive(Clone, Copy, Debug, PartialEq, Eq, Structural)]
pub struct DepositRecord {
    pub client: u16,
    pub amount: i64,
    pub disputed: bool,
}

/// One input record. Only deposits and withdrawals carry an amount; the
/// dispute-lifecycle transactions reference a prior deposit by its id.
#[derive(Clone, Copy, Debug, PartialEq, Eq, Structural)]
pub enum Transaction {
    Deposit { client: u16, tx: u32, amount: i64 },
    Withdrawal { client: u16, tx: u32, amount: i64 },
    Dispute { client: u16, tx: u32 },
    Resolve { client: u16, tx: u32 },
    Chargeback { client: u16, tx: u32 },
}

impl Transaction {
    /// The client id a transaction is addressed to.
    pub open spec fn client_spec(&self) -> u16 {
        match *self {
            Transaction::Deposit { client, .. } => client,
            Transaction::Withdrawal { client, .. } => client,
            Transaction::Dispute { client, .. } => client,
            Transaction::Resolve { client, .. } => client,
            Transaction::Chargeback { client, .. } => client,
        }
    }

    #[verifier::when_used_as_spec(client_spec)]
    pub fn client(&self) -> (c: u16)
        ensures
            c == self.client_spec(),
    {
        match *self {
            Transaction::Deposit { client, .. } => client,
            Transaction::Withdrawal { client, .. } => client,
            Transaction::Dispute { client, .. } => client,
            Transaction::Resolve { client, .. } => client,
            Transaction::Chargeback { client, .. } => client,
        }
    }

    /// Whether this is one of the dispute-lifecycle kinds: a dispute, a
    /// resolve or a chargeback.
    pub open spec fn is_dispute_kind(self) -> bool {
        match self {
            Transaction::Dispute { .. } => true,
            Transaction::Resolve { .. } => true,
            Transaction::Chargeback { .. } => true,
            _ => false,
        }
    }
}

} // verus!
