use vstd::prelude::*;

use crate::amount::{in_i64, Amount};

verus! {

/// A client's unique identifier.
pub type ClientID = u16;

/// A transaction's unique identifier.
pub type TxnID = u32;

/// The two records that move funds and create a transaction.
#[derive(Clone, Copy, Debug, PartialEq, Eq, Structural)]
pub enum TxnRecordKind {
    Deposit,
    Withdrawal,
}

/// Where a transaction stands in the dispute protocol.
#[derive(Clone, Copy, Debug, PartialEq, Eq, Structural)]
pub enum TxnState {
    Undisputed,
    Disputed,
    Reversed,
}

impl Default for TxnState {
    fn default() -> (r: TxnState)
        ensures
            r == TxnState::Undisputed,
    {
        TxnState::Undisputed
    }
}

/// A deposit or a withdrawal.
#[derive(Clone, Copy, Debug, PartialEq, Eq, Structural)]
pub struct TxnRecord {
    pub kind: TxnRecordKind,
    /// Client's unique identifier.
    pub client: ClientID,
    /// Transaction's unique identifier.
    pub tx: TxnID,
    /// Transaction amount.
    pub amount: Amount,
    /// Whether this transaction is under dispute.
    pub state: TxnState,
}

/// The three records of the dispute protocol.
#[derive(Clone, Copy, Debug, PartialEq, Eq, Structural)]
pub enum DisputeRecordKind {
    Dispute,
    Resolve,
    ChargeBack,
}

/// A record that refers to an earlier transaction; the amount in question is
/// always that transaction's own.
#[derive(Clone, Copy, Debug, PartialEq, Eq, Structural)]
pub struct DisputeRecord {
    pub kind: DisputeRecordKind,
    /// Client's unique identifier.
    pub client: ClientID,
    /// The referenced transaction.
    pub tx: TxnID,
}

/// An operation record: one that creates a transaction and carries an
/// amount, or one that refers to such a transaction.
#[derive(Clone, Copy, Debug, PartialEq, Eq, Structural)]
pub enum RecordInner {
    TxnRecord(TxnRecord),
    DisputeRecord(DisputeRecord),
}

/// Operation record.
#[derive(Clone, Copy, Debug, PartialEq, Eq, Structural)]
pub struct Record {
    pub inner: RecordInner,
}

/// The balances of an account as integers of ten-thousandths.
pub struct AccountModel {
    pub available: int,
    pub held: int,
    pub total: int,
    pub locked: bool,
}

impl AccountModel {
    /// A freshly opened account.
    pub open spec fn zero() -> AccountModel {
        AccountModel { available: 0, held: 0, total: 0, locked: false }
    }

    /// The account's total is the sum of what is available and what is held.
    pub open spec fn balanced(self) -> bool {
        self.total == self.available + self.held
    }

    /// Every balance is representable in 64 bits.
    pub open spec fn fits(self) -> bool {
        in_i64(self.available) && in_i64(self.held) && in_i64(self.total)
    }

    /// Credit `a`.
    pub open spec fn credit(self, a: int) -> AccountModel {
        AccountModel { available: self.available + a, total: self.total + a, ..self }
    }

    /// Debit `a`.
    pub open spec fn debit(self, a: int) -> AccountModel {
        AccountModel { available: self.available - a, total: self.total - a, ..self }
    }

    /// Move `a` from available to held.
    pub open spec fn hold(self, a: int) -> AccountModel {
        AccountModel { available: self.available - a, held: self.held + a, ..self }
    }

    /// Move `a` from held back to available.
    pub open spec fn release(self, a: int) -> AccountModel {
        AccountModel { available: self.available + a, held: self.held - a, ..self }
    }

    /// Remove `a` from held and total.
    pub open spec fn reverse(self, a: int) -> AccountModel {
        AccountModel { held: self.held - a, total: self.total - a, ..self }
    }

    /// Mark the account locked.
    pub open spec fn locked_up(self) -> AccountModel {
        AccountModel { locked: true, ..self }
    }
}

/// A client's account.
#[derive(Clone, Copy, Debug, PartialEq, Eq, Structural)]
pub struct Account {
    /// Client's unique identifier.
    pub client: ClientID,
    /// Funds available for trading, staking, withdrawal.
    pub available: Amount,
    /// Funds held for dispute.
    pub held: Amount,
    /// Total funds: available plus held.
    pub total: Amount,
    /// Whether this account is locked; it gets locked by a charge back.
    pub locked: bool,
}

impl View for Account {
    type V = AccountModel;

    open spec fn view(&self) -> AccountModel {
        AccountModel {
            available: self.available@,
            held: self.held@,
            total: self.total@,
            locked: self.locked,
        }
    }
}

impl Account {
    /// A zeroed, unlocked account for `client`.
    pub fn new(client: ClientID) -> (r: Account)
        ensures
            r.client == client,
            r@ == AccountModel::zero(),
    {
        Account {
            client,
            available: Amount::default(),
            held: Amount::default(),
            total: Amount::default(),
            locked: false,
        }
    }

    /// Credit the client's account.
    pub fn deposit(&mut self, amount: Amount)
        requires
            old(self)@.credit(amount@).fits(),
        ensures
            final(self)@ == old(self)@.credit(amount@),
            final(self).client == old(self).client,
    {
        self.available = self.available.add(amount);
        self.total = self.total.add(amount);
    }

    /// Debit the client's account.
    ///
    /// Without sufficient available funds the account stays as it is and the
    /// result is `false`; otherwise available and total drop by `amount`.
    pub fn withdraw(&mut self, amount: Amount) -> (r: bool)
        requires
            old(self)@.available >= amount@ ==> old(self)@.debit(amount@).fits(),
        ensures
            r == (old(self)@.available >= amount@),
            r ==> final(self)@ == old(self)@.debit(amount@),
            !r ==> *final(self) == *old(self),
            final(self).client == old(self).client,
    {
        if self.available.lt(&amount) {
            return false;
        }
        self.available = self.available.sub(amount);
        self.total = self.total.sub(amount);
        true
    }

    /// Block a disputed amount.
    pub fn hold(&mut self, amount: Amount)
        requires
            old(self)@.hold(amount@).fits(),
        ensures
            final(self)@ == old(self)@.hold(amount@),
            final(self).client == old(self).client,
    {
        self.available = self.available.sub(amount);
        self.held = self.held.add(amount);
    }

    /// Unblock the previously disputed amount.
    pub fn resolve(&mut self, amount: Amount)
        requires
            old(self)@.release(amount@).fits(),
        ensures
            final(self)@ == old(self)@.release(amount@),
            final(self).client == old(self).client,
    {
        self.held = self.held.sub(amount);
        self.available = self.available.add(amount);
    }

    /// Take the previously disputed amount out of the account.
    pub fn charge_back(&mut self, amount: Amount)
        requires
            old(self)@.reverse(amount@).fits(),
        ensures
            final(self)@ == old(self)@.reverse(amount@),
            final(self).client == old(self).client,
    {
        self.held = self.held.sub(amount);
        self.total = self.total.sub(amount);
    }

    /// Lock the account.
    pub fn lock(&mut self)
        ensures
            final(self)@ == old(self)@.locked_up(),
            final(self).client == old(self).client,
    {
        self.locked = true;
    }
}

} // verus!
