use vstd::prelude::*;

use std::collections::HashMap;

use crate::amount::Amount;
use crate::domain::{
    Account, AccountModel, ClientID, DisputeRecord, DisputeRecordKind, Record, RecordInner, TxnID,
    TxnRecord, TxnRecordKind, TxnState,
};

verus! {

/// Why processing a record sequence was aborted.
#[derive(Clone, Copy, Debug, PartialEq, Eq, Structural)]
pub enum LedgerError {
    /// A dispute, resolve or charge back names a client that has no account,
    /// so it cannot belong to the transaction it refers to.
    StructuralInvariantViolation,
    /// A balance would leave the 64-bit range of an [`Amount`].
    AmountOverflow,
}

/// A stored transaction, with its amount as an integer.
pub struct TxnModel {
    pub kind: TxnRecordKind,
    pub client: ClientID,
    pub amount: int,
    pub state: TxnState,
}

/// The whole ledger: each client's account and each transaction seen.
pub struct LedgerModel {
    pub accounts: Map<ClientID, AccountModel>,
    pub txns: Map<TxnID, TxnModel>,
}

impl TxnRecord {
    /// This record as stored, in the state `state`.
    pub open spec fn stored(self, state: TxnState) -> TxnModel {
        TxnModel { kind: self.kind, client: self.client, amount: self.amount@, state }
    }
}

impl LedgerModel {
    /// No accounts and no transactions.
    pub open spec fn empty() -> LedgerModel {
        LedgerModel { accounts: Map::empty(), txns: Map::empty() }
    }

    /// Every account's total is its available plus its held funds.
    pub open spec fn all_balanced(self) -> bool {
        forall|c: ClientID| #[trigger] self.accounts.contains_key(c) ==> self.accounts[c].balanced()
    }

    /// The client's account, or a fresh one where it has none yet.
    pub open spec fn account_or_new(self, c: ClientID) -> AccountModel {
        if self.accounts.contains_key(c) {
            self.accounts[c]
        } else {
            AccountModel::zero()
        }
    }
}

/// Whether a dispute-protocol record of kind `kind` acts on a transaction in
/// state `state`.
pub open spec fn dispute_applies(kind: DisputeRecordKind, state: TxnState) -> bool {
    match kind {
        DisputeRecordKind::Dispute => state == TxnState::Undisputed,
        DisputeRecordKind::Resolve => state == TxnState::Disputed,
        DisputeRecordKind::ChargeBack => state == TxnState::Disputed,
    }
}

/// The state a transaction moves to when a record of kind `kind` acts on it.
pub open spec fn dispute_target(kind: DisputeRecordKind) -> TxnState {
    match kind {
        DisputeRecordKind::Dispute => TxnState::Disputed,
        DisputeRecordKind::Resolve => TxnState::Undisputed,
        DisputeRecordKind::ChargeBack => TxnState::Reversed,
    }
}

/// What a dispute-protocol record of kind `kind` does to an account, for a
/// transaction of amount `a`.
pub open spec fn dispute_effect(kind: DisputeRecordKind, acc: AccountModel, a: int) -> AccountModel {
    match kind {
        DisputeRecordKind::Dispute => acc.hold(a),
        DisputeRecordKind::Resolve => acc.release(a),
        DisputeRecordKind::ChargeBack => acc.reverse(a).locked_up(),
    }
}

/// A deposit or withdrawal: the account is opened where needed, funds move
/// unless it is locked (or, for a withdrawal, unless it was just opened or
/// lacks the funds), and the transaction is stored undisputed.
pub open spec fn apply_txn(s: LedgerModel, t: TxnRecord) -> Result<LedgerModel, LedgerError> {
    let acc = s.account_or_new(t.client);
    let a = t.amount@;
    let next = match t.kind {
        TxnRecordKind::Deposit => if acc.locked {
            acc
        } else {
            acc.credit(a)
        },
        TxnRecordKind::Withdrawal => if s.accounts.contains_key(t.client) && !acc.locked
            && acc.available >= a {
            acc.debit(a)
        } else {
            acc
        },
    };
    if next.fits() {
        Ok(
            LedgerModel {
                accounts: s.accounts.insert(t.client, next),
                txns: s.txns.insert(t.tx, t.stored(TxnState::Undisputed)),
            },
        )
    } else {
        Err(LedgerError::AmountOverflow)
    }
}

/// A dispute, resolve or charge back: nothing happens for an unknown
/// transaction or one in the wrong state; otherwise the record's client's
/// account must exist, and the transaction's amount moves on it.
pub open spec fn apply_dispute(s: LedgerModel, d: DisputeRecord) -> Result<
    LedgerModel,
    LedgerError,
> {
    if !s.txns.contains_key(d.tx) {
        Ok(s)
    } else {
        let t = s.txns[d.tx];
        if !dispute_applies(d.kind, t.state) {
            Ok(s)
        } else if !s.accounts.contains_key(d.client) {
            Err(LedgerError::StructuralInvariantViolation)
        } else {
            let next = dispute_effect(d.kind, s.accounts[d.client], t.amount);
            if next.fits() {
                Ok(
                    LedgerModel {
                        accounts: s.accounts.insert(d.client, next),
                        txns: s.txns.insert(d.tx, TxnModel { state: dispute_target(d.kind), ..t }),
                    },
                )
            } else {
                Err(LedgerError::AmountOverflow)
            }
        }
    }
}

/// The ledger after one record.
pub open spec fn step(s: LedgerModel, r: Record) -> Result<LedgerModel, LedgerError> {
    match r.inner {
        RecordInner::TxnRecord(t) => apply_txn(s, t),
        RecordInner::DisputeRecord(d) => apply_dispute(s, d),
    }
}

/// The ledger after the records `rs` in order, stopping at the first error.
pub open spec fn run(s: LedgerModel, rs: Seq<Record>) -> Result<LedgerModel, LedgerError>
    decreases rs.len(),
{
    if rs.len() == 0 {
        Ok(s)
    } else {
        match run(s, rs.drop_last()) {
            Ok(m) => step(m, rs.last()),
            Err(e) => Err(e),
        }
    }
}

/// The ledger state machine: accounts by client and transactions by id.
pub struct Ledger {
    accounts: HashMap<ClientID, Account>,
    txns: HashMap<TxnID, TxnRecord>,
}

impl View for Ledger {
    type V = LedgerModel;

    closed spec fn view(&self) -> LedgerModel {
        LedgerModel {
            accounts: self.accounts@.map_values(|a: Account| a@),
            txns: self.txns@.map_values(|t: TxnRecord| t.stored(t.state)),
        }
    }
}

impl Ledger {
    /// Each account is stored under its own client id and is balanced.
    pub closed spec fn wf(&self) -> bool {
        forall|c: ClientID| #[trigger]
            self.accounts@.contains_key(c) ==> self.accounts@[c].client == c
                && self.accounts@[c]@.balanced()
    }

    proof fn lemma_wf_balanced(&self)
        requires
            self.wf(),
        ensures
            self@.all_balanced(),
    {
    }

    /// An empty ledger.
    pub fn new() -> (r: Ledger)
        ensures
            r.wf(),
            r@ == LedgerModel::empty(),
    {
        let r = Ledger { accounts: HashMap::new(), txns: HashMap::new() };
        assert(r@.accounts =~= Map::empty());
        assert(r@.txns =~= Map::empty());
        r
    }

    /// The account of `client`, if it has one.
    pub fn account(&self, client: ClientID) -> (r: Option<Account>)
        requires
            self.wf(),
        ensures
            r is Some <==> self@.accounts.contains_key(client),
            r matches Some(a) ==> a.client == client && a@ == self@.accounts[client],
    {
        match self.accounts.get(&client) {
            Some(a) => Some(*a),
            None => None,
        }
    }

    /// The accounts by client, consuming the ledger.
    pub fn into_accounts(self) -> (r: HashMap<ClientID, Account>)
        requires
            self.wf(),
        ensures
            r@.dom() == self@.accounts.dom(),
            forall|c: ClientID| #[trigger]
                r@.contains_key(c) ==> r@[c].client == c && r@[c]@ == self@.accounts[c],
    {
        self.accounts
    }

    proof fn lemma_insert_account(&self, c: ClientID, a: Account, next: &Ledger)
        requires
            next.accounts@ == self.accounts@.insert(c, a),
            next.txns@ == self.txns@,
        ensures
            next@.accounts == self@.accounts.insert(c, a@),
            next@.txns == self@.txns,
    {
        assert(next@.accounts =~= self@.accounts.insert(c, a@));
        assert(next@.txns =~= self@.txns);
    }

    proof fn lemma_insert_txn(&self, x: TxnID, t: TxnRecord, next: &Ledger)
        requires
            next.txns@ == self.txns@.insert(x, t),
            next.accounts@ == self.accounts@,
        ensures
            next@.txns == self@.txns.insert(x, t.stored(t.state)),
            next@.accounts == self@.accounts,
    {
        assert(next@.txns =~= self@.txns.insert(x, t.stored(t.state)));
        assert(next@.accounts =~= self@.accounts);
    }

    /// Process a deposit or withdrawal.
    fn apply_txn(&mut self, t: TxnRecord) -> (r: Result<(), LedgerError>)
        requires
            old(self).wf(),
        ensures
            final(self).wf(),
            apply_txn(old(self)@, t) == (match r {
                Ok(_) => Ok(final(self)@),
                Err(e) => Err(e),
            }),
            r is Err ==> final(self)@ == old(self)@,
    {
        let known = self.accounts.contains_key(&t.client);
        let mut acc = match self.accounts.get(&t.client) {
            Some(a) => *a,
            None => Account::new(t.client),
        };
        proof {
            assert(acc@ == old(self)@.account_or_new(t.client));
            broadcast use Amount::lemma_in_range;
        }
        match t.kind {
            TxnRecordKind::Deposit => {
                // a locked account cannot be credited
                if !acc.locked {
                    if acc.available.checked_add(t.amount).is_none()
                        || acc.total.checked_add(t.amount).is_none() {
                        return Err(LedgerError::AmountOverflow);
                    }
                    acc.deposit(t.amount);
                }
            },
            TxnRecordKind::Withdrawal => {
                // nothing to take from a locked or a just opened account, and
                // lacking funds the withdrawal is dropped, not an error
                if known && !acc.locked && !acc.available.lt(&t.amount) {
                    if acc.available.checked_sub(t.amount).is_none()
                        || acc.total.checked_sub(t.amount).is_none() {
                        return Err(LedgerError::AmountOverflow);
                    }
                    let _ok = acc.withdraw(t.amount);
                }
            },
        }
        let ghost before = *self;
        self.accounts.insert(t.client, acc);
        proof {
            before.lemma_insert_account(t.client, acc, self);
        }
        let ghost mid = *self;
        let stored = TxnRecord { state: TxnState::Undisputed, ..t };
        self.txns.insert(t.tx, stored);
        proof {
            mid.lemma_insert_txn(t.tx, stored, self);
            assert(self@ =~= apply_txn(old(self)@, t)->Ok_0);
        }
        Ok(())
    }

    /// Process a dispute, resolve or charge back.
    fn apply_dispute(&mut self, d: DisputeRecord) -> (r: Result<(), LedgerError>)
        requires
            old(self).wf(),
        ensures
            final(self).wf(),
            apply_dispute(old(self)@, d) == (match r {
                Ok(_) => Ok(final(self)@),
                Err(e) => Err(e),
            }),
            r is Err ==> final(self)@ == old(self)@,
    {
        let txn = match self.txns.get(&d.tx) {
            Some(t) => *t,
            // a transaction never seen: nothing to act on
            None => return Ok(()),
        };
        let applies = match d.kind {
            DisputeRecordKind::Dispute => txn.state == TxnState::Undisputed,
            DisputeRecordKind::Resolve => txn.state == TxnState::Disputed,
            DisputeRecordKind::ChargeBack => txn.state == TxnState::Disputed,
        };
        if !applies {
            // disputed twice, resolved while undisputed, or already reversed
            return Ok(());
        }
        let mut acc = match self.accounts.get(&d.client) {
            Some(a) => *a,
            None => return Err(LedgerError::StructuralInvariantViolation),
        };
        proof {
            broadcast use Amount::lemma_in_range;
        }
        let target = match d.kind {
            DisputeRecordKind::Dispute => {
                if acc.available.checked_sub(txn.amount).is_none() || acc.held.checked_add(
                    txn.amount,
                ).is_none() {
                    return Err(LedgerError::AmountOverflow);
                }
                acc.hold(txn.amount);
                TxnState::Disputed
            },
            DisputeRecordKind::Resolve => {
                if acc.held.checked_sub(txn.amount).is_none() || acc.available.checked_add(
                    txn.amount,
                ).is_none() {
                    return Err(LedgerError::AmountOverflow);
                }
                acc.resolve(txn.amount);
                TxnState::Undisputed
            },
            DisputeRecordKind::ChargeBack => {
                if acc.held.checked_sub(txn.amount).is_none() || acc.total.checked_sub(
                    txn.amount,
                ).is_none() {
                    return Err(LedgerError::AmountOverflow);
                }
                acc.charge_back(txn.amount);
                acc.lock();
                TxnState::Reversed
            },
        };
        let ghost before = *self;
        self.accounts.insert(d.client, acc);
        proof {
            before.lemma_insert_account(d.client, acc, self);
        }
        let ghost mid = *self;
        let stored = TxnRecord { state: target, ..txn };
        self.txns.insert(d.tx, stored);
        proof {
            mid.lemma_insert_txn(d.tx, stored, self);
            assert(self@ =~= apply_dispute(old(self)@, d)->Ok_0);
        }
        Ok(())
    }

    /// Process one record.
    ///
    /// On success the ledger is the model's next state; on an error it is
    /// left as it was.
    pub fn apply(&mut self, record: Record) -> (r: Result<(), LedgerError>)
        requires
            old(self).wf(),
        ensures
            final(self).wf(),
            final(self)@.all_balanced(),
            step(old(self)@, record) == (match r {
                Ok(_) => Ok(final(self)@),
                Err(e) => Err(e),
            }),
            r is Err ==> final(self)@ == old(self)@,
    {
        let r = match record.inner {
            RecordInner::TxnRecord(t) => self.apply_txn(t),
            RecordInner::DisputeRecord(d) => self.apply_dispute(d),
        };
        proof {
            self.lemma_wf_balanced();
        }
        r
    }
}

/// Process `records` in order into a fresh ledger, aborting at the first
/// error.
pub fn process_records(records: &Vec<Record>) -> (r: Result<Ledger, LedgerError>)
    ensures
        run(LedgerModel::empty(), records@) == (match r {
            Ok(l) => Ok(l@),
            Err(e) => Err(e),
        }),
        r matches Ok(l) ==> l.wf() && l@.all_balanced(),
{
    let mut ledger = Ledger::new();
    let mut i: usize = 0;
    while i < records.len()
        invariant
            i <= records.len(),
            ledger.wf(),
            ledger@.all_balanced(),
            run(LedgerModel::empty(), records@.take(i as int)) == Ok::<LedgerModel, LedgerError>(
                ledger@,
            ),
        decreases records.len() - i,
    {
        let record = records[i];
        let ghost prev = ledger@;
        let res = ledger.apply(record);
        proof {
            assert(records@.take(i + 1).drop_last() =~= records@.take(i as int));
        }
        match res {
            Ok(()) => {},
            Err(e) => {
                proof {
                    lemma_run_error_sticks(LedgerModel::empty(), records@, i + 1);
                    assert(records@.take(records@.len() as int) =~= records@);
                }
                return Err(e);
            },
        }
        i = i + 1;
    }
    proof {
        assert(records@.take(records@.len() as int) =~= records@);
    }
    Ok(ledger)
}

/// Once a run fails, every longer run over the same records fails the same
/// way.
proof fn lemma_run_error_sticks(s: LedgerModel, rs: Seq<Record>, j: int)
    requires
        0 <= j <= rs.len(),
        run(s, rs.take(j)) is Err,
    ensures
        run(s, rs) == run(s, rs.take(j)),
    decreases rs.len() - j,
{
    if j < rs.len() {
        assert(rs.take(j + 1).drop_last() =~= rs.take(j));
        lemma_run_error_sticks(s, rs, j + 1);
    } else {
        assert(rs.take(j) =~= rs);
    }
}

/// Every record keeps each account's total equal to its available plus its
/// held funds.
pub proof fn lemma_step_keeps_balance(s: LedgerModel, r: Record)
    requires
        s.all_balanced(),
    ensures
        step(s, r) matches Ok(n) ==> n.all_balanced(),
{
}

/// Every account produced by processing any record sequence from an empty
/// ledger has its total equal to its available plus its held funds.
pub proof fn lemma_run_keeps_balance(rs: Seq<Record>)
    ensures
        run(LedgerModel::empty(), rs) matches Ok(n) ==> n.all_balanced(),
    decreases rs.len(),
{
    if rs.len() > 0 {
        lemma_run_keeps_balance(rs.drop_last());
        if let Ok(m) = run(LedgerModel::empty(), rs.drop_last()) {
            lemma_step_keeps_balance(m, rs.last());
        }
    }
}

/// A dispute applied twice in a row has the effect of applying it once.
pub proof fn lemma_dispute_idempotent(s: LedgerModel, d: DisputeRecord)
    requires
        d.kind == DisputeRecordKind::Dispute,
    ensures
        ({
            let r = Record { inner: RecordInner::DisputeRecord(d) };
            step(s, r) matches Ok(n) ==> step(n, r) == Ok::<LedgerModel, LedgerError>(n)
        }),
{
}

/// While a transaction is reversed by a charge back, no dispute, resolve or
/// charge back referring to it changes anything.
pub proof fn lemma_reversed_is_inert(s: LedgerModel, d: DisputeRecord)
    requires
        s.txns.contains_key(d.tx),
        s.txns[d.tx].state == TxnState::Reversed,
    ensures
        step(s, Record { inner: RecordInner::DisputeRecord(d) }) == Ok::<LedgerModel, LedgerError>(
            s,
        ),
{
}

/// A reversed transaction stays reversed under every record but a deposit or
/// withdrawal that reuses its id.
pub proof fn lemma_reversed_is_terminal(s: LedgerModel, r: Record, tx: TxnID)
    requires
        s.txns.contains_key(tx),
        s.txns[tx].state == TxnState::Reversed,
        !(r.inner matches RecordInner::TxnRecord(t) && t.tx == tx),
    ensures
        step(s, r) matches Ok(n) ==> n.txns.contains_key(tx) && n.txns[tx].state
            == TxnState::Reversed,
{
}

/// A deposit or withdrawal on a locked account leaves its balances as they
/// are.
pub proof fn lemma_locked_account_is_frozen(s: LedgerModel, t: TxnRecord)
    requires
        s.accounts.contains_key(t.client),
        s.accounts[t.client].locked,
        s.accounts[t.client].fits(),
    ensures
        ({
            let r = Record { inner: RecordInner::TxnRecord(t) };
            step(s, r) matches Ok(n) && n.accounts[t.client] == s.accounts[t.client]
        }),
{
}

/// A locked account stays locked under every record.
pub proof fn lemma_lock_is_permanent(s: LedgerModel, r: Record, c: ClientID)
    requires
        s.accounts.contains_key(c),
        s.accounts[c].locked,
    ensures
        step(s, r) matches Ok(n) ==> n.accounts.contains_key(c) && n.accounts[c].locked,
{
}

} // verus!
