//! A ledger that folds deposits, withdrawals and the dispute protocol into
//! per-client account balances, with fixed-point money arithmetic.
//!
//! [`Amount`] counts ten-thousandths in an `i64` and reads and writes
//! decimal text. [`Ledger`] applies records one at a time against a
//! mathematical model (`ledger::step`), and [`process_records`] folds a whole
//! sequence (`ledger::run`).

pub mod amount;
pub mod decimal;
pub mod domain;
pub mod ledger;

pub use amount::{Amount, AmountError, DECIMALS_PRECISION, SCALE};
pub use domain::{
    Account, ClientID, DisputeRecord, DisputeRecordKind, Record, RecordInner, TxnID, TxnRecord,
    TxnRecordKind, TxnState,
};
pub use ledger::{process_records, Ledger, LedgerError};
