//! An escrow ledger of tasks: each account opens tasks backed by a deposit,
//! and completing a task before its deadline refunds the deposit while a late
//! completion withholds it.
pub mod ledger;
pub mod pagination;
pub mod record;

pub use ledger::{Contract, UserRecords};
pub use pagination::unordered_map_pagination;
pub use record::{Completion, DepositStatus, LedgerError, Record, MIN_DEPOSIT};
