//! A ledger engine that applies a stream of transaction records (deposits,
//! withdrawals and the dispute lifecycle) to per-client accounts.
//!
//! Monetary amounts are fixed-point integers in ten-thousandths of a unit.

mod account;
mod amount;
mod laws;
mod transaction_engine;
mod transaction_record;
mod transaction_type;

pub use account::{Account, Ledger, TransactionDetails};
pub use amount::{
    all_digits, amount_value, digits_value, is_digit, parse_amount, point_at, pow10, AMOUNT_SCALE,
    MAX_FRACTION_DIGITS,
};
pub use laws::{
    all_deposits, deposits_accumulate, deposits_from_fresh, dispute_then_chargeback_locks,
    dispute_then_resolve_restores, locked_is_final, overdraft_is_refused, redispute_is_noop,
    settling_undisputed_is_noop, sum_amounts, disputed_total, fresh_holds_nothing, held_part,
    held_tracks_disputes,
};
pub use transaction_engine::{
    client_index, distinct_clients, engine_step, has_client, ledger_of, locked_client_is_frozen,
    registry_of, run_records, step_result, EngineError, Registry, TransactionEngine,
};
pub use transaction_record::TransactionRecord;
pub use transaction_type::TransactionType;
