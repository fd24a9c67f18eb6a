use vstd::prelude::*;

use crate::transaction_type::TransactionType;

verus! {

/// One transaction event, as handed to the engine.
///
/// `amount` is present for deposits and withdrawals only, in ten-thousandths
/// of a unit.
#[derive(Debug, Clone, Copy, PartialEq, Eq, Structural)]
pub struct TransactionRecord {
    pub tx_type: TransactionType,
    pub client_id: u16,
    pub transaction_id: u32,
    pub amount: Option<u64>,
}

impl TransactionRecord {
    /// A record is well formed when deposits and withdrawals carry an amount
    /// and disputes, resolutions and chargebacks do not.
    pub open spec fn valid(&self) -> bool {
        match self.tx_type {
            TransactionType::Deposit | TransactionType::Withdraw => self.amount is Some,
            _ => self.amount is None,
        }
    }

    /// The amount carried, or zero when there is none.
    pub open spec fn amount_or_zero(&self) -> int {
        match self.amount {
            Some(a) => a as int,
            None => 0,
        }
    }

    /// Checks the structural validity of the record.
    pub fn is_valid(&self) -> (r: bool)
        ensures
            r == self.valid(),
    {
        let has_amount = self.amount.is_some();
        match self.tx_type {
            TransactionType::Deposit | TransactionType::Withdraw => has_amount,
            TransactionType::Dispute | TransactionType::Resolve | TransactionType::Chargeback => {
                !has_amount
            },
        }
    }
}

} // verus!
