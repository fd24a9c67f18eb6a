use std::collections::HashMap;

use vstd::prelude::*;

use crate::transaction_record::TransactionRecord;
use crate::transaction_type::TransactionType;

verus! {

broadcast use vstd::std_specs::hash::group_hash_axioms;

/// What an account remembers of a deposit or withdrawal, for later disputes.
#[derive(Debug, Clone, Copy, PartialEq, Eq, Structural)]
pub struct TransactionDetails {
    pub amount: u64,
    pub disputed: bool,
}

impl TransactionDetails {
    /// Details of a freshly applied transaction: not disputed.
    pub fn new(amount: u64) -> (r: Self)
        ensures
            r.amount == amount,
            !r.disputed,
    {
        TransactionDetails { amount, disputed: false }
    }
}

/// The mathematical state of one account: balances as unbounded integers,
/// the lock flag and the recorded transactions by id.
pub ghost struct Ledger {
    pub available: int,
    pub held: int,
    pub locked: bool,
    pub txs: Map<u32, TransactionDetails>,
}

impl Ledger {
    /// The state of a newly opened account.
    pub open spec fn fresh() -> Ledger {
        Ledger { available: 0, held: 0, locked: false, txs: Map::empty() }
    }

    /// Both balances can be stored in an `i64`.
    pub open spec fn fits(self) -> bool {
        i64::MIN <= self.available <= i64::MAX && i64::MIN <= self.held <= i64::MAX
    }

    /// The transaction `id` is recorded and currently under dispute.
    pub open spec fn is_disputed(self, id: u32) -> bool {
        self.txs.contains_key(id) && self.txs[id].disputed
    }

    /// The effect of one record on the account.
    ///
    /// A locked account ignores everything. Deposits and withdrawals are
    /// recorded for later disputes, a withdrawal even when it is refused for
    /// insufficient funds. Business-rule violations leave the balances as
    /// they were.
    pub open spec fn apply(self, r: TransactionRecord) -> Ledger {
        let id = r.transaction_id;
        let a = r.amount_or_zero();
        if self.locked {
            self
        } else {
            match r.tx_type {
                TransactionType::Deposit => Ledger {
                    available: self.available + a,
                    held: self.held,
                    locked: false,
                    txs: self.txs.insert(id, TransactionDetails { amount: a as u64, disputed: false }),
                },
                TransactionType::Withdraw => Ledger {
                    available: if self.available - a < 0 {
                        self.available
                    } else {
                        self.available - a
                    },
                    held: self.held,
                    locked: false,
                    txs: self.txs.insert(id, TransactionDetails { amount: a as u64, disputed: false }),
                },
                TransactionType::Dispute => {
                    if self.txs.contains_key(id) && !self.txs[id].disputed {
                        let d = self.txs[id];
                        Ledger {
                            available: self.available - d.amount,
                            held: self.held + d.amount,
                            locked: false,
                            txs: self.txs.insert(id, TransactionDetails { amount: d.amount, disputed: true }),
                        }
                    } else {
                        self
                    }
                },
                TransactionType::Resolve => {
                    if self.is_disputed(id) {
                        let d = self.txs[id];
                        Ledger {
                            available: self.available + d.amount,
                            held: self.held - d.amount,
                            locked: false,
                            txs: self.txs.insert(id, TransactionDetails { amount: d.amount, disputed: false }),
                        }
                    } else {
                        self
                    }
                },
                TransactionType::Chargeback => {
                    if self.is_disputed(id) {
                        let d = self.txs[id];
                        Ledger {
                            available: self.available,
                            held: self.held - d.amount,
                            locked: true,
                            txs: self.txs.insert(id, TransactionDetails { amount: d.amount, disputed: false }),
                        }
                    } else {
                        self
                    }
                },
            }
        }
    }

    /// The effect of a sequence of records, applied in order.
    pub open spec fn apply_all(self, rs: Seq<TransactionRecord>) -> Ledger
        decreases rs.len(),
    {
        if rs.len() == 0 {
            self
        } else {
            self.apply(rs[0]).apply_all(rs.skip(1))
        }
    }
}

/// One client's account.
#[derive(Debug)]
pub struct Account {
    pub client_id: u16,
    pub held_balance: i64,
    pub available_balance: i64,
    pub locked: bool,
    pub transactions: HashMap<u32, TransactionDetails>,
}

impl View for Account {
    type V = Ledger;

    open spec fn view(&self) -> Ledger {
        Ledger {
            available: self.available_balance as int,
            held: self.held_balance as int,
            locked: self.locked,
            txs: self.transactions@,
        }
    }
}

impl Account {
    /// A new zero-balance, unlocked account for `client_id`.
    pub fn new(client_id: u16) -> (r: Self)
        ensures
            r.client_id == client_id,
            r@ == Ledger::fresh(),
    {
        Account {
            client_id,
            held_balance: 0,
            available_balance: 0,
            locked: false,
            transactions: HashMap::new(),
        }
    }

    /// Available plus held funds.
    pub fn total_balance(&self) -> (r: i128)
        ensures
            r == self@.available + self@.held,
    {
        self.available_balance as i128 + self.held_balance as i128
    }

    /// A copy of this account, transactions included.
    pub fn duplicate(&self) -> (r: Self)
        ensures
            r.client_id == self.client_id,
            r@ == self@,
    {
        Account {
            client_id: self.client_id,
            held_balance: self.held_balance,
            available_balance: self.available_balance,
            locked: self.locked,
            transactions: self.transactions.clone(),
        }
    }

    /// The recorded details of transaction `id`, if any.
    fn details_of(&self, id: u32) -> (r: Option<TransactionDetails>)
        ensures
            match r {
                Some(d) => self@.txs.contains_key(id) && self@.txs[id] == d,
                None => !self@.txs.contains_key(id),
            },
    {
        match self.transactions.get(&id) {
            Some(d) => Some(*d),
            None => None,
        }
    }

    /// Applies one well-formed record. Returns `false`, leaving the account
    /// unchanged, exactly when a resulting balance would not fit in an `i64`.
    pub fn apply(&mut self, tx: &TransactionRecord) -> (ok: bool)
        requires
            tx.valid(),
        ensures
            final(self).client_id == old(self).client_id,
            ok == old(self)@.apply(*tx).fits(),
            ok ==> final(self)@ == old(self)@.apply(*tx),
            !ok ==> final(self)@ == old(self)@,
    {
        if self.locked {
            return true;
        }
        let id = tx.transaction_id;
        let available = self.available_balance as i128;
        let held = self.held_balance as i128;
        match tx.tx_type {
            TransactionType::Deposit => {
                let amount = match tx.amount {
                    Some(a) => a,
                    None => 0,
                };
                let next = available + amount as i128;
                if next > i64::MAX as i128 {
                    return false;
                }
                self.transactions.insert(id, TransactionDetails::new(amount));
                self.available_balance = next as i64;
                true
            },
            TransactionType::Withdraw => {
                let amount = match tx.amount {
                    Some(a) => a,
                    None => 0,
                };
                self.transactions.insert(id, TransactionDetails::new(amount));
                let next = available - amount as i128;
                if next >= 0 {
                    self.available_balance = next as i64;
                }
                true
            },
            TransactionType::Dispute => {
                match self.details_of(id) {
                    Some(d) => {
                        if d.disputed {
                            return true;
                        }
                        let next_available = available - d.amount as i128;
                        let next_held = held + d.amount as i128;
                        if next_available < i64::MIN as i128 || next_held > i64::MAX as i128 {
                            return false;
                        }
                        self.transactions.insert(id, TransactionDetails { amount: d.amount, disputed: true });
                        self.available_balance = next_available as i64;
                        self.held_balance = next_held as i64;
                        true
                    },
                    None => true,
                }
            },
            TransactionType::Resolve => {
                match self.details_of(id) {
                    Some(d) => {
                        if !d.disputed {
                            return true;
                        }
                        let next_available = available + d.amount as i128;
                        let next_held = held - d.amount as i128;
                        if next_available > i64::MAX as i128 || next_held < i64::MIN as i128 {
                            return false;
                        }
                        self.transactions.insert(id, TransactionDetails::new(d.amount));
                        self.available_balance = next_available as i64;
                        self.held_balance = next_held as i64;
                        true
                    },
                    None => true,
                }
            },
            TransactionType::Chargeback => {
                match self.details_of(id) {
                    Some(d) => {
                        if !d.disputed {
                            return true;
                        }
                        let next_held = held - d.amount as i128;
                        if next_held < i64::MIN as i128 {
                            return false;
                        }
                        self.transactions.insert(id, TransactionDetails::new(d.amount));
                        self.held_balance = next_held as i64;
                        self.locked = true;
                        true
                    },
                    None => true,
                }
            },
        }
    }
}

} // verus!
