use vstd::prelude::*;

use crate::account::{Account, Ledger};
use crate::transaction_record::TransactionRecord;

verus! {

/// Why processing stopped.
#[derive(Debug, Clone, Copy, PartialEq, Eq, Structural)]
pub enum EngineError {
    /// The record breaks the structural rules of `TransactionRecord::valid`.
    InvalidRecord,
    /// Applying the record would take a balance out of the `i64` range.
    Overflow,
}

/// The registry as a sequence of (client id, account state), in order of
/// first appearance.
pub type Registry = Seq<(u16, Ledger)>;

/// No client id occurs twice in the registry.
pub open spec fn distinct_clients(s: Registry) -> bool {
    forall|i: int, j: int| 0 <= i < j < s.len() ==> s[i].0 != s[j].0
}

/// The client has an account in the registry.
pub open spec fn has_client(s: Registry, c: u16) -> bool {
    exists|i: int| 0 <= i < s.len() && s[i].0 == c
}

/// The position of the client's account, when it has one.
pub open spec fn client_index(s: Registry, c: u16) -> int {
    choose|i: int| 0 <= i < s.len() && s[i].0 == c
}

/// The client's account state, or that of a new account when it has none.
pub open spec fn ledger_of(s: Registry, c: u16) -> Ledger {
    if has_client(s, c) {
        s[client_index(s, c)].1
    } else {
        Ledger::fresh()
    }
}

/// The registry after the record is applied to its client's account, which
/// is created on first reference.
pub open spec fn engine_step(s: Registry, r: TransactionRecord) -> Registry {
    let c = r.client_id;
    if has_client(s, c) {
        s.update(client_index(s, c), (c, ledger_of(s, c).apply(r)))
    } else {
        s.push((c, Ledger::fresh().apply(r)))
    }
}

/// The outcome of processing one record: the new registry, or the error
/// that rejects it.
pub open spec fn step_result(s: Registry, r: TransactionRecord) -> Result<Registry, EngineError> {
    if !r.valid() {
        Err(EngineError::InvalidRecord)
    } else if !ledger_of(s, r.client_id).apply(r).fits() {
        Err(EngineError::Overflow)
    } else {
        Ok(engine_step(s, r))
    }
}

/// Processing a sequence of records in order, stopping at the first error:
/// the registry reached and the result.
pub open spec fn run_records(s: Registry, rs: Seq<TransactionRecord>) -> (Registry, Result<(), EngineError>)
    decreases rs.len(),
{
    if rs.len() == 0 {
        (s, Ok(()))
    } else {
        match step_result(s, rs[0]) {
            Ok(next) => run_records(next, rs.skip(1)),
            Err(e) => (s, Err(e)),
        }
    }
}

/// Once a client's account is locked, a record for that client leaves the
/// whole registry as it was.
pub proof fn locked_client_is_frozen(s: Registry, r: TransactionRecord)
    requires
        distinct_clients(s),
        ledger_of(s, r.client_id).locked,
    ensures
        engine_step(s, r) == s,
{
    let c = r.client_id;
    if has_client(s, c) {
        assert(engine_step(s, r) =~= s);
    }
}

/// The registry held by a sequence of accounts.
pub open spec fn registry_of(accounts: Seq<Account>) -> Registry {
    accounts.map_values(|a: Account| (a.client_id, a@))
}

/// The position of the client's account, if it has one.
fn find_account(accounts: &Vec<Account>, client_id: u16) -> (r: Option<usize>)
    ensures
        match r {
            Some(i) => i < accounts@.len() && registry_of(accounts@)[i as int].0 == client_id,
            None => !has_client(registry_of(accounts@), client_id),
        },
{
    let mut i: usize = 0;
    while i < accounts.len()
        invariant
            i <= accounts@.len(),
            forall|j: int| 0 <= j < i ==> registry_of(accounts@)[j].0 != client_id,
        decreases accounts@.len() - i,
    {
        if accounts[i].client_id == client_id {
            return Some(i);
        }
        i = i + 1;
    }
    None
}

/// Applies transaction records to a registry of accounts, one account per
/// client id, created on demand.
pub struct TransactionEngine {
    accounts: Vec<Account>,
}

impl View for TransactionEngine {
    type V = Registry;

    closed spec fn view(&self) -> Registry {
        registry_of(self.accounts@)
    }
}

impl TransactionEngine {
    /// At most one account per client id.
    #[verifier::type_invariant]
    spec fn one_account_per_client(&self) -> bool {
        distinct_clients(self@)
    }

    /// An engine with no accounts.
    pub fn new() -> (r: Self)
        ensures
            r@ == Seq::<(u16, Ledger)>::empty(),
    {
        let r = TransactionEngine { accounts: Vec::new() };
        assert(r@ =~= Seq::<(u16, Ledger)>::empty());
        r
    }

    /// Processes a single record: rejects it when it is malformed, otherwise
    /// applies it to its client's account, creating the account if needed.
    /// On an error nothing changes.
    pub fn process_transaction(&mut self, tx: &TransactionRecord) -> (r: Result<(), EngineError>)
        ensures
            distinct_clients(old(self)@),
            distinct_clients(final(self)@),
            match step_result(old(self)@, *tx) {
                Ok(s) => r == Ok::<(), EngineError>(()) && final(self)@ == s,
                Err(e) => r == Err::<(), EngineError>(e) && final(self)@ == old(self)@,
            },
    {
        proof {
            use_type_invariant(&*self);
        }
        if !tx.is_valid() {
            return Err(EngineError::InvalidRecord);
        }
        let ghost s = self@;
        let c = tx.client_id;
        let mut accounts: Vec<Account> = Vec::new();
        std::mem::swap(&mut accounts, &mut self.accounts);
        assert(registry_of(accounts@) == s);
        let result = match find_account(&accounts, c) {
            Some(i) => {
                proof {
                    assert(has_client(s, c));
                    assert(client_index(s, c) == i) by {
                        let k = client_index(s, c);
                        if k != i {
                            if k < i {
                                assert(s[k].0 != s[i as int].0);
                            } else {
                                assert(s[i as int].0 != s[k].0);
                            }
                        }
                    }
                    assert(accounts@[i as int]@ == ledger_of(s, c));
                }
                if accounts[i].apply(tx) {
                    assert(registry_of(accounts@) =~= engine_step(s, *tx));
                    Ok(())
                } else {
                    assert(registry_of(accounts@) =~= s);
                    Err(EngineError::Overflow)
                }
            },
            None => {
                let mut account = Account::new(c);
                if account.apply(tx) {
                    accounts.push(account);
                    assert(registry_of(accounts@) =~= engine_step(s, *tx));
                    Ok(())
                } else {
                    Err(EngineError::Overflow)
                }
            },
        };
        self.accounts = accounts;
        result
    }

    /// Processes the records in order and stops at the first error, which it
    /// returns; what was applied before it stands.
    pub fn process_records(&mut self, records: &Vec<TransactionRecord>) -> (r: Result<(), EngineError>)
        ensures
            distinct_clients(final(self)@),
            (final(self)@, r) == run_records(old(self)@, records@),
    {
        proof {
            use_type_invariant(&*self);
        }
        let mut i: usize = 0;
        assert(records@.skip(0) =~= records@);
        while i < records.len()
            invariant
                i <= records@.len(),
                run_records(old(self)@, records@) == run_records(self@, records@.skip(i as int)),
            decreases records@.len() - i,
        {
            let ghost before = self@;
            let result = self.process_transaction(&records[i]);
            assert(records@.skip(i as int)[0] == records@[i as int]);
            match result {
                Err(e) => {
                    proof {
                        use_type_invariant(&*self);
                    }
                    return Err(e);
                },
                Ok(()) => {
                    assert(records@.skip(i as int).skip(1) =~= records@.skip(i + 1));
                },
            }
            i = i + 1;
        }
        assert(records@.skip(i as int).len() == 0);
        proof {
            use_type_invariant(&*self);
        }
        Ok(())
    }

    /// A snapshot of every account, in the order the clients first appeared.
    /// Meant to be taken once processing is done.
    pub fn accounts(&self) -> (r: Vec<Account>)
        ensures
            distinct_clients(self@),
            r@.len() == self@.len(),
            forall|i: int| 0 <= i < r@.len() ==> (#[trigger] r@[i]).client_id == self@[i].0 && r@[i]@ == self@[i].1,
    {
        proof {
            use_type_invariant(self);
        }
        let mut r: Vec<Account> = Vec::new();
        let mut i: usize = 0;
        while i < self.accounts.len()
            invariant
                i <= self.accounts@.len(),
                r@.len() == i,
                forall|j: int| 0 <= j < i ==> (#[trigger] r@[j]).client_id == self@[j].0 && r@[j]@ == self@[j].1,
            decreases self.accounts@.len() - i,
        {
            r.push(self.accounts[i].duplicate());
            i = i + 1;
        }
        r
    }
}

} // verus!
