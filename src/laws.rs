use vstd::prelude::*;

use crate::account::{Ledger, TransactionDetails};
use crate::transaction_record::TransactionRecord;
use crate::transaction_type::TransactionType;

verus! {

/// Every record of the sequence is a well-formed deposit.
pub open spec fn all_deposits(rs: Seq<TransactionRecord>) -> bool {
    forall|i: int| 0 <= i < rs.len() ==> (#[trigger] rs[i]).tx_type == TransactionType::Deposit && rs[i].valid()
}

/// The sum of the amounts carried by the records.
pub open spec fn sum_amounts(rs: Seq<TransactionRecord>) -> int
    decreases rs.len(),
{
    if rs.len() == 0 {
        0
    } else {
        rs[0].amount_or_zero() + sum_amounts(rs.skip(1))
    }
}

/// Deposits on an unlocked account add their amounts to the available
/// balance and touch neither the held balance nor the lock.
pub proof fn deposits_accumulate(l: Ledger, rs: Seq<TransactionRecord>)
    requires
        !l.locked,
        all_deposits(rs),
    ensures
        l.apply_all(rs).available == l.available + sum_amounts(rs),
        l.apply_all(rs).held == l.held,
        !l.apply_all(rs).locked,
    decreases rs.len(),
{
    if rs.len() > 0 {
        assert(rs[0].tx_type == TransactionType::Deposit);
        let rest = rs.skip(1);
        assert forall|i: int| 0 <= i < rest.len() implies (#[trigger] rest[i]).tx_type
            == TransactionType::Deposit && rest[i].valid() by {
            assert(rest[i] == rs[i + 1]);
        }
        deposits_accumulate(l.apply(rs[0]), rest);
    }
}

/// On a new account, a sequence of deposits leaves the sum of their amounts
/// available, nothing held, and the account unlocked.
pub proof fn deposits_from_fresh(rs: Seq<TransactionRecord>)
    requires
        all_deposits(rs),
    ensures
        Ledger::fresh().apply_all(rs).available == sum_amounts(rs),
        Ledger::fresh().apply_all(rs).held == 0,
        !Ledger::fresh().apply_all(rs).locked,
{
    deposits_accumulate(Ledger::fresh(), rs);
}

/// A withdrawal of more than the available balance changes neither balance
/// nor the lock; only its id is recorded, as for any withdrawal.
pub proof fn overdraft_is_refused(l: Ledger, r: TransactionRecord)
    requires
        r.tx_type == TransactionType::Withdraw,
        r.valid(),
        r.amount_or_zero() > l.available,
    ensures
        l.apply(r).available == l.available,
        l.apply(r).held == l.held,
        l.apply(r).locked == l.locked,
        l.apply(r).txs == if l.locked {
            l.txs
        } else {
            l.txs.insert(r.transaction_id, TransactionDetails { amount: r.amount_or_zero() as u64, disputed: false })
        },
{
}

/// A dispute followed by a resolution of the same transaction, where that
/// transaction is not already under dispute, restores the account exactly.
pub proof fn dispute_then_resolve_restores(l: Ledger, d: TransactionRecord, r: TransactionRecord)
    requires
        d.tx_type == TransactionType::Dispute,
        r.tx_type == TransactionType::Resolve,
        d.transaction_id == r.transaction_id,
        !l.is_disputed(d.transaction_id),
    ensures
        l.apply(d).apply(r) == l,
{
    let id = d.transaction_id;
    if !l.locked && l.txs.contains_key(id) {
        assert(l.apply(d).apply(r).txs =~= l.txs);
    }
}

/// A dispute followed by a chargeback of a recorded transaction locks an
/// unlocked account.
pub proof fn dispute_then_chargeback_locks(l: Ledger, d: TransactionRecord, c: TransactionRecord)
    requires
        d.tx_type == TransactionType::Dispute,
        c.tx_type == TransactionType::Chargeback,
        d.transaction_id == c.transaction_id,
        !l.locked,
        l.txs.contains_key(d.transaction_id),
    ensures
        l.apply(d).apply(c).locked,
        !l.is_disputed(d.transaction_id) ==> l.apply(d).apply(c).available == l.available
            - l.txs[d.transaction_id].amount && l.apply(d).apply(c).held == l.held,
{
}

/// A locked account stays exactly as it is, whatever records follow.
pub proof fn locked_is_final(l: Ledger, rs: Seq<TransactionRecord>)
    requires
        l.locked,
    ensures
        l.apply_all(rs) == l,
    decreases rs.len(),
{
    if rs.len() > 0 {
        locked_is_final(l.apply(rs[0]), rs.skip(1));
    }
}

/// Disputing a transaction that is already under dispute changes nothing.
pub proof fn redispute_is_noop(l: Ledger, d: TransactionRecord)
    requires
        d.tx_type == TransactionType::Dispute,
        l.is_disputed(d.transaction_id),
    ensures
        l.apply(d) == l,
{
}

/// Resolving or charging back a transaction that is not under dispute
/// changes nothing.
pub proof fn settling_undisputed_is_noop(l: Ledger, r: TransactionRecord)
    requires
        r.tx_type == TransactionType::Resolve || r.tx_type == TransactionType::Chargeback,
        !l.is_disputed(r.transaction_id),
    ensures
        l.apply(r) == l,
{
}


/// What a recorded transaction contributes to the held balance.
pub open spec fn held_part(d: TransactionDetails) -> int {
    if d.disputed {
        d.amount as int
    } else {
        0
    }
}

/// The sum of the amounts of the transactions under dispute.
pub open spec fn disputed_total(txs: Map<u32, TransactionDetails>) -> int
    decreases txs.dom().len(),
    when txs.dom().finite()
{
    if txs.dom().len() > 0 {
        let k = txs.dom().choose();
        held_part(txs[k]) + disputed_total(txs.remove(k))
    } else {
        0
    }
}

proof fn lemma_disputed_total_remove(m: Map<u32, TransactionDetails>, k: u32)
    requires
        m.dom().finite(),
        m.contains_key(k),
    ensures
        disputed_total(m) == held_part(m[k]) + disputed_total(m.remove(k)),
    decreases m.dom().len(),
{
    let j = m.dom().choose();
    if j != k {
        lemma_disputed_total_remove(m.remove(j), k);
        lemma_disputed_total_remove(m.remove(k), j);
        assert(m.remove(j).remove(k) =~= m.remove(k).remove(j));
    }
}

proof fn lemma_disputed_total_insert(m: Map<u32, TransactionDetails>, k: u32, d: TransactionDetails)
    requires
        m.dom().finite(),
    ensures
        disputed_total(m.insert(k, d)) == held_part(d) + disputed_total(m.remove(k)),
        m.contains_key(k) ==> disputed_total(m) == held_part(m[k]) + disputed_total(m.remove(k)),
        !m.contains_key(k) ==> disputed_total(m) == disputed_total(m.remove(k)),
{
    lemma_disputed_total_remove(m.insert(k, d), k);
    assert(m.insert(k, d).remove(k) =~= m.remove(k));
    if m.contains_key(k) {
        lemma_disputed_total_remove(m, k);
    } else {
        assert(m.remove(k) =~= m);
    }
}

/// A new account holds nothing and has nothing under dispute.
pub proof fn fresh_holds_nothing()
    ensures
        Ledger::fresh().held == disputed_total(Ledger::fresh().txs),
{
    assert(Ledger::fresh().txs.dom() =~= Set::<u32>::empty());
}

/// The held balance stays equal to the sum of the disputed amounts, for any
/// well-formed record except a deposit or withdrawal that reuses the id of a
/// transaction under dispute (it would clear the dispute mark while the
/// amount stays held).
pub proof fn held_tracks_disputes(l: Ledger, r: TransactionRecord)
    requires
        l.txs.dom().finite(),
        l.held == disputed_total(l.txs),
        r.valid(),
        (r.tx_type == TransactionType::Deposit || r.tx_type == TransactionType::Withdraw)
            ==> !l.is_disputed(r.transaction_id),
    ensures
        l.apply(r).txs.dom().finite(),
        l.apply(r).held == disputed_total(l.apply(r).txs),
{
    let id = r.transaction_id;
    let d = TransactionDetails { amount: r.amount_or_zero() as u64, disputed: false };
    lemma_disputed_total_insert(l.txs, id, d);
    if l.txs.contains_key(id) {
        let e = l.txs[id];
        lemma_disputed_total_insert(l.txs, id, TransactionDetails { amount: e.amount, disputed: true });
        lemma_disputed_total_insert(l.txs, id, TransactionDetails { amount: e.amount, disputed: false });
    }
}

} // verus!
