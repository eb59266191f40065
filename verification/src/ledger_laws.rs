//! What holds of the records of a wallet through every step of a payment:
//! a locked output is bound to exactly one log entry, and that entry is not
//! cancelled.

use vstd::prelude::*;
use crate::builder::wallet_with_output;
use crate::keychain::Identifier;
use crate::ledger::{
    PostReport, after_lock, after_repair, already_locked, consumed, dropped, freed, lock_error,
    marked_posted, posted_entry, repaired_output, repost_candidate, reposted, settled, undone_entry,
};
use crate::payment_proof::TxProofView;
use crate::seqs::{indices_where, lemma_indices_where_sound};
use crate::slate::SlateView;
use crate::tx::{
    after_cancel, after_store, after_update_message, cancel_query, cancellable, finalized_entries,
    is_finalized_entry, with_new_payments,
};
use crate::types::{ContextView, OutputData, OutputStatus, TxLogEntryView, is_active};
use crate::wallet::{
    ChainOutput, WalletView, belongs_to, is_confirmed_by, matching_txs, refreshed, tx_matches,
};

verus! {

/// Whether no two log entries have the same id.
pub open spec fn ids_distinct(log: Seq<TxLogEntryView>) -> bool {
    forall|i: int, j: int|
        0 <= i < j < log.len() ==> (#[trigger] log[i]).id != (#[trigger] log[j]).id
}

/// Whether every log entry has an id below the next one to be given.
pub open spec fn ids_below(log: Seq<TxLogEntryView>, next: u32) -> bool {
    forall|i: int| 0 <= i < log.len() ==> (#[trigger] log[i]).id < next
}

/// Whether the log entry at position `i` is the one that holds an output
/// locked: the output is bound to it, both belong to one account, and the
/// entry is not cancelled.
pub open spec fn holds_lock(log: Seq<TxLogEntryView>, o: OutputData, i: int) -> bool {
    &&& 0 <= i < log.len()
    &&& o.tx_log_entry == Some(log[i].id)
    &&& log[i].parent_key_id == o.root_key_id
    &&& is_active(log[i])
}

/// Whether every locked output is held by a log entry.
pub open spec fn locks_held(w: WalletView) -> bool {
    forall|j: int|
        0 <= j < w.outputs.len() && (#[trigger] w.outputs[j]).status == OutputStatus::Locked
            ==> exists|i: int| holds_lock(w.tx_log, w.outputs[j], i)
}

/// Whether the records are consistent: log ids are distinct and below the
/// next one, and every locked output is held by a log entry.
pub open spec fn consistent(w: WalletView) -> bool {
    &&& ids_distinct(w.tx_log)
    &&& ids_below(w.tx_log, w.next_tx_log_id)
    &&& locks_held(w)
}

/// Records without outputs and log entries are consistent.
pub proof fn lemma_empty_records_consistent(w: WalletView)
    requires
        w.outputs.len() == 0,
        w.tx_log.len() == 0,
    ensures
        consistent(w),
{
}

/// Whether records are consistent depends on the outputs, the log and the
/// next log id alone.
pub proof fn lemma_consistent_depends(w: WalletView, v: WalletView)
    requires
        w.outputs == v.outputs,
        w.tx_log == v.tx_log,
        w.next_tx_log_id == v.next_tx_log_id,
    ensures
        consistent(w) == consistent(v),
{
    if consistent(w) {
        assert forall|j: int|
            0 <= j < v.outputs.len() && (#[trigger] v.outputs[j]).status == OutputStatus::Locked
            implies exists|i: int| holds_lock(v.tx_log, v.outputs[j], i) by {
            let i = choose|i: int| holds_lock(w.tx_log, w.outputs[j], i);
            assert(holds_lock(v.tx_log, v.outputs[j], i));
        }
    }
    if consistent(v) {
        assert forall|j: int|
            0 <= j < w.outputs.len() && (#[trigger] w.outputs[j]).status == OutputStatus::Locked
            implies exists|i: int| holds_lock(w.tx_log, w.outputs[j], i) by {
            let i = choose|i: int| holds_lock(v.tx_log, v.outputs[j], i);
            assert(holds_lock(w.tx_log, w.outputs[j], i));
        }
    }
}

/// In consistent records, the log entry that holds an output locked is the
/// only one.
pub proof fn lemma_one_holder(w: WalletView, o: OutputData, i: int, j: int)
    requires
        consistent(w),
        holds_lock(w.tx_log, o, i),
        holds_lock(w.tx_log, o, j),
    ensures
        i == j,
{
    if i < j {
        assert(w.tx_log[i].id != w.tx_log[j].id);
    } else if j < i {
        assert(w.tx_log[j].id != w.tx_log[i].id);
    }
}

/// Locking the inputs of a slate keeps the records consistent.
pub proof fn lemma_lock_keeps_consistent(w: WalletView, s: SlateView, c: ContextView, now: i64)
    requires
        consistent(w),
        lock_error(w, s, c) is None,
    ensures
        consistent(after_lock(w, s, c, now)),
{
    let w1 = after_lock(w, s, c, now);
    if !already_locked(w, s.id, c.parent_key_id) {
        let n = w.tx_log.len() as int;
        assert forall|i: int, j: int| 0 <= i < j < w1.tx_log.len() implies (
        #[trigger] w1.tx_log[i]).id != (#[trigger] w1.tx_log[j]).id by {
            if j < n {
                assert(w1.tx_log[i] == w.tx_log[i] && w1.tx_log[j] == w.tx_log[j]);
            } else {
                assert(w1.tx_log[i] == w.tx_log[i]);
                assert(w.tx_log[i].id < w.next_tx_log_id);
            }
        }
        assert forall|i: int| 0 <= i < w1.tx_log.len() implies (#[trigger] w1.tx_log[i]).id
            < w1.next_tx_log_id by {
            if i < n {
                assert(w1.tx_log[i] == w.tx_log[i]);
            }
        }
        assert forall|j: int|
            0 <= j < w1.outputs.len() && (#[trigger] w1.outputs[j]).status
                == OutputStatus::Locked implies exists|i: int|
            holds_lock(w1.tx_log, w1.outputs[j], i) by {
            if j < w.outputs.len() {
                let o = w.outputs[j];
                if consumed(o, c.parent_key_id, s.tx.inputs) {
                    assert(holds_lock(w1.tx_log, w1.outputs[j], n));
                } else {
                    assert(w1.outputs[j] == o);
                    let i = choose|i: int| holds_lock(w.tx_log, o, i);
                    assert(w1.tx_log[i] == w.tx_log[i]);
                    assert(holds_lock(w1.tx_log, w1.outputs[j], i));
                }
            }
        }
    }
}

/// Cancelling a transaction keeps the records consistent.
pub proof fn lemma_cancel_keeps_consistent(w: WalletView, i: int)
    requires
        consistent(w),
        0 <= i < w.tx_log.len(),
    ensures
        consistent(after_cancel(w, i)),
{
    let w1 = after_cancel(w, i);
    let t = w.tx_log[i];
    assert forall|a: int, b: int| 0 <= a < b < w1.tx_log.len() implies (#[trigger] w1.tx_log[a]).id
        != (#[trigger] w1.tx_log[b]).id by {
        assert(w1.tx_log[a].id == w.tx_log[a].id);
        assert(w1.tx_log[b].id == w.tx_log[b].id);
    }
    assert forall|a: int| 0 <= a < w1.tx_log.len() implies (#[trigger] w1.tx_log[a]).id
        < w1.next_tx_log_id by {
        assert(w1.tx_log[a].id == w.tx_log[a].id);
    }
    assert forall|j: int|
        0 <= j < w1.outputs.len() && (#[trigger] w1.outputs[j]).status == OutputStatus::Locked
        implies exists|k: int| holds_lock(w1.tx_log, w1.outputs[j], k) by {
        let o = w.outputs[j];
        assert(!belongs_to(o, t.id, t.parent_key_id));
        assert(w1.outputs[j] == o);
        let k = choose|k: int| holds_lock(w.tx_log, o, k);
        if k == i {
            assert(belongs_to(o, t.id, t.parent_key_id));
        } else {
            assert(w1.tx_log[k] == w.tx_log[k]);
            assert(holds_lock(w1.tx_log, w1.outputs[j], k));
        }
    }
}

/// Marking a transaction as posted keeps the records consistent.
pub proof fn lemma_posted_keeps_consistent(w: WalletView, slate_id: u128)
    requires
        consistent(w),
    ensures
        consistent(marked_posted(w, slate_id)),
{
    let w1 = marked_posted(w, slate_id);
    assert forall|a: int, b: int| 0 <= a < b < w1.tx_log.len() implies (#[trigger] w1.tx_log[a]).id
        != (#[trigger] w1.tx_log[b]).id by {
        assert(w1.tx_log[a].id == w.tx_log[a].id);
        assert(w1.tx_log[b].id == w.tx_log[b].id);
    }
    assert forall|a: int| 0 <= a < w1.tx_log.len() implies (#[trigger] w1.tx_log[a]).id
        < w1.next_tx_log_id by {
        assert(w1.tx_log[a].id == w.tx_log[a].id);
    }
    assert forall|j: int|
        0 <= j < w1.outputs.len() && (#[trigger] w1.outputs[j]).status == OutputStatus::Locked
        implies exists|k: int| holds_lock(w1.tx_log, w1.outputs[j], k) by {
        let k = choose|k: int| holds_lock(w.tx_log, w.outputs[j], k);
        assert(w1.tx_log[k] == posted_entry(w.tx_log[k], slate_id));
        assert(holds_lock(w1.tx_log, w1.outputs[j], k));
    }
}

/// Whatever the node answers while a transaction is posted, the records
/// stay consistent.
pub proof fn lemma_post_keeps_consistent(w: WalletView, slate_id: u128, report: PostReport)
    requires
        consistent(w),
    ensures
        consistent(settled(w, slate_id, report)),
{
    if report.first {
        lemma_posted_keeps_consistent(w, slate_id);
    } else {
        let w1 = if report.repost == Some(true) {
            reposted(w, slate_id)
        } else {
            w
        };
        if report.repost == Some(true) {
            match repost_candidate(w, slate_id) {
                Some(i) => {
                    lemma_posted_keeps_consistent(w, w.tx_log[i].tx_slate_id->Some_0);
                },
                None => {},
            }
        }
        if report.retry == Some(true) {
            lemma_posted_keeps_consistent(w1, slate_id);
        } else {
            let found = matching_txs(
                w1.tx_log,
                cancel_query(w1.parent_key_id, None, Some(slate_id)),
            );
            if found.len() == 1 && cancellable(w1.tx_log[found[0]]) {
                lemma_indices_where_sound(
                    w1.tx_log,
                    |t: TxLogEntryView|
                        tx_matches(
                            t,
                            cancel_query(w1.parent_key_id, None, Some(slate_id)),
                        ),
                );
                lemma_cancel_keeps_consistent(w1, found[0]);
            }
        }
    }
}

/// Bringing the records in line with the chain keeps them consistent.
pub proof fn lemma_refresh_keeps_consistent(
    w: WalletView,
    parent_key_id: Identifier,
    chain: Seq<ChainOutput>,
    now: i64,
)
    requires
        consistent(w),
    ensures
        consistent(refreshed(w, parent_key_id, chain, now)),
{
    let w1 = refreshed(w, parent_key_id, chain, now);
    assert forall|a: int, b: int| 0 <= a < b < w1.tx_log.len() implies (#[trigger] w1.tx_log[a]).id
        != (#[trigger] w1.tx_log[b]).id by {
        assert(w1.tx_log[a].id == w.tx_log[a].id);
        assert(w1.tx_log[b].id == w.tx_log[b].id);
    }
    assert forall|a: int| 0 <= a < w1.tx_log.len() implies (#[trigger] w1.tx_log[a]).id
        < w1.next_tx_log_id by {
        assert(w1.tx_log[a].id == w.tx_log[a].id);
    }
    assert forall|j: int|
        0 <= j < w1.outputs.len() && (#[trigger] w1.outputs[j]).status == OutputStatus::Locked
        implies exists|k: int| holds_lock(w1.tx_log, w1.outputs[j], k) by {
        let o = w.outputs[j];
        assert(o.status == OutputStatus::Locked);
        let k = choose|k: int| holds_lock(w.tx_log, o, k);
        assert(w1.tx_log[k].id == w.tx_log[k].id);
        assert(holds_lock(w1.tx_log, w1.outputs[j], k));
    }
}

/// Recording a received payment keeps the records consistent.
pub proof fn lemma_receive_keeps_consistent(
    w: WalletView,
    s: SlateView,
    parent_key_id: Identifier,
    now: i64,
)
    requires
        consistent(w),
        w.next_tx_log_id < u32::MAX,
    ensures
        consistent(wallet_with_output(w, s, parent_key_id, now)),
{
    let w1 = wallet_with_output(w, s, parent_key_id, now);
    let n = w.tx_log.len() as int;
    assert forall|a: int, b: int| 0 <= a < b < w1.tx_log.len() implies (#[trigger] w1.tx_log[a]).id
        != (#[trigger] w1.tx_log[b]).id by {
        assert(w1.tx_log[a] == w.tx_log[a]);
        if b < n {
            assert(w1.tx_log[b] == w.tx_log[b]);
        } else {
            assert(w.tx_log[a].id < w.next_tx_log_id);
        }
    }
    assert forall|a: int| 0 <= a < w1.tx_log.len() implies (#[trigger] w1.tx_log[a]).id
        < w1.next_tx_log_id by {
        if a < n {
            assert(w1.tx_log[a] == w.tx_log[a]);
        }
    }
    assert forall|j: int|
        0 <= j < w1.outputs.len() && (#[trigger] w1.outputs[j]).status == OutputStatus::Locked
        implies exists|k: int| holds_lock(w1.tx_log, w1.outputs[j], k) by {
        assert(j < w.outputs.len());
        assert(w1.outputs[j] == w.outputs[j]);
        let k = choose|k: int| holds_lock(w.tx_log, w.outputs[j], k);
        assert(w1.tx_log[k] == w.tx_log[k]);
        assert(holds_lock(w1.tx_log, w1.outputs[j], k));
    }
}

/// Storing the body and the proof of a finalized slate keeps the records
/// consistent.
pub proof fn lemma_store_keeps_consistent(
    w: WalletView,
    s: SlateView,
    proof_view: Option<TxProofView>,
    is_invoiced: bool,
)
    requires
        consistent(w),
        finalized_entries(w, s.id, is_invoiced).len() > 0,
    ensures
        consistent(after_store(w, s, proof_view, is_invoiced)),
{
    let w1 = after_store(w, s, proof_view, is_invoiced);
    lemma_indices_where_sound(
        w.tx_log,
        |t: TxLogEntryView| is_finalized_entry(t, s.id, is_invoiced),
    );
    assert(w1.tx_log.len() == w.tx_log.len());
    assert forall|a: int, b: int| 0 <= a < b < w1.tx_log.len() implies (#[trigger] w1.tx_log[a]).id
        != (#[trigger] w1.tx_log[b]).id by {
        assert(w1.tx_log[a].id == w.tx_log[a].id);
        assert(w1.tx_log[b].id == w.tx_log[b].id);
    }
    assert forall|a: int| 0 <= a < w1.tx_log.len() implies (#[trigger] w1.tx_log[a]).id
        < w1.next_tx_log_id by {
        assert(w1.tx_log[a].id == w.tx_log[a].id);
    }
    assert forall|j: int|
        0 <= j < w1.outputs.len() && (#[trigger] w1.outputs[j]).status == OutputStatus::Locked
        implies exists|k: int| holds_lock(w1.tx_log, w1.outputs[j], k) by {
        let k = choose|k: int| holds_lock(w.tx_log, w.outputs[j], k);
        assert(w1.tx_log[k].id == w.tx_log[k].id);
        assert(holds_lock(w1.tx_log, w1.outputs[j], k));
    }
}

/// Writing to the log entries of a finalized slate, and recording its
/// payments, keeps the records consistent.
pub proof fn lemma_finalize_keeps_consistent(
    w: WalletView,
    s: SlateView,
    parent_key_id: Identifier,
    grinrelay_key_path: Option<u64>,
)
    requires
        consistent(w),
    ensures
        consistent(after_update_message(w, s, grinrelay_key_path)),
        consistent(with_new_payments(w, s, parent_key_id)),
{
    let w1 = after_update_message(w, s, grinrelay_key_path);
    assert forall|a: int, b: int| 0 <= a < b < w1.tx_log.len() implies (#[trigger] w1.tx_log[a]).id
        != (#[trigger] w1.tx_log[b]).id by {
        assert(w1.tx_log[a].id == w.tx_log[a].id);
        assert(w1.tx_log[b].id == w.tx_log[b].id);
    }
    assert forall|a: int| 0 <= a < w1.tx_log.len() implies (#[trigger] w1.tx_log[a]).id
        < w1.next_tx_log_id by {
        assert(w1.tx_log[a].id == w.tx_log[a].id);
    }
    assert forall|j: int|
        0 <= j < w1.outputs.len() && (#[trigger] w1.outputs[j]).status == OutputStatus::Locked
        implies exists|k: int| holds_lock(w1.tx_log, w1.outputs[j], k) by {
        let k = choose|k: int| holds_lock(w.tx_log, w.outputs[j], k);
        assert(w1.tx_log[k].id == w.tx_log[k].id);
        assert(holds_lock(w1.tx_log, w1.outputs[j], k));
    }
    let w2 = with_new_payments(w, s, parent_key_id);
    assert forall|j: int|
        0 <= j < w2.outputs.len() && (#[trigger] w2.outputs[j]).status == OutputStatus::Locked
        implies exists|k: int| holds_lock(w2.tx_log, w2.outputs[j], k) by {
        let k = choose|k: int| holds_lock(w.tx_log, w.outputs[j], k);
        assert(holds_lock(w2.tx_log, w2.outputs[j], k));
    }
}

/// A repair against what the chain shows keeps the records consistent:
/// whatever a transaction that the repair undoes had locked is free again.
pub proof fn lemma_repair_keeps_consistent(
    w: WalletView,
    parent_key_id: Identifier,
    chain: Seq<ChainOutput>,
    delete_unconfirmed: bool,
)
    requires
        consistent(w),
    ensures
        consistent(after_repair(w, parent_key_id, chain, delete_unconfirmed)),
{
    let w1 = after_repair(w, parent_key_id, chain, delete_unconfirmed);
    let keep = |o: OutputData|
        !dropped(o, parent_key_id, chain, delete_unconfirmed);
    let kept = indices_where(w.outputs, keep);
    lemma_indices_where_sound(w.outputs, keep);
    assert forall|a: int, b: int| 0 <= a < b < w1.tx_log.len() implies (#[trigger] w1.tx_log[a]).id
        != (#[trigger] w1.tx_log[b]).id by {
        assert(w1.tx_log[a].id == w.tx_log[a].id);
        assert(w1.tx_log[b].id == w.tx_log[b].id);
    }
    assert forall|a: int| 0 <= a < w1.tx_log.len() implies (#[trigger] w1.tx_log[a]).id
        < w1.next_tx_log_id by {
        assert(w1.tx_log[a].id == w.tx_log[a].id);
    }
    assert forall|j: int|
        0 <= j < w1.outputs.len() && (#[trigger] w1.outputs[j]).status == OutputStatus::Locked
        implies exists|k: int| holds_lock(w1.tx_log, w1.outputs[j], k) by {
        let o = w.outputs[kept[j]];
        assert(w1.outputs[j] == repaired_output(
            o,
            w.outputs,
            parent_key_id,
            chain,
            delete_unconfirmed,
        ));
        // the output was locked before and the repair has not freed it
        assert(o.status == OutputStatus::Locked);
        let k = choose|k: int| holds_lock(w.tx_log, o, k);
        let t = w.tx_log[k];
        if undone_entry(t, w.outputs, parent_key_id, chain, delete_unconfirmed) {
            assert(freed(o, w.outputs, parent_key_id, chain, delete_unconfirmed));
        }
        assert(w1.tx_log[k] == t);
        assert(holds_lock(w1.tx_log, w1.outputs[j], k));
    }
}

/// Whether the second log keeps the entries of the first, each confirmed
/// exactly if it was, and whatever it has more is not confirmed.
pub open spec fn confirms_nothing(before: Seq<TxLogEntryView>, after: Seq<TxLogEntryView>) -> bool {
    &&& before.len() <= after.len()
    &&& forall|i: int|
        0 <= i < before.len() ==> (#[trigger] after[i]).confirmed == before[i].confirmed
    &&& forall|i: int| before.len() <= i < after.len() ==> !(#[trigger] after[i]).confirmed
}

/// No step of a payment marks a transaction as confirmed: not locking, not
/// receiving, not cancelling, not posting, and not what follows a
/// finalization.
pub proof fn lemma_steps_confirm_nothing(
    w: WalletView,
    s: SlateView,
    c: ContextView,
    parent_key_id: Identifier,
    now: i64,
    i: int,
    slate_id: u128,
    report: PostReport,
    grinrelay_key_path: Option<u64>,
)
    requires
        0 <= i < w.tx_log.len(),
    ensures
        confirms_nothing(w.tx_log, after_lock(w, s, c, now).tx_log),
        confirms_nothing(w.tx_log, wallet_with_output(w, s, parent_key_id, now).tx_log),
        confirms_nothing(w.tx_log, after_cancel(w, i).tx_log),
        confirms_nothing(w.tx_log, marked_posted(w, slate_id).tx_log),
        confirms_nothing(w.tx_log, settled(w, slate_id, report).tx_log),
        confirms_nothing(w.tx_log, after_update_message(w, s, grinrelay_key_path).tx_log),
{
    let w1 = if report.repost == Some(true) {
        reposted(w, slate_id)
    } else {
        w
    };
    assert(confirms_nothing(w.tx_log, w1.tx_log));
    let found = matching_txs(
        w1.tx_log,
        cancel_query(w1.parent_key_id, None, Some(slate_id)),
    );
    if found.len() == 1 {
        lemma_indices_where_sound(
            w1.tx_log,
            |t: TxLogEntryView|
                tx_matches(
                    t,
                    cancel_query(w1.parent_key_id, None, Some(slate_id)),
                ),
        );
    }
}

/// Bringing the records in line with the chain confirms a transaction only
/// on evidence: a transaction that is confirmed afterwards was confirmed
/// before, or the chain shows one of its unconfirmed outputs.
pub proof fn lemma_refresh_confirms_on_evidence(
    w: WalletView,
    parent_key_id: Identifier,
    chain: Seq<ChainOutput>,
    now: i64,
    i: int,
)
    requires
        0 <= i < w.tx_log.len(),
        refreshed(w, parent_key_id, chain, now).tx_log[i].confirmed,
    ensures
        w.tx_log[i].confirmed || is_confirmed_by(
            w.tx_log[i],
            w.outputs,
            parent_key_id,
            chain,
        ),
{
}

} // verus!
