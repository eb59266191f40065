//! The ledger: locking the inputs of a transaction, broadcasting it, and
//! keeping the records in step with the chain.

use vstd::prelude::*;
use crate::clock::now_millis;
use crate::error::{ErrorKind, is_doesnt_exist};
use crate::group::{Point, commitment};
use crate::ids::{tx_ref_string, tx_ref_text};
use crate::keychain::{Identifier, Keychain, derived_key};
use crate::ledger_laws::{
    consistent, holds_lock, ids_below, ids_distinct, lemma_lock_keeps_consistent,
    lemma_post_keeps_consistent, lemma_posted_keeps_consistent, lemma_repair_keeps_consistent,
};
use crate::selection::{saturated, total_value, lemma_total_value_nonneg, lemma_total_value_push};
use crate::seqs::{
    indices_where, select, lemma_indices_where_complete, lemma_indices_where_map,
    lemma_indices_where_push, lemma_indices_where_sound,
};
use crate::slate::{Slate, SlateView, messages_of};
use crate::transaction::{Input, Transaction, input_commits};
use crate::tx::{
    after_cancel, cancel_query, cancel_tx, cancellable, lemma_proof_position,
    lemma_stored_position, proof_position, stored_position,
};
use crate::types::{
    Context, ContextView, KeyedAmount, OutputData, OutputStatus, TxLogEntry, TxLogEntryType,
    TxLogEntryView, is_active, new_log_entry,
};
use crate::wallet::{
    ChainOutput, NodeClient, StoredTx, StoredTxView, Wallet, WalletView, belongs_to,
    cancelled_entry, chain_height_of, contains_id, find_on_chain, matching_txs, positions,
};

verus! {

/// Whether a log entry is that of the payment that an account makes with a
/// slate.
pub open spec fn is_send_of(t: TxLogEntryView, slate_id: u128, parent_key_id: Identifier) -> bool {
    t.tx_slate_id == Some(slate_id) && t.tx_type == TxLogEntryType::TxSent && t.parent_key_id
        == parent_key_id
}

/// Whether the log holds the payment that an account makes with a slate.
pub open spec fn already_locked(w: WalletView, slate_id: u128, parent_key_id: Identifier) -> bool {
    exists|i: int|
        0 <= i < w.tx_log.len() && is_send_of(#[trigger] w.tx_log[i], slate_id, parent_key_id)
}

/// Whether an output of an account is among the inputs of a transaction.
pub open spec fn consumed(o: OutputData, parent_key_id: Identifier, inputs: Seq<Input>) -> bool {
    o.root_key_id == parent_key_id && input_commits(inputs).contains(o.commit)
}

/// The positions of the outputs of the account that the slate spends.
pub open spec fn consumed_positions(w: WalletView, s: SlateView, parent_key_id: Identifier) -> Seq<
    int,
> {
    indices_where(w.outputs, |o: OutputData| consumed(o, parent_key_id, s.tx.inputs))
}

/// Whether every output of the account that the slate spends is free to
/// spend.
pub open spec fn inputs_free(w: WalletView, s: SlateView, parent_key_id: Identifier) -> bool {
    forall|i: int|
        0 <= i < w.outputs.len() && consumed(#[trigger] w.outputs[i], parent_key_id, s.tx.inputs)
            ==> w.outputs[i].status == OutputStatus::Unspent
}

/// Why the inputs of a slate cannot be locked, if they cannot.
pub open spec fn lock_error(w: WalletView, s: SlateView, c: ContextView) -> Option<ErrorKind> {
    if already_locked(w, s.id, c.parent_key_id) {
        None
    } else if w.next_tx_log_id == u32::MAX {
        Some(ErrorKind::IndexExhausted)
    } else if !inputs_free(w, s, c.parent_key_id) {
        Some(ErrorKind::InputUnavailable)
    } else {
        None
    }
}

/// The sum of the values of a list of key paths.
pub open spec fn sum_amounts(ids: Seq<KeyedAmount>) -> int
    decreases ids.len(),
{
    if ids.len() == 0 {
        0
    } else {
        sum_amounts(ids.drop_last()) + ids.last().value
    }
}

/// An output after a transaction has locked it.
pub open spec fn locked_output(o: OutputData, log_id: u32) -> OutputData {
    OutputData { status: OutputStatus::Locked, tx_log_entry: Some(log_id), ..o }
}

/// The record of an output that a transaction of the wallet creates for
/// the wallet.
pub open spec fn created_output(
    k: KeyedAmount,
    parent_key_id: Identifier,
    keychain: Keychain,
    s: SlateView,
    log_id: u32,
) -> OutputData {
    OutputData {
        root_key_id: parent_key_id,
        key_id: k.key_id,
        commit: commitment(k.value, derived_key(keychain.master, k.key_id)),
        value: k.value,
        status: OutputStatus::Unconfirmed,
        height: s.height,
        lock_height: 0,
        is_coinbase: false,
        tx_log_entry: Some(log_id),
        slate_id: Some(s.id),
    }
}

/// The log entry of a payment whose inputs are locked.
pub open spec fn lock_entry(
    w: WalletView,
    s: SlateView,
    c: ContextView,
    now: i64,
) -> TxLogEntryView {
    let spent = consumed_positions(w, s, c.parent_key_id);
    TxLogEntryView {
        tx_slate_id: Some(s.id),
        stored_tx: Some(s.id),
        fee: Some(s.fee),
        num_inputs: spent.len() as usize,
        amount_debited: saturated(total_value(w.outputs, spent)),
        num_outputs: c.output_ids.len() as usize,
        amount_credited: saturated(sum_amounts(c.output_ids)),
        messages: Some(messages_of(s.participant_data)),
        ..new_log_entry(c.parent_key_id, TxLogEntryType::TxSent, w.next_tx_log_id, now)
    }
}

/// The records after the inputs of a slate were locked: the outputs that
/// the slate spends are locked and bound to a new log entry, the change is
/// recorded as unconfirmed, and the body of the transaction is stored. Where
/// the log already holds the payment, nothing changes.
pub open spec fn after_lock(w: WalletView, s: SlateView, c: ContextView, now: i64) -> WalletView {
    if already_locked(w, s.id, c.parent_key_id) {
        w
    } else {
        WalletView {
            outputs: w.outputs.map_values(
                |o: OutputData|
                    if consumed(o, c.parent_key_id, s.tx.inputs) {
                        locked_output(o, w.next_tx_log_id)
                    } else {
                        o
                    },
            ) + c.output_ids.map_values(
                |k: KeyedAmount|
                    created_output(k, c.parent_key_id, w.keychain, s, w.next_tx_log_id),
            ),
            tx_log: w.tx_log.push(lock_entry(w, s, c, now)),
            stored_txs: w.stored_txs.push(StoredTxView { slate_id: s.id, tx: s.tx }),
            next_tx_log_id: (w.next_tx_log_id + 1) as u32,
            ..w
        }
    }
}

fn spends(inputs: &Vec<Input>, commit: Point) -> (found: bool)
    ensures
        found == input_commits(inputs@).contains(commit),
{
    let mut i: usize = 0;
    while i < inputs.len()
        invariant
            i <= inputs.len(),
            forall|j: int| 0 <= j < i ==> (#[trigger] input_commits(inputs@)[j]) != commit,
        decreases inputs.len() - i,
    {
        if inputs[i].commit == commit {
            assert(input_commits(inputs@)[i as int] == commit);
            return true;
        }
        i = i + 1;
    }
    false
}

fn is_consumed(o: &OutputData, parent_key_id: &Identifier, inputs: &Vec<Input>) -> (ok: bool)
    ensures
        ok == consumed(*o, *parent_key_id, inputs@),
{
    o.root_key_id == *parent_key_id && spends(inputs, o.commit)
}

proof fn lemma_sum_amounts_push(ids: Seq<KeyedAmount>, k: KeyedAmount)
    ensures
        sum_amounts(ids.push(k)) == sum_amounts(ids) + k.value,
        0 <= sum_amounts(ids),
    decreases ids.len(),
{
    assert(ids.push(k).drop_last() =~= ids);
    if ids.len() > 0 {
        lemma_sum_amounts_push(ids.drop_last(), ids.last());
        assert(ids.drop_last().push(ids.last()) =~= ids);
    }
}

fn saturating_sum(a: u64, b: u64) -> (r: u64)
    ensures
        r == if a + b > u64::MAX {
            u64::MAX
        } else {
            (a + b) as u64
        },
{
    if a > u64::MAX - b {
        u64::MAX
    } else {
        a + b
    }
}

impl<C: NodeClient> Wallet<C> {
    /// Whether the log holds the payment that an account makes with a slate.
    pub fn is_locked_for(&self, slate_id: u128, parent_key_id: &Identifier) -> (found: bool)
        ensures
            found == already_locked(self@, slate_id, *parent_key_id),
    {
        let mut i: usize = 0;
        while i < self.tx_log.len()
            invariant
                i <= self.tx_log.len(),
                forall|j: int|
                    0 <= j < i
                        ==> !is_send_of(#[trigger] self@.tx_log[j], slate_id, *parent_key_id),
            decreases self.tx_log.len() - i,
        {
            let t = &self.tx_log[i];
            assert(t@ == self@.tx_log[i as int]);
            if t.tx_slate_id == Some(slate_id) && t.tx_type == TxLogEntryType::TxSent
                && t.parent_key_id == *parent_key_id {
                return true;
            }
            i = i + 1;
        }
        false
    }

    /// The number and the value of the outputs of an account that a slate
    /// spends, and whether all of them are free to spend.
    fn survey_inputs(&self, slate: &Slate, parent_key_id: &Identifier) -> (r: (usize, u64, bool))
        ensures
            r.0 == consumed_positions(self@, slate@, *parent_key_id).len(),
            r.1 == saturated(
                total_value(self@.outputs, consumed_positions(self@, slate@, *parent_key_id)),
            ),
            r.2 == inputs_free(self@, slate@, *parent_key_id),
    {
        let ghost f = |o: OutputData| consumed(o, *parent_key_id, slate@.tx.inputs);
        let mut count: usize = 0;
        let mut value: u64 = 0;
        let mut free = true;
        let mut i: usize = 0;
        while i < self.outputs.len()
            invariant
                i <= self.outputs.len(),
                f == (|o: OutputData| consumed(o, *parent_key_id, slate@.tx.inputs)),
                count == indices_where(self@.outputs.subrange(0, i as int), f).len(),
                count <= i,
                value == saturated(
                    total_value(
                        self@.outputs,
                        indices_where(self@.outputs.subrange(0, i as int), f),
                    ),
                ),
                free == (forall|j: int|
                    0 <= j < i && consumed(
                        #[trigger] self@.outputs[j],
                        *parent_key_id,
                        slate@.tx.inputs,
                    ) ==> self@.outputs[j].status == OutputStatus::Unspent),
            decreases self.outputs.len() - i,
        {
            let o = &self.outputs[i];
            proof {
                let prefix = self@.outputs.subrange(0, i as int);
                assert(self@.outputs.subrange(0, i as int + 1) =~= prefix.push(
                    self@.outputs[i as int],
                ));
                lemma_indices_where_push(prefix, f, self@.outputs[i as int]);
                lemma_total_value_push(self@.outputs, indices_where(prefix, f), i as int);
                lemma_total_value_nonneg(self@.outputs, indices_where(prefix, f));
            }
            if is_consumed(o, parent_key_id, &slate.tx.body.inputs) {
                count = count + 1;
                value = saturating_sum(value, o.value);
                if o.status != OutputStatus::Unspent {
                    free = false;
                }
            }
            i = i + 1;
        }
        proof {
            assert(self@.outputs.subrange(0, i as int) =~= self@.outputs);
        }
        (count, value, free)
    }

    /// Locks the outputs of the account that the slate spends and binds
    /// them to a new log entry, records the change that the context names,
    /// and stores the body of the transaction. Where the log already holds
    /// the payment, nothing changes.
    pub fn lock_outputs_at(&mut self, slate: &Slate, context: &Context, now: i64) -> (r: Result<
        (),
        ErrorKind,
    >)
        ensures
            final(self).client == old(self).client,
            match lock_error(old(self)@, slate@, context@) {
                Some(e) => r == Err::<(), ErrorKind>(e) && final(self)@ == old(self)@,
                None => r is Ok && final(self)@ == after_lock(old(self)@, slate@, context@, now),
            },
            consistent(old(self)@) ==> consistent(final(self)@),
    {
        proof {
            if consistent(old(self)@) && lock_error(old(self)@, slate@, context@) is None {
                lemma_lock_keeps_consistent(old(self)@, slate@, context@, now);
            }
        }
        let parent_key_id = context.parent_key_id;
        if self.is_locked_for(slate.id, &parent_key_id) {
            return Ok(());
        }
        if self.next_tx_log_id == u32::MAX {
            return Err(ErrorKind::IndexExhausted);
        }
        let (num_inputs, amount_debited, free) = self.survey_inputs(slate, &parent_key_id);
        if !free {
            return Err(ErrorKind::InputUnavailable);
        }
        let log_id = self.next_tx_log_id;
        let ghost w0 = self@;
        let ghost locked = w0.outputs.map_values(
            |o: OutputData|
                if consumed(o, parent_key_id, slate@.tx.inputs) {
                    locked_output(o, log_id)
                } else {
                    o
                },
        );
        let mut k: usize = 0;
        while k < self.outputs.len()
            invariant
                k <= self.outputs.len(),
                self.outputs.len() == w0.outputs.len(),
                forall|j: int| 0 <= j < k ==> (#[trigger] self.outputs@[j]) == locked[j],
                forall|j: int|
                    k <= j < self.outputs.len() ==> (#[trigger] self.outputs@[j]) == w0.outputs[j],
                locked == w0.outputs.map_values(
                    |o: OutputData|
                        if consumed(o, parent_key_id, slate@.tx.inputs) {
                            locked_output(o, log_id)
                        } else {
                            o
                        },
                ),
                self@ == (WalletView { outputs: self.outputs@, ..w0 }),
                self.client == old(self).client,
            decreases self.outputs.len() - k,
        {
            if is_consumed(&self.outputs[k], &parent_key_id, &slate.tx.body.inputs) {
                self.outputs[k].status = OutputStatus::Locked;
                self.outputs[k].tx_log_entry = Some(log_id);
            }
            k = k + 1;
        }
        assert(self.outputs@ =~= locked);
        let ghost created = context@.output_ids.map_values(
            |k: KeyedAmount| created_output(k, parent_key_id, w0.keychain, slate@, log_id),
        );
        let mut amount_credited: u64 = 0;
        let mut x: usize = 0;
        assert(self.outputs@ =~= locked + created.subrange(0, 0));
        assert(context@.output_ids.subrange(0, 0) =~= Seq::<KeyedAmount>::empty());
        while x < context.output_ids.len()
            invariant
                x <= context.output_ids.len(),
                created == context@.output_ids.map_values(
                    |k: KeyedAmount| created_output(k, parent_key_id, w0.keychain, slate@, log_id),
                ),
                self.outputs@ == locked + created.subrange(0, x as int),
                amount_credited == saturated(
                    sum_amounts(context@.output_ids.subrange(0, x as int)),
                ),
                self@ == (WalletView { outputs: self.outputs@, ..w0 }),
                self.client == old(self).client,
            decreases context.output_ids.len() - x,
        {
            let id = context.output_ids[x];
            proof {
                let prefix = context@.output_ids.subrange(0, x as int);
                assert(context@.output_ids.subrange(0, x as int + 1) =~= prefix.push(id));
                lemma_sum_amounts_push(prefix, id);
            }
            let commit = self.keychain.commit(id.value, &id.key_id);
            self.outputs.push(
                OutputData {
                    root_key_id: parent_key_id,
                    key_id: id.key_id,
                    commit,
                    value: id.value,
                    status: OutputStatus::Unconfirmed,
                    height: slate.height,
                    lock_height: 0,
                    is_coinbase: false,
                    tx_log_entry: Some(log_id),
                    slate_id: Some(slate.id),
                },
            );
            amount_credited = saturating_sum(amount_credited, id.value);
            assert(self.outputs@ =~= locked + created.subrange(0, x as int + 1));
            x = x + 1;
        }
        assert(created.subrange(0, x as int) =~= created);
        assert(context@.output_ids.subrange(0, x as int) =~= context@.output_ids);
        let mut entry = TxLogEntry::new(parent_key_id, TxLogEntryType::TxSent, log_id, now);
        entry.tx_slate_id = Some(slate.id);
        entry.stored_tx = Some(slate.id);
        entry.fee = Some(slate.fee);
        entry.num_inputs = num_inputs;
        entry.amount_debited = amount_debited;
        entry.num_outputs = context.output_ids.len();
        entry.amount_credited = amount_credited;
        entry.messages = Some(slate.participant_messages());
        assert(entry@ == lock_entry(w0, slate@, context@, now));
        let ghost log_before = self@.tx_log;
        let ghost stored_before = self@.stored_txs;
        self.tx_log.push(entry);
        let stored = StoredTx { slate_id: slate.id, tx: slate.tx.clone() };
        self.stored_txs.push(stored);
        self.next_tx_log_id = log_id + 1;
        assert(self@.tx_log =~= log_before.push(entry@));
        assert(self@.stored_txs =~= stored_before.push(stored@));
        Ok(())
    }

    /// Locks the inputs of a slate; the new log entry gets the time of the
    /// system clock.
    pub fn lock_outputs(&mut self, slate: &Slate, context: &Context) -> (r: Result<(), ErrorKind>)
        ensures
            final(self).client == old(self).client,
            match lock_error(old(self)@, slate@, context@) {
                Some(e) => r == Err::<(), ErrorKind>(e) && final(self)@ == old(self)@,
                None => r is Ok && exists|now: i64|
                    #![auto]
                    final(self)@ == after_lock(old(self)@, slate@, context@, now),
            },
            consistent(old(self)@) ==> consistent(final(self)@),
    {
        let now = now_millis();
        self.lock_outputs_at(slate, context, now)
    }
}

/// A log entry after its transaction was handed to a node.
pub open spec fn posted_entry(t: TxLogEntryView, slate_id: u128) -> TxLogEntryView {
    if t.tx_slate_id == Some(slate_id) && t.tx_type == TxLogEntryType::TxSent {
        TxLogEntryView { posted: Some(true), ..t }
    } else {
        t
    }
}

/// The records after the sent transaction of a slate was handed to a node.
pub open spec fn marked_posted(w: WalletView, slate_id: u128) -> WalletView {
    WalletView {
        tx_log: w.tx_log.map_values(|t: TxLogEntryView| posted_entry(t, slate_id)),
        ..w
    }
}

/// Whether the body of a slate is stored.
pub open spec fn has_stored(w: WalletView, slate_id: u128) -> bool {
    stored_position(w.stored_txs, slate_id) < w.stored_txs.len()
}

/// Whether a log entry is that of a transaction that can be broadcast
/// again beside the current one: it was sent with another slate, is not
/// confirmed, and its body is stored.
pub open spec fn repostable(t: TxLogEntryView, w: WalletView, current: u128) -> bool {
    &&& t.tx_type == TxLogEntryType::TxSent
    &&& !t.confirmed
    &&& t.tx_slate_id is Some
    &&& t.tx_slate_id != Some(current)
    &&& has_stored(w, t.tx_slate_id->Some_0)
}

/// The position of the last transaction that can be broadcast again beside
/// the current one, if there is one.
pub open spec fn repost_candidate(w: WalletView, current: u128) -> Option<int> {
    let found = indices_where(w.tx_log, |t: TxLogEntryView| repostable(t, w, current));
    if found.len() > 0 {
        Some(found.last())
    } else {
        None
    }
}

/// What the node answered while a transaction was posted.
#[derive(Clone, Copy, PartialEq, Eq, Structural, Debug)]
pub struct PostReport {
    /// Whether the node took the transaction at once.
    pub first: bool,
    /// Whether the node took the last unconfirmed transaction again; `None`
    /// where that was not tried.
    pub repost: Option<bool>,
    /// Whether the node took the transaction at the second try; `None`
    /// where there was no second try.
    pub retry: Option<bool>,
}

/// Whether a report can come from posting the transaction of a slate: the
/// last unconfirmed transaction is tried once after a failure, if there is
/// one, and the second try is made after every failure, whatever became of
/// that transaction.
pub open spec fn report_possible(w: WalletView, slate_id: u128, report: PostReport) -> bool {
    if report.first {
        report.repost is None && report.retry is None
    } else {
        &&& report.repost is Some <==> repost_candidate(w, slate_id) is Some
        &&& report.retry is Some
    }
}

/// Whether a report says that the node has the transaction.
pub open spec fn report_ok(report: PostReport) -> bool {
    report.first || report.retry == Some(true)
}

/// The records after the transaction of a slate was given up for want of a
/// node: its log entry is cancelled as `cancel_tx` would, where that can be
/// done; else nothing changes.
pub open spec fn rolled_back(w: WalletView, slate_id: u128) -> WalletView {
    let found = matching_txs(w.tx_log, cancel_query(w.parent_key_id, None, Some(slate_id)));
    if found.len() == 1 && cancellable(w.tx_log[found[0]]) {
        after_cancel(w, found[0])
    } else {
        w
    }
}

/// The records after the last unconfirmed transaction was broadcast again.
pub open spec fn reposted(w: WalletView, slate_id: u128) -> WalletView {
    match repost_candidate(w, slate_id) {
        Some(i) => marked_posted(w, w.tx_log[i].tx_slate_id->Some_0),
        None => w,
    }
}

/// The records after the transaction of a slate was posted with the given
/// answers of the node: where the node has the transaction, its log entry
/// is marked; where it has not, the transaction is rolled back.
pub open spec fn settled(w: WalletView, slate_id: u128, report: PostReport) -> WalletView {
    if report.first {
        marked_posted(w, slate_id)
    } else {
        let w1 = if report.repost == Some(true) {
            reposted(w, slate_id)
        } else {
            w
        };
        if report.retry == Some(true) {
            marked_posted(w1, slate_id)
        } else {
            rolled_back(w1, slate_id)
        }
    }
}

/// The number of log entries of a slate that are not cancelled.
pub open spec fn active_entries(w: WalletView, slate_id: u128) -> nat {
    indices_where(
        w.tx_log,
        |t: TxLogEntryView| t.tx_slate_id == Some(slate_id) && is_active(t),
    ).len()
}

impl<C: NodeClient> Wallet<C> {
    /// The position of the stored body of a slate, if there is one.
    pub fn find_stored_tx(&self, slate_id: u128) -> (r: Option<usize>)
        ensures
            match r {
                Some(i) => i == stored_position(self@.stored_txs, slate_id) && i
                    < self.stored_txs.len(),
                None => stored_position(self@.stored_txs, slate_id) == self@.stored_txs.len(),
            },
    {
        let mut k: usize = 0;
        while k < self.stored_txs.len()
            invariant
                k <= self.stored_txs.len(),
                forall|j: int| 0 <= j < k ==> (#[trigger] self@.stored_txs[j]).slate_id != slate_id,
            decreases self.stored_txs.len() - k,
        {
            assert(self.stored_txs@[k as int]@ == self@.stored_txs[k as int]);
            if self.stored_txs[k].slate_id == slate_id {
                proof {
                    lemma_stored_position(self@.stored_txs, slate_id, k as int);
                }
                return Some(k);
            }
            k = k + 1;
        }
        proof {
            lemma_stored_position(self@.stored_txs, slate_id, k as int);
        }
        None
    }

    /// The position of the proof that is stored under the id of a slate, if
    /// there is one.
    pub fn find_stored_proof(&self, slate_id: u128) -> (r: Option<usize>)
        ensures
            match r {
                Some(i) => i == proof_position(self@.stored_proofs, slate_id) && i
                    < self.stored_proofs.len(),
                None => proof_position(self@.stored_proofs, slate_id) == self@.stored_proofs.len(),
            },
    {
        let mut k: usize = 0;
        while k < self.stored_proofs.len()
            invariant
                k <= self.stored_proofs.len(),
                forall|j: int|
                    0 <= j < k ==> (#[trigger] self@.stored_proofs[j]).slate_id != slate_id,
            decreases self.stored_proofs.len() - k,
        {
            assert(self.stored_proofs@[k as int]@ == self@.stored_proofs[k as int]);
            if self.stored_proofs[k].slate_id == slate_id {
                proof {
                    lemma_proof_position(self@.stored_proofs, slate_id, k as int);
                }
                return Some(k);
            }
            k = k + 1;
        }
        proof {
            lemma_proof_position(self@.stored_proofs, slate_id, k as int);
        }
        None
    }

    /// Whether the log entry at position `i` holds an output locked.
    fn entry_holds(&self, o: &OutputData, i: usize) -> (ok: bool)
        requires
            i < self.tx_log.len(),
        ensures
            ok == holds_lock(self@.tx_log, *o, i as int),
    {
        let t = &self.tx_log[i];
        assert(t@ == self@.tx_log[i as int]);
        o.tx_log_entry == Some(t.id) && t.parent_key_id == o.root_key_id && t.tx_type
            != TxLogEntryType::TxSentCancelled && t.tx_type != TxLogEntryType::TxReceivedCancelled
    }

    /// Whether no two log entries have the same id, and all ids are below
    /// the next one to be given.
    fn has_sound_ids(&self) -> (ok: bool)
        ensures
            ok == (ids_distinct(self@.tx_log) && ids_below(self@.tx_log, self@.next_tx_log_id)),
    {
        let mut i: usize = 0;
        while i < self.tx_log.len()
            invariant
                i <= self.tx_log.len(),
                forall|a: int, b: int|
                    0 <= a < b < self@.tx_log.len() && a < i
                        ==> (#[trigger] self@.tx_log[a]).id != (#[trigger] self@.tx_log[b]).id,
                forall|a: int| 0 <= a < i ==> (#[trigger] self@.tx_log[a]).id < self.next_tx_log_id,
            decreases self.tx_log.len() - i,
        {
            assert(self.tx_log@[i as int]@ == self@.tx_log[i as int]);
            if self.tx_log[i].id >= self.next_tx_log_id {
                return false;
            }
            let mut j: usize = i + 1;
            while j < self.tx_log.len()
                invariant
                    i < j <= self.tx_log.len(),
                    forall|b: int|
                        i < b < j ==> self@.tx_log[i as int].id != (#[trigger] self@.tx_log[b]).id,
                decreases self.tx_log.len() - j,
            {
                assert(self.tx_log@[i as int]@ == self@.tx_log[i as int]);
                assert(self.tx_log@[j as int]@ == self@.tx_log[j as int]);
                if self.tx_log[i].id == self.tx_log[j].id {
                    return false;
                }
                j = j + 1;
            }
            i = i + 1;
        }
        true
    }

    /// Whether the records are consistent: log ids are distinct and below
    /// the next one, and every locked output is held by a log entry that is
    /// not cancelled.
    pub fn is_consistent(&self) -> (ok: bool)
        ensures
            ok == consistent(self@),
    {
        if !self.has_sound_ids() {
            return false;
        }
        let mut j: usize = 0;
        while j < self.outputs.len()
            invariant
                j <= self.outputs.len(),
                forall|a: int|
                    0 <= a < j && (#[trigger] self@.outputs[a]).status == OutputStatus::Locked
                        ==> exists|i: int| holds_lock(self@.tx_log, self@.outputs[a], i),
            decreases self.outputs.len() - j,
        {
            let o = self.outputs[j];
            if o.status == OutputStatus::Locked {
                let mut held = false;
                let mut k: usize = 0;
                while k < self.tx_log.len() && !held
                    invariant
                        k <= self.tx_log.len(),
                        o == self@.outputs[j as int],
                        held ==> exists|i: int| holds_lock(self@.tx_log, o, i),
                        !held ==> forall|i: int| 0 <= i < k ==> !holds_lock(self@.tx_log, o, i),
                    decreases self.tx_log.len() - k + (if held { 0int } else { 1int }),
                {
                    if self.entry_holds(&o, k) {
                        held = true;
                    } else {
                        k = k + 1;
                    }
                }
                if !held {
                    assert(!(exists|i: int| holds_lock(self@.tx_log, self@.outputs[j as int], i)));
                    return false;
                }
            }
            j = j + 1;
        }
        true
    }

    /// Marks the sent transaction of a slate as handed to a node.
    pub fn mark_posted(&mut self, slate_id: u128)
        ensures
            final(self)@ == marked_posted(old(self)@, slate_id),
            final(self).client == old(self).client,
            consistent(old(self)@) ==> consistent(final(self)@),
    {
        proof {
            if consistent(old(self)@) {
                lemma_posted_keeps_consistent(old(self)@, slate_id);
            }
        }
        let ghost w0 = self@;
        let mut i: usize = 0;
        while i < self.tx_log.len()
            invariant
                i <= self.tx_log.len(),
                self.tx_log.len() == w0.tx_log.len(),
                forall|j: int|
                    0 <= j < i ==> (#[trigger] self@.tx_log[j]) == posted_entry(
                        w0.tx_log[j],
                        slate_id,
                    ),
                forall|j: int|
                    i <= j < self.tx_log.len() ==> (#[trigger] self@.tx_log[j]) == w0.tx_log[j],
                self@ == (WalletView { tx_log: self@.tx_log, ..w0 }),
                self.client == old(self).client,
            decreases self.tx_log.len() - i,
        {
            assert(self@.tx_log[i as int] == self.tx_log@[i as int]@);
            let ghost log_before = self@.tx_log;
            if self.tx_log[i].tx_slate_id == Some(slate_id) && self.tx_log[i].tx_type
                == TxLogEntryType::TxSent {
                self.tx_log[i].posted = Some(true);
                assert(self@.tx_log =~= log_before.update(
                    i as int,
                    posted_entry(w0.tx_log[i as int], slate_id),
                ));
            }
            i = i + 1;
        }
        assert(self@.tx_log =~= marked_posted(w0, slate_id).tx_log);
    }

    /// The position of the last transaction that can be broadcast again
    /// beside the current one, if there is one.
    pub fn find_repost_candidate(&self, current: u128) -> (r: Option<usize>)
        ensures
            match r {
                Some(i) => repost_candidate(self@, current) == Some(i as int) && i
                    < self.tx_log.len() && repostable(self@.tx_log[i as int], self@, current),
                None => repost_candidate(self@, current) is None,
            },
    {
        let ghost f = |t: TxLogEntryView| repostable(t, self@, current);
        let mut last: Option<usize> = None;
        let mut i: usize = 0;
        while i < self.tx_log.len()
            invariant
                i <= self.tx_log.len(),
                f == (|t: TxLogEntryView| repostable(t, self@, current)),
                match last {
                    Some(l) => {
                        let found = indices_where(self@.tx_log.subrange(0, i as int), f);
                        found.len() > 0 && found.last() == l as int && l < i && f(
                            self@.tx_log[l as int],
                        )
                    },
                    None => indices_where(self@.tx_log.subrange(0, i as int), f).len() == 0,
                },
            decreases self.tx_log.len() - i,
        {
            let t = &self.tx_log[i];
            assert(t@ == self@.tx_log[i as int]);
            proof {
                assert(self@.tx_log.subrange(0, i as int + 1) =~= self@.tx_log.subrange(
                    0,
                    i as int,
                ).push(self@.tx_log[i as int]));
                lemma_indices_where_push(
                    self@.tx_log.subrange(0, i as int),
                    f,
                    self@.tx_log[i as int],
                );
            }
            if t.tx_type == TxLogEntryType::TxSent && !t.confirmed {
                match t.tx_slate_id {
                    Some(id) => {
                        if id != current && self.find_stored_tx(id).is_some() {
                            last = Some(i);
                        }
                    },
                    None => {},
                }
            }
            i = i + 1;
        }
        proof {
            assert(self@.tx_log.subrange(0, i as int) =~= self@.tx_log);
        }
        last
    }

    /// Brings the records in line with what the node answered while the
    /// transaction of a slate was posted.
    pub fn settle_post(&mut self, slate_id: u128, report: PostReport)
        ensures
            final(self)@ == settled(old(self)@, slate_id, report),
            final(self).client == old(self).client,
            consistent(old(self)@) ==> consistent(final(self)@),
    {
        proof {
            if consistent(old(self)@) {
                lemma_post_keeps_consistent(old(self)@, slate_id, report);
            }
        }
        if report.first {
            self.mark_posted(slate_id);
            return ;
        }
        if report.repost == Some(true) {
            match self.find_repost_candidate(slate_id) {
                Some(i) => {
                    assert(self@.tx_log[i as int] == self.tx_log@[i as int]@);
                    match self.tx_log[i].tx_slate_id {
                        Some(other) => {
                            self.mark_posted(other);
                        },
                        None => {},
                    }
                },
                None => {},
            }
        }
        if report.retry == Some(true) {
            self.mark_posted(slate_id);
        } else {
            let parent_key_id = self.parent_key_id;
            let _ = cancel_tx(self, &parent_key_id, None, Some(slate_id));
        }
    }

    /// Posts the transaction of a slate. Where the node refuses it, the
    /// last unconfirmed transaction of the wallet, if there is one, is
    /// broadcast again, once, and then the transaction is posted a second
    /// time. Where the node still does not have it, the transaction is
    /// rolled back and the failure reported.
    pub fn post_tx(&mut self, slate_id: u128, tx: &Transaction, fluff: bool) -> (r: Result<
        (),
        ErrorKind,
    >)
        ensures
            final(self).client == old(self).client,
            exists|report: PostReport|
                {
                    &&& report_possible(old(self)@, slate_id, report)
                    &&& final(self)@ == #[trigger] settled(old(self)@, slate_id, report)
                    &&& r is Ok <==> report_ok(report)
                    &&& r is Err ==> r == Err::<(), ErrorKind>(ErrorKind::NodeUnavailable)
                },
            consistent(old(self)@) ==> consistent(final(self)@),
    {
        let first = self.client.post_tx(tx, fluff).is_ok();
        let mut report = PostReport { first, repost: None, retry: None };
        if !first {
            match self.find_repost_candidate(slate_id) {
                Some(i) => {
                    assert(self@.tx_log[i as int] == self.tx_log@[i as int]@);
                    let other = self.tx_log[i].tx_slate_id;
                    let took = match other {
                        Some(id) => match self.find_stored_tx(id) {
                            Some(k) => self.client.post_tx(&self.stored_txs[k].tx, fluff).is_ok(),
                            None => false,
                        },
                        None => false,
                    };
                    report.repost = Some(took);
                },
                None => {},
            }
            report.retry = Some(self.client.post_tx(tx, fluff).is_ok());
        }
        self.settle_post(slate_id, report);
        if report.first || report.retry == Some(true) {
            Ok(())
        } else {
            Err(ErrorKind::NodeUnavailable)
        }
    }
}

/// Marking a transaction as posted leaves the number of active log entries
/// of every slate as it is.
pub proof fn lemma_marked_posted_keeps_entries(w: WalletView, posted: u128, slate_id: u128)
    ensures
        active_entries(marked_posted(w, posted), slate_id) == active_entries(w, slate_id),
{
    lemma_indices_where_map(
        w.tx_log,
        |t: TxLogEntryView| posted_entry(t, posted),
        |t: TxLogEntryView| t.tx_slate_id == Some(slate_id) && is_active(t),
    );
}

/// A post that the node refuses at first is tried a second time, whether
/// or not there was a transaction to broadcast again and whatever became of
/// it; the transaction is rolled back only where the second try fails too,
/// and then the post fails.
pub proof fn lemma_post_is_tried_twice(w: WalletView, slate_id: u128, report: PostReport)
    requires
        report_possible(w, slate_id, report),
        !report.first,
    ensures
        report.retry is Some,
        report_ok(report) <==> report.retry == Some(true),
        ({
            let before = if report.repost == Some(true) {
                reposted(w, slate_id)
            } else {
                w
            };
            settled(w, slate_id, report) == if report_ok(report) {
                marked_posted(before, slate_id)
            } else {
                rolled_back(before, slate_id)
            }
        }),
{
}

/// Where the node has the transaction in the end, at once or after the
/// last unconfirmed transaction was broadcast again, the log holds as many
/// active entries of the slate as before: a wallet that had one has one.
pub proof fn lemma_post_keeps_entries(w: WalletView, slate_id: u128, report: PostReport)
    requires
        report_ok(report),
    ensures
        active_entries(settled(w, slate_id, report), slate_id) == active_entries(w, slate_id),
{
    if report.first {
        lemma_marked_posted_keeps_entries(w, slate_id, slate_id);
    } else {
        let w1 = if report.repost == Some(true) {
            reposted(w, slate_id)
        } else {
            w
        };
        if report.repost == Some(true) {
            match repost_candidate(w, slate_id) {
                Some(i) => {
                    lemma_marked_posted_keeps_entries(w, w.tx_log[i].tx_slate_id->Some_0, slate_id);
                },
                None => {},
            }
        }
        lemma_marked_posted_keeps_entries(w1, slate_id, slate_id);
    }
}

/// Why a transaction cannot be broadcast again, if it cannot, before the
/// node is asked. `None` where the node is asked.
pub open spec fn repost_refusal(
    w: WalletView,
    tx_id: Option<u32>,
    tx_slate_id: Option<u128>,
) -> Option<
    RepostRefusal,
> {
    let found = matching_txs(w.tx_log, cancel_query(w.parent_key_id, tx_id, tx_slate_id));
    if found.len() != 1 || !is_active(w.tx_log[found[0]]) {
        Some(RepostRefusal::Unknown)
    } else {
        let t = w.tx_log[found[0]];
        if t.tx_slate_id is None || !has_stored(w, t.tx_slate_id->Some_0) {
            Some(RepostRefusal::NoBody)
        } else if t.confirmed {
            Some(RepostRefusal::Confirmed)
        } else {
            None
        }
    }
}

/// Why a transaction is not broadcast again.
#[derive(Clone, Copy, PartialEq, Eq, Structural, Debug)]
pub enum RepostRefusal {
    /// The reference names no single transaction that is not cancelled.
    Unknown,
    /// No body is stored for the transaction.
    NoBody,
    /// The chain has the transaction already.
    Confirmed,
}

/// The slate of the transaction that a reference names for a repost.
pub open spec fn repost_slate(
    w: WalletView,
    tx_id: Option<u32>,
    tx_slate_id: Option<u128>,
) -> u128 {
    w.tx_log[matching_txs(
        w.tx_log,
        cancel_query(w.parent_key_id, tx_id, tx_slate_id),
    )[0]].tx_slate_id->Some_0
}

/// Broadcasts again the stored body of the one transaction that the
/// reference names, provided that it is neither cancelled nor confirmed.
pub fn repost<C: NodeClient>(
    wallet: &mut Wallet<C>,
    tx_id: Option<u32>,
    tx_slate_id: Option<u128>,
    fluff: bool,
) -> (r: Result<(), ErrorKind>)
    ensures
        final(wallet).client == old(wallet).client,
        match repost_refusal(old(wallet)@, tx_id, tx_slate_id) {
            Some(RepostRefusal::Unknown) => {
                &&& r is Err
                &&& is_doesnt_exist(r->Err_0, tx_ref_text(tx_id, tx_slate_id))
                &&& final(wallet)@ == old(wallet)@
            },
            Some(RepostRefusal::NoBody) => r == Err::<(), ErrorKind>(ErrorKind::StoredTxMissing)
                && final(wallet)@ == old(wallet)@,
            Some(RepostRefusal::Confirmed) => r == Err::<(), ErrorKind>(
                ErrorKind::AlreadyConfirmed,
            ) && final(wallet)@ == old(wallet)@,
            None => {
                ||| r is Ok && final(wallet)@ == marked_posted(
                    old(wallet)@,
                    repost_slate(old(wallet)@, tx_id, tx_slate_id),
                )
                ||| r == Err::<(), ErrorKind>(ErrorKind::NodeUnavailable) && final(wallet)@ == old(
                    wallet,
                )@
            },
        },
        consistent(old(wallet)@) ==> consistent(final(wallet)@),
{
    let parent_key_id = wallet.parent_key_id;
    let found = wallet.find_txs(tx_id, tx_slate_id, Some(parent_key_id), false);
    if found.len() != 1 {
        return Err(ErrorKind::TransactionDoesntExist(tx_ref_string(tx_id, tx_slate_id)));
    }
    let i = found[0];
    assert(positions(found@)[0] == i as int);
    assert(wallet@.tx_log[i as int] == wallet.tx_log@[i as int]@);
    let tx_type = wallet.tx_log[i].tx_type;
    if tx_type == TxLogEntryType::TxSentCancelled || tx_type
        == TxLogEntryType::TxReceivedCancelled {
        return Err(ErrorKind::TransactionDoesntExist(tx_ref_string(tx_id, tx_slate_id)));
    }
    let slate_id = match wallet.tx_log[i].tx_slate_id {
        Some(id) => id,
        None => {
            return Err(ErrorKind::StoredTxMissing);
        },
    };
    let k = match wallet.find_stored_tx(slate_id) {
        Some(k) => k,
        None => {
            return Err(ErrorKind::StoredTxMissing);
        },
    };
    if wallet.tx_log[i].confirmed {
        return Err(ErrorKind::AlreadyConfirmed);
    }
    match wallet.client.post_tx(&wallet.stored_txs[k].tx, fluff) {
        Ok(_) => {
            wallet.mark_posted(slate_id);
            Ok(())
        },
        Err(_) => Err(ErrorKind::NodeUnavailable),
    }
}

/// Whether a repair removes an output: the repair may undo transactions,
/// and the output is an unconfirmed one that the chain does not show.
pub open spec fn dropped(
    o: OutputData,
    parent_key_id: Identifier,
    chain: Seq<ChainOutput>,
    delete_unconfirmed: bool,
) -> bool {
    &&& delete_unconfirmed
    &&& o.root_key_id == parent_key_id
    &&& o.status == OutputStatus::Unconfirmed
    &&& !o.is_coinbase
    &&& chain_height_of(chain, o.commit) is None
}

/// Whether a repair undoes the transaction of an output: it removes the
/// output, or the chain shows the output although a transaction has locked
/// it.
pub open spec fn undone(
    o: OutputData,
    parent_key_id: Identifier,
    chain: Seq<ChainOutput>,
    delete_unconfirmed: bool,
) -> bool {
    ||| dropped(o, parent_key_id, chain, delete_unconfirmed)
    ||| delete_unconfirmed && o.root_key_id == parent_key_id && o.status == OutputStatus::Locked
        && chain_height_of(chain, o.commit) is Some
}

/// Whether a repair undoes the transaction with the given log id: it
/// undoes the transaction of one of the outputs that are bound to it.
pub open spec fn undoes(
    outputs: Seq<OutputData>,
    parent_key_id: Identifier,
    chain: Seq<ChainOutput>,
    delete_unconfirmed: bool,
    id: u32,
) -> bool {
    exists|i: int|
        0 <= i < outputs.len() && undone(
            #[trigger] outputs[i],
            parent_key_id,
            chain,
            delete_unconfirmed,
        ) && outputs[i].tx_log_entry == Some(id)
}

/// Whether a repair frees a locked output: it undoes the transaction that
/// has locked it.
pub open spec fn freed(
    o: OutputData,
    outputs: Seq<OutputData>,
    parent_key_id: Identifier,
    chain: Seq<ChainOutput>,
    delete_unconfirmed: bool,
) -> bool {
    &&& o.root_key_id == parent_key_id
    &&& o.status == OutputStatus::Locked
    &&& o.tx_log_entry is Some
    &&& undoes(outputs, parent_key_id, chain, delete_unconfirmed, o.tx_log_entry->Some_0)
}

/// An output after a repair. One that the chain shows although the wallet
/// holds it spent is unspent again, and so is one that the chain shows
/// although the wallet holds it locked, where the repair may undo
/// transactions. One that a transaction has locked is free again where the
/// repair undoes that transaction.
pub open spec fn repaired_output(
    o: OutputData,
    outputs: Seq<OutputData>,
    parent_key_id: Identifier,
    chain: Seq<ChainOutput>,
    delete_unconfirmed: bool,
) -> OutputData {
    if o.root_key_id != parent_key_id {
        o
    } else {
        match chain_height_of(chain, o.commit) {
            Some(h) => if o.status == OutputStatus::Spent || (o.status == OutputStatus::Locked
                && delete_unconfirmed) {
                OutputData { status: OutputStatus::Unspent, height: h, ..o }
            } else {
                o
            },
            None => if freed(o, outputs, parent_key_id, chain, delete_unconfirmed) {
                OutputData { status: OutputStatus::Unspent, ..o }
            } else {
                o
            },
        }
    }
}

/// Whether an output is one that the wallet holds unspent and the chain
/// does not show.
pub open spec fn unrecognized(
    o: OutputData,
    parent_key_id: Identifier,
    chain: Seq<ChainOutput>,
) -> bool {
    o.root_key_id == parent_key_id && o.status == OutputStatus::Unspent && chain_height_of(
        chain,
        o.commit,
    ) is None
}

/// Whether a repair cancels a log entry: it undoes its transaction.
pub open spec fn undone_entry(
    t: TxLogEntryView,
    outputs: Seq<OutputData>,
    parent_key_id: Identifier,
    chain: Seq<ChainOutput>,
    delete_unconfirmed: bool,
) -> bool {
    t.parent_key_id == parent_key_id && undoes(
        outputs,
        parent_key_id,
        chain,
        delete_unconfirmed,
        t.id,
    )
}

/// The records after a repair against what the chain shows.
pub open spec fn after_repair(
    w: WalletView,
    parent_key_id: Identifier,
    chain: Seq<ChainOutput>,
    delete_unconfirmed: bool,
) -> WalletView {
    WalletView {
        outputs: select(
            w.outputs,
            |o: OutputData| !dropped(o, parent_key_id, chain, delete_unconfirmed),
        ).map_values(
            |o: OutputData|
                repaired_output(o, w.outputs, parent_key_id, chain, delete_unconfirmed),
        ),
        tx_log: w.tx_log.map_values(
            |t: TxLogEntryView|
                if undone_entry(t, w.outputs, parent_key_id, chain, delete_unconfirmed) {
                    cancelled_entry(t)
                } else {
                    t
                },
        ),
        ..w
    }
}

/// The commitments of the outputs that the wallet holds unspent and the
/// chain does not show.
pub open spec fn discrepancies(
    w: WalletView,
    parent_key_id: Identifier,
    chain: Seq<ChainOutput>,
) -> Seq<Point> {
    select(w.outputs, |o: OutputData| unrecognized(o, parent_key_id, chain)).map_values(
        |o: OutputData| o.commit,
    )
}

/// The commitments of all outputs of an account.
pub open spec fn account_commits(
    outputs: Seq<OutputData>,
    parent_key_id: Identifier,
) -> Seq<Point> {
    select(outputs, |o: OutputData| o.root_key_id == parent_key_id).map_values(
        |o: OutputData| o.commit,
    )
}

/// Whether a list holds exactly the log ids of the transactions that a
/// repair undoes.
pub open spec fn lists_undone(
    ids: Seq<u32>,
    outputs: Seq<OutputData>,
    parent_key_id: Identifier,
    chain: Seq<ChainOutput>,
    delete_unconfirmed: bool,
) -> bool {
    forall|id: u32|
        ids.contains(id) <==> undoes(outputs, parent_key_id, chain, delete_unconfirmed, id)
}

fn is_undone(
    o: &OutputData,
    parent_key_id: &Identifier,
    chain: &Vec<ChainOutput>,
    delete_unconfirmed: bool,
) -> (ok: bool)
    ensures
        ok == undone(*o, *parent_key_id, chain@, delete_unconfirmed),
{
    if !delete_unconfirmed || o.root_key_id != *parent_key_id {
        return false;
    }
    match find_on_chain(chain, o.commit) {
        Some(_) => o.status == OutputStatus::Locked,
        None => o.status == OutputStatus::Unconfirmed && !o.is_coinbase,
    }
}

impl<C: NodeClient> Wallet<C> {
    /// The commitments of all outputs of an account.
    pub fn commits_of_account(&self, parent_key_id: &Identifier) -> (commits: Vec<Point>)
        ensures
            commits@ == account_commits(self@.outputs, *parent_key_id),
    {
        let ghost f = |o: OutputData| o.root_key_id == *parent_key_id;
        let mut commits: Vec<Point> = Vec::new();
        let mut i: usize = 0;
        assert(commits@ =~= account_commits(self@.outputs.subrange(0, 0), *parent_key_id));
        while i < self.outputs.len()
            invariant
                i <= self.outputs.len(),
                f == (|o: OutputData| o.root_key_id == *parent_key_id),
                commits@ == account_commits(self@.outputs.subrange(0, i as int), *parent_key_id),
            decreases self.outputs.len() - i,
        {
            proof {
                let prefix = self@.outputs.subrange(0, i as int);
                let next = self@.outputs.subrange(0, i as int + 1);
                assert(next =~= prefix.push(self@.outputs[i as int]));
                lemma_indices_where_push(prefix, f, self@.outputs[i as int]);
                lemma_indices_where_sound(prefix, f);
                if f(self@.outputs[i as int]) {
                    assert(account_commits(next, *parent_key_id) =~= account_commits(
                        prefix,
                        *parent_key_id,
                    ).push(self@.outputs[i as int].commit));
                } else {
                    assert(account_commits(next, *parent_key_id) =~= account_commits(
                        prefix,
                        *parent_key_id,
                    ));
                }
            }
            if self.outputs[i].root_key_id == *parent_key_id {
                commits.push(self.outputs[i].commit);
            }
            i = i + 1;
        }
        proof {
            assert(self@.outputs.subrange(0, i as int) =~= self@.outputs);
        }
        commits
    }

    /// The log ids of the transactions that a repair undoes.
    fn undone_ids(
        &self,
        parent_key_id: &Identifier,
        chain: &Vec<ChainOutput>,
        delete_unconfirmed: bool,
    ) -> (ids: Vec<u32>)
        ensures
            lists_undone(ids@, self@.outputs, *parent_key_id, chain@, delete_unconfirmed),
    {
        let ghost outputs = self@.outputs;
        let mut ids: Vec<u32> = Vec::new();
        let mut k: usize = 0;
        while k < self.outputs.len()
            invariant
                k <= self.outputs.len(),
                outputs == self@.outputs,
                forall|id: u32|
                    ids@.contains(id) <==> exists|j: int|
                        0 <= j < k && undone(
                            #[trigger] outputs[j],
                            *parent_key_id,
                            chain@,
                            delete_unconfirmed,
                        ) && outputs[j].tx_log_entry == Some(id),
            decreases self.outputs.len() - k,
        {
            let o = self.outputs[k];
            let ghost ids_before = ids@;
            let cancels = is_undone(&o, parent_key_id, chain, delete_unconfirmed);
            if cancels {
                match o.tx_log_entry {
                    Some(id) => {
                        ids.push(id);
                    },
                    None => {},
                }
            }
            proof {
                let c = cancels && o.tx_log_entry is Some;
                if c {
                    assert(ids@ =~= ids_before.push(o.tx_log_entry->Some_0));
                } else {
                    assert(ids@ =~= ids_before);
                }
                assert forall|id: u32|
                    ids@.contains(id) <==> exists|j: int|
                        0 <= j < k + 1 && undone(
                            #[trigger] outputs[j],
                            *parent_key_id,
                            chain@,
                            delete_unconfirmed,
                        ) && outputs[j].tx_log_entry == Some(id) by {
                    if ids@.contains(id) {
                        if ids_before.contains(id) {
                            let j = choose|j: int|
                                0 <= j < k && undone(
                                    #[trigger] outputs[j],
                                    *parent_key_id,
                                    chain@,
                                    delete_unconfirmed,
                                ) && outputs[j].tx_log_entry == Some(id);
                            assert(0 <= j < k + 1);
                        } else {
                            let i = choose|i: int| 0 <= i < ids@.len() && ids@[i] == id;
                            if i < ids_before.len() {
                                assert(ids_before[i] == id);
                            }
                            assert(c && o.tx_log_entry == Some(id));
                            assert(undone(
                                outputs[k as int],
                                *parent_key_id,
                                chain@,
                                delete_unconfirmed,
                            ));
                        }
                    }
                    if exists|j: int|
                        0 <= j < k + 1 && undone(
                            #[trigger] outputs[j],
                            *parent_key_id,
                            chain@,
                            delete_unconfirmed,
                        ) && outputs[j].tx_log_entry == Some(id) {
                        let j = choose|j: int|
                            0 <= j < k + 1 && undone(
                                #[trigger] outputs[j],
                                *parent_key_id,
                                chain@,
                                delete_unconfirmed,
                            ) && outputs[j].tx_log_entry == Some(id);
                        if j < k {
                            assert(ids_before.contains(id));
                            let i = choose|i: int| 0 <= i < ids_before.len() && ids_before[i] == id;
                            assert(ids@[i] == id);
                        } else {
                            assert(ids@[ids@.len() - 1] == id);
                        }
                    }
                }
            }
            k = k + 1;
        }
        ids
    }

    /// The outputs after a repair, and the commitments of the outputs that
    /// the wallet holds unspent and the chain does not show.
    fn repaired_outputs(
        &self,
        parent_key_id: &Identifier,
        chain: &Vec<ChainOutput>,
        delete_unconfirmed: bool,
        ids: &Vec<u32>,
    ) -> (r: (Vec<OutputData>, Vec<Point>))
        requires
            lists_undone(ids@, self@.outputs, *parent_key_id, chain@, delete_unconfirmed),
        ensures
            r.0@ == after_repair(self@, *parent_key_id, chain@, delete_unconfirmed).outputs,
            r.1@ == discrepancies(self@, *parent_key_id, chain@),
    {
        let ghost w0 = self@;
        let ghost keep = |o: OutputData| !dropped(o, *parent_key_id, chain@, delete_unconfirmed);
        let ghost fix = |o: OutputData|
            repaired_output(o, w0.outputs, *parent_key_id, chain@, delete_unconfirmed);
        let ghost odd = |o: OutputData| unrecognized(o, *parent_key_id, chain@);
        let ghost commit_of = |o: OutputData| o.commit;
        let mut kept: Vec<OutputData> = Vec::new();
        let mut found: Vec<Point> = Vec::new();
        let mut k: usize = 0;
        assert(kept@ =~= select(w0.outputs.subrange(0, 0), keep).map_values(fix));
        assert(found@ =~= select(w0.outputs.subrange(0, 0), odd).map_values(commit_of));
        while k < self.outputs.len()
            invariant
                k <= self.outputs.len(),
                self@ == w0,
                lists_undone(ids@, w0.outputs, *parent_key_id, chain@, delete_unconfirmed),
                keep == (|o: OutputData| !dropped(o, *parent_key_id, chain@, delete_unconfirmed)),
                fix == (|o: OutputData|
                    repaired_output(o, w0.outputs, *parent_key_id, chain@, delete_unconfirmed)),
                odd == (|o: OutputData| unrecognized(o, *parent_key_id, chain@)),
                commit_of == (|o: OutputData| o.commit),
                kept@ == select(w0.outputs.subrange(0, k as int), keep).map_values(fix),
                found@ == select(w0.outputs.subrange(0, k as int), odd).map_values(commit_of),
            decreases self.outputs.len() - k,
        {
            let o = self.outputs[k];
            proof {
                let prefix = w0.outputs.subrange(0, k as int);
                let next = w0.outputs.subrange(0, k as int + 1);
                assert(next =~= prefix.push(o));
                lemma_indices_where_push(prefix, keep, o);
                lemma_indices_where_push(prefix, odd, o);
                lemma_indices_where_sound(prefix, keep);
                lemma_indices_where_sound(prefix, odd);
                if keep(o) {
                    assert(select(next, keep).map_values(fix) =~= select(prefix, keep).map_values(
                        fix,
                    ).push(fix(o)));
                } else {
                    assert(select(next, keep).map_values(fix) =~= select(prefix, keep).map_values(
                        fix,
                    ));
                }
                if odd(o) {
                    assert(select(next, odd).map_values(commit_of) =~= select(
                        prefix,
                        odd,
                    ).map_values(commit_of).push(o.commit));
                } else {
                    assert(select(next, odd).map_values(commit_of) =~= select(
                        prefix,
                        odd,
                    ).map_values(commit_of));
                }
            }
            let mut gone = false;
            let mut fixed = o;
            if o.root_key_id == *parent_key_id {
                match find_on_chain(chain, o.commit) {
                    Some(h) => {
                        if o.status == OutputStatus::Spent || (o.status == OutputStatus::Locked
                            && delete_unconfirmed) {
                            fixed.status = OutputStatus::Unspent;
                            fixed.height = h;
                        }
                    },
                    None => {
                        if o.status == OutputStatus::Unspent {
                            found.push(o.commit);
                        } else if delete_unconfirmed && o.status == OutputStatus::Unconfirmed
                            && !o.is_coinbase {
                            gone = true;
                        } else if o.status == OutputStatus::Locked {
                            match o.tx_log_entry {
                                Some(id) => {
                                    if contains_id(ids, id) {
                                        fixed.status = OutputStatus::Unspent;
                                    }
                                },
                                None => {},
                            }
                        }
                    },
                }
            }
            assert(gone == !keep(o));
            assert(fixed == fix(o));
            if !gone {
                kept.push(fixed);
            }
            k = k + 1;
        }
        assert(w0.outputs.subrange(0, k as int) =~= w0.outputs);
        (kept, found)
    }

    /// Repairs the records of an account against what the chain shows.
    /// Gives the commitments of the outputs that the wallet holds unspent
    /// and the chain does not show; these stay as they are. Transactions
    /// are undone, and unconfirmed outputs removed, only where
    /// `delete_unconfirmed` says so; whatever a transaction that is undone
    /// had locked is free again.
    pub fn repair_with(
        &mut self,
        parent_key_id: &Identifier,
        chain: &Vec<ChainOutput>,
        delete_unconfirmed: bool,
    ) -> (found: Vec<Point>)
        ensures
            final(self).client == old(self).client,
            final(self)@ == after_repair(old(self)@, *parent_key_id, chain@, delete_unconfirmed),
            found@ == discrepancies(old(self)@, *parent_key_id, chain@),
            consistent(old(self)@) ==> consistent(final(self)@),
    {
        let ghost w0 = self@;
        proof {
            if consistent(w0) {
                lemma_repair_keeps_consistent(w0, *parent_key_id, chain@, delete_unconfirmed);
            }
        }
        let ids = self.undone_ids(parent_key_id, chain, delete_unconfirmed);
        let (kept, found) = self.repaired_outputs(parent_key_id, chain, delete_unconfirmed, &ids);
        self.outputs = kept;
        let mut n: usize = 0;
        while n < self.tx_log.len()
            invariant
                n <= self.tx_log.len(),
                self.tx_log.len() == w0.tx_log.len(),
                forall|j: int|
                    0 <= j < n ==> (#[trigger] self@.tx_log[j]) == if undone_entry(
                        w0.tx_log[j],
                        w0.outputs,
                        *parent_key_id,
                        chain@,
                        delete_unconfirmed,
                    ) {
                        cancelled_entry(w0.tx_log[j])
                    } else {
                        w0.tx_log[j]
                    },
                forall|j: int|
                    n <= j < self.tx_log.len() ==> (#[trigger] self@.tx_log[j]) == w0.tx_log[j],
                lists_undone(ids@, w0.outputs, *parent_key_id, chain@, delete_unconfirmed),
                self@ == (WalletView { tx_log: self@.tx_log, outputs: self@.outputs, ..w0 }),
                self@.outputs == after_repair(
                    w0,
                    *parent_key_id,
                    chain@,
                    delete_unconfirmed,
                ).outputs,
                self.client == old(self).client,
            decreases self.tx_log.len() - n,
        {
            assert(self@.tx_log[n as int] == self.tx_log@[n as int]@);
            let ghost log_before = self@.tx_log;
            if self.tx_log[n].parent_key_id == *parent_key_id && contains_id(
                &ids,
                self.tx_log[n].id,
            ) {
                let tx_type = self.tx_log[n].tx_type;
                if tx_type == TxLogEntryType::TxSent {
                    self.tx_log[n].tx_type = TxLogEntryType::TxSentCancelled;
                } else if tx_type == TxLogEntryType::TxReceived {
                    self.tx_log[n].tx_type = TxLogEntryType::TxReceivedCancelled;
                }
                assert(self@.tx_log =~= log_before.update(
                    n as int,
                    cancelled_entry(w0.tx_log[n as int]),
                ));
            }
            n = n + 1;
        }
        assert(self@.tx_log =~= after_repair(
            w0,
            *parent_key_id,
            chain@,
            delete_unconfirmed,
        ).tx_log);
        found
    }

    /// Asks the node about all outputs of the wallet's account and repairs
    /// the records against what it shows. Where the node fails, nothing
    /// changes.
    pub fn check_repair(&mut self, delete_unconfirmed: bool) -> (r: Result<Vec<Point>, ErrorKind>)
        ensures
            final(self).client == old(self).client,
            match r {
                Ok(found) => exists|chain: Seq<ChainOutput>|
                    #![auto]
                    final(self)@ == after_repair(
                        old(self)@,
                        old(self)@.parent_key_id,
                        chain,
                        delete_unconfirmed,
                    ) && found@ == discrepancies(old(self)@, old(self)@.parent_key_id, chain),
                Err(e) => e == ErrorKind::NodeUnavailable && final(self)@ == old(self)@,
            },
            consistent(old(self)@) ==> consistent(final(self)@),
    {
        let parent_key_id = self.parent_key_id;
        let commits = self.commits_of_account(&parent_key_id);
        match self.client.get_outputs_from_node(&commits) {
            Ok(chain) => Ok(self.repair_with(&parent_key_id, &chain, delete_unconfirmed)),
            Err(_) => Err(ErrorKind::NodeUnavailable),
        }
    }
}

/// Wherever a transaction is cancelled, none of its outputs stays locked
/// or unconfirmed, and, where it was sent with a slate, every payment of
/// that slate is cancelled.
pub proof fn lemma_cancel_frees_outputs(w: WalletView, i: int)
    requires
        0 <= i < w.tx_log.len(),
    ensures
        after_cancel(w, i).outputs.len() == w.outputs.len(),
        forall|j: int|
            0 <= j < w.outputs.len() && belongs_to(
                #[trigger] w.outputs[j],
                w.tx_log[i].id,
                w.tx_log[i].parent_key_id,
            ) ==> after_cancel(w, i).outputs[j].status != OutputStatus::Locked && after_cancel(
                w,
                i,
            ).outputs[j].status != OutputStatus::Unconfirmed,
        forall|j: int|
            0 <= j < w.outputs.len() && !belongs_to(
                #[trigger] w.outputs[j],
                w.tx_log[i].id,
                w.tx_log[i].parent_key_id,
            ) ==> after_cancel(w, i).outputs[j] == w.outputs[j],
        w.tx_log[i].tx_type == TxLogEntryType::TxSent && w.tx_log[i].tx_slate_id is Some
            ==> forall|k: int|
            0 <= k < after_cancel(w, i).payments.len() && (#[trigger] after_cancel(
                w,
                i,
            ).payments[k]).slate_id == w.tx_log[i].tx_slate_id->Some_0 ==> after_cancel(
                w,
                i,
            ).payments[k].status == OutputStatus::Cancelled,
        cancellable(w.tx_log[i]) ==> !is_active(after_cancel(w, i).tx_log[i]),
{
}

/// Locking the inputs of a slate for which the log holds no active entry
/// leaves exactly one.
pub proof fn lemma_lock_creates_one_entry(w: WalletView, s: SlateView, c: ContextView, now: i64)
    requires
        lock_error(w, s, c) is None,
        active_entries(w, s.id) == 0,
    ensures
        active_entries(after_lock(w, s, c, now), s.id) == 1,
{
    let f = |t: TxLogEntryView| t.tx_slate_id == Some(s.id) && is_active(t);
    if already_locked(w, s.id, c.parent_key_id) {
        let i = choose|i: int|
            0 <= i < w.tx_log.len() && is_send_of(#[trigger] w.tx_log[i], s.id, c.parent_key_id);
        lemma_indices_where_complete(w.tx_log, f, i);
    } else {
        lemma_indices_where_push(w.tx_log, f, lock_entry(w, s, c, now));
    }
}

/// A wallet that locks the inputs of a slate, fails to post the
/// transaction, broadcasts its last unconfirmed transaction again with
/// success, and then posts the transaction with success, holds exactly one
/// active log entry of the slate.
pub proof fn lemma_send_after_repost_leaves_one_entry(
    w: WalletView,
    s: SlateView,
    c: ContextView,
    now: i64,
)
    requires
        lock_error(w, s, c) is None,
        active_entries(w, s.id) == 0,
    ensures
        active_entries(
            settled(
                after_lock(w, s, c, now),
                s.id,
                PostReport { first: false, repost: Some(true), retry: Some(true) },
            ),
            s.id,
        ) == 1,
{
    lemma_lock_creates_one_entry(w, s, c, now);
    lemma_post_keeps_entries(
        after_lock(w, s, c, now),
        s.id,
        PostReport { first: false, repost: Some(true), retry: Some(true) },
    );
}

/// Locking the inputs of a slate a second time changes nothing: no output
/// is locked twice and the log gets no second entry.
pub proof fn lemma_lock_idempotent(
    w: WalletView,
    s: SlateView,
    c: ContextView,
    first: i64,
    second: i64,
)
    requires
        lock_error(w, s, c) is None,
    ensures
        lock_error(after_lock(w, s, c, first), s, c) is None,
        after_lock(after_lock(w, s, c, first), s, c, second) == after_lock(w, s, c, first),
{
    let w1 = after_lock(w, s, c, first);
    if !already_locked(w, s.id, c.parent_key_id) {
        assert(is_send_of(w1.tx_log[w1.tx_log.len() - 1], s.id, c.parent_key_id));
    }
}

} // verus!
