//! The wallet: its records, and the node that shows it the chain.

use vstd::prelude::*;
use crate::clock::now_millis;
use crate::error::ErrorKind;
use crate::group::Point;
use crate::keychain::{Identifier, Keychain};
use crate::ledger_laws::{
    consistent, lemma_cancel_keeps_consistent, lemma_consistent_depends,
    lemma_empty_records_consistent, lemma_refresh_keeps_consistent,
};
use crate::payment_proof::{TxProof, TxProofView};
use crate::seqs::{indices_where, pick, lemma_indices_where_push, lemma_indices_where_sound};
use crate::transaction::{Transaction, TransactionView};
use crate::tx::after_cancel;
use crate::types::{
    OutputData, OutputStatus, PaymentData, TxLogEntry, TxLogEntryType, TxLogEntryView, log_view,
};

verus! {

/// An unspent output as the chain shows it.
#[derive(Clone, Copy, PartialEq, Eq, Structural, Debug)]
pub struct ChainOutput {
    pub commit: Point,
    /// The height of the block that holds the output.
    pub height: u64,
}

/// The node through which a wallet sees the chain. Every call may fail; the
/// wallet reports every failure of the node as `NodeUnavailable`.
pub trait NodeClient {
    /// The height of the head of the chain.
    fn get_chain_height(&self) -> Result<u64, ErrorKind>;

    /// Those of the given commitments that the chain holds as unspent
    /// outputs.
    fn get_outputs_from_node(&self, commits: &Vec<Point>) -> Result<Vec<ChainOutput>, ErrorKind>;

    /// Hands a transaction to the node for broadcast.
    fn post_tx(&self, tx: &Transaction, fluff: bool) -> Result<(), ErrorKind>;

    /// The height of the block that holds the kernel with the given excess,
    /// if the chain has it.
    fn get_kernel_height(&self, excess: &Point) -> Result<Option<u64>, ErrorKind>;
}

/// How the fee of a transaction follows from its shape.
#[derive(Clone, Copy, PartialEq, Eq, Structural, Debug)]
pub struct FeeSchedule {
    /// What every transaction pays.
    pub base_fee: u64,
    /// What a transaction pays for each output that it creates.
    pub output_fee: u64,
}

/// The body of a transaction, kept until the chain confirms it.
#[derive(PartialEq, Eq, Debug)]
pub struct StoredTx {
    pub slate_id: u128,
    pub tx: Transaction,
}

/// A stored body as a mathematical value.
pub struct StoredTxView {
    pub slate_id: u128,
    pub tx: TransactionView,
}

impl View for StoredTx {
    type V = StoredTxView;

    open spec fn view(&self) -> StoredTxView {
        StoredTxView { slate_id: self.slate_id, tx: self.tx@ }
    }
}

/// The stored bodies as mathematical values.
pub open spec fn stored_view(stored: Seq<StoredTx>) -> Seq<StoredTxView> {
    stored.map_values(|s: StoredTx| s@)
}

/// The proof of a payment, kept under the id of the slate that it was made
/// for.
#[derive(PartialEq, Eq, Debug)]
pub struct StoredProof {
    pub slate_id: u128,
    pub proof: TxProof,
}

/// A stored proof as a mathematical value.
pub struct StoredProofView {
    pub slate_id: u128,
    pub proof: TxProofView,
}

impl View for StoredProof {
    type V = StoredProofView;

    open spec fn view(&self) -> StoredProofView {
        StoredProofView { slate_id: self.slate_id, proof: self.proof@ }
    }
}

/// The stored proofs as mathematical values.
pub open spec fn proofs_view(proofs: Seq<StoredProof>) -> Seq<StoredProofView> {
    proofs.map_values(|p: StoredProof| p@)
}

/// A wallet: the keychain, the records, and the node.
pub struct Wallet<C: NodeClient> {
    pub client: C,
    pub keychain: Keychain,
    /// The account that the wallet works with.
    pub parent_key_id: Identifier,
    pub fee_schedule: FeeSchedule,
    pub outputs: Vec<OutputData>,
    pub tx_log: Vec<TxLogEntry>,
    pub payments: Vec<PaymentData>,
    pub stored_txs: Vec<StoredTx>,
    pub stored_proofs: Vec<StoredProof>,
    /// The last step of the key path of the next output.
    pub next_child: u32,
    /// The id of the next log entry.
    pub next_tx_log_id: u32,
}

/// The records of a wallet as a mathematical value.
pub struct WalletView {
    pub keychain: Keychain,
    pub parent_key_id: Identifier,
    pub fee_schedule: FeeSchedule,
    pub outputs: Seq<OutputData>,
    pub tx_log: Seq<TxLogEntryView>,
    pub payments: Seq<PaymentData>,
    pub stored_txs: Seq<StoredTxView>,
    pub stored_proofs: Seq<StoredProofView>,
    pub next_child: u32,
    pub next_tx_log_id: u32,
}

impl<C: NodeClient> View for Wallet<C> {
    type V = WalletView;

    open spec fn view(&self) -> WalletView {
        WalletView {
            keychain: self.keychain,
            parent_key_id: self.parent_key_id,
            fee_schedule: self.fee_schedule,
            outputs: self.outputs@,
            tx_log: log_view(self.tx_log@),
            payments: self.payments@,
            stored_txs: stored_view(self.stored_txs@),
            stored_proofs: proofs_view(self.stored_proofs@),
            next_child: self.next_child,
            next_tx_log_id: self.next_tx_log_id,
        }
    }
}

/// Which log entries a query asks for.
pub struct TxQuery {
    pub tx_id: Option<u32>,
    pub tx_slate_id: Option<u128>,
    pub parent_key_id: Option<Identifier>,
    /// Only transactions that are neither confirmed nor cancelled.
    pub outstanding_only: bool,
}

/// Whether a log entry is one that the query asks for.
pub open spec fn tx_matches(t: TxLogEntryView, q: TxQuery) -> bool {
    &&& q.parent_key_id matches Some(k) ==> t.parent_key_id == k
    &&& q.tx_id matches Some(i) ==> t.id == i
    &&& q.tx_slate_id matches Some(s) ==> t.tx_slate_id == Some(s)
    &&& q.outstanding_only ==> !t.confirmed && (t.tx_type == TxLogEntryType::TxReceived
        || t.tx_type == TxLogEntryType::TxSent)
}

/// The positions in the log of the entries that the query asks for.
pub open spec fn matching_txs(log: Seq<TxLogEntryView>, q: TxQuery) -> Seq<int> {
    indices_where(log, |t: TxLogEntryView| tx_matches(t, q))
}

/// Which outputs a query asks for.
pub struct OutputQuery {
    pub show_spent: bool,
    pub tx_id: Option<u32>,
    pub slate_id: Option<u128>,
    pub parent_key_id: Option<Identifier>,
}

/// Whether an output is one that the query asks for.
pub open spec fn output_matches(o: OutputData, q: OutputQuery) -> bool {
    &&& q.show_spent || o.status != OutputStatus::Spent
    &&& q.tx_id matches Some(i) ==> o.tx_log_entry == Some(i)
    &&& q.slate_id matches Some(s) ==> o.slate_id == Some(s)
    &&& q.parent_key_id matches Some(k) ==> o.root_key_id == k
}

/// The positions of the outputs that the query asks for.
pub open spec fn matching_outputs(outputs: Seq<OutputData>, q: OutputQuery) -> Seq<int> {
    indices_where(outputs, |o: OutputData| output_matches(o, q))
}

/// Whether an output was created or is spent by the given transaction of
/// the given account.
pub open spec fn belongs_to(o: OutputData, tx_id: u32, parent_key_id: Identifier) -> bool {
    o.tx_log_entry == Some(tx_id) && o.root_key_id == parent_key_id
}

/// An output after its transaction was cancelled: one that the transaction
/// would have created is given up, one that it had locked is free again.
pub open spec fn cancelled_output(o: OutputData) -> OutputData {
    OutputData {
        status: match o.status {
            OutputStatus::Unconfirmed => OutputStatus::Cancelled,
            OutputStatus::Locked => OutputStatus::Unspent,
            other => other,
        },
        ..o
    }
}

/// A log entry after its transaction was cancelled.
pub open spec fn cancelled_entry(t: TxLogEntryView) -> TxLogEntryView {
    TxLogEntryView {
        tx_type: match t.tx_type {
            TxLogEntryType::TxSent => TxLogEntryType::TxSentCancelled,
            TxLogEntryType::TxReceived => TxLogEntryType::TxReceivedCancelled,
            other => other,
        },
        ..t
    }
}

/// The outputs after the given transaction was cancelled.
pub open spec fn outputs_after_cancel(
    outputs: Seq<OutputData>,
    tx_id: u32,
    parent_key_id: Identifier,
) -> Seq<OutputData> {
    outputs.map_values(
        |o: OutputData|
            if belongs_to(o, tx_id, parent_key_id) {
                cancelled_output(o)
            } else {
                o
            },
    )
}

/// The payments after those of the given slate were cancelled.
pub open spec fn payments_after_cancel(payments: Seq<PaymentData>, slate_id: u128) -> Seq<
    PaymentData,
> {
    payments.map_values(
        |p: PaymentData|
            if p.slate_id == slate_id {
                PaymentData { status: OutputStatus::Cancelled, ..p }
            } else {
                p
            },
    )
}

/// The height at which the chain shows a commitment, if it shows it.
pub open spec fn chain_height_of(chain: Seq<ChainOutput>, commit: Point) -> Option<u64>
    decreases chain.len(),
{
    if chain.len() == 0 {
        None
    } else {
        match chain_height_of(chain.drop_last(), commit) {
            Some(h) => Some(h),
            None => if chain.last().commit == commit {
                Some(chain.last().height)
            } else {
                None
            },
        }
    }
}

/// Whether the wallet asks the chain about an output: it belongs to the
/// account and is neither spent nor given up.
pub open spec fn watched(o: OutputData, parent_key_id: Identifier) -> bool {
    o.root_key_id == parent_key_id && (o.status == OutputStatus::Unconfirmed || o.status
        == OutputStatus::Unspent || o.status == OutputStatus::Locked)
}

/// An output after the chain was asked about it. One that the chain shows
/// takes the height from there and, if it was unconfirmed, becomes unspent.
/// One that the chain does not show is spent, unless it was never confirmed.
pub open spec fn refreshed_output(
    o: OutputData,
    parent_key_id: Identifier,
    chain: Seq<ChainOutput>,
) -> OutputData {
    if !watched(o, parent_key_id) {
        o
    } else {
        match chain_height_of(chain, o.commit) {
            Some(h) => OutputData {
                height: h,
                status: if o.status == OutputStatus::Unconfirmed {
                    OutputStatus::Unspent
                } else {
                    o.status
                },
                ..o
            },
            None => OutputData {
                status: if o.status == OutputStatus::Unconfirmed {
                    OutputStatus::Unconfirmed
                } else {
                    OutputStatus::Spent
                },
                ..o
            },
        }
    }
}

/// Whether an output is evidence that its transaction is on the chain: it
/// was unconfirmed and the chain shows it.
pub open spec fn confirms(
    o: OutputData,
    parent_key_id: Identifier,
    chain: Seq<ChainOutput>,
) -> bool {
    &&& watched(o, parent_key_id)
    &&& o.status == OutputStatus::Unconfirmed
    &&& !o.is_coinbase
    &&& chain_height_of(chain, o.commit) is Some
}

/// Whether some output of the wallet is evidence that the transaction of a
/// log entry is on the chain.
pub open spec fn is_confirmed_by(
    t: TxLogEntryView,
    outputs: Seq<OutputData>,
    parent_key_id: Identifier,
    chain: Seq<ChainOutput>,
) -> bool {
    t.parent_key_id == parent_key_id && exists|i: int|
        0 <= i < outputs.len() && confirms(#[trigger] outputs[i], parent_key_id, chain)
            && outputs[i].tx_log_entry == Some(t.id)
}

/// A log entry after the chain was asked about the outputs.
pub open spec fn refreshed_entry(
    t: TxLogEntryView,
    outputs: Seq<OutputData>,
    parent_key_id: Identifier,
    chain: Seq<ChainOutput>,
    now: i64,
) -> TxLogEntryView {
    if is_confirmed_by(t, outputs, parent_key_id, chain) {
        TxLogEntryView { confirmed: true, confirmation_ts: Some(now), ..t }
    } else {
        t
    }
}

/// The outputs after the chain was asked about those of an account.
pub open spec fn refreshed_outputs(
    outputs: Seq<OutputData>,
    parent_key_id: Identifier,
    chain: Seq<ChainOutput>,
) -> Seq<OutputData> {
    outputs.map_values(|o: OutputData| refreshed_output(o, parent_key_id, chain))
}

/// The records after the chain was asked about the outputs of an account.
pub open spec fn refreshed(
    w: WalletView,
    parent_key_id: Identifier,
    chain: Seq<ChainOutput>,
    now: i64,
) -> WalletView {
    WalletView {
        outputs: refreshed_outputs(w.outputs, parent_key_id, chain),
        tx_log: w.tx_log.map_values(
            |t: TxLogEntryView| refreshed_entry(t, w.outputs, parent_key_id, chain, now),
        ),
        ..w
    }
}

/// The commitments of the outputs that the wallet asks the chain about.
pub open spec fn watched_commits(
    outputs: Seq<OutputData>,
    parent_key_id: Identifier,
) -> Seq<Point> {
    pick(outputs, indices_where(outputs, |o: OutputData| watched(o, parent_key_id))).map_values(
        |o: OutputData| o.commit,
    )
}

proof fn lemma_chain_height_first(chain: Seq<ChainOutput>, commit: Point, i: int)
    requires
        0 <= i <= chain.len(),
        forall|j: int| 0 <= j < i ==> (#[trigger] chain[j]).commit != commit,
        i < chain.len() ==> chain[i].commit == commit,
    ensures
        chain_height_of(chain, commit) == if i < chain.len() {
            Some(chain[i].height)
        } else {
            None
        },
    decreases chain.len(),
{
    if chain.len() > 0 {
        let front = chain.drop_last();
        if i < chain.len() - 1 {
            lemma_chain_height_first(front, commit, i);
        } else {
            lemma_chain_height_first(front, commit, front.len() as int);
        }
    }
}

pub(crate) fn find_on_chain(chain: &Vec<ChainOutput>, commit: Point) -> (found: Option<u64>)
    ensures
        found == chain_height_of(chain@, commit),
{
    let mut i: usize = 0;
    while i < chain.len()
        invariant
            i <= chain.len(),
            forall|j: int| 0 <= j < i ==> (#[trigger] chain@[j]).commit != commit,
        decreases chain.len() - i,
    {
        if chain[i].commit == commit {
            proof {
                lemma_chain_height_first(chain@, commit, i as int);
            }
            return Some(chain[i].height);
        }
        i = i + 1;
    }
    proof {
        lemma_chain_height_first(chain@, commit, i as int);
    }
    None
}

pub(crate) fn contains_id(ids: &Vec<u32>, id: u32) -> (found: bool)
    ensures
        found == ids@.contains(id),
{
    let mut i: usize = 0;
    while i < ids.len()
        invariant
            i <= ids.len(),
            forall|j: int| 0 <= j < i ==> (#[trigger] ids@[j]) != id,
        decreases ids.len() - i,
    {
        if ids[i] == id {
            return true;
        }
        i = i + 1;
    }
    false
}

fn is_watched(o: &OutputData, parent_key_id: &Identifier) -> (ok: bool)
    ensures
        ok == watched(*o, *parent_key_id),
{
    o.root_key_id == *parent_key_id && (o.status == OutputStatus::Unconfirmed || o.status
        == OutputStatus::Unspent || o.status == OutputStatus::Locked)
}

fn query_admits_tx(
    t: &TxLogEntry,
    tx_id: Option<u32>,
    tx_slate_id: Option<u128>,
    parent_key_id: Option<Identifier>,
    outstanding_only: bool,
) -> (ok: bool)
    ensures
        ok == tx_matches(t@, TxQuery { tx_id, tx_slate_id, parent_key_id, outstanding_only }),
{
    let by_parent = match parent_key_id {
        Some(k) => t.parent_key_id == k,
        None => true,
    };
    let by_id = match tx_id {
        Some(i) => t.id == i,
        None => true,
    };
    let by_slate = match tx_slate_id {
        Some(s) => t.tx_slate_id == Some(s),
        None => true,
    };
    let by_outstanding = !outstanding_only || (!t.confirmed && (t.tx_type
        == TxLogEntryType::TxReceived || t.tx_type == TxLogEntryType::TxSent));
    by_parent && by_id && by_slate && by_outstanding
}

fn query_admits_output(
    o: &OutputData,
    show_spent: bool,
    tx_id: Option<u32>,
    slate_id: Option<u128>,
    parent_key_id: Option<Identifier>,
) -> (ok: bool)
    ensures
        ok == output_matches(*o, OutputQuery { show_spent, tx_id, slate_id, parent_key_id }),
{
    let by_status = show_spent || o.status != OutputStatus::Spent;
    let by_id = match tx_id {
        Some(i) => o.tx_log_entry == Some(i),
        None => true,
    };
    let by_slate = match slate_id {
        Some(s) => o.slate_id == Some(s),
        None => true,
    };
    let by_parent = match parent_key_id {
        Some(k) => o.root_key_id == k,
        None => true,
    };
    by_status && by_id && by_slate && by_parent
}

/// The positions as mathematical integers.
pub open spec fn positions(v: Seq<usize>) -> Seq<int> {
    v.map_values(|i: usize| i as int)
}

impl<C: NodeClient> Wallet<C> {
    /// A wallet without records.
    pub fn new(
        client: C,
        keychain: Keychain,
        parent_key_id: Identifier,
        fee_schedule: FeeSchedule,
    ) -> (w: Wallet<C>)
        ensures
            w@ == (WalletView {
                keychain,
                parent_key_id,
                fee_schedule,
                outputs: Seq::empty(),
                tx_log: Seq::empty(),
                payments: Seq::empty(),
                stored_txs: Seq::empty(),
                stored_proofs: Seq::empty(),
                next_child: 0,
                next_tx_log_id: 0,
            }),
            w.client == client,
            consistent(w@),
    {
        let w = Wallet {
            client,
            keychain,
            parent_key_id,
            fee_schedule,
            outputs: Vec::new(),
            tx_log: Vec::new(),
            payments: Vec::new(),
            stored_txs: Vec::new(),
            stored_proofs: Vec::new(),
            next_child: 0,
            next_tx_log_id: 0,
        };
        assert(w@.tx_log =~= Seq::empty());
        assert(w@.stored_txs =~= Seq::empty());
        assert(w@.stored_proofs =~= Seq::empty());
        proof {
            lemma_empty_records_consistent(w@);
        }
        w
    }

    /// The positions in the log of the entries that a query asks for.
    pub fn find_txs(
        &self,
        tx_id: Option<u32>,
        tx_slate_id: Option<u128>,
        parent_key_id: Option<Identifier>,
        outstanding_only: bool,
    ) -> (found: Vec<usize>)
        ensures
            positions(found@) == matching_txs(
                self@.tx_log,
                TxQuery { tx_id, tx_slate_id, parent_key_id, outstanding_only },
            ),
            forall|k: int| 0 <= k < found@.len() ==> (#[trigger] found@[k]) < self.tx_log.len(),
    {
        let ghost q = TxQuery { tx_id, tx_slate_id, parent_key_id, outstanding_only };
        let ghost f = |t: TxLogEntryView| tx_matches(t, q);
        let mut found: Vec<usize> = Vec::new();
        let mut i: usize = 0;
        assert(positions(found@) =~= indices_where(self@.tx_log.subrange(0, 0), f));
        while i < self.tx_log.len()
            invariant
                i <= self.tx_log.len(),
                q == (TxQuery { tx_id, tx_slate_id, parent_key_id, outstanding_only }),
                f == (|t: TxLogEntryView| tx_matches(t, q)),
                positions(found@) == indices_where(self@.tx_log.subrange(0, i as int), f),
                forall|k: int| 0 <= k < found@.len() ==> (#[trigger] found@[k]) < i,
            decreases self.tx_log.len() - i,
        {
            let ghost before = positions(found@);
            proof {
                assert(self@.tx_log.subrange(0, i as int + 1) =~= self@.tx_log.subrange(
                    0,
                    i as int,
                ).push(self@.tx_log[i as int]));
                lemma_indices_where_push(
                    self@.tx_log.subrange(0, i as int),
                    f,
                    self@.tx_log[i as int],
                );
            }
            if query_admits_tx(
                &self.tx_log[i],
                tx_id,
                tx_slate_id,
                parent_key_id,
                outstanding_only,
            ) {
                found.push(i);
                assert(positions(found@) =~= before.push(i as int));
            }
            i = i + 1;
        }
        proof {
            assert(self@.tx_log.subrange(0, i as int) =~= self@.tx_log);
        }
        found
    }

    /// The positions of the outputs that a query asks for.
    pub fn find_outputs(
        &self,
        show_spent: bool,
        tx_id: Option<u32>,
        slate_id: Option<u128>,
        parent_key_id: Option<Identifier>,
    ) -> (found: Vec<usize>)
        ensures
            positions(found@) == matching_outputs(
                self@.outputs,
                OutputQuery { show_spent, tx_id, slate_id, parent_key_id },
            ),
            forall|k: int| 0 <= k < found@.len() ==> (#[trigger] found@[k]) < self.outputs.len(),
    {
        let ghost q = OutputQuery { show_spent, tx_id, slate_id, parent_key_id };
        let ghost f = |o: OutputData| output_matches(o, q);
        let mut found: Vec<usize> = Vec::new();
        let mut i: usize = 0;
        assert(positions(found@) =~= indices_where(self@.outputs.subrange(0, 0), f));
        while i < self.outputs.len()
            invariant
                i <= self.outputs.len(),
                q == (OutputQuery { show_spent, tx_id, slate_id, parent_key_id }),
                f == (|o: OutputData| output_matches(o, q)),
                positions(found@) == indices_where(self@.outputs.subrange(0, i as int), f),
                forall|k: int| 0 <= k < found@.len() ==> (#[trigger] found@[k]) < i,
            decreases self.outputs.len() - i,
        {
            let ghost before = positions(found@);
            proof {
                assert(self@.outputs.subrange(0, i as int + 1) =~= self@.outputs.subrange(
                    0,
                    i as int,
                ).push(self@.outputs[i as int]));
                lemma_indices_where_push(
                    self@.outputs.subrange(0, i as int),
                    f,
                    self@.outputs[i as int],
                );
            }
            if query_admits_output(&self.outputs[i], show_spent, tx_id, slate_id, parent_key_id) {
                found.push(i);
                assert(positions(found@) =~= before.push(i as int));
            }
            i = i + 1;
        }
        proof {
            assert(self@.outputs.subrange(0, i as int) =~= self@.outputs);
        }
        found
    }

    /// The log entries that a query asks for, in the order of the log.
    pub fn retrieve_txs(
        &self,
        tx_id: Option<u32>,
        tx_slate_id: Option<u128>,
        parent_key_id: Option<Identifier>,
        outstanding_only: bool,
    ) -> (txs: Vec<TxLogEntry>)
        ensures
            log_view(txs@) == pick(
                self@.tx_log,
                matching_txs(
                    self@.tx_log,
                    TxQuery { tx_id, tx_slate_id, parent_key_id, outstanding_only },
                ),
            ),
    {
        let found = self.find_txs(tx_id, tx_slate_id, parent_key_id, outstanding_only);
        let mut txs: Vec<TxLogEntry> = Vec::new();
        let mut k: usize = 0;
        assert(log_view(txs@) =~= pick(self@.tx_log, positions(found@).subrange(0, 0)));
        while k < found.len()
            invariant
                k <= found.len(),
                forall|j: int| 0 <= j < found@.len() ==> (#[trigger] found@[j]) < self.tx_log.len(),
                log_view(txs@) == pick(self@.tx_log, positions(found@).subrange(0, k as int)),
            decreases found.len() - k,
        {
            let ghost before = log_view(txs@);
            let entry = self.tx_log[found[k]].clone();
            txs.push(entry);
            proof {
                assert(log_view(txs@) =~= before.push(entry@));
                assert(pick(self@.tx_log, positions(found@).subrange(0, k as int + 1)) =~= pick(
                    self@.tx_log,
                    positions(found@).subrange(0, k as int),
                ).push(self@.tx_log[found@[k as int] as int]));
            }
            k = k + 1;
        }
        proof {
            assert(positions(found@).subrange(0, k as int) =~= positions(found@));
        }
        txs
    }

    /// The outputs that a query asks for, in the order of the wallet.
    pub fn retrieve_outputs(
        &self,
        show_spent: bool,
        tx_id: Option<u32>,
        slate_id: Option<u128>,
        parent_key_id: Option<Identifier>,
    ) -> (outputs: Vec<OutputData>)
        ensures
            outputs@ == pick(
                self@.outputs,
                matching_outputs(
                    self@.outputs,
                    OutputQuery { show_spent, tx_id, slate_id, parent_key_id },
                ),
            ),
    {
        let found = self.find_outputs(show_spent, tx_id, slate_id, parent_key_id);
        let mut outputs: Vec<OutputData> = Vec::new();
        let mut k: usize = 0;
        assert(outputs@ =~= pick(self@.outputs, positions(found@).subrange(0, 0)));
        while k < found.len()
            invariant
                k <= found.len(),
                forall|j: int|
                    0 <= j < found@.len() ==> (#[trigger] found@[j]) < self.outputs.len(),
                outputs@ == pick(self@.outputs, positions(found@).subrange(0, k as int)),
            decreases found.len() - k,
        {
            outputs.push(self.outputs[found[k]]);
            proof {
                assert(pick(self@.outputs, positions(found@).subrange(0, k as int + 1)) =~= pick(
                    self@.outputs,
                    positions(found@).subrange(0, k as int),
                ).push(self@.outputs[found@[k as int] as int]));
            }
            k = k + 1;
        }
        proof {
            assert(positions(found@).subrange(0, k as int) =~= positions(found@));
        }
        outputs
    }

    /// The commitments of the outputs that the wallet asks the chain about.
    pub fn commits_to_refresh(&self, parent_key_id: &Identifier) -> (commits: Vec<Point>)
        ensures
            commits@ == watched_commits(self@.outputs, *parent_key_id),
    {
        let ghost f = |o: OutputData| watched(o, *parent_key_id);
        let mut commits: Vec<Point> = Vec::new();
        let mut i: usize = 0;
        assert(commits@ =~= watched_commits(self@.outputs.subrange(0, 0), *parent_key_id));
        while i < self.outputs.len()
            invariant
                i <= self.outputs.len(),
                f == (|o: OutputData| watched(o, *parent_key_id)),
                commits@ == watched_commits(self@.outputs.subrange(0, i as int), *parent_key_id),
            decreases self.outputs.len() - i,
        {
            proof {
                let prefix = self@.outputs.subrange(0, i as int);
                let next = self@.outputs.subrange(0, i as int + 1);
                assert(next =~= prefix.push(self@.outputs[i as int]));
                lemma_indices_where_push(prefix, f, self@.outputs[i as int]);
                lemma_indices_where_sound(prefix, f);
                if f(self@.outputs[i as int]) {
                    assert(watched_commits(next, *parent_key_id) =~= watched_commits(
                        prefix,
                        *parent_key_id,
                    ).push(self@.outputs[i as int].commit));
                } else {
                    assert(watched_commits(next, *parent_key_id) =~= watched_commits(
                        prefix,
                        *parent_key_id,
                    ));
                }
            }
            if is_watched(&self.outputs[i], parent_key_id) {
                commits.push(self.outputs[i].commit);
            }
            i = i + 1;
        }
        proof {
            assert(self@.outputs.subrange(0, i as int) =~= self@.outputs);
        }
        commits
    }

    /// Brings the outputs of an account, and the log entries of their
    /// transactions, in line with what the chain shows.
    pub fn apply_chain_outputs(
        &mut self,
        parent_key_id: &Identifier,
        chain: &Vec<ChainOutput>,
        now: i64,
    )
        ensures
            final(self)@ == refreshed(old(self)@, *parent_key_id, chain@, now),
            final(self).client == old(self).client,
            consistent(old(self)@) ==> consistent(final(self)@),
    {
        proof {
            if consistent(old(self)@) {
                lemma_refresh_keeps_consistent(old(self)@, *parent_key_id, chain@, now);
            }
        }
        let mut ids: Vec<u32> = Vec::new();
        let mut k: usize = 0;
        while k < self.outputs.len()
            invariant
                k <= self.outputs.len(),
                self.outputs.len() == old(self).outputs.len(),
                forall|j: int|
                    0 <= j < k ==> (#[trigger] self.outputs@[j]) == refreshed_output(
                        old(self).outputs@[j],
                        *parent_key_id,
                        chain@,
                    ),
                forall|j: int|
                    k <= j < self.outputs.len() ==> (#[trigger] self.outputs@[j]) == old(
                        self,
                    ).outputs@[j],
                forall|id: u32|
                    ids@.contains(id) <==> exists|j: int|
                        0 <= j < k && confirms(
                            #[trigger] old(self).outputs@[j],
                            *parent_key_id,
                            chain@,
                        ) && old(self).outputs@[j].tx_log_entry == Some(id),
                self.tx_log == old(self).tx_log,
                self.payments == old(self).payments,
                self.stored_txs == old(self).stored_txs,
                self.stored_proofs == old(self).stored_proofs,
                self.keychain == old(self).keychain,
                self.parent_key_id == old(self).parent_key_id,
                self.fee_schedule == old(self).fee_schedule,
                self.next_child == old(self).next_child,
                self.next_tx_log_id == old(self).next_tx_log_id,
                self.client == old(self).client,
            decreases self.outputs.len() - k,
        {
            let o = self.outputs[k];
            let ghost ids_before = ids@;
            if is_watched(&o, parent_key_id) {
                match find_on_chain(chain, o.commit) {
                    Some(h) => {
                        if o.status == OutputStatus::Unconfirmed {
                            if !o.is_coinbase {
                                match o.tx_log_entry {
                                    Some(id) => {
                                        ids.push(id);
                                    },
                                    None => {},
                                }
                            }
                            self.outputs[k].status = OutputStatus::Unspent;
                        }
                        self.outputs[k].height = h;
                    },
                    None => {
                        if o.status != OutputStatus::Unconfirmed {
                            self.outputs[k].status = OutputStatus::Spent;
                        }
                    },
                }
            }
            proof {
                let c = confirms(o, *parent_key_id, chain@) && o.tx_log_entry is Some;
                if c {
                    assert(ids@ =~= ids_before.push(o.tx_log_entry->Some_0));
                } else {
                    assert(ids@ =~= ids_before);
                }
                assert forall|id: u32|
                    ids@.contains(id) <==> exists|j: int|
                        0 <= j < k + 1 && confirms(
                            #[trigger] old(self).outputs@[j],
                            *parent_key_id,
                            chain@,
                        ) && old(self).outputs@[j].tx_log_entry == Some(id) by {
                    if ids@.contains(id) {
                        if ids_before.contains(id) {
                            let j = choose|j: int|
                                0 <= j < k && confirms(
                                    #[trigger] old(self).outputs@[j],
                                    *parent_key_id,
                                    chain@,
                                ) && old(self).outputs@[j].tx_log_entry == Some(id);
                            assert(0 <= j < k + 1);
                        } else {
                            let i = choose|i: int| 0 <= i < ids@.len() && ids@[i] == id;
                            if i < ids_before.len() {
                                assert(ids_before[i] == id);
                            }
                            assert(c && o.tx_log_entry == Some(id));
                            assert(confirms(old(self).outputs@[k as int], *parent_key_id, chain@));
                        }
                    }
                    if exists|j: int|
                        0 <= j < k + 1 && confirms(
                            #[trigger] old(self).outputs@[j],
                            *parent_key_id,
                            chain@,
                        ) && old(self).outputs@[j].tx_log_entry == Some(id) {
                        let j = choose|j: int|
                            0 <= j < k + 1 && confirms(
                                #[trigger] old(self).outputs@[j],
                                *parent_key_id,
                                chain@,
                            ) && old(self).outputs@[j].tx_log_entry == Some(id);
                        if j < k {
                            assert(ids_before.contains(id));
                            let i = choose|i: int| 0 <= i < ids_before.len() && ids_before[i] == id;
                            assert(ids@[i] == id);
                        } else {
                            assert(ids@[ids@.len() - 1] == id);
                        }
                    }
                }
            }
            k = k + 1;
        }
        assert(self.outputs@ =~= old(self)@.outputs.map_values(
            |o: OutputData| refreshed_output(o, *parent_key_id, chain@),
        ));
        let ghost outputs_after = self.outputs;
        let mut n: usize = 0;
        while n < self.tx_log.len()
            invariant
                n <= self.tx_log.len(),
                self.tx_log.len() == old(self).tx_log.len(),
                forall|j: int|
                    0 <= j < n ==> (#[trigger] self.tx_log@[j])@ == refreshed_entry(
                        old(self).tx_log@[j]@,
                        old(self)@.outputs,
                        *parent_key_id,
                        chain@,
                        now,
                    ),
                forall|j: int|
                    n <= j < self.tx_log.len() ==> (#[trigger] self.tx_log@[j]) == old(
                        self,
                    ).tx_log@[j],
                forall|id: u32|
                    ids@.contains(id) <==> exists|j: int|
                        0 <= j < old(self).outputs.len() && confirms(
                            #[trigger] old(self).outputs@[j],
                            *parent_key_id,
                            chain@,
                        ) && old(self).outputs@[j].tx_log_entry == Some(id),
                self.outputs == outputs_after,
                self.payments == old(self).payments,
                self.stored_txs == old(self).stored_txs,
                self.stored_proofs == old(self).stored_proofs,
                self.keychain == old(self).keychain,
                self.parent_key_id == old(self).parent_key_id,
                self.fee_schedule == old(self).fee_schedule,
                self.next_child == old(self).next_child,
                self.next_tx_log_id == old(self).next_tx_log_id,
                self.client == old(self).client,
            decreases self.tx_log.len() - n,
        {
            let t = &self.tx_log[n];
            if t.parent_key_id == *parent_key_id && contains_id(&ids, t.id) {
                self.tx_log[n].confirmed = true;
                self.tx_log[n].confirmation_ts = Some(now);
            }
            n = n + 1;
        }
        assert(self@.tx_log =~= old(self)@.tx_log.map_values(
            |t: TxLogEntryView|
                refreshed_entry(t, old(self)@.outputs, *parent_key_id, chain@, now),
        ));
    }

    /// The outputs as the chain shows them for an account. The records
    /// stay as they are.
    pub fn outputs_on_chain(&self, parent_key_id: &Identifier, chain: &Vec<ChainOutput>) -> (r: Vec<
        OutputData,
    >)
        ensures
            r@ == refreshed_outputs(self@.outputs, *parent_key_id, chain@),
    {
        let mut r: Vec<OutputData> = Vec::new();
        let mut k: usize = 0;
        while k < self.outputs.len()
            invariant
                k <= self.outputs.len(),
                r@.len() == k,
                forall|j: int|
                    0 <= j < k ==> (#[trigger] r@[j]) == refreshed_output(
                        self.outputs@[j],
                        *parent_key_id,
                        chain@,
                    ),
            decreases self.outputs.len() - k,
        {
            let mut o = self.outputs[k];
            if is_watched(&o, parent_key_id) {
                match find_on_chain(chain, o.commit) {
                    Some(h) => {
                        if o.status == OutputStatus::Unconfirmed {
                            o.status = OutputStatus::Unspent;
                        }
                        o.height = h;
                    },
                    None => {
                        if o.status != OutputStatus::Unconfirmed {
                            o.status = OutputStatus::Spent;
                        }
                    },
                }
            }
            r.push(o);
            k = k + 1;
        }
        assert(r@ =~= refreshed_outputs(self@.outputs, *parent_key_id, chain@));
        r
    }

    /// Asks the node about the outputs of an account and brings the records
    /// in line with what it shows. Where the node fails, nothing changes.
    pub fn refresh_outputs(&mut self, parent_key_id: &Identifier) -> (r: Result<(), ErrorKind>)
        ensures
            final(self).client == old(self).client,
            match r {
                Ok(_) => exists|chain: Seq<ChainOutput>, now: i64|
                    #![auto]
                    final(self)@ == refreshed(old(self)@, *parent_key_id, chain, now),
                Err(e) => e == ErrorKind::NodeUnavailable && final(self)@ == old(self)@,
            },
            consistent(old(self)@) ==> consistent(final(self)@),
    {
        match self.client.get_chain_height() {
            Ok(_) => {},
            Err(_) => {
                return Err(ErrorKind::NodeUnavailable);
            },
        }
        let commits = self.commits_to_refresh(parent_key_id);
        match self.client.get_outputs_from_node(&commits) {
            Ok(chain) => {
                let now = now_millis();
                self.apply_chain_outputs(parent_key_id, &chain, now);
                Ok(())
            },
            Err(_) => Err(ErrorKind::NodeUnavailable),
        }
    }

    /// Cancels the log entry at position `i` and gives up or frees the
    /// outputs of its transaction. Where the log has no such position,
    /// nothing changes.
    pub fn cancel_tx_and_outputs(&mut self, i: usize)
        ensures
            i < old(self).tx_log.len() ==> final(self)@ == (WalletView {
                tx_log: old(self)@.tx_log.update(
                    i as int,
                    cancelled_entry(old(self)@.tx_log[i as int]),
                ),
                outputs: outputs_after_cancel(
                    old(self)@.outputs,
                    old(self)@.tx_log[i as int].id,
                    old(self)@.tx_log[i as int].parent_key_id,
                ),
                ..old(self)@
            }),
            i >= old(self).tx_log.len() ==> final(self)@ == old(self)@,
            final(self).client == old(self).client,
            consistent(old(self)@) ==> consistent(final(self)@),
    {
        if i >= self.tx_log.len() {
            return ;
        }
        proof {
            if consistent(old(self)@) {
                lemma_cancel_keeps_consistent(old(self)@, i as int);
                lemma_consistent_depends(
                    after_cancel(old(self)@, i as int),
                    WalletView {
                        tx_log: old(self)@.tx_log.update(
                            i as int,
                            cancelled_entry(old(self)@.tx_log[i as int]),
                        ),
                        outputs: outputs_after_cancel(
                            old(self)@.outputs,
                            old(self)@.tx_log[i as int].id,
                            old(self)@.tx_log[i as int].parent_key_id,
                        ),
                        ..old(self)@
                    },
                );
            }
        }
        let tx_id = self.tx_log[i].id;
        let parent_key_id = self.tx_log[i].parent_key_id;
        let tx_type = self.tx_log[i].tx_type;
        if tx_type == TxLogEntryType::TxSent {
            self.tx_log[i].tx_type = TxLogEntryType::TxSentCancelled;
        } else if tx_type == TxLogEntryType::TxReceived {
            self.tx_log[i].tx_type = TxLogEntryType::TxReceivedCancelled;
        }
        assert(self@.tx_log =~= old(self)@.tx_log.update(
            i as int,
            cancelled_entry(old(self)@.tx_log[i as int]),
        ));
        let ghost log_after = self.tx_log;
        let mut k: usize = 0;
        while k < self.outputs.len()
            invariant
                k <= self.outputs.len(),
                self.outputs.len() == old(self).outputs.len(),
                forall|j: int|
                    0 <= j < k ==> (#[trigger] self.outputs@[j]) == outputs_after_cancel(
                        old(self)@.outputs,
                        tx_id,
                        parent_key_id,
                    )[j],
                forall|j: int|
                    k <= j < self.outputs.len() ==> (#[trigger] self.outputs@[j]) == old(
                        self,
                    ).outputs@[j],
                self.tx_log == log_after,
                self.payments == old(self).payments,
                self.stored_txs == old(self).stored_txs,
                self.stored_proofs == old(self).stored_proofs,
                self.keychain == old(self).keychain,
                self.parent_key_id == old(self).parent_key_id,
                self.fee_schedule == old(self).fee_schedule,
                self.next_child == old(self).next_child,
                self.next_tx_log_id == old(self).next_tx_log_id,
                self.client == old(self).client,
            decreases self.outputs.len() - k,
        {
            let o = self.outputs[k];
            if o.tx_log_entry == Some(tx_id) && o.root_key_id == parent_key_id {
                if o.status == OutputStatus::Unconfirmed {
                    self.outputs[k].status = OutputStatus::Cancelled;
                } else if o.status == OutputStatus::Locked {
                    self.outputs[k].status = OutputStatus::Unspent;
                }
            }
            k = k + 1;
        }
        assert(self.outputs@ =~= outputs_after_cancel(old(self)@.outputs, tx_id, parent_key_id));
    }

    /// Cancels the payments of the given slate.
    pub fn cancel_payments(&mut self, slate_id: u128)
        ensures
            final(self)@ == (WalletView {
                payments: payments_after_cancel(old(self)@.payments, slate_id),
                ..old(self)@
            }),
            final(self).client == old(self).client,
            consistent(old(self)@) ==> consistent(final(self)@),
    {
        proof {
            lemma_consistent_depends(
                old(self)@,
                WalletView {
                    payments: payments_after_cancel(old(self)@.payments, slate_id),
                    ..old(self)@
                },
            );
        }
        let mut k: usize = 0;
        while k < self.payments.len()
            invariant
                k <= self.payments.len(),
                self.payments.len() == old(self).payments.len(),
                forall|j: int|
                    0 <= j < k ==> (#[trigger] self.payments@[j]) == payments_after_cancel(
                        old(self)@.payments,
                        slate_id,
                    )[j],
                forall|j: int|
                    k <= j < self.payments.len() ==> (#[trigger] self.payments@[j]) == old(
                        self,
                    ).payments@[j],
                self.tx_log == old(self).tx_log,
                self.outputs == old(self).outputs,
                self.stored_txs == old(self).stored_txs,
                self.stored_proofs == old(self).stored_proofs,
                self.keychain == old(self).keychain,
                self.parent_key_id == old(self).parent_key_id,
                self.fee_schedule == old(self).fee_schedule,
                self.next_child == old(self).next_child,
                self.next_tx_log_id == old(self).next_tx_log_id,
                self.client == old(self).client,
            decreases self.payments.len() - k,
        {
            if self.payments[k].slate_id == slate_id {
                self.payments[k].status = OutputStatus::Cancelled;
            }
            k = k + 1;
        }
        assert(self.payments@ =~= payments_after_cancel(old(self)@.payments, slate_id));
    }
}

} // verus!
