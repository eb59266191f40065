//! The records that a wallet keeps: outputs, transaction log entries and
//! payments, and the secrets of one signing session.

use vstd::prelude::*;
use vstd::string::*;
use crate::aggsig::Signature;
use crate::group::{Point, Scalar};
use crate::keychain::Identifier;
use crate::slate::text_view;

verus! {

/// The state of an output or of a payment.
#[derive(Clone, Copy, PartialEq, Eq, Structural, Debug)]
pub enum OutputStatus {
    /// Created by a transaction that the chain has not shown yet.
    Unconfirmed,
    /// On the chain and free to spend.
    Unspent,
    /// Committed as an input to a transaction that is under way.
    Locked,
    /// Spent on the chain.
    Spent,
    /// Seen on the chain; used for payments to others.
    Confirmed,
    /// Given up together with its transaction.
    Cancelled,
}

/// An output that the wallet owns or has owned.
#[derive(Clone, Copy, PartialEq, Eq, Structural, Debug)]
pub struct OutputData {
    /// The account that the output belongs to.
    pub root_key_id: Identifier,
    /// The key path of the output's blinding factor.
    pub key_id: Identifier,
    pub commit: Point,
    pub value: u64,
    pub status: OutputStatus,
    /// The height of the block in which the output was last seen.
    pub height: u64,
    /// The height from which a coinbase output can be spent.
    pub lock_height: u64,
    pub is_coinbase: bool,
    /// The log entry of the transaction that created or spends the output.
    pub tx_log_entry: Option<u32>,
    /// The slate of the transaction that created the output.
    pub slate_id: Option<u128>,
}

/// The number of blocks that confirm an output at the given chain height.
pub open spec fn confirmations(output: OutputData, current_height: u64) -> int {
    if output.status == OutputStatus::Unconfirmed || output.height > current_height {
        0
    } else {
        1 + (current_height - output.height)
    }
}

/// Whether an output can be an input of a new transaction: it is unspent,
/// not locked, mature, and confirmed deeply enough.
pub open spec fn eligible(
    output: OutputData,
    current_height: u64,
    minimum_confirmations: u64,
) -> bool {
    &&& output.status == OutputStatus::Unspent
    &&& !(output.is_coinbase && output.lock_height > current_height)
    &&& confirmations(output, current_height) >= minimum_confirmations
}

impl OutputData {
    /// Whether the output can be an input of a new transaction.
    pub fn eligible_to_spend(&self, current_height: u64, minimum_confirmations: u64) -> (ok: bool)
        ensures
            ok == eligible(*self, current_height, minimum_confirmations),
    {
        if self.status != OutputStatus::Unspent {
            return false;
        }
        if self.is_coinbase && self.lock_height > current_height {
            return false;
        }
        if minimum_confirmations == 0 {
            return true;
        }
        if self.height > current_height {
            return false;
        }
        current_height - self.height >= minimum_confirmations - 1
    }
}

/// What a log entry records.
#[derive(Clone, Copy, PartialEq, Eq, Structural, Debug)]
pub enum TxLogEntryType {
    /// A coinbase output that the chain has confirmed.
    ConfirmedCoinbase,
    /// A transaction that pays this wallet.
    TxReceived,
    /// A transaction that this wallet pays with.
    TxSent,
    /// A received transaction that was cancelled.
    TxReceivedCancelled,
    /// A sent transaction that was cancelled.
    TxSentCancelled,
}

/// The message of one participant, as a log entry keeps it.
#[derive(PartialEq, Eq, Debug)]
pub struct ParticipantMessageData {
    pub id: u64,
    pub public_key: Point,
    pub message: Option<String>,
    pub message_sig: Option<Signature>,
}

/// A participant's message as a mathematical value.
pub struct ParticipantMessageView {
    pub id: u64,
    pub public_key: Point,
    pub message: Option<Seq<char>>,
    pub message_sig: Option<Signature>,
}

impl View for ParticipantMessageData {
    type V = ParticipantMessageView;

    open spec fn view(&self) -> ParticipantMessageView {
        ParticipantMessageView {
            id: self.id,
            public_key: self.public_key,
            message: text_view(self.message),
            message_sig: self.message_sig,
        }
    }
}

impl Clone for ParticipantMessageData {
    fn clone(&self) -> (m: ParticipantMessageData)
        ensures
            m == *self,
    {
        ParticipantMessageData {
            id: self.id,
            public_key: self.public_key,
            message: match &self.message {
                Some(text) => Some(text.clone()),
                None => None,
            },
            message_sig: self.message_sig,
        }
    }
}

/// The messages of a list of participants as mathematical values.
pub open spec fn messages_view(ms: Seq<ParticipantMessageData>) -> Seq<ParticipantMessageView> {
    ms.map_values(|m: ParticipantMessageData| m@)
}

/// The optional messages of a log entry as a mathematical value.
pub open spec fn optional_messages_view(ms: Option<Vec<ParticipantMessageData>>) -> Option<
    Seq<ParticipantMessageView>,
> {
    match ms {
        Some(v) => Some(messages_view(v@)),
        None => None,
    }
}

/// One transaction in the wallet's log.
#[derive(PartialEq, Eq, Debug)]
pub struct TxLogEntry {
    /// The account that the transaction belongs to.
    pub parent_key_id: Identifier,
    /// The number of the entry in the log.
    pub id: u32,
    /// The slate that the transaction was negotiated with.
    pub tx_slate_id: Option<u128>,
    pub tx_type: TxLogEntryType,
    /// When the entry was made, in milliseconds since the Unix epoch.
    pub creation_ts: i64,
    /// When the chain first showed the transaction.
    pub confirmation_ts: Option<i64>,
    /// Whether the chain has shown an output of the transaction.
    pub confirmed: bool,
    /// Whether the transaction was handed to a node for broadcast.
    pub posted: Option<bool>,
    pub num_inputs: usize,
    pub num_outputs: usize,
    pub amount_credited: u64,
    pub amount_debited: u64,
    pub fee: Option<u64>,
    pub messages: Option<Vec<ParticipantMessageData>>,
    /// The slate id under which the transaction body is stored.
    pub stored_tx: Option<u128>,
    /// The slate id under which the payment proof is stored.
    pub stored_proof: Option<u128>,
    pub kernel_excess: Option<Point>,
    /// The key path of the relay address that the transaction was sent from.
    pub grinrelay_key_path: Option<u64>,
}

/// A log entry as a mathematical value.
pub struct TxLogEntryView {
    pub parent_key_id: Identifier,
    pub id: u32,
    pub tx_slate_id: Option<u128>,
    pub tx_type: TxLogEntryType,
    pub creation_ts: i64,
    pub confirmation_ts: Option<i64>,
    pub confirmed: bool,
    pub posted: Option<bool>,
    pub num_inputs: usize,
    pub num_outputs: usize,
    pub amount_credited: u64,
    pub amount_debited: u64,
    pub fee: Option<u64>,
    pub messages: Option<Seq<ParticipantMessageView>>,
    pub stored_tx: Option<u128>,
    pub stored_proof: Option<u128>,
    pub kernel_excess: Option<Point>,
    pub grinrelay_key_path: Option<u64>,
}

impl View for TxLogEntry {
    type V = TxLogEntryView;

    open spec fn view(&self) -> TxLogEntryView {
        TxLogEntryView {
            parent_key_id: self.parent_key_id,
            id: self.id,
            tx_slate_id: self.tx_slate_id,
            tx_type: self.tx_type,
            creation_ts: self.creation_ts,
            confirmation_ts: self.confirmation_ts,
            confirmed: self.confirmed,
            posted: self.posted,
            num_inputs: self.num_inputs,
            num_outputs: self.num_outputs,
            amount_credited: self.amount_credited,
            amount_debited: self.amount_debited,
            fee: self.fee,
            messages: optional_messages_view(self.messages),
            stored_tx: self.stored_tx,
            stored_proof: self.stored_proof,
            kernel_excess: self.kernel_excess,
            grinrelay_key_path: self.grinrelay_key_path,
        }
    }
}

/// The entries of a log as mathematical values.
pub open spec fn log_view(log: Seq<TxLogEntry>) -> Seq<TxLogEntryView> {
    log.map_values(|t: TxLogEntry| t@)
}

/// The entry that a new transaction gets in the log.
pub open spec fn new_log_entry(
    parent_key_id: Identifier,
    tx_type: TxLogEntryType,
    id: u32,
    creation_ts: i64,
) -> TxLogEntryView {
    TxLogEntryView {
        parent_key_id,
        id,
        tx_slate_id: None,
        tx_type,
        creation_ts,
        confirmation_ts: None,
        confirmed: false,
        posted: None,
        num_inputs: 0,
        num_outputs: 0,
        amount_credited: 0,
        amount_debited: 0,
        fee: None,
        messages: None,
        stored_tx: None,
        stored_proof: None,
        kernel_excess: None,
        grinrelay_key_path: None,
    }
}

/// Whether an entry stands for a transaction that is still under way or
/// done: it is not cancelled.
pub open spec fn is_active(t: TxLogEntryView) -> bool {
    t.tx_type != TxLogEntryType::TxSentCancelled && t.tx_type
        != TxLogEntryType::TxReceivedCancelled
}

impl Clone for TxLogEntry {
    fn clone(&self) -> (t: TxLogEntry)
        ensures
            t@ == self@,
    {
        let messages = match &self.messages {
            Some(v) => {
                let copy = v.clone();
                assert(copy@ =~= v@);
                Some(copy)
            },
            None => None,
        };
        TxLogEntry {
            parent_key_id: self.parent_key_id,
            id: self.id,
            tx_slate_id: self.tx_slate_id,
            tx_type: self.tx_type,
            creation_ts: self.creation_ts,
            confirmation_ts: self.confirmation_ts,
            confirmed: self.confirmed,
            posted: self.posted,
            num_inputs: self.num_inputs,
            num_outputs: self.num_outputs,
            amount_credited: self.amount_credited,
            amount_debited: self.amount_debited,
            fee: self.fee,
            messages,
            stored_tx: self.stored_tx,
            stored_proof: self.stored_proof,
            kernel_excess: self.kernel_excess,
            grinrelay_key_path: self.grinrelay_key_path,
        }
    }
}

impl TxLogEntry {
    /// The entry that a new transaction gets in the log.
    pub fn new(parent_key_id: Identifier, tx_type: TxLogEntryType, id: u32, creation_ts: i64) -> (t:
        TxLogEntry)
        ensures
            t@ == new_log_entry(parent_key_id, tx_type, id, creation_ts),
    {
        TxLogEntry {
            parent_key_id,
            id,
            tx_slate_id: None,
            tx_type,
            creation_ts,
            confirmation_ts: None,
            confirmed: false,
            posted: None,
            num_inputs: 0,
            num_outputs: 0,
            amount_credited: 0,
            amount_debited: 0,
            fee: None,
            messages: None,
            stored_tx: None,
            stored_proof: None,
            kernel_excess: None,
            grinrelay_key_path: None,
        }
    }
}

/// A payment to somebody else that a sent transaction contains.
#[derive(Clone, Copy, PartialEq, Eq, Structural, Debug)]
pub struct PaymentData {
    pub commit: Point,
    /// The amount paid; 0 where the transaction pays to several outputs and
    /// the share of each is not known.
    pub value: u64,
    pub status: OutputStatus,
    pub height: u64,
    pub lock_height: u64,
    pub slate_id: u128,
    /// The log entry of the transaction.
    pub id: Option<u32>,
}

/// A key path and the value of the output that it blinds.
#[derive(Clone, Copy, PartialEq, Eq, Structural, Debug)]
pub struct KeyedAmount {
    pub key_id: Identifier,
    pub value: u64,
}

/// The random values that one party brings to a negotiation.
#[derive(Clone, Copy, PartialEq, Eq, Structural, Debug)]
pub struct Entropy {
    /// The party's secret nonce.
    pub nonce: Scalar,
    /// The kernel offset, should this party be the one to set it.
    pub offset: Scalar,
}

/// The secrets of one party for one negotiation. They are never part of a
/// slate or of a record of the wallet.
#[derive(PartialEq, Eq, Debug)]
pub struct Context {
    /// The account that takes part.
    pub parent_key_id: Identifier,
    /// The party's share of the excess.
    pub sec_key: Scalar,
    pub sec_nonce: Scalar,
    /// The outputs that the party spends.
    pub input_ids: Vec<KeyedAmount>,
    /// The outputs that the party creates.
    pub output_ids: Vec<KeyedAmount>,
    pub fee: u64,
    /// The commitments of all inputs of the transaction.
    pub input_commits: Vec<Point>,
    /// The commitments of all outputs of the transaction.
    pub output_commits: Vec<Point>,
}

/// A context as a mathematical value.
pub struct ContextView {
    pub parent_key_id: Identifier,
    pub sec_key: Scalar,
    pub sec_nonce: Scalar,
    pub input_ids: Seq<KeyedAmount>,
    pub output_ids: Seq<KeyedAmount>,
    pub fee: u64,
    pub input_commits: Seq<Point>,
    pub output_commits: Seq<Point>,
}

impl View for Context {
    type V = ContextView;

    open spec fn view(&self) -> ContextView {
        ContextView {
            parent_key_id: self.parent_key_id,
            sec_key: self.sec_key,
            sec_nonce: self.sec_nonce,
            input_ids: self.input_ids@,
            output_ids: self.output_ids@,
            fee: self.fee,
            input_commits: self.input_commits@,
            output_commits: self.output_commits@,
        }
    }
}

/// The context of a party that has chosen no inputs and outputs yet.
pub open spec fn new_context(
    sec_key: Scalar,
    sec_nonce: Scalar,
    parent_key_id: Identifier,
) -> ContextView {
    ContextView {
        parent_key_id,
        sec_key,
        sec_nonce,
        input_ids: Seq::empty(),
        output_ids: Seq::empty(),
        fee: 0,
        input_commits: Seq::empty(),
        output_commits: Seq::empty(),
    }
}

impl Context {
    /// The context of a party that has chosen no inputs and outputs yet.
    pub fn new(sec_key: Scalar, sec_nonce: Scalar, parent_key_id: Identifier) -> (c: Context)
        ensures
            c@ == new_context(sec_key, sec_nonce, parent_key_id),
    {
        Context {
            parent_key_id,
            sec_key,
            sec_nonce,
            input_ids: Vec::new(),
            output_ids: Vec::new(),
            fee: 0,
            input_commits: Vec::new(),
            output_commits: Vec::new(),
        }
    }

    /// Overwrites the secrets, so that they do not outlive the negotiation.
    pub fn wipe(&mut self)
        ensures
            final(self)@ == (ContextView {
                sec_key: Scalar { v: 0 },
                sec_nonce: Scalar { v: 0 },
                ..old(self)@
            }),
    {
        self.sec_key = Scalar { v: 0 };
        self.sec_nonce = Scalar { v: 0 };
    }
}

} // verus!
