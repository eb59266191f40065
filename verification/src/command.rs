//! What the wallet's commands decide: which transport carries a slate, in
//! which order a payment takes its steps, and which records a listing
//! shows. The steps themselves, and all input and output, are the caller's.

use vstd::prelude::*;
use vstd::string::*;
use crate::error::{ErrorKind, is_argument_error, is_generic_error};
use crate::seqs::{indices_where, select, lemma_indices_where_push, lemma_indices_where_sound};
use crate::slate::{Slate, position};
use crate::types::{
    OutputData, OutputStatus, PaymentData, TxLogEntry, TxLogEntryType, TxLogEntryView, log_view,
};

verus! {

/// The transports that carry a slate between the parties.
#[derive(Clone, Copy, PartialEq, Eq, Structural, Debug)]
pub enum CommAdapter {
    /// The other wallet listens for HTTP requests.
    Http,
    /// The slate travels as a file.
    File,
    /// A relay network forwards the slate.
    Relay,
    /// A pairing service forwards the slate.
    Pairing,
    /// The payee is the paying wallet itself; nothing travels.
    Loopback,
}

/// The transport that a payment uses for a method name.
pub open spec fn adapter_of(method: Seq<char>) -> CommAdapter {
    if method == "http"@ {
        CommAdapter::Http
    } else if method == "file"@ {
        CommAdapter::File
    } else if method == "relay"@ {
        CommAdapter::Relay
    } else if method == "keybase"@ {
        CommAdapter::Pairing
    } else {
        CommAdapter::Loopback
    }
}

/// The transport that the answer to an invoice uses for a method name.
pub open spec fn invoice_adapter_of(method: Seq<char>) -> CommAdapter {
    if method == "http"@ {
        CommAdapter::Http
    } else if method == "file"@ {
        CommAdapter::File
    } else {
        CommAdapter::Loopback
    }
}

/// Whether a transport gives the answer of the other party at once.
pub open spec fn sync_of(adapter: CommAdapter) -> bool {
    adapter != CommAdapter::File
}

impl CommAdapter {
    /// The transport that a payment uses for a method name.
    pub fn for_method(method: &String) -> (adapter: CommAdapter)
        ensures
            adapter == adapter_of(method@),
    {
        if *method == String::from_str("http") {
            CommAdapter::Http
        } else if *method == String::from_str("file") {
            CommAdapter::File
        } else if *method == String::from_str("relay") {
            CommAdapter::Relay
        } else if *method == String::from_str("keybase") {
            CommAdapter::Pairing
        } else {
            CommAdapter::Loopback
        }
    }

    /// The transport that the answer to an invoice uses for a method name.
    pub fn for_invoice_method(method: &String) -> (adapter: CommAdapter)
        ensures
            adapter == invoice_adapter_of(method@),
    {
        if *method == String::from_str("http") {
            CommAdapter::Http
        } else if *method == String::from_str("file") {
            CommAdapter::File
        } else {
            CommAdapter::Loopback
        }
    }

    /// Whether the transport gives the answer of the other party at once.
    pub fn supports_sync(&self) -> (sync: bool)
        ensures
            sync == sync_of(*self),
    {
        match self {
            CommAdapter::File => false,
            _ => true,
        }
    }
}

/// What the loopback transport hands to the payee: the slate as it is.
pub fn loopback_send_tx_sync(slate: &Slate) -> (received: Slate)
    ensures
        received@ == slate@,
{
    slate.clone()
}

/// How a wallet listens for slates.
#[derive(Clone, Copy, PartialEq, Eq, Structural, Debug)]
pub enum ListenMethod {
    Http,
    Pairing,
    /// The method is not known; the wallet does not listen.
    Nothing,
}

/// The way of listening that a method name stands for.
pub open spec fn listen_method_of(method: Seq<char>) -> ListenMethod {
    if method == "http"@ {
        ListenMethod::Http
    } else if method == "keybase"@ {
        ListenMethod::Pairing
    } else {
        ListenMethod::Nothing
    }
}

/// Arguments of the listen command.
#[derive(PartialEq, Eq, Debug)]
pub struct ListenArgs {
    pub method: String,
}

impl ListenArgs {
    /// The way of listening that the arguments ask for.
    pub fn listen_method(&self) -> (m: ListenMethod)
        ensures
            m == listen_method_of(self.method@),
    {
        if self.method == String::from_str("http") {
            ListenMethod::Http
        } else if self.method == String::from_str("keybase") {
            ListenMethod::Pairing
        } else {
            ListenMethod::Nothing
        }
    }
}

/// Arguments of the send command.
#[derive(PartialEq, Eq, Debug)]
pub struct SendArgs {
    pub amount: u64,
    pub message: Option<String>,
    pub minimum_confirmations: u64,
    pub selection_strategy: String,
    pub estimate_selection_strategies: bool,
    pub method: String,
    pub dest: String,
    pub change_outputs: usize,
    pub fluff: bool,
    pub max_outputs: usize,
    pub target_slate_version: Option<u16>,
}

/// The number of polls, a tenth of a second apart, after which a wallet
/// gives up connecting to the relay.
pub const RELAY_CONNECT_POLLS: u32 = 50;

/// The number of polls, a tenth of a second apart, after which a wallet
/// gives up waiting for the relay to resolve an address.
pub const ADDRESS_QUERY_POLLS: u32 = 100;

/// The length of a short relay address.
pub const SHORT_ADDRESS_LENGTH: usize = 6;

/// What a payment has to do, as its arguments say.
#[derive(Clone, Copy, PartialEq, Eq, Structural, Debug)]
pub struct SendConfig {
    pub adapter: CommAdapter,
    /// The destination is a short relay address, to be resolved first.
    pub short_address: bool,
    /// Only estimates are asked for.
    pub estimate: bool,
}

/// What a payment has to do, as its arguments say.
pub open spec fn send_config_of(method: Seq<char>, dest_len: usize, estimate: bool) -> SendConfig {
    SendConfig {
        adapter: adapter_of(method),
        short_address: adapter_of(method) == CommAdapter::Relay && dest_len
            == SHORT_ADDRESS_LENGTH,
        estimate,
    }
}

impl SendArgs {
    /// What the payment has to do. The length of the destination counts in
    /// bytes.
    pub fn config(&self) -> (c: SendConfig)
        ensures
            c == send_config_of(
                self.method@,
                vstd::utf8::encode_utf8(self.dest@).len() as usize,
                self.estimate_selection_strategies,
            ),
    {
        let adapter = CommAdapter::for_method(&self.method);
        SendConfig {
            adapter,
            short_address: adapter == CommAdapter::Relay && self.dest.as_str().len()
                == SHORT_ADDRESS_LENGTH,
            estimate: self.estimate_selection_strategies,
        }
    }
}

/// Where a payment stands.
#[derive(Clone, Copy, PartialEq, Eq, Structural, Debug)]
pub enum SendPhase {
    /// Nothing is done yet.
    Start,
    /// The relay is being connected; it was polled `polls` times.
    Connecting { polls: u32 },
    /// The query for the full address is being sent.
    Querying,
    /// The answer to the address query is awaited; it was polled for
    /// `polls` times.
    Resolving { polls: u32 },
    /// The user is asked to confirm the address that was found.
    Confirming,
    /// The estimates are being made.
    Estimating,
    /// The slate is being made, with the payer's inputs.
    Creating,
    /// The slate is with the other party.
    Exchanging,
    /// The inputs are being locked.
    Locking,
    /// The wallet receives its own payment.
    Receiving,
    /// The messages of the slate are being checked.
    Verifying,
    /// The transaction is being finalized.
    Finalizing,
    /// The transaction is being posted.
    Posting,
    /// The payment is done, or handed over where the transport is not
    /// synchronous.
    Done,
    /// The payment has failed or was called off.
    Stopped,
}

/// What has happened since the last step of a payment.
#[derive(Clone, Copy, PartialEq, Eq, Structural, Debug)]
pub enum SendEvent {
    /// The payment begins.
    Begin,
    /// The step that was asked for is done.
    StepDone,
    /// The step that was asked for has failed.
    StepFailed,
    /// The relay was polled.
    RelayPolled { connected: bool },
    /// The relay has answered the address query with so many addresses.
    AddressesFound { count: usize },
    /// The relay has closed the channel.
    ChannelClosed,
    /// The relay has not answered yet.
    NoAnswer,
    /// The user has answered the request to confirm the address.
    Answered { yes: bool },
}

/// Why a payment is called off with exit status 1.
#[derive(Clone, Copy, PartialEq, Eq, Structural, Debug)]
pub enum SendExit {
    /// The relay could not be connected in time.
    RelayTimeout,
    /// The address query could not be sent.
    QueryFailed,
    /// The user did not confirm the address.
    NotConfirmed,
}

/// Why a payment fails before its first step.
#[derive(Clone, Copy, PartialEq, Eq, Structural, Debug)]
pub enum SendFailure {
    /// The relay did not answer the address query in time.
    RelayNoResponse,
    /// No address matches the short address.
    WrongAddress,
    /// So many addresses, more than one, match the short address.
    AddressConflict { count: usize },
    /// A step has failed; its error is the error of the payment.
    Step,
}

/// What a payment does next.
#[derive(Clone, Copy, PartialEq, Eq, Structural, Debug)]
pub enum SendAction {
    /// Start the relay listener.
    StartRelay,
    /// Wait a tenth of a second, then poll the relay.
    PollRelay,
    /// Send the query for the full address.
    QueryAddress,
    /// Wait a tenth of a second, unless this is the first poll, then look
    /// for the answer to the address query.
    PollAddresses,
    /// Ask the user to confirm the one address that was found, which is the
    /// destination from now on.
    ConfirmAddress,
    /// Estimate the payment under each strategy and show the estimates.
    Estimate,
    /// Make the slate and add the payer's inputs.
    CreateTx,
    /// Send the slate and wait for the answer.
    SendSync,
    /// Send the slate without waiting.
    SendAsync,
    /// Lock the inputs.
    LockOutputs,
    /// Receive the payment in the paying wallet.
    ReceiveSelf,
    /// Check the messages of the slate.
    VerifyMessages,
    /// Finalize the transaction.
    FinalizeTx,
    /// Post the transaction.
    PostTx,
    /// Nothing is left to do.
    Finish,
    /// Call the payment off with exit status 1.
    Exit(SendExit),
    /// Report the failure.
    Fail(SendFailure),
}

/// The phase in which a payment starts to build its transaction.
pub open spec fn building_phase(config: SendConfig) -> (SendPhase, SendAction) {
    if config.estimate {
        (SendPhase::Estimating, SendAction::Estimate)
    } else {
        (SendPhase::Creating, SendAction::CreateTx)
    }
}

/// The next phase of a payment and what it does to get there. An event
/// that the phase does not expect stops the payment as a failed step does.
pub open spec fn send_transition(config: SendConfig, phase: SendPhase, event: SendEvent) -> (
    SendPhase,
    SendAction,
) {
    let failed = (SendPhase::Stopped, SendAction::Fail(SendFailure::Step));
    match phase {
        SendPhase::Start => match event {
            SendEvent::Begin => if config.adapter == CommAdapter::Relay {
                (SendPhase::Connecting { polls: 0 }, SendAction::StartRelay)
            } else {
                building_phase(config)
            },
            _ => failed,
        },
        SendPhase::Connecting { polls } => match event {
            SendEvent::StepDone => (SendPhase::Connecting { polls }, SendAction::PollRelay),
            SendEvent::RelayPolled { connected } => if connected {
                if config.short_address {
                    (SendPhase::Querying, SendAction::QueryAddress)
                } else {
                    building_phase(config)
                }
            } else if polls >= RELAY_CONNECT_POLLS {
                (SendPhase::Stopped, SendAction::Exit(SendExit::RelayTimeout))
            } else {
                (SendPhase::Connecting { polls: (polls + 1) as u32 }, SendAction::PollRelay)
            },
            _ => failed,
        },
        SendPhase::Querying => match event {
            SendEvent::StepDone => (SendPhase::Resolving { polls: 0 }, SendAction::PollAddresses),
            SendEvent::StepFailed => (SendPhase::Stopped, SendAction::Exit(SendExit::QueryFailed)),
            _ => failed,
        },
        SendPhase::Resolving { polls } => match event {
            SendEvent::AddressesFound { count } => if count == 0 {
                (SendPhase::Stopped, SendAction::Fail(SendFailure::WrongAddress))
            } else if count == 1 {
                (SendPhase::Confirming, SendAction::ConfirmAddress)
            } else {
                (SendPhase::Stopped, SendAction::Fail(SendFailure::AddressConflict { count }))
            },
            SendEvent::ChannelClosed => (
                SendPhase::Stopped,
                SendAction::Fail(SendFailure::WrongAddress),
            ),
            SendEvent::NoAnswer => if polls >= ADDRESS_QUERY_POLLS {
                (SendPhase::Stopped, SendAction::Fail(SendFailure::RelayNoResponse))
            } else {
                (SendPhase::Resolving { polls: (polls + 1) as u32 }, SendAction::PollAddresses)
            },
            _ => failed,
        },
        SendPhase::Confirming => match event {
            SendEvent::Answered { yes } => if yes {
                building_phase(config)
            } else {
                (SendPhase::Stopped, SendAction::Exit(SendExit::NotConfirmed))
            },
            _ => failed,
        },
        SendPhase::Estimating => match event {
            SendEvent::StepDone => (SendPhase::Done, SendAction::Finish),
            _ => failed,
        },
        SendPhase::Creating => match event {
            SendEvent::StepDone => if sync_of(config.adapter) {
                (SendPhase::Exchanging, SendAction::SendSync)
            } else {
                (SendPhase::Exchanging, SendAction::SendAsync)
            },
            _ => failed,
        },
        SendPhase::Exchanging => match event {
            SendEvent::StepDone => (SendPhase::Locking, SendAction::LockOutputs),
            _ => failed,
        },
        SendPhase::Locking => match event {
            SendEvent::StepDone => if !sync_of(config.adapter) {
                (SendPhase::Done, SendAction::Finish)
            } else if config.adapter == CommAdapter::Loopback {
                (SendPhase::Receiving, SendAction::ReceiveSelf)
            } else {
                (SendPhase::Verifying, SendAction::VerifyMessages)
            },
            _ => failed,
        },
        SendPhase::Receiving => match event {
            SendEvent::StepDone => (SendPhase::Verifying, SendAction::VerifyMessages),
            _ => failed,
        },
        SendPhase::Verifying => match event {
            SendEvent::StepDone => (SendPhase::Finalizing, SendAction::FinalizeTx),
            _ => failed,
        },
        SendPhase::Finalizing => match event {
            SendEvent::StepDone => (SendPhase::Posting, SendAction::PostTx),
            _ => failed,
        },
        SendPhase::Posting => match event {
            SendEvent::StepDone => (SendPhase::Done, SendAction::Finish),
            _ => failed,
        },
        SendPhase::Done => (SendPhase::Done, SendAction::Finish),
        SendPhase::Stopped => failed,
    }
}

fn building(config: SendConfig) -> (r: (SendPhase, SendAction))
    ensures
        r == building_phase(config),
{
    if config.estimate {
        (SendPhase::Estimating, SendAction::Estimate)
    } else {
        (SendPhase::Creating, SendAction::CreateTx)
    }
}

/// The next phase of a payment and what it does to get there.
pub fn send_next(config: SendConfig, phase: SendPhase, event: SendEvent) -> (r: (
    SendPhase,
    SendAction,
))
    ensures
        r == send_transition(config, phase, event),
{
    let failed = (SendPhase::Stopped, SendAction::Fail(SendFailure::Step));
    match phase {
        SendPhase::Start => match event {
            SendEvent::Begin => if config.adapter == CommAdapter::Relay {
                (SendPhase::Connecting { polls: 0 }, SendAction::StartRelay)
            } else {
                building(config)
            },
            _ => failed,
        },
        SendPhase::Connecting { polls } => match event {
            SendEvent::StepDone => (SendPhase::Connecting { polls }, SendAction::PollRelay),
            SendEvent::RelayPolled { connected } => if connected {
                if config.short_address {
                    (SendPhase::Querying, SendAction::QueryAddress)
                } else {
                    building(config)
                }
            } else if polls >= RELAY_CONNECT_POLLS {
                (SendPhase::Stopped, SendAction::Exit(SendExit::RelayTimeout))
            } else {
                (SendPhase::Connecting { polls: polls + 1 }, SendAction::PollRelay)
            },
            _ => failed,
        },
        SendPhase::Querying => match event {
            SendEvent::StepDone => (SendPhase::Resolving { polls: 0 }, SendAction::PollAddresses),
            SendEvent::StepFailed => (SendPhase::Stopped, SendAction::Exit(SendExit::QueryFailed)),
            _ => failed,
        },
        SendPhase::Resolving { polls } => match event {
            SendEvent::AddressesFound { count } => if count == 0 {
                (SendPhase::Stopped, SendAction::Fail(SendFailure::WrongAddress))
            } else if count == 1 {
                (SendPhase::Confirming, SendAction::ConfirmAddress)
            } else {
                (SendPhase::Stopped, SendAction::Fail(SendFailure::AddressConflict { count }))
            },
            SendEvent::ChannelClosed => (
                SendPhase::Stopped,
                SendAction::Fail(SendFailure::WrongAddress),
            ),
            SendEvent::NoAnswer => if polls >= ADDRESS_QUERY_POLLS {
                (SendPhase::Stopped, SendAction::Fail(SendFailure::RelayNoResponse))
            } else {
                (SendPhase::Resolving { polls: polls + 1 }, SendAction::PollAddresses)
            },
            _ => failed,
        },
        SendPhase::Confirming => match event {
            SendEvent::Answered { yes } => if yes {
                building(config)
            } else {
                (SendPhase::Stopped, SendAction::Exit(SendExit::NotConfirmed))
            },
            _ => failed,
        },
        SendPhase::Estimating => match event {
            SendEvent::StepDone => (SendPhase::Done, SendAction::Finish),
            _ => failed,
        },
        SendPhase::Creating => match event {
            SendEvent::StepDone => if config.adapter.supports_sync() {
                (SendPhase::Exchanging, SendAction::SendSync)
            } else {
                (SendPhase::Exchanging, SendAction::SendAsync)
            },
            _ => failed,
        },
        SendPhase::Exchanging => match event {
            SendEvent::StepDone => (SendPhase::Locking, SendAction::LockOutputs),
            _ => failed,
        },
        SendPhase::Locking => match event {
            SendEvent::StepDone => if !config.adapter.supports_sync() {
                (SendPhase::Done, SendAction::Finish)
            } else if config.adapter == CommAdapter::Loopback {
                (SendPhase::Receiving, SendAction::ReceiveSelf)
            } else {
                (SendPhase::Verifying, SendAction::VerifyMessages)
            },
            _ => failed,
        },
        SendPhase::Receiving => match event {
            SendEvent::StepDone => (SendPhase::Verifying, SendAction::VerifyMessages),
            _ => failed,
        },
        SendPhase::Verifying => match event {
            SendEvent::StepDone => (SendPhase::Finalizing, SendAction::FinalizeTx),
            _ => failed,
        },
        SendPhase::Finalizing => match event {
            SendEvent::StepDone => (SendPhase::Posting, SendAction::PostTx),
            _ => failed,
        },
        SendPhase::Posting => match event {
            SendEvent::StepDone => (SendPhase::Done, SendAction::Finish),
            _ => failed,
        },
        SendPhase::Done => (SendPhase::Done, SendAction::Finish),
        SendPhase::Stopped => failed,
    }
}

/// A payment that is done stays done, and one that has stopped stays
/// stopped, whatever happens.
pub proof fn lemma_send_ends(config: SendConfig, event: SendEvent)
    ensures
        send_transition(config, SendPhase::Done, event) == (SendPhase::Done, SendAction::Finish),
        send_transition(config, SendPhase::Stopped, event).0 == SendPhase::Stopped,
{
}

/// A short address must name one address: where none or more than one
/// matches, the payment stops before anything is built, locked or sent,
/// with a failure that `send_failure_error` reports as an argument error.
pub proof fn lemma_address_must_be_unique(config: SendConfig, polls: u32, count: usize)
    requires
        count != 1,
    ensures
        ({
            let (phase, action) = send_transition(
                config,
                SendPhase::Resolving { polls },
                SendEvent::AddressesFound { count },
            );
            &&& phase == SendPhase::Stopped
            &&& action == if count == 0 {
                SendAction::Fail(SendFailure::WrongAddress)
            } else {
                SendAction::Fail(SendFailure::AddressConflict { count })
            }
        }),
{
}

/// The steps of a payment come in order: the inputs are locked only after
/// the slate was sent, the transaction is finalized only after the messages
/// were checked, and posted only after it was finalized; and each of these
/// is asked for only after the step before it was done.
pub proof fn lemma_send_order(config: SendConfig, phase: SendPhase, event: SendEvent)
    ensures
        ({
            let action = send_transition(config, phase, event).1;
            &&& action == SendAction::LockOutputs ==> phase == SendPhase::Exchanging && event
                == SendEvent::StepDone
            &&& action == SendAction::VerifyMessages ==> (phase == SendPhase::Locking || phase
                == SendPhase::Receiving) && event == SendEvent::StepDone
            &&& action == SendAction::FinalizeTx ==> phase == SendPhase::Verifying && event
                == SendEvent::StepDone
            &&& action == SendAction::PostTx ==> phase == SendPhase::Finalizing && event
                == SendEvent::StepDone
            &&& action == SendAction::SendSync || action == SendAction::SendAsync ==> phase
                == SendPhase::Creating && event == SendEvent::StepDone
        }),
{
}

/// The error that a failure before the first step is reported with: an
/// argument error where no address or more than one matches.
pub fn send_failure_error(failure: SendFailure) -> (r: Option<ErrorKind>)
    ensures
        match failure {
            SendFailure::RelayNoResponse => r is Some && is_generic_error(
                r->Some_0,
                "relay server no response, please try again later"@,
            ),
            SendFailure::WrongAddress => r is Some && is_argument_error(
                r->Some_0,
                "wrong address, or destination is offline"@,
            ),
            SendFailure::AddressConflict { .. } => r is Some && is_argument_error(
                r->Some_0,
                "abbreviated address conflict, please use the full address"@,
            ),
            SendFailure::Step => r is None,
        },
{
    match failure {
        SendFailure::RelayNoResponse => Some(
            ErrorKind::GenericError(
                String::from_str("relay server no response, please try again later"),
            ),
        ),
        SendFailure::WrongAddress => Some(
            ErrorKind::ArgumentError(String::from_str("wrong address, or destination is offline")),
        ),
        SendFailure::AddressConflict { .. } => Some(
            ErrorKind::ArgumentError(
                String::from_str("abbreviated address conflict, please use the full address"),
            ),
        ),
        SendFailure::Step => None,
    }
}

/// Whether an answer confirms: it is `y` or `Y`.
pub fn is_confirmation(answer: &String) -> (yes: bool)
    ensures
        yes == (answer@ == "y"@ || answer@ == "Y"@),
{
    *answer == String::from_str("y") || *answer == String::from_str("Y")
}

/// A line without the line feed at its end and, before that, without the
/// carriage return.
pub open spec fn trimmed_line(line: Seq<u8>) -> Seq<u8> {
    let a = if line.len() > 0 && line.last() == 10u8 {
        line.drop_last()
    } else {
        line
    };
    if a.len() > 0 && a.last() == 13u8 {
        a.drop_last()
    } else {
        a
    }
}

/// Takes the line feed off the end of a line and, after that, the carriage
/// return.
pub fn trim_line_end(line: &mut Vec<u8>)
    ensures
        final(line)@ == trimmed_line(old(line)@),
{
    if line.len() > 0 && line[line.len() - 1] == 10 {
        line.pop();
    }
    if line.len() > 0 && line[line.len() - 1] == 13 {
        line.pop();
    }
}

/// The strategies that estimates are made for.
pub fn estimate_strategies(invoice: bool) -> (names: Vec<String>)
    ensures
        names@.len() == if invoice {
            2int
        } else {
            3int
        },
        names@[0]@ == "smallest"@,
        !invoice ==> names@[1]@ == "biggest"@ && names@[2]@ == "all"@,
        invoice ==> names@[1]@ == "all"@,
{
    let mut names: Vec<String> = Vec::new();
    names.push(String::from_str("smallest"));
    if !invoice {
        names.push(String::from_str("biggest"));
    }
    names.push(String::from_str("all"));
    names
}

/// Whether a slate that comes back for finalization is an invoice: the
/// payee, participant 1, has not signed yet.
pub fn is_invoice_slate(slate: &Slate) -> (r: Result<bool, ErrorKind>)
    ensures
        ({
            let i = position(slate@.participant_data, 1);
            if i < slate@.participant_data.len() {
                r == Ok::<bool, ErrorKind>(slate@.participant_data[i].part_sig is None)
            } else {
                r is Err && is_argument_error(
                    r->Err_0,
                    "Expected Slate participant data missing"@,
                )
            }
        }),
{
    match slate.participant_with_id(1) {
        Some(p) => Ok(!p.is_complete()),
        None => Err(
            ErrorKind::ArgumentError(String::from_str("Expected Slate participant data missing")),
        ),
    }
}

/// The last `limit` elements of a list, or all where there is no limit or
/// the list is not longer.
pub open spec fn limited<T>(s: Seq<T>, limit: Option<u64>) -> Seq<T> {
    match limit {
        Some(l) => if l < s.len() {
            s.subrange(s.len() - l, s.len() as int)
        } else {
            s
        },
        None => s,
    }
}

/// Arguments of the outputs command.
#[derive(Clone, Copy, PartialEq, Eq, Structural, Debug)]
pub struct OutputsArgs {
    pub minvalue: Option<u64>,
    pub status: Option<OutputStatus>,
    pub limit: Option<u64>,
}

/// Whether a listing of outputs shows an output.
pub open spec fn output_shown(o: OutputData, args: OutputsArgs) -> bool {
    &&& args.minvalue matches Some(m) ==> o.value >= m
    &&& args.status matches Some(s) ==> o.status == s
}

/// Arguments of the payments command.
#[derive(Clone, Copy, PartialEq, Eq, Structural, Debug)]
pub struct PaymentsArgs {
    pub status: Option<OutputStatus>,
    pub limit: Option<u64>,
}

/// Whether a listing of payments shows a payment.
pub open spec fn payment_shown(p: PaymentData, args: PaymentsArgs) -> bool {
    args.status matches Some(s) ==> p.status == s
}

/// Arguments of the txs command. Dates are in milliseconds since the Unix
/// epoch.
#[derive(Clone, Copy, PartialEq, Eq, Structural, Debug)]
pub struct TxsArgs {
    pub id: Option<u32>,
    pub show_raw_tx_data: bool,
    pub tx_type: Option<TxLogEntryType>,
    pub start_date: Option<i64>,
    pub end_date: Option<i64>,
    pub limit: Option<u64>,
}

/// Whether a listing of transactions shows a log entry. The dates count
/// only where both are given.
pub open spec fn tx_shown(t: TxLogEntryView, args: TxsArgs) -> bool {
    &&& args.tx_type matches Some(k) ==> t.tx_type == k
    &&& args.start_date is Some && args.end_date is Some ==> args.start_date->Some_0
        <= t.creation_ts <= args.end_date->Some_0
}

fn keep_last<T: Copy>(items: Vec<T>, limit: Option<u64>) -> (r: Vec<T>)
    ensures
        r@ == limited(items@, limit),
{
    match limit {
        Some(l) => {
            if (l as usize) < items.len() && l <= usize::MAX as u64 {
                let drop = items.len() - l as usize;
                let mut r: Vec<T> = Vec::new();
                let mut i: usize = drop;
                while i < items.len()
                    invariant
                        drop <= i <= items.len(),
                        r@ == items@.subrange(drop as int, i as int),
                    decreases items.len() - i,
                {
                    r.push(items[i]);
                    assert(r@ =~= items@.subrange(drop as int, i as int + 1));
                    i = i + 1;
                }
                r
            } else {
                items
            }
        },
        None => items,
    }
}

/// The outputs that a listing shows: those of at least the least value and
/// of the status that the arguments ask for, and of these the last ones up
/// to the limit.
pub fn filter_outputs(outputs: &Vec<OutputData>, args: &OutputsArgs) -> (shown: Vec<OutputData>)
    ensures
        shown@ == limited(select(outputs@, |o: OutputData| output_shown(o, *args)), args.limit),
{
    let ghost f = |o: OutputData| output_shown(o, *args);
    let mut kept: Vec<OutputData> = Vec::new();
    let mut i: usize = 0;
    assert(kept@ =~= select(outputs@.subrange(0, 0), f));
    while i < outputs.len()
        invariant
            i <= outputs.len(),
            f == (|o: OutputData| output_shown(o, *args)),
            kept@ == select(outputs@.subrange(0, i as int), f),
        decreases outputs.len() - i,
    {
        let o = outputs[i];
        proof {
            let prefix = outputs@.subrange(0, i as int);
            let next = outputs@.subrange(0, i as int + 1);
            assert(next =~= prefix.push(o));
            lemma_indices_where_push(prefix, f, o);
            lemma_indices_where_sound(prefix, f);
            if f(o) {
                assert(select(next, f) =~= select(prefix, f).push(o));
            } else {
                assert(select(next, f) =~= select(prefix, f));
            }
        }
        let by_value = match args.minvalue {
            Some(m) => o.value >= m,
            None => true,
        };
        let by_status = match args.status {
            Some(s) => o.status == s,
            None => true,
        };
        if by_value && by_status {
            kept.push(o);
        }
        i = i + 1;
    }
    assert(outputs@.subrange(0, i as int) =~= outputs@);
    keep_last(kept, args.limit)
}

/// The payments that a listing shows: those of the status that the
/// arguments ask for, and of these the last ones up to the limit.
pub fn filter_payments(payments: &Vec<PaymentData>, args: &PaymentsArgs) -> (shown: Vec<
    PaymentData,
>)
    ensures
        shown@ == limited(select(payments@, |p: PaymentData| payment_shown(p, *args)), args.limit),
{
    let ghost f = |p: PaymentData| payment_shown(p, *args);
    let mut kept: Vec<PaymentData> = Vec::new();
    let mut i: usize = 0;
    assert(kept@ =~= select(payments@.subrange(0, 0), f));
    while i < payments.len()
        invariant
            i <= payments.len(),
            f == (|p: PaymentData| payment_shown(p, *args)),
            kept@ == select(payments@.subrange(0, i as int), f),
        decreases payments.len() - i,
    {
        let p = payments[i];
        proof {
            let prefix = payments@.subrange(0, i as int);
            let next = payments@.subrange(0, i as int + 1);
            assert(next =~= prefix.push(p));
            lemma_indices_where_push(prefix, f, p);
            lemma_indices_where_sound(prefix, f);
            if f(p) {
                assert(select(next, f) =~= select(prefix, f).push(p));
            } else {
                assert(select(next, f) =~= select(prefix, f));
            }
        }
        let by_status = match args.status {
            Some(s) => p.status == s,
            None => true,
        };
        if by_status {
            kept.push(p);
        }
        i = i + 1;
    }
    assert(payments@.subrange(0, i as int) =~= payments@);
    keep_last(kept, args.limit)
}

/// The positions of the log entries that a listing shows: those of the
/// type and within the dates that the arguments ask for, and of these the
/// last ones up to the limit.
pub fn filter_txs(txs: &Vec<TxLogEntry>, args: &TxsArgs) -> (shown: Vec<usize>)
    ensures
        shown@.map_values(|i: usize| i as int) == limited(
            indices_where(log_view(txs@), |t: TxLogEntryView| tx_shown(t, *args)),
            args.limit,
        ),
        forall|k: int| 0 <= k < shown@.len() ==> (#[trigger] shown@[k]) < txs.len(),
{
    let ghost f = |t: TxLogEntryView| tx_shown(t, *args);
    let ghost log = log_view(txs@);
    let mut kept: Vec<usize> = Vec::new();
    let mut i: usize = 0;
    assert(kept@.map_values(|i: usize| i as int) =~= indices_where(log.subrange(0, 0), f));
    while i < txs.len()
        invariant
            i <= txs.len(),
            log == log_view(txs@),
            f == (|t: TxLogEntryView| tx_shown(t, *args)),
            kept@.map_values(|i: usize| i as int) == indices_where(log.subrange(0, i as int), f),
            forall|k: int| 0 <= k < kept@.len() ==> (#[trigger] kept@[k]) < i,
        decreases txs.len() - i,
    {
        let t = &txs[i];
        let ghost before = kept@.map_values(|i: usize| i as int);
        proof {
            assert(t@ == log[i as int]);
            assert(log.subrange(0, i as int + 1) =~= log.subrange(0, i as int).push(log[i as int]));
            lemma_indices_where_push(log.subrange(0, i as int), f, log[i as int]);
        }
        let by_type = match args.tx_type {
            Some(k) => t.tx_type == k,
            None => true,
        };
        let by_date = match args.start_date {
            Some(start) => match args.end_date {
                Some(end) => start <= t.creation_ts && t.creation_ts <= end,
                None => true,
            },
            None => true,
        };
        if by_type && by_date {
            kept.push(i);
            assert(kept@.map_values(|i: usize| i as int) =~= before.push(i as int));
        }
        i = i + 1;
    }
    assert(log.subrange(0, i as int) =~= log);
    let ghost all = kept@;
    let shown = keep_last(kept, args.limit);
    proof {
        assert(shown@.map_values(|i: usize| i as int) =~= limited(
            all.map_values(|i: usize| i as int),
            args.limit,
        ));
        assert forall|k: int| 0 <= k < shown@.len() implies (#[trigger] shown@[k]) < txs.len() by {
            if args.limit is Some && args.limit->Some_0 < all.len() {
                assert(shown@[k] == all[all.len() - args.limit->Some_0 + k]);
            }
        }
    }
    shown
}

/// Whether a listing of transactions also shows the stored body: it is
/// asked for, one entry is shown, and that entry has a stored body.
pub fn shows_raw_tx(txs: &Vec<TxLogEntry>, shown: &Vec<usize>, args: &TxsArgs) -> (raw: bool)
    ensures
        raw == (args.id is Some && args.show_raw_tx_data && shown@.len() == 1 && shown@[0]
            < txs@.len() && txs@[shown@[0] as int]@.stored_tx is Some),
{
    args.id.is_some() && args.show_raw_tx_data && shown.len() == 1 && shown[0] < txs.len()
        && txs[shown[0]].stored_tx.is_some()
}

/// Arguments of the repost command.
#[derive(PartialEq, Eq, Debug)]
pub struct RepostArgs {
    pub id: u32,
    pub dump_file: Option<String>,
    pub fluff: bool,
}

/// Arguments of the cancel command.
#[derive(PartialEq, Eq, Debug)]
pub struct CancelArgs {
    pub tx_id: Option<u32>,
    pub tx_slate_id: Option<u128>,
    pub tx_id_string: String,
}

/// Arguments of the check command.
#[derive(Clone, Copy, PartialEq, Eq, Structural, Debug)]
pub struct CheckArgs {
    pub delete_unconfirmed: bool,
}

/// Arguments of the info command.
#[derive(Clone, Copy, PartialEq, Eq, Structural, Debug)]
pub struct InfoArgs {
    pub minimum_confirmations: u64,
}

/// Arguments of the account command.
#[derive(PartialEq, Eq, Debug)]
pub struct AccountArgs {
    pub create: Option<String>,
}

/// Arguments of the receive command.
#[derive(PartialEq, Eq, Debug)]
pub struct ReceiveArgs {
    pub input: String,
    pub message: Option<String>,
}

/// Arguments of the finalize command.
#[derive(PartialEq, Eq, Debug)]
pub struct FinalizeArgs {
    pub input: String,
    pub fluff: bool,
}

/// Arguments of the command that answers an invoice.
#[derive(PartialEq, Eq, Debug)]
pub struct ProcessInvoiceArgs {
    pub message: Option<String>,
    pub minimum_confirmations: u64,
    pub selection_strategy: String,
    pub method: String,
    pub dest: String,
    pub max_outputs: usize,
    pub input: String,
    pub estimate_selection_strategies: bool,
}

} // verus!
