//! The errors that wallet operations report.

use vstd::prelude::*;

verus! {

/// Why a slate cannot take the step that was asked of it.
#[derive(Clone, Copy, PartialEq, Eq, Structural, Debug)]
pub enum Violation {
    /// The participant has no entry in the slate.
    UnknownParticipant,
    /// Some participant has not published its key and nonce yet.
    MissingRoundOne,
    /// Some participant has not given its partial signature yet.
    MissingRoundTwo,
    /// The slate already holds as many participants as it was made for.
    TooManyParticipants,
    /// The transaction does not carry exactly one kernel.
    KernelCount,
}

/// What is wrong with a serialised document.
#[derive(Clone, Copy, PartialEq, Eq, Structural, Debug)]
pub enum FormatError {
    /// The document ends before the value does.
    Truncated,
    /// Bytes follow the end of the document.
    TrailingBytes,
    /// The document does not start with the expected marker.
    BadMagic,
    /// A tag byte has a value that stands for nothing.
    BadTag,
    /// A text is not valid UTF-8.
    BadText,
}

/// An error of a wallet operation.
#[derive(PartialEq, Eq, Debug)]
pub enum ErrorKind {
    /// A chain query or a broadcast failed; the caller may try again.
    NodeUnavailable,
    /// No transaction, or more than one, matches the given reference.
    TransactionDoesntExist(String),
    /// The transaction is confirmed, posted or already cancelled.
    TransactionNotCancellable(String),
    /// A partial or aggregate signature does not verify.
    InvalidSignature,
    /// The slate is not in a state that admits the step.
    ProtocolViolation(Violation),
    /// An argument is malformed.
    ArgumentError(String),
    /// Another failure, described in words.
    GenericError(String),
    /// The spendable outputs do not cover the amount and the fee.
    NotEnoughFunds { available: u64, needed: u64 },
    /// An amount does not fit in 64 bits.
    AmountOverflow,
    /// No body is stored for the transaction.
    StoredTxMissing,
    /// The transaction is already confirmed.
    AlreadyConfirmed,
    /// The wallet has run out of key paths or of log entry ids.
    IndexExhausted,
    /// An input of the slate is an output of the wallet that is not free to
    /// spend.
    InputUnavailable,
    /// A serialised document cannot be read.
    Format(FormatError),
}

/// Whether an error says that no single transaction matches the reference
/// with the given text.
pub open spec fn is_doesnt_exist(e: ErrorKind, text: Seq<char>) -> bool {
    e matches ErrorKind::TransactionDoesntExist(s) && s@ == text
}

/// Whether an error says that the transaction with the given reference text
/// cannot be cancelled.
pub open spec fn is_not_cancellable(e: ErrorKind, text: Seq<char>) -> bool {
    e matches ErrorKind::TransactionNotCancellable(s) && s@ == text
}

/// Whether an error says that an argument is malformed, in the given words.
pub open spec fn is_argument_error(e: ErrorKind, text: Seq<char>) -> bool {
    e matches ErrorKind::ArgumentError(s) && s@ == text
}

/// Whether an error describes a failure in the given words.
pub open spec fn is_generic_error(e: ErrorKind, text: Seq<char>) -> bool {
    e matches ErrorKind::GenericError(s) && s@ == text
}

} // verus!
