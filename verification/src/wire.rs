//! The wire format of a slate: a marker, then the fields in a fixed order,
//! numbers in little-endian bytes, lists and texts behind their lengths,
//! optional values behind a tag byte.

use vstd::prelude::*;
use vstd::string::*;
use vstd::bytes::{
    spec_u16_from_le_bytes, spec_u16_to_le_bytes, spec_u64_from_le_bytes, spec_u64_to_le_bytes,
    spec_u128_from_le_bytes, spec_u128_to_le_bytes, u16_from_le_bytes, u16_to_le_bytes,
    u64_from_le_bytes, u64_to_le_bytes, u128_from_le_bytes, u128_to_le_bytes,
    lemma_auto_spec_u16_to_from_le_bytes, lemma_auto_spec_u64_to_from_le_bytes,
    lemma_auto_spec_u128_to_from_le_bytes,
};
use vstd::slice::slice_subrange;
use vstd::utf8::{
    decode_utf8, encode_utf8, valid_utf8, encode_utf8_decode_utf8, encode_utf8_valid_utf8,
};
use crate::aggsig::Signature;
use crate::error::{ErrorKind, FormatError};
use crate::group::{Point, Scalar};
use crate::payment_proof::{TxProof, TxProofView};
use crate::slate::{
    ParticipantData, ParticipantDataView, Slate, SlateView, VersionCompatInfo, participants_view,
    text_view,
};
use crate::transaction::{
    Input, KernelFeatures, Output, OutputFeatures, Transaction, TransactionBody, TransactionView,
    TxKernel,
};

verus! {

/// The bytes that a slate document starts with.
pub open spec fn magic() -> Seq<u8> {
    seq![0x53u8, 0x4cu8, 0x41u8, 0x54u8, 0x01u8]
}

/// What reading a value off the front of some bytes gives: the value and
/// the bytes that follow it, or what is wrong.
pub type Taken<T> = Result<(T, Seq<u8>), FormatError>;

/// The byte itself.
pub open spec fn put_u8(v: u8) -> Seq<u8> {
    seq![v]
}

/// Reads one byte.
pub open spec fn take_u8(b: Seq<u8>) -> Taken<u8> {
    if b.len() >= 1 {
        Ok((b[0], b.skip(1)))
    } else {
        Err(FormatError::Truncated)
    }
}

/// The two bytes of a number, the low one first.
pub open spec fn put_u16(v: u16) -> Seq<u8> {
    spec_u16_to_le_bytes(v)
}

/// Reads a number of two bytes.
pub open spec fn take_u16(b: Seq<u8>) -> Taken<u16> {
    if b.len() >= 2 {
        Ok((spec_u16_from_le_bytes(b.take(2)), b.skip(2)))
    } else {
        Err(FormatError::Truncated)
    }
}

/// The eight bytes of a number, the lowest first.
pub open spec fn put_u64(v: u64) -> Seq<u8> {
    spec_u64_to_le_bytes(v)
}

/// Reads a number of eight bytes.
pub open spec fn take_u64(b: Seq<u8>) -> Taken<u64> {
    if b.len() >= 8 {
        Ok((spec_u64_from_le_bytes(b.take(8)), b.skip(8)))
    } else {
        Err(FormatError::Truncated)
    }
}

/// The sixteen bytes of a number, the lowest first.
pub open spec fn put_u128(v: u128) -> Seq<u8> {
    spec_u128_to_le_bytes(v)
}

/// Reads a number of sixteen bytes.
pub open spec fn take_u128(b: Seq<u8>) -> Taken<u128> {
    if b.len() >= 16 {
        Ok((spec_u128_from_le_bytes(b.take(16)), b.skip(16)))
    } else {
        Err(FormatError::Truncated)
    }
}

/// A signature: the nonce, then the response.
pub open spec fn put_signature(s: Signature) -> Seq<u8> {
    put_u64(s.nonce.v) + put_u64(s.s.v)
}

/// Reads a signature.
pub open spec fn take_signature(b: Seq<u8>) -> Taken<Signature> {
    match take_u64(b) {
        Ok((nonce, b1)) => match take_u64(b1) {
            Ok((s, b2)) => Ok((Signature { nonce: Point { v: nonce }, s: Scalar { v: s } }, b2)),
            Err(e) => Err(e),
        },
        Err(e) => Err(e),
    }
}

/// An optional signature: the tag 1 and the signature, or the tag 0.
pub open spec fn put_optional_signature(s: Option<Signature>) -> Seq<u8> {
    match s {
        Some(sig) => put_u8(1) + put_signature(sig),
        None => put_u8(0),
    }
}

/// Reads an optional signature.
pub open spec fn take_optional_signature(b: Seq<u8>) -> Taken<Option<Signature>> {
    match take_u8(b) {
        Ok((tag, b1)) => if tag == 0 {
            Ok((None, b1))
        } else if tag == 1 {
            match take_signature(b1) {
                Ok((sig, b2)) => Ok((Some(sig), b2)),
                Err(e) => Err(e),
            }
        } else {
            Err(FormatError::BadTag)
        },
        Err(e) => Err(e),
    }
}

/// A text: the number of its bytes in UTF-8, then the bytes.
pub open spec fn put_text(text: Seq<char>) -> Seq<u8> {
    put_u64(encode_utf8(text).len() as u64) + encode_utf8(text)
}

/// Reads a text. The bytes must be valid UTF-8.
pub open spec fn take_text(b: Seq<u8>) -> Taken<Seq<char>> {
    match take_u64(b) {
        Ok((len, b1)) => if b1.len() < len {
            Err(FormatError::Truncated)
        } else if !valid_utf8(b1.take(len as int)) {
            Err(FormatError::BadText)
        } else {
            Ok((decode_utf8(b1.take(len as int)), b1.skip(len as int)))
        },
        Err(e) => Err(e),
    }
}

/// An optional text: the tag 1 and the text, or the tag 0.
pub open spec fn put_optional_text(text: Option<Seq<char>>) -> Seq<u8> {
    match text {
        Some(t) => put_u8(1) + put_text(t),
        None => put_u8(0),
    }
}

/// Reads an optional text.
pub open spec fn take_optional_text(b: Seq<u8>) -> Taken<Option<Seq<char>>> {
    match take_u8(b) {
        Ok((tag, b1)) => if tag == 0 {
            Ok((None, b1))
        } else if tag == 1 {
            match take_text(b1) {
                Ok((t, b2)) => Ok((Some(t), b2)),
                Err(e) => Err(e),
            }
        } else {
            Err(FormatError::BadTag)
        },
        Err(e) => Err(e),
    }
}

/// A list: its elements one after the other.
pub open spec fn put_items<T>(items: Seq<T>, put: spec_fn(T) -> Seq<u8>) -> Seq<u8>
    decreases items.len(),
{
    if items.len() == 0 {
        Seq::empty()
    } else {
        put_items(items.drop_last(), put) + put(items.last())
    }
}

/// Reads `n` elements off the front of some bytes.
pub open spec fn take_items<T>(b: Seq<u8>, n: nat, take: spec_fn(Seq<u8>) -> Taken<T>) -> Taken<
    Seq<T>,
>
    decreases n,
{
    if n == 0 {
        Ok((Seq::empty(), b))
    } else {
        match take_items(b, (n - 1) as nat, take) {
            Ok((front, b1)) => match take(b1) {
                Ok((x, b2)) => Ok((front.push(x), b2)),
                Err(e) => Err(e),
            },
            Err(e) => Err(e),
        }
    }
}

/// A list behind the number of its elements.
pub open spec fn put_list<T>(items: Seq<T>, put: spec_fn(T) -> Seq<u8>) -> Seq<u8> {
    put_u64(items.len() as u64) + put_items(items, put)
}

/// Reads a list: the number of its elements, then the elements.
pub open spec fn take_list<T>(b: Seq<u8>, take: spec_fn(Seq<u8>) -> Taken<T>) -> Taken<Seq<T>> {
    match take_u64(b) {
        Ok((n, b1)) => take_items(b1, n as nat, take),
        Err(e) => Err(e),
    }
}

/// Whether reading gives back what was written, whatever follows.
pub open spec fn round_trips<T>(
    put: spec_fn(T) -> Seq<u8>, take: spec_fn(Seq<u8>) -> Taken<T>, x: T,
) -> bool {
    forall|rest: Seq<u8>|
        #[trigger] take(put(x) + rest) == Ok::<(T, Seq<u8>), FormatError>((x, rest))
}

proof fn lemma_u8_round_trip(v: u8, rest: Seq<u8>)
    ensures
        take_u8(put_u8(v) + rest) == Ok::<(u8, Seq<u8>), FormatError>((v, rest)),
{
    assert((put_u8(v) + rest).skip(1) =~= rest);
}

proof fn lemma_u16_round_trip(v: u16, rest: Seq<u8>)
    ensures
        take_u16(put_u16(v) + rest) == Ok::<(u16, Seq<u8>), FormatError>((v, rest)),
{
    lemma_auto_spec_u16_to_from_le_bytes();
    assert((put_u16(v) + rest).take(2) =~= put_u16(v));
    assert((put_u16(v) + rest).skip(2) =~= rest);
}

proof fn lemma_u64_round_trip(v: u64, rest: Seq<u8>)
    ensures
        take_u64(put_u64(v) + rest) == Ok::<(u64, Seq<u8>), FormatError>((v, rest)),
        put_u64(v).len() == 8,
{
    lemma_auto_spec_u64_to_from_le_bytes();
    assert((put_u64(v) + rest).take(8) =~= put_u64(v));
    assert((put_u64(v) + rest).skip(8) =~= rest);
}

proof fn lemma_u128_round_trip(v: u128, rest: Seq<u8>)
    ensures
        take_u128(put_u128(v) + rest) == Ok::<(u128, Seq<u8>), FormatError>((v, rest)),
{
    lemma_auto_spec_u128_to_from_le_bytes();
    assert((put_u128(v) + rest).take(16) =~= put_u128(v));
    assert((put_u128(v) + rest).skip(16) =~= rest);
}

proof fn lemma_signature_round_trip(s: Signature, rest: Seq<u8>)
    ensures
        take_signature(put_signature(s) + rest) == Ok::<(Signature, Seq<u8>), FormatError>(
            (s, rest),
        ),
{
    assert(put_signature(s) + rest =~= put_u64(s.nonce.v) + (put_u64(s.s.v) + rest));
    lemma_u64_round_trip(s.nonce.v, put_u64(s.s.v) + rest);
    lemma_u64_round_trip(s.s.v, rest);
}

proof fn lemma_optional_signature_round_trip(s: Option<Signature>, rest: Seq<u8>)
    ensures
        take_optional_signature(put_optional_signature(s) + rest) == Ok::<
            (Option<Signature>, Seq<u8>),
            FormatError,
        >((s, rest)),
{
    match s {
        Some(sig) => {
            assert(put_optional_signature(s) + rest =~= put_u8(1) + (put_signature(sig) + rest));
            lemma_u8_round_trip(1, put_signature(sig) + rest);
            lemma_signature_round_trip(sig, rest);
        },
        None => {
            lemma_u8_round_trip(0, rest);
        },
    }
}

proof fn lemma_text_round_trip(text: Seq<char>, rest: Seq<u8>)
    requires
        encode_utf8(text).len() <= u64::MAX,
    ensures
        take_text(put_text(text) + rest) == Ok::<(Seq<char>, Seq<u8>), FormatError>((text, rest)),
{
    let bytes = encode_utf8(text);
    assert(put_text(text) + rest =~= put_u64(bytes.len() as u64) + (bytes + rest));
    lemma_u64_round_trip(bytes.len() as u64, bytes + rest);
    assert((bytes + rest).take(bytes.len() as int) =~= bytes);
    assert((bytes + rest).skip(bytes.len() as int) =~= rest);
    encode_utf8_valid_utf8(text);
    encode_utf8_decode_utf8(text);
}

proof fn lemma_optional_text_round_trip(text: Option<Seq<char>>, rest: Seq<u8>)
    requires
        text is Some ==> encode_utf8(text->Some_0).len() <= u64::MAX,
    ensures
        take_optional_text(put_optional_text(text) + rest) == Ok::<
            (Option<Seq<char>>, Seq<u8>),
            FormatError,
        >((text, rest)),
{
    match text {
        Some(t) => {
            assert(put_optional_text(text) + rest =~= put_u8(1) + (put_text(t) + rest));
            lemma_u8_round_trip(1, put_text(t) + rest);
            lemma_text_round_trip(t, rest);
        },
        None => {
            lemma_u8_round_trip(0, rest);
        },
    }
}

/// Where every element of a list reads back as it was written, so does the
/// list.
proof fn lemma_items_round_trip<T>(
    items: Seq<T>,
    put: spec_fn(T) -> Seq<u8>,
    take: spec_fn(Seq<u8>) -> Taken<T>,
    rest: Seq<u8>,
)
    requires
        forall|i: int| 0 <= i < items.len() ==> round_trips(put, take, #[trigger] items[i]),
    ensures
        take_items(put_items(items, put) + rest, items.len(), take) == Ok::<
            (Seq<T>, Seq<u8>),
            FormatError,
        >((items, rest)),
    decreases items.len(),
{
    if items.len() > 0 {
        let front = items.drop_last();
        let last = items.last();
        assert forall|i: int| 0 <= i < front.len() implies round_trips(
            put,
            take,
            #[trigger] front[i],
        ) by {
            assert(front[i] == items[i]);
        }
        assert(put_items(items, put) + rest =~= put_items(front, put) + (put(last) + rest));
        lemma_items_round_trip(front, put, take, put(last) + rest);
        assert(round_trips(put, take, items[items.len() - 1]));
        assert(take(put(last) + rest) == Ok::<(T, Seq<u8>), FormatError>((last, rest)));
        assert(front.push(last) =~= items);
        assert((items.len() - 1) as nat == front.len());
    } else {
        assert(put_items(items, put) + rest =~= rest);
        assert(items =~= Seq::<T>::empty());
    }
}

proof fn lemma_list_round_trip<T>(
    items: Seq<T>,
    put: spec_fn(T) -> Seq<u8>,
    take: spec_fn(Seq<u8>) -> Taken<T>,
    rest: Seq<u8>,
)
    requires
        items.len() <= u64::MAX,
        forall|i: int| 0 <= i < items.len() ==> round_trips(put, take, #[trigger] items[i]),
    ensures
        take_list(put_list(items, put) + rest, take) == Ok::<(Seq<T>, Seq<u8>), FormatError>(
            (items, rest),
        ),
{
    assert(put_list(items, put) + rest =~= put_u64(items.len() as u64) + (put_items(items, put)
        + rest));
    lemma_u64_round_trip(items.len() as u64, put_items(items, put) + rest);
    lemma_items_round_trip(items, put, take, rest);
}

/// The kind of an output: 0 for plain, 1 for coinbase.
pub open spec fn put_output_features(f: OutputFeatures) -> Seq<u8> {
    match f {
        OutputFeatures::Plain => put_u8(0),
        OutputFeatures::Coinbase => put_u8(1),
    }
}

/// Reads the kind of an output.
pub open spec fn take_output_features(b: Seq<u8>) -> Taken<OutputFeatures> {
    match take_u8(b) {
        Ok((tag, b1)) => if tag == 0 {
            Ok((OutputFeatures::Plain, b1))
        } else if tag == 1 {
            Ok((OutputFeatures::Coinbase, b1))
        } else {
            Err(FormatError::BadTag)
        },
        Err(e) => Err(e),
    }
}

/// The kind of a kernel: 0 for plain, 1 for coinbase, 2 for height locked.
pub open spec fn put_kernel_features(f: KernelFeatures) -> Seq<u8> {
    match f {
        KernelFeatures::Plain => put_u8(0),
        KernelFeatures::Coinbase => put_u8(1),
        KernelFeatures::HeightLocked => put_u8(2),
    }
}

/// Reads the kind of a kernel.
pub open spec fn take_kernel_features(b: Seq<u8>) -> Taken<KernelFeatures> {
    match take_u8(b) {
        Ok((tag, b1)) => if tag == 0 {
            Ok((KernelFeatures::Plain, b1))
        } else if tag == 1 {
            Ok((KernelFeatures::Coinbase, b1))
        } else if tag == 2 {
            Ok((KernelFeatures::HeightLocked, b1))
        } else {
            Err(FormatError::BadTag)
        },
        Err(e) => Err(e),
    }
}

/// An input: its kind, then its commitment.
pub open spec fn put_input(i: Input) -> Seq<u8> {
    put_output_features(i.features) + put_u64(i.commit.v)
}

/// Reads an input.
pub open spec fn take_input(b: Seq<u8>) -> Taken<Input> {
    match take_output_features(b) {
        Ok((features, b1)) => match take_u64(b1) {
            Ok((commit, b2)) => Ok((Input { features, commit: Point { v: commit } }, b2)),
            Err(e) => Err(e),
        },
        Err(e) => Err(e),
    }
}

/// An output: its kind, then its commitment.
pub open spec fn put_output(o: Output) -> Seq<u8> {
    put_output_features(o.features) + put_u64(o.commit.v)
}

/// Reads an output.
pub open spec fn take_output(b: Seq<u8>) -> Taken<Output> {
    match take_output_features(b) {
        Ok((features, b1)) => match take_u64(b1) {
            Ok((commit, b2)) => Ok((Output { features, commit: Point { v: commit } }, b2)),
            Err(e) => Err(e),
        },
        Err(e) => Err(e),
    }
}

/// A kernel: its kind, the fee, the lock height, the excess and the signature.
pub open spec fn put_kernel(k: TxKernel) -> Seq<u8> {
    put_kernel_features(k.features) + put_u64(k.fee) + put_u64(k.lock_height) + put_u64(
        k.excess.v,
    ) + put_signature(k.excess_sig)
}

/// Reads a kernel.
pub open spec fn take_kernel(b: Seq<u8>) -> Taken<TxKernel> {
    match take_kernel_features(b) {
        Ok((features, b1)) => match take_u64(b1) {
            Ok((fee, b2)) => match take_u64(b2) {
                Ok((lock_height, b3)) => match take_u64(b3) {
                    Ok((excess, b4)) => match take_signature(b4) {
                        Ok((excess_sig, b5)) => Ok(
                            (
                                TxKernel {
                                    features,
                                    fee,
                                    lock_height,
                                    excess: Point { v: excess },
                                    excess_sig,
                                },
                                b5,
                            ),
                        ),
                        Err(e) => Err(e),
                    },
                    Err(e) => Err(e),
                },
                Err(e) => Err(e),
            },
            Err(e) => Err(e),
        },
        Err(e) => Err(e),
    }
}

/// The id, the public key and the public nonce of a participant.
pub open spec fn put_participant_keys(p: ParticipantDataView) -> Seq<u8> {
    put_u64(p.id) + put_u64(p.public_blind_excess.v) + put_u64(p.public_nonce.v)
}

/// Reads the id, the public key and the public nonce of a participant.
pub open spec fn take_participant_keys(b: Seq<u8>) -> Taken<(u64, Point, Point)> {
    match take_u64(b) {
        Ok((id, b1)) => match take_u64(b1) {
            Ok((key, b2)) => match take_u64(b2) {
                Ok((nonce, b3)) => Ok(((id, Point { v: key }, Point { v: nonce }), b3)),
                Err(e) => Err(e),
            },
            Err(e) => Err(e),
        },
        Err(e) => Err(e),
    }
}

/// The partial signature, the message and the message signature of a
/// participant.
pub open spec fn put_participant_extras(p: ParticipantDataView) -> Seq<u8> {
    put_optional_signature(p.part_sig) + put_optional_text(p.message) + put_optional_signature(
        p.message_sig,
    )
}

/// Reads the partial signature, the message and the message signature of a
/// participant.
pub open spec fn take_participant_extras(b: Seq<u8>) -> Taken<
    (Option<Signature>, Option<Seq<char>>, Option<Signature>),
> {
    match take_optional_signature(b) {
        Ok((part_sig, b1)) => match take_optional_text(b1) {
            Ok((message, b2)) => match take_optional_signature(b2) {
                Ok((message_sig, b3)) => Ok(((part_sig, message, message_sig), b3)),
                Err(e) => Err(e),
            },
            Err(e) => Err(e),
        },
        Err(e) => Err(e),
    }
}

/// A participant's entry.
pub open spec fn put_participant(p: ParticipantDataView) -> Seq<u8> {
    put_participant_keys(p) + put_participant_extras(p)
}

/// Reads a participant's entry.
pub open spec fn take_participant(b: Seq<u8>) -> Taken<ParticipantDataView> {
    match take_participant_keys(b) {
        Ok(((id, public_blind_excess, public_nonce), b1)) => match take_participant_extras(b1) {
            Ok(((part_sig, message, message_sig), b2)) => Ok(
                (
                    ParticipantDataView {
                        id,
                        public_blind_excess,
                        public_nonce,
                        part_sig,
                        message,
                        message_sig,
                    },
                    b2,
                ),
            ),
            Err(e) => Err(e),
        },
        Err(e) => Err(e),
    }
}

/// The versions, the number of participants and the id of a slate.
pub open spec fn put_header(s: SlateView) -> Seq<u8> {
    put_u16(s.version_info.version) + put_u16(s.version_info.orig_version) + put_u16(
        s.version_info.block_header_version,
    ) + put_u64(s.num_participants as u64) + put_u128(s.id)
}

/// Reads the versions, the number of participants and the id of a slate.
pub open spec fn take_header(b: Seq<u8>) -> Taken<(VersionCompatInfo, usize, u128)> {
    match take_u16(b) {
        Ok((version, b1)) => match take_u16(b1) {
            Ok((orig_version, b2)) => match take_u16(b2) {
                Ok((block_header_version, b3)) => match take_u64(b3) {
                    Ok((n, b4)) => match take_u128(b4) {
                        Ok((id, b5)) => Ok(
                            (
                                (
                                    VersionCompatInfo { version, orig_version, block_header_version },
                                    n as usize,
                                    id,
                                ),
                                b5,
                            ),
                        ),
                        Err(e) => Err(e),
                    },
                    Err(e) => Err(e),
                },
                Err(e) => Err(e),
            },
            Err(e) => Err(e),
        },
        Err(e) => Err(e),
    }
}

/// The amount, the fee, the height and the lock height of a slate.
pub open spec fn put_amounts(s: SlateView) -> Seq<u8> {
    put_u64(s.amount) + put_u64(s.fee) + put_u64(s.height) + put_u64(s.lock_height)
}

/// Reads the amount, the fee, the height and the lock height of a slate.
pub open spec fn take_amounts(b: Seq<u8>) -> Taken<(u64, u64, u64, u64)> {
    match take_u64(b) {
        Ok((amount, b1)) => match take_u64(b1) {
            Ok((fee, b2)) => match take_u64(b2) {
                Ok((height, b3)) => match take_u64(b3) {
                    Ok((lock_height, b4)) => Ok(((amount, fee, height, lock_height), b4)),
                    Err(e) => Err(e),
                },
                Err(e) => Err(e),
            },
            Err(e) => Err(e),
        },
        Err(e) => Err(e),
    }
}

/// A transaction: the offset, then the inputs, the outputs and the kernels.
pub open spec fn put_transaction(tx: TransactionView) -> Seq<u8> {
    put_u64(tx.offset.v) + put_list(tx.inputs, |i: Input| put_input(i)) + put_list(
        tx.outputs,
        |o: Output| put_output(o),
    ) + put_list(tx.kernels, |k: TxKernel| put_kernel(k))
}

/// Reads a transaction.
pub open spec fn take_transaction(b: Seq<u8>) -> Taken<TransactionView> {
    match take_u64(b) {
        Ok((offset, b1)) => match take_list(b1, |x: Seq<u8>| take_input(x)) {
            Ok((inputs, b2)) => match take_list(b2, |x: Seq<u8>| take_output(x)) {
                Ok((outputs, b3)) => match take_list(b3, |x: Seq<u8>| take_kernel(x)) {
                    Ok((kernels, b4)) => Ok(
                        (TransactionView { offset: Scalar { v: offset }, inputs, outputs, kernels }, b4),
                    ),
                    Err(e) => Err(e),
                },
                Err(e) => Err(e),
            },
            Err(e) => Err(e),
        },
        Err(e) => Err(e),
    }
}

/// The bytes of a slate.
pub open spec fn put_slate(s: SlateView) -> Seq<u8> {
    magic() + put_header(s) + put_amounts(s) + put_transaction(s.tx) + put_list(
        s.participant_data,
        |p: ParticipantDataView| put_participant(p),
    )
}

/// The slate that some bytes spell, or what is wrong with them.
pub open spec fn take_slate(b: Seq<u8>) -> Result<SlateView, FormatError> {
    if b.len() < 5 {
        Err(FormatError::Truncated)
    } else if b.take(5) != magic() {
        Err(FormatError::BadMagic)
    } else {
        match take_header(b.skip(5)) {
            Ok(((version_info, num_participants, id), b1)) => match take_amounts(b1) {
                Ok(((amount, fee, height, lock_height), b2)) => match take_transaction(b2) {
                    Ok((tx, b3)) => match take_list(b3, |x: Seq<u8>| take_participant(x)) {
                        Ok((participant_data, b4)) => if b4.len() != 0 {
                            Err(FormatError::TrailingBytes)
                        } else {
                            Ok(
                                SlateView {
                                    version_info,
                                    num_participants,
                                    id,
                                    tx,
                                    amount,
                                    fee,
                                    height,
                                    lock_height,
                                    participant_data,
                                },
                            )
                        },
                        Err(e) => Err(e),
                    },
                    Err(e) => Err(e),
                },
                Err(e) => Err(e),
            },
            Err(e) => Err(e),
        }
    }
}

/// Whether the lists and texts of a slate are short enough for their
/// lengths to be written in 64 bits.
pub open spec fn wire_sized(s: SlateView) -> bool {
    &&& s.tx.inputs.len() <= u64::MAX
    &&& s.tx.outputs.len() <= u64::MAX
    &&& s.tx.kernels.len() <= u64::MAX
    &&& s.participant_data.len() <= u64::MAX
    &&& forall|i: int|
        0 <= i < s.participant_data.len() ==> ((#[trigger] s.participant_data[i]).message is Some
            ==> encode_utf8(s.participant_data[i].message->Some_0).len() <= u64::MAX)
}

proof fn lemma_output_features_round_trip(f: OutputFeatures, rest: Seq<u8>)
    ensures
        take_output_features(put_output_features(f) + rest) == Ok::<
            (OutputFeatures, Seq<u8>),
            FormatError,
        >((f, rest)),
{
    match f {
        OutputFeatures::Plain => lemma_u8_round_trip(0, rest),
        OutputFeatures::Coinbase => lemma_u8_round_trip(1, rest),
    }
}

proof fn lemma_kernel_features_round_trip(f: KernelFeatures, rest: Seq<u8>)
    ensures
        take_kernel_features(put_kernel_features(f) + rest) == Ok::<
            (KernelFeatures, Seq<u8>),
            FormatError,
        >((f, rest)),
{
    match f {
        KernelFeatures::Plain => lemma_u8_round_trip(0, rest),
        KernelFeatures::Coinbase => lemma_u8_round_trip(1, rest),
        KernelFeatures::HeightLocked => lemma_u8_round_trip(2, rest),
    }
}

proof fn lemma_input_round_trip(i: Input, rest: Seq<u8>)
    ensures
        take_input(put_input(i) + rest) == Ok::<(Input, Seq<u8>), FormatError>((i, rest)),
{
    assert(put_input(i) + rest =~= put_output_features(i.features) + (put_u64(i.commit.v) + rest));
    lemma_output_features_round_trip(i.features, put_u64(i.commit.v) + rest);
    lemma_u64_round_trip(i.commit.v, rest);
}

proof fn lemma_output_round_trip(o: Output, rest: Seq<u8>)
    ensures
        take_output(put_output(o) + rest) == Ok::<(Output, Seq<u8>), FormatError>((o, rest)),
{
    assert(put_output(o) + rest =~= put_output_features(o.features) + (put_u64(o.commit.v) + rest));
    lemma_output_features_round_trip(o.features, put_u64(o.commit.v) + rest);
    lemma_u64_round_trip(o.commit.v, rest);
}

proof fn lemma_kernel_round_trip(k: TxKernel, rest: Seq<u8>)
    ensures
        take_kernel(put_kernel(k) + rest) == Ok::<(TxKernel, Seq<u8>), FormatError>((k, rest)),
{
    let r4 = put_signature(k.excess_sig) + rest;
    let r3 = put_u64(k.excess.v) + r4;
    let r2 = put_u64(k.lock_height) + r3;
    let r1 = put_u64(k.fee) + r2;
    assert(put_kernel(k) + rest =~= put_kernel_features(k.features) + r1);
    lemma_kernel_features_round_trip(k.features, r1);
    lemma_u64_round_trip(k.fee, r2);
    lemma_u64_round_trip(k.lock_height, r3);
    lemma_u64_round_trip(k.excess.v, r4);
    lemma_signature_round_trip(k.excess_sig, rest);
}

proof fn lemma_participant_keys_round_trip(p: ParticipantDataView, rest: Seq<u8>)
    ensures
        take_participant_keys(put_participant_keys(p) + rest) == Ok::<
            ((u64, Point, Point), Seq<u8>),
            FormatError,
        >(((p.id, p.public_blind_excess, p.public_nonce), rest)),
{
    let r2 = put_u64(p.public_nonce.v) + rest;
    let r1 = put_u64(p.public_blind_excess.v) + r2;
    assert(put_participant_keys(p) + rest =~= put_u64(p.id) + r1);
    lemma_u64_round_trip(p.id, r1);
    lemma_u64_round_trip(p.public_blind_excess.v, r2);
    lemma_u64_round_trip(p.public_nonce.v, rest);
}

proof fn lemma_participant_extras_round_trip(p: ParticipantDataView, rest: Seq<u8>)
    requires
        p.message is Some ==> encode_utf8(p.message->Some_0).len() <= u64::MAX,
    ensures
        take_participant_extras(put_participant_extras(p) + rest) == Ok::<
            ((Option<Signature>, Option<Seq<char>>, Option<Signature>), Seq<u8>),
            FormatError,
        >(((p.part_sig, p.message, p.message_sig), rest)),
{
    let r2 = put_optional_signature(p.message_sig) + rest;
    let r1 = put_optional_text(p.message) + r2;
    assert(put_participant_extras(p) + rest =~= put_optional_signature(p.part_sig) + r1);
    lemma_optional_signature_round_trip(p.part_sig, r1);
    lemma_optional_text_round_trip(p.message, r2);
    lemma_optional_signature_round_trip(p.message_sig, rest);
}

proof fn lemma_participant_round_trip(p: ParticipantDataView, rest: Seq<u8>)
    requires
        p.message is Some ==> encode_utf8(p.message->Some_0).len() <= u64::MAX,
    ensures
        take_participant(put_participant(p) + rest) == Ok::<
            (ParticipantDataView, Seq<u8>),
            FormatError,
        >((p, rest)),
{
    let r1 = put_participant_extras(p) + rest;
    assert(put_participant(p) + rest =~= put_participant_keys(p) + r1);
    lemma_participant_keys_round_trip(p, r1);
    lemma_participant_extras_round_trip(p, rest);
}

proof fn lemma_header_round_trip(s: SlateView, rest: Seq<u8>)
    ensures
        take_header(put_header(s) + rest) == Ok::<
            ((VersionCompatInfo, usize, u128), Seq<u8>),
            FormatError,
        >(((s.version_info, s.num_participants, s.id), rest)),
{
    let r4 = put_u128(s.id) + rest;
    let r3 = put_u64(s.num_participants as u64) + r4;
    let r2 = put_u16(s.version_info.block_header_version) + r3;
    let r1 = put_u16(s.version_info.orig_version) + r2;
    assert(put_header(s) + rest =~= put_u16(s.version_info.version) + r1);
    lemma_u16_round_trip(s.version_info.version, r1);
    lemma_u16_round_trip(s.version_info.orig_version, r2);
    lemma_u16_round_trip(s.version_info.block_header_version, r3);
    lemma_u64_round_trip(s.num_participants as u64, r4);
    lemma_u128_round_trip(s.id, rest);
}

proof fn lemma_amounts_round_trip(s: SlateView, rest: Seq<u8>)
    ensures
        take_amounts(put_amounts(s) + rest) == Ok::<((u64, u64, u64, u64), Seq<u8>), FormatError>(
            ((s.amount, s.fee, s.height, s.lock_height), rest),
        ),
{
    let r3 = put_u64(s.lock_height) + rest;
    let r2 = put_u64(s.height) + r3;
    let r1 = put_u64(s.fee) + r2;
    assert(put_amounts(s) + rest =~= put_u64(s.amount) + r1);
    lemma_u64_round_trip(s.amount, r1);
    lemma_u64_round_trip(s.fee, r2);
    lemma_u64_round_trip(s.height, r3);
    lemma_u64_round_trip(s.lock_height, rest);
}

proof fn lemma_transaction_round_trip(tx: TransactionView, rest: Seq<u8>)
    requires
        tx.inputs.len() <= u64::MAX,
        tx.outputs.len() <= u64::MAX,
        tx.kernels.len() <= u64::MAX,
    ensures
        take_transaction(put_transaction(tx) + rest) == Ok::<
            (TransactionView, Seq<u8>),
            FormatError,
        >((tx, rest)),
{
    let put_i = |i: Input| put_input(i);
    let take_i = |x: Seq<u8>| take_input(x);
    let put_o = |o: Output| put_output(o);
    let take_o = |x: Seq<u8>| take_output(x);
    let put_k = |k: TxKernel| put_kernel(k);
    let take_k = |x: Seq<u8>| take_kernel(x);
    let r3 = put_list(tx.kernels, put_k) + rest;
    let r2 = put_list(tx.outputs, put_o) + r3;
    let r1 = put_list(tx.inputs, put_i) + r2;
    assert(put_transaction(tx) + rest =~= put_u64(tx.offset.v) + r1);
    lemma_u64_round_trip(tx.offset.v, r1);
    assert forall|i: int| 0 <= i < tx.inputs.len() implies round_trips(
        put_i,
        take_i,
        #[trigger] tx.inputs[i],
    ) by {
        assert forall|more: Seq<u8>| #[trigger]
            take_i(put_i(tx.inputs[i]) + more) == Ok::<(Input, Seq<u8>), FormatError>(
                (tx.inputs[i], more),
            ) by {
            lemma_input_round_trip(tx.inputs[i], more);
        }
    }
    lemma_list_round_trip(tx.inputs, put_i, take_i, r2);
    assert forall|i: int| 0 <= i < tx.outputs.len() implies round_trips(
        put_o,
        take_o,
        #[trigger] tx.outputs[i],
    ) by {
        assert forall|more: Seq<u8>| #[trigger]
            take_o(put_o(tx.outputs[i]) + more) == Ok::<(Output, Seq<u8>), FormatError>(
                (tx.outputs[i], more),
            ) by {
            lemma_output_round_trip(tx.outputs[i], more);
        }
    }
    lemma_list_round_trip(tx.outputs, put_o, take_o, r3);
    assert forall|i: int| 0 <= i < tx.kernels.len() implies round_trips(
        put_k,
        take_k,
        #[trigger] tx.kernels[i],
    ) by {
        assert forall|more: Seq<u8>| #[trigger]
            take_k(put_k(tx.kernels[i]) + more) == Ok::<(TxKernel, Seq<u8>), FormatError>(
                (tx.kernels[i], more),
            ) by {
            lemma_kernel_round_trip(tx.kernels[i], more);
        }
    }
    lemma_list_round_trip(tx.kernels, put_k, take_k, rest);
}

/// Reading the bytes of a slate gives the slate back: the id, the amounts,
/// the participants' data, the transaction with its kernel, and all else.
pub proof fn lemma_slate_round_trip(s: SlateView)
    requires
        wire_sized(s),
    ensures
        take_slate(put_slate(s)) == Ok::<SlateView, FormatError>(s),
{
    let put_p = |p: ParticipantDataView| put_participant(p);
    let take_p = |x: Seq<u8>| take_participant(x);
    let none = Seq::<u8>::empty();
    let r4 = put_list(s.participant_data, put_p) + none;
    let r3 = put_transaction(s.tx) + r4;
    let r2 = put_amounts(s) + r3;
    let r1 = put_header(s) + r2;
    let b = put_slate(s);
    assert(b =~= magic() + r1);
    assert(b.take(5) =~= magic());
    assert(b.skip(5) =~= r1);
    lemma_header_round_trip(s, r2);
    lemma_amounts_round_trip(s, r3);
    lemma_transaction_round_trip(s.tx, r4);
    assert forall|i: int| 0 <= i < s.participant_data.len() implies round_trips(
        put_p,
        take_p,
        #[trigger] s.participant_data[i],
    ) by {
        assert forall|more: Seq<u8>| #[trigger]
            take_p(put_p(s.participant_data[i]) + more) == Ok::<
                (ParticipantDataView, Seq<u8>),
                FormatError,
            >((s.participant_data[i], more)) by {
            lemma_participant_round_trip(s.participant_data[i], more);
        }
    }
    lemma_list_round_trip(s.participant_data, put_p, take_p, none);
}

/// `String::from_utf8`: the text that the bytes spell in UTF-8, where they
/// spell one; nothing where they are not valid UTF-8.
#[verifier::external_body]
fn text_from_utf8(bytes: Vec<u8>) -> (r: Option<String>)
    ensures
        r is Some <==> valid_utf8(bytes@),
        r is Some ==> r->Some_0@ == decode_utf8(bytes@),
{
    match String::from_utf8(bytes) {
        Ok(text) => Some(text),
        Err(_) => None,
    }
}

fn append(out: &mut Vec<u8>, bytes: &[u8])
    ensures
        final(out)@ == old(out)@ + bytes@,
{
    out.extend_from_slice(bytes);
    assert(out@ =~= old(out)@ + bytes@);
}

fn write_u8(out: &mut Vec<u8>, v: u8)
    ensures
        final(out)@ == old(out)@ + put_u8(v),
{
    out.push(v);
    assert(out@ =~= old(out)@ + put_u8(v));
}

fn write_u16(out: &mut Vec<u8>, v: u16)
    ensures
        final(out)@ == old(out)@ + put_u16(v),
{
    let bytes = u16_to_le_bytes(v);
    append(out, bytes.as_slice());
}

fn write_u64(out: &mut Vec<u8>, v: u64)
    ensures
        final(out)@ == old(out)@ + put_u64(v),
{
    let bytes = u64_to_le_bytes(v);
    append(out, bytes.as_slice());
}

fn write_u128(out: &mut Vec<u8>, v: u128)
    ensures
        final(out)@ == old(out)@ + put_u128(v),
{
    let bytes = u128_to_le_bytes(v);
    append(out, bytes.as_slice());
}

fn write_signature(out: &mut Vec<u8>, s: Signature)
    ensures
        final(out)@ == old(out)@ + put_signature(s),
{
    write_u64(out, s.nonce.v);
    write_u64(out, s.s.v);
    assert(out@ =~= old(out)@ + put_signature(s));
}

fn write_optional_signature(out: &mut Vec<u8>, s: Option<Signature>)
    ensures
        final(out)@ == old(out)@ + put_optional_signature(s),
{
    match s {
        Some(sig) => {
            write_u8(out, 1);
            write_signature(out, sig);
        },
        None => {
            write_u8(out, 0);
        },
    }
    assert(out@ =~= old(out)@ + put_optional_signature(s));
}

fn write_optional_text(out: &mut Vec<u8>, text: &Option<String>)
    ensures
        final(out)@ == old(out)@ + put_optional_text(text_view(*text)),
        text is Some ==> encode_utf8(text->Some_0@).len() <= u64::MAX,
{
    match text {
        Some(t) => {
            let bytes = t.as_str().as_bytes();
            write_u8(out, 1);
            write_u64(out, bytes.len() as u64);
            append(out, bytes);
        },
        None => {
            write_u8(out, 0);
        },
    }
    assert(out@ =~= old(out)@ + put_optional_text(text_view(*text)));
}

proof fn lemma_put_items_push<T>(items: Seq<T>, x: T, put: spec_fn(T) -> Seq<u8>)
    ensures
        put_items(items.push(x), put) == put_items(items, put) + put(x),
{
    assert(items.push(x).drop_last() =~= items);
}

fn write_inputs(out: &mut Vec<u8>, inputs: &Vec<Input>)
    ensures
        final(out)@ == old(out)@ + put_list(inputs@, |i: Input| put_input(i)),
{
    let ghost put = |i: Input| put_input(i);
    write_u64(out, inputs.len() as u64);
    let ghost base = out@;
    let mut i: usize = 0;
    assert(out@ =~= base + put_items(inputs@.subrange(0, 0), put));
    while i < inputs.len()
        invariant
            i <= inputs.len(),
            put == (|i: Input| put_input(i)),
            out@ == base + put_items(inputs@.subrange(0, i as int), put),
        decreases inputs.len() - i,
    {
        proof {
            assert(inputs@.subrange(0, i as int + 1) =~= inputs@.subrange(0, i as int).push(
                inputs@[i as int],
            ));
            lemma_put_items_push(inputs@.subrange(0, i as int), inputs@[i as int], put);
        }
        let ghost before = out@;
        match inputs[i].features {
            OutputFeatures::Plain => write_u8(out, 0),
            OutputFeatures::Coinbase => write_u8(out, 1),
        }
        write_u64(out, inputs[i].commit.v);
        assert(out@ =~= before + put_input(inputs@[i as int]));
        assert(out@ =~= base + put_items(inputs@.subrange(0, i as int + 1), put));
        i = i + 1;
    }
    assert(inputs@.subrange(0, i as int) =~= inputs@);
    assert(out@ =~= old(out)@ + put_list(inputs@, put));
}

fn write_outputs(out: &mut Vec<u8>, outputs: &Vec<Output>)
    ensures
        final(out)@ == old(out)@ + put_list(outputs@, |o: Output| put_output(o)),
{
    let ghost put = |o: Output| put_output(o);
    write_u64(out, outputs.len() as u64);
    let ghost base = out@;
    let mut i: usize = 0;
    assert(out@ =~= base + put_items(outputs@.subrange(0, 0), put));
    while i < outputs.len()
        invariant
            i <= outputs.len(),
            put == (|o: Output| put_output(o)),
            out@ == base + put_items(outputs@.subrange(0, i as int), put),
        decreases outputs.len() - i,
    {
        proof {
            assert(outputs@.subrange(0, i as int + 1) =~= outputs@.subrange(0, i as int).push(
                outputs@[i as int],
            ));
            lemma_put_items_push(outputs@.subrange(0, i as int), outputs@[i as int], put);
        }
        let ghost before = out@;
        match outputs[i].features {
            OutputFeatures::Plain => write_u8(out, 0),
            OutputFeatures::Coinbase => write_u8(out, 1),
        }
        write_u64(out, outputs[i].commit.v);
        assert(out@ =~= before + put_output(outputs@[i as int]));
        assert(out@ =~= base + put_items(outputs@.subrange(0, i as int + 1), put));
        i = i + 1;
    }
    assert(outputs@.subrange(0, i as int) =~= outputs@);
    assert(out@ =~= old(out)@ + put_list(outputs@, put));
}

fn write_kernel(out: &mut Vec<u8>, k: &TxKernel)
    ensures
        final(out)@ == old(out)@ + put_kernel(*k),
{
    match k.features {
        KernelFeatures::Plain => write_u8(out, 0),
        KernelFeatures::Coinbase => write_u8(out, 1),
        KernelFeatures::HeightLocked => write_u8(out, 2),
    }
    write_u64(out, k.fee);
    write_u64(out, k.lock_height);
    write_u64(out, k.excess.v);
    write_signature(out, k.excess_sig);
    assert(out@ =~= old(out)@ + put_kernel(*k));
}

fn write_kernels(out: &mut Vec<u8>, kernels: &Vec<TxKernel>)
    ensures
        final(out)@ == old(out)@ + put_list(kernels@, |k: TxKernel| put_kernel(k)),
{
    let ghost put = |k: TxKernel| put_kernel(k);
    write_u64(out, kernels.len() as u64);
    let ghost base = out@;
    let mut i: usize = 0;
    assert(out@ =~= base + put_items(kernels@.subrange(0, 0), put));
    while i < kernels.len()
        invariant
            i <= kernels.len(),
            put == (|k: TxKernel| put_kernel(k)),
            out@ == base + put_items(kernels@.subrange(0, i as int), put),
        decreases kernels.len() - i,
    {
        proof {
            assert(kernels@.subrange(0, i as int + 1) =~= kernels@.subrange(0, i as int).push(
                kernels@[i as int],
            ));
            lemma_put_items_push(kernels@.subrange(0, i as int), kernels@[i as int], put);
        }
        write_kernel(out, &kernels[i]);
        assert(out@ =~= base + put_items(kernels@.subrange(0, i as int + 1), put));
        i = i + 1;
    }
    assert(kernels@.subrange(0, i as int) =~= kernels@);
    assert(out@ =~= old(out)@ + put_list(kernels@, put));
}

fn write_participant(out: &mut Vec<u8>, p: &ParticipantData)
    ensures
        final(out)@ == old(out)@ + put_participant(p@),
        p@.message is Some ==> encode_utf8(p@.message->Some_0).len() <= u64::MAX,
{
    write_u64(out, p.id);
    write_u64(out, p.public_blind_excess.v);
    write_u64(out, p.public_nonce.v);
    assert(out@ =~= old(out)@ + put_participant_keys(p@));
    let ghost mid = out@;
    write_optional_signature(out, p.part_sig);
    write_optional_text(out, &p.message);
    write_optional_signature(out, p.message_sig);
    assert(out@ =~= mid + put_participant_extras(p@));
    assert(out@ =~= old(out)@ + put_participant(p@));
}

fn write_participants(out: &mut Vec<u8>, participants: &Vec<ParticipantData>)
    ensures
        final(out)@ == old(out)@ + put_list(
            participants_view(participants@),
            |p: ParticipantDataView| put_participant(p),
        ),
        forall|i: int|
            0 <= i < participants@.len() ==> ((#[trigger] participants_view(
                participants@,
            )[i]).message is Some ==> encode_utf8(
                participants_view(participants@)[i].message->Some_0,
            ).len() <= u64::MAX),
{
    let ghost put = |p: ParticipantDataView| put_participant(p);
    let ghost views = participants_view(participants@);
    write_u64(out, participants.len() as u64);
    let ghost base = out@;
    let mut i: usize = 0;
    assert(out@ =~= base + put_items(views.subrange(0, 0), put));
    while i < participants.len()
        invariant
            i <= participants.len(),
            views == participants_view(participants@),
            put == (|p: ParticipantDataView| put_participant(p)),
            out@ == base + put_items(views.subrange(0, i as int), put),
            forall|j: int|
                0 <= j < i ==> ((#[trigger] views[j]).message is Some ==> encode_utf8(
                    views[j].message->Some_0,
                ).len() <= u64::MAX),
        decreases participants.len() - i,
    {
        proof {
            assert(views.subrange(0, i as int + 1) =~= views.subrange(0, i as int).push(
                views[i as int],
            ));
            lemma_put_items_push(views.subrange(0, i as int), views[i as int], put);
            assert(participants@[i as int]@ == views[i as int]);
        }
        write_participant(out, &participants[i]);
        assert(out@ =~= base + put_items(views.subrange(0, i as int + 1), put));
        i = i + 1;
    }
    assert(views.subrange(0, i as int) =~= views);
    assert(out@ =~= old(out)@ + put_list(views, put));
}

/// The bytes of a slate.
pub fn encode_slate(slate: &Slate) -> (bytes: Vec<u8>)
    ensures
        bytes@ == put_slate(slate@),
        wire_sized(slate@),
{
    let mut out: Vec<u8> = Vec::new();
    out.push(0x53);
    out.push(0x4c);
    out.push(0x41);
    out.push(0x54);
    out.push(0x01);
    assert(out@ =~= magic());
    write_u16(&mut out, slate.version_info.version);
    write_u16(&mut out, slate.version_info.orig_version);
    write_u16(&mut out, slate.version_info.block_header_version);
    write_u64(&mut out, slate.num_participants as u64);
    write_u128(&mut out, slate.id);
    assert(out@ =~= magic() + put_header(slate@));
    let ghost after_header = out@;
    write_u64(&mut out, slate.amount);
    write_u64(&mut out, slate.fee);
    write_u64(&mut out, slate.height);
    write_u64(&mut out, slate.lock_height);
    assert(out@ =~= after_header + put_amounts(slate@));
    let ghost after_amounts = out@;
    write_u64(&mut out, slate.tx.offset.v);
    write_inputs(&mut out, &slate.tx.body.inputs);
    write_outputs(&mut out, &slate.tx.body.outputs);
    write_kernels(&mut out, &slate.tx.body.kernels);
    assert(out@ =~= after_amounts + put_transaction(slate@.tx));
    write_participants(&mut out, &slate.participant_data);
    proof {
        assert(slate.tx.body.inputs.len() <= usize::MAX);
        assert(slate.tx.body.outputs.len() <= usize::MAX);
        assert(slate.tx.body.kernels.len() <= usize::MAX);
        assert(slate.participant_data.len() <= usize::MAX);
        assert(slate@.participant_data.len() == slate.participant_data@.len());
        assert forall|i: int|
            0 <= i < slate@.participant_data.len() && (
            #[trigger] slate@.participant_data[i]).message is Some implies encode_utf8(
            slate@.participant_data[i].message->Some_0,
        ).len() <= u64::MAX by {
            assert(slate@.participant_data[i] == participants_view(slate.participant_data@)[i]);
        }
    }
    out
}

/// Whether a reader that starts at some position of `bytes` has done what
/// reading off the front of the bytes from that position gives: it has the
/// value and stands where the rest begins, or it reports what is wrong.
pub open spec fn reads<T>(
    bytes: Seq<u8>,
    taken: Taken<T>,
    r: Result<(T, usize), FormatError>,
) -> bool {
    match taken {
        Ok((v, rest)) => r is Ok && r->Ok_0.0 == v && r->Ok_0.1 <= bytes.len() && rest
            == bytes.skip(r->Ok_0.1 as int),
        Err(e) => r == Err::<(T, usize), FormatError>(e),
    }
}

fn read_u8(bytes: &[u8], pos: usize) -> (r: Result<(u8, usize), FormatError>)
    requires
        pos <= bytes@.len(),
    ensures
        reads(bytes@, take_u8(bytes@.skip(pos as int)), r),
{
    if bytes.len() - pos < 1 {
        return Err(FormatError::Truncated);
    }
    assert(bytes@.skip(pos as int).skip(1) =~= bytes@.skip(pos as int + 1));
    Ok((bytes[pos], pos + 1))
}

fn read_u16(bytes: &[u8], pos: usize) -> (r: Result<(u16, usize), FormatError>)
    requires
        pos <= bytes@.len(),
    ensures
        reads(bytes@, take_u16(bytes@.skip(pos as int)), r),
{
    if bytes.len() - pos < 2 {
        return Err(FormatError::Truncated);
    }
    assert(bytes@.skip(pos as int).skip(2) =~= bytes@.skip(pos as int + 2));
    assert(bytes@.skip(pos as int).take(2) =~= bytes@.subrange(pos as int, pos as int + 2));
    Ok((u16_from_le_bytes(slice_subrange(bytes, pos, pos + 2)), pos + 2))
}

fn read_u64(bytes: &[u8], pos: usize) -> (r: Result<(u64, usize), FormatError>)
    requires
        pos <= bytes@.len(),
    ensures
        reads(bytes@, take_u64(bytes@.skip(pos as int)), r),
{
    if bytes.len() - pos < 8 {
        return Err(FormatError::Truncated);
    }
    assert(bytes@.skip(pos as int).skip(8) =~= bytes@.skip(pos as int + 8));
    assert(bytes@.skip(pos as int).take(8) =~= bytes@.subrange(pos as int, pos as int + 8));
    Ok((u64_from_le_bytes(slice_subrange(bytes, pos, pos + 8)), pos + 8))
}

fn read_u128(bytes: &[u8], pos: usize) -> (r: Result<(u128, usize), FormatError>)
    requires
        pos <= bytes@.len(),
    ensures
        reads(bytes@, take_u128(bytes@.skip(pos as int)), r),
{
    if bytes.len() - pos < 16 {
        return Err(FormatError::Truncated);
    }
    assert(bytes@.skip(pos as int).skip(16) =~= bytes@.skip(pos as int + 16));
    assert(bytes@.skip(pos as int).take(16) =~= bytes@.subrange(pos as int, pos as int + 16));
    Ok((u128_from_le_bytes(slice_subrange(bytes, pos, pos + 16)), pos + 16))
}

fn read_signature(bytes: &[u8], pos: usize) -> (r: Result<(Signature, usize), FormatError>)
    requires
        pos <= bytes@.len(),
    ensures
        reads(bytes@, take_signature(bytes@.skip(pos as int)), r),
{
    let (nonce, at1) = match read_u64(bytes, pos) {
        Ok(x) => x,
        Err(e) => {
            return Err(e);
        },
    };
    let (s, at2) = match read_u64(bytes, at1) {
        Ok(x) => x,
        Err(e) => {
            return Err(e);
        },
    };
    Ok((Signature { nonce: Point { v: nonce }, s: Scalar { v: s } }, at2))
}

fn read_optional_signature(bytes: &[u8], pos: usize) -> (r: Result<
    (Option<Signature>, usize),
    FormatError,
>)
    requires
        pos <= bytes@.len(),
    ensures
        reads(bytes@, take_optional_signature(bytes@.skip(pos as int)), r),
{
    let (tag, at1) = match read_u8(bytes, pos) {
        Ok(x) => x,
        Err(e) => {
            return Err(e);
        },
    };
    if tag == 0 {
        Ok((None, at1))
    } else if tag == 1 {
        match read_signature(bytes, at1) {
            Ok((sig, at2)) => Ok((Some(sig), at2)),
            Err(e) => Err(e),
        }
    } else {
        Err(FormatError::BadTag)
    }
}

fn read_optional_text(bytes: &[u8], pos: usize) -> (r: Result<(Option<String>, usize), FormatError>)
    requires
        pos <= bytes@.len(),
    ensures
        match take_optional_text(bytes@.skip(pos as int)) {
            Ok((v, rest)) => r is Ok && text_view(r->Ok_0.0) == v && r->Ok_0.1
                <= bytes@.len() && rest == bytes@.skip(r->Ok_0.1 as int),
            Err(e) => r == Err::<(Option<String>, usize), FormatError>(e),
        },
{
    let (tag, at1) = match read_u8(bytes, pos) {
        Ok(x) => x,
        Err(e) => {
            return Err(e);
        },
    };
    if tag == 0 {
        return Ok((None, at1));
    }
    if tag != 1 {
        return Err(FormatError::BadTag);
    }
    let (len, at2) = match read_u64(bytes, at1) {
        Ok(x) => x,
        Err(e) => {
            return Err(e);
        },
    };
    if ((bytes.len() - at2) as u64) < len {
        return Err(FormatError::Truncated);
    }
    let end = at2 + len as usize;
    assert(bytes@.skip(at2 as int).take(len as int) =~= bytes@.subrange(at2 as int, end as int));
    assert(bytes@.skip(at2 as int).skip(len as int) =~= bytes@.skip(end as int));
    let raw = vstd::slice::slice_to_vec(slice_subrange(bytes, at2, end));
    match text_from_utf8(raw) {
        Some(text) => Ok((Some(text), end)),
        None => Err(FormatError::BadText),
    }
}

fn read_output_features(bytes: &[u8], pos: usize) -> (r: Result<
    (OutputFeatures, usize),
    FormatError,
>)
    requires
        pos <= bytes@.len(),
    ensures
        reads(bytes@, take_output_features(bytes@.skip(pos as int)), r),
{
    let (tag, at1) = match read_u8(bytes, pos) {
        Ok(x) => x,
        Err(e) => {
            return Err(e);
        },
    };
    if tag == 0 {
        Ok((OutputFeatures::Plain, at1))
    } else if tag == 1 {
        Ok((OutputFeatures::Coinbase, at1))
    } else {
        Err(FormatError::BadTag)
    }
}

fn read_input(bytes: &[u8], pos: usize) -> (r: Result<(Input, usize), FormatError>)
    requires
        pos <= bytes@.len(),
    ensures
        reads(bytes@, take_input(bytes@.skip(pos as int)), r),
{
    let (features, at1) = match read_output_features(bytes, pos) {
        Ok(x) => x,
        Err(e) => {
            return Err(e);
        },
    };
    match read_u64(bytes, at1) {
        Ok((commit, at2)) => Ok((Input { features, commit: Point { v: commit } }, at2)),
        Err(e) => Err(e),
    }
}

fn read_output(bytes: &[u8], pos: usize) -> (r: Result<(Output, usize), FormatError>)
    requires
        pos <= bytes@.len(),
    ensures
        reads(bytes@, take_output(bytes@.skip(pos as int)), r),
{
    let (features, at1) = match read_output_features(bytes, pos) {
        Ok(x) => x,
        Err(e) => {
            return Err(e);
        },
    };
    match read_u64(bytes, at1) {
        Ok((commit, at2)) => Ok((Output { features, commit: Point { v: commit } }, at2)),
        Err(e) => Err(e),
    }
}

fn read_kernel(bytes: &[u8], pos: usize) -> (r: Result<(TxKernel, usize), FormatError>)
    requires
        pos <= bytes@.len(),
    ensures
        reads(bytes@, take_kernel(bytes@.skip(pos as int)), r),
{
    let (tag, at1) = match read_u8(bytes, pos) {
        Ok(x) => x,
        Err(e) => {
            return Err(e);
        },
    };
    let features = if tag == 0 {
        KernelFeatures::Plain
    } else if tag == 1 {
        KernelFeatures::Coinbase
    } else if tag == 2 {
        KernelFeatures::HeightLocked
    } else {
        return Err(FormatError::BadTag);
    };
    let (fee, at2) = match read_u64(bytes, at1) {
        Ok(x) => x,
        Err(e) => {
            return Err(e);
        },
    };
    let (lock_height, at3) = match read_u64(bytes, at2) {
        Ok(x) => x,
        Err(e) => {
            return Err(e);
        },
    };
    let (excess, at4) = match read_u64(bytes, at3) {
        Ok(x) => x,
        Err(e) => {
            return Err(e);
        },
    };
    match read_signature(bytes, at4) {
        Ok((excess_sig, at5)) => Ok(
            (TxKernel { features, fee, lock_height, excess: Point { v: excess }, excess_sig }, at5),
        ),
        Err(e) => Err(e),
    }
}

fn read_participant(bytes: &[u8], pos: usize) -> (r: Result<(ParticipantData, usize), FormatError>)
    requires
        pos <= bytes@.len(),
    ensures
        match take_participant(bytes@.skip(pos as int)) {
            Ok((v, rest)) => r is Ok && r->Ok_0.0@ == v && r->Ok_0.1 <= bytes@.len() && rest
                == bytes@.skip(r->Ok_0.1 as int),
            Err(e) => r == Err::<(ParticipantData, usize), FormatError>(e),
        },
{
    let (id, at1) = match read_u64(bytes, pos) {
        Ok(x) => x,
        Err(e) => {
            return Err(e);
        },
    };
    let (key, at2) = match read_u64(bytes, at1) {
        Ok(x) => x,
        Err(e) => {
            return Err(e);
        },
    };
    let (nonce, at3) = match read_u64(bytes, at2) {
        Ok(x) => x,
        Err(e) => {
            return Err(e);
        },
    };
    let (part_sig, at4) = match read_optional_signature(bytes, at3) {
        Ok(x) => x,
        Err(e) => {
            return Err(e);
        },
    };
    let (message, at5) = match read_optional_text(bytes, at4) {
        Ok(x) => x,
        Err(e) => {
            return Err(e);
        },
    };
    match read_optional_signature(bytes, at5) {
        Ok((message_sig, at6)) => Ok(
            (
                ParticipantData {
                    id,
                    public_blind_excess: Point { v: key },
                    public_nonce: Point { v: nonce },
                    part_sig,
                    message,
                    message_sig,
                },
                at6,
            ),
        ),
        Err(e) => Err(e),
    }
}

/// An element that cannot be read makes the list unreadable, however many
/// elements are asked for.
proof fn lemma_take_items_error<T>(
    b: Seq<u8>,
    k: nat,
    n: nat,
    take: spec_fn(Seq<u8>) -> Taken<T>,
    e: FormatError,
)
    requires
        k <= n,
        take_items(b, k, take) == Err::<(Seq<T>, Seq<u8>), FormatError>(e),
    ensures
        take_items(b, n, take) == Err::<(Seq<T>, Seq<u8>), FormatError>(e),
    decreases n - k,
{
    if k < n {
        lemma_take_items_error(b, k, (n - 1) as nat, take, e);
    }
}

fn read_inputs(bytes: &[u8], pos: usize) -> (r: Result<(Vec<Input>, usize), FormatError>)
    requires
        pos <= bytes@.len(),
    ensures
        match take_list(bytes@.skip(pos as int), |x: Seq<u8>| take_input(x)) {
            Ok((v, rest)) => r is Ok && r->Ok_0.0@ == v && r->Ok_0.1 <= bytes@.len() && rest
                == bytes@.skip(r->Ok_0.1 as int),
            Err(e) => r == Err::<(Vec<Input>, usize), FormatError>(e),
        },
{
    let ghost take = |x: Seq<u8>| take_input(x);
    let (n, start) = match read_u64(bytes, pos) {
        Ok(x) => x,
        Err(e) => {
            return Err(e);
        },
    };
    let ghost b = bytes@.skip(start as int);
    let mut items: Vec<Input> = Vec::new();
    let mut at = start;
    let mut k: u64 = 0;
    assert(items@ =~= Seq::<Input>::empty());
    while k < n
        invariant
            k <= n,
            at <= bytes@.len(),
            take == (|x: Seq<u8>| take_input(x)),
            b == bytes@.skip(start as int),
            take_u64(bytes@.skip(pos as int)) == Ok::<(u64, Seq<u8>), FormatError>((n, b)),
            take_items(b, k as nat, take) == Ok::<(Seq<Input>, Seq<u8>), FormatError>(
                (items@, bytes@.skip(at as int)),
            ),
        decreases n - k,
    {
        match read_input(bytes, at) {
            Ok((item, next)) => {
                items.push(item);
                at = next;
            },
            Err(e) => {
                proof {
                    assert(take_items(b, (k + 1) as nat, take) == Err::<
                        (Seq<Input>, Seq<u8>),
                        FormatError,
                    >(e));
                    lemma_take_items_error(b, (k + 1) as nat, n as nat, take, e);
                }
                return Err(e);
            },
        }
        k = k + 1;
    }
    Ok((items, at))
}

fn read_outputs(bytes: &[u8], pos: usize) -> (r: Result<(Vec<Output>, usize), FormatError>)
    requires
        pos <= bytes@.len(),
    ensures
        match take_list(bytes@.skip(pos as int), |x: Seq<u8>| take_output(x)) {
            Ok((v, rest)) => r is Ok && r->Ok_0.0@ == v && r->Ok_0.1 <= bytes@.len() && rest
                == bytes@.skip(r->Ok_0.1 as int),
            Err(e) => r == Err::<(Vec<Output>, usize), FormatError>(e),
        },
{
    let ghost take = |x: Seq<u8>| take_output(x);
    let (n, start) = match read_u64(bytes, pos) {
        Ok(x) => x,
        Err(e) => {
            return Err(e);
        },
    };
    let ghost b = bytes@.skip(start as int);
    let mut items: Vec<Output> = Vec::new();
    let mut at = start;
    let mut k: u64 = 0;
    assert(items@ =~= Seq::<Output>::empty());
    while k < n
        invariant
            k <= n,
            at <= bytes@.len(),
            take == (|x: Seq<u8>| take_output(x)),
            b == bytes@.skip(start as int),
            take_u64(bytes@.skip(pos as int)) == Ok::<(u64, Seq<u8>), FormatError>((n, b)),
            take_items(b, k as nat, take) == Ok::<(Seq<Output>, Seq<u8>), FormatError>(
                (items@, bytes@.skip(at as int)),
            ),
        decreases n - k,
    {
        match read_output(bytes, at) {
            Ok((item, next)) => {
                items.push(item);
                at = next;
            },
            Err(e) => {
                proof {
                    assert(take_items(b, (k + 1) as nat, take) == Err::<
                        (Seq<Output>, Seq<u8>),
                        FormatError,
                    >(e));
                    lemma_take_items_error(b, (k + 1) as nat, n as nat, take, e);
                }
                return Err(e);
            },
        }
        k = k + 1;
    }
    Ok((items, at))
}

fn read_kernels(bytes: &[u8], pos: usize) -> (r: Result<(Vec<TxKernel>, usize), FormatError>)
    requires
        pos <= bytes@.len(),
    ensures
        match take_list(bytes@.skip(pos as int), |x: Seq<u8>| take_kernel(x)) {
            Ok((v, rest)) => r is Ok && r->Ok_0.0@ == v && r->Ok_0.1 <= bytes@.len() && rest
                == bytes@.skip(r->Ok_0.1 as int),
            Err(e) => r == Err::<(Vec<TxKernel>, usize), FormatError>(e),
        },
{
    let ghost take = |x: Seq<u8>| take_kernel(x);
    let (n, start) = match read_u64(bytes, pos) {
        Ok(x) => x,
        Err(e) => {
            return Err(e);
        },
    };
    let ghost b = bytes@.skip(start as int);
    let mut items: Vec<TxKernel> = Vec::new();
    let mut at = start;
    let mut k: u64 = 0;
    assert(items@ =~= Seq::<TxKernel>::empty());
    while k < n
        invariant
            k <= n,
            at <= bytes@.len(),
            take == (|x: Seq<u8>| take_kernel(x)),
            b == bytes@.skip(start as int),
            take_u64(bytes@.skip(pos as int)) == Ok::<(u64, Seq<u8>), FormatError>((n, b)),
            take_items(b, k as nat, take) == Ok::<(Seq<TxKernel>, Seq<u8>), FormatError>(
                (items@, bytes@.skip(at as int)),
            ),
        decreases n - k,
    {
        match read_kernel(bytes, at) {
            Ok((item, next)) => {
                items.push(item);
                at = next;
            },
            Err(e) => {
                proof {
                    assert(take_items(b, (k + 1) as nat, take) == Err::<
                        (Seq<TxKernel>, Seq<u8>),
                        FormatError,
                    >(e));
                    lemma_take_items_error(b, (k + 1) as nat, n as nat, take, e);
                }
                return Err(e);
            },
        }
        k = k + 1;
    }
    Ok((items, at))
}

fn read_participants(bytes: &[u8], pos: usize) -> (r: Result<
    (Vec<ParticipantData>, usize),
    FormatError,
>)
    requires
        pos <= bytes@.len(),
    ensures
        match take_list(bytes@.skip(pos as int), |x: Seq<u8>| take_participant(x)) {
            Ok((v, rest)) => r is Ok && participants_view(r->Ok_0.0@) == v && r->Ok_0.1
                <= bytes@.len() && rest == bytes@.skip(r->Ok_0.1 as int),
            Err(e) => r == Err::<(Vec<ParticipantData>, usize), FormatError>(e),
        },
{
    let ghost take = |x: Seq<u8>| take_participant(x);
    let (n, start) = match read_u64(bytes, pos) {
        Ok(x) => x,
        Err(e) => {
            return Err(e);
        },
    };
    let ghost b = bytes@.skip(start as int);
    let mut items: Vec<ParticipantData> = Vec::new();
    let mut at = start;
    let mut k: u64 = 0;
    assert(participants_view(items@) =~= Seq::<ParticipantDataView>::empty());
    while k < n
        invariant
            k <= n,
            at <= bytes@.len(),
            take == (|x: Seq<u8>| take_participant(x)),
            b == bytes@.skip(start as int),
            take_u64(bytes@.skip(pos as int)) == Ok::<(u64, Seq<u8>), FormatError>((n, b)),
            take_items(b, k as nat, take) == Ok::<(Seq<ParticipantDataView>, Seq<u8>), FormatError>(
                (participants_view(items@), bytes@.skip(at as int)),
            ),
        decreases n - k,
    {
        let ghost before = participants_view(items@);
        match read_participant(bytes, at) {
            Ok((item, next)) => {
                items.push(item);
                at = next;
                assert(participants_view(items@) =~= before.push(item@));
            },
            Err(e) => {
                proof {
                    assert(take_items(b, (k + 1) as nat, take) == Err::<
                        (Seq<ParticipantDataView>, Seq<u8>),
                        FormatError,
                    >(e));
                    lemma_take_items_error(b, (k + 1) as nat, n as nat, take, e);
                }
                return Err(e);
            },
        }
        k = k + 1;
    }
    Ok((items, at))
}

fn read_header(bytes: &[u8], pos: usize) -> (r: Result<
    ((VersionCompatInfo, usize, u128), usize),
    FormatError,
>)
    requires
        pos <= bytes@.len(),
    ensures
        reads(bytes@, take_header(bytes@.skip(pos as int)), r),
{
    let (version, at1) = match read_u16(bytes, pos) {
        Ok(x) => x,
        Err(e) => {
            return Err(e);
        },
    };
    let (orig_version, at2) = match read_u16(bytes, at1) {
        Ok(x) => x,
        Err(e) => {
            return Err(e);
        },
    };
    let (block_header_version, at3) = match read_u16(bytes, at2) {
        Ok(x) => x,
        Err(e) => {
            return Err(e);
        },
    };
    let (n, at4) = match read_u64(bytes, at3) {
        Ok(x) => x,
        Err(e) => {
            return Err(e);
        },
    };
    match read_u128(bytes, at4) {
        Ok((id, at5)) => Ok(
            (
                (VersionCompatInfo { version, orig_version, block_header_version }, n as usize, id),
                at5,
            ),
        ),
        Err(e) => Err(e),
    }
}

fn read_amounts(bytes: &[u8], pos: usize) -> (r: Result<((u64, u64, u64, u64), usize), FormatError>)
    requires
        pos <= bytes@.len(),
    ensures
        reads(bytes@, take_amounts(bytes@.skip(pos as int)), r),
{
    let (amount, at1) = match read_u64(bytes, pos) {
        Ok(x) => x,
        Err(e) => {
            return Err(e);
        },
    };
    let (fee, at2) = match read_u64(bytes, at1) {
        Ok(x) => x,
        Err(e) => {
            return Err(e);
        },
    };
    let (height, at3) = match read_u64(bytes, at2) {
        Ok(x) => x,
        Err(e) => {
            return Err(e);
        },
    };
    match read_u64(bytes, at3) {
        Ok((lock_height, at4)) => Ok(((amount, fee, height, lock_height), at4)),
        Err(e) => Err(e),
    }
}

fn read_transaction(bytes: &[u8], pos: usize) -> (r: Result<(Transaction, usize), FormatError>)
    requires
        pos <= bytes@.len(),
    ensures
        match take_transaction(bytes@.skip(pos as int)) {
            Ok((v, rest)) => r is Ok && r->Ok_0.0@ == v && r->Ok_0.1 <= bytes@.len() && rest
                == bytes@.skip(r->Ok_0.1 as int),
            Err(e) => r == Err::<(Transaction, usize), FormatError>(e),
        },
{
    let (offset, at1) = match read_u64(bytes, pos) {
        Ok(x) => x,
        Err(e) => {
            return Err(e);
        },
    };
    let (inputs, at2) = match read_inputs(bytes, at1) {
        Ok(x) => x,
        Err(e) => {
            return Err(e);
        },
    };
    let (outputs, at3) = match read_outputs(bytes, at2) {
        Ok(x) => x,
        Err(e) => {
            return Err(e);
        },
    };
    match read_kernels(bytes, at3) {
        Ok((kernels, at4)) => Ok(
            (
                Transaction {
                    offset: Scalar { v: offset },
                    body: TransactionBody { inputs, outputs, kernels },
                },
                at4,
            ),
        ),
        Err(e) => Err(e),
    }
}

/// Whether an error says that a document cannot be read, for the given
/// reason.
pub open spec fn is_format_error(e: ErrorKind, reason: FormatError) -> bool {
    e matches ErrorKind::Format(r) && r == reason
}

/// Reads a slate from its bytes.
pub fn decode_slate(bytes: &[u8]) -> (r: Result<Slate, ErrorKind>)
    ensures
        match take_slate(bytes@) {
            Ok(s) => r is Ok && r->Ok_0@ == s,
            Err(e) => r is Err && is_format_error(r->Err_0, e),
        },
{
    if bytes.len() < 5 {
        return Err(ErrorKind::Format(FormatError::Truncated));
    }
    if !(bytes[0] == 0x53 && bytes[1] == 0x4c && bytes[2] == 0x41 && bytes[3] == 0x54 && bytes[4]
        == 0x01) {
        assert(bytes@.take(5) != magic()) by {
            if bytes@.take(5) == magic() {
                assert(bytes@.take(5)[0] == 0x53u8);
                assert(bytes@.take(5)[1] == 0x4cu8);
                assert(bytes@.take(5)[2] == 0x41u8);
                assert(bytes@.take(5)[3] == 0x54u8);
                assert(bytes@.take(5)[4] == 0x01u8);
            }
        }
        return Err(ErrorKind::Format(FormatError::BadMagic));
    }
    assert(bytes@.take(5) =~= magic());
    let ((version_info, num_participants, id), at1) = match read_header(bytes, 5) {
        Ok(x) => x,
        Err(e) => {
            return Err(ErrorKind::Format(e));
        },
    };
    let ((amount, fee, height, lock_height), at2) = match read_amounts(bytes, at1) {
        Ok(x) => x,
        Err(e) => {
            return Err(ErrorKind::Format(e));
        },
    };
    let (tx, at3) = match read_transaction(bytes, at2) {
        Ok(x) => x,
        Err(e) => {
            return Err(ErrorKind::Format(e));
        },
    };
    let (participant_data, at4) = match read_participants(bytes, at3) {
        Ok(x) => x,
        Err(e) => {
            return Err(ErrorKind::Format(e));
        },
    };
    if at4 != bytes.len() {
        return Err(ErrorKind::Format(FormatError::TrailingBytes));
    }
    Ok(
        Slate {
            version_info,
            num_participants,
            id,
            tx,
            amount,
            fee,
            height,
            lock_height,
            participant_data,
        },
    )
}

/// The bytes that a proof document starts with.
pub open spec fn proof_magic() -> Seq<u8> {
    seq![0x50u8, 0x52u8, 0x4fu8, 0x46u8, 0x01u8]
}

/// A point: its eight bytes.
pub open spec fn put_point(p: Point) -> Seq<u8> {
    put_u64(p.v)
}

/// Reads a point.
pub open spec fn take_point(b: Seq<u8>) -> Taken<Point> {
    match take_u64(b) {
        Ok((v, b1)) => Ok((Point { v }, b1)),
        Err(e) => Err(e),
    }
}

/// An optional point: the tag 1 and the point, or the tag 0.
pub open spec fn put_optional_point(p: Option<Point>) -> Seq<u8> {
    match p {
        Some(point) => put_u8(1) + put_point(point),
        None => put_u8(0),
    }
}

/// Reads an optional point.
pub open spec fn take_optional_point(b: Seq<u8>) -> Taken<Option<Point>> {
    match take_u8(b) {
        Ok((tag, b1)) => if tag == 0 {
            Ok((None, b1))
        } else if tag == 1 {
            match take_point(b1) {
                Ok((p, b2)) => Ok((Some(p), b2)),
                Err(e) => Err(e),
            }
        } else {
            Err(FormatError::BadTag)
        },
        Err(e) => Err(e),
    }
}

/// The slate id, the amount, the fee and the lock height of a proof.
pub open spec fn put_proof_head(p: TxProofView) -> Seq<u8> {
    put_u128(p.slate_id) + put_u64(p.amount) + put_u64(p.fee) + put_u64(p.lock_height)
}

/// Reads the slate id, the amount, the fee and the lock height of a proof.
pub open spec fn take_proof_head(b: Seq<u8>) -> Taken<(u128, u64, u64, u64)> {
    match take_u128(b) {
        Ok((slate_id, b1)) => match take_u64(b1) {
            Ok((amount, b2)) => match take_u64(b2) {
                Ok((fee, b3)) => match take_u64(b3) {
                    Ok((lock_height, b4)) => Ok(((slate_id, amount, fee, lock_height), b4)),
                    Err(e) => Err(e),
                },
                Err(e) => Err(e),
            },
            Err(e) => Err(e),
        },
        Err(e) => Err(e),
    }
}

/// The excess, the kernel signature and the offset of a proof.
pub open spec fn put_proof_kernel(p: TxProofView) -> Seq<u8> {
    put_point(p.excess) + put_signature(p.excess_sig) + put_u64(p.offset.v)
}

/// Reads the excess, the kernel signature and the offset of a proof.
pub open spec fn take_proof_kernel(b: Seq<u8>) -> Taken<(Point, Signature, Scalar)> {
    match take_point(b) {
        Ok((excess, b1)) => match take_signature(b1) {
            Ok((excess_sig, b2)) => match take_u64(b2) {
                Ok((offset, b3)) => Ok(((excess, excess_sig, Scalar { v: offset }), b3)),
                Err(e) => Err(e),
            },
            Err(e) => Err(e),
        },
        Err(e) => Err(e),
    }
}

/// The payer's message, key and signature.
pub open spec fn put_proof_payer(p: TxProofView) -> Seq<u8> {
    put_optional_text(p.prover_msg) + put_optional_point(p.prover_key) + put_optional_signature(
        p.signature,
    )
}

/// Reads the payer's message, key and signature.
pub open spec fn take_proof_payer(b: Seq<u8>) -> Taken<
    (Option<Seq<char>>, Option<Point>, Option<Signature>),
> {
    match take_optional_text(b) {
        Ok((prover_msg, b1)) => match take_optional_point(b1) {
            Ok((prover_key, b2)) => match take_optional_signature(b2) {
                Ok((signature, b3)) => Ok(((prover_msg, prover_key, signature), b3)),
                Err(e) => Err(e),
            },
            Err(e) => Err(e),
        },
        Err(e) => Err(e),
    }
}

/// The bytes of a proof.
pub open spec fn put_proof(p: TxProofView) -> Seq<u8> {
    proof_magic() + put_proof_head(p) + put_proof_kernel(p) + put_list(
        p.inputs,
        |c: Point| put_point(c),
    ) + put_list(p.outputs, |c: Point| put_point(c)) + put_proof_payer(p)
}

/// The proof that some bytes spell, or what is wrong with them.
pub open spec fn take_proof(b: Seq<u8>) -> Result<TxProofView, FormatError> {
    if b.len() < 5 {
        Err(FormatError::Truncated)
    } else if b.take(5) != proof_magic() {
        Err(FormatError::BadMagic)
    } else {
        match take_proof_head(b.skip(5)) {
            Ok(((slate_id, amount, fee, lock_height), b1)) => match take_proof_kernel(b1) {
                Ok(((excess, excess_sig, offset), b2)) => match take_list(
                    b2,
                    |x: Seq<u8>| take_point(x),
                ) {
                    Ok((inputs, b3)) => match take_list(b3, |x: Seq<u8>| take_point(x)) {
                        Ok((outputs, b4)) => match take_proof_payer(b4) {
                            Ok(((prover_msg, prover_key, signature), b5)) => if b5.len() != 0 {
                                Err(FormatError::TrailingBytes)
                            } else {
                                Ok(
                                    TxProofView {
                                        slate_id,
                                        amount,
                                        fee,
                                        lock_height,
                                        excess,
                                        excess_sig,
                                        offset,
                                        inputs,
                                        outputs,
                                        prover_msg,
                                        prover_key,
                                        signature,
                                    },
                                )
                            },
                            Err(e) => Err(e),
                        },
                        Err(e) => Err(e),
                    },
                    Err(e) => Err(e),
                },
                Err(e) => Err(e),
            },
            Err(e) => Err(e),
        }
    }
}

/// Whether the lists and the text of a proof are short enough for their
/// lengths to be written in 64 bits.
pub open spec fn proof_wire_sized(p: TxProofView) -> bool {
    &&& p.inputs.len() <= u64::MAX
    &&& p.outputs.len() <= u64::MAX
    &&& p.prover_msg is Some ==> encode_utf8(p.prover_msg->Some_0).len() <= u64::MAX
}

proof fn lemma_point_round_trip(p: Point, rest: Seq<u8>)
    ensures
        take_point(put_point(p) + rest) == Ok::<(Point, Seq<u8>), FormatError>((p, rest)),
{
    lemma_u64_round_trip(p.v, rest);
}

proof fn lemma_optional_point_round_trip(p: Option<Point>, rest: Seq<u8>)
    ensures
        take_optional_point(put_optional_point(p) + rest) == Ok::<
            (Option<Point>, Seq<u8>),
            FormatError,
        >((p, rest)),
{
    match p {
        Some(point) => {
            assert(put_optional_point(p) + rest =~= put_u8(1) + (put_point(point) + rest));
            lemma_u8_round_trip(1, put_point(point) + rest);
            lemma_point_round_trip(point, rest);
        },
        None => {
            lemma_u8_round_trip(0, rest);
        },
    }
}

proof fn lemma_proof_head_round_trip(p: TxProofView, rest: Seq<u8>)
    ensures
        take_proof_head(put_proof_head(p) + rest) == Ok::<
            ((u128, u64, u64, u64), Seq<u8>),
            FormatError,
        >(((p.slate_id, p.amount, p.fee, p.lock_height), rest)),
{
    let r3 = put_u64(p.lock_height) + rest;
    let r2 = put_u64(p.fee) + r3;
    let r1 = put_u64(p.amount) + r2;
    assert(put_proof_head(p) + rest =~= put_u128(p.slate_id) + r1);
    lemma_u128_round_trip(p.slate_id, r1);
    lemma_u64_round_trip(p.amount, r2);
    lemma_u64_round_trip(p.fee, r3);
    lemma_u64_round_trip(p.lock_height, rest);
}

proof fn lemma_proof_kernel_round_trip(p: TxProofView, rest: Seq<u8>)
    ensures
        take_proof_kernel(put_proof_kernel(p) + rest) == Ok::<
            ((Point, Signature, Scalar), Seq<u8>),
            FormatError,
        >(((p.excess, p.excess_sig, p.offset), rest)),
{
    let r2 = put_u64(p.offset.v) + rest;
    let r1 = put_signature(p.excess_sig) + r2;
    assert(put_proof_kernel(p) + rest =~= put_point(p.excess) + r1);
    lemma_point_round_trip(p.excess, r1);
    lemma_signature_round_trip(p.excess_sig, r2);
    lemma_u64_round_trip(p.offset.v, rest);
}

proof fn lemma_proof_payer_round_trip(p: TxProofView, rest: Seq<u8>)
    requires
        p.prover_msg is Some ==> encode_utf8(p.prover_msg->Some_0).len() <= u64::MAX,
    ensures
        take_proof_payer(put_proof_payer(p) + rest) == Ok::<
            ((Option<Seq<char>>, Option<Point>, Option<Signature>), Seq<u8>),
            FormatError,
        >(((p.prover_msg, p.prover_key, p.signature), rest)),
{
    let r2 = put_optional_signature(p.signature) + rest;
    let r1 = put_optional_point(p.prover_key) + r2;
    assert(put_proof_payer(p) + rest =~= put_optional_text(p.prover_msg) + r1);
    lemma_optional_text_round_trip(p.prover_msg, r1);
    lemma_optional_point_round_trip(p.prover_key, r2);
    lemma_optional_signature_round_trip(p.signature, rest);
}

proof fn lemma_points_round_trip(points: Seq<Point>, rest: Seq<u8>)
    requires
        points.len() <= u64::MAX,
    ensures
        take_list(put_list(points, |c: Point| put_point(c)) + rest, |x: Seq<u8>| take_point(x))
            == Ok::<(Seq<Point>, Seq<u8>), FormatError>((points, rest)),
{
    let put_c = |c: Point| put_point(c);
    let take_c = |x: Seq<u8>| take_point(x);
    assert forall|i: int| 0 <= i < points.len() implies round_trips(
        put_c,
        take_c,
        #[trigger] points[i],
    ) by {
        assert forall|more: Seq<u8>| #[trigger]
            take_c(put_c(points[i]) + more) == Ok::<(Point, Seq<u8>), FormatError>(
                (points[i], more),
            ) by {
            lemma_point_round_trip(points[i], more);
        }
    }
    lemma_list_round_trip(points, put_c, take_c, rest);
}

/// Reading the bytes of a proof gives the proof back.
pub proof fn lemma_proof_round_trip(p: TxProofView)
    requires
        proof_wire_sized(p),
    ensures
        take_proof(put_proof(p)) == Ok::<TxProofView, FormatError>(p),
{
    let put_c = |c: Point| put_point(c);
    let none = Seq::<u8>::empty();
    let r5 = put_proof_payer(p) + none;
    let r4 = put_list(p.outputs, put_c) + r5;
    let r3 = put_list(p.inputs, put_c) + r4;
    let r2 = put_proof_kernel(p) + r3;
    let r1 = put_proof_head(p) + r2;
    let b = put_proof(p);
    assert(b =~= proof_magic() + r1);
    assert(b.take(5) =~= proof_magic());
    assert(b.skip(5) =~= r1);
    lemma_proof_head_round_trip(p, r2);
    lemma_proof_kernel_round_trip(p, r3);
    lemma_points_round_trip(p.inputs, r4);
    lemma_points_round_trip(p.outputs, r5);
    lemma_proof_payer_round_trip(p, none);
}

fn write_points(out: &mut Vec<u8>, points: &Vec<Point>)
    ensures
        final(out)@ == old(out)@ + put_list(points@, |c: Point| put_point(c)),
{
    let ghost put = |c: Point| put_point(c);
    write_u64(out, points.len() as u64);
    let ghost base = out@;
    let mut i: usize = 0;
    assert(out@ =~= base + put_items(points@.subrange(0, 0), put));
    while i < points.len()
        invariant
            i <= points.len(),
            put == (|c: Point| put_point(c)),
            out@ == base + put_items(points@.subrange(0, i as int), put),
        decreases points.len() - i,
    {
        proof {
            assert(points@.subrange(0, i as int + 1) =~= points@.subrange(0, i as int).push(
                points@[i as int],
            ));
            lemma_put_items_push(points@.subrange(0, i as int), points@[i as int], put);
        }
        write_u64(out, points[i].v);
        assert(out@ =~= base + put_items(points@.subrange(0, i as int + 1), put));
        i = i + 1;
    }
    assert(points@.subrange(0, i as int) =~= points@);
    assert(out@ =~= old(out)@ + put_list(points@, put));
}

fn write_optional_point(out: &mut Vec<u8>, p: Option<Point>)
    ensures
        final(out)@ == old(out)@ + put_optional_point(p),
{
    match p {
        Some(point) => {
            write_u8(out, 1);
            write_u64(out, point.v);
        },
        None => {
            write_u8(out, 0);
        },
    }
    assert(out@ =~= old(out)@ + put_optional_point(p));
}

/// The bytes of a proof.
pub fn encode_proof(tx_proof: &TxProof) -> (bytes: Vec<u8>)
    ensures
        bytes@ == put_proof(tx_proof@),
        proof_wire_sized(tx_proof@),
{
    let mut out: Vec<u8> = Vec::new();
    out.push(0x50);
    out.push(0x52);
    out.push(0x4f);
    out.push(0x46);
    out.push(0x01);
    assert(out@ =~= proof_magic());
    write_u128(&mut out, tx_proof.slate_id);
    write_u64(&mut out, tx_proof.amount);
    write_u64(&mut out, tx_proof.fee);
    write_u64(&mut out, tx_proof.lock_height);
    assert(out@ =~= proof_magic() + put_proof_head(tx_proof@));
    let ghost after_head = out@;
    write_u64(&mut out, tx_proof.excess.v);
    write_signature(&mut out, tx_proof.excess_sig);
    write_u64(&mut out, tx_proof.offset.v);
    assert(out@ =~= after_head + put_proof_kernel(tx_proof@));
    write_points(&mut out, &tx_proof.inputs);
    write_points(&mut out, &tx_proof.outputs);
    let ghost after_commits = out@;
    write_optional_text(&mut out, &tx_proof.prover_msg);
    write_optional_point(&mut out, tx_proof.prover_key);
    write_optional_signature(&mut out, tx_proof.signature);
    assert(out@ =~= after_commits + put_proof_payer(tx_proof@));
    proof {
        assert(tx_proof.inputs.len() <= usize::MAX);
        assert(tx_proof.outputs.len() <= usize::MAX);
    }
    out
}

fn read_point(bytes: &[u8], pos: usize) -> (r: Result<(Point, usize), FormatError>)
    requires
        pos <= bytes@.len(),
    ensures
        reads(bytes@, take_point(bytes@.skip(pos as int)), r),
{
    match read_u64(bytes, pos) {
        Ok((v, next)) => Ok((Point { v }, next)),
        Err(e) => Err(e),
    }
}

fn read_optional_point(bytes: &[u8], pos: usize) -> (r: Result<(Option<Point>, usize), FormatError>)
    requires
        pos <= bytes@.len(),
    ensures
        reads(bytes@, take_optional_point(bytes@.skip(pos as int)), r),
{
    let (tag, next) = match read_u8(bytes, pos) {
        Ok(x) => x,
        Err(e) => {
            return Err(e);
        },
    };
    if tag == 0 {
        Ok((None, next))
    } else if tag == 1 {
        match read_point(bytes, next) {
            Ok((p, end)) => Ok((Some(p), end)),
            Err(e) => Err(e),
        }
    } else {
        Err(FormatError::BadTag)
    }
}

fn read_points(bytes: &[u8], pos: usize) -> (r: Result<(Vec<Point>, usize), FormatError>)
    requires
        pos <= bytes@.len(),
    ensures
        match take_list(bytes@.skip(pos as int), |x: Seq<u8>| take_point(x)) {
            Ok((v, rest)) => r is Ok && r->Ok_0.0@ == v && r->Ok_0.1 <= bytes@.len() && rest
                == bytes@.skip(r->Ok_0.1 as int),
            Err(e) => r == Err::<(Vec<Point>, usize), FormatError>(e),
        },
{
    let ghost take = |x: Seq<u8>| take_point(x);
    let (n, start) = match read_u64(bytes, pos) {
        Ok(x) => x,
        Err(e) => {
            return Err(e);
        },
    };
    let ghost b = bytes@.skip(start as int);
    let mut items: Vec<Point> = Vec::new();
    let mut at = start;
    let mut k: u64 = 0;
    assert(items@ =~= Seq::<Point>::empty());
    while k < n
        invariant
            k <= n,
            at <= bytes@.len(),
            take == (|x: Seq<u8>| take_point(x)),
            b == bytes@.skip(start as int),
            take_u64(bytes@.skip(pos as int)) == Ok::<(u64, Seq<u8>), FormatError>((n, b)),
            take_items(b, k as nat, take) == Ok::<(Seq<Point>, Seq<u8>), FormatError>(
                (items@, bytes@.skip(at as int)),
            ),
        decreases n - k,
    {
        match read_point(bytes, at) {
            Ok((item, next)) => {
                items.push(item);
                at = next;
            },
            Err(e) => {
                proof {
                    assert(take_items(b, (k + 1) as nat, take) == Err::<
                        (Seq<Point>, Seq<u8>),
                        FormatError,
                    >(e));
                    lemma_take_items_error(b, (k + 1) as nat, n as nat, take, e);
                }
                return Err(e);
            },
        }
        k = k + 1;
    }
    Ok((items, at))
}

fn read_proof_head(bytes: &[u8], pos: usize) -> (r: Result<
    ((u128, u64, u64, u64), usize),
    FormatError,
>)
    requires
        pos <= bytes@.len(),
    ensures
        reads(bytes@, take_proof_head(bytes@.skip(pos as int)), r),
{
    let (slate_id, at1) = match read_u128(bytes, pos) {
        Ok(x) => x,
        Err(e) => {
            return Err(e);
        },
    };
    let (amount, at2) = match read_u64(bytes, at1) {
        Ok(x) => x,
        Err(e) => {
            return Err(e);
        },
    };
    let (fee, at3) = match read_u64(bytes, at2) {
        Ok(x) => x,
        Err(e) => {
            return Err(e);
        },
    };
    match read_u64(bytes, at3) {
        Ok((lock_height, at4)) => Ok(((slate_id, amount, fee, lock_height), at4)),
        Err(e) => Err(e),
    }
}

fn read_proof_kernel(bytes: &[u8], pos: usize) -> (r: Result<
    ((Point, Signature, Scalar), usize),
    FormatError,
>)
    requires
        pos <= bytes@.len(),
    ensures
        reads(bytes@, take_proof_kernel(bytes@.skip(pos as int)), r),
{
    let (excess, at1) = match read_point(bytes, pos) {
        Ok(x) => x,
        Err(e) => {
            return Err(e);
        },
    };
    let (excess_sig, at2) = match read_signature(bytes, at1) {
        Ok(x) => x,
        Err(e) => {
            return Err(e);
        },
    };
    match read_u64(bytes, at2) {
        Ok((offset, at3)) => Ok(((excess, excess_sig, Scalar { v: offset }), at3)),
        Err(e) => Err(e),
    }
}

/// Reads a proof from its bytes.
pub fn decode_proof(bytes: &[u8]) -> (r: Result<TxProof, ErrorKind>)
    ensures
        match take_proof(bytes@) {
            Ok(p) => r is Ok && r->Ok_0@ == p,
            Err(e) => r is Err && is_format_error(r->Err_0, e),
        },
{
    if bytes.len() < 5 {
        return Err(ErrorKind::Format(FormatError::Truncated));
    }
    if !(bytes[0] == 0x50 && bytes[1] == 0x52 && bytes[2] == 0x4f && bytes[3] == 0x46 && bytes[4]
        == 0x01) {
        assert(bytes@.take(5) != proof_magic()) by {
            if bytes@.take(5) == proof_magic() {
                assert(bytes@.take(5)[0] == 0x50u8);
                assert(bytes@.take(5)[1] == 0x52u8);
                assert(bytes@.take(5)[2] == 0x4fu8);
                assert(bytes@.take(5)[3] == 0x46u8);
                assert(bytes@.take(5)[4] == 0x01u8);
            }
        }
        return Err(ErrorKind::Format(FormatError::BadMagic));
    }
    assert(bytes@.take(5) =~= proof_magic());
    let ((slate_id, amount, fee, lock_height), at1) = match read_proof_head(bytes, 5) {
        Ok(x) => x,
        Err(e) => {
            return Err(ErrorKind::Format(e));
        },
    };
    let ((excess, excess_sig, offset), at2) = match read_proof_kernel(bytes, at1) {
        Ok(x) => x,
        Err(e) => {
            return Err(ErrorKind::Format(e));
        },
    };
    let (inputs, at3) = match read_points(bytes, at2) {
        Ok(x) => x,
        Err(e) => {
            return Err(ErrorKind::Format(e));
        },
    };
    let (outputs, at4) = match read_points(bytes, at3) {
        Ok(x) => x,
        Err(e) => {
            return Err(ErrorKind::Format(e));
        },
    };
    let (prover_msg, at5) = match read_optional_text(bytes, at4) {
        Ok(x) => x,
        Err(e) => {
            return Err(ErrorKind::Format(e));
        },
    };
    let (prover_key, at6) = match read_optional_point(bytes, at5) {
        Ok(x) => x,
        Err(e) => {
            return Err(ErrorKind::Format(e));
        },
    };
    let (signature, at7) = match read_optional_signature(bytes, at6) {
        Ok(x) => x,
        Err(e) => {
            return Err(ErrorKind::Format(e));
        },
    };
    if at7 != bytes.len() {
        return Err(ErrorKind::Format(FormatError::TrailingBytes));
    }
    Ok(
        TxProof {
            slate_id,
            amount,
            fee,
            lock_height,
            excess,
            excess_sig,
            offset,
            inputs,
            outputs,
            prover_msg,
            prover_key,
            signature,
        },
    )
}

} // verus!
