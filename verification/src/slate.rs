//! The slate: the document that the parties of a transaction fill in turn,
//! and the two signing rounds that end in a finalized kernel.

use vstd::prelude::*;
use vstd::string::*;
use vstd::utf8::encode_utf8;
use crate::aggsig::{
    Signature, add_signatures, challenge, compute_challenge, compute_digest, digest,
    message_challenge, message_signature, sign, sign_message, signature_add, signature_of,
    signature_valid, verify, verify_message,
};
use crate::error::{ErrorKind, Violation};
use crate::group::{Point, Scalar, point_add, point_of, scalar_sub};
use crate::transaction::{
    KernelFeatures, Transaction, TransactionView, TxKernel, empty_transaction, excess_of,
    kernel_valid, zero_point,
};
use crate::types::{ParticipantMessageData, ParticipantMessageView, messages_view};

verus! {

/// The version of the slate format that this library writes.
pub const CURRENT_SLATE_VERSION: u16 = 2;

/// The block header version that a slate assumes unless the chain height
/// says otherwise.
pub const DEFAULT_HEADER_VERSION: u16 = 2;

/// The number of blocks between two changes of the header version.
pub const HARD_FORK_INTERVAL: u64 = 262080;

/// Versions that the parties need to agree on.
#[derive(Clone, Copy, PartialEq, Eq, Structural, Debug)]
pub struct VersionCompatInfo {
    /// The version of the slate format.
    pub version: u16,
    /// The version that the slate was created with.
    pub orig_version: u16,
    /// The block header version that the transaction is built for.
    pub block_header_version: u16,
}

/// Whether blocks at `height` carry headers of the given version.
pub open spec fn header_version_valid(height: u64, version: u16) -> bool {
    if height < HARD_FORK_INTERVAL {
        version == 1
    } else if height < 2 * HARD_FORK_INTERVAL {
        version == 2
    } else {
        false
    }
}

/// Whether blocks at `height` carry headers of the given version.
pub fn valid_header_version(height: u64, version: u16) -> (ok: bool)
    ensures
        ok == header_version_valid(height, version),
{
    if height < HARD_FORK_INTERVAL {
        version == 1
    } else if height < 2 * HARD_FORK_INTERVAL {
        version == 2
    } else {
        false
    }
}

/// What one party has published in a slate.
#[derive(PartialEq, Eq, Debug)]
pub struct ParticipantData {
    /// The participant's number in the slate.
    pub id: u64,
    /// The public key of the participant's share of the excess.
    pub public_blind_excess: Point,
    /// The participant's public nonce.
    pub public_nonce: Point,
    /// The partial signature; absent until the participant's second round.
    pub part_sig: Option<Signature>,
    /// A message for the other parties.
    pub message: Option<String>,
    /// The participant's signature of the message.
    pub message_sig: Option<Signature>,
}

/// A participant's entry as a mathematical value.
pub struct ParticipantDataView {
    pub id: u64,
    pub public_blind_excess: Point,
    pub public_nonce: Point,
    pub part_sig: Option<Signature>,
    pub message: Option<Seq<char>>,
    pub message_sig: Option<Signature>,
}

/// The characters of an optional text.
pub open spec fn text_view(text: Option<String>) -> Option<Seq<char>> {
    match text {
        Some(s) => Some(s@),
        None => None,
    }
}

impl View for ParticipantData {
    type V = ParticipantDataView;

    open spec fn view(&self) -> ParticipantDataView {
        ParticipantDataView {
            id: self.id,
            public_blind_excess: self.public_blind_excess,
            public_nonce: self.public_nonce,
            part_sig: self.part_sig,
            message: text_view(self.message),
            message_sig: self.message_sig,
        }
    }
}

/// The entries of a list of participants as mathematical values.
pub open spec fn participants_view(ps: Seq<ParticipantData>) -> Seq<ParticipantDataView> {
    ps.map_values(|p: ParticipantData| p@)
}

/// How far the signing of a slate has come.
#[derive(Clone, Copy, PartialEq, Eq, Structural, Debug)]
pub enum SlateStage {
    /// Some participant has yet to publish its key and nonce.
    Created,
    /// All keys and nonces are published; some partial signature is missing.
    Round1Done,
    /// All partial signatures are there; the kernel is not signed.
    Round2Done,
    /// The kernel carries the excess and the aggregate signature.
    Finalized,
}

/// The document that the parties fill in.
#[derive(PartialEq, Eq, Debug)]
pub struct Slate {
    pub version_info: VersionCompatInfo,
    /// The number of parties; fixed when the slate is made.
    pub num_participants: usize,
    /// The id of the slate; fixed when the slate is made.
    pub id: u128,
    pub tx: Transaction,
    /// The amount that changes hands.
    pub amount: u64,
    pub fee: u64,
    /// The chain height at which the slate was made.
    pub height: u64,
    /// The height before which the transaction cannot be mined; 0 for none.
    pub lock_height: u64,
    pub participant_data: Vec<ParticipantData>,
}

/// A slate as a mathematical value.
pub struct SlateView {
    pub version_info: VersionCompatInfo,
    pub num_participants: usize,
    pub id: u128,
    pub tx: TransactionView,
    pub amount: u64,
    pub fee: u64,
    pub height: u64,
    pub lock_height: u64,
    pub participant_data: Seq<ParticipantDataView>,
}

impl View for Slate {
    type V = SlateView;

    open spec fn view(&self) -> SlateView {
        SlateView {
            version_info: self.version_info,
            num_participants: self.num_participants,
            id: self.id,
            tx: self.tx@,
            amount: self.amount,
            fee: self.fee,
            height: self.height,
            lock_height: self.lock_height,
            participant_data: participants_view(self.participant_data@),
        }
    }
}

/// The slate that nobody has filled in yet.
pub open spec fn blank_slate(num_participants: usize, id: u128) -> SlateView {
    SlateView {
        version_info: VersionCompatInfo {
            version: CURRENT_SLATE_VERSION,
            orig_version: CURRENT_SLATE_VERSION,
            block_header_version: DEFAULT_HEADER_VERSION,
        },
        num_participants,
        id,
        tx: empty_transaction(),
        amount: 0,
        fee: 0,
        height: 0,
        lock_height: 0,
        participant_data: Seq::empty(),
    }
}

/// The index of the first entry with the given id, or the length of the
/// list where there is none.
pub open spec fn position(ps: Seq<ParticipantDataView>, id: u64) -> int
    decreases ps.len(),
{
    if ps.len() == 0 {
        0
    } else {
        let before = position(ps.drop_last(), id);
        if before < ps.len() - 1 {
            before
        } else if ps.last().id == id {
            ps.len() - 1
        } else {
            ps.len() as int
        }
    }
}

/// The sum of the participants' public keys.
pub open spec fn key_sum(ps: Seq<ParticipantDataView>) -> Point
    decreases ps.len(),
{
    if ps.len() == 0 {
        zero_point()
    } else {
        point_add(key_sum(ps.drop_last()), ps.last().public_blind_excess)
    }
}

/// The sum of the participants' public nonces.
pub open spec fn nonce_sum(ps: Seq<ParticipantDataView>) -> Point
    decreases ps.len(),
{
    if ps.len() == 0 {
        zero_point()
    } else {
        point_add(nonce_sum(ps.drop_last()), ps.last().public_nonce)
    }
}

/// The signature that stands for an absent one in a sum.
pub open spec fn zero_signature() -> Signature {
    Signature { nonce: zero_point(), s: Scalar { v: 0 } }
}

/// The sum of the partial signatures that are there.
pub open spec fn sig_sum(ps: Seq<ParticipantDataView>) -> Signature
    decreases ps.len(),
{
    if ps.len() == 0 {
        zero_signature()
    } else {
        let rest = sig_sum(ps.drop_last());
        match ps.last().part_sig {
            Some(sig) => signature_add(rest, sig),
            None => rest,
        }
    }
}

/// Whether every participant has given its partial signature.
pub open spec fn all_signed(ps: Seq<ParticipantDataView>) -> bool {
    forall|i: int| 0 <= i < ps.len() ==> (#[trigger] ps[i]).part_sig is Some
}

/// Whether the partial signature of `p`, if there is one, carries the
/// participant's nonce and is valid for the participant's key under `e`.
pub open spec fn partial_ok(p: ParticipantDataView, e: Scalar) -> bool {
    match p.part_sig {
        Some(sig) => sig.nonce == p.public_nonce && signature_valid(sig, p.public_blind_excess, e),
        None => true,
    }
}

/// Whether every partial signature that is there is valid under `e`.
pub open spec fn partials_ok(ps: Seq<ParticipantDataView>, e: Scalar) -> bool {
    forall|i: int| 0 <= i < ps.len() ==> partial_ok(#[trigger] ps[i], e)
}

/// The challenge that all participants of a slate sign under.
pub open spec fn slate_challenge(s: SlateView) -> Scalar {
    challenge(nonce_sum(s.participant_data), key_sum(s.participant_data), s.fee, s.lock_height)
}

/// The digest of a message text.
pub open spec fn text_digest(text: Seq<char>) -> Scalar {
    digest(encode_utf8(text))
}

/// Whether the message of `p`, if there is one, is signed by the
/// participant's key.
pub open spec fn message_ok(p: ParticipantDataView) -> bool {
    match p.message {
        Some(text) => match p.message_sig {
            Some(sig) => signature_valid(
                sig,
                p.public_blind_excess,
                message_challenge(p.public_blind_excess, text_digest(text)),
            ),
            None => false,
        },
        None => true,
    }
}

/// Whether every message in the list is signed by its participant.
pub open spec fn messages_ok(ps: Seq<ParticipantDataView>) -> bool {
    forall|i: int| 0 <= i < ps.len() ==> message_ok(#[trigger] ps[i])
}

/// The kernel offset of a slate after a participant's first round: the
/// first participant to come sets it.
pub open spec fn round_one_offset(s: SlateView, offset: Scalar) -> Scalar {
    if s.tx.offset == (Scalar { v: 0 }) {
        offset
    } else {
        s.tx.offset
    }
}

/// The secret key that a participant signs with after its first round: the
/// participant that sets the kernel offset takes it off its key.
pub open spec fn round_one_key(s: SlateView, sec_key: Scalar, offset: Scalar) -> Scalar {
    if s.tx.offset == (Scalar { v: 0 }) {
        scalar_sub(sec_key, offset)
    } else {
        sec_key
    }
}

/// The entry that a participant publishes in its first round.
pub open spec fn round_one_entry(
    key: Scalar,
    nonce: Scalar,
    id: u64,
    message: Option<Seq<char>>,
) -> ParticipantDataView {
    ParticipantDataView {
        id,
        public_blind_excess: point_of(key),
        public_nonce: point_of(nonce),
        part_sig: None,
        message,
        message_sig: match message {
            Some(text) => Some(message_signature(key, text_digest(text))),
            None => None,
        },
    }
}

/// The list with `entry` in the place of the entry of the same id, or at
/// the end where there is none.
pub open spec fn with_participant(
    ps: Seq<ParticipantDataView>,
    entry: ParticipantDataView,
) -> Seq<ParticipantDataView> {
    let i = position(ps, entry.id);
    if i < ps.len() {
        ps.update(i, entry)
    } else {
        ps.push(entry)
    }
}

/// Whether the slate has room for the first round of participant `id`.
pub open spec fn round_one_admits(s: SlateView, id: u64) -> bool {
    position(s.participant_data, id) < s.participant_data.len() || s.participant_data.len()
        < s.num_participants
}

/// The slate after the first round of participant `id`.
pub open spec fn after_round_one(
    s: SlateView,
    sec_key: Scalar,
    sec_nonce: Scalar,
    id: u64,
    message: Option<Seq<char>>,
    offset: Scalar,
) -> SlateView {
    SlateView {
        tx: TransactionView { offset: round_one_offset(s, offset), ..s.tx },
        participant_data: with_participant(
            s.participant_data,
            round_one_entry(round_one_key(s, sec_key, offset), sec_nonce, id, message),
        ),
        ..s
    }
}

/// Why the second round of participant `id` is refused, if it is.
pub open spec fn round_two_error(s: SlateView, id: u64) -> Option<ErrorKind> {
    if s.participant_data.len() < s.num_participants {
        Some(ErrorKind::ProtocolViolation(Violation::MissingRoundOne))
    } else if !partials_ok(s.participant_data, slate_challenge(s)) {
        Some(ErrorKind::InvalidSignature)
    } else if position(s.participant_data, id) >= s.participant_data.len() {
        Some(ErrorKind::ProtocolViolation(Violation::UnknownParticipant))
    } else {
        None
    }
}

/// The slate after the second round of participant `id`.
pub open spec fn after_round_two(
    s: SlateView,
    sec_key: Scalar,
    sec_nonce: Scalar,
    id: u64,
) -> SlateView {
    let i = position(s.participant_data, id);
    SlateView {
        participant_data: s.participant_data.update(
            i,
            ParticipantDataView {
                part_sig: Some(signature_of(sec_key, sec_nonce, slate_challenge(s))),
                ..s.participant_data[i]
            },
        ),
        ..s
    }
}

/// The kernel of a finalized slate.
pub open spec fn final_kernel(s: SlateView) -> TxKernel {
    TxKernel {
        features: if s.lock_height == 0 {
            KernelFeatures::Plain
        } else {
            KernelFeatures::HeightLocked
        },
        fee: s.fee,
        lock_height: s.lock_height,
        excess: excess_of(s.tx, s.fee),
        excess_sig: sig_sum(s.participant_data),
    }
}

/// Why a slate cannot be finalized, if it cannot.
pub open spec fn finalize_error(s: SlateView) -> Option<ErrorKind> {
    if s.participant_data.len() < s.num_participants {
        Some(ErrorKind::ProtocolViolation(Violation::MissingRoundOne))
    } else if !all_signed(s.participant_data) {
        Some(ErrorKind::ProtocolViolation(Violation::MissingRoundTwo))
    } else if s.tx.kernels.len() != 1 {
        Some(ErrorKind::ProtocolViolation(Violation::KernelCount))
    } else if !partials_ok(s.participant_data, slate_challenge(s)) {
        Some(ErrorKind::InvalidSignature)
    } else if !kernel_valid(final_kernel(s)) {
        Some(ErrorKind::InvalidSignature)
    } else {
        None
    }
}

/// The message of a participant, as a log entry keeps it.
pub open spec fn message_of(p: ParticipantDataView) -> ParticipantMessageView {
    ParticipantMessageView {
        id: p.id,
        public_key: p.public_blind_excess,
        message: p.message,
        message_sig: p.message_sig,
    }
}

/// The messages of the participants of a slate.
pub open spec fn messages_of(ps: Seq<ParticipantDataView>) -> Seq<ParticipantMessageView> {
    ps.map_values(|p: ParticipantDataView| message_of(p))
}

/// The slate after it was finalized.
pub open spec fn finalized(s: SlateView) -> SlateView {
    SlateView { tx: TransactionView { kernels: seq![final_kernel(s)], ..s.tx }, ..s }
}

/// How far the signing of a slate has come.
pub open spec fn stage_of(s: SlateView) -> SlateStage {
    if s.participant_data.len() < s.num_participants {
        SlateStage::Created
    } else if !all_signed(s.participant_data) {
        SlateStage::Round1Done
    } else if s.tx.kernels == seq![final_kernel(s)] && finalize_error(s) is None {
        SlateStage::Finalized
    } else {
        SlateStage::Round2Done
    }
}

/// An entry is at `i` exactly when `i` is the position of its id.
pub proof fn lemma_position(ps: Seq<ParticipantDataView>, id: u64, i: int)
    requires
        0 <= i <= ps.len(),
        forall|j: int| 0 <= j < i ==> (#[trigger] ps[j]).id != id,
        i < ps.len() ==> ps[i].id == id,
    ensures
        position(ps, id) == i,
    decreases ps.len(),
{
    if ps.len() > 0 {
        let front = ps.drop_last();
        if i < ps.len() - 1 {
            lemma_position(front, id, i);
        } else if i == ps.len() - 1 {
            lemma_position(front, id, front.len() as int);
        } else {
            lemma_position(front, id, front.len() as int);
        }
    }
}

/// The position of an id is in range, and names the first entry of that id.
pub proof fn lemma_position_found(ps: Seq<ParticipantDataView>, id: u64)
    ensures
        0 <= position(ps, id) <= ps.len(),
        position(ps, id) < ps.len() ==> ps[position(ps, id)].id == id,
        forall|j: int| 0 <= j < position(ps, id) ==> (#[trigger] ps[j]).id != id,
    decreases ps.len(),
{
    if ps.len() > 0 {
        let front = ps.drop_last();
        lemma_position_found(front, id);
        assert forall|j: int| 0 <= j < position(ps, id) implies (#[trigger] ps[j]).id != id by {
            if j < front.len() {
                assert(ps[j] == front[j]);
            }
        }
    }
}

proof fn lemma_sums_push(ps: Seq<ParticipantDataView>, p: ParticipantDataView)
    ensures
        key_sum(ps.push(p)) == point_add(key_sum(ps), p.public_blind_excess),
        nonce_sum(ps.push(p)) == point_add(nonce_sum(ps), p.public_nonce),
        sig_sum(ps.push(p)) == match p.part_sig {
            Some(sig) => signature_add(sig_sum(ps), sig),
            None => sig_sum(ps),
        },
{
    assert(ps.push(p).drop_last() =~= ps);
}

impl Clone for ParticipantData {
    fn clone(&self) -> (p: ParticipantData)
        ensures
            p == *self,
    {
        ParticipantData {
            id: self.id,
            public_blind_excess: self.public_blind_excess,
            public_nonce: self.public_nonce,
            part_sig: self.part_sig,
            message: match &self.message {
                Some(text) => Some(text.clone()),
                None => None,
            },
            message_sig: self.message_sig,
        }
    }
}

impl Clone for Slate {
    fn clone(&self) -> (s: Slate)
        ensures
            s@ == self@,
    {
        let participant_data = self.participant_data.clone();
        assert(participant_data@ =~= self.participant_data@);
        Slate {
            version_info: self.version_info,
            num_participants: self.num_participants,
            id: self.id,
            tx: self.tx.clone(),
            amount: self.amount,
            fee: self.fee,
            height: self.height,
            lock_height: self.lock_height,
            participant_data,
        }
    }
}

impl ParticipantData {
    /// Whether the participant has completed its second round.
    pub fn is_complete(&self) -> (done: bool)
        ensures
            done == (self@.part_sig is Some),
    {
        self.part_sig.is_some()
    }
}

impl Slate {
    /// The slate that nobody has filled in yet.
    pub fn blank(num_participants: usize, id: u128) -> (slate: Slate)
        ensures
            slate@ == blank_slate(num_participants, id),
    {
        let slate = Slate {
            version_info: VersionCompatInfo {
                version: CURRENT_SLATE_VERSION,
                orig_version: CURRENT_SLATE_VERSION,
                block_header_version: DEFAULT_HEADER_VERSION,
            },
            num_participants,
            id,
            tx: Transaction::empty(),
            amount: 0,
            fee: 0,
            height: 0,
            lock_height: 0,
            participant_data: Vec::new(),
        };
        assert(slate@.participant_data =~= Seq::empty());
        slate
    }

    /// The index of the entry of participant `id`.
    pub fn find_participant(&self, id: u64) -> (i: usize)
        ensures
            i == position(self@.participant_data, id),
            i <= self.participant_data.len(),
    {
        let mut i: usize = 0;
        while i < self.participant_data.len()
            invariant
                i <= self.participant_data.len(),
                forall|j: int| 0 <= j < i ==> (#[trigger] self@.participant_data[j]).id != id,
            decreases self.participant_data.len() - i,
        {
            if self.participant_data[i].id == id {
                proof {
                    lemma_position(self@.participant_data, id, i as int);
                }
                return i;
            }
            i = i + 1;
        }
        proof {
            lemma_position(self@.participant_data, id, i as int);
        }
        i
    }

    /// The entry of participant `id`, if the slate has one.
    pub fn participant_with_id(&self, id: u64) -> (p: Option<&ParticipantData>)
        ensures
            match p {
                Some(entry) => {
                    &&& position(self@.participant_data, id) < self@.participant_data.len()
                    &&& entry@ == self@.participant_data[position(self@.participant_data, id)]
                },
                None => position(self@.participant_data, id) == self@.participant_data.len(),
            },
    {
        let i = self.find_participant(id);
        if i < self.participant_data.len() {
            Some(&self.participant_data[i])
        } else {
            None
        }
    }

    /// The sum of the participants' public keys.
    pub fn pub_blind_sum(&self) -> (sum: Point)
        ensures
            sum == key_sum(self@.participant_data),
    {
        let mut sum = Point { v: 0 };
        let mut i: usize = 0;
        while i < self.participant_data.len()
            invariant
                i <= self.participant_data.len(),
                sum == key_sum(self@.participant_data.subrange(0, i as int)),
            decreases self.participant_data.len() - i,
        {
            proof {
                assert(self@.participant_data.subrange(0, i as int + 1)
                    =~= self@.participant_data.subrange(0, i as int).push(
                    self@.participant_data[i as int],
                ));
                lemma_sums_push(
                    self@.participant_data.subrange(0, i as int),
                    self@.participant_data[i as int],
                );
            }
            sum = sum.plus(self.participant_data[i].public_blind_excess);
            i = i + 1;
        }
        proof {
            assert(self@.participant_data.subrange(0, i as int) =~= self@.participant_data);
        }
        sum
    }

    /// The sum of the participants' public nonces.
    pub fn pub_nonce_sum(&self) -> (sum: Point)
        ensures
            sum == nonce_sum(self@.participant_data),
    {
        let mut sum = Point { v: 0 };
        let mut i: usize = 0;
        while i < self.participant_data.len()
            invariant
                i <= self.participant_data.len(),
                sum == nonce_sum(self@.participant_data.subrange(0, i as int)),
            decreases self.participant_data.len() - i,
        {
            proof {
                assert(self@.participant_data.subrange(0, i as int + 1)
                    =~= self@.participant_data.subrange(0, i as int).push(
                    self@.participant_data[i as int],
                ));
                lemma_sums_push(
                    self@.participant_data.subrange(0, i as int),
                    self@.participant_data[i as int],
                );
            }
            sum = sum.plus(self.participant_data[i].public_nonce);
            i = i + 1;
        }
        proof {
            assert(self@.participant_data.subrange(0, i as int) =~= self@.participant_data);
        }
        sum
    }

    /// The challenge that all participants sign under.
    pub fn kernel_challenge(&self) -> (e: Scalar)
        ensures
            e == slate_challenge(self@),
    {
        compute_challenge(self.pub_nonce_sum(), self.pub_blind_sum(), self.fee, self.lock_height)
    }

    /// Whether every partial signature that is there is valid.
    pub fn verify_part_sigs(&self) -> (ok: bool)
        ensures
            ok == partials_ok(self@.participant_data, slate_challenge(self@)),
    {
        let e = self.kernel_challenge();
        let mut i: usize = 0;
        while i < self.participant_data.len()
            invariant
                i <= self.participant_data.len(),
                e == slate_challenge(self@),
                forall|j: int| 0 <= j < i ==> partial_ok(#[trigger] self@.participant_data[j], e),
            decreases self.participant_data.len() - i,
        {
            let p = &self.participant_data[i];
            assert(p@ == self@.participant_data[i as int]);
            match p.part_sig {
                Some(sig) => {
                    if !(sig.nonce == p.public_nonce && verify(sig, p.public_blind_excess, e)) {
                        return false;
                    }
                },
                None => {},
            }
            i = i + 1;
        }
        true
    }

    /// Whether every participant has given its partial signature.
    pub fn is_fully_signed(&self) -> (ok: bool)
        ensures
            ok == all_signed(self@.participant_data),
    {
        let mut i: usize = 0;
        while i < self.participant_data.len()
            invariant
                i <= self.participant_data.len(),
                forall|j: int|
                    0 <= j < i ==> (#[trigger] self@.participant_data[j]).part_sig is Some,
            decreases self.participant_data.len() - i,
        {
            if self.participant_data[i].part_sig.is_none() {
                assert(self@.participant_data[i as int].part_sig is None);
                return false;
            }
            i = i + 1;
        }
        true
    }

    /// The sum of the partial signatures that are there.
    pub fn aggregate_signature(&self) -> (sum: Signature)
        ensures
            sum == sig_sum(self@.participant_data),
    {
        let mut sum = Signature { nonce: Point { v: 0 }, s: Scalar { v: 0 } };
        let mut i: usize = 0;
        while i < self.participant_data.len()
            invariant
                i <= self.participant_data.len(),
                sum == sig_sum(self@.participant_data.subrange(0, i as int)),
            decreases self.participant_data.len() - i,
        {
            proof {
                assert(self@.participant_data.subrange(0, i as int + 1)
                    =~= self@.participant_data.subrange(0, i as int).push(
                    self@.participant_data[i as int],
                ));
                lemma_sums_push(
                    self@.participant_data.subrange(0, i as int),
                    self@.participant_data[i as int],
                );
            }
            match self.participant_data[i].part_sig {
                Some(sig) => {
                    sum = add_signatures(sum, sig);
                },
                None => {},
            }
            i = i + 1;
        }
        proof {
            assert(self@.participant_data.subrange(0, i as int) =~= self@.participant_data);
        }
        sum
    }

    /// How far the signing of the slate has come.
    pub fn stage(&self) -> (stage: SlateStage)
        ensures
            stage == stage_of(self@),
    {
        if self.participant_data.len() < self.num_participants {
            return SlateStage::Created;
        }
        if !self.is_fully_signed() {
            return SlateStage::Round1Done;
        }
        if self.tx.body.kernels.len() != 1 || !self.verify_part_sigs() {
            return SlateStage::Round2Done;
        }
        let final_sig = self.aggregate_signature();
        let final_excess = self.tx.excess(self.fee);
        let features = if self.lock_height == 0 {
            KernelFeatures::Plain
        } else {
            KernelFeatures::HeightLocked
        };
        let kernel = TxKernel {
            features,
            fee: self.fee,
            lock_height: self.lock_height,
            excess: final_excess,
            excess_sig: final_sig,
        };
        if kernel.verify() && self.tx.body.kernels[0] == kernel {
            assert(self@.tx.kernels =~= seq![final_kernel(self@)]);
            SlateStage::Finalized
        } else {
            assert(self@.tx.kernels[0] == self.tx.body.kernels@[0]);
            SlateStage::Round2Done
        }
    }

    /// The messages of the participants, as a log entry keeps them.
    pub fn participant_messages(&self) -> (messages: Vec<ParticipantMessageData>)
        ensures
            messages_view(messages@) == messages_of(self@.participant_data),
    {
        let mut messages: Vec<ParticipantMessageData> = Vec::new();
        let mut i: usize = 0;
        while i < self.participant_data.len()
            invariant
                i <= self.participant_data.len(),
                messages.len() == i,
                forall|j: int|
                    0 <= j < i ==> (#[trigger] messages@[j])@ == message_of(
                        self@.participant_data[j],
                    ),
            decreases self.participant_data.len() - i,
        {
            let p = &self.participant_data[i];
            assert(p@ == self@.participant_data[i as int]);
            messages.push(
                ParticipantMessageData {
                    id: p.id,
                    public_key: p.public_blind_excess,
                    message: match &p.message {
                        Some(text) => Some(text.clone()),
                        None => None,
                    },
                    message_sig: p.message_sig,
                },
            );
            i = i + 1;
        }
        assert(messages_view(messages@) =~= messages_of(self@.participant_data));
        messages
    }

    /// Whether every message in the slate is signed by its participant.
    pub fn verify_messages(&self) -> (r: Result<(), ErrorKind>)
        ensures
            r is Ok <==> messages_ok(self@.participant_data),
            r is Err ==> r == Err::<(), ErrorKind>(ErrorKind::InvalidSignature),
    {
        let mut i: usize = 0;
        while i < self.participant_data.len()
            invariant
                i <= self.participant_data.len(),
                forall|j: int| 0 <= j < i ==> message_ok(#[trigger] self@.participant_data[j]),
            decreases self.participant_data.len() - i,
        {
            let p = &self.participant_data[i];
            assert(p@ == self@.participant_data[i as int]);
            match &p.message {
                Some(text) => {
                    let d = compute_digest(text.as_str().as_bytes());
                    match p.message_sig {
                        Some(sig) => {
                            if !verify_message(sig, p.public_blind_excess, d) {
                                return Err(ErrorKind::InvalidSignature);
                            }
                        },
                        None => {
                            return Err(ErrorKind::InvalidSignature);
                        },
                    }
                },
                None => {},
            }
            i = i + 1;
        }
        Ok(())
    }

    /// The first round of participant `participant_id`: publishes the
    /// public key and nonce, and the message with its signature. The first
    /// participant to come sets the kernel offset and takes it off its
    /// secret key. An entry that the participant published before is
    /// replaced.
    pub fn fill_round_1(
        &mut self,
        sec_key: &mut Scalar,
        sec_nonce: &Scalar,
        participant_id: u64,
        message: Option<String>,
        offset: Scalar,
    ) -> (r: Result<(), ErrorKind>)
        ensures
            r is Ok <==> round_one_admits(old(self)@, participant_id),
            r is Ok ==> final(self)@ == after_round_one(
                old(self)@,
                *old(sec_key),
                *sec_nonce,
                participant_id,
                text_view(message),
                offset,
            ) && *final(sec_key) == round_one_key(old(self)@, *old(sec_key), offset),
            r is Err ==> r == Err::<(), ErrorKind>(
                ErrorKind::ProtocolViolation(Violation::TooManyParticipants),
            ) && final(self)@ == old(self)@ && *final(sec_key) == *old(sec_key),
    {
        let i = self.find_participant(participant_id);
        if i >= self.participant_data.len() && self.participant_data.len()
            >= self.num_participants {
            return Err(ErrorKind::ProtocolViolation(Violation::TooManyParticipants));
        }
        if self.tx.offset.v == 0 {
            self.tx.offset = offset;
            *sec_key = sec_key.minus(offset);
        }
        let message_sig = match &message {
            Some(text) => Some(sign_message(*sec_key, compute_digest(text.as_str().as_bytes()))),
            None => None,
        };
        let entry = ParticipantData {
            id: participant_id,
            public_blind_excess: sec_key.public(),
            public_nonce: sec_nonce.public(),
            part_sig: None,
            message,
            message_sig,
        };
        if i < self.participant_data.len() {
            self.participant_data[i] = entry;
        } else {
            self.participant_data.push(entry);
        }
        proof {
            assert(self@.participant_data =~= with_participant(
                old(self)@.participant_data,
                entry@,
            ));
        }
        Ok(())
    }

    /// The second round of participant `participant_id`: signs under the
    /// challenge that the published keys and nonces give.
    pub fn fill_round_2(
        &mut self,
        sec_key: &Scalar,
        sec_nonce: &Scalar,
        participant_id: u64,
    ) -> (r: Result<(), ErrorKind>)
        ensures
            match round_two_error(old(self)@, participant_id) {
                Some(e) => r == Err::<(), ErrorKind>(e) && final(self)@ == old(self)@,
                None => r is Ok && final(self)@ == after_round_two(
                    old(self)@,
                    *sec_key,
                    *sec_nonce,
                    participant_id,
                ),
            },
    {
        if self.participant_data.len() < self.num_participants {
            return Err(ErrorKind::ProtocolViolation(Violation::MissingRoundOne));
        }
        if !self.verify_part_sigs() {
            return Err(ErrorKind::InvalidSignature);
        }
        let i = self.find_participant(participant_id);
        if i >= self.participant_data.len() {
            return Err(ErrorKind::ProtocolViolation(Violation::UnknownParticipant));
        }
        let e = self.kernel_challenge();
        self.participant_data[i].part_sig = Some(sign(*sec_key, *sec_nonce, e));
        proof {
            assert(self@.participant_data =~= after_round_two(
                old(self)@,
                *sec_key,
                *sec_nonce,
                participant_id,
            ).participant_data);
        }
        Ok(())
    }

    /// Aggregates the partial signatures into the kernel signature and
    /// checks it against the excess of the transaction.
    pub fn finalize(&mut self) -> (r: Result<(), ErrorKind>)
        ensures
            match finalize_error(old(self)@) {
                Some(e) => r == Err::<(), ErrorKind>(e) && final(self)@ == old(self)@,
                None => r is Ok && final(self)@ == finalized(old(self)@),
            },
    {
        if self.participant_data.len() < self.num_participants {
            return Err(ErrorKind::ProtocolViolation(Violation::MissingRoundOne));
        }
        if !self.is_fully_signed() {
            return Err(ErrorKind::ProtocolViolation(Violation::MissingRoundTwo));
        }
        if self.tx.body.kernels.len() != 1 {
            return Err(ErrorKind::ProtocolViolation(Violation::KernelCount));
        }
        if !self.verify_part_sigs() {
            return Err(ErrorKind::InvalidSignature);
        }
        let final_sig = self.aggregate_signature();
        let final_excess = self.tx.excess(self.fee);
        let features = if self.lock_height == 0 {
            KernelFeatures::Plain
        } else {
            KernelFeatures::HeightLocked
        };
        let kernel = TxKernel {
            features,
            fee: self.fee,
            lock_height: self.lock_height,
            excess: final_excess,
            excess_sig: final_sig,
        };
        if !kernel.verify() {
            return Err(ErrorKind::InvalidSignature);
        }
        self.tx.body.kernels[0] = kernel;
        proof {
            assert(self@.tx.kernels =~= seq![final_kernel(old(self)@)]);
        }
        Ok(())
    }
}

} // verus!
