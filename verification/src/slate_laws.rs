//! What holds of the signing rounds, whatever the secrets are.

use vstd::prelude::*;
use crate::aggsig::{
    signature_of, signature_valid, lemma_signature_add_valid, lemma_signature_of_valid,
    lemma_signature_zero_valid,
};
use crate::group::{Scalar, point_of};
use crate::slate::{
    ParticipantDataView, SlateView, after_round_one, after_round_two, all_signed, final_kernel,
    finalize_error, finalized, key_sum, nonce_sum, partial_ok, partials_ok, position,
    round_one_admits, round_one_entry, round_one_key, round_one_offset, sig_sum, slate_challenge,
    lemma_position, lemma_position_found,
};
use crate::builder::{receive_context, slate_with_output};
use crate::error::ErrorKind;
use crate::keychain::Identifier;
use crate::transaction::{excess_of, kernel_valid};
use crate::tx::{payee_outcome, signing_outcome};
use crate::types::{ContextView, Entropy};
use crate::wallet::WalletView;

verus! {

/// Where every participant has signed and every partial signature is valid
/// under `e`, the sum of the partial signatures is valid under `e` for the
/// sum of the keys, and it carries the sum of the nonces.
pub proof fn lemma_partials_sum(ps: Seq<ParticipantDataView>, e: Scalar)
    requires
        all_signed(ps),
        partials_ok(ps, e),
    ensures
        signature_valid(sig_sum(ps), key_sum(ps), e),
        sig_sum(ps).nonce == nonce_sum(ps),
    decreases ps.len(),
{
    if ps.len() == 0 {
        lemma_signature_zero_valid(e);
    } else {
        let front = ps.drop_last();
        let last = ps.last();
        assert forall|i: int| 0 <= i < front.len() implies (#[trigger] front[i]).part_sig
            is Some && partial_ok(front[i], e) by {
            assert(front[i] == ps[i]);
        }
        lemma_partials_sum(front, e);
        assert(partial_ok(ps[ps.len() - 1], e));
        let sig = last.part_sig->Some_0;
        lemma_signature_add_valid(sig_sum(front), key_sum(front), sig, last.public_blind_excess, e);
    }
}

/// Whether the entries of a slate are what the holders of the given secret
/// keys and nonces publish and sign under the slate's challenge.
pub open spec fn honestly_signed(s: SlateView, keys: Seq<Scalar>, nonces: Seq<Scalar>) -> bool {
    &&& keys.len() == s.participant_data.len()
    &&& nonces.len() == s.participant_data.len()
    &&& forall|i: int|
        0 <= i < s.participant_data.len() ==> {
            &&& (#[trigger] s.participant_data[i]).public_blind_excess == point_of(keys[i])
            &&& s.participant_data[i].public_nonce == point_of(nonces[i])
            &&& s.participant_data[i].part_sig == Some(
                signature_of(keys[i], nonces[i], slate_challenge(s)),
            )
        }
}

/// A slate in which every participant has published the public points of
/// its secrets and signed with them, and whose transaction has the sum of
/// the public keys as its excess, can be finalized, and the kernel that
/// results carries a signature that is valid for its excess.
pub proof fn lemma_honest_slate_finalizes(s: SlateView, keys: Seq<Scalar>, nonces: Seq<Scalar>)
    requires
        s.participant_data.len() >= s.num_participants,
        s.tx.kernels.len() == 1,
        honestly_signed(s, keys, nonces),
        excess_of(s.tx, s.fee) == key_sum(s.participant_data),
    ensures
        finalize_error(s) is None,
        kernel_valid(final_kernel(s)),
        finalized(s).tx.kernels[0] == final_kernel(s),
{
    let ps = s.participant_data;
    let e = slate_challenge(s);
    assert forall|i: int| 0 <= i < ps.len() implies (#[trigger] ps[i]).part_sig is Some
        && partial_ok(ps[i], e) by {
        lemma_signature_of_valid(keys[i], nonces[i], e);
    }
    lemma_partials_sum(ps, e);
}

/// A slate in which some participant has not signed cannot be finalized.
pub proof fn lemma_unsigned_slate_fails(s: SlateView, i: int)
    requires
        0 <= i < s.participant_data.len(),
        s.participant_data[i].part_sig is None,
    ensures
        finalize_error(s) is Some,
{
}

/// Whatever slate can be finalized gets a kernel whose signature is valid
/// for its excess, and whose excess is that of the transaction.
pub proof fn lemma_finalized_kernel_verifies(s: SlateView)
    requires
        finalize_error(s) is None,
    ensures
        kernel_valid(finalized(s).tx.kernels[0]),
        finalized(s).tx.kernels[0].excess == excess_of(s.tx, s.fee),
{
}

/// Finalizing a finalized slate succeeds and changes nothing.
pub proof fn lemma_finalize_twice(s: SlateView)
    requires
        finalize_error(s) is None,
    ensures
        finalize_error(finalized(s)) is None,
        finalized(finalized(s)) == finalized(s),
{
    let f = finalized(s);
    assert(f.tx.kernels.len() == 1);
    assert(excess_of(f.tx, f.fee) == excess_of(s.tx, s.fee));
    assert(final_kernel(f) == final_kernel(s));
}

proof fn lemma_sums_update_sig(ps: Seq<ParticipantDataView>, i: int, p: ParticipantDataView)
    requires
        0 <= i < ps.len(),
        p.id == ps[i].id,
        p.public_blind_excess == ps[i].public_blind_excess,
        p.public_nonce == ps[i].public_nonce,
    ensures
        key_sum(ps.update(i, p)) == key_sum(ps),
        nonce_sum(ps.update(i, p)) == nonce_sum(ps),
    decreases ps.len(),
{
    let qs = ps.update(i, p);
    if i == ps.len() - 1 {
        assert(qs.drop_last() =~= ps.drop_last());
    } else {
        assert(qs.drop_last() =~= ps.drop_last().update(i, p));
        lemma_sums_update_sig(ps.drop_last(), i, p);
    }
}

proof fn lemma_position_update_sig(
    ps: Seq<ParticipantDataView>,
    i: int,
    p: ParticipantDataView,
    id: u64,
)
    requires
        0 <= i < ps.len(),
        p.id == ps[i].id,
    ensures
        position(ps.update(i, p), id) == position(ps, id),
{
    let qs = ps.update(i, p);
    lemma_position_found(ps, id);
    let k = position(ps, id);
    assert forall|j: int| 0 <= j < k implies (#[trigger] qs[j]).id != id by {
        assert(ps[j].id != id);
    }
    lemma_position(qs, id, k);
}

/// The second rounds of two participants can come in either order.
pub proof fn lemma_round_two_order(
    s: SlateView,
    key_a: Scalar,
    nonce_a: Scalar,
    a: u64,
    key_b: Scalar,
    nonce_b: Scalar,
    b: u64,
)
    requires
        a != b,
        position(s.participant_data, a) < s.participant_data.len(),
        position(s.participant_data, b) < s.participant_data.len(),
    ensures
        after_round_two(after_round_two(s, key_a, nonce_a, a), key_b, nonce_b, b)
            == after_round_two(after_round_two(s, key_b, nonce_b, b), key_a, nonce_a, a),
{
    let ps = s.participant_data;
    let ia = position(ps, a);
    let ib = position(ps, b);
    lemma_position_found(ps, a);
    lemma_position_found(ps, b);
    let sa = after_round_two(s, key_a, nonce_a, a);
    let sb = after_round_two(s, key_b, nonce_b, b);
    lemma_sums_update_sig(ps, ia, sa.participant_data[ia]);
    lemma_sums_update_sig(ps, ib, sb.participant_data[ib]);
    lemma_position_update_sig(ps, ia, sa.participant_data[ia], b);
    lemma_position_update_sig(ps, ib, sb.participant_data[ib], a);
    assert(slate_challenge(sa) == slate_challenge(s));
    assert(slate_challenge(sb) == slate_challenge(s));
    let sab = after_round_two(sa, key_b, nonce_b, b);
    let sba = after_round_two(sb, key_a, nonce_a, a);
    assert(sab.participant_data =~= sba.participant_data);
}

/// A participant that repeats its first round with the key that the first
/// run left it leaves the slate as the first run did.
pub proof fn lemma_round_one_twice(
    s: SlateView,
    sec_key: Scalar,
    sec_nonce: Scalar,
    id: u64,
    message: Option<Seq<char>>,
    offset: Scalar,
)
    requires
        round_one_admits(s, id),
        round_one_offset(s, offset) != (Scalar { v: 0 }),
    ensures
        ({
            let once = after_round_one(s, sec_key, sec_nonce, id, message, offset);
            let key = round_one_key(s, sec_key, offset);
            &&& round_one_admits(once, id)
            &&& after_round_one(once, key, sec_nonce, id, message, offset) == once
            &&& round_one_key(once, key, offset) == key
        }),
{
    let once = after_round_one(s, sec_key, sec_nonce, id, message, offset);
    let key = round_one_key(s, sec_key, offset);
    let entry = round_one_entry(key, sec_nonce, id, message);
    let ps = s.participant_data;
    lemma_position_found(ps, id);
    let i = position(ps, id);
    let qs = once.participant_data;
    if i < ps.len() {
        assert(qs == ps.update(i, entry));
        assert forall|j: int| 0 <= j < i implies (#[trigger] qs[j]).id != id by {
            assert(qs[j] == ps[j]);
        }
        lemma_position(qs, id, i);
        assert(qs.update(i, entry) =~= qs);
    } else {
        assert(qs == ps.push(entry));
        assert forall|j: int| 0 <= j < i implies (#[trigger] qs[j]).id != id by {
            assert(qs[j] == ps[j]);
        }
        lemma_position(qs, id, i);
        assert(qs.update(i, entry) =~= qs);
    }
}

/// The first round of one participant leaves the entries of all others as
/// they were.
pub proof fn lemma_round_one_keeps_others(
    s: SlateView,
    sec_key: Scalar,
    sec_nonce: Scalar,
    id: u64,
    message: Option<Seq<char>>,
    offset: Scalar,
    j: int,
)
    requires
        0 <= j < s.participant_data.len(),
        s.participant_data[j].id != id,
    ensures
        after_round_one(s, sec_key, sec_nonce, id, message, offset).participant_data[j]
            == s.participant_data[j],
{
    lemma_position_found(s.participant_data, id);
}

/// Whether no two participants have the same id.
pub open spec fn ids_distinct(ps: Seq<ParticipantDataView>) -> bool {
    forall|i: int, j: int| 0 <= i < j < ps.len() ==> (#[trigger] ps[i]).id != (#[trigger] ps[j]).id
}

/// The rounds and the finalization keep the id of a slate, the number of
/// its participants, and what it says of amount, fee and heights.
pub proof fn lemma_rounds_keep_identity(
    s: SlateView,
    sec_key: Scalar,
    sec_nonce: Scalar,
    id: u64,
    message: Option<Seq<char>>,
    offset: Scalar,
)
    ensures
        ({
            let a = after_round_one(s, sec_key, sec_nonce, id, message, offset);
            let b = after_round_two(s, sec_key, sec_nonce, id);
            let c = finalized(s);
            &&& a.id == s.id && b.id == s.id && c.id == s.id
            &&& a.num_participants == s.num_participants && b.num_participants
                == s.num_participants && c.num_participants == s.num_participants
            &&& a.amount == s.amount && b.amount == s.amount && c.amount == s.amount
            &&& a.fee == s.fee && b.fee == s.fee && c.fee == s.fee
            &&& a.height == s.height && b.height == s.height && c.height == s.height
            &&& a.lock_height == s.lock_height && b.lock_height == s.lock_height && c.lock_height
                == s.lock_height
        }),
{
}

/// The first round keeps the participants' ids distinct, and never leaves
/// more participants than the slate was made for.
pub proof fn lemma_round_one_keeps_ids_distinct(
    s: SlateView,
    sec_key: Scalar,
    sec_nonce: Scalar,
    id: u64,
    message: Option<Seq<char>>,
    offset: Scalar,
)
    requires
        ids_distinct(s.participant_data),
        round_one_admits(s, id),
        s.participant_data.len() <= s.num_participants,
    ensures
        ids_distinct(
            after_round_one(s, sec_key, sec_nonce, id, message, offset).participant_data,
        ),
        after_round_one(s, sec_key, sec_nonce, id, message, offset).participant_data.len()
            <= s.num_participants,
{
    let ps = s.participant_data;
    let qs = after_round_one(s, sec_key, sec_nonce, id, message, offset).participant_data;
    let k = position(ps, id);
    lemma_position_found(ps, id);
    assert forall|i: int, j: int| 0 <= i < j < qs.len() implies (#[trigger] qs[i]).id != (
    #[trigger] qs[j]).id by {
        if k < ps.len() {
            // the entry at k is replaced by one of the same id
            assert(qs[i].id == ps[i].id);
            assert(qs[j].id == ps[j].id);
        } else {
            if j < ps.len() {
                assert(qs[i] == ps[i] && qs[j] == ps[j]);
            } else {
                assert(qs[i] == ps[i]);
                assert(qs[j].id == id);
            }
        }
    }
}

/// The second round keeps the participants' ids distinct.
pub proof fn lemma_round_two_keeps_ids_distinct(
    s: SlateView,
    sec_key: Scalar,
    sec_nonce: Scalar,
    id: u64,
)
    requires
        ids_distinct(s.participant_data),
        position(s.participant_data, id) < s.participant_data.len(),
    ensures
        ids_distinct(after_round_two(s, sec_key, sec_nonce, id).participant_data),
{
    let ps = s.participant_data;
    let qs = after_round_two(s, sec_key, sec_nonce, id).participant_data;
    lemma_position_found(ps, id);
    assert(qs.len() == ps.len());
    assert forall|i: int, j: int| 0 <= i < j < qs.len() implies (#[trigger] qs[i]).id != (
    #[trigger] qs[j]).id by {
        assert(qs[i].id == ps[i].id);
        assert(qs[j].id == ps[j].id);
    }
}

/// A party signs under its own id and under no other: after its rounds the
/// slate holds an entry of its id with its message, signed unless the party
/// is the initiator, and the entries that the other participants had are
/// as they were.
pub proof fn lemma_signing_is_under_the_id(
    s: SlateView,
    c: ContextView,
    participant_id: u64,
    message: Option<Seq<char>>,
    is_initiator: bool,
    offset: Scalar,
    signed: SlateView,
    secrets: ContextView,
)
    requires
        signing_outcome(s, c, participant_id, message, is_initiator, offset) == Ok::<
            (SlateView, ContextView),
            ErrorKind,
        >((signed, secrets)),
    ensures
        ({
            let i = position(signed.participant_data, participant_id);
            &&& 0 <= i < signed.participant_data.len()
            &&& i == position(s.participant_data, participant_id)
            &&& signed.participant_data[i].id == participant_id
            &&& signed.participant_data[i].message == message
            &&& signed.participant_data[i].public_blind_excess == point_of(secrets.sec_key)
            &&& signed.participant_data[i].public_nonce == point_of(secrets.sec_nonce)
            &&& signed.participant_data[i].part_sig is Some <==> !is_initiator
        }),
        forall|j: int|
            0 <= j < s.participant_data.len() && (#[trigger] s.participant_data[j]).id
                != participant_id ==> signed.participant_data[j] == s.participant_data[j],
{
    let ps = s.participant_data;
    let i = position(ps, participant_id);
    lemma_position_found(ps, participant_id);
    let once = after_round_one(s, c.sec_key, c.sec_nonce, participant_id, message, offset);
    let qs = once.participant_data;
    assert forall|j: int| 0 <= j < i implies (#[trigger] qs[j]).id != participant_id by {
        assert(qs[j] == ps[j]);
    }
    lemma_position(qs, participant_id, i);
    if !is_initiator {
        let rs = signed.participant_data;
        assert forall|j: int| 0 <= j < i implies (#[trigger] rs[j]).id != participant_id by {
            assert(rs[j] == qs[j]);
        }
        lemma_position(rs, participant_id, i);
    }
}

/// The payee publishes and signs under the id that it was given: the slate
/// that its step leaves holds an entry of that id with its message, and
/// the entries of the other participants as they were.
pub proof fn lemma_payee_signs_under_its_id(
    w: WalletView,
    s: SlateView,
    parent_key_id: Identifier,
    participant_id: u64,
    message: Option<Seq<char>>,
    is_initiator: bool,
    entropy: Entropy,
    now: i64,
)
    requires
        payee_outcome(w, s, parent_key_id, participant_id, message, is_initiator, entropy, now)
            is Ok,
    ensures
        ({
            let after = payee_outcome(
                w,
                s,
                parent_key_id,
                participant_id,
                message,
                is_initiator,
                entropy,
                now,
            )->Ok_0.0;
            let i = position(after.participant_data, participant_id);
            &&& 0 <= i < after.participant_data.len()
            &&& after.participant_data[i].id == participant_id
            &&& after.participant_data[i].message == message
            &&& after.participant_data[i].part_sig is Some <==> !is_initiator
            &&& forall|j: int|
                0 <= j < s.participant_data.len() && (#[trigger] s.participant_data[j]).id
                    != participant_id ==> after.participant_data[j] == s.participant_data[j]
        }),
{
    let s1 = slate_with_output(w, s, parent_key_id);
    let c1 = receive_context(w, s, parent_key_id, entropy.nonce);
    let r = signing_outcome(s1, c1, participant_id, message, is_initiator, entropy.offset);
    assert(r is Ok);
    lemma_signing_is_under_the_id(
        s1,
        c1,
        participant_id,
        message,
        is_initiator,
        entropy.offset,
        r->Ok_0.0,
        r->Ok_0.1,
    );
    assert(s1.participant_data == s.participant_data);
}

} // verus!
