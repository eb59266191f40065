//! Laws of the payment records: a record takes the place of the record of
//! the same commitment and slate, so that a slate that is completed twice
//! is recorded once.

use vstd::prelude::*;
use crate::error::ErrorKind;
use crate::group::Point;
use crate::keychain::Identifier;
use crate::slate::{
    SlateView, after_round_two, finalize_error, finalized, lemma_position, lemma_position_found,
    position, round_two_error,
};
use crate::slate_laws::lemma_finalize_twice;
use crate::tx::{
    completed_slate, lemma_payment_position, lemma_payment_position_first, new_payments,
    payment_position, with_new_payments, with_payment, with_payments,
};
use crate::types::{ContextView, PaymentData};
use crate::wallet::WalletView;

verus! {

/// Whether a record is that of a commitment and a slate.
pub open spec fn is_payment_of(p: PaymentData, commit: Point, slate_id: u128) -> bool {
    p.commit == commit && p.slate_id == slate_id
}

/// Putting a record in leaves every record where it was: the record that
/// is put in is then found under its commitment and slate, and a record of
/// another commitment or slate is found where it was found before.
pub proof fn lemma_with_payment_keeps_places(
    payments: Seq<PaymentData>,
    p: PaymentData,
    commit: Point,
    slate_id: u128,
)
    ensures
        payments.len() <= with_payment(payments, p).len() <= payments.len() + 1,
        ({
            let after = with_payment(payments, p);
            let at = payment_position(payments, commit, slate_id);
            if is_payment_of(p, commit, slate_id) {
                &&& payment_position(after, commit, slate_id) == at
                &&& at < after.len()
                &&& after[at] == p
            } else if at < payments.len() {
                &&& payment_position(after, commit, slate_id) == at
                &&& after[at] == payments[at]
            } else {
                payment_position(after, commit, slate_id) == after.len()
            }
        }),
{
    let after = with_payment(payments, p);
    let at = payment_position(payments, commit, slate_id);
    let i = payment_position(payments, p.commit, p.slate_id);
    lemma_payment_position_first(payments, commit, slate_id);
    lemma_payment_position_first(payments, p.commit, p.slate_id);
    if is_payment_of(p, commit, slate_id) {
        assert forall|j: int| 0 <= j < at implies !is_payment_of(
            #[trigger] after[j],
            commit,
            slate_id,
        ) by {
            assert(after[j] == payments[j]);
        }
        lemma_payment_position(after, commit, slate_id, at);
    } else if at < payments.len() {
        assert forall|j: int| 0 <= j < at implies !is_payment_of(
            #[trigger] after[j],
            commit,
            slate_id,
        ) by {
            if j != i {
                assert(after[j] == payments[j]);
            }
        }
        lemma_payment_position(after, commit, slate_id, at);
    } else {
        assert forall|j: int| 0 <= j < after.len() implies !is_payment_of(
            #[trigger] after[j],
            commit,
            slate_id,
        ) by {
            if j != i {
                assert(after[j] == payments[j]);
            }
        }
        lemma_payment_position(after, commit, slate_id, after.len() as int);
    }
}

/// Whether each of the records `fresh` stands in `payments` where its
/// commitment and slate are looked for.
pub open spec fn holds_payments(payments: Seq<PaymentData>, fresh: Seq<PaymentData>) -> bool {
    forall|j: int|
        0 <= j < fresh.len() ==> {
            let p = #[trigger] fresh[j];
            let at = payment_position(payments, p.commit, p.slate_id);
            at < payments.len() && payments[at] == p
        }
}

/// Whether the records of one commitment and slate among `fresh` are
/// equal.
pub open spec fn agree(fresh: Seq<PaymentData>) -> bool {
    forall|j: int, k: int|
        0 <= j < fresh.len() && 0 <= k < fresh.len() && is_payment_of(
            #[trigger] fresh[j],
            fresh[k].commit,
            fresh[k].slate_id,
        ) ==> fresh[j] == #[trigger] fresh[k]
}

/// Records that the wallet holds already are put in without a change.
pub proof fn lemma_held_payments_change_nothing(
    payments: Seq<PaymentData>,
    fresh: Seq<PaymentData>,
)
    requires
        holds_payments(payments, fresh),
    ensures
        with_payments(payments, fresh) == payments,
    decreases fresh.len(),
{
    if fresh.len() > 0 {
        let front = fresh.drop_last();
        assert forall|j: int| 0 <= j < front.len() implies {
            let p = #[trigger] front[j];
            let at = payment_position(payments, p.commit, p.slate_id);
            at < payments.len() && payments[at] == p
        } by {
            assert(front[j] == fresh[j]);
        }
        lemma_held_payments_change_nothing(payments, front);
        let p = fresh.last();
        assert(p == fresh[fresh.len() - 1]);
        let at = payment_position(payments, p.commit, p.slate_id);
        lemma_payment_position_first(payments, p.commit, p.slate_id);
        assert(payments.update(at, p) =~= payments);
    }
}

/// The wallet holds every record that was put in, provided that the
/// records of one commitment and slate are equal.
pub proof fn lemma_payments_are_held(payments: Seq<PaymentData>, fresh: Seq<PaymentData>)
    requires
        agree(fresh),
    ensures
        holds_payments(with_payments(payments, fresh), fresh),
    decreases fresh.len(),
{
    if fresh.len() > 0 {
        let front = fresh.drop_last();
        let last = fresh.last();
        assert(last == fresh[fresh.len() - 1]);
        assert forall|j: int, k: int|
            0 <= j < front.len() && 0 <= k < front.len() && is_payment_of(
                #[trigger] front[j],
                front[k].commit,
                front[k].slate_id,
            ) implies front[j] == #[trigger] front[k] by {
            assert(front[j] == fresh[j]);
            assert(front[k] == fresh[k]);
        }
        lemma_payments_are_held(payments, front);
        let before = with_payments(payments, front);
        let after = with_payments(payments, fresh);
        assert(after == with_payment(before, last));
        assert forall|j: int| 0 <= j < fresh.len() implies {
            let p = #[trigger] fresh[j];
            let at = payment_position(after, p.commit, p.slate_id);
            at < after.len() && after[at] == p
        } by {
            let p = fresh[j];
            lemma_with_payment_keeps_places(before, last, p.commit, p.slate_id);
            lemma_payment_position_first(before, p.commit, p.slate_id);
            lemma_payment_position_first(after, p.commit, p.slate_id);
            if is_payment_of(last, p.commit, p.slate_id) {
                assert(is_payment_of(fresh[fresh.len() - 1], fresh[j].commit, fresh[j].slate_id));
                assert(last == p);
            } else {
                assert(j < front.len());
                assert(front[j] == p);
            }
        }
    }
}

/// Recording the payments of a slate a second time changes nothing: the
/// wallet holds one record for each commitment that the slate pays to,
/// however often the slate is completed.
pub proof fn lemma_payments_recorded_once(w: WalletView, s: SlateView, parent_key_id: Identifier)
    ensures
        with_new_payments(with_new_payments(w, s, parent_key_id), s, parent_key_id)
            == with_new_payments(w, s, parent_key_id),
{
    let fresh = new_payments(w, s, parent_key_id);
    let once = with_new_payments(w, s, parent_key_id);
    assert(new_payments(once, s, parent_key_id) == fresh);
    assert(agree(fresh));
    lemma_payments_are_held(w.payments, fresh);
    lemma_held_payments_change_nothing(once.payments, fresh);
}

/// Completing a slate that was completed, by the same party, succeeds and
/// leaves the slate and the records as the first completion left them.
pub proof fn lemma_complete_twice(
    w: WalletView,
    s: SlateView,
    c: ContextView,
    participant_id: u64,
    completed: SlateView,
)
    requires
        completed_slate(s, c, participant_id) == Ok::<SlateView, ErrorKind>(completed),
    ensures
        completed_slate(completed, c, participant_id) == Ok::<SlateView, ErrorKind>(completed),
        with_new_payments(
            with_new_payments(w, completed, c.parent_key_id),
            completed,
            c.parent_key_id,
        ) == with_new_payments(w, completed, c.parent_key_id),
{
    lemma_payments_recorded_once(w, completed, c.parent_key_id);
    let i = position(s.participant_data, participant_id);
    lemma_position_found(s.participant_data, participant_id);
    if i < s.participant_data.len() && s.participant_data[i].part_sig is Some {
        lemma_finalize_twice(s);
    } else {
        let signed = after_round_two(s, c.sec_key, c.sec_nonce, participant_id);
        assert(round_two_error(s, participant_id) is None);
        assert(finalize_error(signed) is None);
        assert forall|j: int| 0 <= j < i implies (#[trigger] signed.participant_data[j]).id
            != participant_id by {
            assert(signed.participant_data[j] == s.participant_data[j]);
        }
        lemma_position(signed.participant_data, participant_id, i);
        lemma_finalize_twice(signed);
        assert(completed == finalized(signed));
        assert(completed.participant_data == signed.participant_data);
    }
}

} // verus!
