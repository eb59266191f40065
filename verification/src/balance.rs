//! Why a payment that is built and signed as the library does it can be
//! completed: the commitments of the transaction add up to the sum of the
//! participants' public keys.

use vstd::prelude::*;
use crate::aggsig::{challenge, signature_of, lemma_signature_of_valid};
use crate::builder::{
    attach_error, attached_context, attached_slate, blind_sum, change_amounts, change_ids,
    change_of, input_of, keyed, output_for, receive_context, receive_error, received_id,
    slate_with_output,
};
use crate::error::ErrorKind;
use crate::group::{
    GENERATOR_G, GENERATOR_H, ORDER, Point, Scalar, commitment, point_add, point_of, point_sub,
    residue, scalar_sub, value_point, lemma_residue_add, lemma_residue_bound, lemma_residue_mul,
    lemma_residue_sub,
};
use crate::keychain::{Identifier, Keychain, derived_key};
use crate::ledger::sum_amounts;
use crate::selection::{change_count, total_value};
use crate::slate::{
    ParticipantDataView, SlateView, after_round_one, after_round_two, key_sum, nonce_sum,
    partial_ok, partials_ok, position, round_one_admits, round_one_entry, round_one_key,
    round_two_error, slate_challenge, with_participant, lemma_position,
};
use crate::slate_laws::{honestly_signed, lemma_honest_slate_finalizes};
use crate::transaction::{
    excess_of, input_commits, kernel_valid, output_commits, sum_points, zero_point,
};
use crate::tx::{completed_slate, payee_outcome, payer_outcome, with_commits};
use crate::types::{ContextView, Entropy, KeyedAmount, OutputData};
use crate::wallet::WalletView;

verus! {

/// The sum of the blinding factors of a list of key paths, not reduced.
pub open spec fn raw_blinds(ids: Seq<KeyedAmount>, keychain: Keychain) -> int
    decreases ids.len(),
{
    if ids.len() == 0 {
        0
    } else {
        raw_blinds(ids.drop_last(), keychain) + derived_key(keychain.master, ids.last().key_id).v
    }
}

/// The commitments to the values of a list of key paths.
pub open spec fn commits_of(ids: Seq<KeyedAmount>, keychain: Keychain) -> Seq<Point> {
    ids.map_values(
        |k: KeyedAmount| commitment(k.value, derived_key(keychain.master, k.key_id)),
    )
}

/// The point `a * H + b * G`, for any integers.
pub open spec fn combination(a: int, b: int) -> Point {
    Point { v: residue(a * GENERATOR_H as int + b * GENERATOR_G as int) }
}

/// A commitment is the combination of its value and its blinding factor.
pub proof fn lemma_commitment_is_combination(value: u64, blind: Scalar)
    ensures
        commitment(value, blind) == combination(value as int, blind.v as int),
{
    lemma_residue_add(value as int * GENERATOR_H as int, blind.v as int * GENERATOR_G as int);
}

/// Combinations add up.
pub proof fn lemma_combination_add(a: int, b: int, c: int, d: int)
    ensures
        point_add(combination(a, b), combination(c, d)) == combination(a + c, b + d),
{
    let h = GENERATOR_H as int;
    let g = GENERATOR_G as int;
    lemma_residue_add(a * h + b * g, c * h + d * g);
    assert((a * h + b * g) + (c * h + d * g) == (a + c) * h + (b + d) * g) by (nonlinear_arith);
}

/// Combinations subtract.
pub proof fn lemma_combination_sub(a: int, b: int, c: int, d: int)
    ensures
        point_sub(combination(a, b), combination(c, d)) == combination(a - c, b - d),
{
    let h = GENERATOR_H as int;
    let g = GENERATOR_G as int;
    lemma_residue_sub(a * h + b * g, c * h + d * g);
    assert((a * h + b * g) - (c * h + d * g) == (a - c) * h + (b - d) * g) by (nonlinear_arith);
}

/// A value point and the public point of a scalar are combinations.
pub proof fn lemma_points_are_combinations(value: u64, s: Scalar)
    ensures
        value_point(value) == combination(value as int, 0),
        point_of(s) == combination(0, s.v as int),
        zero_point() == combination(0, 0),
{
    assert(0 * (GENERATOR_G as int) == 0);
    assert(0 * (GENERATOR_H as int) == 0);
    lemma_residue_bound(0);
}

/// The second part of a combination counts modulo the order of the group.
pub proof fn lemma_combination_reduces(a: int, b: int)
    ensures
        combination(a, residue(b) as int) == combination(a, b),
{
    let h = GENERATOR_H as int;
    let g = GENERATOR_G as int;
    lemma_residue_mul(b, g);
    lemma_residue_add(a * h, residue(b) as int * g);
    lemma_residue_add(a * h, b * g);
}

/// The commitments to the values of a list of key paths add up to the
/// combination of the sum of the values and the sum of the blinding
/// factors.
pub proof fn lemma_commits_sum(ids: Seq<KeyedAmount>, keychain: Keychain)
    ensures
        sum_points(commits_of(ids, keychain)) == combination(
            sum_amounts(ids),
            raw_blinds(ids, keychain),
        ),
        blind_sum(ids, keychain).v == residue(raw_blinds(ids, keychain)),
    decreases ids.len(),
{
    if ids.len() == 0 {
        lemma_points_are_combinations(0, Scalar { v: 0 });
        assert(commits_of(ids, keychain) =~= Seq::<Point>::empty());
        lemma_residue_bound(0);
    } else {
        let front = ids.drop_last();
        let last = ids.last();
        let key = derived_key(keychain.master, last.key_id);
        lemma_commits_sum(front, keychain);
        assert(commits_of(ids, keychain).drop_last() =~= commits_of(front, keychain));
        assert(commits_of(ids, keychain).last() == commitment(last.value, key));
        lemma_commitment_is_combination(last.value, key);
        lemma_combination_add(
            sum_amounts(front),
            raw_blinds(front, keychain),
            last.value as int,
            key.v as int,
        );
        lemma_residue_add(raw_blinds(front, keychain), key.v as int);
    }
}

/// The sum of the commitments of two lists is the sum of their sums.
pub proof fn lemma_sum_points_concat(a: Seq<Point>, b: Seq<Point>)
    ensures
        sum_points(a + b) == point_add(sum_points(a), sum_points(b)),
    decreases b.len(),
{
    if b.len() == 0 {
        assert(a + b =~= a);
        lemma_sum_is_reduced(a);
        lemma_residue_bound(sum_points(a).v as int);
        assert((sum_points(a).v as int + 0) % (ORDER as int) == sum_points(a).v) by {
            vstd::arithmetic::div_mod::lemma_small_mod(
                sum_points(a).v as nat,
                ORDER as nat,
            );
        }
    } else {
        assert((a + b).drop_last() =~= a + b.drop_last());
        lemma_sum_points_concat(a, b.drop_last());
        let x = sum_points(a).v as int;
        let y = sum_points(b.drop_last()).v as int;
        let z = b.last().v as int;
        lemma_residue_add(x + y, z);
        lemma_residue_add(x, y + z);
    }
}

/// A sum of points is a reduced value.
pub proof fn lemma_sum_is_reduced(points: Seq<Point>)
    ensures
        sum_points(points).v < ORDER,
    decreases points.len(),
{
    if points.len() > 0 {
        lemma_residue_bound(sum_points(points.drop_last()).v as int + points.last().v as int);
    }
}

/// The excess of a transaction whose inputs and outputs commit to values
/// that balance with the fee is the combination of nothing and the
/// blinding factors: those of the outputs, less those of the inputs, less
/// the offset.
pub proof fn lemma_balanced_excess(
    inputs: Seq<KeyedAmount>,
    keychain: Keychain,
    own_outputs: Seq<KeyedAmount>,
    other_outputs: Seq<KeyedAmount>,
    other_keychain: Keychain,
    offset: Scalar,
    fee: u64,
)
    requires
        sum_amounts(inputs) == sum_amounts(own_outputs) + sum_amounts(other_outputs) + fee,
    ensures
        point_sub(
            point_add(
                point_sub(
                    sum_points(
                        commits_of(own_outputs, keychain) + commits_of(
                            other_outputs,
                            other_keychain,
                        ),
                    ),
                    sum_points(commits_of(inputs, keychain)),
                ),
                value_point(fee),
            ),
            point_of(offset),
        ) == combination(
            0,
            raw_blinds(own_outputs, keychain) + raw_blinds(other_outputs, other_keychain)
                - raw_blinds(inputs, keychain) - offset.v,
        ),
{
    let a_in = sum_amounts(inputs);
    let a_own = sum_amounts(own_outputs);
    let a_other = sum_amounts(other_outputs);
    let b_in = raw_blinds(inputs, keychain);
    let b_own = raw_blinds(own_outputs, keychain);
    let b_other = raw_blinds(other_outputs, other_keychain);
    lemma_commits_sum(inputs, keychain);
    lemma_commits_sum(own_outputs, keychain);
    lemma_commits_sum(other_outputs, other_keychain);
    lemma_sum_points_concat(
        commits_of(own_outputs, keychain),
        commits_of(other_outputs, other_keychain),
    );
    lemma_combination_add(a_own, b_own, a_other, b_other);
    lemma_combination_sub(a_own + a_other, b_own + b_other, a_in, b_in);
    lemma_points_are_combinations(fee, offset);
    lemma_combination_add(a_own + a_other - a_in, b_own + b_other - b_in, fee as int, 0);
    lemma_combination_sub(
        a_own + a_other - a_in + fee,
        b_own + b_other - b_in,
        0,
        offset.v as int,
    );
}

/// The values of the outputs at some positions add up to the values of
/// their key paths.
pub proof fn lemma_total_value_is_sum(outputs: Seq<OutputData>, picks: Seq<int>)
    ensures
        sum_amounts(picks.map_values(|i: int| keyed(outputs[i]))) == total_value(outputs, picks),
    decreases picks.len(),
{
    let ids = picks.map_values(|i: int| keyed(outputs[i]));
    if picks.len() > 0 {
        assert(ids.drop_last() =~= picks.drop_last().map_values(|i: int| keyed(outputs[i])));
        lemma_total_value_is_sum(outputs, picks.drop_last());
    }
}

/// The parts of the first `k` key paths of a split add up to `k` times the
/// quotient, as long as the last part is not among them.
proof fn lemma_change_prefix(
    parent_key_id: Identifier,
    next_child: u32,
    change: u64,
    parts: int,
    k: int,
)
    requires
        change > 0,
        parts >= 1,
        0 <= k < parts,
    ensures
        sum_amounts(
            change_ids(
                parent_key_id,
                next_child,
                change_amounts(change, parts),
            ).subrange(0, k),
        ) == k * (change as int / parts),
    decreases k,
{
    let ids = change_ids(
        parent_key_id,
        next_child,
        change_amounts(change, parts),
    );
    let q = change as int / parts;
    assert(0 <= q <= change as int) by (nonlinear_arith)
        requires
            q == change as int / parts,
            change as int >= 0,
            parts >= 1,
    ;
    if k > 0 {
        lemma_change_prefix(parent_key_id, next_child, change, parts, k - 1);
        assert(ids.subrange(0, k).drop_last() =~= ids.subrange(0, k - 1));
        assert(ids.subrange(0, k).last() == ids[k - 1]);
        assert(change_amounts(change, parts)[k - 1] == q as u64);
        assert(ids[k - 1].value == q);
        assert((k - 1) * q + q == k * q) by (nonlinear_arith);
    } else {
        assert(ids.subrange(0, k) =~= Seq::<KeyedAmount>::empty());
        assert(0 * q == 0);
    }
}

/// The parts of a split add up to what was split.
pub proof fn lemma_change_sum(
    parent_key_id: Identifier,
    next_child: u32,
    change: u64,
    parts: int,
)
    requires
        parts >= 1,
    ensures
        sum_amounts(
            change_ids(
                parent_key_id,
                next_child,
                change_amounts(change, parts),
            ),
        ) == change,
{
    let ids = change_ids(
        parent_key_id,
        next_child,
        change_amounts(change, parts),
    );
    if change > 0 {
        lemma_change_prefix(parent_key_id, next_child, change, parts, parts - 1);
        assert(ids.drop_last() =~= ids.subrange(0, parts - 1));
        let q = change as int / parts;
        assert(q * (parts - 1) <= change as int) by (nonlinear_arith)
            requires
                q == change as int / parts,
                parts >= 1,
                change as int >= 0,
        ;
        assert(0 <= q * (parts - 1)) by (nonlinear_arith)
            requires
                q >= 0,
                parts >= 1,
        ;
        assert(q >= 0) by (nonlinear_arith)
            requires
                q == change as int / parts,
                parts >= 1,
                change as int >= 0,
        ;
        assert((parts - 1) * q == q * (parts - 1)) by (nonlinear_arith);
    }
}

/// Combinations with second parts that agree modulo the order are equal.
pub proof fn lemma_combination_congruent(a: int, x: int, y: int)
    requires
        residue(x) == residue(y),
    ensures
        combination(a, x) == combination(a, y),
{
    lemma_combination_reduces(a, x);
    lemma_combination_reduces(a, y);
}

/// Whether a slate is one that nobody has worked on: a payment between two
/// parties, with one blank kernel.
pub open spec fn fresh(s: SlateView) -> bool {
    &&& s.tx.inputs.len() == 0
    &&& s.tx.outputs.len() == 0
    &&& s.tx.kernels.len() == 1
    &&& s.tx.offset == (Scalar { v: 0 })
    &&& s.participant_data.len() == 0
    &&& s.num_participants == 2
}

/// The key paths of the inputs at the given positions.
pub open spec fn input_ids(w: WalletView, picks: Seq<int>) -> Seq<KeyedAmount> {
    picks.map_values(|i: int| keyed(w.outputs[i]))
}

/// What the payer's step leaves of a fresh slate: the transaction commits
/// to the inputs and the change, the payer is the one participant, and the
/// payer's key is the blinding factors of the change, less those of the
/// inputs, less the offset.
pub proof fn lemma_payer_slate(
    w: WalletView,
    s0: SlateView,
    picks: Seq<int>,
    fee: u64,
    num_change_outputs: usize,
    parent_key_id: Identifier,
    message: Option<Seq<char>>,
    entropy: Entropy,
)
    requires
        fresh(s0),
        payer_outcome(
            w,
            s0,
            picks,
            fee,
            num_change_outputs,
            parent_key_id,
            0,
            message,
            true,
            entropy,
        ) is Ok,
    ensures
        ({
            let (s1, c1, w1) = payer_outcome(
                w,
                s0,
                picks,
                fee,
                num_change_outputs,
                parent_key_id,
                0,
                message,
                true,
                entropy,
            )->Ok_0;
            let ch = change_of(w, s0, picks, fee, num_change_outputs, parent_key_id);
            let key = scalar_sub(
                scalar_sub(blind_sum(ch, w.keychain), blind_sum(input_ids(w, picks), w.keychain)),
                entropy.offset,
            );
            &&& input_commits(s1.tx.inputs) == commits_of(input_ids(w, picks), w.keychain)
            &&& output_commits(s1.tx.outputs) == commits_of(ch, w.keychain)
            &&& s1.tx.offset == entropy.offset
            &&& s1.tx.kernels.len() == 1
            &&& s1.fee == fee
            &&& s1.amount == s0.amount
            &&& s1.num_participants == 2
            &&& s1.participant_data == seq![
                round_one_entry(key, entropy.nonce, 0, message),
            ]
            &&& c1.sec_key == key
            &&& c1.sec_nonce == entropy.nonce
            &&& sum_amounts(input_ids(w, picks)) == sum_amounts(ch) + s0.amount + fee
        }),
{
    let a_s = attached_slate(w, s0, picks, fee, num_change_outputs, parent_key_id);
    let a_c = attached_context(
        w,
        s0,
        picks,
        fee,
        num_change_outputs,
        parent_key_id,
        entropy.nonce,
    );
    let ch = change_of(w, s0, picks, fee, num_change_outputs, parent_key_id);
    assert(attach_error(w, s0, picks, fee, num_change_outputs) is None);
    assert(a_s.tx.inputs =~= picks.map_values(|i: int| input_of(w.outputs[i], w.keychain)));
    assert(a_s.tx.outputs =~= ch.map_values(|k: KeyedAmount| output_for(k, w.keychain)));
    assert(input_commits(a_s.tx.inputs) =~= commits_of(input_ids(w, picks), w.keychain));
    assert(output_commits(a_s.tx.outputs) =~= commits_of(ch, w.keychain));
    let c0 = with_commits(a_c, a_s);
    assert(position(a_s.participant_data, 0) == 0);
    assert(round_one_admits(a_s, 0));
    let key = round_one_key(a_s, c0.sec_key, entropy.offset);
    let entry = round_one_entry(key, entropy.nonce, 0, message);
    assert(with_participant(a_s.participant_data, entry) =~= seq![entry]);
    // the values
    lemma_total_value_is_sum(w.outputs, picks);
    let total = total_value(w.outputs, picks);
    lemma_change_sum(
        parent_key_id,
        w.next_child,
        (total - s0.amount - fee) as u64,
        change_count(num_change_outputs),
    );
}

/// What the payee's step leaves of the slate that the payer's step left:
/// the transaction has the payee's output as well, the payee is the second
/// participant and has signed, and whoever came first to an unset offset has
/// taken it off its key.
pub proof fn lemma_payee_slate(
    s1: SlateView,
    first: ParticipantDataView,
    wr: WalletView,
    parent_key_id: Identifier,
    message: Option<Seq<char>>,
    entropy: Entropy,
    now: i64,
)
    requires
        s1.participant_data == seq![first],
        first.id == 0,
        first.part_sig is None,
        s1.num_participants == 2,
        payee_outcome(wr, s1, parent_key_id, 1, message, false, entropy, now) is Ok,
    ensures
        ({
            let (s2, c2, w2) = payee_outcome(
                wr,
                s1,
                parent_key_id,
                1,
                message,
                false,
                entropy,
                now,
            )->Ok_0;
            let r = received_id(wr, s1, parent_key_id);
            let blind = derived_key(wr.keychain.master, r.key_id);
            let key = if s1.tx.offset == (Scalar { v: 0 }) {
                scalar_sub(blind, entropy.offset)
            } else {
                blind
            };
            let offset = if s1.tx.offset == (Scalar { v: 0 }) {
                entropy.offset
            } else {
                s1.tx.offset
            };
            let published = seq![first, round_one_entry(key, entropy.nonce, 1, message)];
            let e = challenge_of(published, s1.fee, s1.lock_height);
            &&& s2.tx.inputs == s1.tx.inputs
            &&& s2.tx.outputs == s1.tx.outputs.push(output_for(r, wr.keychain))
            &&& s2.tx.kernels == s1.tx.kernels
            &&& s2.tx.offset == offset
            &&& s2.fee == s1.fee
            &&& s2.lock_height == s1.lock_height
            &&& s2.num_participants == 2
            &&& s2.participant_data == seq![
                first,
                ParticipantDataView {
                    part_sig: Some(signature_of(key, entropy.nonce, e)),
                    ..round_one_entry(key, entropy.nonce, 1, message)
                },
            ]
            &&& slate_challenge(s2) == e
        }),
{
    let s = slate_with_output(wr, s1, parent_key_id);
    let c = receive_context(wr, s1, parent_key_id, entropy.nonce);
    assert(receive_error(wr) is None);
    let ps = s.participant_data;
    assert(ps == seq![first]);
    lemma_position(ps, 1, 1);
    assert(round_one_admits(s, 1));
    let key = round_one_key(s, c.sec_key, entropy.offset);
    let entry = round_one_entry(key, entropy.nonce, 1, message);
    let sa = after_round_one(s, c.sec_key, entropy.nonce, 1, message, entropy.offset);
    let published = seq![first, entry];
    assert(sa.participant_data =~= published);
    lemma_position(published, 1, 1);
    assert(partials_ok(published, slate_challenge(sa)));
    assert(round_two_error(sa, 1) is None);
    let sb = after_round_two(sa, key, entropy.nonce, 1);
    let signed = ParticipantDataView {
        part_sig: Some(signature_of(key, entropy.nonce, slate_challenge(sa))),
        ..entry
    };
    assert(sb.participant_data =~= seq![first, signed]);
    lemma_sums_of_two(first, entry);
    lemma_sums_of_two(first, signed);
}

/// The challenge that the participants with the given entries sign under.
pub open spec fn challenge_of(ps: Seq<ParticipantDataView>, fee: u64, lock_height: u64) -> Scalar {
    challenge(nonce_sum(ps), key_sum(ps), fee, lock_height)
}

/// The sums of the keys and nonces of two participants.
pub proof fn lemma_sums_of_two(a: ParticipantDataView, b: ParticipantDataView)
    ensures
        key_sum(seq![a, b]) == point_add(
            point_add(zero_point(), a.public_blind_excess),
            b.public_blind_excess,
        ),
        nonce_sum(seq![a, b]) == point_add(
            point_add(zero_point(), a.public_nonce),
            b.public_nonce,
        ),
{
    let ps = seq![a, b];
    assert(ps.drop_last() =~= seq![a]);
    assert(seq![a].drop_last() =~= Seq::<ParticipantDataView>::empty());
    assert(ps.last() == b);
    assert(seq![a].last() == a);
    reveal_with_fuel(key_sum, 3);
    reveal_with_fuel(nonce_sum, 3);
}

/// The sum of a key that is the difference of two reduced sums less an
/// offset, and of another term, is the sum of the terms modulo the order.
proof fn lemma_key_algebra(b_out: int, b_in: int, o: int, other: int)
    ensures
        residue(residue(residue(residue(b_out) as int - residue(b_in) as int) as int - o) as int
            + other) == residue(b_out - b_in - o + other),
        residue(
            residue(residue(residue(b_out) as int - residue(b_in) as int) as int - o) as int
                + residue(other) as int,
        ) == residue(b_out - b_in - o + other),
{
    let d = residue(residue(b_out) as int - residue(b_in) as int) as int;
    lemma_residue_sub(b_out, b_in);
    assert(d == residue(b_out - b_in));
    lemma_residue_sub(b_out - b_in, o);
    let k = residue(d - o) as int;
    assert(k == residue(b_out - b_in - o));
    lemma_residue_add(b_out - b_in - o, other);
}

/// The first of two participants can make its second round where the
/// second has signed under the slate's challenge; the round leaves both
/// signed under that challenge.
proof fn lemma_first_signs(
    s: SlateView,
    first: ParticipantDataView,
    second: ParticipantDataView,
    key: Scalar,
    nonce: Scalar,
    other_key: Scalar,
    other_nonce: Scalar,
)
    requires
        s.num_participants == 2,
        s.participant_data == seq![first, second],
        first.id == 0,
        second.id == 1,
        first.part_sig is None,
        second.public_blind_excess == point_of(other_key),
        second.public_nonce == point_of(other_nonce),
        second.part_sig == Some(signature_of(other_key, other_nonce, slate_challenge(s))),
    ensures
        round_two_error(s, 0) is None,
        after_round_two(s, key, nonce, 0).participant_data == seq![
            ParticipantDataView {
                part_sig: Some(signature_of(key, nonce, slate_challenge(s))),
                ..first
            },
            second,
        ],
        slate_challenge(after_round_two(s, key, nonce, 0)) == slate_challenge(s),
        position(s.participant_data, 0) == 0,
{
    let e = slate_challenge(s);
    let pd = s.participant_data;
    lemma_position(pd, 0, 0);
    lemma_signature_of_valid(other_key, other_nonce, e);
    assert(partial_ok(pd[0], e));
    assert(partial_ok(pd[1], e));
    assert(partials_ok(pd, e));
    let signed_first = ParticipantDataView {
        part_sig: Some(signature_of(key, nonce, e)),
        ..first
    };
    assert(after_round_two(s, key, nonce, 0).participant_data =~= seq![signed_first, second]);
    lemma_sums_of_two(first, second);
    lemma_sums_of_two(signed_first, second);
}

/// A slate of two participants, the second of whom has signed under the
/// slate's challenge, can be completed by the first, provided that the
/// excess of the transaction is the sum of the two public keys.
pub proof fn lemma_first_completes(
    s: SlateView,
    key: Scalar,
    nonce: Scalar,
    message: Option<Seq<char>>,
    other_key: Scalar,
    other_nonce: Scalar,
    other_message: Option<Seq<char>>,
    c: ContextView,
)
    requires
        s.num_participants == 2,
        s.tx.kernels.len() == 1,
        s.participant_data == seq![
            round_one_entry(key, nonce, 0, message),
            ParticipantDataView {
                part_sig: Some(signature_of(other_key, other_nonce, slate_challenge(s))),
                ..round_one_entry(other_key, other_nonce, 1, other_message)
            },
        ],
        excess_of(s.tx, s.fee) == key_sum(s.participant_data),
        c.sec_key == key,
        c.sec_nonce == nonce,
    ensures
        completed_slate(s, c, 0) is Ok,
        kernel_valid(completed_slate(s, c, 0)->Ok_0.tx.kernels[0]),
        completed_slate(s, c, 0)->Ok_0.tx.kernels[0].excess == excess_of(s.tx, s.fee),
{
    let first = round_one_entry(key, nonce, 0, message);
    let second = s.participant_data[1];
    assert(s.participant_data[0] == first);
    assert(s.participant_data =~= seq![first, second]);
    lemma_first_signs(s, first, second, key, nonce, other_key, other_nonce);
    let s3 = after_round_two(s, key, nonce, 0);
    let keys = seq![key, other_key];
    let nonces = seq![nonce, other_nonce];
    lemma_sums_of_two(first, second);
    lemma_sums_of_two(s3.participant_data[0], s3.participant_data[1]);
    assert(key_sum(s3.participant_data) == key_sum(s.participant_data));
    assert(honestly_signed(s3, keys, nonces));
    lemma_honest_slate_finalizes(s3, keys, nonces);
}

/// The excess of a transaction whose inputs and change are the payer's and
/// whose one other output is the payee's is the sum of the public keys of
/// the two, where the payer's key is the blinding factors of the change
/// less those of the inputs, the payee's is the blinding factor of its
/// output, and one of them has taken the offset off its key.
pub proof fn lemma_payment_excess(
    ins: Seq<KeyedAmount>,
    ch: Seq<KeyedAmount>,
    keychain: Keychain,
    r: KeyedAmount,
    payee_keychain: Keychain,
    payer_offset: Scalar,
    payee_offset: Scalar,
    fee: u64,
)
    requires
        sum_amounts(ins) == sum_amounts(ch) + r.value + fee,
    ensures
        ({
            let kp = scalar_sub(
                scalar_sub(blind_sum(ch, keychain), blind_sum(ins, keychain)),
                payer_offset,
            );
            let br = derived_key(payee_keychain.master, r.key_id);
            let kr = if payer_offset == (Scalar { v: 0 }) {
                scalar_sub(br, payee_offset)
            } else {
                br
            };
            let offset = if payer_offset == (Scalar { v: 0 }) {
                payee_offset
            } else {
                payer_offset
            };
            point_sub(
                point_add(
                    point_sub(
                        sum_points(commits_of(ch, keychain) + commits_of(seq![r], payee_keychain)),
                        sum_points(commits_of(ins, keychain)),
                    ),
                    value_point(fee),
                ),
                point_of(offset),
            ) == point_add(point_add(zero_point(), point_of(kp)), point_of(kr))
        }),
{
    let kp = scalar_sub(
        scalar_sub(blind_sum(ch, keychain), blind_sum(ins, keychain)),
        payer_offset,
    );
    let br = derived_key(payee_keychain.master, r.key_id);
    let kr = if payer_offset == (Scalar { v: 0 }) {
        scalar_sub(br, payee_offset)
    } else {
        br
    };
    let offset = if payer_offset == (Scalar { v: 0 }) {
        payee_offset
    } else {
        payer_offset
    };
    assert(seq![r].drop_last() =~= Seq::<KeyedAmount>::empty());
    assert(sum_amounts(seq![r]) == r.value) by {
        reveal_with_fuel(sum_amounts, 2);
    }
    assert(raw_blinds(seq![r], payee_keychain) == br.v) by {
        reveal_with_fuel(raw_blinds, 2);
    }
    lemma_balanced_excess(ins, keychain, ch, seq![r], payee_keychain, offset, fee);
    let b_ch = raw_blinds(ch, keychain);
    let b_in = raw_blinds(ins, keychain);
    lemma_points_are_combinations(0, kp);
    lemma_points_are_combinations(0, kr);
    lemma_combination_add(0, 0, 0, kp.v as int);
    lemma_combination_add(0, kp.v as int, 0, kr.v as int);
    lemma_commits_sum(ch, keychain);
    lemma_commits_sum(ins, keychain);
    if payer_offset == (Scalar { v: 0 }) {
        lemma_key_algebra(b_ch, b_in, 0, br.v - payee_offset.v);
    } else {
        lemma_key_algebra(b_ch, b_in, payer_offset.v as int, br.v as int);
    }
    lemma_combination_congruent(0, kp.v + kr.v, b_ch + br.v - b_in - offset.v);
}

/// What the two steps leave, put together: the slate after the payee's
/// step can be completed by the payer.
proof fn lemma_steps_complete(
    w: WalletView,
    s0: SlateView,
    picks: Seq<int>,
    fee: u64,
    num_change_outputs: usize,
    parent_key_id: Identifier,
    message: Option<Seq<char>>,
    entropy: Entropy,
    s1: SlateView,
    c1: ContextView,
    wr: WalletView,
    payee_key_id: Identifier,
    payee_message: Option<Seq<char>>,
    payee_entropy: Entropy,
    s2: SlateView,
)
    requires
        ({
            let ch = change_of(w, s0, picks, fee, num_change_outputs, parent_key_id);
            let key = scalar_sub(
                scalar_sub(blind_sum(ch, w.keychain), blind_sum(input_ids(w, picks), w.keychain)),
                entropy.offset,
            );
            &&& input_commits(s1.tx.inputs) == commits_of(input_ids(w, picks), w.keychain)
            &&& output_commits(s1.tx.outputs) == commits_of(ch, w.keychain)
            &&& s1.tx.offset == entropy.offset
            &&& s1.tx.kernels.len() == 1
            &&& s1.fee == fee
            &&& s1.amount == s0.amount
            &&& c1.sec_key == key
            &&& c1.sec_nonce == entropy.nonce
            &&& sum_amounts(input_ids(w, picks)) == sum_amounts(ch) + s0.amount + fee
        }),
        ({
            let first = round_one_entry(c1.sec_key, entropy.nonce, 0, message);
            let r = received_id(wr, s1, payee_key_id);
            let blind = derived_key(wr.keychain.master, r.key_id);
            let key = if s1.tx.offset == (Scalar { v: 0 }) {
                scalar_sub(blind, payee_entropy.offset)
            } else {
                blind
            };
            let offset = if s1.tx.offset == (Scalar { v: 0 }) {
                payee_entropy.offset
            } else {
                s1.tx.offset
            };
            &&& s2.tx.inputs == s1.tx.inputs
            &&& s2.tx.outputs == s1.tx.outputs.push(output_for(r, wr.keychain))
            &&& s2.tx.kernels == s1.tx.kernels
            &&& s2.tx.offset == offset
            &&& s2.fee == s1.fee
            &&& s2.num_participants == 2
            &&& s2.participant_data == seq![
                first,
                ParticipantDataView {
                    part_sig: Some(signature_of(key, payee_entropy.nonce, slate_challenge(s2))),
                    ..round_one_entry(key, payee_entropy.nonce, 1, payee_message)
                },
            ]
        }),
    ensures
        completed_slate(s2, c1, 0) is Ok,
        kernel_valid(completed_slate(s2, c1, 0)->Ok_0.tx.kernels[0]),
        completed_slate(s2, c1, 0)->Ok_0.tx.kernels[0].excess == key_sum(s2.participant_data),
        completed_slate(s2, c1, 0)->Ok_0.tx.kernels[0].excess == excess_of(s2.tx, s2.fee),
{
    let ins = input_ids(w, picks);
    let ch = change_of(w, s0, picks, fee, num_change_outputs, parent_key_id);
    let kp = c1.sec_key;
    let r = received_id(wr, s1, payee_key_id);
    let br = derived_key(wr.keychain.master, r.key_id);
    let kr = if s1.tx.offset == (Scalar { v: 0 }) {
        scalar_sub(br, payee_entropy.offset)
    } else {
        br
    };
    assert(output_commits(s2.tx.outputs) =~= commits_of(ch, w.keychain) + commits_of(
        seq![r],
        wr.keychain,
    ));
    lemma_payment_excess(
        ins,
        ch,
        w.keychain,
        r,
        wr.keychain,
        entropy.offset,
        payee_entropy.offset,
        fee,
    );
    lemma_sums_of_two(s2.participant_data[0], s2.participant_data[1]);
    assert(s2.participant_data =~= seq![s2.participant_data[0], s2.participant_data[1]]);
    assert(excess_of(s2.tx, s2.fee) == key_sum(s2.participant_data));
    lemma_first_completes(
        s2,
        kp,
        entropy.nonce,
        message,
        kr,
        payee_entropy.nonce,
        payee_message,
        c1,
    );
}

/// A payment between two parties that is built and signed as the library
/// does it can be completed: the payer selects inputs and attaches them
/// and the change to a fresh slate and makes its first round, the payee
/// adds its output and makes both its rounds, and the payer completes. The
/// kernel that results has the sum of the two public keys as its excess and
/// carries a valid signature.
pub proof fn lemma_two_party_payment_completes(
    w: WalletView,
    s0: SlateView,
    picks: Seq<int>,
    fee: u64,
    num_change_outputs: usize,
    parent_key_id: Identifier,
    message: Option<Seq<char>>,
    entropy: Entropy,
    s1: SlateView,
    c1: ContextView,
    w1: WalletView,
    wr: WalletView,
    payee_key_id: Identifier,
    payee_message: Option<Seq<char>>,
    payee_entropy: Entropy,
    now: i64,
    s2: SlateView,
    c2: ContextView,
    w2: WalletView,
)
    requires
        fresh(s0),
        payer_outcome(
            w,
            s0,
            picks,
            fee,
            num_change_outputs,
            parent_key_id,
            0,
            message,
            true,
            entropy,
        ) == Ok::<(SlateView, ContextView, WalletView), ErrorKind>((s1, c1, w1)),
        payee_outcome(wr, s1, payee_key_id, 1, payee_message, false, payee_entropy, now) == Ok::<
            (SlateView, ContextView, WalletView),
            ErrorKind,
        >((s2, c2, w2)),
    ensures
        completed_slate(s2, c1, 0) is Ok,
        kernel_valid(completed_slate(s2, c1, 0)->Ok_0.tx.kernels[0]),
        completed_slate(s2, c1, 0)->Ok_0.tx.kernels[0].excess == key_sum(s2.participant_data),
        completed_slate(s2, c1, 0)->Ok_0.tx.kernels[0].excess == excess_of(s2.tx, s2.fee),
{
    lemma_payer_slate(w, s0, picks, fee, num_change_outputs, parent_key_id, message, entropy);
    let first = round_one_entry(c1.sec_key, entropy.nonce, 0, message);
    assert(s1.participant_data[0] == first);
    lemma_payee_slate(s1, first, wr, payee_key_id, payee_message, payee_entropy, now);
    lemma_steps_complete(
        w,
        s0,
        picks,
        fee,
        num_change_outputs,
        parent_key_id,
        message,
        entropy,
        s1,
        c1,
        wr,
        payee_key_id,
        payee_message,
        payee_entropy,
        s2,
    );
}

} // verus!
