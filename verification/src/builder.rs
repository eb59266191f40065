//! Building the parts of a transaction: the payer's inputs and change, and
//! the payee's output.

use vstd::prelude::*;
use crate::error::ErrorKind;
use crate::group::{Point, Scalar, commitment, scalar_add, scalar_sub};
use crate::keychain::{Identifier, Keychain, child_path, derived_key};
use crate::ledger_laws::{consistent, lemma_consistent_depends, lemma_receive_keeps_consistent};
use crate::selection::{
    CoinQuery, CoinSelection, SelectionStrategy, change_count, pick_positions, saturated,
    select_coins_and_fee, selection_result, total_value, lemma_total_value_nonneg,
};
use crate::slate::{Slate, SlateView, messages_of};
use crate::transaction::{Input, Output, OutputFeatures, TransactionView};
use crate::types::{
    Context, ContextView, KeyedAmount, OutputData, OutputStatus, TxLogEntry, TxLogEntryType,
    TxLogEntryView, new_log_entry,
};
use crate::wallet::{NodeClient, Wallet, WalletView};

verus! {

/// The input that spends an output of the wallet.
pub open spec fn input_of(o: OutputData, keychain: Keychain) -> Input {
    Input {
        features: if o.is_coinbase {
            OutputFeatures::Coinbase
        } else {
            OutputFeatures::Plain
        },
        commit: commitment(o.value, derived_key(keychain.master, o.key_id)),
    }
}

/// The key path and the value of an output of the wallet.
pub open spec fn keyed(o: OutputData) -> KeyedAmount {
    KeyedAmount { key_id: o.key_id, value: o.value }
}

/// The plain output that commits to a value under a key path.
pub open spec fn output_for(k: KeyedAmount, keychain: Keychain) -> Output {
    Output {
        features: OutputFeatures::Plain,
        commit: commitment(k.value, derived_key(keychain.master, k.key_id)),
    }
}

/// The sum of the blinding factors of a list of key paths.
pub open spec fn blind_sum(ids: Seq<KeyedAmount>, keychain: Keychain) -> Scalar
    decreases ids.len(),
{
    if ids.len() == 0 {
        Scalar { v: 0 }
    } else {
        scalar_add(
            blind_sum(ids.drop_last(), keychain),
            derived_key(keychain.master, ids.last().key_id),
        )
    }
}

/// How the change is split: every part but the last is the quotient, the
/// last takes the rest. No change gives no parts.
pub open spec fn change_amounts(change: u64, parts: int) -> Seq<u64> {
    if change == 0 || parts <= 0 {
        Seq::empty()
    } else {
        Seq::new(
            parts as nat,
            |x: int|
                if x < parts - 1 {
                    (change as int / parts) as u64
                } else {
                    (change as int - (change as int / parts) * (parts - 1)) as u64
                },
        )
    }
}

/// The key paths of the change outputs: the children of the account from
/// `next_child` on.
pub open spec fn change_ids(parent_key_id: Identifier, next_child: u32, amounts: Seq<u64>) -> Seq<
    KeyedAmount,
> {
    Seq::new(
        amounts.len(),
        |x: int|
            KeyedAmount {
                key_id: child_path(parent_key_id, (next_child + x) as u32),
                value: amounts[x],
            },
    )
}

/// Whether every position is one of a list of the given length.
pub open spec fn positions_in_range(picks: Seq<int>, len: int) -> bool {
    forall|k: int| 0 <= k < picks.len() ==> 0 <= (#[trigger] picks[k]) < len
}

/// Why the chosen inputs cannot be attached to the slate, if they cannot.
pub open spec fn attach_error(
    w: WalletView,
    s: SlateView,
    picks: Seq<int>,
    fee: u64,
    num_change_outputs: usize,
) -> Option<ErrorKind> {
    let total = total_value(w.outputs, picks);
    if !positions_in_range(picks, w.outputs.len() as int) {
        Some(ErrorKind::InputUnavailable)
    } else if total > u64::MAX {
        Some(ErrorKind::AmountOverflow)
    } else if total < s.amount + fee {
        Some(
            ErrorKind::NotEnoughFunds {
                available: total as u64,
                needed: saturated(s.amount + fee),
            },
        )
    } else if w.next_child + change_amounts(
        (total - s.amount - fee) as u64,
        change_count(num_change_outputs),
    ).len() > u32::MAX {
        Some(ErrorKind::IndexExhausted)
    } else {
        None
    }
}

/// The key paths and values of the change of a payment.
pub open spec fn change_of(
    w: WalletView,
    s: SlateView,
    picks: Seq<int>,
    fee: u64,
    num_change_outputs: usize,
    parent_key_id: Identifier,
) -> Seq<KeyedAmount> {
    change_ids(
        parent_key_id,
        w.next_child,
        change_amounts(
            (total_value(w.outputs, picks) - s.amount - fee) as u64,
            change_count(num_change_outputs),
        ),
    )
}

/// The slate after the payer has attached its inputs and its change.
pub open spec fn attached_slate(
    w: WalletView,
    s: SlateView,
    picks: Seq<int>,
    fee: u64,
    num_change_outputs: usize,
    parent_key_id: Identifier,
) -> SlateView {
    SlateView {
        fee,
        tx: TransactionView {
            inputs: s.tx.inputs + picks.map_values(|i: int| input_of(w.outputs[i], w.keychain)),
            outputs: s.tx.outputs + change_of(
                w,
                s,
                picks,
                fee,
                num_change_outputs,
                parent_key_id,
            ).map_values(|k: KeyedAmount| output_for(k, w.keychain)),
            ..s.tx
        },
        ..s
    }
}

/// The payer's secrets and choices after it has attached its inputs and
/// its change.
pub open spec fn attached_context(
    w: WalletView,
    s: SlateView,
    picks: Seq<int>,
    fee: u64,
    num_change_outputs: usize,
    parent_key_id: Identifier,
    nonce: Scalar,
) -> ContextView {
    let input_ids = picks.map_values(|i: int| keyed(w.outputs[i]));
    let output_ids = change_of(w, s, picks, fee, num_change_outputs, parent_key_id);
    ContextView {
        parent_key_id,
        sec_key: scalar_sub(blind_sum(output_ids, w.keychain), blind_sum(input_ids, w.keychain)),
        sec_nonce: nonce,
        input_ids,
        output_ids,
        fee,
        input_commits: Seq::empty(),
        output_commits: Seq::empty(),
    }
}

/// The records after the payer has attached its inputs and its change: the
/// key paths of the change are used up.
pub open spec fn attached_wallet(
    w: WalletView,
    s: SlateView,
    picks: Seq<int>,
    fee: u64,
    num_change_outputs: usize,
    parent_key_id: Identifier,
) -> WalletView {
    WalletView {
        next_child: (w.next_child + change_of(
            w,
            s,
            picks,
            fee,
            num_change_outputs,
            parent_key_id,
        ).len()) as u32,
        ..w
    }
}

/// Why the payee cannot add its output, if it cannot.
pub open spec fn receive_error(w: WalletView) -> Option<ErrorKind> {
    if w.next_child == u32::MAX || w.next_tx_log_id == u32::MAX {
        Some(ErrorKind::IndexExhausted)
    } else {
        None
    }
}

/// The key path and the value of the payee's output.
pub open spec fn received_id(
    w: WalletView,
    s: SlateView,
    parent_key_id: Identifier,
) -> KeyedAmount {
    KeyedAmount { key_id: child_path(parent_key_id, w.next_child), value: s.amount }
}

/// The slate after the payee has added its output.
pub open spec fn slate_with_output(
    w: WalletView,
    s: SlateView,
    parent_key_id: Identifier,
) -> SlateView {
    SlateView {
        tx: TransactionView {
            outputs: s.tx.outputs.push(output_for(received_id(w, s, parent_key_id), w.keychain)),
            ..s.tx
        },
        ..s
    }
}

/// The payee's secrets after it has added its output.
pub open spec fn receive_context(
    w: WalletView,
    s: SlateView,
    parent_key_id: Identifier,
    nonce: Scalar,
) -> ContextView {
    ContextView {
        parent_key_id,
        sec_key: derived_key(w.keychain.master, received_id(w, s, parent_key_id).key_id),
        sec_nonce: nonce,
        input_ids: Seq::empty(),
        output_ids: seq![received_id(w, s, parent_key_id)],
        fee: 0,
        input_commits: Seq::empty(),
        output_commits: Seq::empty(),
    }
}

/// The records after the payee has added its output: the output, not
/// confirmed yet, and the log entry of the transaction.
pub open spec fn wallet_with_output(
    w: WalletView,
    s: SlateView,
    parent_key_id: Identifier,
    now: i64,
) -> WalletView {
    let k = received_id(w, s, parent_key_id);
    WalletView {
        outputs: w.outputs.push(
            OutputData {
                root_key_id: parent_key_id,
                key_id: k.key_id,
                commit: commitment(k.value, derived_key(w.keychain.master, k.key_id)),
                value: k.value,
                status: OutputStatus::Unconfirmed,
                height: s.height,
                lock_height: 0,
                is_coinbase: false,
                tx_log_entry: Some(w.next_tx_log_id),
                slate_id: Some(s.id),
            },
        ),
        tx_log: w.tx_log.push(
            TxLogEntryView {
                tx_slate_id: Some(s.id),
                amount_credited: s.amount,
                num_outputs: 1,
                messages: Some(messages_of(s.participant_data)),
                ..new_log_entry(parent_key_id, TxLogEntryType::TxReceived, w.next_tx_log_id, now)
            },
        ),
        next_child: (w.next_child + 1) as u32,
        next_tx_log_id: (w.next_tx_log_id + 1) as u32,
        ..w
    }
}

/// The input that spends the plain output of `value` under a key path.
pub fn input(keychain: &Keychain, value: u64, key_id: &Identifier) -> (i: Input)
    ensures
        i == (Input {
            features: OutputFeatures::Plain,
            commit: commitment(value, derived_key(keychain.master, *key_id)),
        }),
{
    Input { features: OutputFeatures::Plain, commit: keychain.commit(value, key_id) }
}

/// The input that spends the coinbase output of `value` under a key path.
pub fn coinbase_input(keychain: &Keychain, value: u64, key_id: &Identifier) -> (i: Input)
    ensures
        i == (Input {
            features: OutputFeatures::Coinbase,
            commit: commitment(value, derived_key(keychain.master, *key_id)),
        }),
{
    Input { features: OutputFeatures::Coinbase, commit: keychain.commit(value, key_id) }
}

/// The plain output of `value` under a key path.
pub fn output(keychain: &Keychain, value: u64, key_id: &Identifier) -> (o: Output)
    ensures
        o == output_for(KeyedAmount { key_id: *key_id, value }, *keychain),
{
    Output { features: OutputFeatures::Plain, commit: keychain.commit(value, key_id) }
}

proof fn lemma_blind_sum_push(ids: Seq<KeyedAmount>, k: KeyedAmount, keychain: Keychain)
    ensures
        blind_sum(ids.push(k), keychain) == scalar_add(
            blind_sum(ids, keychain),
            derived_key(keychain.master, k.key_id),
        ),
{
    assert(ids.push(k).drop_last() =~= ids);
}

proof fn lemma_total_value_prefix(outputs: Seq<OutputData>, picks: Seq<int>, k: int)
    requires
        0 <= k < picks.len(),
    ensures
        total_value(outputs, picks.subrange(0, k + 1)) == total_value(
            outputs,
            picks.subrange(0, k),
        ) + outputs[picks[k]].value,
{
    assert(picks.subrange(0, k + 1).drop_last() =~= picks.subrange(0, k));
}

/// The sum of the values of the outputs at the first `k` positions grows
/// with `k`.
pub(crate) proof fn lemma_total_value_monotone(outputs: Seq<OutputData>, picks: Seq<int>, k: int)
    requires
        0 <= k <= picks.len(),
    ensures
        0 <= total_value(outputs, picks.subrange(0, k)) <= total_value(outputs, picks),
    decreases picks.len() - k,
{
    if k == picks.len() {
        assert(picks.subrange(0, k) =~= picks);
        lemma_total_value_nonneg(outputs, picks);
    } else {
        lemma_total_value_prefix(outputs, picks, k);
        lemma_total_value_monotone(outputs, picks, k + 1);
        lemma_total_value_nonneg(outputs, picks.subrange(0, k));
    }
}

/// The sum of the values at the given positions, as far as it fits in 64
/// bits, and whether all positions are positions of the wallet.
fn checked_total(outputs: &Vec<OutputData>, positions: &Vec<usize>) -> (r: Result<
    u64,
    ErrorKind,
>)
    ensures
        ({
            let picks = pick_positions(positions@);
            let total = total_value(outputs@, picks);
            if !positions_in_range(picks, outputs@.len() as int) {
                r == Err::<u64, ErrorKind>(ErrorKind::InputUnavailable)
            } else if total > u64::MAX {
                r == Err::<u64, ErrorKind>(ErrorKind::AmountOverflow)
            } else {
                r == Ok::<u64, ErrorKind>(total as u64)
            }
        }),
{
    let ghost picks = pick_positions(positions@);
    let mut k: usize = 0;
    while k < positions.len()
        invariant
            k <= positions.len(),
            picks == pick_positions(positions@),
            forall|j: int| 0 <= j < k ==> 0 <= (#[trigger] picks[j]) < outputs@.len(),
        decreases positions.len() - k,
    {
        if positions[k] >= outputs.len() {
            assert(!(0 <= picks[k as int] < outputs@.len()));
            return Err(ErrorKind::InputUnavailable);
        }
        k = k + 1;
    }
    let mut total: u64 = 0;
    let mut i: usize = 0;
    assert(picks.subrange(0, 0) =~= Seq::<int>::empty());
    while i < positions.len()
        invariant
            i <= positions.len(),
            picks == pick_positions(positions@),
            forall|j: int| 0 <= j < picks.len() ==> 0 <= (#[trigger] picks[j]) < outputs@.len(),
            total == total_value(outputs@, picks.subrange(0, i as int)),
        decreases positions.len() - i,
    {
        proof {
            lemma_total_value_prefix(outputs@, picks, i as int);
            lemma_total_value_monotone(outputs@, picks, i as int + 1);
            assert(picks[i as int] == positions@[i as int] as int);
        }
        let value = outputs[positions[i]].value;
        if value > u64::MAX - total {
            return Err(ErrorKind::AmountOverflow);
        }
        total = total + value;
        i = i + 1;
    }
    proof {
        assert(picks.subrange(0, i as int) =~= picks);
    }
    Ok(total)
}

fn saturate_sum(a: u64, b: u64) -> (r: u64)
    ensures
        r == saturated(a + b),
{
    if a > u64::MAX - b {
        u64::MAX
    } else {
        a + b
    }
}

/// Adds the outputs at the given positions to the slate as inputs, and
/// their key paths to the context. Gives the sum of their blinding factors.
fn push_inputs(
    slate: &mut Slate,
    context: &mut Context,
    outputs: &Vec<OutputData>,
    positions: &Vec<usize>,
    keychain: &Keychain,
) -> (blind: Scalar)
    requires
        forall|k: int| 0 <= k < positions@.len() ==> (#[trigger] positions@[k]) < outputs.len(),
    ensures
        final(slate)@ == (SlateView {
            tx: TransactionView {
                inputs: old(slate)@.tx.inputs + pick_positions(positions@).map_values(
                    |p: int| input_of(outputs@[p], *keychain),
                ),
                ..old(slate)@.tx
            },
            ..old(slate)@
        }),
        final(context)@ == (ContextView {
            input_ids: old(context)@.input_ids + pick_positions(positions@).map_values(
                |p: int| keyed(outputs@[p]),
            ),
            ..old(context)@
        }),
        blind == blind_sum(
            pick_positions(positions@).map_values(|p: int| keyed(outputs@[p])),
            *keychain,
        ),
{
    let ghost picks = pick_positions(positions@);
    let ghost s0 = slate@;
    let ghost c0 = context@;
    let ghost all_ids = picks.map_values(|p: int| keyed(outputs@[p]));
    let ghost all_inputs = picks.map_values(|p: int| input_of(outputs@[p], *keychain));
    let mut blind = Scalar { v: 0 };
    let mut i: usize = 0;
    assert(slate@.tx.inputs =~= s0.tx.inputs + all_inputs.subrange(0, 0));
    assert(context@.input_ids =~= c0.input_ids + all_ids.subrange(0, 0));
    while i < positions.len()
        invariant
            i <= positions.len(),
            picks == pick_positions(positions@),
            all_ids == picks.map_values(|p: int| keyed(outputs@[p])),
            all_inputs == picks.map_values(|p: int| input_of(outputs@[p], *keychain)),
            forall|k: int| 0 <= k < positions@.len() ==> (#[trigger] positions@[k]) < outputs.len(),
            slate@.tx.inputs == s0.tx.inputs + all_inputs.subrange(0, i as int),
            slate@ == (SlateView {
                tx: TransactionView { inputs: slate@.tx.inputs, ..s0.tx },
                ..s0
            }),
            context@.input_ids == c0.input_ids + all_ids.subrange(0, i as int),
            context@ == (ContextView { input_ids: context@.input_ids, ..c0 }),
            blind == blind_sum(all_ids.subrange(0, i as int), *keychain),
        decreases positions.len() - i,
    {
        assert(picks[i as int] == positions@[i as int] as int);
        let o = outputs[positions[i]];
        let key = keychain.derive_key(&o.key_id);
        slate.tx.body.inputs.push(
            if o.is_coinbase {
                coinbase_input(keychain, o.value, &o.key_id)
            } else {
                input(keychain, o.value, &o.key_id)
            },
        );
        context.input_ids.push(KeyedAmount { key_id: o.key_id, value: o.value });
        blind = blind.plus(key);
        proof {
            assert(all_ids.subrange(0, i as int + 1) =~= all_ids.subrange(0, i as int).push(
                keyed(o),
            ));
            lemma_blind_sum_push(all_ids.subrange(0, i as int), keyed(o), *keychain);
            assert(context@.input_ids =~= c0.input_ids + all_ids.subrange(0, i as int + 1));
            assert(slate@.tx.inputs =~= s0.tx.inputs + all_inputs.subrange(0, i as int + 1));
        }
        i = i + 1;
    }
    assert(all_ids.subrange(0, i as int) =~= all_ids);
    assert(all_inputs.subrange(0, i as int) =~= all_inputs);
    blind
}

/// Adds the change to the slate as outputs under the children of the
/// account from `next_child` on, and their key paths to the context. Gives
/// the sum of their blinding factors.
fn push_change(
    slate: &mut Slate,
    context: &mut Context,
    change: u64,
    parts: usize,
    parent_key_id: &Identifier,
    next_child: u32,
    keychain: &Keychain,
) -> (blind: Scalar)
    requires
        parts >= 1,
        change_amounts(change, parts as int).len() + next_child <= u32::MAX,
    ensures
        final(slate)@ == (SlateView {
            tx: TransactionView {
                outputs: old(slate)@.tx.outputs + change_ids(
                    *parent_key_id,
                    next_child,
                    change_amounts(change, parts as int),
                ).map_values(|k: KeyedAmount| output_for(k, *keychain)),
                ..old(slate)@.tx
            },
            ..old(slate)@
        }),
        final(context)@ == (ContextView {
            output_ids: old(context)@.output_ids + change_ids(
                *parent_key_id,
                next_child,
                change_amounts(change, parts as int),
            ),
            ..old(context)@
        }),
        blind == blind_sum(
            change_ids(*parent_key_id, next_child, change_amounts(change, parts as int)),
            *keychain,
        ),
{
    let ghost s0 = slate@;
    let ghost c0 = context@;
    let ghost amounts = change_amounts(change, parts as int);
    let ghost ids = change_ids(*parent_key_id, next_child, amounts);
    let ghost outs = ids.map_values(|k: KeyedAmount| output_for(k, *keychain));
    let count: usize = if change == 0 {
        0
    } else {
        parts
    };
    let part: u64 = change / (parts as u64);
    let mut blind = Scalar { v: 0 };
    let mut x: usize = 0;
    assert(slate@.tx.outputs =~= s0.tx.outputs + outs.subrange(0, 0));
    assert(context@.output_ids =~= c0.output_ids + ids.subrange(0, 0));
    while x < count
        invariant
            x <= count,
            count == amounts.len(),
            count > 0 ==> count == parts && change > 0,
            parts >= 1,
            part == change as int / parts as int,
            amounts == change_amounts(change, parts as int),
            ids == change_ids(*parent_key_id, next_child, amounts),
            outs == ids.map_values(|k: KeyedAmount| output_for(k, *keychain)),
            count + next_child <= u32::MAX,
            slate@.tx.outputs == s0.tx.outputs + outs.subrange(0, x as int),
            slate@ == (SlateView {
                tx: TransactionView { outputs: slate@.tx.outputs, ..s0.tx },
                ..s0
            }),
            context@.output_ids == c0.output_ids + ids.subrange(0, x as int),
            context@ == (ContextView { output_ids: context@.output_ids, ..c0 }),
            blind == blind_sum(ids.subrange(0, x as int), *keychain),
        decreases count - x,
    {
        proof {
            assert(part as int * (parts as int - 1) <= change as int) by (nonlinear_arith)
                requires
                    part as int == change as int / parts as int,
                    parts as int >= 1,
                    change as int >= 0,
            ;
            assert(0 <= part as int * (parts as int - 1)) by (nonlinear_arith)
                requires
                    part as int >= 0,
                    parts as int >= 1,
            ;
        }
        let value: u64 = if x < parts - 1 {
            part
        } else {
            change - part * ((parts - 1) as u64)
        };
        assert(value == amounts[x as int]);
        let key_id = parent_key_id.extend(next_child + x as u32);
        let key = keychain.derive_key(&key_id);
        let k = KeyedAmount { key_id, value };
        assert(k == ids[x as int]);
        slate.tx.body.outputs.push(output(keychain, value, &key_id));
        context.output_ids.push(k);
        blind = blind.plus(key);
        proof {
            assert(ids.subrange(0, x as int + 1) =~= ids.subrange(0, x as int).push(k));
            lemma_blind_sum_push(ids.subrange(0, x as int), k, *keychain);
            assert(context@.output_ids =~= c0.output_ids + ids.subrange(0, x as int + 1));
            assert(slate@.tx.outputs =~= s0.tx.outputs + outs.subrange(0, x as int + 1));
        }
        x = x + 1;
    }
    assert(ids.subrange(0, x as int) =~= ids);
    assert(outs.subrange(0, x as int) =~= outs);
    blind
}

/// Attaches the chosen outputs of the wallet to the slate as inputs, and
/// the change as new outputs under fresh key paths. Sets the fee of the
/// slate. The secret key of the context that results is the sum of the
/// blinding factors of the change less that of the inputs.
pub fn attach_inputs<C: NodeClient>(
    wallet: &mut Wallet<C>,
    slate: &mut Slate,
    positions: &Vec<usize>,
    fee: u64,
    num_change_outputs: usize,
    parent_key_id: &Identifier,
    nonce: Scalar,
) -> (r: Result<Context, ErrorKind>)
    ensures
        final(wallet).client == old(wallet).client,
        match attach_error(
            old(wallet)@,
            old(slate)@,
            pick_positions(positions@),
            fee,
            num_change_outputs,
        ) {
            Some(e) => r == Err::<Context, ErrorKind>(e) && final(wallet)@ == old(wallet)@
                && final(slate)@ == old(slate)@,
            None => {
                &&& r is Ok
                &&& r->Ok_0@ == attached_context(
                    old(wallet)@,
                    old(slate)@,
                    pick_positions(positions@),
                    fee,
                    num_change_outputs,
                    *parent_key_id,
                    nonce,
                )
                &&& final(slate)@ == attached_slate(
                    old(wallet)@,
                    old(slate)@,
                    pick_positions(positions@),
                    fee,
                    num_change_outputs,
                    *parent_key_id,
                )
                &&& final(wallet)@ == attached_wallet(
                    old(wallet)@,
                    old(slate)@,
                    pick_positions(positions@),
                    fee,
                    num_change_outputs,
                    *parent_key_id,
                )
            },
        },
        consistent(old(wallet)@) ==> consistent(final(wallet)@),
{
    proof {
        lemma_consistent_depends(
            old(wallet)@,
            attached_wallet(
                old(wallet)@,
                old(slate)@,
                pick_positions(positions@),
                fee,
                num_change_outputs,
                *parent_key_id,
            ),
        );
    }
    let ghost picks = pick_positions(positions@);
    let ghost w0 = wallet@;
    let ghost s0 = slate@;
    let total = match checked_total(&wallet.outputs, positions) {
        Ok(t) => t,
        Err(e) => {
            return Err(e);
        },
    };
    proof {
        lemma_total_value_nonneg(w0.outputs, picks);
    }
    assert(positions_in_range(picks, w0.outputs.len() as int));
    assert(total == total_value(w0.outputs, picks));
    assert forall|k: int| 0 <= k < positions@.len() implies (#[trigger] positions@[k])
        < wallet.outputs.len() by {
        assert(0 <= picks[k] < wallet.outputs@.len());
    }
    if slate.amount > u64::MAX - fee || total < slate.amount + fee {
        return Err(
            ErrorKind::NotEnoughFunds {
                available: total,
                needed: saturate_sum(slate.amount, fee),
            },
        );
    }
    let change: u64 = total - slate.amount - fee;
    let parts: usize = if num_change_outputs == 0 {
        1
    } else {
        num_change_outputs
    };
    assert(parts as int == change_count(num_change_outputs));
    let count: usize = if change == 0 {
        0
    } else {
        parts
    };
    assert(change_amounts(change, parts as int).len() == count);
    assert(change == (total_value(w0.outputs, picks) - s0.amount - fee) as u64);
    if count > (u32::MAX - wallet.next_child) as usize {
        assert(attach_error(w0, s0, picks, fee, num_change_outputs) == Some(
            ErrorKind::IndexExhausted,
        ));
        return Err(ErrorKind::IndexExhausted);
    }
    assert(attach_error(w0, s0, picks, fee, num_change_outputs) is None);
    let keychain = wallet.keychain;
    let mut context = Context::new(Scalar { v: 0 }, nonce, *parent_key_id);
    let blind_in = push_inputs(slate, &mut context, &wallet.outputs, positions, &keychain);
    let blind_out = push_change(
        slate,
        &mut context,
        change,
        parts,
        parent_key_id,
        wallet.next_child,
        &keychain,
    );
    slate.fee = fee;
    context.fee = fee;
    context.sec_key = blind_out.minus(blind_in);
    wallet.next_child = wallet.next_child + count as u32;
    proof {
        let ids = change_of(w0, s0, picks, fee, num_change_outputs, *parent_key_id);
        assert(context@.input_ids =~= picks.map_values(|i: int| keyed(w0.outputs[i])));
        assert(context@.output_ids =~= ids);
        assert(slate@.tx.inputs =~= s0.tx.inputs + picks.map_values(
            |i: int| input_of(w0.outputs[i], w0.keychain),
        ));
        assert(slate@.tx.outputs =~= s0.tx.outputs + ids.map_values(
            |k: KeyedAmount| output_for(k, w0.keychain),
        ));
    }
    Ok(context)
}

/// Selects the payer's inputs for the amount of the slate, and attaches
/// them and the change to the slate.
pub fn build_send_tx<C: NodeClient>(
    wallet: &mut Wallet<C>,
    slate: &mut Slate,
    minimum_confirmations: u64,
    max_outputs: usize,
    num_change_outputs: usize,
    strategy: SelectionStrategy,
    parent_key_id: &Identifier,
    nonce: Scalar,
) -> (r: Result<Context, ErrorKind>)
    ensures
        final(wallet).client == old(wallet).client,
        exists|sel: Result<CoinSelection, ErrorKind>|
            {
                &&& #[trigger] selection_result(
                    old(wallet)@.outputs,
                    old(wallet)@.fee_schedule,
                    old(slate)@.amount,
                    CoinQuery {
                        parent_key_id: *parent_key_id,
                        current_height: old(slate)@.height,
                        minimum_confirmations,
                    },
                    max_outputs,
                    num_change_outputs,
                    strategy,
                    sel,
                )
                &&& match sel {
                    Err(e) => r == Err::<Context, ErrorKind>(e) && final(wallet)@ == old(wallet)@
                        && final(slate)@ == old(slate)@,
                    Ok(chosen) => match attach_error(
                        old(wallet)@,
                        old(slate)@,
                        pick_positions(chosen.positions@),
                        chosen.fee,
                        num_change_outputs,
                    ) {
                        Some(e) => r == Err::<Context, ErrorKind>(e) && final(wallet)@ == old(
                            wallet,
                        )@ && final(slate)@ == old(slate)@,
                        None => {
                            &&& r is Ok
                            &&& r->Ok_0@ == attached_context(
                                old(wallet)@,
                                old(slate)@,
                                pick_positions(chosen.positions@),
                                chosen.fee,
                                num_change_outputs,
                                *parent_key_id,
                                nonce,
                            )
                            &&& final(slate)@ == attached_slate(
                                old(wallet)@,
                                old(slate)@,
                                pick_positions(chosen.positions@),
                                chosen.fee,
                                num_change_outputs,
                                *parent_key_id,
                            )
                            &&& final(wallet)@ == attached_wallet(
                                old(wallet)@,
                                old(slate)@,
                                pick_positions(chosen.positions@),
                                chosen.fee,
                                num_change_outputs,
                                *parent_key_id,
                            )
                        },
                    },
                }
            },
        consistent(old(wallet)@) ==> consistent(final(wallet)@),
{
    let sel = select_coins_and_fee(
        &wallet.outputs,
        wallet.fee_schedule,
        slate.amount,
        slate.height,
        minimum_confirmations,
        max_outputs,
        num_change_outputs,
        strategy,
        parent_key_id,
    );
    match sel {
        Ok(chosen) => {
            let r = attach_inputs(
                wallet,
                slate,
                &chosen.positions,
                chosen.fee,
                num_change_outputs,
                parent_key_id,
                nonce,
            );
            assert(selection_result(
                old(wallet)@.outputs,
                old(wallet)@.fee_schedule,
                old(slate)@.amount,
                CoinQuery {
                    parent_key_id: *parent_key_id,
                    current_height: old(slate)@.height,
                    minimum_confirmations,
                },
                max_outputs,
                num_change_outputs,
                strategy,
                Ok(chosen),
            ));
            r
        },
        Err(e) => {
            assert(selection_result(
                old(wallet)@.outputs,
                old(wallet)@.fee_schedule,
                old(slate)@.amount,
                CoinQuery {
                    parent_key_id: *parent_key_id,
                    current_height: old(slate)@.height,
                    minimum_confirmations,
                },
                max_outputs,
                num_change_outputs,
                strategy,
                Err(e),
            ));
            Err(e)
        },
    }
}

/// Adds the payee's output to the slate, under the next key path of the
/// account. The wallet is only read.
pub fn recipient_output<C: NodeClient>(
    wallet: &Wallet<C>,
    slate: &mut Slate,
    parent_key_id: &Identifier,
    nonce: Scalar,
) -> (r: Result<Context, ErrorKind>)
    ensures
        match receive_error(wallet@) {
            Some(e) => r == Err::<Context, ErrorKind>(e) && final(slate)@ == old(slate)@,
            None => {
                &&& r is Ok
                &&& r->Ok_0@ == receive_context(wallet@, old(slate)@, *parent_key_id, nonce)
                &&& final(slate)@ == slate_with_output(wallet@, old(slate)@, *parent_key_id)
            },
        },
{
    if wallet.next_child == u32::MAX || wallet.next_tx_log_id == u32::MAX {
        return Err(ErrorKind::IndexExhausted);
    }
    let key_id = parent_key_id.extend(wallet.next_child);
    let key = wallet.keychain.derive_key(&key_id);
    let commit = Point::commit(slate.amount, key);
    let mut context = Context::new(key, nonce, *parent_key_id);
    context.output_ids.push(KeyedAmount { key_id, value: slate.amount });
    assert(context@.output_ids =~= seq![received_id(wallet@, old(slate)@, *parent_key_id)]);
    slate.tx.body.outputs.push(Output { features: OutputFeatures::Plain, commit });
    Ok(context)
}

/// Records the payee's output and the log entry of the transaction in the
/// wallet.
pub fn record_received<C: NodeClient>(
    wallet: &mut Wallet<C>,
    slate: &Slate,
    parent_key_id: &Identifier,
    now: i64,
) -> (r: Result<(), ErrorKind>)
    ensures
        final(wallet).client == old(wallet).client,
        match receive_error(old(wallet)@) {
            Some(e) => r == Err::<(), ErrorKind>(e) && final(wallet)@ == old(wallet)@,
            None => r is Ok && final(wallet)@ == wallet_with_output(
                old(wallet)@,
                slate@,
                *parent_key_id,
                now,
            ),
        },
        consistent(old(wallet)@) ==> consistent(final(wallet)@),
{
    if wallet.next_child == u32::MAX || wallet.next_tx_log_id == u32::MAX {
        return Err(ErrorKind::IndexExhausted);
    }
    proof {
        if consistent(old(wallet)@) {
            lemma_receive_keeps_consistent(old(wallet)@, slate@, *parent_key_id, now);
        }
    }
    let key_id = parent_key_id.extend(wallet.next_child);
    let key = wallet.keychain.derive_key(&key_id);
    let commit = Point::commit(slate.amount, key);
    let log_id = wallet.next_tx_log_id;
    let mut entry = TxLogEntry::new(*parent_key_id, TxLogEntryType::TxReceived, log_id, now);
    entry.tx_slate_id = Some(slate.id);
    entry.amount_credited = slate.amount;
    entry.num_outputs = 1;
    entry.messages = Some(slate.participant_messages());
    let ghost log_before = wallet@.tx_log;
    wallet.tx_log.push(entry);
    assert(wallet@.tx_log =~= log_before.push(entry@));
    wallet.outputs.push(
        OutputData {
            root_key_id: *parent_key_id,
            key_id,
            commit,
            value: slate.amount,
            status: OutputStatus::Unconfirmed,
            height: slate.height,
            lock_height: 0,
            is_coinbase: false,
            tx_log_entry: Some(log_id),
            slate_id: Some(slate.id),
        },
    );
    wallet.next_child = wallet.next_child + 1;
    wallet.next_tx_log_id = log_id + 1;
    Ok(())
}

/// Adds the payee's output to the slate, under a fresh key path, and
/// records the output and the transaction in the wallet.
pub fn build_recipient_output<C: NodeClient>(
    wallet: &mut Wallet<C>,
    slate: &mut Slate,
    parent_key_id: &Identifier,
    nonce: Scalar,
    now: i64,
) -> (r: Result<Context, ErrorKind>)
    ensures
        final(wallet).client == old(wallet).client,
        match receive_error(old(wallet)@) {
            Some(e) => r == Err::<Context, ErrorKind>(e) && final(wallet)@ == old(wallet)@
                && final(slate)@ == old(slate)@,
            None => {
                &&& r is Ok
                &&& r->Ok_0@ == receive_context(old(wallet)@, old(slate)@, *parent_key_id, nonce)
                &&& final(slate)@ == slate_with_output(old(wallet)@, old(slate)@, *parent_key_id)
                &&& final(wallet)@ == wallet_with_output(
                    old(wallet)@,
                    old(slate)@,
                    *parent_key_id,
                    now,
                )
            },
        },
        consistent(old(wallet)@) ==> consistent(final(wallet)@),
{
    match record_received(wallet, slate, parent_key_id, now) {
        Ok(_) => {},
        Err(e) => {
            return Err(e);
        },
    }
    let key_id = parent_key_id.extend(wallet.next_child - 1);
    let key = wallet.keychain.derive_key(&key_id);
    let commit = Point::commit(slate.amount, key);
    let mut context = Context::new(key, nonce, *parent_key_id);
    context.output_ids.push(KeyedAmount { key_id, value: slate.amount });
    assert(context@.output_ids =~= seq![received_id(old(wallet)@, old(slate)@, *parent_key_id)]);
    slate.tx.body.outputs.push(Output { features: OutputFeatures::Plain, commit });
    Ok(context)
}

} // verus!
