//! The steps of a transaction between two or more wallets: making the
//! slate, adding inputs and outputs, signing, completing and cancelling.

use vstd::prelude::*;
use vstd::string::*;
use crate::builder::{
    attach_error, attached_context, attached_slate, attached_wallet, build_send_tx, receive_context,
    receive_error, recipient_output, record_received, slate_with_output, wallet_with_output,
};
use crate::clock::now_millis;
use crate::error::{ErrorKind, Violation, is_doesnt_exist, is_not_cancellable};
use crate::group::{Point, Scalar};
use crate::ids::{
    SEQUENCE_BASE, SlateIdSource, hyphenated, is_random_id, slate_id_string, tx_ref_string,
    tx_ref_text,
};
use crate::keychain::Identifier;
use crate::ledger_laws::{
    consistent, lemma_cancel_keeps_consistent, lemma_consistent_depends,
    lemma_finalize_keeps_consistent, lemma_store_keeps_consistent,
};
use crate::payment_proof::{TxProof, TxProofView};
use crate::selection::{
    CoinQuery, CoinSelection, SelectionStrategy, pick_positions, select_coins_and_fee,
    selection_result, strategy_of,
};
use crate::seqs::{
    indices_where, pick, lemma_first_index, lemma_indices_where_push, lemma_indices_where_sound,
};
use crate::slate::{
    Slate, SlateView, VersionCompatInfo, after_round_one, after_round_two, blank_slate,
    finalize_error, finalized, header_version_valid, messages_of, position, round_one_admits,
    round_one_key, round_two_error, text_view, valid_header_version,
};
use crate::transaction::{Output, TransactionView, input_commits, output_commits};
use crate::types::{
    Context, ContextView, Entropy, OutputData, OutputStatus, PaymentData, TxLogEntryType,
    TxLogEntryView,
};
use crate::wallet::{
    ChainOutput, NodeClient, OutputQuery, StoredProof, StoredProofView, StoredTx, StoredTxView,
    TxQuery, Wallet, WalletView,
    cancelled_entry, matching_outputs, matching_txs, outputs_after_cancel, payments_after_cancel,
    positions, refreshed, refreshed_outputs,
};

verus! {

/// The slate for a payment of `amount`, made at the given chain height: no
/// lock height, and the block header version that holds at that height.
pub open spec fn new_slate(
    id: u128,
    amount: u64,
    height: u64,
    num_participants: usize,
) -> SlateView {
    let blank = blank_slate(num_participants, id);
    SlateView {
        amount,
        height,
        lock_height: 0,
        version_info: VersionCompatInfo {
            block_header_version: if header_version_valid(height, 1) {
                1
            } else {
                blank.version_info.block_header_version
            },
            ..blank.version_info
        },
        ..blank
    }
}

/// The slate for a payment of `amount`, made at the given chain height.
pub fn slate_at_height(id: u128, amount: u64, height: u64, num_participants: usize) -> (slate:
    Slate)
    ensures
        slate@ == new_slate(id, amount, height, num_participants),
{
    let mut slate = Slate::blank(num_participants, id);
    slate.amount = amount;
    slate.height = height;
    if valid_header_version(height, 1) {
        slate.version_info.block_header_version = 1;
    }
    slate.lock_height = 0;
    slate
}

/// Makes the slate for a payment of `amount` among `num_participants`
/// parties, at the height that the node reports. Where the node fails, no
/// id is used up.
pub fn new_tx_slate<C: NodeClient>(
    wallet: &mut Wallet<C>,
    amount: u64,
    num_participants: usize,
    ids: &mut SlateIdSource,
) -> (r: Result<Slate, ErrorKind>)
    ensures
        final(wallet)@ == old(wallet)@,
        final(wallet).client == old(wallet).client,
        match r {
            Ok(slate) => {
                &&& slate@ == new_slate(slate@.id, amount, slate@.height, num_participants)
                &&& match *old(ids) {
                    SlateIdSource::Random => is_random_id(slate@.id) && *final(ids) == *old(ids),
                    SlateIdSource::Sequence { next } => {
                        &&& slate@.id == SEQUENCE_BASE + next
                        &&& *final(ids) == (SlateIdSource::Sequence {
                            next: if next == 255 {
                                0u8
                            } else {
                                (next + 1) as u8
                            },
                        })
                    },
                }
            },
            Err(e) => e == ErrorKind::NodeUnavailable && *final(ids) == *old(ids),
        },
{
    let height = match wallet.client.get_chain_height() {
        Ok(h) => h,
        Err(_) => {
            return Err(ErrorKind::NodeUnavailable);
        },
    };
    let id = ids.next_id();
    Ok(slate_at_height(id, amount, height, num_participants))
}

/// What `estimate_send_tx` gives for what a selection gives.
pub open spec fn estimate_of(
    sel: Result<CoinSelection, ErrorKind>,
) -> Result<(u64, u64), ErrorKind> {
    match sel {
        Ok(chosen) => Ok((chosen.total, chosen.fee)),
        Err(e) => Err(e),
    }
}

/// Whether a result is the estimate for a payment of `amount` from the
/// records `w`, where the chain stands at `height` and shows `chain` of the
/// outputs of the account: the total and the fee of the selection among the
/// outputs as the chain shows them, or the error of that selection.
pub open spec fn is_estimate(
    w: WalletView,
    amount: u64,
    q: CoinQuery,
    max_outputs: usize,
    num_change_outputs: usize,
    strategy: SelectionStrategy,
    chain: Seq<ChainOutput>,
    r: Result<(u64, u64), ErrorKind>,
) -> bool {
    exists|sel: Result<CoinSelection, ErrorKind>|
        #![auto]
        {
            &&& selection_result(
                refreshed_outputs(w.outputs, q.parent_key_id, chain),
                w.fee_schedule,
                amount,
                q,
                max_outputs,
                num_change_outputs,
                strategy,
                sel,
            )
            &&& r == estimate_of(sel)
        }
}

/// The estimate for a payment of `amount`, given what the node has shown:
/// the height of the chain and those of the account's outputs that the
/// chain holds. The wallet is only read.
pub fn estimate_on_chain<C: NodeClient>(
    wallet: &Wallet<C>,
    amount: u64,
    minimum_confirmations: u64,
    max_outputs: usize,
    num_change_outputs: usize,
    strategy: SelectionStrategy,
    parent_key_id: &Identifier,
    current_height: u64,
    chain: &Vec<ChainOutput>,
) -> (r: Result<(u64, u64), ErrorKind>)
    ensures
        is_estimate(
            wallet@,
            amount,
            CoinQuery { parent_key_id: *parent_key_id, current_height, minimum_confirmations },
            max_outputs,
            num_change_outputs,
            strategy,
            chain@,
            r,
        ),
{
    let outputs = wallet.outputs_on_chain(parent_key_id, chain);
    let sel = select_coins_and_fee(
        &outputs,
        wallet.fee_schedule,
        amount,
        current_height,
        minimum_confirmations,
        max_outputs,
        num_change_outputs,
        strategy,
        parent_key_id,
    );
    let r = match sel {
        Ok(chosen) => {
            let pair = (chosen.total, chosen.fee);
            assert(Ok::<(u64, u64), ErrorKind>(pair) == estimate_of(Ok(chosen)));
            Ok(pair)
        },
        Err(e) => Err(e),
    };
    proof {
        assert(selection_result(
            refreshed_outputs(wallet@.outputs, *parent_key_id, chain@),
            wallet@.fee_schedule,
            amount,
            CoinQuery { parent_key_id: *parent_key_id, current_height, minimum_confirmations },
            max_outputs,
            num_change_outputs,
            strategy,
            sel,
        ));
        assert(r == estimate_of(sel));
    }
    r
}

/// Estimates what a payment of `amount` would lock and cost, without
/// building it and without changing any record: asks the node for the
/// height and for the outputs of the account, and selects among the outputs
/// as the chain shows them. Gives the total of the selected outputs and the
/// fee.
pub fn estimate_send_tx<C: NodeClient>(
    wallet: &mut Wallet<C>,
    amount: u64,
    minimum_confirmations: u64,
    max_outputs: usize,
    num_change_outputs: usize,
    selection_strategy: String,
    parent_key_id: &Identifier,
) -> (r: Result<(u64, u64), ErrorKind>)
    ensures
        final(wallet)@ == old(wallet)@,
        final(wallet).client == old(wallet).client,
        ({
            ||| r == Err::<(u64, u64), ErrorKind>(ErrorKind::NodeUnavailable)
            ||| exists|chain: Seq<ChainOutput>, height: u64|
                #![auto]
                is_estimate(
                    old(wallet)@,
                    amount,
                    CoinQuery {
                        parent_key_id: *parent_key_id,
                        current_height: height,
                        minimum_confirmations,
                    },
                    max_outputs,
                    num_change_outputs,
                    strategy_of(selection_strategy@),
                    chain,
                    r,
                )
        }),
{
    let current_height = match wallet.client.get_chain_height() {
        Ok(h) => h,
        Err(_) => {
            return Err(ErrorKind::NodeUnavailable);
        },
    };
    let commits = wallet.commits_to_refresh(parent_key_id);
    let chain = match wallet.client.get_outputs_from_node(&commits) {
        Ok(chain) => chain,
        Err(_) => {
            return Err(ErrorKind::NodeUnavailable);
        },
    };
    estimate_on_chain(
        wallet,
        amount,
        minimum_confirmations,
        max_outputs,
        num_change_outputs,
        SelectionStrategy::parse(&selection_strategy),
        parent_key_id,
        current_height,
        &chain,
    )
}

/// The query for the transaction that a reference names in an account.
pub open spec fn cancel_query(
    parent_key_id: Identifier,
    tx_id: Option<u32>,
    tx_slate_id: Option<u128>,
) -> TxQuery {
    TxQuery { tx_id, tx_slate_id, parent_key_id: Some(parent_key_id), outstanding_only: false }
}

/// Whether a transaction can still be cancelled: it was sent or received,
/// and is neither confirmed nor posted.
pub open spec fn cancellable(t: TxLogEntryView) -> bool {
    &&& t.tx_type == TxLogEntryType::TxSent || t.tx_type == TxLogEntryType::TxReceived
    &&& !t.confirmed
    &&& t.posted != Some(true)
}

/// The records after the log entry at position `i` was cancelled: the
/// entry is marked cancelled, the outputs that its transaction had locked
/// are free again, those that it would have created are given up, and the
/// payments of a sent transaction are cancelled.
pub open spec fn after_cancel(w: WalletView, i: int) -> WalletView {
    let t = w.tx_log[i];
    WalletView {
        tx_log: w.tx_log.update(i, cancelled_entry(t)),
        outputs: outputs_after_cancel(w.outputs, t.id, t.parent_key_id),
        payments: if t.tx_type == TxLogEntryType::TxSent && t.tx_slate_id is Some {
            payments_after_cancel(w.payments, t.tx_slate_id->Some_0)
        } else {
            w.payments
        },
        ..w
    }
}

/// Cancels the one transaction of the account that the reference names,
/// provided that it is neither confirmed nor posted.
pub fn cancel_tx<C: NodeClient>(
    wallet: &mut Wallet<C>,
    parent_key_id: &Identifier,
    tx_id: Option<u32>,
    tx_slate_id: Option<u128>,
) -> (r: Result<(), ErrorKind>)
    ensures
        final(wallet).client == old(wallet).client,
        ({
            let found = matching_txs(
                old(wallet)@.tx_log,
                cancel_query(*parent_key_id, tx_id, tx_slate_id),
            );
            if found.len() != 1 {
                &&& r is Err
                &&& is_doesnt_exist(r->Err_0, tx_ref_text(tx_id, tx_slate_id))
                &&& final(wallet)@ == old(wallet)@
            } else if !cancellable(old(wallet)@.tx_log[found[0]]) {
                &&& r is Err
                &&& is_not_cancellable(r->Err_0, tx_ref_text(tx_id, tx_slate_id))
                &&& final(wallet)@ == old(wallet)@
            } else {
                &&& r is Ok
                &&& final(wallet)@ == after_cancel(old(wallet)@, found[0])
            }
        }),
        consistent(old(wallet)@) ==> consistent(final(wallet)@),
{
    let found = wallet.find_txs(tx_id, tx_slate_id, Some(*parent_key_id), false);
    if found.len() != 1 {
        return Err(ErrorKind::TransactionDoesntExist(tx_ref_string(tx_id, tx_slate_id)));
    }
    let i = found[0];
    assert(positions(found@)[0] == i as int);
    proof {
        if consistent(old(wallet)@) {
            lemma_cancel_keeps_consistent(old(wallet)@, i as int);
        }
    }
    let tx_type = wallet.tx_log[i].tx_type;
    let confirmed = wallet.tx_log[i].confirmed;
    let posted = wallet.tx_log[i].posted;
    let slate_id = wallet.tx_log[i].tx_slate_id;
    assert(wallet@.tx_log[i as int] == wallet.tx_log@[i as int]@);
    if tx_type != TxLogEntryType::TxSent && tx_type != TxLogEntryType::TxReceived {
        return Err(ErrorKind::TransactionNotCancellable(tx_ref_string(tx_id, tx_slate_id)));
    }
    if confirmed || posted == Some(true) {
        return Err(ErrorKind::TransactionNotCancellable(tx_ref_string(tx_id, tx_slate_id)));
    }
    wallet.cancel_tx_and_outputs(i);
    if tx_type == TxLogEntryType::TxSent {
        match slate_id {
            Some(id) => {
                wallet.cancel_payments(id);
            },
            None => {},
        }
    }
    Ok(())
}

/// Whether a log entry is the one that a finalized slate belongs to: the
/// sent transaction of the slate, or the received one where the slate is an
/// invoice.
pub open spec fn is_finalized_entry(t: TxLogEntryView, slate_id: u128, is_invoiced: bool) -> bool {
    t.tx_slate_id == Some(slate_id) && if is_invoiced {
        t.tx_type == TxLogEntryType::TxReceived
    } else {
        t.tx_type == TxLogEntryType::TxSent
    }
}

/// The positions of the log entries that a finalized slate belongs to.
pub open spec fn finalized_entries(w: WalletView, slate_id: u128, is_invoiced: bool) -> Seq<int> {
    indices_where(w.tx_log, |t: TxLogEntryView| is_finalized_entry(t, slate_id, is_invoiced))
}

/// The position of the stored body of a slate, or the number of stored
/// bodies where there is none.
pub open spec fn stored_position(stored: Seq<StoredTxView>, slate_id: u128) -> int
    decreases stored.len(),
{
    if stored.len() == 0 {
        0
    } else {
        let before = stored_position(stored.drop_last(), slate_id);
        if before < stored.len() - 1 {
            before
        } else if stored.last().slate_id == slate_id {
            stored.len() - 1
        } else {
            stored.len() as int
        }
    }
}

/// The stored bodies with that of the given slate put in, in the place of
/// the one that was stored for the slate before, if there was one.
pub open spec fn with_stored_tx(
    stored: Seq<StoredTxView>,
    slate_id: u128,
    tx: TransactionView,
) -> Seq<
    StoredTxView,
> {
    let i = stored_position(stored, slate_id);
    let entry = StoredTxView { slate_id, tx };
    if i < stored.len() {
        stored.update(i, entry)
    } else {
        stored.push(entry)
    }
}

/// The position of the stored proof of a slate, or the number of stored
/// proofs where there is none.
pub open spec fn proof_position(stored: Seq<StoredProofView>, slate_id: u128) -> int
    decreases stored.len(),
{
    if stored.len() == 0 {
        0
    } else {
        let before = proof_position(stored.drop_last(), slate_id);
        if before < stored.len() - 1 {
            before
        } else if stored.last().slate_id == slate_id {
            stored.len() - 1
        } else {
            stored.len() as int
        }
    }
}

/// The stored proofs with that of the given slate put in, in the place of
/// the one that was stored for the slate before, if there was one.
pub open spec fn with_stored_proof(
    stored: Seq<StoredProofView>,
    slate_id: u128,
    proof_view: TxProofView,
) -> Seq<
    StoredProofView,
> {
    let i = proof_position(stored, slate_id);
    let entry = StoredProofView { slate_id, proof: proof_view };
    if i < stored.len() {
        stored.update(i, entry)
    } else {
        stored.push(entry)
    }
}

/// The records after the body of a finalized slate, and the proof where
/// there is one, were stored under the id of the slate for the first log
/// entry that the slate belongs to. What was stored under that id before is
/// replaced.
pub open spec fn after_store(
    w: WalletView,
    s: SlateView,
    proof_view: Option<TxProofView>,
    is_invoiced: bool,
) -> WalletView {
    let i = finalized_entries(w, s.id, is_invoiced)[0];
    WalletView {
        tx_log: w.tx_log.update(
            i,
            TxLogEntryView {
                stored_tx: Some(s.id),
                stored_proof: if proof_view is Some {
                    Some(s.id)
                } else {
                    w.tx_log[i].stored_proof
                },
                ..w.tx_log[i]
            },
        ),
        stored_txs: with_stored_tx(w.stored_txs, s.id, s.tx),
        stored_proofs: match proof_view {
            Some(p) => with_stored_proof(w.stored_proofs, s.id, p),
            None => w.stored_proofs,
        },
        ..w
    }
}

/// The proof as a mathematical value, where there is one.
pub open spec fn optional_proof_view(tx_proof: Option<TxProof>) -> Option<TxProofView> {
    match tx_proof {
        Some(p) => Some(p@),
        None => None,
    }
}

pub(crate) proof fn lemma_stored_position(stored: Seq<StoredTxView>, slate_id: u128, i: int)
    requires
        0 <= i <= stored.len(),
        forall|j: int| 0 <= j < i ==> (#[trigger] stored[j]).slate_id != slate_id,
        i < stored.len() ==> stored[i].slate_id == slate_id,
    ensures
        stored_position(stored, slate_id) == i,
    decreases stored.len(),
{
    if stored.len() > 0 {
        let front = stored.drop_last();
        if i < stored.len() - 1 {
            lemma_stored_position(front, slate_id, i);
        } else {
            lemma_stored_position(front, slate_id, front.len() as int);
        }
    }
}

pub(crate) proof fn lemma_proof_position(stored: Seq<StoredProofView>, slate_id: u128, i: int)
    requires
        0 <= i <= stored.len(),
        forall|j: int| 0 <= j < i ==> (#[trigger] stored[j]).slate_id != slate_id,
        i < stored.len() ==> stored[i].slate_id == slate_id,
    ensures
        proof_position(stored, slate_id) == i,
    decreases stored.len(),
{
    if stored.len() > 0 {
        let front = stored.drop_last();
        if i < stored.len() - 1 {
            lemma_proof_position(front, slate_id, i);
        } else {
            lemma_proof_position(front, slate_id, front.len() as int);
        }
    }
}

/// The position of the stored proof of a slate is that of the first proof
/// stored under the id of the slate.
pub proof fn lemma_proof_position_first(stored: Seq<StoredProofView>, slate_id: u128)
    ensures
        0 <= proof_position(stored, slate_id) <= stored.len(),
        forall|j: int|
            0 <= j < proof_position(stored, slate_id) ==> (#[trigger] stored[j]).slate_id
                != slate_id,
        proof_position(stored, slate_id) < stored.len() ==> stored[proof_position(
            stored,
            slate_id,
        )].slate_id == slate_id,
    decreases stored.len(),
{
    if stored.len() > 0 {
        lemma_proof_position_first(stored.drop_last(), slate_id);
        assert forall|j: int| 0 <= j < proof_position(stored, slate_id) implies (
        #[trigger] stored[j]).slate_id != slate_id by {
            if j < stored.len() - 1 {
                assert(stored.drop_last()[j] == stored[j]);
            }
        }
        if proof_position(stored, slate_id) < stored.len() - 1 {
            assert(stored.drop_last()[proof_position(stored, slate_id)] == stored[proof_position(
                stored,
                slate_id,
            )]);
        }
    }
}

/// A proof that was stored for a slate is found under the id of the slate,
/// whatever id the proof itself names; and a proof stored for the same
/// slate afterwards takes its place, so that the wallet never holds two
/// proofs for one slate on that account.
pub proof fn lemma_stored_proof_is_replaced(
    stored: Seq<StoredProofView>,
    slate_id: u128,
    first: TxProofView,
    second: TxProofView,
)
    ensures
        ({
            let once = with_stored_proof(stored, slate_id, first);
            &&& proof_position(once, slate_id) == proof_position(stored, slate_id)
            &&& proof_position(once, slate_id) < once.len()
            &&& once[proof_position(once, slate_id)].proof == first
            &&& with_stored_proof(once, slate_id, second) == with_stored_proof(
                stored,
                slate_id,
                second,
            )
            &&& with_stored_proof(once, slate_id, first) == once
        }),
{
    let i = proof_position(stored, slate_id);
    let once = with_stored_proof(stored, slate_id, first);
    lemma_proof_position_first(stored, slate_id);
    assert forall|j: int| 0 <= j < i implies (#[trigger] once[j]).slate_id != slate_id by {
        assert(once[j] == stored[j]);
    }
    lemma_proof_position(once, slate_id, i);
    assert(with_stored_proof(once, slate_id, second) =~= with_stored_proof(
        stored,
        slate_id,
        second,
    ));
    assert(with_stored_proof(once, slate_id, first) =~= once);
}

fn store_body<C: NodeClient>(wallet: &mut Wallet<C>, slate: &Slate)
    ensures
        final(wallet).client == old(wallet).client,
        final(wallet)@ == (WalletView {
            stored_txs: with_stored_tx(old(wallet)@.stored_txs, slate@.id, slate@.tx),
            ..old(wallet)@
        }),
{
    let ghost before = wallet@.stored_txs;
    let entry = StoredTx { slate_id: slate.id, tx: slate.tx.clone() };
    match wallet.find_stored_tx(slate.id) {
        Some(k) => {
            wallet.stored_txs[k] = entry;
            assert(wallet@.stored_txs =~= before.update(k as int, entry@));
        },
        None => {
            wallet.stored_txs.push(entry);
            assert(wallet@.stored_txs =~= before.push(entry@));
        },
    }
}

fn store_proof<C: NodeClient>(wallet: &mut Wallet<C>, slate_id: u128, tx_proof: TxProof)
    ensures
        final(wallet).client == old(wallet).client,
        final(wallet)@ == (WalletView {
            stored_proofs: with_stored_proof(old(wallet)@.stored_proofs, slate_id, tx_proof@),
            ..old(wallet)@
        }),
{
    let ghost before = wallet@.stored_proofs;
    let entry = StoredProof { slate_id, proof: tx_proof };
    match wallet.find_stored_proof(slate_id) {
        Some(k) => {
            wallet.stored_proofs[k] = entry;
            assert(wallet@.stored_proofs =~= before.update(k as int, entry@));
        },
        None => {
            wallet.stored_proofs.push(entry);
            assert(wallet@.stored_proofs =~= before.push(entry@));
        },
    }
}

/// Stores the body of a finalized slate, and the proof where there is one,
/// under the id of the slate, for the log entry that the slate belongs to.
/// What was stored under that id before is replaced.
pub fn update_stored_tx<C: NodeClient>(
    wallet: &mut Wallet<C>,
    slate: &Slate,
    tx_proof: Option<TxProof>,
    is_invoiced: bool,
) -> (r: Result<(), ErrorKind>)
    ensures
        final(wallet).client == old(wallet).client,
        if finalized_entries(old(wallet)@, slate@.id, is_invoiced).len() == 0 {
            &&& r is Err
            &&& is_doesnt_exist(r->Err_0, hyphenated(slate@.id))
            &&& final(wallet)@ == old(wallet)@
        } else {
            &&& r is Ok
            &&& final(wallet)@ == after_store(
                old(wallet)@,
                slate@,
                optional_proof_view(tx_proof),
                is_invoiced,
            )
        },
        consistent(old(wallet)@) ==> consistent(final(wallet)@),
{
    proof {
        if consistent(old(wallet)@) && finalized_entries(old(wallet)@, slate@.id, is_invoiced).len()
            > 0 {
            lemma_store_keeps_consistent(
                old(wallet)@,
                slate@,
                optional_proof_view(tx_proof),
                is_invoiced,
            );
        }
    }
    let ghost f = |t: TxLogEntryView| is_finalized_entry(t, slate@.id, is_invoiced);
    let ghost w0 = wallet@;
    let mut i: usize = 0;
    let mut found = false;
    while i < wallet.tx_log.len() && !found
        invariant
            i <= wallet.tx_log.len(),
            wallet@ == w0,
            wallet.client == old(wallet).client,
            f == (|t: TxLogEntryView| is_finalized_entry(t, slate@.id, is_invoiced)),
            !found ==> indices_where(w0.tx_log.subrange(0, i as int), f) == Seq::<int>::empty(),
            found ==> i < wallet.tx_log.len() && f(w0.tx_log[i as int]) && indices_where(
                w0.tx_log.subrange(0, i as int),
                f,
            ) == Seq::<int>::empty(),
        decreases wallet.tx_log.len() - i + (if found { 0int } else { 1int }),
    {
        let t = &wallet.tx_log[i];
        assert(t@ == w0.tx_log[i as int]);
        let wanted = if is_invoiced {
            t.tx_type == TxLogEntryType::TxReceived
        } else {
            t.tx_type == TxLogEntryType::TxSent
        };
        if t.tx_slate_id == Some(slate.id) && wanted {
            found = true;
        } else {
            proof {
                assert(w0.tx_log.subrange(0, i as int + 1) =~= w0.tx_log.subrange(0, i as int).push(
                    w0.tx_log[i as int],
                ));
                lemma_indices_where_push(
                    w0.tx_log.subrange(0, i as int),
                    f,
                    w0.tx_log[i as int],
                );
            }
            i = i + 1;
        }
    }
    if !found {
        proof {
            assert(w0.tx_log.subrange(0, i as int) =~= w0.tx_log);
        }
        return Err(ErrorKind::TransactionDoesntExist(slate_id_string(slate.id)));
    }
    proof {
        lemma_first_index(w0.tx_log, f, i as int);
    }
    let has_proof = tx_proof.is_some();
    wallet.tx_log[i].stored_tx = Some(slate.id);
    if has_proof {
        wallet.tx_log[i].stored_proof = Some(slate.id);
    }
    assert(wallet@.tx_log =~= w0.tx_log.update(
        i as int,
        TxLogEntryView {
            stored_tx: Some(slate@.id),
            stored_proof: if tx_proof is Some {
                Some(slate@.id)
            } else {
                w0.tx_log[i as int].stored_proof
            },
            ..w0.tx_log[i as int]
        },
    ));
    store_body(wallet, slate);
    match tx_proof {
        Some(p) => {
            store_proof(wallet, slate.id, p);
        },
        None => {},
    }
    Ok(())
}

/// A log entry after the messages, the relay key path and the kernel
/// excess of a slate were written to it.
pub open spec fn with_messages(
    t: TxLogEntryView,
    s: SlateView,
    grinrelay_key_path: Option<u64>,
) -> TxLogEntryView {
    TxLogEntryView {
        messages: Some(messages_of(s.participant_data)),
        grinrelay_key_path,
        kernel_excess: if s.tx.kernels.len() > 0 {
            Some(s.tx.kernels[0].excess)
        } else {
            t.kernel_excess
        },
        ..t
    }
}

/// Whether the log holds an entry for a slate.
pub open spec fn has_entry(w: WalletView, slate_id: u128) -> bool {
    exists|i: int| 0 <= i < w.tx_log.len() && (#[trigger] w.tx_log[i]).tx_slate_id == Some(slate_id)
}

/// The records after the messages, the relay key path and the kernel
/// excess of a slate were written to every log entry of the slate.
pub open spec fn after_update_message(
    w: WalletView,
    s: SlateView,
    grinrelay_key_path: Option<u64>,
) -> WalletView {
    WalletView {
        tx_log: w.tx_log.map_values(
            |t: TxLogEntryView|
                if t.tx_slate_id == Some(s.id) {
                    with_messages(t, s, grinrelay_key_path)
                } else {
                    t
                },
        ),
        ..w
    }
}

/// Writes the participants' messages, the relay key path and the kernel
/// excess of a slate to every log entry of the slate.
pub fn update_message<C: NodeClient>(
    wallet: &mut Wallet<C>,
    slate: &Slate,
    grinrelay_key_path: Option<u64>,
) -> (r: Result<(), ErrorKind>)
    ensures
        final(wallet).client == old(wallet).client,
        if has_entry(old(wallet)@, slate@.id) {
            r is Ok && final(wallet)@ == after_update_message(
                old(wallet)@,
                slate@,
                grinrelay_key_path,
            )
        } else {
            &&& r is Err
            &&& is_doesnt_exist(r->Err_0, hyphenated(slate@.id))
            &&& final(wallet)@ == old(wallet)@
        },
        consistent(old(wallet)@) ==> consistent(final(wallet)@),
{
    proof {
        if consistent(old(wallet)@) {
            lemma_finalize_keeps_consistent(
                old(wallet)@,
                slate@,
                old(wallet)@.parent_key_id,
                grinrelay_key_path,
            );
        }
    }
    let ghost w0 = wallet@;
    let mut any = false;
    let mut i: usize = 0;
    while i < wallet.tx_log.len()
        invariant
            i <= wallet.tx_log.len(),
            wallet.tx_log.len() == w0.tx_log.len(),
            any == (exists|j: int|
                0 <= j < i && (#[trigger] w0.tx_log[j]).tx_slate_id == Some(slate@.id)),
            forall|j: int|
                0 <= j < i ==> (#[trigger] wallet@.tx_log[j]) == if w0.tx_log[j].tx_slate_id
                    == Some(slate@.id) {
                    with_messages(w0.tx_log[j], slate@, grinrelay_key_path)
                } else {
                    w0.tx_log[j]
                },
            forall|j: int|
                i <= j < wallet.tx_log.len() ==> (#[trigger] wallet@.tx_log[j]) == w0.tx_log[j],
            wallet@ == (WalletView { tx_log: wallet@.tx_log, ..w0 }),
            wallet.client == old(wallet).client,
        decreases wallet.tx_log.len() - i,
    {
        assert(wallet@.tx_log[i as int] == wallet.tx_log@[i as int]@);
        let ghost log_before = wallet@.tx_log;
        if wallet.tx_log[i].tx_slate_id == Some(slate.id) {
            any = true;
            wallet.tx_log[i].messages = Some(slate.participant_messages());
            wallet.tx_log[i].grinrelay_key_path = grinrelay_key_path;
            if slate.tx.body.kernels.len() > 0 {
                wallet.tx_log[i].kernel_excess = Some(slate.tx.body.kernels[0].excess);
            }
            assert(wallet@.tx_log =~= log_before.update(
                i as int,
                with_messages(w0.tx_log[i as int], slate@, grinrelay_key_path),
            ));
        }
        i = i + 1;
    }
    if !any {
        assert(wallet@.tx_log =~= w0.tx_log);
        return Err(ErrorKind::TransactionDoesntExist(slate_id_string(slate.id)));
    }
    assert(wallet@.tx_log =~= after_update_message(w0, slate@, grinrelay_key_path).tx_log);
    Ok(())
}

/// The slate and the secrets of a party after its first round, and after
/// its second round as well unless it is the initiator. Both rounds are
/// made under `participant_id`.
pub open spec fn signing_outcome(
    s: SlateView,
    c: ContextView,
    participant_id: u64,
    message: Option<Seq<char>>,
    is_initiator: bool,
    offset: Scalar,
) -> Result<(SlateView, ContextView), ErrorKind> {
    if !round_one_admits(s, participant_id) {
        Err(ErrorKind::ProtocolViolation(Violation::TooManyParticipants))
    } else {
        let s1 = after_round_one(s, c.sec_key, c.sec_nonce, participant_id, message, offset);
        let c1 = ContextView { sec_key: round_one_key(s, c.sec_key, offset), ..c };
        if is_initiator {
            Ok((s1, c1))
        } else {
            match round_two_error(s1, participant_id) {
                Some(e) => Err(e),
                None => Ok((after_round_two(s1, c1.sec_key, c1.sec_nonce, participant_id), c1)),
            }
        }
    }
}

/// The context with the commitments of all inputs and outputs of the
/// transaction of a slate noted in it.
pub open spec fn with_commits(c: ContextView, s: SlateView) -> ContextView {
    ContextView {
        input_commits: c.input_commits + input_commits(s.tx.inputs),
        output_commits: c.output_commits + output_commits(s.tx.outputs),
        ..c
    }
}

/// What the payer's step gives for the inputs at the given positions: the
/// slate with the inputs, the change and the payer's signing rounds, the
/// payer's secrets, and the records with the key paths of the change used
/// up.
pub open spec fn payer_outcome(
    w: WalletView,
    s: SlateView,
    picks: Seq<int>,
    fee: u64,
    num_change_outputs: usize,
    parent_key_id: Identifier,
    participant_id: u64,
    message: Option<Seq<char>>,
    is_initiator: bool,
    entropy: Entropy,
) -> Result<(SlateView, ContextView, WalletView), ErrorKind> {
    match attach_error(w, s, picks, fee, num_change_outputs) {
        Some(e) => Err(e),
        None => {
            let s1 = attached_slate(w, s, picks, fee, num_change_outputs, parent_key_id);
            let c1 = with_commits(
                attached_context(
                    w,
                    s,
                    picks,
                    fee,
                    num_change_outputs,
                    parent_key_id,
                    entropy.nonce,
                ),
                s1,
            );
            match signing_outcome(s1, c1, participant_id, message, is_initiator, entropy.offset) {
                Ok((s2, c2)) => Ok(
                    (s2, c2, attached_wallet(w, s, picks, fee, num_change_outputs, parent_key_id)),
                ),
                Err(e) => Err(e),
            }
        },
    }
}

/// Whether a result, a slate and the records are what the payer's step
/// leaves: the step selects the inputs by the strategy, attaches them and
/// the change, and signs. Where it fails, slate and records are as before.
pub open spec fn payer_step(
    w: WalletView,
    s: SlateView,
    minimum_confirmations: u64,
    max_outputs: usize,
    num_change_outputs: usize,
    strategy: SelectionStrategy,
    parent_key_id: Identifier,
    participant_id: u64,
    message: Option<Seq<char>>,
    is_initiator: bool,
    entropy: Entropy,
    r: Result<Context, ErrorKind>,
    s_after: SlateView,
    w_after: WalletView,
) -> bool {
    exists|sel: Result<CoinSelection, ErrorKind>|
        {
            &&& #[trigger] selection_result(
                w.outputs,
                w.fee_schedule,
                s.amount,
                CoinQuery { parent_key_id, current_height: s.height, minimum_confirmations },
                max_outputs,
                num_change_outputs,
                strategy,
                sel,
            )
            &&& match sel {
                Err(e) => r == Err::<Context, ErrorKind>(e) && s_after == s && w_after == w,
                Ok(chosen) => match payer_outcome(
                    w,
                    s,
                    pick_positions(chosen.positions@),
                    chosen.fee,
                    num_change_outputs,
                    parent_key_id,
                    participant_id,
                    message,
                    is_initiator,
                    entropy,
                ) {
                    Ok((s2, c2, w2)) => r is Ok && r->Ok_0@ == c2 && s_after == s2 && w_after
                        == w2,
                    Err(e) => r == Err::<Context, ErrorKind>(e) && s_after == s && w_after == w,
                },
            }
        }
}

/// What the payee's step gives: the slate with the payee's output and
/// signing rounds, the payee's secrets, and the records with the output and
/// the log entry. The payee publishes and signs under `participant_id`.
pub open spec fn payee_outcome(
    w: WalletView,
    s: SlateView,
    parent_key_id: Identifier,
    participant_id: u64,
    message: Option<Seq<char>>,
    is_initiator: bool,
    entropy: Entropy,
    now: i64,
) -> Result<(SlateView, ContextView, WalletView), ErrorKind> {
    match receive_error(w) {
        Some(e) => Err(e),
        None => {
            match signing_outcome(
                slate_with_output(w, s, parent_key_id),
                receive_context(w, s, parent_key_id, entropy.nonce),
                participant_id,
                message,
                is_initiator,
                entropy.offset,
            ) {
                Ok((s2, c2)) => Ok((s2, c2, wallet_with_output(w, s, parent_key_id, now))),
                Err(e) => Err(e),
            }
        },
    }
}

fn sign_rounds(
    slate: &mut Slate,
    context: &mut Context,
    participant_id: u64,
    message: Option<String>,
    is_initiator: bool,
    offset: Scalar,
) -> (r: Result<(), ErrorKind>)
    ensures
        match signing_outcome(
            old(slate)@,
            old(context)@,
            participant_id,
            text_view(message),
            is_initiator,
            offset,
        ) {
            Ok((s, c)) => r is Ok && final(slate)@ == s && final(context)@ == c,
            Err(e) => r == Err::<(), ErrorKind>(e),
        },
{
    let nonce = context.sec_nonce;
    let mut key = context.sec_key;
    match slate.fill_round_1(&mut key, &nonce, participant_id, message, offset) {
        Ok(_) => {},
        Err(e) => {
            return Err(e);
        },
    }
    context.sec_key = key;
    if !is_initiator {
        match slate.fill_round_2(&key, &nonce, participant_id) {
            Ok(_) => {},
            Err(e) => {
                return Err(e);
            },
        }
    }
    Ok(())
}

fn note_commits(context: &mut Context, slate: &Slate)
    ensures
        final(context)@ == with_commits(old(context)@, slate@),
{
    let ghost c0 = context@;
    let mut i: usize = 0;
    assert(context@.input_commits =~= c0.input_commits + input_commits(
        slate@.tx.inputs.subrange(0, 0),
    ));
    while i < slate.tx.body.inputs.len()
        invariant
            i <= slate.tx.body.inputs.len(),
            context@ == (ContextView { input_commits: context@.input_commits, ..c0 }),
            context@.input_commits == c0.input_commits + input_commits(
                slate@.tx.inputs.subrange(0, i as int),
            ),
        decreases slate.tx.body.inputs.len() - i,
    {
        context.input_commits.push(slate.tx.body.inputs[i].commit);
        assert(context@.input_commits =~= c0.input_commits + input_commits(
            slate@.tx.inputs.subrange(0, i as int + 1),
        ));
        i = i + 1;
    }
    assert(slate@.tx.inputs.subrange(0, i as int) =~= slate@.tx.inputs);
    let ghost c1 = context@;
    let mut k: usize = 0;
    assert(context@.output_commits =~= c0.output_commits + output_commits(
        slate@.tx.outputs.subrange(0, 0),
    ));
    while k < slate.tx.body.outputs.len()
        invariant
            k <= slate.tx.body.outputs.len(),
            context@ == (ContextView { output_commits: context@.output_commits, ..c1 }),
            context@.output_commits == c0.output_commits + output_commits(
                slate@.tx.outputs.subrange(0, k as int),
            ),
        decreases slate.tx.body.outputs.len() - k,
    {
        context.output_commits.push(slate.tx.body.outputs[k].commit);
        assert(context@.output_commits =~= c0.output_commits + output_commits(
            slate@.tx.outputs.subrange(0, k as int + 1),
        ));
        k = k + 1;
    }
    assert(slate@.tx.outputs.subrange(0, k as int) =~= slate@.tx.outputs);
}

/// The payer's step on the records as they stand: selects the inputs for
/// the amount of the slate, attaches them and the change, notes the
/// commitments in the context, and signs: the first round, and the second
/// as well unless the payer is the initiator.
pub fn add_selected_inputs<C: NodeClient>(
    wallet: &mut Wallet<C>,
    slate: &mut Slate,
    minimum_confirmations: u64,
    max_outputs: usize,
    num_change_outputs: usize,
    strategy: SelectionStrategy,
    parent_key_id: &Identifier,
    participant_id: u64,
    message: Option<String>,
    is_initiator: bool,
    entropy: Entropy,
) -> (r: Result<Context, ErrorKind>)
    ensures
        final(wallet).client == old(wallet).client,
        payer_step(
            old(wallet)@,
            old(slate)@,
            minimum_confirmations,
            max_outputs,
            num_change_outputs,
            strategy,
            *parent_key_id,
            participant_id,
            text_view(message),
            is_initiator,
            entropy,
            r,
            final(slate)@,
            final(wallet)@,
        ),
        consistent(old(wallet)@) ==> consistent(final(wallet)@),
{
    let backup = slate.clone();
    let next_child = wallet.next_child;
    let ghost w0 = wallet@;
    let ghost s0 = slate@;
    let built = build_send_tx(
        wallet,
        slate,
        minimum_confirmations,
        max_outputs,
        num_change_outputs,
        strategy,
        parent_key_id,
        entropy.nonce,
    );
    let ghost sel = choose|sel: Result<CoinSelection, ErrorKind>|
        {
            &&& #[trigger] selection_result(
                w0.outputs,
                w0.fee_schedule,
                s0.amount,
                CoinQuery {
                    parent_key_id: *parent_key_id,
                    current_height: s0.height,
                    minimum_confirmations,
                },
                max_outputs,
                num_change_outputs,
                strategy,
                sel,
            )
            &&& match sel {
                Err(e) => built == Err::<Context, ErrorKind>(e) && wallet@ == w0 && slate@ == s0,
                Ok(chosen) => match attach_error(
                    w0,
                    s0,
                    pick_positions(chosen.positions@),
                    chosen.fee,
                    num_change_outputs,
                ) {
                    Some(e) => built == Err::<Context, ErrorKind>(e) && wallet@ == w0 && slate@
                        == s0,
                    None => {
                        &&& built is Ok
                        &&& built->Ok_0@ == attached_context(
                            w0,
                            s0,
                            pick_positions(chosen.positions@),
                            chosen.fee,
                            num_change_outputs,
                            *parent_key_id,
                            entropy.nonce,
                        )
                        &&& slate@ == attached_slate(
                            w0,
                            s0,
                            pick_positions(chosen.positions@),
                            chosen.fee,
                            num_change_outputs,
                            *parent_key_id,
                        )
                        &&& wallet@ == attached_wallet(
                            w0,
                            s0,
                            pick_positions(chosen.positions@),
                            chosen.fee,
                            num_change_outputs,
                            *parent_key_id,
                        )
                    },
                },
            }
        };
    let mut context = match built {
        Ok(c) => c,
        Err(e) => {
            return Err(e);
        },
    };
    note_commits(&mut context, slate);
    match sign_rounds(slate, &mut context, participant_id, message, is_initiator, entropy.offset) {
        Ok(_) => Ok(context),
        Err(e) => {
            *slate = backup;
            wallet.next_child = next_child;
            Err(e)
        },
    }
}

/// Adds the payer's inputs to the slate: refreshes the outputs of the
/// account from the node, then selects, attaches and signs. Where the node
/// fails, nothing changes; where a later step fails, the refreshed records
/// stay and the slate is as before.
pub fn add_inputs_to_slate<C: NodeClient>(
    wallet: &mut Wallet<C>,
    slate: &mut Slate,
    minimum_confirmations: u64,
    max_outputs: usize,
    num_change_outputs: usize,
    selection_strategy: String,
    parent_key_id: &Identifier,
    participant_id: u64,
    message: Option<String>,
    is_initiator: bool,
    entropy: Entropy,
) -> (r: Result<Context, ErrorKind>)
    ensures
        final(wallet).client == old(wallet).client,
        ({
            ||| r == Err::<Context, ErrorKind>(ErrorKind::NodeUnavailable) && final(wallet)@
                == old(wallet)@ && final(slate)@ == old(slate)@
            ||| exists|chain: Seq<ChainOutput>, now: i64|
                #![auto]
                payer_step(
                    refreshed(old(wallet)@, *parent_key_id, chain, now),
                    old(slate)@,
                    minimum_confirmations,
                    max_outputs,
                    num_change_outputs,
                    strategy_of(selection_strategy@),
                    *parent_key_id,
                    participant_id,
                    text_view(message),
                    is_initiator,
                    entropy,
                    r,
                    final(slate)@,
                    final(wallet)@,
                )
        }),
        consistent(old(wallet)@) ==> consistent(final(wallet)@),
{
    match wallet.refresh_outputs(parent_key_id) {
        Ok(_) => {},
        Err(e) => {
            return Err(e);
        },
    }
    let ghost w1 = wallet@;
    let strategy = SelectionStrategy::parse(&selection_strategy);
    let r = add_selected_inputs(
        wallet,
        slate,
        minimum_confirmations,
        max_outputs,
        num_change_outputs,
        strategy,
        parent_key_id,
        participant_id,
        message,
        is_initiator,
        entropy,
    );
    proof {
        let (chain, now) = choose|chain: Seq<ChainOutput>, now: i64|
            #![auto]
            w1 == refreshed(old(wallet)@, *parent_key_id, chain, now);
        assert(payer_step(
            refreshed(old(wallet)@, *parent_key_id, chain, now),
            old(slate)@,
            minimum_confirmations,
            max_outputs,
            num_change_outputs,
            strategy_of(selection_strategy@),
            *parent_key_id,
            participant_id,
            text_view(message),
            is_initiator,
            entropy,
            r,
            slate@,
            wallet@,
        ));
    }
    r
}

/// The payee's step at a given time: adds the payee's output to the slate,
/// records it and the transaction, and signs under `participant_id`: the
/// first round, and the second unless the payee is the initiator. Where it
/// fails, slate and records are as before.
pub fn add_output_to_slate_at<C: NodeClient>(
    wallet: &mut Wallet<C>,
    slate: &mut Slate,
    parent_key_id: &Identifier,
    participant_id: u64,
    message: Option<String>,
    is_initiator: bool,
    entropy: Entropy,
    now: i64,
) -> (r: Result<Context, ErrorKind>)
    ensures
        final(wallet).client == old(wallet).client,
        match payee_outcome(
            old(wallet)@,
            old(slate)@,
            *parent_key_id,
            participant_id,
            text_view(message),
            is_initiator,
            entropy,
            now,
        ) {
            Ok((s, c, w)) => r is Ok && r->Ok_0@ == c && final(slate)@ == s && final(wallet)@ == w,
            Err(e) => r == Err::<Context, ErrorKind>(e) && final(slate)@ == old(slate)@
                && final(wallet)@ == old(wallet)@,
        },
        consistent(old(wallet)@) ==> consistent(final(wallet)@),
{
    let mut draft = slate.clone();
    let mut context = match recipient_output(wallet, &mut draft, parent_key_id, entropy.nonce) {
        Ok(c) => c,
        Err(e) => {
            return Err(e);
        },
    };
    match sign_rounds(
        &mut draft,
        &mut context,
        participant_id,
        message,
        is_initiator,
        entropy.offset,
    ) {
        Ok(_) => {},
        Err(e) => {
            return Err(e);
        },
    }
    match record_received(wallet, slate, parent_key_id, now) {
        Ok(_) => {},
        Err(e) => {
            return Err(e);
        },
    }
    *slate = draft;
    Ok(context)
}

/// Adds the payee's output to the slate; the log entry gets the time of
/// the system clock.
pub fn add_output_to_slate<C: NodeClient>(
    wallet: &mut Wallet<C>,
    slate: &mut Slate,
    parent_key_id: &Identifier,
    participant_id: u64,
    message: Option<String>,
    is_initiator: bool,
    entropy: Entropy,
) -> (r: Result<Context, ErrorKind>)
    ensures
        final(wallet).client == old(wallet).client,
        exists|now: i64|
            match #[trigger] payee_outcome(
                old(wallet)@,
                old(slate)@,
                *parent_key_id,
                participant_id,
                text_view(message),
                is_initiator,
                entropy,
                now,
            ) {
                Ok((s, c, w)) => r is Ok && r->Ok_0@ == c && final(slate)@ == s && final(wallet)@
                    == w,
                Err(e) => r == Err::<Context, ErrorKind>(e) && final(slate)@ == old(slate)@
                    && final(wallet)@ == old(wallet)@,
            },
        consistent(old(wallet)@) ==> consistent(final(wallet)@),
{
    let now = now_millis();
    add_output_to_slate_at(
        wallet,
        slate,
        parent_key_id,
        participant_id,
        message,
        is_initiator,
        entropy,
        now,
    )
}

/// The slate after a party has completed it: the party's second round,
/// unless the party has signed already, and the finalization.
pub open spec fn completed_slate(s: SlateView, c: ContextView, participant_id: u64) -> Result<
    SlateView,
    ErrorKind,
> {
    let i = position(s.participant_data, participant_id);
    if i < s.participant_data.len() && s.participant_data[i].part_sig is Some {
        match finalize_error(s) {
            Some(e) => Err(e),
            None => Ok(finalized(s)),
        }
    } else {
        match round_two_error(s, participant_id) {
            Some(e) => Err(e),
            None => {
                let signed = after_round_two(s, c.sec_key, c.sec_nonce, participant_id);
                match finalize_error(signed) {
                    Some(e) => Err(e),
                    None => Ok(finalized(signed)),
                }
            },
        }
    }
}

/// The commitments of the outputs that the wallet holds for a slate and an
/// account, spent ones left out: the change of the payment.
pub open spec fn change_commits(w: WalletView, slate_id: u128, parent_key_id: Identifier) -> Seq<
    Point,
> {
    pick(
        w.outputs,
        matching_outputs(
            w.outputs,
            OutputQuery {
                show_spent: false,
                tx_id: None,
                slate_id: Some(slate_id),
                parent_key_id: Some(parent_key_id),
            },
        ),
    ).map_values(|o: OutputData| o.commit)
}

/// The positions of the outputs of a transaction that are not change: the
/// payments.
pub open spec fn payment_positions(outputs: Seq<Output>, changes: Seq<Point>) -> Seq<int> {
    indices_where(outputs, |o: Output| !changes.contains(o.commit))
}

/// The id of the first log entry of a slate and an account, if there is
/// one.
pub open spec fn entry_id(w: WalletView, slate_id: u128, parent_key_id: Identifier) -> Option<u32> {
    let found = indices_where(
        w.tx_log,
        |t: TxLogEntryView| t.tx_slate_id == Some(slate_id) && t.parent_key_id == parent_key_id,
    );
    if found.len() > 0 {
        Some(w.tx_log[found[0]].id)
    } else {
        None
    }
}

/// The payment records of a completed slate: one for each output that is
/// not change. A single payment has the amount of the slate; where there
/// are several, the share of each is not known and its value is 0.
pub open spec fn new_payments(w: WalletView, s: SlateView, parent_key_id: Identifier) -> Seq<
    PaymentData,
> {
    let paid = payment_positions(s.tx.outputs, change_commits(w, s.id, parent_key_id));
    paid.map_values(
        |i: int|
            PaymentData {
                commit: s.tx.outputs[i].commit,
                value: if paid.len() > 1 {
                    0
                } else {
                    s.amount
                },
                status: OutputStatus::Unconfirmed,
                height: s.height,
                lock_height: 0,
                slate_id: s.id,
                id: entry_id(w, s.id, parent_key_id),
            },
    )
}

/// The position of the record of a payment to a commitment with a slate,
/// or the number of records where there is none.
pub open spec fn payment_position(payments: Seq<PaymentData>, commit: Point, slate_id: u128) -> int
    decreases payments.len(),
{
    if payments.len() == 0 {
        0
    } else {
        let before = payment_position(payments.drop_last(), commit, slate_id);
        if before < payments.len() - 1 {
            before
        } else if payments.last().commit == commit && payments.last().slate_id == slate_id {
            payments.len() - 1
        } else {
            payments.len() as int
        }
    }
}

/// The payment records with one put in, in the place of the record of the
/// same commitment and slate, if there was one.
pub open spec fn with_payment(payments: Seq<PaymentData>, p: PaymentData) -> Seq<PaymentData> {
    let i = payment_position(payments, p.commit, p.slate_id);
    if i < payments.len() {
        payments.update(i, p)
    } else {
        payments.push(p)
    }
}

/// The payment records with several put in, one after the other.
pub open spec fn with_payments(payments: Seq<PaymentData>, fresh: Seq<PaymentData>) -> Seq<
    PaymentData,
>
    decreases fresh.len(),
{
    if fresh.len() == 0 {
        payments
    } else {
        with_payment(with_payments(payments, fresh.drop_last()), fresh.last())
    }
}

/// The records after the payments of a completed slate were recorded.
pub open spec fn with_new_payments(
    w: WalletView,
    s: SlateView,
    parent_key_id: Identifier,
) -> WalletView {
    WalletView { payments: with_payments(w.payments, new_payments(w, s, parent_key_id)), ..w }
}

pub(crate) proof fn lemma_payment_position(
    payments: Seq<PaymentData>,
    commit: Point,
    slate_id: u128,
    i: int,
)
    requires
        0 <= i <= payments.len(),
        forall|j: int|
            0 <= j < i ==> !((#[trigger] payments[j]).commit == commit && payments[j].slate_id
                == slate_id),
        i < payments.len() ==> payments[i].commit == commit && payments[i].slate_id == slate_id,
    ensures
        payment_position(payments, commit, slate_id) == i,
    decreases payments.len(),
{
    if payments.len() > 0 {
        let front = payments.drop_last();
        if i < payments.len() - 1 {
            lemma_payment_position(front, commit, slate_id, i);
        } else {
            lemma_payment_position(front, commit, slate_id, front.len() as int);
        }
    }
}

/// The position of the record of a payment is that of the first record of
/// its commitment and slate.
pub proof fn lemma_payment_position_first(
    payments: Seq<PaymentData>,
    commit: Point,
    slate_id: u128,
)
    ensures
        0 <= payment_position(payments, commit, slate_id) <= payments.len(),
        forall|j: int|
            0 <= j < payment_position(payments, commit, slate_id) ==> !((
            #[trigger] payments[j]).commit == commit && payments[j].slate_id == slate_id),
        payment_position(payments, commit, slate_id) < payments.len() ==> {
            let p = payments[payment_position(payments, commit, slate_id)];
            p.commit == commit && p.slate_id == slate_id
        },
    decreases payments.len(),
{
    if payments.len() > 0 {
        let front = payments.drop_last();
        let i = payment_position(payments, commit, slate_id);
        lemma_payment_position_first(front, commit, slate_id);
        assert forall|j: int| 0 <= j < i implies !((#[trigger] payments[j]).commit == commit
            && payments[j].slate_id == slate_id) by {
            if j < payments.len() - 1 {
                assert(front[j] == payments[j]);
            }
        }
        if i < payments.len() - 1 {
            assert(front[i] == payments[i]);
        }
    }
}

fn holds_commit(outputs: &Vec<OutputData>, commit: Point) -> (found: bool)
    ensures
        found == outputs@.map_values(|o: OutputData| o.commit).contains(commit),
{
    let ghost commits = outputs@.map_values(|o: OutputData| o.commit);
    let mut i: usize = 0;
    while i < outputs.len()
        invariant
            i <= outputs.len(),
            commits == outputs@.map_values(|o: OutputData| o.commit),
            forall|j: int| 0 <= j < i ==> (#[trigger] commits[j]) != commit,
        decreases outputs.len() - i,
    {
        if outputs[i].commit == commit {
            assert(commits[i as int] == commit);
            return true;
        }
        i = i + 1;
    }
    false
}

fn find_entry_id<C: NodeClient>(
    wallet: &Wallet<C>,
    slate_id: u128,
    parent_key_id: &Identifier,
) -> (r:
    Option<u32>)
    ensures
        r == entry_id(wallet@, slate_id, *parent_key_id),
{
    let ghost f = |t: TxLogEntryView|
        t.tx_slate_id == Some(slate_id) && t.parent_key_id == *parent_key_id;
    let mut i: usize = 0;
    while i < wallet.tx_log.len()
        invariant
            i <= wallet.tx_log.len(),
            f == (|t: TxLogEntryView|
                t.tx_slate_id == Some(slate_id) && t.parent_key_id == *parent_key_id),
            indices_where(wallet@.tx_log.subrange(0, i as int), f) == Seq::<int>::empty(),
        decreases wallet.tx_log.len() - i,
    {
        let t = &wallet.tx_log[i];
        assert(t@ == wallet@.tx_log[i as int]);
        if t.tx_slate_id == Some(slate_id) && t.parent_key_id == *parent_key_id {
            proof {
                lemma_first_index(wallet@.tx_log, f, i as int);
            }
            return Some(t.id);
        }
        proof {
            assert(wallet@.tx_log.subrange(0, i as int + 1) =~= wallet@.tx_log.subrange(
                0,
                i as int,
            ).push(wallet@.tx_log[i as int]));
            lemma_indices_where_push(
                wallet@.tx_log.subrange(0, i as int),
                f,
                wallet@.tx_log[i as int],
            );
        }
        i = i + 1;
    }
    proof {
        assert(wallet@.tx_log.subrange(0, i as int) =~= wallet@.tx_log);
    }
    None
}

/// Makes the party's second round, unless the party has signed already,
/// and finalizes the slate.
fn finish_slate(slate: &mut Slate, participant_id: u64, context: &Context) -> (r: Result<
    (),
    ErrorKind,
>)
    ensures
        match completed_slate(old(slate)@, context@, participant_id) {
            Ok(s) => r is Ok && final(slate)@ == s,
            Err(e) => r == Err::<(), ErrorKind>(e),
        },
{
    let i = slate.find_participant(participant_id);
    let signed = i < slate.participant_data.len() && slate.participant_data[i].part_sig.is_some();
    assert(i < slate.participant_data.len() ==> slate.participant_data@[i as int]@
        == slate@.participant_data[i as int]);
    if !signed {
        match slate.fill_round_2(&context.sec_key, &context.sec_nonce, participant_id) {
            Ok(_) => {},
            Err(e) => {
                return Err(e);
            },
        }
    }
    slate.finalize()
}

/// The positions of the outputs of the transaction of a slate that are not
/// change of the wallet.
fn find_payments<C: NodeClient>(
    wallet: &Wallet<C>,
    slate: &Slate,
    parent_key_id: &Identifier,
) -> (paid:
    Vec<usize>)
    ensures
        positions(paid@) == payment_positions(
            slate@.tx.outputs,
            change_commits(wallet@, slate@.id, *parent_key_id),
        ),
        forall|j: int| 0 <= j < paid@.len() ==> (#[trigger] paid@[j]) < slate.tx.body.outputs.len(),
{
    let changes = wallet.retrieve_outputs(false, None, Some(slate.id), Some(*parent_key_id));
    let ghost change_seq = change_commits(wallet@, slate@.id, *parent_key_id);
    assert(changes@.map_values(|o: OutputData| o.commit) == change_seq);
    let ghost f = |o: Output| !change_seq.contains(o.commit);
    let mut paid: Vec<usize> = Vec::new();
    let mut k: usize = 0;
    assert(positions(paid@) =~= indices_where(slate@.tx.outputs.subrange(0, 0), f));
    while k < slate.tx.body.outputs.len()
        invariant
            k <= slate.tx.body.outputs.len(),
            f == (|o: Output| !change_seq.contains(o.commit)),
            changes@.map_values(|o: OutputData| o.commit) == change_seq,
            positions(paid@) == indices_where(slate@.tx.outputs.subrange(0, k as int), f),
            forall|j: int| 0 <= j < paid@.len() ==> (#[trigger] paid@[j]) < k,
        decreases slate.tx.body.outputs.len() - k,
    {
        let ghost before = positions(paid@);
        proof {
            assert(slate@.tx.outputs.subrange(0, k as int + 1) =~= slate@.tx.outputs.subrange(
                0,
                k as int,
            ).push(slate@.tx.outputs[k as int]));
            lemma_indices_where_push(
                slate@.tx.outputs.subrange(0, k as int),
                f,
                slate@.tx.outputs[k as int],
            );
        }
        if !holds_commit(&changes, slate.tx.body.outputs[k].commit) {
            paid.push(k);
            assert(positions(paid@) =~= before.push(k as int));
        }
        k = k + 1;
    }
    assert(slate@.tx.outputs.subrange(0, k as int) =~= slate@.tx.outputs);
    paid
}

/// Puts a payment record in, in the place of the record of the same
/// commitment and slate, if there is one.
fn save_payment<C: NodeClient>(wallet: &mut Wallet<C>, p: PaymentData)
    ensures
        final(wallet).client == old(wallet).client,
        final(wallet)@ == (WalletView {
            payments: with_payment(old(wallet)@.payments, p),
            ..old(wallet)@
        }),
{
    let ghost before = wallet@.payments;
    let mut k: usize = 0;
    while k < wallet.payments.len()
        invariant
            k <= wallet.payments.len(),
            *wallet == *old(wallet),
            before == wallet.payments@,
            forall|j: int|
                0 <= j < k ==> !((#[trigger] before[j]).commit == p.commit && before[j].slate_id
                    == p.slate_id),
        decreases wallet.payments.len() - k,
    {
        if wallet.payments[k].commit == p.commit && wallet.payments[k].slate_id == p.slate_id {
            proof {
                lemma_payment_position(before, p.commit, p.slate_id, k as int);
            }
            wallet.payments[k] = p;
            assert(wallet@.payments =~= before.update(k as int, p));
            return ;
        }
        k = k + 1;
    }
    proof {
        lemma_payment_position(before, p.commit, p.slate_id, k as int);
    }
    wallet.payments.push(p);
    assert(wallet@.payments =~= before.push(p));
}

/// Records a payment for each output of the transaction of a slate that is
/// not change of the wallet. A record takes the place of the record of the
/// same commitment and slate, if there is one.
pub fn record_payments<C: NodeClient>(
    wallet: &mut Wallet<C>,
    slate: &Slate,
    parent_key_id: &Identifier,
)
    ensures
        final(wallet).client == old(wallet).client,
        final(wallet)@ == with_new_payments(old(wallet)@, slate@, *parent_key_id),
        consistent(old(wallet)@) ==> consistent(final(wallet)@),
{
    proof {
        lemma_consistent_depends(
            old(wallet)@,
            with_new_payments(old(wallet)@, slate@, *parent_key_id),
        );
    }
    let ghost w0 = wallet@;
    let paid = find_payments(wallet, slate, parent_key_id);
    let tx_id = find_entry_id(wallet, slate.id, parent_key_id);
    let value: u64 = if paid.len() > 1 {
        0
    } else {
        slate.amount
    };
    let ghost fresh = new_payments(w0, slate@, *parent_key_id);
    assert(fresh.len() == paid@.len());
    let mut n: usize = 0;
    assert(fresh.subrange(0, 0) =~= Seq::<PaymentData>::empty());
    while n < paid.len()
        invariant
            n <= paid.len(),
            fresh == new_payments(w0, slate@, *parent_key_id),
            fresh.len() == paid@.len(),
            positions(paid@) == payment_positions(
                slate@.tx.outputs,
                change_commits(w0, slate@.id, *parent_key_id),
            ),
            forall|j: int|
                0 <= j < paid@.len() ==> (#[trigger] paid@[j]) < slate.tx.body.outputs.len(),
            value == if paid@.len() > 1 {
                0
            } else {
                slate@.amount
            },
            tx_id == entry_id(w0, slate@.id, *parent_key_id),
            wallet@ == (WalletView { payments: wallet@.payments, ..w0 }),
            wallet@.payments == with_payments(w0.payments, fresh.subrange(0, n as int)),
            wallet.client == old(wallet).client,
        decreases paid.len() - n,
    {
        let at = paid[n];
        assert(positions(paid@)[n as int] == at as int);
        let p = PaymentData {
            commit: slate.tx.body.outputs[at].commit,
            value,
            status: OutputStatus::Unconfirmed,
            height: slate.height,
            lock_height: 0,
            slate_id: slate.id,
            id: tx_id,
        };
        assert(p == fresh[n as int]);
        assert(fresh.subrange(0, n as int + 1).drop_last() =~= fresh.subrange(0, n as int));
        assert(fresh.subrange(0, n as int + 1).last() == fresh[n as int]);
        save_payment(wallet, p);
        n = n + 1;
    }
    assert(fresh.subrange(0, n as int) =~= fresh);
}

/// Completes a transaction: makes the party's second round, unless the
/// party has signed already, finalizes the slate, and records a payment
/// for each output of the transaction that is not change of this wallet,
/// in the place of the record of the same commitment and slate where there
/// is one. Where it fails, slate and records are as before.
pub fn complete_tx<C: NodeClient>(
    wallet: &mut Wallet<C>,
    slate: &mut Slate,
    participant_id: u64,
    context: &Context,
) -> (r: Result<(), ErrorKind>)
    ensures
        final(wallet).client == old(wallet).client,
        match completed_slate(old(slate)@, context@, participant_id) {
            Ok(s) => {
                &&& r is Ok
                &&& final(slate)@ == s
                &&& final(wallet)@ == with_new_payments(old(wallet)@, s, context@.parent_key_id)
            },
            Err(e) => r == Err::<(), ErrorKind>(e) && final(slate)@ == old(slate)@ && final(wallet)@
                == old(wallet)@,
        },
        consistent(old(wallet)@) ==> consistent(final(wallet)@),
{
    let mut draft = slate.clone();
    match finish_slate(&mut draft, participant_id, context) {
        Ok(_) => {},
        Err(e) => {
            return Err(e);
        },
    }
    let parent_key_id = context.parent_key_id;
    record_payments(wallet, &draft, &parent_key_id);
    *slate = draft;
    Ok(())
}

/// No payment that `complete_tx` records is for a commitment that is
/// change of the wallet.
pub proof fn lemma_payments_are_not_change(
    w: WalletView,
    s: SlateView,
    parent_key_id: Identifier,
    k: int,
)
    requires
        0 <= k < new_payments(w, s, parent_key_id).len(),
    ensures
        !change_commits(w, s.id, parent_key_id).contains(
            new_payments(w, s, parent_key_id)[k].commit,
        ),
{
    let changes = change_commits(w, s.id, parent_key_id);
    lemma_indices_where_sound(s.tx.outputs, |o: Output| !changes.contains(o.commit));
}

} // verus!
