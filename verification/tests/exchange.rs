use std::cell::RefCell;
use std::collections::VecDeque;

use libwallet::command::loopback_send_tx_sync;
use libwallet::error::{ErrorKind, Violation};
use libwallet::group::{Point, Scalar};
use libwallet::ids::SlateIdSource;
use libwallet::keychain::{Identifier, Keychain};
use libwallet::ledger::{repost, PostReport};
use libwallet::selection::SelectionStrategy;
use libwallet::slate::{Slate, SlateStage};
use libwallet::transaction::{KernelFeatures, Transaction};
use libwallet::tx::{
    add_inputs_to_slate, add_output_to_slate, add_output_to_slate_at, cancel_tx, complete_tx,
    estimate_send_tx, new_tx_slate, update_message, update_stored_tx,
};
use libwallet::types::{Entropy, OutputData, OutputStatus, TxLogEntryType};
use libwallet::wallet::{ChainOutput, FeeSchedule, NodeClient, StoredProof, Wallet};

struct Node {
    height: Option<u64>,
    chain: RefCell<Vec<ChainOutput>>,
    posts: RefCell<VecDeque<bool>>,
    posted: RefCell<Vec<Transaction>>,
}

impl Node {
    fn at(height: u64) -> Node {
        Node {
            height: Some(height),
            chain: RefCell::new(Vec::new()),
            posts: RefCell::new(VecDeque::new()),
            posted: RefCell::new(Vec::new()),
        }
    }

    fn down() -> Node {
        Node {
            height: None,
            chain: RefCell::new(Vec::new()),
            posts: RefCell::new(VecDeque::new()),
            posted: RefCell::new(Vec::new()),
        }
    }

    fn answering(height: u64, posts: &[bool]) -> Node {
        let node = Node::at(height);
        node.posts.borrow_mut().extend(posts.iter().copied());
        node
    }
}

impl NodeClient for Node {
    fn get_chain_height(&self) -> Result<u64, ErrorKind> {
        self.height.ok_or(ErrorKind::NodeUnavailable)
    }

    fn get_outputs_from_node(&self, commits: &Vec<Point>) -> Result<Vec<ChainOutput>, ErrorKind> {
        if self.height.is_none() {
            return Err(ErrorKind::NodeUnavailable);
        }
        Ok(self.chain.borrow().iter().filter(|o| commits.contains(&o.commit)).copied().collect())
    }

    fn post_tx(&self, tx: &Transaction, _fluff: bool) -> Result<(), ErrorKind> {
        let ok = self.posts.borrow_mut().pop_front().unwrap_or(true);
        if ok {
            self.posted.borrow_mut().push(tx.clone());
            Ok(())
        } else {
            Err(ErrorKind::GenericError("refused".to_string()))
        }
    }

    fn get_kernel_height(&self, _excess: &Point) -> Result<Option<u64>, ErrorKind> {
        Ok(None)
    }
}

fn account() -> Identifier {
    Identifier::new(2, 0, 0, 0, 0)
}

fn flat_fee(fee: u64) -> FeeSchedule {
    FeeSchedule { base_fee: fee, output_fee: 0 }
}

fn wallet_with(node: Node, seed: u64, values: &[u64]) -> Wallet<Node> {
    let keychain = Keychain::from_seed(seed);
    let mut wallet = Wallet::new(node, keychain, account(), flat_fee(1));
    for value in values {
        let key_id = account().extend(wallet.next_child);
        wallet.client.chain.borrow_mut().push(ChainOutput {
            commit: keychain.commit(*value, &key_id),
            height: 1,
        });
        wallet.outputs.push(OutputData {
            root_key_id: account(),
            key_id,
            commit: keychain.commit(*value, &key_id),
            value: *value,
            status: OutputStatus::Unspent,
            height: 1,
            lock_height: 0,
            is_coinbase: false,
            tx_log_entry: None,
            slate_id: None,
        });
        wallet.next_child += 1;
    }
    wallet
}

fn entropy(nonce: u64, offset: u64) -> Entropy {
    Entropy { nonce: Scalar::new(nonce), offset: Scalar::new(offset) }
}

/// The payer makes a slate for 50, adds its inputs and makes its first round.
fn started(payer: &mut Wallet<Node>) -> (Slate, libwallet::types::Context) {
    let mut ids = SlateIdSource::Sequence { next: 0 };
    let mut slate = new_tx_slate(payer, 50, 2, &mut ids).unwrap();
    let context = add_inputs_to_slate(
        payer,
        &mut slate,
        1,
        500,
        1,
        "smallest".to_string(),
        &account(),
        0,
        None,
        true,
        entropy(1111, 77),
    )
    .unwrap();
    (slate, context)
}

#[test]
fn new_slate_takes_height_and_numbered_id() {
    let mut wallet = wallet_with(Node::at(10), 5, &[100]);
    let mut ids = SlateIdSource::Sequence { next: 3 };
    let slate = new_tx_slate(&mut wallet, 50, 2, &mut ids).unwrap();
    assert_eq!(slate.amount, 50);
    assert_eq!(slate.height, 10);
    assert_eq!(slate.lock_height, 0);
    assert_eq!(slate.num_participants, 2);
    assert_eq!(slate.version_info.block_header_version, 1);
    assert_eq!(slate.id, 0x0436430c_2b02624c_20325705_01212b03);
    assert_eq!(ids, SlateIdSource::Sequence { next: 4 });
    assert_eq!(slate.stage(), SlateStage::Created);
    assert_eq!(slate.tx.body.kernels.len(), 1);
}

#[test]
fn new_slate_above_the_first_fork_keeps_the_default_header_version() {
    let mut wallet = wallet_with(Node::at(262080), 5, &[100]);
    let mut ids = SlateIdSource::Sequence { next: 255 };
    let slate = new_tx_slate(&mut wallet, 1, 2, &mut ids).unwrap();
    assert_eq!(slate.version_info.block_header_version, 2);
    assert_eq!(ids, SlateIdSource::Sequence { next: 0 });
}

#[test]
fn new_slate_fails_when_the_node_is_down() {
    let mut wallet = wallet_with(Node::down(), 5, &[100]);
    let mut ids = SlateIdSource::Sequence { next: 3 };
    assert_eq!(new_tx_slate(&mut wallet, 50, 2, &mut ids), Err(ErrorKind::NodeUnavailable));
    assert_eq!(ids, SlateIdSource::Sequence { next: 3 });
}

#[test]
fn random_ids_are_version_four_uuids() {
    let mut ids = SlateIdSource::Random;
    let a = ids.next_id();
    let b = ids.next_id();
    assert_eq!((a >> 76) & 0xf, 4);
    assert_eq!((a >> 62) & 0x3, 2);
    assert_ne!(a, b);
}

#[test]
fn estimate_gives_total_and_fee() {
    let mut wallet = wallet_with(Node::at(10), 5, &[10, 20, 70]);
    let r = estimate_send_tx(&mut wallet, 15, 1, 500, 1, "smallest".to_string(), &account());
    assert_eq!(r, Ok((20, 1)));
    let r = estimate_send_tx(&mut wallet, 15, 1, 500, 1, "biggest".to_string(), &account());
    assert_eq!(r, Ok((70, 1)));
    let r = estimate_send_tx(&mut wallet, 15, 1, 500, 1, "all".to_string(), &account());
    assert_eq!(r, Ok((100, 1)));
    assert!(wallet.outputs.iter().all(|o| o.status == OutputStatus::Unspent));
    assert!(wallet.tx_log.is_empty());
}

#[test]
fn estimate_selects_on_what_the_chain_shows_and_changes_no_record() {
    let mut wallet = wallet_with(Node::at(10), 5, &[10, 20, 70]);
    // the wallet has not yet seen the first output confirmed, and the chain
    // no longer shows the second
    wallet.outputs[0].status = OutputStatus::Unconfirmed;
    wallet.outputs[0].height = 0;
    wallet.client.chain.borrow_mut().remove(1);
    let outputs = wallet.outputs.clone();
    let log = wallet.tx_log.clone();
    let r = estimate_send_tx(&mut wallet, 5, 1, 500, 1, "smallest".to_string(), &account());
    assert_eq!(r, Ok((10, 1)));
    let r = estimate_send_tx(&mut wallet, 5, 1, 500, 1, "all".to_string(), &account());
    assert_eq!(r, Ok((80, 1)));
    let r = estimate_send_tx(&mut wallet, 100, 1, 500, 1, "all".to_string(), &account());
    assert_eq!(r, Err(ErrorKind::NotEnoughFunds { available: 80, needed: 101 }));
    assert_eq!(wallet.outputs, outputs);
    assert_eq!(wallet.tx_log, log);
    assert_eq!(wallet.outputs[0].status, OutputStatus::Unconfirmed);
    assert_eq!(wallet.outputs[1].status, OutputStatus::Unspent);
    assert_eq!(wallet.next_child, 3);
}

#[test]
fn estimate_follows_the_height_and_the_outputs_that_the_chain_shows() {
    let wallet = wallet_with(Node::down(), 5, &[10, 20, 70]);
    let all = wallet.client.chain.borrow().clone();
    let run = |height: u64, confirmations: u64, chain: &Vec<ChainOutput>| {
        libwallet::tx::estimate_on_chain(
            &wallet,
            15,
            confirmations,
            500,
            1,
            SelectionStrategy::Smallest,
            &account(),
            height,
            chain,
        )
    };
    assert_eq!(run(10, 1, &all), Ok((20, 1)));
    // without the output of 20 the next that covers is that of 70
    let fewer = vec![all[0], all[2]];
    assert_eq!(run(10, 1, &fewer), Ok((70, 1)));
    // nothing is deep enough at height 1 with two confirmations
    assert_eq!(run(1, 2, &all), Err(ErrorKind::NotEnoughFunds { available: 0, needed: 16 }));
    assert_eq!(run(10, 1, &Vec::new()), Err(ErrorKind::NotEnoughFunds { available: 0, needed: 16 }));
}

#[test]
fn estimate_fails_when_the_node_is_down() {
    let mut wallet = wallet_with(Node::down(), 5, &[10, 20, 70]);
    let r = estimate_send_tx(&mut wallet, 15, 1, 500, 1, "smallest".to_string(), &account());
    assert_eq!(r, Err(ErrorKind::NodeUnavailable));
}

#[test]
fn estimate_reports_missing_funds() {
    let mut wallet = wallet_with(Node::at(10), 5, &[10, 20]);
    let r = estimate_send_tx(&mut wallet, 40, 1, 500, 1, "smallest".to_string(), &account());
    assert_eq!(r, Err(ErrorKind::NotEnoughFunds { available: 30, needed: 41 }));
}

#[test]
fn payer_adds_inputs_change_and_first_round() {
    let mut payer = wallet_with(Node::at(10), 5, &[10, 100]);
    let (slate, context) = started(&mut payer);
    // the output of 100 is the smallest that covers 50 + 1
    assert_eq!(slate.fee, 1);
    assert_eq!(slate.tx.body.inputs.len(), 1);
    assert_eq!(slate.tx.body.inputs[0].commit, payer.outputs[1].commit);
    assert_eq!(slate.tx.body.outputs.len(), 1);
    let change_key = account().extend(2);
    assert_eq!(slate.tx.body.outputs[0].commit, payer.keychain.commit(49, &change_key));
    assert_eq!(context.input_ids.len(), 1);
    assert_eq!(context.input_ids[0].value, 100);
    assert_eq!(context.output_ids.len(), 1);
    assert_eq!(context.output_ids[0].value, 49);
    assert_eq!(context.output_ids[0].key_id, change_key);
    assert_eq!(context.fee, 1);
    assert_eq!(context.input_commits, vec![slate.tx.body.inputs[0].commit]);
    assert_eq!(context.output_commits, vec![slate.tx.body.outputs[0].commit]);
    assert_eq!(payer.next_child, 3);
    // first round: the offset is set and taken off the key
    assert_eq!(slate.tx.offset, Scalar::new(77));
    assert_eq!(slate.participant_data.len(), 1);
    let p = &slate.participant_data[0];
    assert_eq!(p.id, 0);
    assert_eq!(p.public_blind_excess, context.sec_key.public());
    assert_eq!(p.public_nonce, Scalar::new(1111).public());
    assert_eq!(p.part_sig, None);
    let blind = payer.keychain.derive_key(&change_key).minus(
        payer.keychain.derive_key(&payer.outputs[1].key_id),
    );
    assert_eq!(context.sec_key, blind.minus(Scalar::new(77)));
    assert_eq!(slate.stage(), SlateStage::Created);
    // nothing is locked yet
    assert!(payer.outputs.iter().all(|o| o.status == OutputStatus::Unspent));
}

#[test]
fn payer_step_fails_without_funds_and_leaves_the_slate() {
    let mut payer = wallet_with(Node::at(10), 5, &[10, 20]);
    let mut ids = SlateIdSource::Sequence { next: 0 };
    let mut slate = new_tx_slate(&mut payer, 50, 2, &mut ids).unwrap();
    let before = slate.clone();
    let r = add_inputs_to_slate(
        &mut payer,
        &mut slate,
        1,
        500,
        1,
        "smallest".to_string(),
        &account(),
        0,
        None,
        true,
        entropy(1, 2),
    );
    assert_eq!(r, Err(ErrorKind::NotEnoughFunds { available: 30, needed: 51 }));
    assert_eq!(slate, before);
    assert_eq!(payer.next_child, 2);
}

#[test]
fn two_wallets_complete_a_payment_of_fifty() {
    let mut payer = wallet_with(Node::at(10), 5, &[10, 100]);
    let mut payee = wallet_with(Node::at(10), 9, &[]);
    let (mut slate, context) = started(&mut payer);
    payer.lock_outputs_at(&slate, &context, 1000).unwrap();
    assert_eq!(payer.outputs[1].status, OutputStatus::Locked);
    assert_eq!(payer.outputs[1].tx_log_entry, Some(0));
    assert_eq!(payer.outputs[0].status, OutputStatus::Unspent);
    // the change is recorded
    assert_eq!(payer.outputs.len(), 3);
    assert_eq!(payer.outputs[2].value, 49);
    assert_eq!(payer.outputs[2].status, OutputStatus::Unconfirmed);
    assert_eq!(payer.outputs[2].slate_id, Some(slate.id));
    assert_eq!(payer.tx_log.len(), 1);
    let entry = &payer.tx_log[0];
    assert_eq!(entry.tx_type, TxLogEntryType::TxSent);
    assert_eq!(entry.id, 0);
    assert_eq!(entry.tx_slate_id, Some(slate.id));
    assert_eq!(entry.num_inputs, 1);
    assert_eq!(entry.amount_debited, 100);
    assert_eq!(entry.num_outputs, 1);
    assert_eq!(entry.amount_credited, 49);
    assert_eq!(entry.fee, Some(1));
    assert_eq!(entry.creation_ts, 1000);
    assert_eq!(entry.stored_tx, Some(slate.id));
    assert_eq!(payer.stored_txs.len(), 1);

    let payee_context = add_output_to_slate_at(
        &mut payee,
        &mut slate,
        &account(),
        1,
        Some("thanks".to_string()),
        false,
        entropy(2222, 99),
        2000,
    )
    .unwrap();
    assert_eq!(slate.tx.body.outputs.len(), 2);
    assert_eq!(slate.tx.body.outputs[1].commit, payee.keychain.commit(50, &account().extend(0)));
    assert_eq!(slate.tx.offset, Scalar::new(77));
    assert_eq!(slate.participant_data.len(), 2);
    assert!(slate.participant_data[1].part_sig.is_some());
    assert_eq!(slate.participant_data[1].message, Some("thanks".to_string()));
    assert!(slate.verify_messages().is_ok());
    assert_eq!(slate.stage(), SlateStage::Round1Done);
    assert_eq!(payee_context.sec_key, payee.keychain.derive_key(&account().extend(0)));
    assert_eq!(payee.outputs.len(), 1);
    assert_eq!(payee.outputs[0].value, 50);
    assert_eq!(payee.outputs[0].status, OutputStatus::Unconfirmed);
    assert_eq!(payee.tx_log.len(), 1);
    assert_eq!(payee.tx_log[0].tx_type, TxLogEntryType::TxReceived);
    assert_eq!(payee.tx_log[0].amount_credited, 50);
    assert_eq!(payee.tx_log[0].creation_ts, 2000);

    complete_tx(&mut payer, &mut slate, 0, &context).unwrap();
    assert_eq!(slate.stage(), SlateStage::Finalized);
    let kernel = slate.tx.body.kernels[0];
    assert!(kernel.verify());
    assert_eq!(kernel.features, KernelFeatures::Plain);
    assert_eq!(kernel.fee, 1);
    assert_eq!(kernel.excess, slate.tx.excess(1));
    assert_eq!(kernel.excess, slate.pub_blind_sum());
    // one payment, for the payee's output, of the whole amount
    assert_eq!(payer.payments.len(), 1);
    assert_eq!(payer.payments[0].commit, slate.tx.body.outputs[1].commit);
    assert_eq!(payer.payments[0].value, 50);
    assert_eq!(payer.payments[0].status, OutputStatus::Unconfirmed);
    assert_eq!(payer.payments[0].slate_id, slate.id);
    assert_eq!(payer.payments[0].id, Some(0));
    assert_eq!(payer.payments[0].height, 10);
}

#[test]
fn loopback_exchange_gives_the_kernel_of_a_direct_exchange() {
    let mut payer = wallet_with(Node::at(10), 5, &[10, 100]);
    let mut payee = wallet_with(Node::at(10), 9, &[]);
    let (slate, context) = started(&mut payer);

    // through the loopback transport
    let mut carried = loopback_send_tx_sync(&slate);
    let mut payee_a = wallet_with(Node::at(10), 9, &[]);
    add_output_to_slate_at(&mut payee_a, &mut carried, &account(), 1, None, false, entropy(2, 9), 5)
        .unwrap();
    let mut carried_back = loopback_send_tx_sync(&carried);
    let mut payer_a = wallet_with(Node::at(10), 5, &[10, 100]);
    complete_tx(&mut payer_a, &mut carried_back, 0, &context).unwrap();

    // without any hop
    let mut direct = slate;
    add_output_to_slate_at(&mut payee, &mut direct, &account(), 1, None, false, entropy(2, 9), 5)
        .unwrap();
    complete_tx(&mut payer, &mut direct, 0, &context).unwrap();

    assert_eq!(carried_back.amount, 50);
    assert_eq!(carried_back.tx.body.kernels[0].excess, direct.tx.body.kernels[0].excess);
    assert_eq!(carried_back.tx.body.kernels[0], direct.tx.body.kernels[0]);
    assert_eq!(carried_back, direct);
}

#[test]
fn payee_uses_the_clock_for_the_log_entry() {
    let mut payer = wallet_with(Node::at(10), 5, &[100]);
    let mut payee = wallet_with(Node::at(10), 9, &[]);
    let (mut slate, _) = started(&mut payer);
    add_output_to_slate(&mut payee, &mut slate, &account(), 1, None, false, entropy(2, 9)).unwrap();
    // after 2020 and before 2100, in milliseconds
    assert!(payee.tx_log[0].creation_ts > 1_577_836_800_000);
    assert!(payee.tx_log[0].creation_ts < 4_102_444_800_000);
}

#[test]
fn complete_fails_while_the_payee_has_not_signed() {
    let mut payer = wallet_with(Node::at(10), 5, &[100]);
    let mut payee = wallet_with(Node::at(10), 9, &[]);
    let (mut slate, context) = started(&mut payer);
    // the payee takes part as an initiator would: first round only
    add_output_to_slate_at(&mut payee, &mut slate, &account(), 1, None, true, entropy(2, 9), 5)
        .unwrap();
    let before = slate.clone();
    let r = complete_tx(&mut payer, &mut slate, 0, &context);
    assert_eq!(r, Err(ErrorKind::ProtocolViolation(Violation::MissingRoundTwo)));
    assert_eq!(slate, before);
    assert!(payer.payments.is_empty());
}

#[test]
fn complete_fails_before_the_payee_has_joined() {
    let mut payer = wallet_with(Node::at(10), 5, &[100]);
    let (mut slate, context) = started(&mut payer);
    let r = complete_tx(&mut payer, &mut slate, 0, &context);
    assert_eq!(r, Err(ErrorKind::ProtocolViolation(Violation::MissingRoundOne)));
}

#[test]
fn complete_fails_on_a_forged_partial_signature() {
    let mut payer = wallet_with(Node::at(10), 5, &[100]);
    let mut payee = wallet_with(Node::at(10), 9, &[]);
    let (mut slate, context) = started(&mut payer);
    add_output_to_slate_at(&mut payee, &mut slate, &account(), 1, None, false, entropy(2, 9), 5)
        .unwrap();
    let mut sig = slate.participant_data[1].part_sig.unwrap();
    sig.s = sig.s.plus(Scalar::new(1));
    slate.participant_data[1].part_sig = Some(sig);
    let r = complete_tx(&mut payer, &mut slate, 0, &context);
    assert_eq!(r, Err(ErrorKind::InvalidSignature));
    assert!(payer.payments.is_empty());
}

#[test]
fn complete_fails_when_the_amounts_do_not_balance() {
    let mut payer = wallet_with(Node::at(10), 5, &[100]);
    let mut payee = wallet_with(Node::at(10), 9, &[]);
    let (mut slate, context) = started(&mut payer);
    add_output_to_slate_at(&mut payee, &mut slate, &account(), 1, None, false, entropy(2, 9), 5)
        .unwrap();
    // somebody adds an output that nobody has signed for
    slate.tx.body.outputs.push(libwallet::builder::output(
        &payee.keychain,
        5,
        &account().extend(7),
    ));
    let r = complete_tx(&mut payer, &mut slate, 0, &context);
    assert_eq!(r, Err(ErrorKind::InvalidSignature));
}

#[test]
fn payee_publishes_and_signs_under_the_given_id() {
    let mut payer = wallet_with(Node::at(10), 5, &[100]);
    let mut payee = wallet_with(Node::at(10), 9, &[]);
    let (mut slate, _) = started(&mut payer);
    let r = add_output_to_slate_at(&mut payee, &mut slate, &account(), 5, None, false, entropy(2, 9), 5);
    assert!(r.is_ok());
    assert_eq!(slate.participant_data.len(), 2);
    assert_eq!(slate.participant_data[0].id, 0);
    assert_eq!(slate.participant_data[1].id, 5);
    assert!(slate.participant_data[1].part_sig.is_some());
    assert!(slate.participant_data.iter().all(|p| p.id != 1));
    assert_eq!(payee.outputs.len(), 1);
    assert_eq!(payee.tx_log.len(), 1);
}

#[test]
fn payee_beyond_the_number_of_participants_is_refused_and_undone() {
    let mut payer = wallet_with(Node::at(10), 5, &[100]);
    let mut first = wallet_with(Node::at(10), 8, &[]);
    let mut payee = wallet_with(Node::at(10), 9, &[]);
    let (mut slate, _) = started(&mut payer);
    add_output_to_slate_at(&mut first, &mut slate, &account(), 1, None, false, entropy(2, 9), 5)
        .unwrap();
    let before = slate.clone();
    // both places are taken: a third party cannot publish
    let r = add_output_to_slate_at(&mut payee, &mut slate, &account(), 2, None, false, entropy(3, 7), 5);
    assert_eq!(r, Err(ErrorKind::ProtocolViolation(Violation::TooManyParticipants)));
    assert_eq!(slate, before);
    assert!(payee.outputs.is_empty());
    assert!(payee.tx_log.is_empty());
    assert_eq!(payee.next_child, 0);
    assert_eq!(payee.next_tx_log_id, 0);
}

#[test]
fn two_runs_from_equal_records_select_alike() {
    for strategy in ["smallest", "biggest", "all"] {
        for amount in [5u64, 15, 60, 99, 500] {
            let mut one = wallet_with(Node::at(10), 5, &[10, 20, 70]);
            let mut two = wallet_with(Node::at(10), 5, &[10, 20, 70]);
            let mut ids = SlateIdSource::Sequence { next: 0 };
            let blank = new_tx_slate(&mut one, amount, 2, &mut ids).unwrap();
            let mut first = blank.clone();
            let mut second = blank.clone();
            let a = add_inputs_to_slate(
                &mut one,
                &mut first,
                1,
                500,
                1,
                strategy.to_string(),
                &account(),
                0,
                None,
                true,
                entropy(3, 4),
            );
            let b = add_inputs_to_slate(
                &mut two,
                &mut second,
                1,
                500,
                1,
                strategy.to_string(),
                &account(),
                0,
                None,
                true,
                entropy(3, 4),
            );
            assert_eq!(a, b);
            assert_eq!(first, second);
            assert_eq!(one.outputs, two.outputs);
            assert_eq!(one.tx_log, two.tx_log);
            assert_eq!(one.next_child, two.next_child);
            assert_eq!(a.is_ok(), amount < 100);
        }
    }
}

#[test]
fn completing_twice_records_the_payment_once() {
    let mut payer = wallet_with(Node::at(10), 5, &[100]);
    let mut payee = wallet_with(Node::at(10), 9, &[]);
    let (mut slate, context) = started(&mut payer);
    payer.lock_outputs_at(&slate, &context, 1000).unwrap();
    add_output_to_slate_at(&mut payee, &mut slate, &account(), 1, None, false, entropy(2, 9), 5)
        .unwrap();
    complete_tx(&mut payer, &mut slate, 0, &context).unwrap();
    let completed = slate.clone();
    let payments = payer.payments.clone();
    assert_eq!(payments.len(), 1);
    complete_tx(&mut payer, &mut slate, 0, &context).unwrap();
    assert_eq!(slate, completed);
    assert_eq!(payer.payments, payments);
}

#[test]
fn a_payment_record_takes_the_place_of_the_one_for_its_commitment_and_slate() {
    let mut payer = wallet_with(Node::at(10), 5, &[100]);
    let (mut slate, context) = started(&mut payer);
    payer.lock_outputs_at(&slate, &context, 1).unwrap();
    let first = libwallet::builder::output(&Keychain::from_seed(1), 20, &account());
    let second = libwallet::builder::output(&Keychain::from_seed(2), 30, &account());
    slate.tx.body.outputs.push(first);
    libwallet::tx::record_payments(&mut payer, &slate, &account());
    assert_eq!(payer.payments.len(), 1);
    assert_eq!(payer.payments[0].commit, first.commit);
    assert_eq!(payer.payments[0].value, 50);
    // the record of another slate for the same commitment stays
    let mut other = payer.payments[0];
    other.slate_id = slate.id + 1;
    other.value = 7;
    payer.payments.insert(0, other);
    // with a second payment the share of each is unknown
    slate.tx.body.outputs.push(second);
    libwallet::tx::record_payments(&mut payer, &slate, &account());
    assert_eq!(payer.payments.len(), 3);
    assert_eq!(payer.payments[0], other);
    assert_eq!(payer.payments[1].commit, first.commit);
    assert_eq!(payer.payments[1].slate_id, slate.id);
    assert_eq!(payer.payments[1].value, 0);
    assert_eq!(payer.payments[2].commit, second.commit);
    assert_eq!(payer.payments[2].value, 0);
}

#[test]
fn several_payment_outputs_are_recorded_with_value_zero() {
    let mut payer = wallet_with(Node::at(10), 5, &[100]);
    let (mut slate, context) = started(&mut payer);
    payer.lock_outputs_at(&slate, &context, 1).unwrap();
    // two outputs that are not change of the payer
    slate.tx.body.outputs.push(libwallet::builder::output(&Keychain::from_seed(1), 20, &account()));
    slate.tx.body.outputs.push(libwallet::builder::output(&Keychain::from_seed(2), 30, &account()));
    libwallet::tx::record_payments(&mut payer, &slate, &account());
    assert_eq!(payer.payments.len(), 2);
    assert_eq!(payer.payments[0].value, 0);
    assert_eq!(payer.payments[1].value, 0);
    assert_eq!(payer.payments[0].commit, slate.tx.body.outputs[1].commit);
    assert_eq!(payer.payments[1].commit, slate.tx.body.outputs[2].commit);
    // the change is no payment
    let change = payer.outputs[1].commit;
    assert!(payer.payments.iter().all(|p| p.commit != change));
}

#[test]
fn locking_twice_changes_nothing() {
    let mut payer = wallet_with(Node::at(10), 5, &[10, 100]);
    let (slate, context) = started(&mut payer);
    payer.lock_outputs_at(&slate, &context, 1000).unwrap();
    let outputs = payer.outputs.clone();
    let log_len = payer.tx_log.len();
    let stored = payer.stored_txs.len();
    let next = payer.next_tx_log_id;
    payer.lock_outputs_at(&slate, &context, 2000).unwrap();
    payer.lock_outputs(&slate, &context).unwrap();
    assert_eq!(payer.outputs, outputs);
    assert_eq!(payer.tx_log.len(), log_len);
    assert_eq!(payer.tx_log[0].creation_ts, 1000);
    assert_eq!(payer.stored_txs.len(), stored);
    assert_eq!(payer.next_tx_log_id, next);
}

#[test]
fn locking_fails_when_an_input_is_not_free() {
    let mut payer = wallet_with(Node::at(10), 5, &[100]);
    let (slate, context) = started(&mut payer);
    payer.outputs[0].status = OutputStatus::Locked;
    let before = payer.outputs.clone();
    assert_eq!(payer.lock_outputs_at(&slate, &context, 1), Err(ErrorKind::InputUnavailable));
    assert_eq!(payer.outputs, before);
    assert!(payer.tx_log.is_empty());
}

#[test]
fn locking_fails_when_the_log_is_full() {
    let mut payer = wallet_with(Node::at(10), 5, &[100]);
    let (slate, context) = started(&mut payer);
    payer.next_tx_log_id = u32::MAX;
    assert_eq!(payer.lock_outputs_at(&slate, &context, 1), Err(ErrorKind::IndexExhausted));
}

#[test]
fn cancel_frees_the_inputs_and_cancels_the_payments() {
    let mut payer = wallet_with(Node::at(10), 5, &[10, 100]);
    let mut payee = wallet_with(Node::at(10), 9, &[]);
    let (mut slate, context) = started(&mut payer);
    payer.lock_outputs_at(&slate, &context, 1000).unwrap();
    add_output_to_slate_at(&mut payee, &mut slate, &account(), 1, None, false, entropy(2, 9), 5)
        .unwrap();
    complete_tx(&mut payer, &mut slate, 0, &context).unwrap();
    assert_eq!(payer.payments[0].status, OutputStatus::Unconfirmed);

    cancel_tx(&mut payer, &account(), None, Some(slate.id)).unwrap();
    assert_eq!(payer.tx_log[0].tx_type, TxLogEntryType::TxSentCancelled);
    assert_eq!(payer.outputs[1].status, OutputStatus::Unspent);
    assert_eq!(payer.outputs[2].status, OutputStatus::Cancelled);
    assert_eq!(payer.outputs[0].status, OutputStatus::Unspent);
    assert!(payer.outputs.iter().all(|o| o.status != OutputStatus::Locked));
    assert!(payer.payments.iter().all(|p| p.status == OutputStatus::Cancelled));

    // a second cancellation finds nothing to cancel
    let again = cancel_tx(&mut payer, &account(), Some(0), None);
    assert_eq!(again, Err(ErrorKind::TransactionNotCancellable("0".to_string())));
}

#[test]
fn cancel_of_a_received_transaction_gives_up_its_output() {
    let mut payer = wallet_with(Node::at(10), 5, &[100]);
    let mut payee = wallet_with(Node::at(10), 9, &[]);
    let (mut slate, _) = started(&mut payer);
    add_output_to_slate_at(&mut payee, &mut slate, &account(), 1, None, false, entropy(2, 9), 5)
        .unwrap();
    cancel_tx(&mut payee, &account(), Some(0), None).unwrap();
    assert_eq!(payee.tx_log[0].tx_type, TxLogEntryType::TxReceivedCancelled);
    assert_eq!(payee.outputs[0].status, OutputStatus::Cancelled);
}

#[test]
fn cancel_refuses_confirmed_and_posted_transactions() {
    let mut payer = wallet_with(Node::at(10), 5, &[100]);
    let (slate, context) = started(&mut payer);
    payer.lock_outputs_at(&slate, &context, 1000).unwrap();
    let text = "0436430c-2b02-624c-2032-570501212b00".to_string();

    payer.tx_log[0].confirmed = true;
    let r = cancel_tx(&mut payer, &account(), None, Some(slate.id));
    assert_eq!(r, Err(ErrorKind::TransactionNotCancellable(text.clone())));
    assert_eq!(payer.outputs[0].status, OutputStatus::Locked);

    payer.tx_log[0].confirmed = false;
    payer.tx_log[0].posted = Some(true);
    let r = cancel_tx(&mut payer, &account(), None, Some(slate.id));
    assert_eq!(r, Err(ErrorKind::TransactionNotCancellable(text)));
    assert_eq!(payer.outputs[0].status, OutputStatus::Locked);
    assert_eq!(payer.tx_log[0].tx_type, TxLogEntryType::TxSent);

    payer.tx_log[0].posted = Some(false);
    assert_eq!(cancel_tx(&mut payer, &account(), Some(0), None), Ok(()));
}

#[test]
fn cancel_needs_exactly_one_match() {
    let mut payer = wallet_with(Node::at(10), 5, &[100]);
    let r = cancel_tx(&mut payer, &account(), Some(7), None);
    assert_eq!(r, Err(ErrorKind::TransactionDoesntExist("7".to_string())));
    let r = cancel_tx(&mut payer, &account(), None, Some(0x936DA01F9ABD4D9D80C702AF85C822A8));
    assert_eq!(
        r,
        Err(ErrorKind::TransactionDoesntExist("936da01f-9abd-4d9d-80c7-02af85c822a8".to_string()))
    );
    let (slate, context) = started(&mut payer);
    payer.lock_outputs_at(&slate, &context, 1000).unwrap();
    // two entries, a reference that names both
    let copy = payer.tx_log[0].clone();
    payer.tx_log.push(copy);
    let r = cancel_tx(&mut payer, &account(), None, None);
    assert_eq!(r, Err(ErrorKind::TransactionDoesntExist(String::new())));
    // another account has no such transaction
    let other = Identifier::new(2, 1, 0, 0, 0);
    let r = cancel_tx(&mut payer, &other, Some(0), Some(slate.id));
    assert_eq!(r, Err(ErrorKind::TransactionDoesntExist("0".to_string())));
}

#[test]
fn stored_body_and_messages_follow_the_finalized_slate() {
    let mut payer = wallet_with(Node::at(10), 5, &[100]);
    let mut payee = wallet_with(Node::at(10), 9, &[]);
    let (mut slate, context) = started(&mut payer);
    payer.lock_outputs_at(&slate, &context, 1000).unwrap();
    add_output_to_slate_at(
        &mut payee,
        &mut slate,
        &account(),
        1,
        Some("hello".to_string()),
        false,
        entropy(2, 9),
        5,
    )
    .unwrap();
    complete_tx(&mut payer, &mut slate, 0, &context).unwrap();

    let proof = libwallet::payment_proof::TxProof::from_slate(&slate).unwrap();
    update_stored_tx(&mut payer, &slate, Some(proof.clone()), false).unwrap();
    assert_eq!(payer.stored_txs.len(), 1);
    assert_eq!(payer.stored_txs[0].tx, slate.tx);
    assert_eq!(payer.stored_proofs, vec![StoredProof { slate_id: slate.id, proof }]);
    assert_eq!(payer.tx_log[0].stored_proof, Some(slate.id));

    update_message(&mut payer, &slate, Some(42)).unwrap();
    let entry = &payer.tx_log[0];
    assert_eq!(entry.grinrelay_key_path, Some(42));
    assert_eq!(entry.kernel_excess, Some(slate.tx.body.kernels[0].excess));
    let messages = entry.messages.as_ref().unwrap();
    assert_eq!(messages.len(), 2);
    assert_eq!(messages[1].id, 1);
    assert_eq!(messages[1].message, Some("hello".to_string()));
    assert_eq!(messages[1].public_key, slate.participant_data[1].public_blind_excess);

    // the payee has no sent transaction of the slate, but a received one
    let text = "0436430c-2b02-624c-2032-570501212b00".to_string();
    let r = update_stored_tx(&mut payee, &slate, None, false);
    assert_eq!(r, Err(ErrorKind::TransactionDoesntExist(text.clone())));
    assert_eq!(update_stored_tx(&mut payee, &slate, None, true), Ok(()));
    assert_eq!(payee.stored_txs.len(), 1);
    assert_eq!(payee.tx_log[0].stored_tx, Some(slate.id));

    let mut stranger = wallet_with(Node::at(10), 3, &[]);
    let r = update_message(&mut stranger, &slate, None);
    assert_eq!(r, Err(ErrorKind::TransactionDoesntExist(text)));
}

#[test]
fn post_marks_the_transaction() {
    let mut payer = wallet_with(Node::answering(10, &[true]), 5, &[100]);
    let (slate, context) = started(&mut payer);
    payer.lock_outputs_at(&slate, &context, 1000).unwrap();
    assert_eq!(payer.post_tx(slate.id, &slate.tx, false), Ok(()));
    assert_eq!(payer.tx_log[0].posted, Some(true));
    assert_eq!(payer.client.posted.borrow().len(), 1);
}

fn with_an_older_unconfirmed_transaction(node: Node) -> (Wallet<Node>, Slate, Slate) {
    let mut payer = wallet_with(node, 5, &[100, 200]);
    let mut ids = SlateIdSource::Sequence { next: 0 };
    let mut older = new_tx_slate(&mut payer, 50, 2, &mut ids).unwrap();
    let c1 = add_inputs_to_slate(
        &mut payer,
        &mut older,
        1,
        500,
        1,
        "smallest".to_string(),
        &account(),
        0,
        None,
        true,
        entropy(1, 2),
    )
    .unwrap();
    payer.lock_outputs_at(&older, &c1, 1000).unwrap();
    let mut current = new_tx_slate(&mut payer, 60, 2, &mut ids).unwrap();
    let c2 = add_inputs_to_slate(
        &mut payer,
        &mut current,
        0,
        500,
        1,
        "smallest".to_string(),
        &account(),
        0,
        None,
        true,
        entropy(3, 4),
    )
    .unwrap();
    payer.lock_outputs_at(&current, &c2, 2000).unwrap();
    (payer, older, current)
}

fn active_entries(wallet: &Wallet<Node>, slate_id: u128) -> usize {
    wallet
        .tx_log
        .iter()
        .filter(|t| {
            t.tx_slate_id == Some(slate_id)
                && t.tx_type != TxLogEntryType::TxSentCancelled
                && t.tx_type != TxLogEntryType::TxReceivedCancelled
        })
        .count()
}

#[test]
fn post_after_a_repost_leaves_one_active_entry() {
    // the node refuses, takes the older transaction, then takes the current one
    let node = Node::answering(10, &[false, true, true]);
    let (mut payer, older, current) = with_an_older_unconfirmed_transaction(node);
    assert_eq!(payer.post_tx(current.id, &current.tx, false), Ok(()));
    assert_eq!(active_entries(&payer, current.id), 1);
    assert_eq!(payer.tx_log[1].posted, Some(true));
    assert_eq!(payer.tx_log[0].posted, Some(true));
    assert_eq!(payer.tx_log[1].tx_type, TxLogEntryType::TxSent);
    let posted = payer.client.posted.borrow();
    assert_eq!(posted.len(), 2);
    assert_eq!(posted[0], older.tx);
    assert_eq!(posted[1], current.tx);
}

#[test]
fn post_rolls_back_when_the_retry_fails() {
    let node = Node::answering(10, &[false, true, false, true]);
    let (mut payer, _older, current) = with_an_older_unconfirmed_transaction(node);
    let r = payer.post_tx(current.id, &current.tx, false);
    assert_eq!(r, Err(ErrorKind::NodeUnavailable));
    assert_eq!(active_entries(&payer, current.id), 0);
    assert_eq!(payer.tx_log[1].tx_type, TxLogEntryType::TxSentCancelled);
    assert_eq!(payer.outputs[1].status, OutputStatus::Unspent);
    // no third attempt was made
    assert_eq!(payer.client.posts.borrow().len(), 1);
}

#[test]
fn post_is_tried_again_when_the_repost_fails() {
    // the node refuses the transaction and the older one, then takes the second try
    let node = Node::answering(10, &[false, false, true]);
    let (mut payer, older, current) = with_an_older_unconfirmed_transaction(node);
    assert_eq!(payer.post_tx(current.id, &current.tx, false), Ok(()));
    assert_eq!(payer.tx_log[1].tx_type, TxLogEntryType::TxSent);
    assert_eq!(payer.tx_log[1].posted, Some(true));
    assert_eq!(payer.tx_log[0].posted, None);
    assert_eq!(active_entries(&payer, current.id), 1);
    assert_eq!(active_entries(&payer, older.id), 1);
    assert!(payer.client.posts.borrow().is_empty());
    assert_eq!(*payer.client.posted.borrow(), vec![current.tx.clone()]);
}

#[test]
fn post_rolls_back_when_the_repost_and_the_retry_fail() {
    let node = Node::answering(10, &[false, false, false, true]);
    let (mut payer, _older, current) = with_an_older_unconfirmed_transaction(node);
    let r = payer.post_tx(current.id, &current.tx, false);
    assert_eq!(r, Err(ErrorKind::NodeUnavailable));
    assert_eq!(payer.tx_log[1].tx_type, TxLogEntryType::TxSentCancelled);
    assert_eq!(payer.tx_log[0].posted, None);
    assert_eq!(payer.outputs[1].status, OutputStatus::Unspent);
    // three attempts and no more
    assert_eq!(payer.client.posts.borrow().len(), 1);
}

#[test]
fn post_is_tried_again_when_nothing_can_be_reposted() {
    let mut payer = wallet_with(Node::answering(10, &[false, true]), 5, &[100]);
    let (slate, context) = started(&mut payer);
    payer.lock_outputs_at(&slate, &context, 1000).unwrap();
    assert_eq!(payer.post_tx(slate.id, &slate.tx, false), Ok(()));
    assert_eq!(payer.tx_log[0].tx_type, TxLogEntryType::TxSent);
    assert_eq!(payer.tx_log[0].posted, Some(true));
    assert_eq!(payer.outputs[0].status, OutputStatus::Locked);
    assert!(payer.client.posts.borrow().is_empty());
}

#[test]
fn post_rolls_back_when_nothing_can_be_reposted() {
    let mut payer = wallet_with(Node::answering(10, &[false, false, true]), 5, &[100]);
    let (slate, context) = started(&mut payer);
    payer.lock_outputs_at(&slate, &context, 1000).unwrap();
    assert_eq!(payer.post_tx(slate.id, &slate.tx, false), Err(ErrorKind::NodeUnavailable));
    assert_eq!(payer.tx_log[0].tx_type, TxLogEntryType::TxSentCancelled);
    assert_eq!(payer.outputs[0].status, OutputStatus::Unspent);
    // two attempts and no more
    assert_eq!(payer.client.posts.borrow().len(), 1);
}

#[test]
fn settling_a_report_follows_the_answers() {
    let (mut payer, older, current) = with_an_older_unconfirmed_transaction(Node::at(10));
    payer.settle_post(current.id, PostReport { first: false, repost: Some(true), retry: Some(true) });
    assert_eq!(payer.tx_log[0].posted, Some(true));
    assert_eq!(payer.tx_log[1].posted, Some(true));
    assert_eq!(payer.find_repost_candidate(current.id), Some(0));
    assert_eq!(payer.find_repost_candidate(older.id), Some(1));
}

#[test]
fn repost_needs_a_stored_unconfirmed_transaction() {
    let (mut payer, older, _current) = with_an_older_unconfirmed_transaction(Node::at(10));
    assert_eq!(repost(&mut payer, Some(0), None, false), Ok(()));
    assert_eq!(payer.tx_log[0].posted, Some(true));
    assert_eq!(payer.client.posted.borrow()[0], older.tx);

    payer.tx_log[0].confirmed = true;
    assert_eq!(repost(&mut payer, Some(0), None, false), Err(ErrorKind::AlreadyConfirmed));

    payer.stored_txs.clear();
    assert_eq!(repost(&mut payer, Some(1), None, false), Err(ErrorKind::StoredTxMissing));
    assert_eq!(
        repost(&mut payer, Some(9), None, false),
        Err(ErrorKind::TransactionDoesntExist("9".to_string()))
    );
}

#[test]
fn repost_of_a_cancelled_transaction_is_refused() {
    let (mut payer, older, _current) = with_an_older_unconfirmed_transaction(Node::at(10));
    cancel_tx(&mut payer, &account(), Some(0), None).unwrap();
    assert_eq!(
        repost(&mut payer, None, Some(older.id), true),
        Err(ErrorKind::TransactionDoesntExist("0436430c-2b02-624c-2032-570501212b00".to_string()))
    );
}

#[test]
fn repost_reports_a_node_that_is_down() {
    let node = Node::answering(10, &[false]);
    let (mut payer, _older, _current) = with_an_older_unconfirmed_transaction(node);
    assert_eq!(repost(&mut payer, Some(0), None, false), Err(ErrorKind::NodeUnavailable));
    assert_eq!(payer.tx_log[0].posted, None);
}

#[test]
fn refresh_confirms_what_the_chain_shows() {
    let mut payer = wallet_with(Node::at(10), 5, &[100]);
    let mut payee = wallet_with(Node::at(10), 9, &[]);
    let (mut slate, context) = started(&mut payer);
    payer.lock_outputs_at(&slate, &context, 1000).unwrap();
    add_output_to_slate_at(&mut payee, &mut slate, &account(), 1, None, false, entropy(2, 9), 5)
        .unwrap();

    // the chain shows the payee's output at height 12
    let chain = vec![ChainOutput { commit: payee.outputs[0].commit, height: 12 }];
    payee.apply_chain_outputs(&account(), &chain, 7000);
    assert_eq!(payee.outputs[0].status, OutputStatus::Unspent);
    assert_eq!(payee.outputs[0].height, 12);
    assert!(payee.tx_log[0].confirmed);
    assert_eq!(payee.tx_log[0].confirmation_ts, Some(7000));

    // the chain shows the payer's change and no longer the input
    let chain = vec![ChainOutput { commit: payer.outputs[1].commit, height: 12 }];
    payer.apply_chain_outputs(&account(), &chain, 8000);
    assert_eq!(payer.outputs[0].status, OutputStatus::Spent);
    assert_eq!(payer.outputs[1].status, OutputStatus::Unspent);
    assert!(payer.tx_log[0].confirmed);

    // another account is not touched
    let other = Identifier::new(2, 1, 0, 0, 0);
    let before = payer.outputs.clone();
    payer.apply_chain_outputs(&other, &Vec::new(), 9000);
    assert_eq!(payer.outputs, before);
}

#[test]
fn refresh_leaves_unconfirmed_outputs_that_the_chain_does_not_show() {
    let mut payer = wallet_with(Node::at(10), 5, &[100]);
    let (slate, context) = started(&mut payer);
    payer.lock_outputs_at(&slate, &context, 1000).unwrap();
    payer.apply_chain_outputs(&account(), &vec![ChainOutput {
        commit: payer.outputs[0].commit,
        height: 3,
    }], 1);
    assert_eq!(payer.outputs[0].status, OutputStatus::Locked);
    assert_eq!(payer.outputs[0].height, 3);
    assert_eq!(payer.outputs[1].status, OutputStatus::Unconfirmed);
    assert!(!payer.tx_log[0].confirmed);
    assert_eq!(payer.commits_to_refresh(&account()).len(), 2);
}

#[test]
fn refresh_does_nothing_when_the_node_is_down() {
    let mut payer = wallet_with(Node::down(), 5, &[100]);
    let before = payer.outputs.clone();
    assert_eq!(payer.refresh_outputs(&account()), Err(ErrorKind::NodeUnavailable));
    assert_eq!(payer.outputs, before);
}

#[test]
fn repair_reports_unrecognized_outputs_and_keeps_them() {
    let mut payer = wallet_with(Node::at(10), 5, &[10, 100]);
    payer.client.chain.borrow_mut().clear();
    let found = payer.check_repair(false).unwrap();
    assert_eq!(found, vec![payer.outputs[0].commit, payer.outputs[1].commit]);
    assert_eq!(payer.outputs.len(), 2);
    assert!(payer.outputs.iter().all(|o| o.status == OutputStatus::Unspent));
}

#[test]
fn repair_restores_spent_outputs_that_the_chain_shows() {
    let mut payer = wallet_with(Node::at(10), 5, &[10, 100]);
    payer.outputs[0].status = OutputStatus::Spent;
    let found = payer.check_repair(false).unwrap();
    assert!(found.is_empty());
    assert_eq!(payer.outputs[0].status, OutputStatus::Unspent);
    assert_eq!(payer.outputs[0].height, 1);
}

#[test]
fn repair_undoes_transactions_only_on_request() {
    let mut payer = wallet_with(Node::at(10), 5, &[100]);
    let (slate, context) = started(&mut payer);
    payer.lock_outputs_at(&slate, &context, 1000).unwrap();
    let chain = vec![ChainOutput { commit: payer.outputs[0].commit, height: 4 }];

    let mut kept = wallet_with(Node::at(10), 5, &[100]);
    kept.outputs = payer.outputs.clone();
    kept.tx_log.push(payer.tx_log[0].clone());
    let found = kept.repair_with(&account(), &chain, false);
    assert!(found.is_empty());
    assert_eq!(kept.outputs.len(), 2);
    assert_eq!(kept.outputs[0].status, OutputStatus::Locked);
    assert_eq!(kept.outputs[1].status, OutputStatus::Unconfirmed);
    assert_eq!(kept.tx_log[0].tx_type, TxLogEntryType::TxSent);

    let found = payer.repair_with(&account(), &chain, true);
    assert!(found.is_empty());
    assert_eq!(payer.outputs.len(), 1);
    assert_eq!(payer.outputs[0].status, OutputStatus::Unspent);
    assert_eq!(payer.outputs[0].height, 4);
    assert_eq!(payer.tx_log[0].tx_type, TxLogEntryType::TxSentCancelled);
}

#[test]
fn repair_does_nothing_when_the_node_is_down() {
    let mut payer = wallet_with(Node::down(), 5, &[100]);
    payer.outputs[0].status = OutputStatus::Spent;
    assert_eq!(payer.check_repair(true), Err(ErrorKind::NodeUnavailable));
    assert_eq!(payer.outputs[0].status, OutputStatus::Spent);
}

#[test]
fn queries_filter_by_every_argument() {
    let (payer, older, current) = with_an_older_unconfirmed_transaction(Node::at(10));
    assert_eq!(payer.find_txs(None, None, None, false), vec![0, 1]);
    assert_eq!(payer.find_txs(Some(1), None, None, false), vec![1]);
    assert_eq!(payer.find_txs(None, Some(older.id), Some(account()), true), vec![0]);
    assert_eq!(payer.find_txs(None, Some(current.id), Some(account().extend(1)), false), Vec::<usize>::new());
    assert_eq!(payer.retrieve_txs(None, Some(current.id), None, false), vec![payer.tx_log[1].clone()]);
    // outputs of the second transaction: the locked input and the change
    assert_eq!(payer.find_outputs(true, Some(1), None, None), vec![1, 3]);
    assert_eq!(payer.find_outputs(false, None, Some(current.id), Some(account())), vec![3]);
    assert_eq!(payer.retrieve_outputs(true, None, Some(older.id), None), vec![payer.outputs[2]]);
    assert!(payer.is_locked_for(older.id, &account()));
    assert!(!payer.is_locked_for(older.id, &account().extend(3)));
    assert_eq!(payer.find_stored_tx(current.id), Some(1));
    assert_eq!(payer.find_stored_tx(5), None);
}

#[test]
fn a_proof_is_stored_under_the_id_of_the_slate_and_replaced_there() {
    let mut payer = wallet_with(Node::at(10), 5, &[100]);
    let mut payee = wallet_with(Node::at(10), 9, &[]);
    let (mut slate, context) = started(&mut payer);
    payer.lock_outputs_at(&slate, &context, 1000).unwrap();
    add_output_to_slate_at(&mut payee, &mut slate, &account(), 1, None, false, entropy(2, 9), 5)
        .unwrap();
    complete_tx(&mut payer, &mut slate, 0, &context).unwrap();
    let proof = libwallet::payment_proof::TxProof::from_slate(&slate).unwrap();
    // the proof itself names another slate
    let mut foreign = proof.clone();
    foreign.slate_id = slate.id + 77;
    update_stored_tx(&mut payer, &slate, Some(foreign.clone()), false).unwrap();
    assert_eq!(payer.find_stored_proof(slate.id), Some(0));
    assert_eq!(payer.find_stored_proof(slate.id + 77), None);
    assert_eq!(payer.stored_proofs[0].proof, foreign);
    // a second proof for the slate takes the place of the first
    update_stored_tx(&mut payer, &slate, Some(proof.clone()), false).unwrap();
    assert_eq!(payer.stored_proofs, vec![StoredProof { slate_id: slate.id, proof }]);
    assert_eq!(payer.stored_txs.len(), 1);
    // without a proof the stored one stays
    update_stored_tx(&mut payer, &slate, None, false).unwrap();
    assert_eq!(payer.stored_proofs.len(), 1);
    assert_eq!(payer.tx_log[0].stored_proof, Some(slate.id));
}

#[test]
fn stored_proofs_are_signed_where_the_log_knows_the_sending_address() {
    let mut payer = wallet_with(Node::at(10), 5, &[100]);
    let mut payee = wallet_with(Node::at(10), 9, &[]);
    let (mut slate, context) = started(&mut payer);
    payer.lock_outputs_at(&slate, &context, 1000).unwrap();
    add_output_to_slate_at(&mut payee, &mut slate, &account(), 1, None, false, entropy(2, 9), 5)
        .unwrap();
    complete_tx(&mut payer, &mut slate, 0, &context).unwrap();
    let proof = libwallet::payment_proof::TxProof::from_slate(&slate).unwrap();
    update_stored_tx(&mut payer, &slate, Some(proof.clone()), false).unwrap();
    assert_eq!(payer.find_stored_proof(slate.id), Some(0));
    assert_eq!(payer.find_stored_proof(slate.id + 1), None);

    // the log entry has no key path yet
    let mut exported = proof.clone();
    libwallet::payment_proof::export_tx_proof(&payer, 0, &mut exported, "for the bike");
    assert_eq!(exported.prover_msg, Some("for the bike".to_string()));
    assert_eq!(exported.signature, None);

    update_message(&mut payer, &slate, Some(7)).unwrap();
    let mut exported = proof.clone();
    libwallet::payment_proof::export_tx_proof(&payer, 0, &mut exported, "for the bike");
    let mut expected = proof.clone();
    expected.export(&payer.keychain, "for the bike", Some(7));
    assert_eq!(exported, expected);
    assert!(exported.signature.is_some());
    assert!(exported.check());

    // no message, nothing to sign; no such transaction, no key path
    let mut exported = proof.clone();
    libwallet::payment_proof::export_tx_proof(&payer, 0, &mut exported, "");
    assert_eq!(exported, proof);
    let mut exported = proof.clone();
    libwallet::payment_proof::export_tx_proof(&payer, 3, &mut exported, "hello");
    assert_eq!(exported.signature, None);
}

#[test]
fn the_records_stay_consistent_through_a_payment() {
    let mut payer = wallet_with(Node::answering(10, &[false, true, true]), 5, &[100, 200]);
    let mut payee = wallet_with(Node::at(10), 9, &[]);
    assert!(payer.is_consistent());
    assert!(payee.is_consistent());

    let (mut older, older_context) = started(&mut payer);
    payer.lock_outputs_at(&older, &older_context, 1000).unwrap();
    assert!(payer.is_consistent());
    add_output_to_slate_at(&mut payee, &mut older, &account(), 1, None, false, entropy(2, 9), 5)
        .unwrap();
    assert!(payee.is_consistent());
    complete_tx(&mut payer, &mut older, 0, &older_context).unwrap();
    update_stored_tx(&mut payer, &older, None, false).unwrap();
    update_message(&mut payer, &older, None).unwrap();
    assert!(payer.is_consistent());

    let mut ids = SlateIdSource::Sequence { next: 1 };
    let mut current = new_tx_slate(&mut payer, 60, 2, &mut ids).unwrap();
    let context = add_inputs_to_slate(
        &mut payer,
        &mut current,
        0,
        500,
        1,
        "smallest".to_string(),
        &account(),
        0,
        None,
        true,
        entropy(3, 4),
    )
    .unwrap();
    payer.lock_outputs_at(&current, &context, 2000).unwrap();
    assert!(payer.is_consistent());
    payer.post_tx(current.id, &current.tx, false).unwrap();
    assert!(payer.is_consistent());
    cancel_tx(&mut payee, &account(), Some(0), None).unwrap();
    assert!(payee.is_consistent());
    let chain: Vec<ChainOutput> = payer.client.chain.borrow().clone();
    payer.apply_chain_outputs(&account(), &chain, 3000);
    assert!(payer.is_consistent());
}

#[test]
fn inconsistent_records_are_found() {
    let mut payer = wallet_with(Node::at(10), 5, &[100, 200]);
    let (slate, context) = started(&mut payer);
    payer.lock_outputs_at(&slate, &context, 1000).unwrap();
    assert!(payer.is_consistent());

    // a locked output that no log entry holds
    let mut broken = wallet_with(Node::at(10), 5, &[100, 200]);
    broken.outputs = payer.outputs.clone();
    assert!(!broken.is_consistent());
    // ... or that a cancelled entry holds
    broken.tx_log.push(payer.tx_log[0].clone());
    broken.next_tx_log_id = 1;
    assert!(broken.is_consistent());
    broken.tx_log[0].tx_type = TxLogEntryType::TxSentCancelled;
    assert!(!broken.is_consistent());
    broken.tx_log[0].tx_type = TxLogEntryType::TxSent;
    // ... or an entry of another account
    broken.tx_log[0].parent_key_id = account().extend(1);
    assert!(!broken.is_consistent());
    broken.tx_log[0].parent_key_id = account();
    // two entries of one id
    broken.tx_log.push(payer.tx_log[0].clone());
    assert!(!broken.is_consistent());
    broken.tx_log[1].id = 1;
    assert!(!broken.is_consistent());
    broken.next_tx_log_id = 2;
    assert!(broken.is_consistent());
}

#[test]
fn repair_frees_everything_that_an_undone_transaction_had_locked() {
    let mut payer = wallet_with(Node::at(10), 5, &[100, 200]);
    let mut ids = SlateIdSource::Sequence { next: 0 };
    let mut slate = new_tx_slate(&mut payer, 250, 2, &mut ids).unwrap();
    let context = add_inputs_to_slate(
        &mut payer,
        &mut slate,
        1,
        500,
        1,
        "smallest".to_string(),
        &account(),
        0,
        None,
        true,
        entropy(3, 4),
    )
    .unwrap();
    payer.lock_outputs_at(&slate, &context, 1000).unwrap();
    assert_eq!(payer.outputs[0].status, OutputStatus::Locked);
    assert_eq!(payer.outputs[1].status, OutputStatus::Locked);
    // the chain shows the first input only
    let chain = vec![ChainOutput { commit: payer.outputs[0].commit, height: 6 }];

    let mut kept = wallet_with(Node::at(10), 5, &[100, 200]);
    kept.outputs = payer.outputs.clone();
    kept.tx_log.push(payer.tx_log[0].clone());
    kept.next_tx_log_id = 1;
    assert!(kept.repair_with(&account(), &chain, false).is_empty());
    assert_eq!(kept.outputs, payer.outputs);
    assert!(kept.is_consistent());

    assert!(payer.repair_with(&account(), &chain, true).is_empty());
    assert_eq!(payer.tx_log[0].tx_type, TxLogEntryType::TxSentCancelled);
    assert_eq!(payer.outputs.len(), 2);
    assert_eq!(payer.outputs[0].status, OutputStatus::Unspent);
    assert_eq!(payer.outputs[0].height, 6);
    assert_eq!(payer.outputs[1].status, OutputStatus::Unspent);
    assert_eq!(payer.outputs[1].height, 1);
    assert!(payer.is_consistent());
}
