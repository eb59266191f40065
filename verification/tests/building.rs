use libwallet::builder::{
    attach_inputs, build_recipient_output, build_send_tx, record_received, recipient_output,
};
use libwallet::error::ErrorKind;
use libwallet::group::{Point, Scalar};
use libwallet::keychain::{Identifier, Keychain};
use libwallet::selection::SelectionStrategy;
use libwallet::slate::Slate;
use libwallet::transaction::{OutputFeatures, Transaction};
use libwallet::tx::slate_at_height;
use libwallet::types::{KeyedAmount, OutputData, OutputStatus, TxLogEntryType};
use libwallet::wallet::{ChainOutput, FeeSchedule, NodeClient, Wallet};

struct Offline;

impl NodeClient for Offline {
    fn get_chain_height(&self) -> Result<u64, ErrorKind> {
        Err(ErrorKind::NodeUnavailable)
    }

    fn get_outputs_from_node(&self, _commits: &Vec<Point>) -> Result<Vec<ChainOutput>, ErrorKind> {
        Err(ErrorKind::NodeUnavailable)
    }

    fn post_tx(&self, _tx: &Transaction, _fluff: bool) -> Result<(), ErrorKind> {
        Err(ErrorKind::NodeUnavailable)
    }

    fn get_kernel_height(&self, _excess: &Point) -> Result<Option<u64>, ErrorKind> {
        Err(ErrorKind::NodeUnavailable)
    }
}

fn account() -> Identifier {
    Identifier::new(2, 0, 0, 0, 0)
}

fn wallet(values: &[u64]) -> Wallet<Offline> {
    let keychain = Keychain::from_seed(77);
    let schedule = FeeSchedule { base_fee: 2, output_fee: 1 };
    let mut w = Wallet::new(Offline, keychain, account(), schedule);
    for (i, value) in values.iter().enumerate() {
        let key_id = account().extend(i as u32);
        w.outputs.push(OutputData {
            root_key_id: account(),
            key_id,
            commit: keychain.commit(*value, &key_id),
            value: *value,
            status: OutputStatus::Unspent,
            height: 1,
            lock_height: 0,
            is_coinbase: i == 0,
            tx_log_entry: None,
            slate_id: None,
        });
    }
    w.next_child = values.len() as u32;
    w
}

fn slate(amount: u64) -> Slate {
    slate_at_height(5, amount, 10, 2)
}

#[test]
fn change_is_split_into_equal_parts_and_a_rest() {
    let mut w = wallet(&[7, 100]);
    let mut s = slate(50);
    let c = attach_inputs(&mut w, &mut s, &vec![1, 0], 4, 3, &account(), Scalar::new(9)).unwrap();
    // 107 - 50 - 4 = 53 = 17 + 17 + 19
    let values: Vec<u64> = c.output_ids.iter().map(|k| k.value).collect();
    assert_eq!(values, vec![17, 17, 19]);
    let keys: Vec<Identifier> = c.output_ids.iter().map(|k| k.key_id).collect();
    assert_eq!(keys, vec![account().extend(2), account().extend(3), account().extend(4)]);
    assert_eq!(w.next_child, 5);
    assert_eq!(s.fee, 4);
    assert_eq!(c.fee, 4);
    assert_eq!(c.sec_nonce, Scalar::new(9));
    assert_eq!(
        c.input_ids,
        vec![
            KeyedAmount { key_id: account().extend(1), value: 100 },
            KeyedAmount { key_id: account().extend(0), value: 7 },
        ]
    );
    assert_eq!(s.tx.body.inputs.len(), 2);
    assert_eq!(s.tx.body.inputs[0].commit, w.outputs[1].commit);
    assert_eq!(s.tx.body.inputs[0].features, OutputFeatures::Plain);
    assert_eq!(s.tx.body.inputs[1].features, OutputFeatures::Coinbase);
    assert_eq!(s.tx.body.outputs.len(), 3);
    for (o, k) in s.tx.body.outputs.iter().zip(c.output_ids.iter()) {
        assert_eq!(o.commit, w.keychain.commit(k.value, &k.key_id));
        assert_eq!(o.features, OutputFeatures::Plain);
    }
    // the key is what the change takes in, less what the inputs give up
    let kc = w.keychain;
    let outs = c.output_ids.iter().fold(Scalar::new(0), |a, k| a.plus(kc.derive_key(&k.key_id)));
    let ins = c.input_ids.iter().fold(Scalar::new(0), |a, k| a.plus(kc.derive_key(&k.key_id)));
    assert_eq!(c.sec_key, outs.minus(ins));
    // nothing else of the slate has changed
    assert_eq!(s.amount, 50);
    assert!(s.participant_data.is_empty());
    assert_eq!(s.tx.offset, Scalar::new(0));
}

#[test]
fn an_exact_payment_has_no_change() {
    let mut w = wallet(&[7, 100]);
    let mut s = slate(96);
    let c = attach_inputs(&mut w, &mut s, &vec![1], 4, 3, &account(), Scalar::new(9)).unwrap();
    assert!(c.output_ids.is_empty());
    assert!(s.tx.body.outputs.is_empty());
    assert_eq!(w.next_child, 2);
}

#[test]
fn no_change_outputs_asked_for_means_one() {
    let mut w = wallet(&[7, 100]);
    let mut s = slate(90);
    let c = attach_inputs(&mut w, &mut s, &vec![1], 4, 0, &account(), Scalar::new(9)).unwrap();
    assert_eq!(c.output_ids.len(), 1);
    assert_eq!(c.output_ids[0].value, 6);
}

#[test]
fn small_change_leaves_empty_parts() {
    let mut w = wallet(&[7, 100]);
    let mut s = slate(94);
    let c = attach_inputs(&mut w, &mut s, &vec![1], 4, 3, &account(), Scalar::new(9)).unwrap();
    let values: Vec<u64> = c.output_ids.iter().map(|k| k.value).collect();
    assert_eq!(values, vec![0, 0, 2]);
}

#[test]
fn inputs_that_cannot_be_attached_leave_everything_as_it_was() {
    let mut w = wallet(&[7, 100]);
    let mut s = slate(50);
    let before = s.clone();
    let r = attach_inputs(&mut w, &mut s, &vec![1, 2], 4, 1, &account(), Scalar::new(9));
    assert_eq!(r, Err(ErrorKind::InputUnavailable));
    let r = attach_inputs(&mut w, &mut s, &vec![0], 4, 1, &account(), Scalar::new(9));
    assert_eq!(r, Err(ErrorKind::NotEnoughFunds { available: 7, needed: 54 }));
    let r = attach_inputs(&mut w, &mut s, &vec![], 4, 1, &account(), Scalar::new(9));
    assert_eq!(r, Err(ErrorKind::NotEnoughFunds { available: 0, needed: 54 }));
    let r = attach_inputs(&mut w, &mut s, &vec![1], u64::MAX, 1, &account(), Scalar::new(9));
    assert_eq!(r, Err(ErrorKind::NotEnoughFunds { available: 100, needed: u64::MAX }));
    w.outputs[0].value = u64::MAX;
    let r = attach_inputs(&mut w, &mut s, &vec![0, 1], 4, 1, &account(), Scalar::new(9));
    assert_eq!(r, Err(ErrorKind::AmountOverflow));
    w.next_child = u32::MAX - 1;
    let r = attach_inputs(&mut w, &mut s, &vec![1], 4, 2, &account(), Scalar::new(9));
    assert_eq!(r, Err(ErrorKind::IndexExhausted));
    assert_eq!(s, before);
    assert_eq!(w.next_child, u32::MAX - 1);
    // one key path is left
    assert!(attach_inputs(&mut w, &mut s, &vec![1], 4, 1, &account(), Scalar::new(9)).is_ok());
    assert_eq!(w.next_child, u32::MAX);
}

#[test]
fn the_payer_selects_by_the_height_of_the_slate() {
    let mut w = wallet(&[7, 100, 60]);
    let mut s = slate(50);
    // two change outputs: the fee is 2 + 3 * 1
    let c = build_send_tx(
        &mut w,
        &mut s,
        10,
        500,
        2,
        SelectionStrategy::Smallest,
        &account(),
        Scalar::new(1),
    )
    .unwrap();
    assert_eq!(s.fee, 5);
    assert_eq!(c.input_ids, vec![KeyedAmount { key_id: account().extend(2), value: 60 }]);
    let values: Vec<u64> = c.output_ids.iter().map(|k| k.value).collect();
    assert_eq!(values, vec![2, 3]);
    // eleven confirmations are not there at height 10
    let mut s = slate(50);
    let r = build_send_tx(
        &mut w,
        &mut s,
        11,
        500,
        2,
        SelectionStrategy::Smallest,
        &account(),
        Scalar::new(1),
    );
    assert_eq!(r, Err(ErrorKind::NotEnoughFunds { available: 0, needed: 55 }));
}

#[test]
fn the_payee_gets_an_output_and_a_log_entry() {
    let mut w = wallet(&[]);
    let mut s = slate(50);
    let c = build_recipient_output(&mut w, &mut s, &account(), Scalar::new(3), 1234).unwrap();
    let key_id = account().extend(0);
    assert_eq!(c.output_ids, vec![KeyedAmount { key_id, value: 50 }]);
    assert_eq!(c.sec_key, w.keychain.derive_key(&key_id));
    assert_eq!(c.sec_nonce, Scalar::new(3));
    assert_eq!(c.parent_key_id, account());
    assert_eq!(s.tx.body.outputs.len(), 1);
    assert_eq!(s.tx.body.outputs[0].commit, w.keychain.commit(50, &key_id));
    assert_eq!(w.outputs.len(), 1);
    assert_eq!(w.outputs[0].commit, w.keychain.commit(50, &key_id));
    assert_eq!(w.outputs[0].status, OutputStatus::Unconfirmed);
    assert_eq!(w.outputs[0].tx_log_entry, Some(0));
    assert_eq!(w.outputs[0].slate_id, Some(5));
    assert_eq!(w.outputs[0].height, 10);
    assert_eq!(w.tx_log.len(), 1);
    assert_eq!(w.tx_log[0].tx_type, TxLogEntryType::TxReceived);
    assert_eq!(w.tx_log[0].creation_ts, 1234);
    assert_eq!(w.tx_log[0].num_outputs, 1);
    assert_eq!(w.tx_log[0].tx_slate_id, Some(5));
    assert_eq!(w.next_child, 1);
    assert_eq!(w.next_tx_log_id, 1);
}

#[test]
fn the_payee_needs_a_key_path_and_a_log_id() {
    let mut w = wallet(&[]);
    let mut s = slate(50);
    let before = s.clone();
    w.next_child = u32::MAX;
    let r = build_recipient_output(&mut w, &mut s, &account(), Scalar::new(3), 1234);
    assert_eq!(r, Err(ErrorKind::IndexExhausted));
    assert_eq!(recipient_output(&w, &mut s, &account(), Scalar::new(3)), Err(ErrorKind::IndexExhausted));
    assert_eq!(record_received(&mut w, &s, &account(), 1), Err(ErrorKind::IndexExhausted));
    w.next_child = 0;
    w.next_tx_log_id = u32::MAX;
    let r = build_recipient_output(&mut w, &mut s, &account(), Scalar::new(3), 1234);
    assert_eq!(r, Err(ErrorKind::IndexExhausted));
    assert_eq!(s, before);
    assert!(w.outputs.is_empty());
    assert!(w.tx_log.is_empty());
}
