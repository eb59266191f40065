use libwallet::command::{
    estimate_strategies, filter_outputs, filter_payments, filter_txs, is_confirmation,
    is_invoice_slate, send_failure_error, send_next, shows_raw_tx, trim_line_end, CommAdapter,
    ListenArgs, ListenMethod, OutputsArgs, PaymentsArgs, SendAction, SendArgs, SendConfig,
    SendEvent, SendExit, SendFailure, SendPhase, TxsArgs,
};
use libwallet::error::ErrorKind;
use libwallet::group::{Point, Scalar};
use libwallet::keychain::Identifier;
use libwallet::payment_proof::{verdict, ProofVerdict, TxProof};
use libwallet::keychain::Keychain;
use libwallet::slate::Slate;
use libwallet::types::{OutputData, OutputStatus, PaymentData, TxLogEntry, TxLogEntryType};

fn args(method: &str, dest: &str, estimate: bool) -> SendArgs {
    SendArgs {
        amount: 50,
        message: None,
        minimum_confirmations: 10,
        selection_strategy: "smallest".to_string(),
        estimate_selection_strategies: estimate,
        method: method.to_string(),
        dest: dest.to_string(),
        change_outputs: 1,
        fluff: false,
        max_outputs: 500,
        target_slate_version: None,
    }
}

/// Runs a payment on the given events and gives the actions, the first
/// being the answer to `Begin`.
fn run(config: SendConfig, events: &[SendEvent]) -> Vec<SendAction> {
    let mut phase = SendPhase::Start;
    let mut actions = Vec::new();
    let (p, a) = send_next(config, phase, SendEvent::Begin);
    phase = p;
    actions.push(a);
    for e in events {
        let (p, a) = send_next(config, phase, *e);
        phase = p;
        actions.push(a);
    }
    actions
}

#[test]
fn methods_name_their_transports() {
    let of = |m: &str| CommAdapter::for_method(&m.to_string());
    assert_eq!(of("http"), CommAdapter::Http);
    assert_eq!(of("file"), CommAdapter::File);
    assert_eq!(of("relay"), CommAdapter::Relay);
    assert_eq!(of("keybase"), CommAdapter::Pairing);
    assert_eq!(of("self"), CommAdapter::Loopback);
    assert_eq!(of("pigeon"), CommAdapter::Loopback);
    let invoice = |m: &str| CommAdapter::for_invoice_method(&m.to_string());
    assert_eq!(invoice("http"), CommAdapter::Http);
    assert_eq!(invoice("file"), CommAdapter::File);
    assert_eq!(invoice("relay"), CommAdapter::Loopback);
    assert_eq!(invoice("self"), CommAdapter::Loopback);
    assert!(CommAdapter::Http.supports_sync());
    assert!(!CommAdapter::File.supports_sync());
    assert!(CommAdapter::Relay.supports_sync());
    assert!(CommAdapter::Pairing.supports_sync());
    assert!(CommAdapter::Loopback.supports_sync());
    let listen = |m: &str| ListenArgs { method: m.to_string() }.listen_method();
    assert_eq!(listen("http"), ListenMethod::Http);
    assert_eq!(listen("keybase"), ListenMethod::Pairing);
    assert_eq!(listen("file"), ListenMethod::Nothing);
}

#[test]
fn arguments_give_the_plan_of_a_payment() {
    let c = args("relay", "abcdef", false).config();
    assert_eq!(c, SendConfig { adapter: CommAdapter::Relay, short_address: true, estimate: false });
    assert!(!args("relay", "abcdefg", false).config().short_address);
    assert!(!args("http", "abcdef", false).config().short_address);
    // six bytes, not six characters
    assert!(!args("relay", "äbcdef", false).config().short_address);
    assert!(args("file", "x", true).config().estimate);
}

#[test]
fn a_synchronous_payment_takes_its_steps_in_order() {
    let done = SendEvent::StepDone;
    let actions = run(args("http", "url", false).config(), &[done; 7]);
    assert_eq!(
        actions,
        vec![
            SendAction::CreateTx,
            SendAction::SendSync,
            SendAction::LockOutputs,
            SendAction::VerifyMessages,
            SendAction::FinalizeTx,
            SendAction::PostTx,
            SendAction::Finish,
            SendAction::Finish,
        ]
    );
}

#[test]
fn a_payment_to_self_receives_before_it_verifies() {
    let done = SendEvent::StepDone;
    let actions = run(args("self", "me", false).config(), &[done; 7]);
    assert_eq!(
        actions,
        vec![
            SendAction::CreateTx,
            SendAction::SendSync,
            SendAction::LockOutputs,
            SendAction::ReceiveSelf,
            SendAction::VerifyMessages,
            SendAction::FinalizeTx,
            SendAction::PostTx,
            SendAction::Finish,
        ]
    );
}

#[test]
fn a_payment_by_file_ends_after_locking() {
    let done = SendEvent::StepDone;
    let actions = run(args("file", "slate.tx", false).config(), &[done; 3]);
    assert_eq!(
        actions,
        vec![SendAction::CreateTx, SendAction::SendAsync, SendAction::LockOutputs, SendAction::Finish]
    );
}

#[test]
fn an_estimate_builds_nothing() {
    let actions = run(args("http", "url", true).config(), &[SendEvent::StepDone]);
    assert_eq!(actions, vec![SendAction::Estimate, SendAction::Finish]);
}

#[test]
fn a_failed_step_stops_the_payment() {
    let c = args("http", "url", false).config();
    let actions = run(c, &[SendEvent::StepDone, SendEvent::StepFailed, SendEvent::StepDone]);
    assert_eq!(
        actions,
        vec![
            SendAction::CreateTx,
            SendAction::SendSync,
            SendAction::Fail(SendFailure::Step),
            SendAction::Fail(SendFailure::Step),
        ]
    );
    let (phase, action) = send_next(c, SendPhase::Posting, SendEvent::StepFailed);
    assert_eq!((phase, action), (SendPhase::Stopped, SendAction::Fail(SendFailure::Step)));
    let (phase, action) = send_next(c, SendPhase::Locking, SendEvent::Begin);
    assert_eq!((phase, action), (SendPhase::Stopped, SendAction::Fail(SendFailure::Step)));
}

#[test]
fn the_relay_is_polled_fifty_times() {
    let c = args("relay", "a-full-address", false).config();
    let mut phase = SendPhase::Start;
    let (p, a) = send_next(c, phase, SendEvent::Begin);
    assert_eq!(a, SendAction::StartRelay);
    let (p, a) = send_next(c, p, SendEvent::StepDone);
    assert_eq!(a, SendAction::PollRelay);
    phase = p;
    for polls in 0..50u32 {
        assert_eq!(phase, SendPhase::Connecting { polls });
        let (p, a) = send_next(c, phase, SendEvent::RelayPolled { connected: false });
        assert_eq!(a, SendAction::PollRelay);
        phase = p;
    }
    let (p, a) = send_next(c, phase, SendEvent::RelayPolled { connected: false });
    assert_eq!((p, a), (SendPhase::Stopped, SendAction::Exit(SendExit::RelayTimeout)));
    // connected at the last poll
    let (p, a) = send_next(c, phase, SendEvent::RelayPolled { connected: true });
    assert_eq!((p, a), (SendPhase::Creating, SendAction::CreateTx));
}

#[test]
fn a_short_address_is_resolved_and_confirmed() {
    let c = args("relay", "abcdef", false).config();
    let connected = SendEvent::RelayPolled { connected: true };
    let found = |count| SendEvent::AddressesFound { count };
    let yes = SendEvent::Answered { yes: true };
    let prelude = [SendEvent::StepDone, connected, SendEvent::StepDone];
    let mut events = prelude.to_vec();
    events.extend([SendEvent::NoAnswer, found(1), yes, SendEvent::StepDone]);
    assert_eq!(
        run(c, &events),
        vec![
            SendAction::StartRelay,
            SendAction::PollRelay,
            SendAction::QueryAddress,
            SendAction::PollAddresses,
            SendAction::PollAddresses,
            SendAction::ConfirmAddress,
            SendAction::CreateTx,
            SendAction::SendSync,
        ]
    );
    let last = |tail: &[SendEvent]| {
        let mut events = prelude.to_vec();
        events.extend_from_slice(tail);
        *run(c, &events).last().unwrap()
    };
    assert_eq!(last(&[found(0)]), SendAction::Fail(SendFailure::WrongAddress));
    assert_eq!(last(&[SendEvent::ChannelClosed]), SendAction::Fail(SendFailure::WrongAddress));
    assert_eq!(last(&[found(3)]), SendAction::Fail(SendFailure::AddressConflict { count: 3 }));
    assert_eq!(
        last(&[found(1), SendEvent::Answered { yes: false }]),
        SendAction::Exit(SendExit::NotConfirmed)
    );
    // the query cannot be sent
    let events = [SendEvent::StepDone, connected, SendEvent::StepFailed];
    assert_eq!(*run(c, &events).last().unwrap(), SendAction::Exit(SendExit::QueryFailed));
    // a hundred polls without an answer
    assert_eq!(last(&[SendEvent::NoAnswer; 100]), SendAction::PollAddresses);
    assert_eq!(last(&[SendEvent::NoAnswer; 101]), SendAction::Fail(SendFailure::RelayNoResponse));
}

#[test]
fn failures_before_the_first_step_have_their_errors() {
    assert_eq!(
        send_failure_error(SendFailure::WrongAddress),
        Some(ErrorKind::ArgumentError("wrong address, or destination is offline".to_string()))
    );
    assert_eq!(
        send_failure_error(SendFailure::RelayNoResponse),
        Some(ErrorKind::GenericError(
            "relay server no response, please try again later".to_string()
        ))
    );
    assert_eq!(send_failure_error(SendFailure::Step), None);
}

#[test]
fn an_ambiguous_short_address_is_an_argument_error() {
    let c = SendConfig { adapter: CommAdapter::Relay, short_address: true, estimate: false };
    for count in [2usize, 3, 40] {
        let (phase, action) =
            send_next(c, SendPhase::Resolving { polls: 7 }, SendEvent::AddressesFound { count });
        assert_eq!(phase, SendPhase::Stopped);
        assert_eq!(action, SendAction::Fail(SendFailure::AddressConflict { count }));
        assert_eq!(
            send_failure_error(SendFailure::AddressConflict { count }),
            Some(ErrorKind::ArgumentError(
                "abbreviated address conflict, please use the full address".to_string()
            ))
        );
    }
}

#[test]
fn answers_and_lines() {
    assert!(is_confirmation(&"y".to_string()));
    assert!(is_confirmation(&"Y".to_string()));
    assert!(!is_confirmation(&"yes".to_string()));
    assert!(!is_confirmation(&"".to_string()));
    assert!(!is_confirmation(&"n".to_string()));
    let trim = |s: &str| {
        let mut line = s.as_bytes().to_vec();
        trim_line_end(&mut line);
        String::from_utf8(line).unwrap()
    };
    assert_eq!(trim("y\n"), "y");
    assert_eq!(trim("y\r\n"), "y");
    assert_eq!(trim("y\r"), "y");
    assert_eq!(trim("y\n\n"), "y\n");
    assert_eq!(trim("y\n\r"), "y\n");
    assert_eq!(trim("y"), "y");
    assert_eq!(trim(""), "");
    assert_eq!(estimate_strategies(false), vec!["smallest", "biggest", "all"]);
    assert_eq!(estimate_strategies(true), vec!["smallest", "all"]);
}

#[test]
fn an_invoice_is_a_slate_that_the_payee_has_not_signed() {
    let mut slate = Slate::blank(2, 1);
    assert_eq!(
        is_invoice_slate(&slate),
        Err(ErrorKind::ArgumentError("Expected Slate participant data missing".to_string()))
    );
    let mut key = Scalar::new(5);
    slate.fill_round_1(&mut key, &Scalar::new(6), 0, None, Scalar::new(1)).unwrap();
    assert!(is_invoice_slate(&slate).is_err());
    slate.fill_round_1(&mut key, &Scalar::new(6), 1, None, Scalar::new(1)).unwrap();
    assert_eq!(is_invoice_slate(&slate), Ok(true));
    slate.fill_round_2(&key, &Scalar::new(6), 1).unwrap();
    assert_eq!(is_invoice_slate(&slate), Ok(false));
}

fn out(value: u64, status: OutputStatus) -> OutputData {
    OutputData {
        root_key_id: Identifier::new(2, 0, 0, 0, 0),
        key_id: Identifier::new(3, 0, 0, 0, 0),
        commit: Point { v: value },
        value,
        status,
        height: 1,
        lock_height: 0,
        is_coinbase: false,
        tx_log_entry: None,
        slate_id: None,
    }
}

#[test]
fn output_listings_filter_and_keep_the_last() {
    let (locked, unspent) = (OutputStatus::Locked, OutputStatus::Unspent);
    let all = vec![out(1, unspent), out(5, locked), out(7, unspent), out(9, unspent), out(3, locked)];
    let values = |a: OutputsArgs| filter_outputs(&all, &a).iter().map(|o| o.value).collect::<Vec<_>>();
    let none = OutputsArgs { minvalue: None, status: None, limit: None };
    assert_eq!(values(none), vec![1, 5, 7, 9, 3]);
    assert_eq!(values(OutputsArgs { minvalue: Some(5), ..none }), vec![5, 7, 9]);
    assert_eq!(values(OutputsArgs { status: Some(unspent), ..none }), vec![1, 7, 9]);
    assert_eq!(values(OutputsArgs { minvalue: Some(5), status: Some(unspent), limit: None }), vec![7, 9]);
    assert_eq!(values(OutputsArgs { limit: Some(2), ..none }), vec![9, 3]);
    assert_eq!(values(OutputsArgs { limit: Some(5), ..none }), vec![1, 5, 7, 9, 3]);
    assert_eq!(values(OutputsArgs { limit: Some(0), ..none }), Vec::<u64>::new());
    assert_eq!(values(OutputsArgs { limit: Some(u64::MAX), ..none }), vec![1, 5, 7, 9, 3]);
    assert_eq!(values(OutputsArgs { minvalue: Some(2), status: Some(locked), limit: Some(1) }), vec![3]);
}

#[test]
fn payment_listings_filter_and_keep_the_last() {
    let pay = |value, status| PaymentData {
        commit: Point { v: value },
        value,
        status,
        height: 1,
        lock_height: 0,
        slate_id: 1,
        id: None,
    };
    let (confirmed, unconfirmed) = (OutputStatus::Confirmed, OutputStatus::Unconfirmed);
    let all = vec![pay(1, unconfirmed), pay(2, confirmed), pay(3, unconfirmed)];
    let values = |a: PaymentsArgs| filter_payments(&all, &a).iter().map(|p| p.value).collect::<Vec<_>>();
    assert_eq!(values(PaymentsArgs { status: None, limit: None }), vec![1, 2, 3]);
    assert_eq!(values(PaymentsArgs { status: Some(unconfirmed), limit: None }), vec![1, 3]);
    assert_eq!(values(PaymentsArgs { status: Some(unconfirmed), limit: Some(1) }), vec![3]);
    assert_eq!(values(PaymentsArgs { status: None, limit: Some(2) }), vec![2, 3]);
}

#[test]
fn transaction_listings_filter_by_type_and_date() {
    let parent = Identifier::new(2, 0, 0, 0, 0);
    let entry = |id, kind, ts| TxLogEntry::new(parent, kind, id, ts);
    let (received, sent) = (TxLogEntryType::TxReceived, TxLogEntryType::TxSent);
    let mut all = vec![
        entry(0, sent, 100),
        entry(1, received, 200),
        entry(2, sent, 300),
        entry(3, sent, 400),
    ];
    let none = TxsArgs {
        id: None,
        show_raw_tx_data: false,
        tx_type: None,
        start_date: None,
        end_date: None,
        limit: None,
    };
    assert_eq!(filter_txs(&all, &none), vec![0, 1, 2, 3]);
    assert_eq!(filter_txs(&all, &TxsArgs { tx_type: Some(sent), ..none }), vec![0, 2, 3]);
    let dated = TxsArgs { start_date: Some(200), end_date: Some(300), ..none };
    assert_eq!(filter_txs(&all, &dated), vec![1, 2]);
    // one date alone does not count
    assert_eq!(filter_txs(&all, &TxsArgs { start_date: Some(250), ..none }), vec![0, 1, 2, 3]);
    assert_eq!(filter_txs(&all, &TxsArgs { end_date: Some(250), ..none }), vec![0, 1, 2, 3]);
    let both = TxsArgs { tx_type: Some(sent), limit: Some(1), ..dated };
    assert_eq!(filter_txs(&all, &both), vec![2]);
    assert_eq!(filter_txs(&all, &TxsArgs { limit: Some(3), ..none }), vec![1, 2, 3]);

    let raw = TxsArgs { id: Some(3), show_raw_tx_data: true, ..none };
    assert!(!shows_raw_tx(&all, &vec![3], &raw));
    all[3].stored_tx = Some(9);
    assert!(shows_raw_tx(&all, &vec![3], &raw));
    assert!(!shows_raw_tx(&all, &vec![2, 3], &raw));
    assert!(!shows_raw_tx(&all, &vec![3], &TxsArgs { show_raw_tx_data: false, ..raw }));
    assert!(!shows_raw_tx(&all, &vec![3], &TxsArgs { id: None, ..raw }));
}

fn signed_kernel_proof() -> TxProof {
    // one participant with key 40 and nonce 50 signs a transaction that
    // spends a commitment to 10 and creates one to 7, with fee 3 and offset 2
    let mut slate = libwallet::tx::slate_at_height(9, 7, 1, 1);
    slate.fee = 3;
    let input = Point::commit(10, Scalar::new(100));
    let output = Point::commit(7, Scalar::new(142));
    slate.tx.body.inputs.push(libwallet::transaction::Input {
        features: libwallet::transaction::OutputFeatures::Plain,
        commit: input,
    });
    slate.tx.body.outputs.push(libwallet::transaction::Output {
        features: libwallet::transaction::OutputFeatures::Plain,
        commit: output,
    });
    let mut key = Scalar::new(42);
    slate.fill_round_1(&mut key, &Scalar::new(50), 0, None, Scalar::new(2)).unwrap();
    assert_eq!(key, Scalar::new(40));
    slate.fill_round_2(&key, &Scalar::new(50), 0).unwrap();
    slate.finalize().unwrap();
    TxProof::from_slate(&slate).unwrap()
}

#[test]
fn proofs_hold_together_or_not() {
    let proof = signed_kernel_proof();
    assert_eq!(proof.amount, 7);
    assert_eq!(proof.fee, 3);
    assert_eq!(proof.slate_id, 9);
    assert_eq!(proof.inputs.len(), 1);
    assert_eq!(proof.outputs.len(), 1);
    assert_eq!(proof.excess, Scalar::new(40).public());
    assert!(proof.check());

    let mut forged = proof.clone();
    forged.fee = 4;
    assert!(!forged.check());
    let mut forged = proof.clone();
    forged.outputs.push(Point { v: 1 });
    assert!(!forged.check());
    let mut forged = proof.clone();
    forged.excess_sig.s = forged.excess_sig.s.plus(Scalar::new(1));
    assert!(!forged.check());
    let mut forged = proof.clone();
    forged.signature = Some(forged.excess_sig);
    assert!(!forged.check());

    assert!(TxProof::from_slate(&Slate {
        tx: libwallet::transaction::Transaction {
            offset: Scalar::new(0),
            body: libwallet::transaction::TransactionBody {
                inputs: vec![],
                outputs: vec![],
                kernels: vec![],
            },
        },
        ..Slate::blank(1, 1)
    })
    .is_none());
}

#[test]
fn exported_proofs_are_signed_where_the_key_path_is_known() {
    let keychain = Keychain::from_seed(7);
    let proof = signed_kernel_proof();

    let mut plain = proof.clone();
    plain.export(&keychain, "", Some(3));
    assert_eq!(plain, proof);

    let mut with_message = proof.clone();
    with_message.export(&keychain, "paid for the bike", None);
    assert_eq!(with_message.prover_msg, Some("paid for the bike".to_string()));
    assert_eq!(with_message.signature, None);
    assert!(with_message.check());

    let mut signed = proof.clone();
    signed.export(&keychain, "paid for the bike", Some((5 << 32) | 6));
    let key = keychain.derive_key(&Identifier::new(3, 0, 5, 6, 0));
    assert_eq!(signed.prover_key, Some(key.public()));
    assert!(signed.signature.is_some());
    assert!(signed.check());
    let d = signed.signing_digest();
    let mut bytes = signed.excess.v.to_le_bytes().to_vec();
    bytes.extend(b"paid for the bike");
    assert_eq!(d, libwallet::aggsig::compute_digest(&bytes));
    assert_eq!(signed.signature, Some(libwallet::aggsig::sign_message(key, d)));

    // another message breaks the payer's signature
    signed.prover_msg = Some("paid for the car".to_string());
    assert!(!signed.check());
}

#[test]
fn verdicts_tell_forged_from_unconfirmed() {
    assert_eq!(verdict(false, Some(5), 10), ProofVerdict::Invalid);
    assert_eq!(verdict(false, None, 10), ProofVerdict::Invalid);
    assert_eq!(verdict(true, None, 10), ProofVerdict::Unconfirmed);
    assert_eq!(verdict(true, Some(11), 10), ProofVerdict::Unconfirmed);
    assert_eq!(verdict(true, Some(10), 10), ProofVerdict::Confirmed { confirmations: 1 });
    assert_eq!(verdict(true, Some(3), 10), ProofVerdict::Confirmed { confirmations: 8 });
    assert_eq!(
        verdict(true, Some(0), u64::MAX),
        ProofVerdict::Confirmed { confirmations: u64::MAX }
    );
}
