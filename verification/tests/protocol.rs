use libwallet::aggsig::{
    add_signatures, compute_challenge, compute_digest, sign, sign_message, verify, verify_message,
    Signature,
};
use libwallet::builder::{coinbase_input, input, output};
use libwallet::error::{ErrorKind, FormatError, Violation};
use libwallet::group::{Point, Scalar, GENERATOR_G, GENERATOR_H, ORDER};
use libwallet::ids::{decimal_string, slate_id_string, tx_ref_string, SlateIdSource};
use libwallet::keychain::{Identifier, Keychain};
use libwallet::slate::{valid_header_version, ParticipantData, Slate, SlateStage};
use libwallet::transaction::{
    sum_of, Input, KernelFeatures, Output, OutputFeatures, Transaction, TxKernel,
};
use libwallet::tx::slate_at_height;
use libwallet::types::Context;
use libwallet::wire::{decode_slate, encode_slate};

#[test]
fn output_commitment_equals_input_commitment_on_spend() {
    let keychain = Keychain::from_seed(0x5eed);
    let key_id1 = Identifier::new(1, 1, 0, 0, 0);

    let mut tx1 = Transaction::empty();
    tx1.body.outputs.push(output(&keychain, 105, &key_id1));
    let mut tx2 = Transaction::empty();
    tx2.body.inputs.push(input(&keychain, 105, &key_id1));

    assert_eq!(tx1.outputs()[0].features, tx2.inputs()[0].features);
    assert_eq!(tx1.outputs()[0].commitment(), tx2.inputs()[0].commitment());
}

#[test]
fn scalars_add_subtract_and_multiply_modulo_the_order() {
    assert_eq!(ORDER, (1u64 << 61) - 1);
    assert_eq!(Scalar::new(5).plus(Scalar::new(7)), Scalar::new(12));
    assert_eq!(Scalar::new(ORDER - 1).plus(Scalar::new(3)), Scalar::new(2));
    assert_eq!(Scalar::new(3).minus(Scalar::new(5)), Scalar::new(ORDER - 2));
    assert_eq!(Scalar::new(5).minus(Scalar::new(3)), Scalar::new(2));
    assert_eq!(Scalar::new(7).minus(Scalar::new(ORDER + 7)), Scalar::new(0));
    assert_eq!(Scalar::new(ORDER - 1).times(Scalar::new(ORDER - 1)), Scalar::new(1));
    assert_eq!(Scalar::new(u64::MAX).plus(Scalar::new(u64::MAX)), Scalar::new(14));
    assert_eq!(Scalar::new(u64::MAX).times(Scalar::new(u64::MAX)), Scalar::new(49));
    assert_eq!(Scalar::new(6).times(Scalar::new(7)), Scalar::new(42));
}

#[test]
fn points_are_multiples_of_the_generators() {
    assert_eq!(Scalar::new(1).public(), Point { v: GENERATOR_G });
    assert_eq!(Scalar::new(0).public(), Point { v: 0 });
    assert_eq!(Point::of_value(1), Point { v: GENERATOR_H });
    assert_eq!(Scalar::new(2).public(), Point { v: (2 * GENERATOR_G) % ORDER });
    assert_eq!(Point { v: 5 }.plus(Point { v: ORDER - 2 }), Point { v: 3 });
    assert_eq!(Point { v: 5 }.minus(Point { v: 7 }), Point { v: ORDER - 2 });
    assert_eq!(Point { v: 5 }.scale(Scalar::new(3)), Point { v: 15 });
    assert_eq!(
        Point::commit(3, Scalar::new(4)),
        Point::of_value(3).plus(Scalar::new(4).public())
    );
    // commitments add up
    assert_eq!(
        Point::commit(3, Scalar::new(4)).plus(Point::commit(10, Scalar::new(20))),
        Point::commit(13, Scalar::new(24))
    );
    assert_eq!(sum_of(&vec![Point { v: 1 }, Point { v: 2 }, Point { v: ORDER - 1 }]), Point { v: 2 });
    assert_eq!(sum_of(&Vec::new()), Point { v: 0 });
}

#[test]
fn signatures_verify_under_the_right_key_only() {
    let secret = Scalar::new(123456789);
    let nonce = Scalar::new(987654321);
    let e = compute_challenge(nonce.public(), secret.public(), 7, 0);
    let sig = sign(secret, nonce, e);
    assert_eq!(sig.nonce, nonce.public());
    assert_eq!(sig.s, nonce.plus(e.times(secret)));
    assert!(verify(sig, secret.public(), e));
    assert!(!verify(sig, Scalar::new(123456788).public(), e));
    assert!(!verify(sig, secret.public(), e.plus(Scalar::new(1))));
    let other = Signature { nonce: sig.nonce, s: sig.s.plus(Scalar::new(1)) };
    assert!(!verify(other, secret.public(), e));
}

#[test]
fn the_challenge_depends_on_every_argument() {
    let base = compute_challenge(Point { v: 1 }, Point { v: 2 }, 3, 4);
    assert_eq!(
        base,
        Scalar::new(
            ((6364136223846793005u128
                + 2 * 1442695040888963407u128
                + 3 * 2862933555777941757u128
                + 4 * 3037000493u128)
                % ORDER as u128) as u64
        )
    );
    assert_ne!(base, compute_challenge(Point { v: 2 }, Point { v: 2 }, 3, 4));
    assert_ne!(base, compute_challenge(Point { v: 1 }, Point { v: 3 }, 3, 4));
    assert_ne!(base, compute_challenge(Point { v: 1 }, Point { v: 2 }, 4, 4));
    assert_ne!(base, compute_challenge(Point { v: 1 }, Point { v: 2 }, 3, 5));
}

#[test]
fn sums_of_signatures_verify_under_sums_of_keys() {
    let (x1, k1) = (Scalar::new(11), Scalar::new(101));
    let (x2, k2) = (Scalar::new(22), Scalar::new(202));
    let (x3, k3) = (Scalar::new(ORDER - 5), Scalar::new(303));
    let key_sum = x1.public().plus(x2.public()).plus(x3.public());
    let nonce_sum = k1.public().plus(k2.public()).plus(k3.public());
    let e = compute_challenge(nonce_sum, key_sum, 9, 0);
    let sum = add_signatures(add_signatures(sign(x1, k1, e), sign(x2, k2, e)), sign(x3, k3, e));
    assert_eq!(sum.nonce, nonce_sum);
    assert!(verify(sum, key_sum, e));
    // without the third part it does not
    let partial = add_signatures(sign(x1, k1, e), sign(x2, k2, e));
    assert!(!verify(partial, key_sum, e));
}

#[test]
fn digests_fold_bytes_left_to_right() {
    assert_eq!(compute_digest(&[]), Scalar::new(0));
    assert_eq!(compute_digest(&[0]), Scalar::new(1));
    assert_eq!(compute_digest(&[4]), Scalar::new(5));
    assert_eq!(compute_digest(&[4, 9]), Scalar::new(5 * 257 + 10));
    assert_ne!(compute_digest(b"ab"), compute_digest(b"ba"));
    assert_ne!(compute_digest(&[0]), compute_digest(&[0, 0]));
}

#[test]
fn message_signatures_bind_key_and_message() {
    let secret = Scalar::new(424242);
    let d = compute_digest(b"to Alice");
    let sig = sign_message(secret, d);
    assert!(verify_message(sig, secret.public(), d));
    assert!(!verify_message(sig, secret.public(), compute_digest(b"to Bob")));
    assert!(!verify_message(sig, Scalar::new(424243).public(), d));
}

#[test]
fn key_paths_extend_step_by_step() {
    let root = Identifier::new(0, 0, 0, 0, 0);
    let a = root.extend(7);
    assert_eq!(a, Identifier::new(1, 7, 0, 0, 0));
    let b = a.extend(8).extend(9).extend(10);
    assert_eq!(b, Identifier::new(4, 7, 8, 9, 10));
    assert_eq!(b.extend(11), b);
    assert_eq!(Identifier::new(9, 1, 2, 3, 4).extend(5), Identifier::new(9, 1, 2, 3, 4));
}

#[test]
fn keys_depend_on_seed_and_path() {
    let keychain = Keychain::from_seed(1);
    let id = Identifier::new(3, 0, 0, 5, 0);
    let m: u128 = 1099511628211;
    let q = ORDER as u128;
    let step = |acc: u128, x: u128| ((acc * m) % q + x) % q;
    let expected = step(step(step(step(step(1, 3), 0), 0), 5), 0);
    assert_eq!(keychain.derive_key(&id), Scalar::new(expected as u64));
    assert_ne!(keychain.derive_key(&id), keychain.derive_key(&id.extend(1)));
    assert_ne!(keychain.derive_key(&id), Keychain::from_seed(2).derive_key(&id));
    assert_eq!(keychain.commit(9, &id), Point::commit(9, keychain.derive_key(&id)));
    assert_eq!(coinbase_input(&keychain, 9, &id).features, OutputFeatures::Coinbase);
    assert_eq!(coinbase_input(&keychain, 9, &id).commit, input(&keychain, 9, &id).commit);
}

#[test]
fn ids_are_spelled_as_uuids_and_decimals() {
    assert_eq!(
        slate_id_string(0x936DA01F9ABD4D9D80C702AF85C822A8),
        "936da01f-9abd-4d9d-80c7-02af85c822a8"
    );
    assert_eq!(slate_id_string(0), "00000000-0000-0000-0000-000000000000");
    assert_eq!(slate_id_string(u128::MAX), "ffffffff-ffff-ffff-ffff-ffffffffffff");
    assert_eq!(decimal_string(0), "0");
    assert_eq!(decimal_string(9), "9");
    assert_eq!(decimal_string(10), "10");
    assert_eq!(decimal_string(4294967295), "4294967295");
    assert_eq!(decimal_string(1020304), "1020304");
    assert_eq!(tx_ref_string(Some(12), Some(5)), "12");
    assert_eq!(tx_ref_string(None, Some(5)), "00000000-0000-0000-0000-000000000005");
    assert_eq!(tx_ref_string(None, None), "");
    let mut ids = SlateIdSource::Sequence { next: 254 };
    assert_eq!(ids.next_id(), 0x0436430c_2b02624c_20325705_01212bfe);
    assert_eq!(ids.next_id(), 0x0436430c_2b02624c_20325705_01212bff);
    assert_eq!(ids.next_id(), 0x0436430c_2b02624c_20325705_01212b00);
}

#[test]
fn header_versions_change_at_the_forks() {
    assert!(valid_header_version(0, 1));
    assert!(valid_header_version(262079, 1));
    assert!(!valid_header_version(262080, 1));
    assert!(valid_header_version(262080, 2));
    assert!(valid_header_version(524159, 2));
    assert!(!valid_header_version(524160, 2));
    assert!(!valid_header_version(0, 2));
}

fn secrets(i: u64) -> (Scalar, Scalar) {
    (Scalar::new(1000 + i * 17), Scalar::new(2000 + i * 31))
}

/// A slate of `n` participants whose transaction has the sum of their keys
/// as its excess, after the first round of each.
fn slate_after_round_one(n: u64) -> (Slate, Vec<Scalar>) {
    let mut slate = slate_at_height(77, 50, 10, n as usize);
    slate.fee = 3;
    let mut keys = Vec::new();
    let mut blind = Scalar::new(0);
    for i in 0..n {
        let (mut key, nonce) = secrets(i);
        blind = blind.plus(key);
        slate.fill_round_1(&mut key, &nonce, i, None, Scalar::new(5)).unwrap();
        keys.push(key);
    }
    // one output that carries the fee's value away and the keys' sum
    let input = Input { features: OutputFeatures::Plain, commit: Point::commit(3, Scalar::new(0)) };
    let out = Output { features: OutputFeatures::Plain, commit: Point::commit(0, blind) };
    slate.tx.body.inputs.push(input);
    slate.tx.body.outputs.push(out);
    (slate, keys)
}

#[test]
fn n_honest_participants_finalize() {
    for n in 1..6u64 {
        let (mut slate, keys) = slate_after_round_one(n);
        assert_eq!(slate.stage(), SlateStage::Round1Done);
        assert_eq!(slate.tx.excess(3), slate.pub_blind_sum());
        for i in (0..n).rev() {
            slate.fill_round_2(&keys[i as usize], &secrets(i).1, i).unwrap();
        }
        assert_eq!(slate.stage(), SlateStage::Round2Done);
        assert!(slate.verify_part_sigs());
        assert_eq!(slate.finalize(), Ok(()));
        assert_eq!(slate.stage(), SlateStage::Finalized);
        let kernel = slate.tx.body.kernels[0];
        assert!(kernel.verify());
        assert_eq!(kernel.excess, slate.pub_blind_sum());
        assert_eq!(kernel.excess_sig, slate.aggregate_signature());
        assert_eq!(kernel.fee, 3);
        // finalizing again changes nothing
        let once = slate.clone();
        assert_eq!(slate.finalize(), Ok(()));
        assert_eq!(slate, once);
    }
}

#[test]
fn finalize_fails_when_any_one_participant_has_not_signed() {
    let n = 4u64;
    for missing in 0..n {
        let (mut slate, keys) = slate_after_round_one(n);
        for i in 0..n {
            if i != missing {
                slate.fill_round_2(&keys[i as usize], &secrets(i).1, i).unwrap();
            }
        }
        let before = slate.clone();
        assert_eq!(
            slate.finalize(),
            Err(ErrorKind::ProtocolViolation(Violation::MissingRoundTwo))
        );
        assert_eq!(slate, before);
        assert!(!slate.is_fully_signed());
        assert_eq!(slate.stage(), SlateStage::Round1Done);
    }
}

#[test]
fn finalize_fails_on_a_wrong_key_or_kernel_count() {
    let (mut slate, keys) = slate_after_round_one(2);
    slate.fill_round_2(&keys[0], &secrets(0).1, 0).unwrap();
    // the second participant signs with a key that it did not publish
    let wrong = keys[1].plus(Scalar::new(1));
    slate.fill_round_2(&wrong, &secrets(1).1, 1).unwrap();
    assert!(!slate.verify_part_sigs());
    assert_eq!(slate.finalize(), Err(ErrorKind::InvalidSignature));

    let (mut slate, keys) = slate_after_round_one(1);
    slate.fill_round_2(&keys[0], &secrets(0).1, 0).unwrap();
    slate.tx.body.kernels.push(TxKernel::blank());
    assert_eq!(slate.finalize(), Err(ErrorKind::ProtocolViolation(Violation::KernelCount)));
}

#[test]
fn a_lock_height_makes_a_height_locked_kernel() {
    let (mut slate, _) = slate_after_round_one(0);
    slate.lock_height = 99;
    slate.tx.body.inputs.clear();
    slate.tx.body.outputs.clear();
    slate.fee = 0;
    assert_eq!(slate.finalize(), Ok(()));
    assert_eq!(slate.tx.body.kernels[0].features, KernelFeatures::HeightLocked);
    assert_eq!(slate.tx.body.kernels[0].lock_height, 99);
}

#[test]
fn round_one_replaces_only_the_participants_own_entry() {
    let mut slate = slate_at_height(1, 50, 10, 2);
    let (mut key0, nonce0) = secrets(0);
    let (mut key1, nonce1) = secrets(1);
    slate.fill_round_1(&mut key0, &nonce0, 0, None, Scalar::new(5)).unwrap();
    assert_eq!(key0, secrets(0).0.minus(Scalar::new(5)));
    assert_eq!(slate.tx.offset, Scalar::new(5));
    slate.fill_round_1(&mut key1, &nonce1, 1, Some("hi".to_string()), Scalar::new(6)).unwrap();
    // the offset was set already: the second key stays and so does the offset
    assert_eq!(key1, secrets(1).0);
    assert_eq!(slate.tx.offset, Scalar::new(5));
    let first = slate.clone();
    // the same round again, with the key as the first run left it
    slate.fill_round_1(&mut key0, &nonce0, 0, None, Scalar::new(5)).unwrap();
    assert_eq!(slate, first);
    // with another nonce, only that entry changes
    slate.fill_round_1(&mut key0, &Scalar::new(1), 0, None, Scalar::new(5)).unwrap();
    assert_eq!(slate.participant_data.len(), 2);
    assert_eq!(slate.participant_data[0].public_nonce, Scalar::new(1).public());
    assert_eq!(slate.participant_data[1], first.participant_data[1]);
    // a third participant has no room
    let (mut key2, nonce2) = secrets(2);
    let r = slate.fill_round_1(&mut key2, &nonce2, 2, None, Scalar::new(5));
    assert_eq!(r, Err(ErrorKind::ProtocolViolation(Violation::TooManyParticipants)));
    assert_eq!(key2, secrets(2).0);
    assert_eq!(slate.find_participant(1), 1);
    assert_eq!(slate.find_participant(2), 2);
    assert!(slate.participant_with_id(2).is_none());
    assert_eq!(slate.participant_with_id(0).unwrap().id, 0);
}

#[test]
fn round_two_needs_all_first_rounds_and_a_known_participant() {
    let mut slate = slate_at_height(1, 50, 10, 2);
    let (mut key0, nonce0) = secrets(0);
    slate.fill_round_1(&mut key0, &nonce0, 0, None, Scalar::new(5)).unwrap();
    let r = slate.fill_round_2(&key0, &nonce0, 0);
    assert_eq!(r, Err(ErrorKind::ProtocolViolation(Violation::MissingRoundOne)));
    let (mut key1, nonce1) = secrets(1);
    slate.fill_round_1(&mut key1, &nonce1, 1, None, Scalar::new(5)).unwrap();
    let r = slate.fill_round_2(&key0, &nonce0, 9);
    assert_eq!(r, Err(ErrorKind::ProtocolViolation(Violation::UnknownParticipant)));
    assert_eq!(slate.fill_round_2(&key0, &nonce0, 0), Ok(()));
    let e = slate.kernel_challenge();
    assert_eq!(e, compute_challenge(slate.pub_nonce_sum(), slate.pub_blind_sum(), 0, 0));
    assert_eq!(slate.participant_data[0].part_sig, Some(sign(key0, nonce0, e)));
    assert!(slate.participant_data[0].is_complete());
    assert!(!slate.participant_data[1].is_complete());
    // a forged part is found by the next signer
    slate.participant_data[0].part_sig = Some(sign(key0.plus(Scalar::new(1)), nonce0, e));
    assert_eq!(slate.fill_round_2(&key1, &nonce1, 1), Err(ErrorKind::InvalidSignature));
}

#[test]
fn the_order_of_second_rounds_does_not_matter() {
    let (slate, keys) = slate_after_round_one(3);
    let mut a = slate.clone();
    let mut b = slate;
    for i in [0u64, 1, 2] {
        a.fill_round_2(&keys[i as usize], &secrets(i).1, i).unwrap();
    }
    for i in [2u64, 0, 1] {
        b.fill_round_2(&keys[i as usize], &secrets(i).1, i).unwrap();
    }
    assert_eq!(a, b);
}

#[test]
fn messages_must_be_signed_by_their_participant() {
    let mut slate = slate_at_height(1, 50, 10, 2);
    let (mut key0, nonce0) = secrets(0);
    slate.fill_round_1(&mut key0, &nonce0, 0, Some("for lunch".to_string()), Scalar::new(5)).unwrap();
    assert_eq!(slate.verify_messages(), Ok(()));
    let d = compute_digest("for lunch".as_bytes());
    assert_eq!(slate.participant_data[0].message_sig, Some(sign_message(key0, d)));
    let messages = slate.participant_messages();
    assert_eq!(messages.len(), 1);
    assert_eq!(messages[0].message, Some("for lunch".to_string()));
    assert_eq!(messages[0].message_sig, slate.participant_data[0].message_sig);

    slate.participant_data[0].message = Some("for dinner".to_string());
    assert_eq!(slate.verify_messages(), Err(ErrorKind::InvalidSignature));
    slate.participant_data[0].message = Some("for lunch".to_string());
    slate.participant_data[0].message_sig = None;
    assert_eq!(slate.verify_messages(), Err(ErrorKind::InvalidSignature));
    slate.participant_data[0].message = None;
    assert_eq!(slate.verify_messages(), Ok(()));
}

#[test]
fn contexts_can_be_wiped() {
    let mut context = Context::new(Scalar::new(5), Scalar::new(6), Identifier::new(2, 0, 0, 0, 0));
    context.fee = 4;
    context.wipe();
    assert_eq!(context.sec_key, Scalar::new(0));
    assert_eq!(context.sec_nonce, Scalar::new(0));
    assert_eq!(context.fee, 4);
    assert_eq!(context.parent_key_id, Identifier::new(2, 0, 0, 0, 0));
}

fn full_slate() -> Slate {
    let (mut slate, keys) = slate_after_round_one(2);
    slate.participant_data[1].message = Some("grüße, 世界".to_string());
    slate.participant_data[1].message_sig =
        Some(Signature { nonce: Point { v: 1 }, s: Scalar::new(2) });
    slate.fill_round_2(&keys[0], &secrets(0).1, 0).unwrap();
    slate.tx.body.inputs.push(Input { features: OutputFeatures::Coinbase, commit: Point { v: 9 } });
    slate.lock_height = 4;
    slate.version_info.orig_version = 1;
    slate
}

#[test]
fn a_slate_survives_the_wire() {
    let slate = full_slate();
    let bytes = encode_slate(&slate);
    let back = decode_slate(&bytes).unwrap();
    assert_eq!(back, slate);
    assert_eq!(back.id, 77);
    assert_eq!(back.amount, 50);
    assert_eq!(back.fee, 3);
    assert_eq!(back.participant_data, slate.participant_data);
    assert_eq!(back.tx.body.kernels, slate.tx.body.kernels);

    let mut finalized = slate_after_round_one(1);
    finalized.0.fill_round_2(&finalized.1[0], &secrets(0).1, 0).unwrap();
    finalized.0.finalize().unwrap();
    let back = decode_slate(&encode_slate(&finalized.0)).unwrap();
    assert_eq!(back, finalized.0);
    assert!(back.tx.body.kernels[0].verify());

    let blank = Slate::blank(0, 0);
    assert_eq!(decode_slate(&encode_slate(&blank)).unwrap(), blank);
}

#[test]
fn the_wire_format_is_fixed() {
    let mut slate = Slate::blank(2, 0x0102);
    slate.amount = 0x0a;
    slate.participant_data.push(ParticipantData {
        id: 1,
        public_blind_excess: Point { v: 2 },
        public_nonce: Point { v: 3 },
        part_sig: None,
        message: Some("ok".to_string()),
        message_sig: None,
    });
    let bytes = encode_slate(&slate);
    let mut expected: Vec<u8> = vec![0x53, 0x4c, 0x41, 0x54, 0x01];
    expected.extend([2, 0, 2, 0, 2, 0]); // versions
    expected.extend(2u64.to_le_bytes()); // participants
    expected.extend(0x0102u128.to_le_bytes()); // id
    expected.extend(10u64.to_le_bytes()); // amount
    expected.extend([0u8; 24]); // fee, height, lock height
    expected.extend([0u8; 8]); // offset
    expected.extend(0u64.to_le_bytes()); // inputs
    expected.extend(0u64.to_le_bytes()); // outputs
    expected.extend(1u64.to_le_bytes()); // kernels
    expected.push(0); // plain
    expected.extend([0u8; 40]); // fee, lock height, excess, signature
    expected.extend(1u64.to_le_bytes()); // participants
    expected.extend(1u64.to_le_bytes());
    expected.extend(2u64.to_le_bytes());
    expected.extend(3u64.to_le_bytes());
    expected.push(0); // no partial signature
    expected.push(1); // a message
    expected.extend(2u64.to_le_bytes());
    expected.extend(b"ok");
    expected.push(0); // no message signature
    assert_eq!(bytes, expected);
}

#[test]
fn damaged_documents_are_refused() {
    let bytes = encode_slate(&full_slate());
    let format = |e| Err(ErrorKind::Format(e));
    assert_eq!(decode_slate(&[]), format(FormatError::Truncated));
    assert_eq!(decode_slate(&bytes[..4]), format(FormatError::Truncated));
    assert_eq!(decode_slate(&bytes[..bytes.len() - 1]), format(FormatError::Truncated));
    assert_eq!(decode_slate(&bytes[..40]), format(FormatError::Truncated));
    let mut more = bytes.clone();
    more.push(0);
    assert_eq!(decode_slate(&more), format(FormatError::TrailingBytes));
    let mut other = bytes.clone();
    other[4] = 2;
    assert_eq!(decode_slate(&other), format(FormatError::BadMagic));
    // the features of the first input
    let mut tagged = bytes.clone();
    let first_input = 5 + 6 + 8 + 16 + 32 + 8 + 8;
    assert_eq!(tagged[first_input], 0);
    tagged[first_input] = 7;
    assert_eq!(decode_slate(&tagged), format(FormatError::BadTag));
    // the last bytes of the message, which ends in a three-byte character
    let mut text = bytes.clone();
    let end = text.len() - 17 - 1;
    text[end] = 0xff;
    assert_eq!(decode_slate(&text), format(FormatError::BadText));
    // a list that claims more elements than there are bytes
    let mut long = encode_slate(&Slate::blank(0, 0));
    let count = long.len() - 8;
    long[count..].copy_from_slice(&u64::MAX.to_le_bytes());
    assert_eq!(decode_slate(&long), format(FormatError::Truncated));
    // what follows the claimed elements is read as elements
    let mut long = bytes;
    long[first_input - 8..first_input].copy_from_slice(&u64::MAX.to_le_bytes());
    assert_eq!(decode_slate(&long), format(FormatError::BadTag));
}

fn full_proof() -> libwallet::payment_proof::TxProof {
    libwallet::payment_proof::TxProof {
        slate_id: 0x0102,
        amount: 50,
        fee: 3,
        lock_height: 0,
        excess: Point { v: 11 },
        excess_sig: Signature { nonce: Point { v: 12 }, s: Scalar::new(13) },
        offset: Scalar::new(14),
        inputs: vec![Point { v: 15 }, Point { v: 16 }],
        outputs: vec![Point { v: 17 }],
        prover_msg: Some("für dich".to_string()),
        prover_key: Some(Point { v: 18 }),
        signature: Some(Signature { nonce: Point { v: 19 }, s: Scalar::new(20) }),
    }
}

#[test]
fn a_proof_survives_the_wire() {
    let proof = full_proof();
    let bytes = libwallet::wire::encode_proof(&proof);
    assert_eq!(libwallet::wire::decode_proof(&bytes), Ok(proof.clone()));
    let bare = libwallet::payment_proof::TxProof {
        inputs: vec![],
        outputs: vec![],
        prover_msg: None,
        prover_key: None,
        signature: None,
        ..proof
    };
    let bytes = libwallet::wire::encode_proof(&bare);
    assert_eq!(libwallet::wire::decode_proof(&bytes), Ok(bare));
}

#[test]
fn the_proof_format_is_fixed() {
    let bytes = libwallet::wire::encode_proof(&full_proof());
    let mut expected: Vec<u8> = vec![0x50, 0x52, 0x4f, 0x46, 0x01];
    expected.extend(0x0102u128.to_le_bytes());
    for v in [50u64, 3, 0, 11, 12, 13, 14] {
        expected.extend(v.to_le_bytes());
    }
    for v in [2u64, 15, 16, 1, 17] {
        expected.extend(v.to_le_bytes());
    }
    expected.push(1);
    expected.extend(9u64.to_le_bytes());
    expected.extend("für dich".as_bytes());
    expected.push(1);
    expected.extend(18u64.to_le_bytes());
    expected.push(1);
    expected.extend(19u64.to_le_bytes());
    expected.extend(20u64.to_le_bytes());
    assert_eq!(bytes, expected);
}

fn refused<T>(e: FormatError) -> Result<T, ErrorKind> {
    Err(ErrorKind::Format(e))
}

#[test]
fn damaged_proofs_are_refused() {
    let bytes = libwallet::wire::encode_proof(&full_proof());
    let decode = libwallet::wire::decode_proof;
    assert_eq!(decode(&bytes[..3]), refused(FormatError::Truncated));
    assert_eq!(decode(&bytes[..bytes.len() - 1]), refused(FormatError::Truncated));
    let mut more = bytes.clone();
    more.push(9);
    assert_eq!(decode(&more), refused(FormatError::TrailingBytes));
    // a slate is no proof
    assert_eq!(decode(&encode_slate(&full_slate())), refused(FormatError::BadMagic));
    assert_eq!(decode_slate(&bytes), refused(FormatError::BadMagic));
    let mut tagged = bytes.clone();
    let last_tag = tagged.len() - 17;
    assert_eq!(tagged[last_tag], 1);
    tagged[last_tag] = 2;
    assert_eq!(decode(&tagged), refused(FormatError::BadTag));
    let mut text = bytes;
    let in_text = text.len() - 17 - 9 - 1;
    text[in_text] = 0xff;
    assert_eq!(decode(&text), refused(FormatError::BadText));
}
