//! Payment proofs: what a payer shows to prove that a kernel paid a payee.

use vstd::prelude::*;
use vstd::string::*;
use vstd::bytes::{spec_u64_to_le_bytes, u64_to_le_bytes};
use vstd::utf8::encode_utf8;
use crate::aggsig::{
    Signature, compute_digest, digest, message_challenge, message_signature, sign_message,
    signature_valid, verify_message,
};
use crate::error::ErrorKind;
use crate::group::{Point, Scalar, point_add, point_of, point_sub, value_point};
use crate::keychain::{Identifier, Keychain, derived_key};
use crate::slate::{Slate, SlateView, text_view};
use crate::transaction::{
    KernelFeatures, TxKernel, input_commits, kernel_valid, output_commits, sum_of, sum_points,
};
use crate::wallet::{NodeClient, TxQuery, Wallet, WalletView, matching_txs, positions};

verus! {

/// The proof of a payment: the kernel, the commitments that it binds, and
/// what the payer has to say.
#[derive(PartialEq, Eq, Debug)]
pub struct TxProof {
    pub slate_id: u128,
    pub amount: u64,
    pub fee: u64,
    pub lock_height: u64,
    /// The excess of the kernel.
    pub excess: Point,
    /// The signature of the kernel.
    pub excess_sig: Signature,
    /// The kernel offset of the transaction.
    pub offset: Scalar,
    pub inputs: Vec<Point>,
    pub outputs: Vec<Point>,
    /// What the payer says about the payment.
    pub prover_msg: Option<String>,
    /// The public key of the address that the payment was sent from.
    pub prover_key: Option<Point>,
    /// The payer's signature of the kernel and the message.
    pub signature: Option<Signature>,
}

/// A proof as a mathematical value.
pub struct TxProofView {
    pub slate_id: u128,
    pub amount: u64,
    pub fee: u64,
    pub lock_height: u64,
    pub excess: Point,
    pub excess_sig: Signature,
    pub offset: Scalar,
    pub inputs: Seq<Point>,
    pub outputs: Seq<Point>,
    pub prover_msg: Option<Seq<char>>,
    pub prover_key: Option<Point>,
    pub signature: Option<Signature>,
}

impl View for TxProof {
    type V = TxProofView;

    open spec fn view(&self) -> TxProofView {
        TxProofView {
            slate_id: self.slate_id,
            amount: self.amount,
            fee: self.fee,
            lock_height: self.lock_height,
            excess: self.excess,
            excess_sig: self.excess_sig,
            offset: self.offset,
            inputs: self.inputs@,
            outputs: self.outputs@,
            prover_msg: text_view(self.prover_msg),
            prover_key: self.prover_key,
            signature: self.signature,
        }
    }
}

/// What a proof is found to be.
#[derive(Clone, Copy, PartialEq, Eq, Structural, Debug)]
pub enum ProofVerdict {
    /// The proof does not hold together: it is forged or damaged.
    Invalid,
    /// The proof holds together; the chain does not show its kernel.
    Unconfirmed,
    /// The proof holds together and the chain shows its kernel under the
    /// given number of blocks, the kernel's own block included.
    Confirmed { confirmations: u64 },
}

/// The excess that the commitments, the fee and the offset of a proof give.
pub open spec fn bound_excess(p: TxProofView) -> Point {
    point_sub(
        point_add(point_sub(sum_points(p.outputs), sum_points(p.inputs)), value_point(p.fee)),
        point_of(p.offset),
    )
}

/// The kernel that a proof speaks of.
pub open spec fn proof_kernel(p: TxProofView) -> TxKernel {
    TxKernel {
        features: if p.lock_height == 0 {
            KernelFeatures::Plain
        } else {
            KernelFeatures::HeightLocked
        },
        fee: p.fee,
        lock_height: p.lock_height,
        excess: p.excess,
        excess_sig: p.excess_sig,
    }
}

/// The bytes that the payer signs: the excess, then the message.
pub open spec fn proof_bytes(p: TxProofView) -> Seq<u8> {
    spec_u64_to_le_bytes(p.excess.v) + match p.prover_msg {
        Some(text) => encode_utf8(text),
        None => Seq::<u8>::empty(),
    }
}

/// Whether the payer's signature, if there is one, is valid for the payer's
/// key.
pub open spec fn payer_signature_ok(p: TxProofView) -> bool {
    match p.signature {
        Some(sig) => match p.prover_key {
            Some(key) => signature_valid(sig, key, message_challenge(key, digest(proof_bytes(p)))),
            None => false,
        },
        None => true,
    }
}

/// Whether a proof holds together: the excess is what the commitments
/// give, the kernel signature is valid for it, and so is the payer's
/// signature where there is one.
pub open spec fn proof_sound(p: TxProofView) -> bool {
    &&& p.excess == bound_excess(p)
    &&& kernel_valid(proof_kernel(p))
    &&& payer_signature_ok(p)
}

/// What a proof is found to be, given whether it holds together, where the
/// chain shows its kernel, and how high the chain is.
pub open spec fn verdict_of(
    sound: bool,
    kernel_height: Option<u64>,
    chain_height: u64,
) -> ProofVerdict {
    if !sound {
        ProofVerdict::Invalid
    } else {
        match kernel_height {
            Some(h) => if h <= chain_height {
                ProofVerdict::Confirmed {
                    confirmations: if chain_height - h == u64::MAX {
                        u64::MAX
                    } else {
                        (chain_height - h + 1) as u64
                    },
                }
            } else {
                ProofVerdict::Unconfirmed
            },
            None => ProofVerdict::Unconfirmed,
        }
    }
}

/// The key path of the relay address with the given number.
pub open spec fn relay_key_id(key_path: u64) -> Identifier {
    Identifier {
        depth: 3,
        d0: 0,
        d1: (key_path >> 32) as u32,
        d2: (key_path & 0xffff_ffff) as u32,
        d3: 0,
    }
}

/// The proof of the payment of a slate, not signed by the payer.
pub open spec fn proof_of_slate(s: SlateView) -> TxProofView {
    TxProofView {
        slate_id: s.id,
        amount: s.amount,
        fee: s.fee,
        lock_height: s.lock_height,
        excess: s.tx.kernels[0].excess,
        excess_sig: s.tx.kernels[0].excess_sig,
        offset: s.tx.offset,
        inputs: input_commits(s.tx.inputs),
        outputs: output_commits(s.tx.outputs),
        prover_msg: None,
        prover_key: None,
        signature: None,
    }
}

/// A proof after the payer has signed it with the key of a relay address.
pub open spec fn signed_proof(p: TxProofView, keychain: Keychain, key_path: u64) -> TxProofView {
    let secret = derived_key(keychain.master, relay_key_id(key_path));
    TxProofView {
        prover_key: Some(point_of(secret)),
        signature: Some(message_signature(secret, digest(proof_bytes(p)))),
        ..p
    }
}

/// A proof as it is exported: with the message, where one is given, and
/// then signed, where the key path of the sending address is known.
pub open spec fn exported_proof(
    p: TxProofView,
    keychain: Keychain,
    message: Seq<char>,
    key_path: Option<u64>,
) -> TxProofView {
    if message.len() == 0 {
        p
    } else {
        let with_message = TxProofView { prover_msg: Some(message), ..p };
        match key_path {
            Some(path) => signed_proof(with_message, keychain, path),
            None => with_message,
        }
    }
}

impl Clone for TxProof {
    fn clone(&self) -> (p: TxProof)
        ensures
            p@ == self@,
    {
        let inputs = self.inputs.clone();
        let outputs = self.outputs.clone();
        assert(inputs@ =~= self.inputs@);
        assert(outputs@ =~= self.outputs@);
        TxProof {
            slate_id: self.slate_id,
            amount: self.amount,
            fee: self.fee,
            lock_height: self.lock_height,
            excess: self.excess,
            excess_sig: self.excess_sig,
            offset: self.offset,
            inputs,
            outputs,
            prover_msg: match &self.prover_msg {
                Some(text) => Some(text.clone()),
                None => None,
            },
            prover_key: self.prover_key,
            signature: self.signature,
        }
    }
}

fn relay_key(key_path: u64) -> (id: Identifier)
    ensures
        id == relay_key_id(key_path),
{
    Identifier {
        depth: 3,
        d0: 0,
        d1: (key_path >> 32) as u32,
        d2: (key_path & 0xffff_ffff) as u32,
        d3: 0,
    }
}

impl TxProof {
    /// The proof of the payment of a slate, not signed by the payer. There
    /// is none for a slate whose transaction does not have one kernel.
    pub fn from_slate(slate: &Slate) -> (r: Option<TxProof>)
        ensures
            r is Some <==> slate@.tx.kernels.len() == 1,
            r is Some ==> r->Some_0@ == proof_of_slate(slate@),
    {
        if slate.tx.body.kernels.len() != 1 {
            return None;
        }
        let mut inputs: Vec<Point> = Vec::new();
        let mut i: usize = 0;
        while i < slate.tx.body.inputs.len()
            invariant
                i <= slate.tx.body.inputs.len(),
                inputs@ == input_commits(slate@.tx.inputs.subrange(0, i as int)),
            decreases slate.tx.body.inputs.len() - i,
        {
            inputs.push(slate.tx.body.inputs[i].commit);
            assert(inputs@ =~= input_commits(slate@.tx.inputs.subrange(0, i as int + 1)));
            i = i + 1;
        }
        assert(slate@.tx.inputs.subrange(0, i as int) =~= slate@.tx.inputs);
        let mut outputs: Vec<Point> = Vec::new();
        let mut k: usize = 0;
        while k < slate.tx.body.outputs.len()
            invariant
                k <= slate.tx.body.outputs.len(),
                outputs@ == output_commits(slate@.tx.outputs.subrange(0, k as int)),
            decreases slate.tx.body.outputs.len() - k,
        {
            outputs.push(slate.tx.body.outputs[k].commit);
            assert(outputs@ =~= output_commits(slate@.tx.outputs.subrange(0, k as int + 1)));
            k = k + 1;
        }
        assert(slate@.tx.outputs.subrange(0, k as int) =~= slate@.tx.outputs);
        Some(
            TxProof {
                slate_id: slate.id,
                amount: slate.amount,
                fee: slate.fee,
                lock_height: slate.lock_height,
                excess: slate.tx.body.kernels[0].excess,
                excess_sig: slate.tx.body.kernels[0].excess_sig,
                offset: slate.tx.offset,
                inputs,
                outputs,
                prover_msg: None,
                prover_key: None,
                signature: None,
            },
        )
    }

    /// The digest of the bytes that the payer signs.
    pub fn signing_digest(&self) -> (d: Scalar)
        ensures
            d == digest(proof_bytes(self@)),
    {
        let mut bytes = u64_to_le_bytes(self.excess.v);
        match &self.prover_msg {
            Some(text) => {
                bytes.extend_from_slice(text.as_str().as_bytes());
            },
            None => {},
        }
        assert(bytes@ =~= proof_bytes(self@));
        compute_digest(bytes.as_slice())
    }

    /// Whether the proof holds together.
    pub fn check(&self) -> (ok: bool)
        ensures
            ok == proof_sound(self@),
    {
        let bound = sum_of(&self.outputs).minus(sum_of(&self.inputs)).plus(
            Point::of_value(self.fee),
        ).minus(self.offset.public());
        if !(self.excess == bound) {
            return false;
        }
        let kernel = TxKernel {
            features: if self.lock_height == 0 {
                KernelFeatures::Plain
            } else {
                KernelFeatures::HeightLocked
            },
            fee: self.fee,
            lock_height: self.lock_height,
            excess: self.excess,
            excess_sig: self.excess_sig,
        };
        if !kernel.verify() {
            return false;
        }
        match self.signature {
            Some(sig) => match self.prover_key {
                Some(key) => verify_message(sig, key, self.signing_digest()),
                None => false,
            },
            None => true,
        }
    }

    /// Signs the proof with the key of the relay address with the given
    /// number.
    pub fn sign(&mut self, keychain: &Keychain, key_path: u64)
        ensures
            final(self)@ == signed_proof(old(self)@, *keychain, key_path),
            payer_signature_ok(final(self)@),
    {
        let secret = keychain.derive_key(&relay_key(key_path));
        let d = self.signing_digest();
        let ghost bytes_before = proof_bytes(self@);
        self.prover_key = Some(secret.public());
        self.signature = Some(sign_message(secret, d));
        assert(proof_bytes(self@) == bytes_before);
    }

    /// Prepares the proof for export: takes the message, where one is
    /// given, and then signs, where the key path of the sending address is
    /// known.
    pub fn export(&mut self, keychain: &Keychain, message: &str, key_path: Option<u64>)
        ensures
            final(self)@ == exported_proof(old(self)@, *keychain, message@, key_path),
    {
        if message.unicode_len() == 0 {
            return ;
        }
        self.prover_msg = Some(String::from_str(message));
        match key_path {
            Some(path) => {
                self.sign(keychain, path);
            },
            None => {},
        }
    }
}

/// The key path of the relay address that the transaction with the given
/// log id was sent from, where the log of the wallet's account has that
/// transaction and the entry carries a key path.
pub open spec fn recorded_key_path(w: WalletView, tx_id: u32) -> Option<u64> {
    let found = matching_txs(
        w.tx_log,
        TxQuery {
            tx_id: Some(tx_id),
            tx_slate_id: None,
            parent_key_id: Some(w.parent_key_id),
            outstanding_only: false,
        },
    );
    if found.len() > 0 {
        w.tx_log[found[0]].grinrelay_key_path
    } else {
        None
    }
}

/// Prepares the proof of the transaction with the given log id for export:
/// takes the message, where one is given, and then signs, where the log
/// entry carries the key path of the address that the transaction was sent
/// from.
pub fn export_tx_proof<C: NodeClient>(
    wallet: &Wallet<C>,
    tx_id: u32,
    tx_proof: &mut TxProof,
    message: &str,
)
    ensures
        final(tx_proof)@ == exported_proof(
            old(tx_proof)@,
            wallet@.keychain,
            message@,
            recorded_key_path(wallet@, tx_id),
        ),
{
    let found = wallet.find_txs(Some(tx_id), None, Some(wallet.parent_key_id), false);
    let key_path = if found.len() > 0 {
        let i = found[0];
        assert(positions(found@)[0] == i as int);
        assert(wallet@.tx_log[i as int] == wallet.tx_log@[i as int]@);
        wallet.tx_log[i].grinrelay_key_path
    } else {
        None
    };
    tx_proof.export(&wallet.keychain, message, key_path);
}

/// What a proof is found to be, given whether it holds together, where the
/// chain shows its kernel, and how high the chain is.
pub fn verdict(sound: bool, kernel_height: Option<u64>, chain_height: u64) -> (v: ProofVerdict)
    ensures
        v == verdict_of(sound, kernel_height, chain_height),
{
    if !sound {
        return ProofVerdict::Invalid;
    }
    match kernel_height {
        Some(h) => {
            if h <= chain_height {
                let depth = chain_height - h;
                ProofVerdict::Confirmed {
                    confirmations: if depth == u64::MAX {
                        u64::MAX
                    } else {
                        depth + 1
                    },
                }
            } else {
                ProofVerdict::Unconfirmed
            }
        },
        None => ProofVerdict::Unconfirmed,
    }
}

/// Checks a proof and asks the node how deep its kernel lies. A proof that
/// does not hold together is found invalid without asking.
pub fn verify_tx_proof<C: NodeClient>(wallet: &Wallet<C>, proof: &TxProof) -> (r: Result<
    ProofVerdict,
    ErrorKind,
>)
    ensures
        match r {
            Ok(v) => if proof_sound(proof@) {
                exists|kernel_height: Option<u64>, chain_height: u64|
                    v == #[trigger] verdict_of(true, kernel_height, chain_height)
            } else {
                v == ProofVerdict::Invalid
            },
            Err(e) => e == ErrorKind::NodeUnavailable && proof_sound(proof@),
        },
{
    if !proof.check() {
        return Ok(ProofVerdict::Invalid);
    }
    let kernel_height = match wallet.client.get_kernel_height(&proof.excess) {
        Ok(h) => h,
        Err(_) => {
            return Err(ErrorKind::NodeUnavailable);
        },
    };
    let chain_height = match wallet.client.get_chain_height() {
        Ok(h) => h,
        Err(_) => {
            return Err(ErrorKind::NodeUnavailable);
        },
    };
    Ok(verdict(true, kernel_height, chain_height))
}

} // verus!
