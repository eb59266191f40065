//! Aggregated Schnorr signatures over the group.
//!
//! Every participant signs under a challenge that all of them share, so that
//! the sum of the partial signatures is a signature under the sum of the keys.

use vstd::prelude::*;
use crate::group::{
    GENERATOR_G, ORDER, Point, Scalar, add_mod, mul_mod, point_add, point_of, point_scale, residue,
    scalar_add, scalar_mul, lemma_residue_add, lemma_residue_mul,
};

verus! {

/// A Schnorr signature: the signer's public nonce and the response scalar.
#[derive(Clone, Copy, PartialEq, Eq, Structural, Debug)]
pub struct Signature {
    pub nonce: Point,
    pub s: Scalar,
}

/// The weight of the sum of the nonces in a challenge.
pub const MIX_NONCE: u64 = 6364136223846793005;

/// The weight of the sum of the keys in a challenge.
pub const MIX_KEY: u64 = 1442695040888963407;

/// The weight of the fee in a challenge.
pub const MIX_FEE: u64 = 2862933555777941757;

/// The weight of the lock height in a challenge.
pub const MIX_LOCK: u64 = 3037000493;

/// The challenge for a kernel that pays `fee` and unlocks at `lock_height`,
/// bound to the sum of the public nonces and the sum of the public keys.
pub open spec fn challenge(nonce_sum: Point, key_sum: Point, fee: u64, lock_height: u64) -> Scalar {
    let a = residue(nonce_sum.v as int * MIX_NONCE as int);
    let b = residue(key_sum.v as int * MIX_KEY as int);
    let c = residue(fee as int * MIX_FEE as int);
    let d = residue(lock_height as int * MIX_LOCK as int);
    Scalar { v: residue(residue(a as int + b as int) as int + residue(c as int + d as int) as int) }
}

/// The digest of a byte string, folded left to right.
pub open spec fn digest(bytes: Seq<u8>) -> Scalar
    decreases bytes.len(),
{
    if bytes.len() == 0 {
        Scalar { v: 0 }
    } else {
        let rest = digest(bytes.drop_last());
        Scalar { v: residue(residue(rest.v as int * 257) as int + bytes.last() as int + 1) }
    }
}

/// The challenge under which `key` signs a message with the given digest.
pub open spec fn message_challenge(key: Point, message: Scalar) -> Scalar {
    Scalar { v: residue(residue(key.v as int * MIX_KEY as int) as int + message.v as int) }
}

/// The nonce that `secret` uses to sign a message with the given digest.
pub open spec fn message_nonce(secret: Scalar, message: Scalar) -> Scalar {
    Scalar { v: residue(residue(secret.v as int * MIX_NONCE as int) as int + message.v as int) }
}

/// The signature that the holder of `secret` and `nonce` gives under `e`.
pub open spec fn signature_of(secret: Scalar, nonce: Scalar, e: Scalar) -> Signature {
    Signature { nonce: point_of(nonce), s: scalar_add(nonce, scalar_mul(e, secret)) }
}

/// Whether `sig` is a signature of the holder of `key` under `e`:
/// `s * G == R + e * P`.
pub open spec fn signature_valid(sig: Signature, key: Point, e: Scalar) -> bool {
    point_of(sig.s) == point_add(sig.nonce, point_scale(key, e))
}

/// The sum of two signatures.
pub open spec fn signature_add(a: Signature, b: Signature) -> Signature {
    Signature { nonce: point_add(a.nonce, b.nonce), s: scalar_add(a.s, b.s) }
}

/// The signature of a message by the holder of `secret`.
pub open spec fn message_signature(secret: Scalar, message: Scalar) -> Signature {
    signature_of(
        secret,
        message_nonce(secret, message),
        message_challenge(point_of(secret), message),
    )
}

/// A signature made with a secret key and a nonce verifies under the
/// matching public key.
pub proof fn lemma_signature_of_valid(secret: Scalar, nonce: Scalar, e: Scalar)
    ensures
        signature_valid(signature_of(secret, nonce, e), point_of(secret), e),
{
    let g = GENERATOR_G as int;
    let k = nonce.v as int;
    let x = secret.v as int;
    let c = e.v as int;
    // left: ((k + (c * x mod q)) mod q) * g mod q
    lemma_residue_add(k, c * x);
    lemma_residue_mul(k + residue(c * x) as int, g);
    lemma_residue_mul(k + c * x, g);
    assert(point_of(scalar_add(nonce, scalar_mul(e, secret))).v == residue((k + c * x) * g));
    // right: ((k * g mod q) + ((x * g mod q) * c mod q)) mod q
    lemma_residue_mul(x * g, c);
    lemma_residue_add(k * g, (x * g) * c);
    assert(point_add(point_of(nonce), point_scale(point_of(secret), e)).v == residue(
        k * g + (x * g) * c,
    ));
    assert((k + c * x) * g == k * g + (x * g) * c) by (nonlinear_arith);
}

/// The sum of two signatures under one challenge is a signature under the
/// sum of the two keys.
pub proof fn lemma_signature_add_valid(
    a: Signature,
    key_a: Point,
    b: Signature,
    key_b: Point,
    e: Scalar,
)
    requires
        signature_valid(a, key_a, e),
        signature_valid(b, key_b, e),
    ensures
        signature_valid(signature_add(a, b), point_add(key_a, key_b), e),
{
    let g = GENERATOR_G as int;
    let c = e.v as int;
    let sa = a.s.v as int;
    let sb = b.s.v as int;
    let ra = a.nonce.v as int;
    let rb = b.nonce.v as int;
    let pa = key_a.v as int;
    let pb = key_b.v as int;
    // left side
    lemma_residue_mul(sa + sb, g);
    assert((sa + sb) * g == sa * g + sb * g) by (nonlinear_arith);
    lemma_residue_add(sa * g, sb * g);
    assert(point_of(scalar_add(a.s, b.s)).v == residue(
        residue(sa * g) as int + residue(sb * g) as int,
    ));
    // the two hypotheses
    assert(residue(sa * g) == residue(ra + residue(pa * c) as int));
    assert(residue(sb * g) == residue(rb + residue(pb * c) as int));
    lemma_residue_add(ra, pa * c);
    lemma_residue_add(rb, pb * c);
    lemma_residue_add(ra + pa * c, rb + pb * c);
    // right side
    lemma_residue_mul(pa + pb, c);
    lemma_residue_add(ra + rb, (pa + pb) * c);
    lemma_residue_add(ra, rb);
    lemma_residue_add(residue(ra + rb) as int, residue((pa + pb) * c) as int);
    assert((ra + pa * c) + (rb + pb * c) == (ra + rb) + (pa + pb) * c) by (nonlinear_arith);
}

/// The signature with the zero nonce and the zero response is valid under
/// the zero key, whatever the challenge.
pub proof fn lemma_signature_zero_valid(e: Scalar)
    ensures
        signature_valid(
            Signature { nonce: Point { v: 0 }, s: Scalar { v: 0 } },
            Point { v: 0 },
            e,
        ),
{
    assert(0 * (GENERATOR_G as int) == 0);
    assert(0 * (e.v as int) == 0);
    assert(0int % (ORDER as int) == 0);
}

/// Computes the kernel challenge.
pub fn compute_challenge(nonce_sum: Point, key_sum: Point, fee: u64, lock_height: u64) -> (e:
    Scalar)
    ensures
        e == challenge(nonce_sum, key_sum, fee, lock_height),
{
    let a: u64 = mul_mod(nonce_sum.v, MIX_NONCE);
    let b: u64 = mul_mod(key_sum.v, MIX_KEY);
    let c: u64 = mul_mod(fee, MIX_FEE);
    let d: u64 = mul_mod(lock_height, MIX_LOCK);
    Scalar { v: add_mod(add_mod(a, b), add_mod(c, d)) }
}

/// Computes the digest of a byte string.
pub fn compute_digest(bytes: &[u8]) -> (d: Scalar)
    ensures
        d == digest(bytes@),
{
    let mut acc: u64 = 0;
    let mut i: usize = 0;
    while i < bytes.len()
        invariant
            i <= bytes.len(),
            acc == digest(bytes@.subrange(0, i as int)).v,
        decreases bytes.len() - i,
    {
        proof {
            let next = bytes@.subrange(0, i as int + 1);
            assert(next.drop_last() =~= bytes@.subrange(0, i as int));
            assert(next.last() == bytes@[i as int]);
        }
        let shifted: u64 = mul_mod(acc, 257);
        acc = add_mod(shifted, bytes[i] as u64 + 1);
        i = i + 1;
    }
    proof {
        assert(bytes@.subrange(0, i as int) =~= bytes@);
    }
    Scalar { v: acc }
}

/// Signs under the challenge `e`.
pub fn sign(secret: Scalar, nonce: Scalar, e: Scalar) -> (sig: Signature)
    ensures
        sig == signature_of(secret, nonce, e),
{
    Signature { nonce: nonce.public(), s: nonce.plus(e.times(secret)) }
}

/// Checks a signature against a public key under the challenge `e`.
pub fn verify(sig: Signature, key: Point, e: Scalar) -> (ok: bool)
    ensures
        ok == signature_valid(sig, key, e),
{
    sig.s.public() == sig.nonce.plus(key.scale(e))
}

/// Adds two signatures.
pub fn add_signatures(a: Signature, b: Signature) -> (sum: Signature)
    ensures
        sum == signature_add(a, b),
{
    Signature { nonce: a.nonce.plus(b.nonce), s: a.s.plus(b.s) }
}

/// Signs a message digest with a nonce derived from the key and the digest.
pub fn sign_message(secret: Scalar, message: Scalar) -> (sig: Signature)
    ensures
        sig == message_signature(secret, message),
        signature_valid(sig, point_of(secret), message_challenge(point_of(secret), message)),
{
    let nonce = Scalar { v: add_mod(mul_mod(secret.v, MIX_NONCE), message.v) };
    let key = secret.public();
    let e = Scalar { v: add_mod(mul_mod(key.v, MIX_KEY), message.v) };
    proof {
        lemma_signature_of_valid(secret, nonce, e);
    }
    sign(secret, nonce, e)
}

/// Checks a message signature against the signer's public key.
pub fn verify_message(sig: Signature, key: Point, message: Scalar) -> (ok: bool)
    ensures
        ok == signature_valid(sig, key, message_challenge(key, message)),
{
    let e = Scalar { v: add_mod(mul_mod(key.v, MIX_KEY), message.v) };
    verify(sig, key, e)
}

} // verus!
