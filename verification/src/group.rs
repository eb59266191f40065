//! The group in which keys, nonces and commitments live.
//!
//! Scalars and points are residues modulo the Mersenne prime `2^61 - 1`; a
//! point is a scalar multiple of one of two fixed generators. Every operation
//! reduces its arguments, so any `u64` is an acceptable representative. The
//! rest of the crate relies only on the operations and laws stated here.
//!
//! The group has the algebra that the signing protocol rests on and none of
//! the hardness that secrecy needs: whoever knows a point can compute its
//! scalar by a division.

use vstd::prelude::*;
use vstd::arithmetic::div_mod::{
    lemma_add_mod_noop, lemma_mul_mod_noop_general, lemma_sub_mod_noop, lemma_mod_bound,
};

verus! {

/// Order of the group.
pub const ORDER: u64 = 2305843009213693951;

/// Generator that carries blinding factors and keys.
pub const GENERATOR_G: u64 = 1152921504606846883;

/// Generator that carries values.
pub const GENERATOR_H: u64 = 768614336404564651;

/// A secret key, nonce, blinding factor or signature scalar.
#[derive(Clone, Copy, PartialEq, Eq, Structural, Debug)]
pub struct Scalar {
    pub v: u64,
}

/// A public key, public nonce or commitment.
#[derive(Clone, Copy, PartialEq, Eq, Structural, Debug)]
pub struct Point {
    pub v: u64,
}

/// The representative of `x` in `[0, ORDER)`.
pub open spec fn residue(x: int) -> u64 {
    (x % (ORDER as int)) as u64
}

/// The sum of two scalars.
pub open spec fn scalar_add(a: Scalar, b: Scalar) -> Scalar {
    Scalar { v: residue(a.v as int + b.v as int) }
}

/// The difference of two scalars.
pub open spec fn scalar_sub(a: Scalar, b: Scalar) -> Scalar {
    Scalar { v: residue(a.v as int - b.v as int) }
}

/// The product of two scalars.
pub open spec fn scalar_mul(a: Scalar, b: Scalar) -> Scalar {
    Scalar { v: residue(a.v as int * b.v as int) }
}

/// The sum of two points.
pub open spec fn point_add(a: Point, b: Point) -> Point {
    Point { v: residue(a.v as int + b.v as int) }
}

/// The difference of two points.
pub open spec fn point_sub(a: Point, b: Point) -> Point {
    Point { v: residue(a.v as int - b.v as int) }
}

/// The point `e * p`.
pub open spec fn point_scale(p: Point, e: Scalar) -> Point {
    Point { v: residue(p.v as int * e.v as int) }
}

/// The public point `s * G` of a secret scalar.
pub open spec fn point_of(s: Scalar) -> Point {
    Point { v: residue(s.v as int * GENERATOR_G as int) }
}

/// The point `value * H`.
pub open spec fn value_point(value: u64) -> Point {
    Point { v: residue(value as int * GENERATOR_H as int) }
}

/// The Pedersen commitment `value * H + blind * G`.
pub open spec fn commitment(value: u64, blind: Scalar) -> Point {
    point_add(value_point(value), point_of(blind))
}

/// A residue is below the order, and is what the remainder is.
pub proof fn lemma_residue_bound(x: int)
    ensures
        0 <= x % (ORDER as int) < ORDER,
        residue(x) as int == x % (ORDER as int),
{
    lemma_mod_bound(x, ORDER as int);
}

/// Reducing a summand first does not change a reduced sum.
pub proof fn lemma_residue_add(x: int, y: int)
    ensures
        residue(residue(x) as int + y) == residue(x + y),
        residue(x + residue(y) as int) == residue(x + y),
        residue(residue(x) as int + residue(y) as int) == residue(x + y),
{
    let m = ORDER as int;
    lemma_residue_bound(x);
    lemma_residue_bound(y);
    lemma_add_mod_noop(x, y, m);
    lemma_add_mod_noop(x % m, y, m);
    lemma_add_mod_noop(x, y % m, m);
    lemma_mod_bound(x % m, m);
    lemma_mod_bound(y % m, m);
    vstd::arithmetic::div_mod::lemma_mod_twice(x, m);
    vstd::arithmetic::div_mod::lemma_mod_twice(y, m);
}

/// Reducing the subtrahend or minuend first does not change a reduced difference.
pub proof fn lemma_residue_sub(x: int, y: int)
    ensures
        residue(residue(x) as int - y) == residue(x - y),
        residue(x - residue(y) as int) == residue(x - y),
        residue(residue(x) as int - residue(y) as int) == residue(x - y),
{
    let m = ORDER as int;
    lemma_residue_bound(x);
    lemma_residue_bound(y);
    lemma_sub_mod_noop(x, y, m);
    lemma_sub_mod_noop(x % m, y, m);
    lemma_sub_mod_noop(x, y % m, m);
    vstd::arithmetic::div_mod::lemma_mod_twice(x, m);
    vstd::arithmetic::div_mod::lemma_mod_twice(y, m);
}

/// Reducing a factor first does not change a reduced product.
pub proof fn lemma_residue_mul(x: int, y: int)
    ensures
        residue(residue(x) as int * y) == residue(x * y),
        residue(x * residue(y) as int) == residue(x * y),
        residue(residue(x) as int * residue(y) as int) == residue(x * y),
{
    let m = ORDER as int;
    lemma_residue_bound(x);
    lemma_residue_bound(y);
    lemma_mul_mod_noop_general(x, y, m);
}

fn reduce_wide(x: u128) -> (r: u64)
    ensures
        r == residue(x as int),
{
    proof {
        lemma_residue_bound(x as int);
    }
    (x % (ORDER as u128)) as u64
}

pub(crate) fn add_mod(a: u64, b: u64) -> (r: u64)
    ensures
        r == residue(a as int + b as int),
{
    reduce_wide(a as u128 + b as u128)
}

fn sub_mod(a: u64, b: u64) -> (r: u64)
    ensures
        r == residue(a as int - b as int),
{
    let rb: u64 = b % ORDER;
    proof {
        lemma_residue_bound(b as int);
        lemma_residue_sub(a as int, b as int);
        // a - (b mod q) and a + q - (b mod q) agree modulo q
        vstd::arithmetic::div_mod::lemma_mod_add_multiples_vanish(
            a as int - rb as int,
            ORDER as int,
        );
    }
    reduce_wide(a as u128 + (ORDER - rb) as u128)
}

pub(crate) fn mul_mod(a: u64, b: u64) -> (r: u64)
    ensures
        r == residue(a as int * b as int),
{
    assert(a as int * b as int <= 0xffff_ffff_ffff_ffff * 0xffff_ffff_ffff_ffff) by (
        nonlinear_arith
    )
        requires
            0 <= a as int <= 0xffff_ffff_ffff_ffff,
            0 <= b as int <= 0xffff_ffff_ffff_ffff,
    ;
    assert(0 <= a as int * b as int) by (nonlinear_arith)
        requires
            0 <= a as int,
            0 <= b as int,
    ;
    reduce_wide(a as u128 * b as u128)
}

impl Scalar {
    /// The scalar that `v` represents.
    pub fn new(v: u64) -> (r: Scalar)
        ensures
            r == (Scalar { v }),
    {
        Scalar { v }
    }

    /// The sum of this scalar and another.
    pub fn plus(self, other: Scalar) -> (r: Scalar)
        ensures
            r == scalar_add(self, other),
    {
        Scalar { v: add_mod(self.v, other.v) }
    }

    /// This scalar less another.
    pub fn minus(self, other: Scalar) -> (r: Scalar)
        ensures
            r == scalar_sub(self, other),
    {
        Scalar { v: sub_mod(self.v, other.v) }
    }

    /// The product of this scalar and another.
    pub fn times(self, other: Scalar) -> (r: Scalar)
        ensures
            r == scalar_mul(self, other),
    {
        Scalar { v: mul_mod(self.v, other.v) }
    }

    /// The public point of this secret scalar.
    pub fn public(self) -> (r: Point)
        ensures
            r == point_of(self),
    {
        Point { v: mul_mod(self.v, GENERATOR_G) }
    }
}

impl Point {
    /// The sum of this point and another.
    pub fn plus(self, other: Point) -> (r: Point)
        ensures
            r == point_add(self, other),
    {
        Point { v: add_mod(self.v, other.v) }
    }

    /// This point less another.
    pub fn minus(self, other: Point) -> (r: Point)
        ensures
            r == point_sub(self, other),
    {
        Point { v: sub_mod(self.v, other.v) }
    }

    /// The point `e` times this one.
    pub fn scale(self, e: Scalar) -> (r: Point)
        ensures
            r == point_scale(self, e),
    {
        Point { v: mul_mod(self.v, e.v) }
    }

    /// The point `value * H`.
    pub fn of_value(value: u64) -> (r: Point)
        ensures
            r == value_point(value),
    {
        Point { v: mul_mod(value, GENERATOR_H) }
    }

    /// The Pedersen commitment to `value` under the blinding factor `blind`.
    pub fn commit(value: u64, blind: Scalar) -> (r: Point)
        ensures
            r == commitment(value, blind),
    {
        Point::of_value(value).plus(blind.public())
    }
}

} // verus!
