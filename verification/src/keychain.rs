//! Key paths and the derivation of blinding factors from a master secret.

use vstd::prelude::*;
use crate::group::{Point, Scalar, add_mod, commitment, mul_mod, residue};

verus! {

/// A key derivation path of up to four steps.
#[derive(Clone, Copy, PartialEq, Eq, Structural, Debug)]
pub struct Identifier {
    pub depth: u8,
    pub d0: u32,
    pub d1: u32,
    pub d2: u32,
    pub d3: u32,
}

/// The factor by which a derivation step spreads what it has.
pub const DERIVE_MIX: u64 = 1099511628211;

/// One step of the derivation: folds `x` into `acc`.
pub open spec fn absorb(acc: u64, x: u64) -> u64 {
    residue(residue(acc as int * DERIVE_MIX as int) as int + x as int)
}

/// The blinding factor that the master secret gives to a key path.
pub open spec fn derived_key(master: Scalar, id: Identifier) -> Scalar {
    Scalar {
        v: absorb(
            absorb(
                absorb(absorb(absorb(master.v, id.depth as u64), id.d0 as u64), id.d1 as u64),
                id.d2 as u64,
            ),
            id.d3 as u64,
        ),
    }
}

/// The path one step below `parent`, with `n` as the new last step. A path
/// of full depth has no child and is returned unchanged.
pub open spec fn child_path(parent: Identifier, n: u32) -> Identifier {
    if parent.depth == 0 {
        Identifier { depth: 1, d0: n, ..parent }
    } else if parent.depth == 1 {
        Identifier { depth: 2, d1: n, ..parent }
    } else if parent.depth == 2 {
        Identifier { depth: 3, d2: n, ..parent }
    } else if parent.depth == 3 {
        Identifier { depth: 4, d3: n, ..parent }
    } else {
        parent
    }
}

fn absorb_step(acc: u64, x: u64) -> (r: u64)
    ensures
        r == absorb(acc, x),
{
    add_mod(mul_mod(acc, DERIVE_MIX), x)
}

impl Identifier {
    /// The path of the given depth and steps.
    pub fn new(depth: u8, d0: u32, d1: u32, d2: u32, d3: u32) -> (id: Identifier)
        ensures
            id == (Identifier { depth, d0, d1, d2, d3 }),
    {
        Identifier { depth, d0, d1, d2, d3 }
    }

    /// The path one step below this one.
    pub fn extend(&self, n: u32) -> (child: Identifier)
        ensures
            child == child_path(*self, n),
    {
        if self.depth == 0 {
            Identifier { depth: 1, d0: n, d1: self.d1, d2: self.d2, d3: self.d3 }
        } else if self.depth == 1 {
            Identifier { depth: 2, d0: self.d0, d1: n, d2: self.d2, d3: self.d3 }
        } else if self.depth == 2 {
            Identifier { depth: 3, d0: self.d0, d1: self.d1, d2: n, d3: self.d3 }
        } else if self.depth == 3 {
            Identifier { depth: 4, d0: self.d0, d1: self.d1, d2: self.d2, d3: n }
        } else {
            *self
        }
    }
}

/// Derives blinding factors and commitments from one master secret.
#[derive(Clone, Copy, PartialEq, Eq, Structural, Debug)]
pub struct Keychain {
    pub master: Scalar,
}

impl Keychain {
    /// The keychain whose master secret is the seed.
    pub fn from_seed(seed: u64) -> (keychain: Keychain)
        ensures
            keychain.master == (Scalar { v: seed }),
    {
        Keychain { master: Scalar { v: seed } }
    }

    /// The blinding factor of a key path.
    pub fn derive_key(&self, id: &Identifier) -> (key: Scalar)
        ensures
            key == derived_key(self.master, *id),
    {
        let a: u64 = absorb_step(self.master.v, id.depth as u64);
        let b: u64 = absorb_step(a, id.d0 as u64);
        let c: u64 = absorb_step(b, id.d1 as u64);
        let d: u64 = absorb_step(c, id.d2 as u64);
        Scalar { v: absorb_step(d, id.d3 as u64) }
    }

    /// The commitment to `value` under the blinding factor of a key path.
    pub fn commit(&self, value: u64, id: &Identifier) -> (c: Point)
        ensures
            c == commitment(value, derived_key(self.master, *id)),
    {
        Point::commit(value, self.derive_key(id))
    }
}

} // verus!
