//! Scalars: integers modulo the group order, held in reduced form.

use vstd::prelude::*;
use crate::integer::{
    add_le, le_bytes, le_bytes_of, le_value, lemma_le_bytes_of_value, lemma_pow256_values, pow256,
};
use crate::order::group_order;

verus! {

/// An integer modulo the group order `L`, stored as the 32 little-endian
/// bytes of its representative below `L`.
#[derive(Clone, Copy, Debug)]
pub struct Scalar {
    pub(crate) bytes: [u8; 32],
}

impl View for Scalar {
    type V = nat;

    /// The integer the stored bytes denote.
    closed spec fn view(&self) -> nat {
        le_value(self.bytes@)
    }
}

/// Reduces a 256-bit little-endian integer modulo the group order.
///
/// Trusted: calls `Scalar::from_bytes_mod_order` of `curve25519-dalek` and
/// reads the result back with `Scalar::to_bytes`. The contract claims that
/// the bytes returned denote the remainder of the input modulo `L`, which is
/// what the crate documents for a scalar built this way.
#[verifier::external_body]
fn reduce_mod_order(bytes: &[u8; 32]) -> (r: [u8; 32])
    ensures
        le_value(r@) == le_value(bytes@) % group_order(),
{
    curve25519_dalek::scalar::Scalar::from_bytes_mod_order(*bytes).to_bytes()
}

impl Scalar {
    /// The stored representative is the reduced one.
    pub open spec fn wf(&self) -> bool {
        self@ < group_order()
    }

    /// The scalar a 256-bit little-endian integer reduces to. Applied to a
    /// clamped private key this is the inverse of the alias conversion: no
    /// bit needs to be stripped first.
    pub fn from_private_key_bytes(bytes: &[u8; 32]) -> (s: Scalar)
        ensures
            s.wf(),
            s@ == le_value(bytes@) % group_order(),
    {
        Scalar { bytes: reduce_mod_order(bytes) }
    }

    /// The scalar `n`. Every 64-bit number is below the group order.
    pub fn from_u64(n: u64) -> (s: Scalar)
        ensures
            s.wf(),
            s@ == n,
    {
        proof {
            assert(0 * pow256(16) == 0);
        }
        Scalar { bytes: le_bytes_of(n as u128, 0) }
    }

    /// The little-endian bytes of the reduced representative.
    pub fn to_bytes(&self) -> (r: [u8; 32])
        ensures
            r@ == le_bytes(self@, 32),
            le_value(r@) == self@,
    {
        proof {
            lemma_le_bytes_of_value(self.bytes@);
        }
        self.bytes
    }

    /// The scalar `self + n`.
    pub fn plus(&self, n: u64) -> (s: Scalar)
        requires
            self.wf(),
        ensures
            s.wf(),
            s@ == (self@ + n as nat) % group_order(),
    {
        let addend: [u8; 32] = le_bytes_of(n as u128, 0);
        let (sum, carry) = add_le(&self.bytes, &addend);
        proof {
            lemma_pow256_values();
            assert(0 * pow256(16) == 0);
            assert(!carry);
        }
        Scalar { bytes: reduce_mod_order(&sum) }
    }
}

} // verus!
