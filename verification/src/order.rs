//! The order of the prime subgroup and the multiples of it that turn a
//! reduced scalar into a clamped one.

use vstd::prelude::*;
use crate::integer::{le_bytes_of, le_value, lemma_pow256_values};

verus! {

/// The order `L` of the subgroup the base point generates:
/// `2^252 + 27742317777372353535851937790883648493`.
pub open spec fn group_order() -> nat {
    0x1000_0000_0000_0000_0000_0000_0000_0000_14de_f9de_a2f7_9cd6_5812_631a_5cf5_d3ednat
}

/// `2^254`, the least clamped integer.
pub open spec fn clamp_floor() -> nat {
    0x4000_0000_0000_0000_0000_0000_0000_0000_0000_0000_0000_0000_0000_0000_0000_0000nat
}

/// `2^255`, the bound every clamped integer stays below.
pub open spec fn clamp_ceiling() -> nat {
    0x8000_0000_0000_0000_0000_0000_0000_0000_0000_0000_0000_0000_0000_0000_0000_0000nat
}

/// `L - 2^252`.
pub const ORDER_LOW: u128 = 27742317777372353535851937790883648493;

/// `2^252 / 2^128`.
pub const ORDER_HIGH: u128 = 0x1000_0000_0000_0000_0000_0000_0000_0000;

/// The multiple `k * L`, `k < 8`, as a 256-bit little-endian integer.
pub fn order_multiple(k: u8) -> (r: [u8; 32])
    requires
        k <= 7,
    ensures
        le_value(r@) == k * group_order(),
{
    proof {
        lemma_pow256_values();
    }
    le_bytes_of(k as u128 * ORDER_LOW, k as u128 * ORDER_HIGH)
}

} // verus!
