//! Conversion between a reduced scalar and the clamped private key that is
//! congruent to it.
//!
//! Adding scalars reduces them modulo `L`, which destroys the fixed bits a
//! clamped key has. Among `s + 4L`, `s + 5L`, `s + 6L` and `s + 7L` at most
//! one is a multiple of eight, because `L` is `5` modulo `8`; that one is
//! the clamped key, provided it stays below `2^255`.

use vstd::prelude::*;
use crate::error::InvariantViolation;
use crate::integer::{
    add_le, le_bytes, le_value, lemma_le_bytes_of_value, lemma_le_value_low_byte,
    lemma_le_value_top_byte, lemma_pow256_values, pow256,
};
use crate::order::{clamp_ceiling, clamp_floor, group_order, order_multiple};
use crate::scalar::Scalar;

verus! {

/// A private key in the form X25519 uses: bits 0 to 2 clear, bit 254 set,
/// bit 255 clear.
pub open spec fn is_clamped(key: Seq<u8>) -> bool {
    &&& key.len() == 32
    &&& key[0] % 8 == 0
    &&& 64 <= key[31] <= 127
}

/// The multiple of `L` that clears the low three bits of a scalar whose low
/// three bits are `low_bits`, if one of `4..=7` does.
pub open spec fn alias_multiplier(low_bits: nat) -> Option<nat> {
    if low_bits == 4 {
        Some(4)
    } else if low_bits == 7 {
        Some(5)
    } else if low_bits == 2 {
        Some(6)
    } else if low_bits == 5 {
        Some(7)
    } else {
        None
    }
}

/// The clamped integer congruent to the reduced scalar `s`, or the reason
/// there is none.
pub open spec fn alias_of(s: nat) -> Result<nat, InvariantViolation> {
    match alias_multiplier(s % 8) {
        None => Err(InvariantViolation::UnexpectedLowBits),
        Some(k) => if s + k * group_order() < clamp_ceiling() {
            Ok(s + k * group_order())
        } else {
            Err(InvariantViolation::AliasOutOfRange)
        },
    }
}

/// A 32-byte string is clamped exactly when the number it denotes is a
/// multiple of eight in `[2^254, 2^255)`.
pub proof fn lemma_clamped_value(key: Seq<u8>)
    requires
        key.len() == 32,
    ensures
        is_clamped(key) <==> le_value(key) % 8 == 0 && clamp_floor() <= le_value(key)
            < clamp_ceiling(),
{
    lemma_le_value_low_byte(key);
    lemma_le_value_top_byte(key);
    lemma_pow256_values();
    let top: nat = key[31] as nat;
    let high: nat = pow256(31);
    assert(top >= 64 ==> top * high >= 64 * high) by (nonlinear_arith);
    assert(top <= 63 ==> top * high <= 63 * high) by (nonlinear_arith);
    assert(top >= 128 ==> top * high >= 128 * high) by (nonlinear_arith);
    assert(top <= 127 ==> top * high <= 127 * high) by (nonlinear_arith);
}

/// An alias is congruent to its scalar and is a clamped integer.
pub proof fn lemma_alias_is_clamped(s: nat)
    requires
        s < group_order(),
        alias_of(s) is Ok,
    ensures
        alias_of(s)->Ok_0 % group_order() == s,
        alias_of(s)->Ok_0 % 8 == 0,
        clamp_floor() <= alias_of(s)->Ok_0 < clamp_ceiling(),
{
    let k: nat = alias_multiplier(s % 8)->Some_0;
    assert(k == 4 || k == 5 || k == 6 || k == 7);
    lemma_mod_of_shifted(s, k);
}

/// Of the four candidates `s + k * L`, `4 <= k <= 7`, only the one the
/// table picks is a multiple of eight, so at most one of them is clamped.
pub proof fn lemma_alias_unique(s: nat, k: nat)
    requires
        4 <= k <= 7,
    ensures
        (s + k * group_order()) % 8 == 0 <==> alias_multiplier(s % 8) == Some(k),
{
    assert(k == 4 || k == 5 || k == 6 || k == 7);
}

/// Reducing a clamped private key and converting the scalar back gives the
/// key again, for every clamped key that is at least `4 * L`. The clamped
/// integers below `4 * L` are the `4 * (L - 2^252)` smallest ones; `2^254`
/// itself is one of them.
pub proof fn lemma_clamped_round_trip(key: Seq<u8>)
    requires
        is_clamped(key),
        le_value(key) >= 4 * group_order(),
    ensures
        alias_of(le_value(key) % group_order()) == Ok::<nat, InvariantViolation>(le_value(key)),
        le_bytes(le_value(key), 32) == key,
{
    lemma_clamped_value(key);
    lemma_round_trip_value(le_value(key));
    lemma_le_bytes_of_value(key);
}

/// The round trip on numbers: a multiple of eight in `[4L, 2^255)` is the
/// alias of its own remainder.
pub proof fn lemma_round_trip_value(n: nat)
    requires
        n % 8 == 0,
        4 * group_order() <= n < clamp_ceiling(),
    ensures
        alias_of(n % group_order()) == Ok::<nat, InvariantViolation>(n),
{
    let q: nat = n / group_order();
    let s: nat = n % group_order();
    assert(n == group_order() * q + s) by (nonlinear_arith)
        requires
            q == n / group_order(),
            s == n % group_order(),
            group_order() > 0,
    ;
    assert(q >= 4 && q <= 7) by (nonlinear_arith)
        requires
            n == group_order() * q + s,
            s < group_order(),
            4 * group_order() <= n,
            n < 8 * group_order(),
    ;
    assert(q == 4 || q == 5 || q == 6 || q == 7);
    assert(group_order() * q == q * group_order()) by (nonlinear_arith);
}

/// A clamped key stays the alias of its scalar while multiples of eight are
/// added to both: if `n` is a multiple of eight in `[4L, 2^255)` and so is
/// `n + count`, the scalar `(n mod L) + count` converts to `n + count`.
pub proof fn lemma_step_keeps_alias(n: nat, count: nat)
    requires
        n % 8 == 0,
        count % 8 == 0,
        4 * group_order() <= n,
        n + count < clamp_ceiling(),
    ensures
        alias_of((n % group_order() + count) % group_order()) == Ok::<nat, InvariantViolation>(
            n + count,
        ),
{
    let m: nat = n + count;
    let order: nat = group_order();
    assert(m % 8 == 0) by {
        assert(n % 8 == 0 && count % 8 == 0);
    }
    assert(4 * order <= m);
    assert(alias_of(m % order) == Ok::<nat, InvariantViolation>(m)) by {
        lemma_round_trip_value(m);
    }
    assert((n % order + count) % order == m % order) by {
        lemma_add_mod_left(n, count, order);
    }
}

/// `(a mod m + b) mod m == (a + b) mod m`.
pub proof fn lemma_add_mod_left(a: nat, b: nat, m: nat)
    requires
        m > 0,
    ensures
        (a % m + b) % m == (a + b) % m,
{
    vstd::arithmetic::div_mod::lemma_add_mod_noop(a as int, b as int, m as int);
    vstd::arithmetic::div_mod::lemma_add_mod_noop((a % m) as int, b as int, m as int);
    vstd::arithmetic::div_mod::lemma_mod_twice(a as int, m as int);
}

proof fn lemma_mod_of_shifted(s: nat, k: nat)
    requires
        s < group_order(),
    ensures
        (s + k * group_order()) % group_order() == s,
{
    vstd::arithmetic::div_mod::lemma_mod_multiples_vanish(
        k as int,
        s as int,
        group_order() as int,
    );
    assert(group_order() * k + s == s + k * group_order()) by (nonlinear_arith);
}

/// The private key for a scalar: the little-endian bytes of its clamped
/// alias. Fails when the scalar has none, which no scalar on a scan started
/// from a checked seed does in practice.
pub fn convert_scalar_to_private_key(s: &Scalar) -> (r: Result<[u8; 32], InvariantViolation>)
    requires
        s.wf(),
    ensures
        match alias_of(s@) {
            Ok(n) => r is Ok && r->Ok_0@ == le_bytes(n, 32) && is_clamped(r->Ok_0@),
            Err(e) => r == Err::<[u8; 32], InvariantViolation>(e),
        },
{
    let bytes: [u8; 32] = s.to_bytes();
    proof {
        lemma_le_value_low_byte(bytes@);
    }
    let low_bits: u8 = bytes[0] % 8;
    let k: u8 = if low_bits == 4 {
        4
    } else if low_bits == 7 {
        5
    } else if low_bits == 2 {
        6
    } else if low_bits == 5 {
        7
    } else {
        return Err(InvariantViolation::UnexpectedLowBits);
    };
    let addend: [u8; 32] = order_multiple(k);
    let (sum, carry) = add_le(&bytes, &addend);
    proof {
        lemma_pow256_values();
        assert(!carry);
        lemma_le_value_top_byte(sum@);
        let top: nat = sum[31] as nat;
        let high: nat = pow256(31);
        assert(top >= 128 ==> top * high >= 128 * high) by (nonlinear_arith);
        assert(top <= 127 ==> top * high <= 127 * high) by (nonlinear_arith);
    }
    if sum[31] >= 128 {
        return Err(InvariantViolation::AliasOutOfRange);
    }
    proof {
        lemma_clamped_value(sum@);
        lemma_le_bytes_of_value(sum@);
    }
    Ok(sum)
}

} // verus!
