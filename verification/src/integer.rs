//! Little-endian byte strings read as natural numbers, and the fixed-width
//! addition the key conversion needs.

use vstd::prelude::*;

verus! {

/// `256^n`.
pub open spec fn pow256(n: nat) -> nat
    decreases n,
{
    if n == 0 {
        1
    } else {
        256 * pow256((n - 1) as nat)
    }
}

/// The number a byte string denotes when its first byte is the least
/// significant one: the sum of `s[i] * 256^i`.
pub open spec fn le_value(s: Seq<u8>) -> nat
    decreases s.len(),
{
    if s.len() == 0 {
        0
    } else {
        le_value(s.drop_last()) + s.last() as nat * pow256((s.len() - 1) as nat)
    }
}

/// Reading one more byte adds that byte at the next position.
pub proof fn lemma_le_value_take(s: Seq<u8>, i: int)
    requires
        0 <= i < s.len(),
    ensures
        le_value(s.take(i + 1)) == le_value(s.take(i)) + s[i] as nat * pow256(i as nat),
{
    assert(s.take(i + 1).drop_last() =~= s.take(i));
}

/// A string of `n` bytes denotes a number below `256^n`.
pub proof fn lemma_le_value_bound(s: Seq<u8>)
    ensures
        le_value(s) < pow256(s.len()),
    decreases s.len(),
{
    if s.len() > 0 {
        lemma_le_value_bound(s.drop_last());
        let high: nat = pow256((s.len() - 1) as nat);
        assert(s.last() as nat * high <= 255 * high) by (nonlinear_arith)
            requires
                s.last() <= 255,
        ;
    }
}

/// The first byte holds the value modulo 256.
pub proof fn lemma_le_value_low_byte(s: Seq<u8>)
    requires
        s.len() > 0,
    ensures
        le_value(s) % 256 == s[0] as nat,
    decreases s.len(),
{
    if s.len() == 1 {
        assert(le_value(s.drop_last()) == 0);
        assert(s.last() as nat * pow256(0) == s[0] as nat) by (nonlinear_arith)
            requires
                s.last() == s[0],
                pow256(0) == 1,
        ;
    } else {
        let rest = s.drop_last();
        lemma_le_value_low_byte(rest);
        assert(rest[0] == s[0]);
        let below: nat = pow256((s.len() - 2) as nat);
        let top: nat = s.last() as nat * below;
        assert(pow256((s.len() - 1) as nat) == 256 * below);
        assert(s.last() as nat * (256 * below) == 256 * top) by (nonlinear_arith)
            requires
                top == s.last() as nat * below,
        ;
        assert(le_value(s) == le_value(rest) + 256 * top);
    }
}

/// A 32-byte string splits into its top byte and the 248 bits below it.
pub proof fn lemma_le_value_top_byte(s: Seq<u8>)
    requires
        s.len() == 32,
    ensures
        le_value(s) == le_value(s.take(31)) + s[31] as nat * pow256(31),
        le_value(s.take(31)) < pow256(31),
{
    assert(s.take(32) =~= s);
    lemma_le_value_take(s, 31);
    lemma_le_value_bound(s.take(31));
}

/// Byte strings of one length that denote the same number are equal.
pub proof fn lemma_le_value_injective(a: Seq<u8>, b: Seq<u8>)
    requires
        a.len() == b.len(),
        le_value(a) == le_value(b),
    ensures
        a == b,
    decreases a.len(),
{
    if a.len() == 0 {
        assert(a =~= b);
    } else {
        let high: nat = pow256((a.len() - 1) as nat);
        lemma_le_value_bound(a.drop_last());
        lemma_le_value_bound(b.drop_last());
        assert(a.last() == b.last()) by (nonlinear_arith)
            requires
                le_value(a.drop_last()) + a.last() as nat * high == le_value(b.drop_last())
                    + b.last() as nat * high,
                le_value(a.drop_last()) < high,
                le_value(b.drop_last()) < high,
        ;
        lemma_le_value_injective(a.drop_last(), b.drop_last());
        assert(a =~= a.drop_last().push(a.last()));
        assert(b =~= b.drop_last().push(b.last()));
    }
}

/// The `len` low bytes of `n`, least significant first.
#[verifier::opaque]
pub open spec fn le_bytes(n: nat, len: nat) -> Seq<u8> {
    Seq::new(len, |i: int| ((n / pow256(i as nat)) % 256) as u8)
}

/// `256^n` is positive.
pub proof fn lemma_pow256_positive(n: nat)
    ensures
        pow256(n) > 0,
    decreases n,
{
    if n > 0 {
        lemma_pow256_positive((n - 1) as nat);
    }
}

/// The `len` low bytes of `n` denote `n` modulo `256^len`.
pub proof fn lemma_le_bytes_value(n: nat, len: nat)
    ensures
        le_value(le_bytes(n, len)) == n % pow256(len),
    decreases len,
{
    reveal(le_bytes);
    if len == 0 {
        assert(pow256(0) == 1);
    } else {
        let below: nat = pow256((len - 1) as nat);
        let digits = le_bytes(n, len);
        lemma_le_bytes_value(n, (len - 1) as nat);
        lemma_pow256_positive((len - 1) as nat);
        assert(digits.drop_last() =~= le_bytes(n, (len - 1) as nat));
        assert(digits.last() as nat == (n / below) % 256);
        vstd::arithmetic::div_mod::lemma_mod_breakdown(n as int, below as int, 256);
        assert(below * 256 == pow256(len));
        assert(((n / below) % 256) * below == below * ((n / below) % 256)) by (nonlinear_arith);
    }
}

/// Every byte string is the byte string of the number it denotes.
pub proof fn lemma_le_bytes_of_value(s: Seq<u8>)
    ensures
        le_bytes(le_value(s), s.len()) == s,
{
    lemma_le_bytes_value(le_value(s), s.len());
    lemma_le_value_bound(s);
    vstd::arithmetic::div_mod::lemma_small_mod(le_value(s), pow256(s.len()));
    assert(le_bytes(le_value(s), s.len()).len() == s.len()) by {
        reveal(le_bytes);
    }
    lemma_le_value_injective(le_bytes(le_value(s), s.len()), s);
}

/// Whether two 32-byte strings are the same.
pub fn bytes_equal(a: &[u8; 32], b: &[u8; 32]) -> (r: bool)
    ensures
        r == (a@ == b@),
{
    let mut i: usize = 0;
    while i < 32
        invariant
            i <= 32,
            forall|j: int| 0 <= j < i ==> a@[j] == b@[j],
        decreases 32 - i,
    {
        if a[i] != b[i] {
            return false;
        }
        i += 1;
    }
    assert(a@ =~= b@);
    true
}

/// Adds two 256-bit little-endian integers. The second component is the
/// carry out of the top byte.
pub fn add_le(a: &[u8; 32], b: &[u8; 32]) -> (r: ([u8; 32], bool))
    ensures
        le_value(r.0@) + (if r.1 { pow256(32) } else { 0 }) == le_value(a@) + le_value(b@),
{
    let mut out: [u8; 32] = [0u8; 32];
    let mut carry: u16 = 0;
    let mut i: usize = 0;
    while i < 32
        invariant
            i <= 32,
            carry <= 1,
            le_value(out@.take(i as int)) + carry * pow256(i as nat) == le_value(a@.take(i as int))
                + le_value(b@.take(i as int)),
        decreases 32 - i,
    {
        let t: u16 = a[i] as u16 + b[i] as u16 + carry;
        let low: u8 = (t % 256) as u8;
        let ghost before = out@;
        out[i] = low;
        proof {
            let p = pow256(i as nat);
            assert(out@.take(i as int) =~= before.take(i as int));
            lemma_le_value_take(out@, i as int);
            lemma_le_value_take(a@, i as int);
            lemma_le_value_take(b@, i as int);
            assert(pow256((i + 1) as nat) == 256 * p);
            assert(low as nat * p + (t / 256) as nat * (256 * p) == (a[i as int] as nat + b[i as int] as nat
                + carry as nat) * p) by (nonlinear_arith)
                requires
                    low as nat + 256 * (t / 256) as nat == a[i as int] as nat + b[i as int] as nat
                        + carry as nat,
            ;
            assert((a[i as int] as nat + b[i as int] as nat + carry as nat) * p == a[i as int] as nat * p
                + b[i as int] as nat * p + carry as nat * p) by (nonlinear_arith);
        }
        carry = t / 256;
        i += 1;
    }
    proof {
        assert(out@.take(32) =~= out@);
        assert(a@.take(32) =~= a@);
        assert(b@.take(32) =~= b@);
    }
    (out, carry == 1)
}

/// `256^16`, `256^31` and `256^32`, written out.
pub proof fn lemma_pow256_values()
    ensures
        pow256(16) == 0x1_0000_0000_0000_0000_0000_0000_0000_0000nat,
        pow256(31) == 0x1_0000_0000_0000_0000_0000_0000_0000_0000_0000_0000_0000_0000_0000_0000_0000_00nat,
        pow256(32) == 0x1_0000_0000_0000_0000_0000_0000_0000_0000_0000_0000_0000_0000_0000_0000_0000_0000nat,
{
    reveal_with_fuel(pow256, 33);
}

/// Writes `v` into the sixteen bytes of `out` that start at `at`, least
/// significant byte first.
fn put_u128_le(out: &mut [u8; 32], at: usize, v: u128)
    requires
        at == 0 || at == 16,
    ensures
        final(out)@.take(at as int) == old(out)@.take(at as int),
        le_value(final(out)@.take(at + 16)) == le_value(old(out)@.take(at as int)) + v * pow256(
            at as nat,
        ),
{
    let mut rest: u128 = v;
    let mut i: usize = at;
    assert(rest * pow256(0) == v) by (nonlinear_arith)
        requires
            rest == v,
            pow256(0) == 1,
    ;
    while i < at + 16
        invariant
            at == 0 || at == 16,
            at <= i <= at + 16,
            out@.take(at as int) == old(out)@.take(at as int),
            le_value(out@.take(i as int)) + rest * pow256(i as nat) == le_value(
                old(out)@.take(at as int),
            ) + v * pow256(at as nat),
            rest * pow256((i - at) as nat) <= v,
        decreases at + 16 - i,
    {
        let low: u8 = (rest % 256) as u8;
        let ghost before = out@;
        out[i] = low;
        proof {
            let p = pow256(i as nat);
            let q = pow256((i - at) as nat);
            assert(out@.take(i as int) =~= before.take(i as int));
            assert(out@.take(at as int) =~= before.take(at as int));
            lemma_le_value_take(out@, i as int);
            assert(pow256((i + 1) as nat) == 256 * p);
            assert(pow256((i + 1 - at) as nat) == 256 * q);
            assert(low as nat * p + (rest / 256) as nat * (256 * p) == rest as nat * p)
                by (nonlinear_arith)
                requires
                    low as nat + 256 * (rest / 256) as nat == rest as nat,
            ;
            assert((rest / 256) as nat * (256 * q) <= rest as nat * q) by (nonlinear_arith)
                requires
                    256 * (rest / 256) as nat <= rest as nat,
            ;
        }
        rest = rest / 256;
        i += 1;
    }
    proof {
        lemma_pow256_values();
        assert(rest == 0) by (nonlinear_arith)
            requires
                rest * pow256(16) <= v,
                pow256(16) == 0x1_0000_0000_0000_0000_0000_0000_0000_0000nat,
                v <= u128::MAX,
        ;
    }
}

/// The 256-bit little-endian integer `low + high * 2^128`.
pub fn le_bytes_of(low: u128, high: u128) -> (r: [u8; 32])
    ensures
        le_value(r@) == low + high * pow256(16),
{
    let mut out: [u8; 32] = [0u8; 32];
    assert(le_value(out@.take(0)) + low * pow256(0) == low) by (nonlinear_arith)
        requires
            le_value(out@.take(0)) == 0,
            pow256(0) == 1,
    ;
    put_u128_le(&mut out, 0, low);
    put_u128_le(&mut out, 16, high);
    assert(out@.take(32) =~= out@);
    out
}

} // verus!
