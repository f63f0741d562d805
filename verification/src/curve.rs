//! Points of the subgroup the base point generates, held by their
//! compressed Edwards encoding, and the X25519 keys that belong to them.
//!
//! The curve arithmetic is `curve25519-dalek`'s. What it returns is given a
//! name here, and the contracts below say how the named results are related.

use vstd::prelude::*;
use crate::alias::is_clamped;
use crate::order::group_order;
use crate::scalar::Scalar;

verus! {

/// The compressed Edwards encoding of `k * G`, where `G` is the Ed25519 base
/// point: what `curve25519-dalek` returns when it multiplies its base point
/// table by the reduced scalar `k` and compresses the product.
pub uninterp spec fn generator_multiple(k: nat) -> Seq<u8>;

/// The Montgomery `u`-coordinate, as 32 little-endian bytes, of the point
/// with the compressed Edwards encoding `point`: what `curve25519-dalek`
/// returns from `EdwardsPoint::to_montgomery` for the decompressed point.
pub uninterp spec fn montgomery_u(point: Seq<u8>) -> Seq<u8>;

/// The X25519 public key that `x25519-dalek` derives from the 32 bytes of a
/// private key.
pub uninterp spec fn x25519_public_key(private_key: Seq<u8>) -> Seq<u8>;

/// A point `k * G`, stored as its 32-byte compressed Edwards encoding.
#[derive(Clone, Copy, Debug)]
pub struct CurvePoint {
    encoding: [u8; 32],
}

impl View for CurvePoint {
    type V = Seq<u8>;

    /// The compressed encoding.
    closed spec fn view(&self) -> Seq<u8> {
        self.encoding@
    }
}

/// Multiplies the base point by a scalar.
///
/// Trusted: calls the multiplication of `ED25519_BASEPOINT_TABLE` by a
/// `Scalar` of `curve25519-dalek` and `EdwardsPoint::compress`. The contract
/// only names the result.
#[verifier::external_body]
fn basepoint_multiple(s: &Scalar) -> (r: [u8; 32])
    requires
        s.wf(),
    ensures
        r@ == generator_multiple(s@),
{
    let scalar = curve25519_dalek::scalar::Scalar::from_bits(s.bytes);
    (&curve25519_dalek::constants::ED25519_BASEPOINT_TABLE * &scalar).compress().to_bytes()
}

/// Adds two points of the subgroup.
///
/// Trusted: calls `CompressedEdwardsY::decompress` on both encodings, the
/// addition of two `EdwardsPoint`s of `curve25519-dalek`, and
/// `EdwardsPoint::compress`. The contract claims the group law: the base
/// point has order `L`, so the sum of `i * G` and `j * G` is
/// `((i + j) mod L) * G`. Decompression does not fail, because both
/// arguments encode multiples of the base point.
#[verifier::external_body]
fn point_sum(a: &CurvePoint, b: &CurvePoint) -> (r: [u8; 32])
    requires
        a.wf(),
        b.wf(),
    ensures
        forall|i: nat, j: nat|
            #![trigger generator_multiple(i), generator_multiple(j)]
            i < group_order() && j < group_order() && a@ == generator_multiple(i) && b@
                == generator_multiple(j) ==> r@ == generator_multiple((i + j) % group_order()),
{
    let p = curve25519_dalek::edwards::CompressedEdwardsY(a.encoding).decompress().unwrap();
    let q = curve25519_dalek::edwards::CompressedEdwardsY(b.encoding).decompress().unwrap();
    (p + q).compress().to_bytes()
}

/// Converts a point to the Montgomery form that public keys use.
///
/// Trusted: calls `CompressedEdwardsY::decompress` and
/// `EdwardsPoint::to_montgomery` of `curve25519-dalek`. The contract only
/// names the result. Decompression does not fail, because the argument
/// encodes a multiple of the base point.
#[verifier::external_body]
fn montgomery_bytes(p: &CurvePoint) -> (r: [u8; 32])
    requires
        p.wf(),
    ensures
        r@ == montgomery_u(p@),
{
    let point = curve25519_dalek::edwards::CompressedEdwardsY(p.encoding).decompress().unwrap();
    point.to_montgomery().to_bytes()
}

/// Derives the public key of a private key.
///
/// Trusted: calls `StaticSecret::from` and `PublicKey::from` of
/// `x25519-dalek`. The contract only names the result.
#[verifier::external_body]
pub(crate) fn x25519_public(private_key: &[u8; 32]) -> (r: [u8; 32])
    ensures
        r@ == x25519_public_key(private_key@),
{
    let secret = x25519_dalek::StaticSecret::from(*private_key);
    x25519_dalek::PublicKey::from(&secret).to_bytes()
}

/// Draws a private key from the operating system's random source.
///
/// Trusted: calls `StaticSecret::new` of `x25519-dalek` on `OsRng` of
/// `rand_core`, and `StaticSecret::to_bytes`. The contract claims what the
/// crate does to every key it draws: it clears bits 0 to 2 and bit 255 and
/// sets bit 254.
#[verifier::external_body]
pub(crate) fn fresh_private_key() -> (r: [u8; 32])
    ensures
        is_clamped(r@),
{
    x25519_dalek::StaticSecret::new(&mut rand_core::OsRng).to_bytes()
}

impl CurvePoint {
    /// The point is a multiple of the base point.
    pub closed spec fn wf(&self) -> bool {
        exists|k: nat| k < group_order() && self@ == #[trigger] generator_multiple(k)
    }

    /// The point `s * G`.
    pub fn of_scalar(s: &Scalar) -> (p: CurvePoint)
        requires
            s.wf(),
        ensures
            p.wf(),
            p@ == generator_multiple(s@),
    {
        CurvePoint { encoding: basepoint_multiple(s) }
    }

    /// The sum of two points. Multiples of the base point add as their
    /// factors do, modulo the group order.
    pub fn plus(&self, other: &CurvePoint) -> (p: CurvePoint)
        requires
            self.wf(),
            other.wf(),
        ensures
            p.wf(),
            forall|i: nat, j: nat|
                #![trigger generator_multiple(i), generator_multiple(j)]
                i < group_order() && j < group_order() && self@ == generator_multiple(i)
                    && other@ == generator_multiple(j) ==> p@ == generator_multiple(
                    (i + j) % group_order(),
                ),
    {
        let p = CurvePoint { encoding: point_sum(self, other) };
        proof {
            let i = choose|k: nat| k < group_order() && self@ == #[trigger] generator_multiple(k);
            let j = choose|k: nat| k < group_order() && other@ == #[trigger] generator_multiple(k);
            assert(p@ == generator_multiple((i + j) % group_order()));
        }
        p
    }

    /// The compressed Edwards encoding.
    pub fn to_bytes(&self) -> (r: [u8; 32])
        ensures
            r@ == self@,
    {
        self.encoding
    }

    /// The public key this point stands for: its Montgomery `u`-coordinate.
    pub fn public_key(&self) -> (r: [u8; 32])
        requires
            self.wf(),
        ensures
            r@ == montgomery_u(self@),
    {
        montgomery_bytes(self)
    }
}

} // verus!
