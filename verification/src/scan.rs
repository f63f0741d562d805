//! Seeds and the scans that start from them.
//!
//! A seed fixes a base scalar `b`. Its scan visits the points
//! `(b + 8k) * G` for `k = 0, 1, 2, ...` and gets each from the one before
//! by adding `8 * G`, so no step multiplies a scalar by a point.

use vstd::prelude::*;
use crate::alias::{
    alias_of, convert_scalar_to_private_key, is_clamped, lemma_add_mod_left, lemma_alias_is_clamped,
    lemma_step_keeps_alias,
};
use crate::curve::{fresh_private_key, generator_multiple, CurvePoint};
use crate::error::InvariantViolation;
use crate::integer::{
    bytes_equal, le_bytes, le_value, lemma_le_bytes_of_value, lemma_le_bytes_value,
    lemma_pow256_values, pow256,
};
use crate::order::{clamp_ceiling, group_order};
use crate::predicate::{encoded_public_key, MatchPredicate};
use crate::scalar::Scalar;

verus! {

/// The distance between two private scalars a scan visits: the cofactor.
pub const SCAN_STEP: u64 = 8;

/// The last count a scan hands out, `2^64 - 16`. A scan stops here so that
/// its counter never wraps.
pub const SCAN_LIMIT: u64 = 0xffff_ffff_ffff_fff0;

/// The point a scan with base scalar `base` hands out with the count
/// `count`: `(base + count) * G`, computed directly.
pub open spec fn candidate(base: nat, count: nat) -> Seq<u8> {
    generator_multiple((base + count) % group_order())
}

/// The counter of a scan that has made `k` steps from its start.
pub open spec fn counter_after(k: nat) -> nat
    decreases k,
{
    if k == 0 {
        0
    } else {
        counter_after((k - 1) as nat) + 8
    }
}

/// Stepping and multiplying agree: after `k` steps a scan counts `8k`, and
/// the point it hands out next is `(base + 8k) * G`.
pub proof fn lemma_stepping_equivalence(base: nat, k: nat)
    ensures
        counter_after(k) == 8 * k,
        candidate(base, counter_after(k)) == generator_multiple((base + 8 * k) % group_order()),
    decreases k,
{
    if k > 0 {
        lemma_stepping_equivalence(base, (k - 1) as nat);
    }
}

/// The base scalar that a private key gives, or the reason the key cannot
/// start a scan: its scalar has no alias, or the alias is another key.
pub open spec fn seed_of_key(key: Seq<u8>) -> Result<nat, InvariantViolation> {
    let base = le_value(key) % group_order();
    match alias_of(base) {
        Err(e) => Err(e),
        Ok(n) => if n == le_value(key) {
            Ok(base)
        } else {
            Err(InvariantViolation::RoundTripMismatch)
        },
    }
}

/// `count` is the first count of the scan from `base` whose point passes.
pub open spec fn is_first_match(base: nat, predicate: MatchPredicate, count: nat) -> bool {
    &&& count % 8 == 0
    &&& count <= SCAN_LIMIT
    &&& predicate.accepts(encoded_public_key(candidate(base, count)))
    &&& forall|c: nat|
        c % 8 == 0 && c < count ==> !predicate.accepts(
            encoded_public_key(#[trigger] candidate(base, c)),
        )
}

/// No point of the scan from `base` passes.
pub open spec fn no_match(base: nat, predicate: MatchPredicate) -> bool {
    forall|c: nat|
        c % 8 == 0 && c <= SCAN_LIMIT ==> !predicate.accepts(
            encoded_public_key(#[trigger] candidate(base, c)),
        )
}

/// One base scalar, checked to convert back to the private key it came from.
#[derive(Clone, Copy, Debug)]
pub struct Seed {
    base_scalar: Scalar,
}

/// The state of one scan: the next count, the point that belongs to it, and
/// the fixed step `8 * G`.
pub struct Scan {
    counter: u64,
    current: CurvePoint,
    increment: CurvePoint,
    base: Ghost<nat>,
}

impl Seed {
    /// The base scalar.
    pub closed spec fn base(&self) -> nat {
        self.base_scalar@
    }

    /// The base scalar is reduced and has a clamped alias.
    pub open spec fn wf(&self) -> bool {
        &&& self.base() < group_order()
        &&& alias_of(self.base()) is Ok
    }

    /// The seed of a private key. The key is reduced to a scalar, the scalar
    /// converted back, and the seed is handed out only if that gives the
    /// key again.
    pub fn from_private_key(key: &[u8; 32]) -> (r: Result<Seed, InvariantViolation>)
        ensures
            match seed_of_key(key@) {
                Ok(base) => r is Ok && r->Ok_0.wf() && r->Ok_0.base() == base,
                Err(e) => r == Err::<Seed, InvariantViolation>(e),
            },
    {
        let base_scalar = Scalar::from_private_key_bytes(key);
        match convert_scalar_to_private_key(&base_scalar) {
            Err(e) => Err(e),
            Ok(back) => {
                proof {
                    let n = alias_of(base_scalar@)->Ok_0;
                    lemma_le_bytes_of_value(key@);
                    lemma_le_bytes_value(n, 32);
                    lemma_pow256_values();
                    vstd::arithmetic::div_mod::lemma_small_mod(n, pow256(32));
                }
                if bytes_equal(&back, key) {
                    Ok(Seed { base_scalar })
                } else {
                    Err(InvariantViolation::RoundTripMismatch)
                }
            },
        }
    }

    /// A seed from a fresh random private key. The key is clamped; whether
    /// it can start a scan is decided as for any key.
    pub fn generate() -> (r: Result<Seed, InvariantViolation>)
        ensures
            exists|key: Seq<u8>|
                is_clamped(key) && match #[trigger] seed_of_key(key) {
                    Ok(base) => r is Ok && r->Ok_0.wf() && r->Ok_0.base() == base,
                    Err(e) => r == Err::<Seed, InvariantViolation>(e),
                },
    {
        let key: [u8; 32] = fresh_private_key();
        let r = Seed::from_private_key(&key);
        assert(is_clamped(key@) && match seed_of_key(key@) {
            Ok(base) => r is Ok && r->Ok_0.wf() && r->Ok_0.base() == base,
            Err(e) => r == Err::<Seed, InvariantViolation>(e),
        });
        r
    }

    /// The scan that starts at this seed.
    pub fn scan(&self) -> (s: Scan)
        requires
            self.wf(),
        ensures
            s.wf(),
            s.base() == self.base(),
            s.counter() == 0,
    {
        let current = CurvePoint::of_scalar(&self.base_scalar);
        let step = Scalar::from_u64(SCAN_STEP);
        let increment = CurvePoint::of_scalar(&step);
        proof {
            vstd::arithmetic::div_mod::lemma_small_mod(self.base(), group_order());
        }
        Scan { counter: 0, current, increment, base: Ghost(self.base()) }
    }

    /// This seed's scan as it stands when its counter is `count`, reached
    /// by one multiplication in place of `count / 8` steps. There is no such
    /// state for a count that is no multiple of eight.
    pub fn scan_from(&self, count: u64) -> (r: Option<Scan>)
        requires
            self.wf(),
        ensures
            count % 8 == 0 ==> r is Some && r->Some_0.wf() && r->Some_0.base() == self.base()
                && r->Some_0.counter() == count,
            count % 8 != 0 ==> r is None,
    {
        if count % SCAN_STEP != 0 {
            return None;
        }
        let start = self.base_scalar.plus(count);
        let current = CurvePoint::of_scalar(&start);
        let step = Scalar::from_u64(SCAN_STEP);
        let increment = CurvePoint::of_scalar(&step);
        Some(Scan { counter: count, current, increment, base: Ghost(self.base()) })
    }

    /// The private key that belongs to the count `count` of this seed's
    /// scan: the alias of `base + count`.
    pub fn convert_count_to_privkey(&self, count: u64) -> (r: Result<
        [u8; 32],
        InvariantViolation,
    >)
        requires
            self.wf(),
        ensures
            match alias_of((self.base() + count as nat) % group_order()) {
                Ok(n) => r is Ok && r->Ok_0@ == le_bytes(n, 32) && is_clamped(r->Ok_0@),
                Err(e) => r == Err::<[u8; 32], InvariantViolation>(e),
            },
    {
        let s = self.base_scalar.plus(count);
        convert_scalar_to_private_key(&s)
    }

    /// The first point of this seed's scan that passes, with its count, or
    /// `None` when the scan ends without one.
    pub fn find_match(&self, predicate: &MatchPredicate) -> (r: Option<(u64, CurvePoint)>)
        requires
            self.wf(),
            predicate.wf(),
        ensures
            match r {
                Some((count, point)) => is_first_match(self.base(), *predicate, count as nat)
                    && point.wf() && point@ == candidate(self.base(), count as nat),
                None => no_match(self.base(), *predicate),
            },
    {
        let mut scan = self.scan();
        loop
            invariant
                scan.wf(),
                predicate.wf(),
                scan.base() == self.base(),
                forall|c: nat|
                    c % 8 == 0 && c < scan.counter() ==> !predicate.accepts(
                        encoded_public_key(#[trigger] candidate(self.base(), c)),
                    ),
            decreases SCAN_LIMIT + 8 - scan.counter(),
        {
            match scan.advance() {
                None => {
                    return None;
                },
                Some((count, point)) => {
                    if predicate.matches_point(&point) {
                        return Some((count, point));
                    }
                    assert forall|c: nat| c % 8 == 0 && c < scan.counter() implies !predicate.accepts(
                        encoded_public_key(#[trigger] candidate(self.base(), c)),
                    ) by {
                        if c >= count {
                            assert(c == count);
                        }
                    }
                },
            }
        }
    }

    /// The private key a seed came from is the alias of its base scalar, and
    /// the private key of every count is that key plus the count, as long
    /// as the count is a multiple of eight and the sum stays below `2^255`.
    pub proof fn lemma_private_key_of_count(&self, count: nat)
        requires
            self.wf(),
            count % 8 == 0,
            alias_of(self.base())->Ok_0 + count < clamp_ceiling(),
        ensures
            alias_of((self.base() + count) % group_order()) == Ok::<nat, InvariantViolation>(
                alias_of(self.base())->Ok_0 + count,
            ),
    {
        let n = alias_of(self.base())->Ok_0;
        lemma_alias_is_clamped(self.base());
        lemma_step_keeps_alias(n, count);
    }
}

impl Scan {
    /// The count the next point is handed out with.
    pub fn count(&self) -> (r: u64)
        ensures
            r == self.counter(),
    {
        self.counter
    }

    /// The base scalar of the seed the scan started from.
    pub closed spec fn base(&self) -> nat {
        self.base@
    }

    /// The count the next point is handed out with.
    pub closed spec fn counter(&self) -> nat {
        self.counter as nat
    }

    /// The number of points handed out so far.
    pub open spec fn steps(&self) -> nat {
        self.counter() / 8
    }

    /// The scan has handed out its last point.
    pub open spec fn exhausted(&self) -> bool {
        self.counter() > SCAN_LIMIT
    }

    /// The counter is a multiple of eight and the current point is the
    /// candidate for it.
    pub closed spec fn wf(&self) -> bool {
        &&& self.base@ < group_order()
        &&& self.counter % 8 == 0
        &&& self.current.wf()
        &&& self.increment.wf()
        &&& self.current@ == candidate(self.base@, self.counter as nat)
        &&& self.increment@ == generator_multiple(8)
    }

    /// A valid scan counts in multiples of eight.
    pub proof fn lemma_counter(&self)
        requires
            self.wf(),
        ensures
            self.counter() % 8 == 0,
            self.counter() == 8 * self.steps(),
            self.counter() <= SCAN_LIMIT + 8,
    {
    }

    /// Hands out the next count and its point and moves on by one step.
    /// After `k` steps the count is `8k` and the point is
    /// `(base + 8k) * G`. Once the counter has passed the limit the scan
    /// hands out nothing more and stays as it is.
    pub fn advance(&mut self) -> (r: Option<(u64, CurvePoint)>)
        requires
            old(self).wf(),
        ensures
            final(self).wf(),
            final(self).base() == old(self).base(),
            old(self).exhausted() ==> r is None && final(self).counter() == old(self).counter(),
            !old(self).exhausted() ==> r is Some && r->Some_0.0 == old(self).counter()
                && r->Some_0.1.wf() && r->Some_0.1@ == candidate(
                old(self).base(),
                old(self).counter(),
            ) && final(self).counter() == old(self).counter() + 8,
    {
        if self.counter > SCAN_LIMIT {
            return None;
        }
        let count: u64 = self.counter;
        let point: CurvePoint = self.current;
        let next: CurvePoint = self.current.plus(&self.increment);
        proof {
            let i: nat = (self.base@ + count as nat) % group_order();
            assert(point@ == generator_multiple(i));
            assert(self.increment@ == generator_multiple(8));
            assert(next@ == generator_multiple((i + 8) % group_order()));
            lemma_add_mod_left(self.base@ + count as nat, 8, group_order());
        }
        self.current = next;
        self.counter = count + SCAN_STEP;
        Some((count, point))
    }
}

} // verus!
