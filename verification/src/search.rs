//! One search attempt: a seed, its scan, and the key pair of the first
//! candidate that passes.

use vstd::prelude::*;
use vstd::string::StringSliceAdditionalSpecFns;
use vstd::utf8::{encode_utf8, is_ascii_chars_encode_utf8};
use crate::alias::{alias_of, is_clamped};
use crate::curve::{
    fresh_private_key, montgomery_u, x25519_public, x25519_public_key, CurvePoint,
};
use crate::encoding::{base64_string, base64_text, ENCODED_KEY_LEN};
use crate::error::InvariantViolation;
use crate::integer::{bytes_equal, le_bytes};
use crate::order::group_order;
use crate::predicate::{encoded_public_key, window_contains, MatchPredicate};
use crate::scan::{candidate, is_first_match, no_match, seed_of_key, Seed};

verus! {

/// A private key and the public key that belongs to it, as raw bytes.
#[derive(Clone, Copy, Debug)]
pub struct KeyPair {
    pub private_key: [u8; 32],
    pub public_key: [u8; 32],
}

/// The key pair for the count `count` of the scan from `base`, when `point`
/// is the encoding of the candidate: the private key is the alias of
/// `base + count`, and it is handed out only if X25519 derives from it the
/// public key the point stands for.
pub open spec fn key_pair_of(base: nat, count: nat, point: Seq<u8>) -> Result<
    (Seq<u8>, Seq<u8>),
    InvariantViolation,
> {
    match alias_of((base + count) % group_order()) {
        Err(e) => Err(e),
        Ok(n) => if x25519_public_key(le_bytes(n, 32)) == montgomery_u(point) {
            Ok((le_bytes(n, 32), montgomery_u(point)))
        } else {
            Err(InvariantViolation::PublicKeyMismatch)
        },
    }
}

/// `r` is what a search from `base` returns: nothing when no candidate
/// passes, else the key pair of the first one that does, or the reason it
/// has none.
pub open spec fn is_search_result(
    base: nat,
    predicate: MatchPredicate,
    r: Result<Option<KeyPair>, InvariantViolation>,
) -> bool {
    &&& no_match(base, predicate) ==> r == Ok::<Option<KeyPair>, InvariantViolation>(None)
    &&& forall|count: nat| #[trigger]
        is_first_match(base, predicate, count) ==> match key_pair_of(
            base,
            count,
            candidate(base, count),
        ) {
            Ok((private_key, public_key)) => r is Ok && r->Ok_0 is Some
                && r->Ok_0->Some_0.private_key@ == private_key && r->Ok_0->Some_0.public_key@
                == public_key,
            Err(e) => r == Err::<Option<KeyPair>, InvariantViolation>(e),
        }
}

impl KeyPair {
    /// The pair is one X25519 accepts: the private key is clamped and the
    /// public key is the one derived from it.
    pub open spec fn wf(&self) -> bool {
        &&& is_clamped(self.private_key@)
        &&& x25519_public_key(self.private_key@) == self.public_key@
    }

    /// Both keys as base64 text, the private key first.
    pub fn to_base64(&self) -> (r: (String, String))
        ensures
            r.0@ == base64_text(self.private_key@),
            r.1@ == base64_text(self.public_key@),
    {
        (base64_string(&self.private_key), base64_string(&self.public_key))
    }
}

impl Seed {
    /// The key pair for a count and the point a scan handed out with it.
    /// The private key is derived from the count alone; the point only
    /// serves to check it.
    pub fn key_pair(&self, count: u64, point: &CurvePoint) -> (r: Result<
        KeyPair,
        InvariantViolation,
    >)
        requires
            self.wf(),
            point.wf(),
        ensures
            match key_pair_of(self.base(), count as nat, point@) {
                Ok((private_key, public_key)) => r is Ok && r->Ok_0.wf() && r->Ok_0.private_key@
                    == private_key && r->Ok_0.public_key@ == public_key,
                Err(e) => r == Err::<KeyPair, InvariantViolation>(e),
            },
    {
        let private_key: [u8; 32] = match self.convert_count_to_privkey(count) {
            Ok(key) => key,
            Err(e) => {
                return Err(e);
            },
        };
        let derived: [u8; 32] = x25519_public(&private_key);
        let public_key: [u8; 32] = point.public_key();
        if bytes_equal(&derived, &public_key) {
            Ok(KeyPair { private_key, public_key })
        } else {
            Err(InvariantViolation::PublicKeyMismatch)
        }
    }

    /// Runs this seed's scan until a candidate passes and hands out its key
    /// pair.
    pub fn search(&self, predicate: &MatchPredicate) -> (r: Result<
        Option<KeyPair>,
        InvariantViolation,
    >)
        requires
            self.wf(),
            predicate.wf(),
        ensures
            is_search_result(self.base(), *predicate, r),
            r is Ok && r->Ok_0 is Some ==> r->Ok_0->Some_0.wf() && predicate.accepts(
                encode_utf8(base64_text(r->Ok_0->Some_0.public_key@)),
            ),
    {
        match self.find_match(predicate) {
            None => {
                proof {
                    lemma_no_first_match(self.base(), *predicate);
                }
                Ok(None)
            },
            Some((count, point)) => {
                proof {
                    lemma_first_match_unique(self.base(), *predicate, count as nat);
                }
                match self.key_pair(count, &point) {
                    Ok(pair) => Ok(Some(pair)),
                    Err(e) => Err(e),
                }
            },
        }
    }
}

/// A scan without a match has no first match.
pub proof fn lemma_no_first_match(base: nat, predicate: MatchPredicate)
    requires
        no_match(base, predicate),
    ensures
        forall|count: nat| !#[trigger] is_first_match(base, predicate, count),
{
    assert forall|count: nat| !#[trigger] is_first_match(base, predicate, count) by {
        if is_first_match(base, predicate, count) {
            assert(!predicate.accepts(encoded_public_key(candidate(base, count))));
        }
    }
}

/// A scan has at most one first match, and one that has a first match has a
/// match.
pub proof fn lemma_first_match_unique(base: nat, predicate: MatchPredicate, count: nat)
    requires
        is_first_match(base, predicate, count),
    ensures
        !no_match(base, predicate),
        forall|other: nat| #[trigger] is_first_match(base, predicate, other) ==> other == count,
{
    assert(predicate.accepts(encoded_public_key(candidate(base, count))));
    assert forall|other: nat| #[trigger]
        is_first_match(base, predicate, other) implies other == count by {
        if other < count {
            assert(!predicate.accepts(encoded_public_key(candidate(base, other))));
        }
        if count < other {
            assert(!predicate.accepts(encoded_public_key(candidate(base, count))));
        }
    }
}

/// `r` is what one attempt from the private key `key` returns: the reason
/// the key cannot start a scan, or the result of the search from its seed.
pub open spec fn is_attempt_result(
    key: Seq<u8>,
    predicate: MatchPredicate,
    r: Result<Option<KeyPair>, InvariantViolation>,
) -> bool {
    match seed_of_key(key) {
        Ok(base) => is_search_result(base, predicate, r),
        Err(e) => r == Err::<Option<KeyPair>, InvariantViolation>(e),
    }
}

/// `r` is what a search with a budget of `attempts` returns when its
/// attempts start from the private keys `keys`, in that order: every key
/// but the last ends its scan without a match, the last one gives `r`, and
/// the search goes on to the end of its budget unless an attempt before
/// that finds a pair or breaks an invariant.
pub open spec fn is_budgeted_result(
    keys: Seq<Seq<u8>>,
    predicate: MatchPredicate,
    attempts: nat,
    r: Result<Option<KeyPair>, InvariantViolation>,
) -> bool {
    &&& keys.len() <= attempts
    &&& forall|i: int| 0 <= i < keys.len() ==> is_clamped(#[trigger] keys[i])
    &&& forall|i: int|
        0 <= i < keys.len() - 1 ==> is_attempt_result(
            #[trigger] keys[i],
            predicate,
            Ok::<Option<KeyPair>, InvariantViolation>(None),
        )
    &&& if keys.len() == 0 {
        r == Ok::<Option<KeyPair>, InvariantViolation>(None)
    } else {
        is_attempt_result(keys.last(), predicate, r)
    }
    &&& r == Ok::<Option<KeyPair>, InvariantViolation>(None) ==> keys.len() == attempts
}

/// One attempt: a fresh seed, searched to its first match or to the end of
/// its scan. The seed is random, so the contract only says that the result
/// is the one some clamped private key gives.
pub fn search_attempt(predicate: &MatchPredicate) -> (r: Result<Option<KeyPair>, InvariantViolation>)
    requires
        predicate.wf(),
    ensures
        exists|key: Seq<u8>| is_clamped(key) && #[trigger] is_attempt_result(key, *predicate, r),
        r is Ok && r->Ok_0 is Some ==> r->Ok_0->Some_0.wf() && predicate.accepts(
            encode_utf8(base64_text(r->Ok_0->Some_0.public_key@)),
        ),
{
    let key: [u8; 32] = fresh_private_key();
    let r = search_from_key(&key, predicate);
    assert(is_clamped(key@) && is_attempt_result(key@, *predicate, r));
    r
}

/// One attempt from a given private key: the key's seed, searched to its
/// first match or to the end of its scan.
pub fn search_from_key(key: &[u8; 32], predicate: &MatchPredicate) -> (r: Result<
    Option<KeyPair>,
    InvariantViolation,
>)
    requires
        predicate.wf(),
    ensures
        is_attempt_result(key@, *predicate, r),
        r is Ok && r->Ok_0 is Some ==> r->Ok_0->Some_0.wf() && predicate.accepts(
            encode_utf8(base64_text(r->Ok_0->Some_0.public_key@)),
        ),
{
    match Seed::from_private_key(key) {
        Err(e) => Err(e),
        Ok(seed) => seed.search(predicate),
    }
}

/// Makes up to `attempts` attempts, each from a fresh random seed, and hands
/// out the key pair of the first that finds one. A seed whose scan ends
/// without a match is dropped and the next one drawn; a broken invariant
/// ends the search at once. The seeds are random, so the contract says that
/// the result is the one some run of clamped private keys gives: nothing
/// comes back before the budget is used up unless an attempt decided it.
pub fn search(predicate: &MatchPredicate, attempts: u64) -> (r: Result<
    Option<KeyPair>,
    InvariantViolation,
>)
    requires
        predicate.wf(),
    ensures
        exists|keys: Seq<Seq<u8>>| #[trigger]
            is_budgeted_result(keys, *predicate, attempts as nat, r),
        attempts == 0 ==> r == Ok::<Option<KeyPair>, InvariantViolation>(None),
        r is Ok && r->Ok_0 is Some ==> r->Ok_0->Some_0.wf() && predicate.accepts(
            encode_utf8(base64_text(r->Ok_0->Some_0.public_key@)),
        ),
{
    let ghost mut keys: Seq<Seq<u8>> = Seq::empty();
    let mut made: u64 = 0;
    while made < attempts
        invariant
            made <= attempts,
            predicate.wf(),
            keys.len() == made,
            forall|i: int| 0 <= i < keys.len() ==> is_clamped(#[trigger] keys[i]),
            forall|i: int|
                0 <= i < keys.len() ==> is_attempt_result(
                    #[trigger] keys[i],
                    *predicate,
                    Ok::<Option<KeyPair>, InvariantViolation>(None),
                ),
        decreases attempts - made,
    {
        let found = search_attempt(predicate);
        proof {
            let key = choose|key: Seq<u8>|
                is_clamped(key) && #[trigger] is_attempt_result(key, *predicate, found);
            keys = keys.push(key);
        }
        match found {
            Err(e) => {
                assert(is_budgeted_result(keys, *predicate, attempts as nat, found));
                return Err(e);
            },
            Ok(Some(pair)) => {
                assert(is_budgeted_result(keys, *predicate, attempts as nat, found));
                return Ok(Some(pair));
            },
            Ok(None) => {},
        }
        made += 1;
    }
    assert(is_budgeted_result(
        keys,
        *predicate,
        attempts as nat,
        Ok::<Option<KeyPair>, InvariantViolation>(None),
    ));
    Ok(None)
}

/// The outcome of testing one private key: both keys as base64 text when
/// the window `[start, end)` of the encoded public key holds `prefix`, else
/// nothing.
pub open spec fn trial_outcome(
    key: Seq<u8>,
    prefix: Seq<u8>,
    start: nat,
    end: nat,
    case_sensitive: bool,
) -> Option<(Seq<char>, Seq<char>)> {
    let public_text = base64_text(x25519_public_key(key));
    if window_contains(encode_utf8(public_text), prefix, start as int, end as int, case_sensitive) {
        Some((base64_text(key), public_text))
    } else {
        None
    }
}

/// `r` is the outcome `expected`.
pub open spec fn is_trial_result(
    r: Option<(String, String)>,
    expected: Option<(Seq<char>, Seq<char>)>,
) -> bool {
    match expected {
        Some((private_text, public_text)) => r is Some && r->Some_0.0@ == private_text
            && r->Some_0.1@ == public_text,
        None => r is None,
    }
}

/// Tests one given private key against a window of its encoded public key.
pub fn trial_with_key(key: &[u8; 32], prefix: &str, start: usize, end: usize, case: bool) -> (r:
    Option<(String, String)>)
    requires
        start <= end <= ENCODED_KEY_LEN,
    ensures
        is_trial_result(
            r,
            trial_outcome(key@, prefix.spec_bytes(), start as nat, end as nat, case),
        ),
{
    let predicate = MatchPredicate::within(prefix, start, end, case);
    let public_key: [u8; 32] = x25519_public(key);
    let public_text: String = base64_string(&public_key);
    proof {
        is_ascii_chars_encode_utf8(public_text@);
    }
    if predicate.matches_encoding(public_text.as_str()) {
        Some((base64_string(key), public_text))
    } else {
        None
    }
}

/// Draws one random private key and tests it: both keys as base64 text when
/// the window `[start, end)` of the encoded public key holds `prefix`, else
/// nothing. `case` says whether upper and lower case differ.
pub fn trial(prefix: &str, start: usize, end: usize, case: bool) -> (r: Option<(String, String)>)
    requires
        start <= end <= ENCODED_KEY_LEN,
    ensures
        exists|key: Seq<u8>|
            is_clamped(key) && is_trial_result(
                r,
                #[trigger] trial_outcome(key, prefix.spec_bytes(), start as nat, end as nat, case),
            ),
{
    let key: [u8; 32] = fresh_private_key();
    let r = trial_with_key(&key, prefix, start, end, case);
    assert(is_clamped(key@) && is_trial_result(
        r,
        trial_outcome(key@, prefix.spec_bytes(), start as nat, end as nat, case),
    ));
    r
}

} // verus!
