//! The test a candidate has to pass: its encoded public key holds the target
//! inside a window of byte offsets.

use vstd::prelude::*;
use vstd::slice::slice_to_vec;
use vstd::string::StringSliceAdditionalSpecFns;
use vstd::utf8::{encode_utf8, is_ascii_chars_encode_utf8};
use crate::curve::{montgomery_u, CurvePoint};
use crate::encoding::{base64_string, base64_text, ENCODED_KEY_LEN};
use crate::error::ConfigError;

verus! {

/// The lower-case form of an ASCII letter; every other byte is itself.
pub open spec fn ascii_lower(b: u8) -> u8 {
    if 65 <= b <= 90 {
        (b + 32) as u8
    } else {
        b
    }
}

/// The byte as it is compared: itself when case matters, its lower-case
/// form when it does not.
pub open spec fn folded(b: u8, case_sensitive: bool) -> u8 {
    if case_sensitive {
        b
    } else {
        ascii_lower(b)
    }
}

/// `target` stands in `text` at offset `at`.
pub open spec fn occurs_at(text: Seq<u8>, target: Seq<u8>, at: int, case_sensitive: bool) -> bool {
    &&& 0 <= at
    &&& at + target.len() <= text.len()
    &&& forall|j: int|
        0 <= j < target.len() ==> folded(text[at + j], case_sensitive) == folded(
            #[trigger] target[j],
            case_sensitive,
        )
}

/// `target` stands somewhere in `text[start..end]`.
pub open spec fn window_contains(
    text: Seq<u8>,
    target: Seq<u8>,
    start: int,
    end: int,
    case_sensitive: bool,
) -> bool {
    exists|at: int|
        start <= at && at + target.len() <= end && #[trigger] occurs_at(
            text,
            target,
            at,
            case_sensitive,
        )
}

/// Without regard to case, two targets that differ only in the case of
/// their letters stand at the same offsets of every text, and so pass the
/// same windows.
pub proof fn lemma_case_insensitive_targets(
    text: Seq<u8>,
    a: Seq<u8>,
    b: Seq<u8>,
    start: int,
    end: int,
)
    requires
        a.len() == b.len(),
        forall|j: int| 0 <= j < a.len() ==> ascii_lower(#[trigger] a[j]) == ascii_lower(b[j]),
    ensures
        forall|at: int| occurs_at(text, a, at, false) == occurs_at(text, b, at, false),
        window_contains(text, a, start, end, false) == window_contains(text, b, start, end, false),
{
    assert forall|at: int| occurs_at(text, a, at, false) == occurs_at(text, b, at, false) by {
        if occurs_at(text, a, at, false) {
            assert forall|j: int| 0 <= j < b.len() implies folded(text[at + j], false) == folded(
                #[trigger] b[j],
                false,
            ) by {
                assert(folded(text[at + j], false) == folded(a[j], false));
            }
        }
        if occurs_at(text, b, at, false) {
            assert forall|j: int| 0 <= j < a.len() implies folded(text[at + j], false) == folded(
                #[trigger] a[j],
                false,
            ) by {
                assert(folded(text[at + j], false) == folded(b[j], false));
            }
        }
    }
    if window_contains(text, a, start, end, false) {
        let at = choose|at: int|
            start <= at && at + a.len() <= end && #[trigger] occurs_at(text, a, at, false);
        assert(occurs_at(text, b, at, false));
    }
    if window_contains(text, b, start, end, false) {
        let at = choose|at: int|
            start <= at && at + b.len() <= end && #[trigger] occurs_at(text, b, at, false);
        assert(occurs_at(text, a, at, false));
    }
}

/// Why a window cannot be searched for a target of `target_len` bytes, if it
/// cannot.
pub open spec fn window_error(target_len: nat, start: nat, end: nat) -> Option<ConfigError> {
    if start > end {
        Some(ConfigError::WindowReversed)
    } else if end > ENCODED_KEY_LEN {
        Some(ConfigError::WindowPastEncoding)
    } else if end - start < target_len {
        Some(ConfigError::WindowTooShort)
    } else {
        None
    }
}

/// The encoded public key of a point, as bytes.
pub open spec fn encoded_public_key(point: Seq<u8>) -> Seq<u8> {
    encode_utf8(base64_text(montgomery_u(point)))
}

/// A target, the window it is looked for in, and whether case matters.
#[derive(Clone, Debug)]
pub struct MatchPredicate {
    target: Vec<u8>,
    start: usize,
    end: usize,
    case_sensitive: bool,
}

fn fold(b: u8, case_sensitive: bool) -> (r: u8)
    ensures
        r == folded(b, case_sensitive),
{
    if !case_sensitive && 65 <= b && b <= 90 {
        b + 32
    } else {
        b
    }
}

fn stands_at(text: &[u8], target: &Vec<u8>, at: usize, case_sensitive: bool) -> (r: bool)
    requires
        at + target@.len() <= text@.len(),
    ensures
        r == occurs_at(text@, target@, at as int, case_sensitive),
{
    let text_len: usize = text.len();
    let mut j: usize = 0;
    while j < target.len()
        invariant
            j <= target@.len(),
            at + target@.len() <= text@.len(),
            text@.len() == text_len,
            forall|x: int|
                0 <= x < j ==> folded(text@[at + x], case_sensitive) == folded(
                    #[trigger] target@[x],
                    case_sensitive,
                ),
        decreases target@.len() - j,
    {
        if fold(text[at + j], case_sensitive) != fold(target[j], case_sensitive) {
            return false;
        }
        j += 1;
    }
    true
}

impl MatchPredicate {
    /// The bytes looked for.
    pub closed spec fn target(&self) -> Seq<u8> {
        self.target@
    }

    /// The first offset of the window.
    pub closed spec fn start(&self) -> nat {
        self.start as nat
    }

    /// The offset the window ends before.
    pub closed spec fn end(&self) -> nat {
        self.end as nat
    }

    /// Whether upper and lower case differ.
    pub closed spec fn case_sensitive(&self) -> bool {
        self.case_sensitive
    }

    /// The window lies inside an encoded key.
    pub open spec fn wf(&self) -> bool {
        self.start() <= self.end() <= ENCODED_KEY_LEN
    }

    /// The predicate holds of a text.
    pub open spec fn accepts(&self, text: Seq<u8>) -> bool {
        window_contains(
            text,
            self.target(),
            self.start() as int,
            self.end() as int,
            self.case_sensitive(),
        )
    }

    /// The predicate for a window that is known to lie inside an encoded
    /// key. A window shorter than the target is accepted: nothing matches it.
    pub fn within(target: &str, start: usize, end: usize, case_sensitive: bool) -> (p:
        MatchPredicate)
        requires
            start <= end <= ENCODED_KEY_LEN,
        ensures
            p.wf(),
            p.target() == target.spec_bytes(),
            p.start() == start,
            p.end() == end,
            p.case_sensitive() == case_sensitive,
    {
        MatchPredicate { target: slice_to_vec(target.as_bytes()), start, end, case_sensitive }
    }

    /// Whether `text[start..end]` holds the target.
    pub fn matches_bytes(&self, text: &[u8]) -> (r: bool)
        requires
            self.wf(),
            self.end() <= text@.len(),
        ensures
            r == self.accepts(text@),
    {
        let len: usize = self.target.len();
        if len > self.end - self.start {
            assert(!self.accepts(text@));
            return false;
        }
        let last: usize = self.end - len;
        let mut at: usize = self.start;
        while at <= last
            invariant
                self.wf(),
                self.end <= text@.len(),
                len == self.target@.len(),
                last == self.end - len,
                self.start <= at <= last + 1,
                forall|x: int|
                    self.start <= x < at ==> !#[trigger] occurs_at(
                        text@,
                        self.target@,
                        x,
                        self.case_sensitive,
                    ),
            decreases last + 1 - at,
        {
            if stands_at(text, &self.target, at, self.case_sensitive) {
                return true;
            }
            at += 1;
        }
        false
    }

    /// Whether the window of an encoded key holds the target.
    pub fn matches_encoding(&self, encoded: &str) -> (r: bool)
        requires
            self.wf(),
            self.end() <= encoded.spec_bytes().len(),
        ensures
            r == self.accepts(encoded.spec_bytes()),
    {
        self.matches_bytes(encoded.as_bytes())
    }

    /// Whether the encoded public key of a point passes.
    pub fn matches_point(&self, point: &CurvePoint) -> (r: bool)
        requires
            self.wf(),
            point.wf(),
        ensures
            r == self.accepts(encoded_public_key(point@)),
    {
        let public: [u8; 32] = point.public_key();
        let text: String = base64_string(&public);
        proof {
            is_ascii_chars_encode_utf8(text@);
        }
        self.matches_encoding(text.as_str())
    }
}

/// The predicate for `target` in the window `[start, end)`. A window that
/// is reversed, reaches past the encoded key, or is shorter than the target
/// is rejected, in that order.
pub fn make_predicate(target: &str, start: usize, end: usize, case_sensitive: bool) -> (r: Result<
    MatchPredicate,
    ConfigError,
>)
    ensures
        match window_error(target.spec_bytes().len(), start as nat, end as nat) {
            Some(e) => r == Err::<MatchPredicate, ConfigError>(e),
            None => r is Ok && r->Ok_0.wf() && r->Ok_0.target() == target.spec_bytes()
                && r->Ok_0.start() == start && r->Ok_0.end() == end
                && r->Ok_0.case_sensitive() == case_sensitive,
        },
{
    if start > end {
        return Err(ConfigError::WindowReversed);
    }
    if end > ENCODED_KEY_LEN {
        return Err(ConfigError::WindowPastEncoding);
    }
    if end - start < target.as_bytes().len() {
        return Err(ConfigError::WindowTooShort);
    }
    Ok(MatchPredicate::within(target, start, end, case_sensitive))
}

} // verus!
