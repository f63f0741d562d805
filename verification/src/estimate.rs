//! What a search is expected to cost, and the window it uses when none is
//! asked for.

use vstd::prelude::*;
use vstd::string::{StrSliceExecFns, StringSliceAdditionalSpecFns};
use crate::encoding::ENCODED_KEY_LEN;

verus! {

/// `base^exp`.
pub open spec fn power(base: nat, exp: nat) -> nat
    decreases exp,
{
    if exp == 0 {
        1
    } else {
        base * power(base, (exp - 1) as nat)
    }
}

/// An ASCII letter, of either case.
pub open spec fn is_ascii_letter(c: char) -> bool {
    ('a' <= c && c <= 'z') || ('A' <= c && c <= 'Z')
}

/// The number of ASCII letters among the first `n` characters of `s`.
pub open spec fn letters(s: Seq<char>, n: nat) -> nat
    decreases n,
{
    if n == 0 {
        0
    } else {
        letters(s, (n - 1) as nat) + if is_ascii_letter(s[n - 1]) {
            1nat
        } else {
            0nat
        }
    }
}

/// The end of the window that is searched: the end asked for, or ten
/// characters when the target has at most ten bytes and ten more than the
/// target has otherwise; never more than the encoded key has.
pub open spec fn window_end_spec(requested: Option<usize>, target_len: nat) -> nat {
    let wanted: nat = match requested {
        Some(end) => end as nat,
        None => if target_len <= 10 {
            10
        } else {
            target_len + 10
        },
    };
    if wanted < ENCODED_KEY_LEN {
        wanted
    } else {
        ENCODED_KEY_LEN as nat
    }
}

/// The number of keys of which one is expected to match: `64` to the
/// number of characters of the target, divided by the number of offsets the
/// target can stand at and, when case does not matter, by two for every
/// letter. `None` when the window ends before the target does or one of the
/// two numbers does not fit in 64 bits.
pub open spec fn trials_per_key_spec(
    target: Seq<char>,
    target_bytes: nat,
    end: nat,
    case_sensitive: bool,
) -> Option<nat> {
    if end < target_bytes {
        None
    } else {
        let offsets: nat = if 1 + end - target_bytes < ENCODED_KEY_LEN {
            (1 + end - target_bytes) as nat
        } else {
            ENCODED_KEY_LEN as nat
        };
        let ways: nat = if case_sensitive {
            1
        } else {
            power(2, letters(target, target.len()))
        };
        let denominator: nat = power(64, target.len());
        if offsets * ways > u64::MAX || denominator > u64::MAX {
            None
        } else {
            Some(denominator / (offsets * ways))
        }
    }
}

/// The number of keys of which one is expected to hold a target of `len`
/// characters within its first ten: `32^len / (10 - len)`. There is none
/// for a target of ten characters or more.
pub open spec fn prefix_trials_spec(len: nat) -> Option<nat> {
    if len < 10 {
        Some(power(32, len) / ((10 - len) as nat))
    } else {
        None
    }
}

/// Powers of a base of at least one do not shrink as the exponent grows.
pub proof fn lemma_power_monotonic(base: nat, low: nat, high: nat)
    requires
        base >= 1,
        low <= high,
    ensures
        1 <= power(base, low) <= power(base, high),
    decreases high,
{
    if low == 0 {
        if high > 0 {
            lemma_power_monotonic(base, 0, (high - 1) as nat);
            assert(base * power(base, (high - 1) as nat) >= 1) by (nonlinear_arith)
                requires
                    base >= 1,
                    power(base, (high - 1) as nat) >= 1,
            ;
        }
    } else {
        lemma_power_monotonic(base, (low - 1) as nat, (high - 1) as nat);
        assert(base * power(base, (low - 1) as nat) <= base * power(base, (high - 1) as nat))
            by (nonlinear_arith)
            requires
                power(base, (low - 1) as nat) <= power(base, (high - 1) as nat),
        ;
        assert(base * power(base, (low - 1) as nat) >= 1) by (nonlinear_arith)
            requires
                base >= 1,
                power(base, (low - 1) as nat) >= 1,
        ;
    }
}

/// `base^exp`, or `None` when it does not fit in 64 bits.
pub fn power_u64(base: u64, exp: usize) -> (r: Option<u64>)
    requires
        base >= 1,
    ensures
        match r {
            Some(v) => v == power(base as nat, exp as nat),
            None => power(base as nat, exp as nat) > u64::MAX,
        },
{
    let mut acc: u64 = 1;
    let mut i: usize = 0;
    while i < exp
        invariant
            base >= 1,
            i <= exp,
            acc == power(base as nat, i as nat),
        decreases exp - i,
    {
        match acc.checked_mul(base) {
            Some(next) => {
                assert(acc * base == base * acc) by (nonlinear_arith);
                acc = next;
            },
            None => {
                proof {
                    assert(acc * base == base * acc) by (nonlinear_arith);
                    lemma_power_monotonic(base as nat, (i + 1) as nat, exp as nat);
                }
                return None;
            },
        }
        i += 1;
    }
    Some(acc)
}

fn is_letter(c: char) -> (r: bool)
    ensures
        r == is_ascii_letter(c),
{
    ('a' <= c && c <= 'z') || ('A' <= c && c <= 'Z')
}

fn count_letters(target: &str) -> (r: usize)
    ensures
        r == letters(target@, target@.len()),
        target@.len() <= usize::MAX,
{
    let n: usize = target.unicode_len();
    let mut count: usize = 0;
    let mut i: usize = 0;
    while i < n
        invariant
            n == target@.len(),
            i <= n,
            count <= i,
            count == letters(target@, i as nat),
        decreases n - i,
    {
        if is_letter(target.get_char(i)) {
            count += 1;
        }
        i += 1;
    }
    count
}

/// The end of the window that is searched for a target of `target_len`
/// bytes.
pub fn window_end(requested: Option<usize>, target_len: usize) -> (r: usize)
    ensures
        r == window_end_spec(requested, target_len as nat),
        r <= ENCODED_KEY_LEN,
{
    let wanted: usize = match requested {
        Some(end) => end,
        None => if target_len <= 10 {
            10
        } else if target_len >= ENCODED_KEY_LEN {
            ENCODED_KEY_LEN
        } else {
            target_len + 10
        },
    };
    if wanted < ENCODED_KEY_LEN {
        wanted
    } else {
        ENCODED_KEY_LEN
    }
}

/// The number of keys of which one is expected to match `target` in the
/// window that ends at `end`.
pub fn trials_per_key(target: &str, end: usize, case_sensitive: bool) -> (r: Option<u64>)
    ensures
        match trials_per_key_spec(
            target@,
            target.spec_bytes().len(),
            end as nat,
            case_sensitive,
        ) {
            Some(n) => r == Some(n as u64) && n <= u64::MAX,
            None => r is None,
        },
{
    let target_bytes: usize = target.as_bytes().len();
    if end < target_bytes {
        return None;
    }
    let room: usize = end - target_bytes;
    let offsets: u64 = if room < ENCODED_KEY_LEN - 1 {
        (room + 1) as u64
    } else {
        ENCODED_KEY_LEN as u64
    };
    let letter_count: usize = count_letters(target);
    let ways: u64 = if case_sensitive {
        1
    } else {
        match power_u64(2, letter_count) {
            Some(w) => w,
            None => {
                proof {
                    let w = power(2, letters(target@, target@.len()));
                    assert(offsets as nat * w > u64::MAX) by (nonlinear_arith)
                        requires
                            offsets >= 1,
                            w > u64::MAX,
                    ;
                }
                return None;
            },
        }
    };
    let numerator: u64 = match offsets.checked_mul(ways) {
        Some(n) => n,
        None => {
            return None;
        },
    };
    let denominator: u64 = match power_u64(64, target.unicode_len()) {
        Some(d) => d,
        None => {
            return None;
        },
    };
    proof {
        lemma_power_monotonic(2, 0, letter_count as nat);
        assert(offsets as nat * (ways as nat) >= 1) by (nonlinear_arith)
            requires
                offsets >= 1,
                ways >= 1,
        ;
    }
    Some(denominator / numerator)
}

/// The number of keys of which one is expected to hold a target of `len`
/// characters within its first ten.
pub fn prefix_trials(len: u64) -> (r: Option<u64>)
    ensures
        match prefix_trials_spec(len as nat) {
            Some(n) => r == Some(n as u64) && n <= u64::MAX,
            None => r is None,
        },
{
    if len >= 10 {
        return None;
    }
    proof {
        lemma_power_monotonic(32, len as nat, 9);
        assert(power(32, 9) == 35184372088832) by {
            reveal_with_fuel(power, 10);
        }
    }
    match power_u64(32, len as usize) {
        Some(p) => Some(p / (10 - len)),
        None => None,
    }
}

} // verus!
