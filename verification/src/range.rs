//! Parsing of the HTTP `Range` request header.
//!
//! Exactly the single-range form `bytes=<start>[-<end>]` is accepted, with
//! `<end>` optional.  Anything else — multi-range requests, missing digits,
//! a start that does not fit in 64 bits — is rejected, and the caller falls
//! back to a full-content response.  An `<end>` run of digits whose value
//! does not fit in 64 bits is treated as absent rather than rejecting the
//! whole header.

use vstd::prelude::*;
use vstd::string::StringSliceAdditionalSpecFns;

use crate::digits::{all_digits, digits_val, is_ascii_digit, parse_u64_digits};

verus! {

/// A parsed byte range: start offset, and an optional inclusive end offset.
pub struct RangeHeader {
    pub start: u64,
    pub end: Option<u64>,
}

/// The bytes of the literal prefix `bytes=`.
pub open spec fn range_prefix() -> Seq<u8> {
    seq![0x62u8, 0x79u8, 0x74u8, 0x65u8, 0x73u8, 0x3du8]
}

/// Index of the first byte at or after `i` that is not an ASCII digit;
/// `s.len()` if all remaining bytes are digits.
pub open spec fn first_non_digit(s: Seq<u8>, i: int) -> int
    recommends
        0 <= i <= s.len(),
    decreases s.len() - i,
{
    if i < 0 || i >= s.len() {
        s.len() as int
    } else if !is_ascii_digit(s[i]) {
        i
    } else {
        first_non_digit(s, i + 1)
    }
}

/// Basic facts about `first_non_digit`: it stays in bounds, everything
/// before it (from `i`) is a digit, and the byte it points at is not.
pub proof fn lemma_first_non_digit(s: Seq<u8>, i: int)
    requires
        0 <= i <= s.len(),
    ensures
        i <= first_non_digit(s, i) <= s.len(),
        forall|j: int| i <= j < first_non_digit(s, i) ==> is_ascii_digit(#[trigger] s[j]),
        first_non_digit(s, i) < s.len() ==> !is_ascii_digit(s[first_non_digit(s, i)]),
    decreases s.len() - i,
{
    if i < s.len() && is_ascii_digit(s[i]) {
        lemma_first_non_digit(s, i + 1);
    }
}

/// Skipping over digits does not move the first non-digit.
pub proof fn lemma_first_non_digit_skip(s: Seq<u8>, i: int, j: int)
    requires
        0 <= i <= j <= s.len(),
        forall|k: int| i <= k < j ==> is_ascii_digit(#[trigger] s[k]),
    ensures
        first_non_digit(s, i) == first_non_digit(s, j),
    decreases j - i,
{
    if i < j {
        lemma_first_non_digit_skip(s, i + 1, j);
    }
}

/// Whether `s` has the shape `bytes=<digits>-<digits?>`: the literal prefix,
/// at least one start digit, a dash, and only digits (possibly none) after
/// the dash.
pub open spec fn has_range_shape(s: Seq<u8>) -> bool {
    let d = first_non_digit(s, 6);
    &&& s.len() >= 8
    &&& s.subrange(0, 6) == range_prefix()
    &&& d > 6
    &&& d < s.len()
    &&& s[d] == 0x2du8
    &&& first_non_digit(s, d + 1) == s.len()
}

/// The digit run of the start offset.
pub open spec fn start_digits(s: Seq<u8>) -> Seq<u8> {
    s.subrange(6, first_non_digit(s, 6))
}

/// The digit run after the dash (possibly empty).
pub open spec fn end_digits(s: Seq<u8>) -> Seq<u8> {
    s.subrange(first_non_digit(s, 6) + 1, s.len() as int)
}

/// Whether the header parses: right shape, and a start value that fits.
pub open spec fn range_parses(s: Seq<u8>) -> bool {
    has_range_shape(s) && digits_val(start_digits(s)) <= u64::MAX
}

/// The end offset the parse yields: present only when end digits were given
/// and their value fits.
pub open spec fn spec_range_end(s: Seq<u8>) -> Option<u64> {
    if end_digits(s).len() > 0 && digits_val(end_digits(s)) <= u64::MAX {
        Some(digits_val(end_digits(s)) as u64)
    } else {
        None
    }
}

impl RangeHeader {
    /// Parses a `Range` header value.  Returns `None` exactly when the
    /// header is not of the single-range form `bytes=<start>[-<end>]` with
    /// a start offset that fits in 64 bits.
    pub fn parse(header: &str) -> (r: Option<RangeHeader>)
        ensures
            r is Some <==> range_parses(header.spec_bytes()),
            match r {
                Some(h) => {
                    &&& h.start == digits_val(start_digits(header.spec_bytes()))
                    &&& h.end == spec_range_end(header.spec_bytes())
                },
                None => true,
            },
    {
        let s = header.as_bytes();
        let n = s.len();
        if n < 8 {
            return None;
        }
        if s[0] != 0x62 || s[1] != 0x79 || s[2] != 0x74 || s[3] != 0x65 || s[4] != 0x73
            || s[5] != 0x3d {
            proof {
                assert(s@.subrange(0, 6) != range_prefix()) by {
                    assert(range_prefix()[0] == 0x62u8 && range_prefix()[1] == 0x79u8
                        && range_prefix()[2] == 0x74u8 && range_prefix()[3] == 0x65u8
                        && range_prefix()[4] == 0x73u8 && range_prefix()[5] == 0x3du8);
                    assert(s@.subrange(0, 6)[0] == s@[0] && s@.subrange(0, 6)[1] == s@[1]
                        && s@.subrange(0, 6)[2] == s@[2] && s@.subrange(0, 6)[3] == s@[3]
                        && s@.subrange(0, 6)[4] == s@[4] && s@.subrange(0, 6)[5] == s@[5]);
                }
            }
            return None;
        }
        // Scan the start digits.
        let mut i: usize = 6;
        while i < n && 0x30 <= s[i] && s[i] <= 0x39
            invariant
                6 <= i <= n == s@.len(),
                forall|k: int| 6 <= k < i ==> is_ascii_digit(#[trigger] s@[k]),
            decreases n - i,
        {
            i = i + 1;
        }
        proof {
            lemma_first_non_digit_skip(s@, 6, i as int);
            assert(first_non_digit(s@, i as int) == i);
        }
        if i == 6 {
            return None;
        }
        if i == n {
            return None;
        }
        if s[i] != 0x2d {
            return None;
        }
        // Scan the end digits; they must reach the end of the header.
        let mut j: usize = i + 1;
        while j < n && 0x30 <= s[j] && s[j] <= 0x39
            invariant
                i + 1 <= j <= n == s@.len(),
                forall|k: int| i + 1 <= k < j ==> is_ascii_digit(#[trigger] s@[k]),
            decreases n - j,
        {
            j = j + 1;
        }
        proof {
            lemma_first_non_digit_skip(s@, i + 1, j as int);
            assert(first_non_digit(s@, j as int) == j);
        }
        if j != n {
            return None;
        }
        proof {
            assert(has_range_shape(s@)) by {
                assert(s@.subrange(0, 6) =~= range_prefix());
            }
            lemma_first_non_digit(s@, 6);
            assert(all_digits(s@.subrange(6, i as int)));
            assert(all_digits(s@.subrange(i + 1, n as int)));
        }
        let start = match parse_u64_digits(s, 6, i) {
            Some(v) => v,
            None => {
                return None;
            },
        };
        let end = if i + 1 == n {
            proof {
                assert(end_digits(s@).len() == 0);
            }
            None
        } else {
            match parse_u64_digits(s, i + 1, n) {
                Some(v) => Some(v),
                None => None,
            }
        };
        Some(RangeHeader { start, end })
    }
}

} // verus!
