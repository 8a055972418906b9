//! Decimal integer literals, as operands write them: an optional sign
//! followed by one or more digits, nothing else, rejected when out of
//! range.

use vstd::prelude::*;
use vstd::string::StrSliceExecFns;

verus! {

/// True of a decimal digit character.
pub open spec fn is_digit(c: char) -> bool {
    48 <= c as int <= 57
}

/// The value of a digit character.
pub open spec fn digit_val(c: char) -> int {
    c as int - 48
}

/// True when every character of `s` is a digit.
pub open spec fn all_digits(s: Seq<char>) -> bool {
    forall|i: int| 0 <= i < s.len() ==> is_digit(#[trigger] s[i])
}

/// The number a digit string stands for.
pub open spec fn digits_val(s: Seq<char>) -> int
    decreases s.len(),
{
    if s.len() == 0 {
        0
    } else {
        digits_val(s.drop_last()) * 10 + digit_val(s.last())
    }
}

/// The digits of a literal: everything after the optional sign.
pub open spec fn num_body(s: Seq<char>) -> Seq<char> {
    if s.len() > 0 && (s[0] == '-' || s[0] == '+') {
        s.subrange(1, s.len() as int)
    } else {
        s
    }
}

/// True of a literal with a minus sign.
pub open spec fn num_neg(s: Seq<char>) -> bool {
    s.len() > 0 && s[0] == '-'
}

/// True of a well-formed literal: a nonempty digit string after the
/// optional sign.
pub open spec fn wf_num(s: Seq<char>) -> bool {
    num_body(s).len() > 0 && all_digits(num_body(s))
}

/// The signed value of a well-formed literal.
pub open spec fn num_val(s: Seq<char>) -> int {
    if num_neg(s) {
        -digits_val(num_body(s))
    } else {
        digits_val(num_body(s))
    }
}

/// What parsing a signed operand yields: the value, if the literal is
/// well formed and fits.
pub open spec fn spec_parse_i64(s: Seq<char>) -> Option<i64> {
    if wf_num(s) && i64::MIN <= num_val(s) <= i64::MAX {
        Some(num_val(s) as i64)
    } else {
        None
    }
}

/// What parsing an unsigned operand yields: the value, if the literal is
/// well formed, has no minus sign, and fits.
pub open spec fn spec_parse_usize(s: Seq<char>) -> Option<usize> {
    if wf_num(s) && !num_neg(s) && num_val(s) <= usize::MAX {
        Some(num_val(s) as usize)
    } else {
        None
    }
}

/// A digit string's value is not negative.
pub proof fn lemma_digits_val_nonneg(s: Seq<char>)
    requires
        all_digits(s),
    ensures
        digits_val(s) >= 0,
    decreases s.len(),
{
    if s.len() > 0 {
        assert(all_digits(s.drop_last())) by {
            assert(forall|i: int| 0 <= i < s.len() - 1 ==> s.drop_last()[i] == s[i]);
        }
        lemma_digits_val_nonneg(s.drop_last());
    }
}

/// Dropping trailing digits does not increase a digit string's value.
pub proof fn lemma_digits_val_prefix_le(s: Seq<char>, j: int)
    requires
        all_digits(s),
        0 <= j <= s.len(),
    ensures
        digits_val(s.subrange(0, j)) <= digits_val(s),
    decreases s.len() - j,
{
    if j < s.len() {
        lemma_digits_val_prefix_le(s, j + 1);
        let t = s.subrange(0, j + 1);
        assert(t.drop_last() =~= s.subrange(0, j));
        assert(all_digits(t.drop_last()));
        lemma_digits_val_nonneg(t.drop_last());
        assert(digits_val(t) == digits_val(s.subrange(0, j)) * 10 + digit_val(s[j]));
    } else {
        assert(s.subrange(0, j) =~= s);
    }
}

/// Read the digit string that runs from `start` to the end of `s`,
/// reporting its value when it fits the unsigned range, nothing when a
/// non-digit stands in the way or the value is too large.
fn scan_digits(s: &str, start: usize, n: usize) -> (r: Option<u64>)
    requires
        start < n,
        n == s@.len(),
    ensures
        match r {
            Some(u) => all_digits(s@.subrange(start as int, n as int)) && u == digits_val(
                s@.subrange(start as int, n as int),
            ),
            None => !(all_digits(s@.subrange(start as int, n as int)) && digits_val(
                s@.subrange(start as int, n as int),
            ) <= u64::MAX),
        },
{
    let ghost body = s@.subrange(start as int, n as int);
    let mut mag: u64 = 0;
    let mut i: usize = start;
    while i < n
        invariant
            start <= i <= n,
            n == s@.len(),
            body == s@.subrange(start as int, n as int),
            all_digits(s@.subrange(start as int, i as int)),
            mag == digits_val(s@.subrange(start as int, i as int)),
        decreases n - i,
    {
        let c = s.get_char(i);
        let d = c as u32;
        let ghost scanned = s@.subrange(start as int, i as int);
        let ghost scanned1 = s@.subrange(start as int, i + 1);
        proof {
            assert(scanned1.drop_last() =~= scanned);
            assert(scanned1.last() == s@[i as int]);
        }
        if d < 48 || d > 57 {
            proof {
                assert(body[i - start] == s@[i as int]);
                assert(!is_digit(body[i - start]));
            }
            return None;
        }
        let step = mag.checked_mul(10);
        match step {
            Some(m10) => {
                match m10.checked_add((d - 48) as u64) {
                    Some(m) => {
                        mag = m;
                    },
                    None => {
                        proof {
                            lemma_scan_overflow(s@, start as int, i as int, n as int);
                        }
                        return None;
                    },
                }
            },
            None => {
                proof {
                    lemma_scan_overflow(s@, start as int, i as int, n as int);
                }
                return None;
            },
        }
        i = i + 1;
    }
    proof {
        assert(s@.subrange(start as int, i as int) =~= body);
    }
    Some(mag)
}

/// When the digits scanned so far already exceed the unsigned range, the
/// whole digit string does too (or a non-digit follows).
proof fn lemma_scan_overflow(s: Seq<char>, start: int, i: int, n: int)
    requires
        0 <= start <= i < n <= s.len(),
        all_digits(s.subrange(start, i)),
        is_digit(s[i]),
        digits_val(s.subrange(start, i)) * 10 + digit_val(s[i]) > u64::MAX,
    ensures
        !(all_digits(s.subrange(start, n)) && digits_val(s.subrange(start, n)) <= u64::MAX),
{
    let body = s.subrange(start, n);
    if all_digits(body) {
        lemma_digits_val_prefix_le(body, i + 1 - start);
        assert(body.subrange(0, i + 1 - start) =~= s.subrange(start, i + 1));
        assert(s.subrange(start, i + 1).drop_last() =~= s.subrange(start, i));
        assert(digits_val(s.subrange(start, i + 1)) == digits_val(s.subrange(start, i)) * 10
            + digit_val(s[i]));
    }
}

/// The sign and the digits' start of a literal, read from the front.
fn split_sign(s: &str, n: usize) -> (r: (bool, usize))
    requires
        n == s@.len(),
    ensures
        r.1 == if s@.len() > 0 && (s@[0] == '-' || s@[0] == '+') {
            1int
        } else {
            0int
        },
        r.0 == num_neg(s@),
        r.1 <= 1,
{
    if n == 0 {
        return (false, 0);
    }
    let c0 = s.get_char(0);
    if c0 == '-' {
        (true, 1)
    } else if c0 == '+' {
        (false, 1)
    } else {
        (false, 0)
    }
}

/// Parse a signed operand literal, as `Push` takes it.
pub fn parse_i64(t: &str) -> (r: Option<i64>)
    ensures
        r == spec_parse_i64(t@),
{
    let n = t.unicode_len();
    let (neg, start) = split_sign(t, n);
    proof {
        assert(num_body(t@) =~= t@.subrange(
            if t@.len() > 0 && (t@[0] == '-' || t@[0] == '+') {
                1int
            } else {
                0int
            },
            t@.len() as int,
        ));
    }
    if start >= n {
        return None;
    }
    let mag = match scan_digits(t, start, n) {
        Some(m) => m,
        None => {
            proof {
                if wf_num(t@) {
                    lemma_digits_val_nonneg(num_body(t@));
                }
            }
            return None;
        },
    };
    if neg {
        if mag > 9223372036854775808u64 {
            None
        } else if mag == 9223372036854775808u64 {
            Some(i64::MIN)
        } else {
            Some(-(mag as i64))
        }
    } else {
        if mag > i64::MAX as u64 {
            None
        } else {
            Some(mag as i64)
        }
    }
}

/// Parse an unsigned operand literal, as positions and indices take it.
pub fn parse_usize(t: &str) -> (r: Option<usize>)
    ensures
        r == spec_parse_usize(t@),
{
    let n = t.unicode_len();
    let (neg, start) = split_sign(t, n);
    proof {
        assert(num_body(t@) =~= t@.subrange(
            if t@.len() > 0 && (t@[0] == '-' || t@[0] == '+') {
                1int
            } else {
                0int
            },
            t@.len() as int,
        ));
    }
    if neg {
        return None;
    }
    if start >= n {
        return None;
    }
    let mag = match scan_digits(t, start, n) {
        Some(m) => m,
        None => {
            proof {
                if wf_num(t@) {
                    lemma_digits_val_nonneg(num_body(t@));
                }
            }
            return None;
        },
    };
    if mag > usize::MAX as u64 {
        None
    } else {
        Some(mag as usize)
    }
}

} // verus!
