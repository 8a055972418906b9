//! Rendering of values for the print instructions: decimal numerals, the
//! single-character form, and the debug form of the whole stack.

use vstd::prelude::*;
use vstd::arithmetic::div_mod::lemma_mod_multiples_vanish;

verus! {

/// The decimal digit character for `d` in 0..=9.
pub open spec fn digit_char(d: int) -> char {
    if d == 0 {
        '0'
    } else if d == 1 {
        '1'
    } else if d == 2 {
        '2'
    } else if d == 3 {
        '3'
    } else if d == 4 {
        '4'
    } else if d == 5 {
        '5'
    } else if d == 6 {
        '6'
    } else if d == 7 {
        '7'
    } else if d == 8 {
        '8'
    } else {
        '9'
    }
}

/// The decimal digits of a non-negative number, most significant first.
pub open spec fn dec_digits(n: nat) -> Seq<char>
    decreases n,
{
    if n < 10 {
        seq![digit_char(n as int)]
    } else {
        dec_digits(n / 10) + seq![digit_char((n % 10) as int)]
    }
}

/// The decimal rendering of a signed number, as `Print` writes it.
pub open spec fn dec_str(v: int) -> Seq<char> {
    if v < 0 {
        seq!['-'] + dec_digits((-v) as nat)
    } else {
        dec_digits(v as nat)
    }
}

/// The low byte of a value, as `PrintC` keeps it.
pub open spec fn low_byte(v: i64) -> u8 {
    ((v as int) % 256) as u8
}

/// The character `PrintC` writes: the low byte of the value.
pub open spec fn low_byte_char(v: i64) -> char {
    low_byte(v) as char
}

/// The rendering of the stack values from position `i` on, separated by
/// `", "` (with no separator before position 0).
pub open spec fn stack_items_from(s: Seq<i64>, i: int) -> Seq<char>
    decreases s.len() - i,
{
    if i < 0 || i >= s.len() {
        Seq::empty()
    } else {
        let head = if i == 0 {
            dec_str(s[i] as int)
        } else {
            seq![',', ' '] + dec_str(s[i] as int)
        };
        head + stack_items_from(s, i + 1)
    }
}

/// The debug rendering of the whole stack, as `PrintStack` writes it:
/// `[v0, v1, ...]` followed by a newline.
pub open spec fn stack_repr(s: Seq<i64>) -> Seq<char> {
    seq!['['] + stack_items_from(s, 0) + seq![']', '\n']
}

/// Append the digit character for `d`.
fn push_digit(d: u64, out: &mut Vec<char>)
    requires
        d < 10,
    ensures
        final(out)@ == old(out)@.push(digit_char(d as int)),
{
    let c: char = if d == 0 {
        '0'
    } else if d == 1 {
        '1'
    } else if d == 2 {
        '2'
    } else if d == 3 {
        '3'
    } else if d == 4 {
        '4'
    } else if d == 5 {
        '5'
    } else if d == 6 {
        '6'
    } else if d == 7 {
        '7'
    } else if d == 8 {
        '8'
    } else {
        '9'
    };
    out.push(c);
}

/// Append the decimal digits of `n`, most significant first.
pub fn push_dec_u64(n: u64, out: &mut Vec<char>)
    ensures
        final(out)@ == old(out)@ + dec_digits(n as nat),
    decreases n,
{
    if n < 10 {
        push_digit(n, out);
        assert(out@ =~= old(out)@ + dec_digits(n as nat));
    } else {
        push_dec_u64(n / 10, out);
        push_digit(n % 10, out);
        assert(out@ =~= old(out)@ + dec_digits(n as nat));
    }
}

/// Append the decimal rendering of the signed value `v`.
pub fn push_dec_i64(v: i64, out: &mut Vec<char>)
    ensures
        final(out)@ == old(out)@ + dec_str(v as int),
{
    if v >= 0 {
        push_dec_u64(v as u64, out);
    } else {
        out.push('-');
        let mag: u64 = ((-(v + 1)) as u64) + 1;
        assert(mag == -(v as int));
        push_dec_u64(mag, out);
        assert(out@ =~= old(out)@ + dec_str(v as int));
    }
}

/// Append the character whose code is the low byte of `v`.
pub fn push_low_byte_char(v: i64, out: &mut Vec<char>)
    ensures
        final(out)@ == old(out)@.push(low_byte_char(v)),
{
    let u: u64 = 0u64.wrapping_add_signed(v);
    proof {
        if v < 0 {
            lemma_mod_multiples_vanish(0x100_0000_0000_0000, v as int, 256);
        }
    }
    let b: u8 = (u % 256) as u8;
    assert(b == low_byte(v));
    out.push(b as char);
}

/// Append the rendering of the stack values from position `i` on.
fn push_items_from(v: &Vec<i64>, i: usize, out: &mut Vec<char>)
    ensures
        final(out)@ == old(out)@ + stack_items_from(v@, i as int),
    decreases v@.len() - i,
{
    if i < v.len() {
        if i > 0 {
            out.push(',');
            out.push(' ');
        }
        push_dec_i64(v[i], out);
        push_items_from(v, i + 1, out);
        assert(out@ =~= old(out)@ + stack_items_from(v@, i as int));
    } else {
        assert(out@ =~= old(out)@ + stack_items_from(v@, i as int));
    }
}

/// Append the debug rendering of the whole stack.
pub fn push_stack_repr(v: &Vec<i64>, out: &mut Vec<char>)
    ensures
        final(out)@ == old(out)@ + stack_repr(v@),
{
    out.push('[');
    push_items_from(v, 0, out);
    out.push(']');
    out.push('\n');
    assert(out@ =~= old(out)@ + stack_repr(v@));
}

} // verus!
