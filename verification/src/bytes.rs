//! Big-endian operand encoding: eight bytes per operand, most significant
//! first, with the signed value carried as its two's-complement bit
//! pattern.

use vstd::prelude::*;
use vstd::arithmetic::div_mod::{lemma_fundamental_div_mod, lemma_multiply_divide_lt};

verus! {

/// The two's-complement bit pattern of a signed value.
pub open spec fn i64_to_u64_bits(v: i64) -> u64 {
    if v >= 0 {
        v as u64
    } else {
        (v + 0x1_0000_0000_0000_0000) as u64
    }
}

/// The signed value whose two's-complement bit pattern is `u`.
pub open spec fn u64_bits_to_i64(u: u64) -> i64 {
    if u <= i64::MAX as u64 {
        u as i64
    } else {
        (u - 0x1_0000_0000_0000_0000) as i64
    }
}

/// The bit-pattern conversions invert each other.
pub proof fn lemma_bits_roundtrip(v: i64)
    ensures
        u64_bits_to_i64(i64_to_u64_bits(v)) == v,
{
}

/// 256 to the power `k`: the number of values `k` bytes can carry.
pub open spec fn p256(k: nat) -> nat
    decreases k,
{
    if k == 0 {
        1
    } else {
        256 * p256((k - 1) as nat)
    }
}

/// `p256` grows with its argument.
pub proof fn lemma_p256_mono(j: nat, k: nat)
    requires
        j <= k,
    ensures
        p256(j) <= p256(k),
        p256(j) >= 1,
    decreases k,
{
    if j < k {
        lemma_p256_mono(j, (k - 1) as nat);
    } else if k > 0 {
        lemma_p256_mono((j - 1) as nat, (k - 1) as nat);
    }
}

/// The number a big-endian byte string stands for.
pub open spec fn be_val(s: Seq<u8>) -> nat
    decreases s.len(),
{
    if s.len() == 0 {
        0
    } else {
        (be_val(s.drop_last()) * 256 + s.last()) as nat
    }
}

/// The `n`-byte big-endian encoding of `u`, most significant first.
pub open spec fn be_bytes(u: nat, n: nat) -> Seq<u8>
    decreases n,
{
    if n == 0 {
        Seq::empty()
    } else {
        be_bytes(u / 256, (n - 1) as nat).push((u % 256) as u8)
    }
}

/// Encoding then reading back gives the number itself, when it fits.
pub proof fn lemma_be_bytes_val(u: nat, n: nat)
    requires
        u < p256(n),
    ensures
        be_bytes(u, n).len() == n,
        be_val(be_bytes(u, n)) == u,
    decreases n,
{
    if n > 0 {
        assert(p256(n) == 256 * p256((n - 1) as nat));
        lemma_multiply_divide_lt(u as int, 256, p256((n - 1) as nat) as int);
        lemma_be_bytes_val(u / 256, (n - 1) as nat);
        assert(be_bytes(u, n).drop_last() =~= be_bytes(u / 256, (n - 1) as nat));
        lemma_fundamental_div_mod(u as int, 256);
    }
}

/// Append the `n`-byte big-endian encoding of `u`.
pub fn push_be_bytes(u: u64, n: u8, out: &mut Vec<u8>)
    ensures
        final(out)@ == old(out)@ + be_bytes(u as nat, n as nat),
    decreases n,
{
    if n == 0 {
        assert(out@ =~= old(out)@ + be_bytes(u as nat, 0));
    } else {
        push_be_bytes(u / 256, n - 1, out);
        out.push((u % 256) as u8);
        assert(out@ =~= old(out)@ + be_bytes(u as nat, n as nat));
    }
}

/// Read the eight-byte big-endian operand that starts at `pos`.
pub fn read_be_u64(code: &Vec<u8>, pos: usize) -> (u: u64)
    requires
        pos + 8 <= code@.len(),
    ensures
        u == be_val(code@.subrange(pos as int, pos + 8)),
{
    let mut u: u64 = 0;
    let mut k: usize = 0;
    let end = code.len();
    while k < 8
        invariant
            k <= 8,
            pos + 8 <= end,
            end == code@.len(),
            u == be_val(code@.subrange(pos as int, pos + k)),
            u < p256(k as nat),
        decreases 8 - k,
    {
        proof {
            lemma_p256_mono(k as nat, 7);
            reveal_with_fuel(p256, 9);
            assert(code@.subrange(pos as int, pos + k + 1).drop_last() =~= code@.subrange(
                pos as int,
                pos + k,
            ));
        }
        u = u * 256 + (code[pos + k] as u64);
        k = k + 1;
    }
    proof {
        assert(code@.subrange(pos as int, pos + 8) =~= code@.subrange(pos as int, pos + k));
    }
    u
}

} // verus!
