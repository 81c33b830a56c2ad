//! IEEE-754 single-precision encodings, kept as bit patterns, and their
//! little-endian byte serialization.

use vstd::arithmetic::power2::{lemma2_to64, lemma_pow2_strictly_increases, lemma_pow2_unfold, pow2};
use vstd::prelude::*;

verus! {

/// Lowest bit of the exponent field of a single-precision float.
pub const MANTISSA_SCALE: u32 = 0x80_0000;

/// Integers below this bound are all exact single-precision floats.
pub const EXACT_INT_LIMIT: u32 = 0x100_0000;

/// Bits of the float `m * 2^(e - 150)` for `1 <= m`: the significand is
/// doubled (and the biased exponent `e` lowered) until its leading one
/// reaches the hidden-bit position.
pub open spec fn normalized_bits(m: int, e: int) -> int
    decreases if m < MANTISSA_SCALE { MANTISSA_SCALE - m } else { 0 },
{
    if m <= 0 || m >= MANTISSA_SCALE {
        e * MANTISSA_SCALE + (m - MANTISSA_SCALE)
    } else {
        normalized_bits(2 * m, e - 1)
    }
}

/// Single-precision bit pattern of the non-negative integer `n`, for
/// `n < EXACT_INT_LIMIT`, where the conversion is exact.
pub open spec fn int_f32_bits(n: int) -> int {
    if n == 0 {
        0
    } else {
        normalized_bits(n, 150)
    }
}

/// The single-precision bit pattern of the integer `n` (what `n as f32`
/// holds).
pub fn int_to_f32_bits(n: u32) -> (r: u32)
    requires
        n < EXACT_INT_LIMIT,
    ensures
        r as int == int_f32_bits(n as int),
{
    if n == 0 {
        return 0;
    }
    let mut m: u32 = n;
    let mut e: u32 = 150;
    proof {
        lemma2_to64();
    }
    while m < MANTISSA_SCALE
        invariant
            1 <= m < EXACT_INT_LIMIT,
            127 <= e <= 150,
            pow2((150 - e) as nat) <= m,
            normalized_bits(m as int, e as int) == normalized_bits(n as int, 150),
            pow2(23) == MANTISSA_SCALE,
        decreases if m < MANTISSA_SCALE { MANTISSA_SCALE - m } else { 0 },
    {
        proof {
            if e <= 127 {
                lemma_pow2_strictly_increases(22, (150 - e) as nat);
            }
            lemma_pow2_unfold((151 - e) as nat);
        }
        m = m * 2;
        e = e - 1;
    }
    e * MANTISSA_SCALE + (m - MANTISSA_SCALE)
}

/// Byte `i` (`0 <= i < 4`, least significant first) of the word `w`.
pub open spec fn le_byte(w: u32, i: int) -> u8 {
    if i == 0 {
        (w % 0x100) as u8
    } else if i == 1 {
        ((w / 0x100) % 0x100) as u8
    } else if i == 2 {
        ((w / 0x1_0000) % 0x100) as u8
    } else {
        ((w / 0x100_0000) % 0x100) as u8
    }
}

/// The little-endian serialization of a sequence of words.
pub open spec fn le_bytes_of(words: Seq<u32>) -> Seq<u8> {
    Seq::new((4 * words.len()) as nat, |i: int| le_byte(words[i / 4], i % 4))
}

/// Writes each word as four bytes, least significant first.
pub fn words_to_le_bytes(words: &Vec<u32>) -> (r: Vec<u8>)
    requires
        4 * words.len() <= usize::MAX,
    ensures
        r@ == le_bytes_of(words@),
{
    let mut r: Vec<u8> = Vec::with_capacity(4 * words.len());
    let mut k: usize = 0;
    while k < words.len()
        invariant
            k <= words.len(),
            4 * words.len() <= usize::MAX,
            r.len() == 4 * k,
            forall|i: int| 0 <= i < 4 * k ==> #[trigger] r@[i] == le_byte(words@[i / 4], i % 4),
        decreases words.len() - k,
    {
        let w = words[k];
        r.push((w % 0x100) as u8);
        r.push(((w / 0x100) % 0x100) as u8);
        r.push(((w / 0x1_0000) % 0x100) as u8);
        r.push(((w / 0x100_0000) % 0x100) as u8);
        k = k + 1;
    }
    assert(r@ =~= le_bytes_of(words@));
    r
}

} // verus!
