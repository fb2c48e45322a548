//! Facts about single bits of a `u64`, proved with the bit-vector solver.
//! Everything else in the crate reasons about bitboards through these.

use vstd::prelude::*;

verus! {

/// Bit `i` of `x` is one.
pub open spec fn bit_at(x: u64, i: u64) -> bool {
    (x >> i) & 1u64 == 1u64
}

pub proof fn lemma_bit_or(a: u64, b: u64, i: u64)
    by (bit_vector)
    requires
        i < 64,
    ensures
        bit_at(a | b, i) == (bit_at(a, i) || bit_at(b, i)),
{
}

pub proof fn lemma_bit_and(a: u64, b: u64, i: u64)
    by (bit_vector)
    requires
        i < 64,
    ensures
        bit_at(a & b, i) == (bit_at(a, i) && bit_at(b, i)),
{
}

pub proof fn lemma_bit_xor(a: u64, b: u64, i: u64)
    by (bit_vector)
    requires
        i < 64,
    ensures
        bit_at(a ^ b, i) == (bit_at(a, i) != bit_at(b, i)),
{
}

pub proof fn lemma_bit_not(a: u64, i: u64)
    by (bit_vector)
    requires
        i < 64,
    ensures
        bit_at(!a, i) == !bit_at(a, i),
{
}

pub proof fn lemma_bit_shl(a: u64, n: u64, i: u64)
    by (bit_vector)
    requires
        i < 64,
        n < 64,
    ensures
        bit_at(a << n, i) == (i >= n && bit_at(a, (i - n) as u64)),
{
}

pub proof fn lemma_bit_shr(a: u64, n: u64, i: u64)
    by (bit_vector)
    requires
        i < 64,
        n < 64,
    ensures
        bit_at(a >> n, i) == (i + n < 64 && bit_at(a, (i + n) as u64)),
{
}

pub proof fn lemma_bit_one_shl(s: u64, i: u64)
    by (bit_vector)
    requires
        i < 64,
        s < 64,
    ensures
        bit_at(1u64 << s, i) == (i == s),
{
}

pub proof fn lemma_bit_zero(i: u64)
    by (bit_vector)
    ensures
        !bit_at(0u64, i),
{
}

/// The one bits of the a-file word: every eighth bit from bit 0.
pub proof fn lemma_file_a_bits(i: u64)
    by (bit_vector)
    requires
        i < 64,
    ensures
        bit_at(0x0101_0101_0101_0101u64, i) == (i % 8 == 0),
{
}

/// The one bits of the h-file word: every eighth bit from bit 7.
pub proof fn lemma_file_h_bits(i: u64)
    by (bit_vector)
    requires
        i < 64,
    ensures
        bit_at(0x8080_8080_8080_8080u64, i) == (i % 8 == 7),
{
}

/// The one bits of the rank-1 word: the lowest eight.
pub proof fn lemma_rank_1_bits(i: u64)
    by (bit_vector)
    requires
        i < 64,
    ensures
        bit_at(0x0000_0000_0000_00FFu64, i) == (i < 8),
{
}

/// The one bits of the rank-8 word: the highest eight.
pub proof fn lemma_rank_8_bits(i: u64)
    by (bit_vector)
    requires
        i < 64,
    ensures
        bit_at(0xFF00_0000_0000_0000u64, i) == (i >= 56),
{
}

/// The one bits of the a1-h8 diagonal word: every ninth bit from bit 0.
pub proof fn lemma_main_diagonal_bits(i: u64)
    by (bit_vector)
    requires
        i < 64,
    ensures
        bit_at(0x8040_2010_0804_0201u64, i) == (i % 9 == 0),
{
}

/// The one bits of the h1-a8 anti-diagonal word: every seventh bit from bit 7 to bit 56.
pub proof fn lemma_main_anti_diagonal_bits(i: u64)
    by (bit_vector)
    requires
        i < 64,
    ensures
        bit_at(0x0102_0408_1020_4080u64, i) == (i % 7 == 0 && 7 <= i && i <= 56),
{
}

/// Testing bit `s` against a one-bit mask.
pub proof fn lemma_bit_mask_test(a: u64, s: u64)
    by (bit_vector)
    requires
        s < 64,
    ensures
        (a & (1u64 << s) != 0) == bit_at(a, s),
{
}

/// Clearing a bit that is set makes the number strictly smaller.
pub proof fn lemma_clear_set_bit_decreases(a: u64, s: u64)
    by (bit_vector)
    requires
        s < 64,
        bit_at(a, s),
    ensures
        a & !(1u64 << s) < a,
{
}

proof fn lemma_xor_zero_equal(a: u64, b: u64)
    by (bit_vector)
    ensures
        (a ^ b == 0) == (a == b),
{
}

/// The index of the lowest one bit of a nonzero number.
pub open spec fn lowest_bit(x: u64) -> u64 {
    vstd::std_specs::bits::u64_trailing_zeros(x) as u64
}

/// `u64::trailing_zeros` of a nonzero number names its lowest one bit.
pub proof fn lemma_lowest_bit(x: u64)
    requires
        x != 0,
    ensures
        lowest_bit(x) < 64,
        bit_at(x, lowest_bit(x)),
        forall|j: u64| j < lowest_bit(x) ==> !#[trigger] bit_at(x, j),
{
    vstd::std_specs::bits::axiom_u64_trailing_zeros(x);
    let tz = lowest_bit(x);
    assert forall|j: u64| j < tz implies !#[trigger] bit_at(x, j) by {
        assert((x >> j) & 1u64 == 0u64);
    }
}

/// Two numbers with the same bits are equal.
pub proof fn lemma_bits_determine(a: u64, b: u64)
    requires
        forall|i: u64| i < 64 ==> #[trigger] bit_at(a, i) == bit_at(b, i),
    ensures
        a == b,
{
    lemma_xor_zero_equal(a, b);
    if a != b {
        let c = a ^ b;
        lemma_lowest_bit(c);
        let i = lowest_bit(c);
        lemma_bit_xor(a, b, i);
        assert(bit_at(a, i) == bit_at(b, i));
    }
}

} // verus!
