//! Squares of the board and the set of squares that a 64-bit word stands for.
//! Bit `sq` of a word is one exactly when square `sq` is in the set.

use crate::bits::{
    bit_at, lemma_bit_and, lemma_bit_not, lemma_bit_one_shl, lemma_bit_or, lemma_bit_shl,
    lemma_bit_shr, lemma_bit_xor, lemma_bit_zero, lemma_bits_determine,
};
use vstd::prelude::*;

verus! {

/// `sq` names a square of the board.
pub open spec fn is_square(sq: int) -> bool {
    0 <= sq < 64
}

/// The file of a square: 0 = a … 7 = h.
pub open spec fn file_of(sq: int) -> int {
    sq % 8
}

/// The rank of a square: 0 = rank 1 … 7 = rank 8.
pub open spec fn rank_of(sq: int) -> int {
    sq / 8
}

/// Every square of the board.
pub open spec fn all_squares() -> Set<int> {
    Set::new(|sq: int| is_square(sq))
}

/// The squares whose bits are one in `x`.
pub open spec fn squares_of(x: u64) -> Set<int> {
    Set::new(|sq: int| is_square(sq) && bit_at(x, sq as u64))
}

/// The squares of `x` below `n`.
pub open spec fn squares_below(x: u64, n: int) -> Set<int> {
    Set::new(|sq: int| 0 <= sq < n && sq < 64 && bit_at(x, sq as u64))
}

pub proof fn lemma_squares_of_or(a: u64, b: u64)
    ensures
        squares_of(a | b) == squares_of(a).union(squares_of(b)),
{
    assert forall|t: int| #[trigger] squares_of(a | b).contains(t) == squares_of(a).union(
        squares_of(b),
    ).contains(t) by {
        if is_square(t) {
            lemma_bit_or(a, b, t as u64);
        }
    }
    assert(squares_of(a | b) =~= squares_of(a).union(squares_of(b)));
}

pub proof fn lemma_squares_of_and(a: u64, b: u64)
    ensures
        squares_of(a & b) == squares_of(a).intersect(squares_of(b)),
{
    assert forall|t: int| #[trigger] squares_of(a & b).contains(t) == squares_of(a).intersect(
        squares_of(b),
    ).contains(t) by {
        if is_square(t) {
            lemma_bit_and(a, b, t as u64);
        }
    }
    assert(squares_of(a & b) =~= squares_of(a).intersect(squares_of(b)));
}

pub proof fn lemma_squares_of_xor(a: u64, b: u64)
    ensures
        squares_of(a ^ b) == squares_of(a).difference(squares_of(b)).union(
            squares_of(b).difference(squares_of(a)),
        ),
{
    let rhs = squares_of(a).difference(squares_of(b)).union(
        squares_of(b).difference(squares_of(a)),
    );
    assert forall|t: int| #[trigger] squares_of(a ^ b).contains(t) == rhs.contains(t) by {
        if is_square(t) {
            lemma_bit_xor(a, b, t as u64);
        }
    }
    assert(squares_of(a ^ b) =~= rhs);
}

pub proof fn lemma_squares_of_not(a: u64)
    ensures
        squares_of(!a) == all_squares().difference(squares_of(a)),
{
    assert forall|t: int| #[trigger] squares_of(!a).contains(t) == all_squares().difference(
        squares_of(a),
    ).contains(t) by {
        if is_square(t) {
            lemma_bit_not(a, t as u64);
        }
    }
    assert(squares_of(!a) =~= all_squares().difference(squares_of(a)));
}

/// The squares of `s` moved `n` squares up the numbering; those that pass h8 are gone.
pub open spec fn shifted_up(s: Set<int>, n: int) -> Set<int> {
    Set::new(|t: int| is_square(t) && s.contains(t - n))
}

/// The squares of `s` moved `n` squares down the numbering; those that pass a1 are gone.
pub open spec fn shifted_down(s: Set<int>, n: int) -> Set<int> {
    Set::new(|t: int| is_square(t) && s.contains(t + n))
}

pub proof fn lemma_squares_of_shl(a: u64, n: u64)
    requires
        n < 64,
    ensures
        squares_of(a << n) == shifted_up(squares_of(a), n as int),
{
    assert forall|t: int| #[trigger] squares_of(a << n).contains(t) == shifted_up(
        squares_of(a),
        n as int,
    ).contains(t) by {
        if is_square(t) {
            lemma_bit_shl(a, n, t as u64);
        }
    }
    assert(squares_of(a << n) =~= shifted_up(squares_of(a), n as int));
}

pub proof fn lemma_squares_of_shr(a: u64, n: u64)
    requires
        n < 64,
    ensures
        squares_of(a >> n) == shifted_down(squares_of(a), n as int),
{
    assert forall|t: int| #[trigger] squares_of(a >> n).contains(t) == shifted_down(
        squares_of(a),
        n as int,
    ).contains(t) by {
        if is_square(t) {
            lemma_bit_shr(a, n, t as u64);
        }
    }
    assert(squares_of(a >> n) =~= shifted_down(squares_of(a), n as int));
}

pub proof fn lemma_squares_of_one_shl(s: u64)
    requires
        s < 64,
    ensures
        squares_of(1u64 << s) == set![s as int],
{
    assert forall|t: int| #[trigger] squares_of(1u64 << s).contains(t) == set![s as int].contains(
        t,
    ) by {
        if is_square(t) {
            lemma_bit_one_shl(s, t as u64);
        }
    }
    assert(squares_of(1u64 << s) =~= set![s as int]);
}

pub proof fn lemma_squares_of_zero()
    ensures
        squares_of(0u64) == Set::<int>::empty(),
{
    assert forall|t: int| !#[trigger] squares_of(0u64).contains(t) by {
        lemma_bit_zero(t as u64);
    }
    assert(squares_of(0u64) =~= Set::<int>::empty());
}

/// Two words that stand for the same squares are the same word.
pub proof fn lemma_squares_of_injective(a: u64, b: u64)
    requires
        squares_of(a) == squares_of(b),
    ensures
        a == b,
{
    assert forall|i: u64| i < 64 implies #[trigger] bit_at(a, i) == bit_at(b, i) by {
        let t = i as int;
        assert(t as u64 == i);
        assert(squares_of(a).contains(t) == squares_of(b).contains(t));
        assert(squares_of(a).contains(t) == bit_at(a, i));
        assert(squares_of(b).contains(t) == bit_at(b, i));
    }
    lemma_bits_determine(a, b);
}

/// Adding the square `n` (or not) to the squares below `n`.
pub proof fn lemma_squares_below_step(x: u64, n: int)
    requires
        0 <= n < 64,
    ensures
        squares_below(x, n + 1) == if bit_at(x, n as u64) {
            squares_below(x, n).insert(n)
        } else {
            squares_below(x, n)
        },
{
    if bit_at(x, n as u64) {
        assert(squares_below(x, n + 1) =~= squares_below(x, n).insert(n));
    } else {
        assert(squares_below(x, n + 1) =~= squares_below(x, n));
    }
}

pub proof fn lemma_squares_below_finite(x: u64, n: int)
    requires
        0 <= n <= 64,
    ensures
        squares_below(x, n).finite(),
        squares_below(x, n).len() <= n,
    decreases n,
{
    if n == 0 {
        assert(squares_below(x, 0) =~= Set::<int>::empty());
    } else {
        lemma_squares_below_finite(x, n - 1);
        lemma_squares_below_step(x, n - 1);
    }
}

/// The set of squares of a word is finite, with at most 64 squares.
pub proof fn lemma_squares_of_finite(x: u64)
    ensures
        squares_of(x).finite(),
        squares_of(x).len() <= 64,
{
    lemma_squares_below_finite(x, 64);
    assert(squares_of(x) =~= squares_below(x, 64));
}

} // verus!
