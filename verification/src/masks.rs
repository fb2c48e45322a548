//! Masks: bitboards for groups of squares (files, ranks, diagonals).

use crate::bitboard::Bitboard;
use crate::bits::{
    lemma_file_a_bits, lemma_file_h_bits, lemma_main_anti_diagonal_bits,
    lemma_main_diagonal_bits, lemma_rank_1_bits, lemma_rank_8_bits,
};
use crate::squares::{file_of, is_square, rank_of, shifted_down, shifted_up, squares_of};
use vstd::prelude::*;

verus! {

/// The a-file word: a1 … a8.
pub const FILE_A_BITS: u64 = 0x0101_0101_0101_0101u64;

/// The h-file word: h1 … h8.
pub const FILE_H_BITS: u64 = 0x8080_8080_8080_8080u64;

/// The long a1 → h8 diagonal word.
pub const MAIN_DIAGONAL_BITS: u64 = 0x8040_2010_0804_0201u64;

/// The long h1 → a8 anti-diagonal word.
pub const MAIN_ANTI_DIAGONAL_BITS: u64 = 0x0102_0408_1020_4080u64;

/// The rank-1 word: a1 … h1.
pub const RANK_1_BITS: u64 = 0x0000_0000_0000_00FFu64;

/// The rank-8 word: a8 … h8.
pub const RANK_8_BITS: u64 = 0xFF00_0000_0000_0000u64;

/// The eight squares of `file`.
pub open spec fn file_squares(file: int) -> Set<int> {
    Set::new(|t: int| is_square(t) && file_of(t) == file)
}

/// The eight squares of `rank`.
pub open spec fn rank_squares(rank: int) -> Set<int> {
    Set::new(|t: int| is_square(t) && rank_of(t) == rank)
}

/// The squares whose rank minus file is `d`: a `/` diagonal.
pub open spec fn diagonal_line(d: int) -> Set<int> {
    Set::new(|t: int| is_square(t) && rank_of(t) - file_of(t) == d)
}

/// The squares whose rank plus file is `s`: a `\` anti-diagonal.
pub open spec fn anti_diagonal_line(s: int) -> Set<int> {
    Set::new(|t: int| is_square(t) && rank_of(t) + file_of(t) == s)
}

/// The `/` diagonal (a1 → h8 direction) through `sq`: the squares whose rank minus file
/// is that of `sq`.
pub open spec fn diagonal_squares(sq: int) -> Set<int> {
    diagonal_line(rank_of(sq) - file_of(sq))
}

/// The `\` anti-diagonal (h1 → a8 direction) through `sq`: the squares whose rank plus file
/// is that of `sq`.
pub open spec fn anti_diagonal_squares(sq: int) -> Set<int> {
    anti_diagonal_line(rank_of(sq) + file_of(sq))
}

/// Moving a diagonal up by `k` whole ranks gives the diagonal `k` further up.
proof fn lemma_diagonal_up(k: int)
    requires
        0 <= k <= 7,
    ensures
        shifted_up(diagonal_line(0), 8 * k) == diagonal_line(k),
{
    assert(shifted_up(diagonal_line(0), 8 * k) =~= diagonal_line(k));
}

/// Moving a diagonal down by `k` whole ranks gives the diagonal `k` further down.
proof fn lemma_diagonal_down(k: int)
    requires
        0 <= k <= 7,
    ensures
        shifted_down(diagonal_line(0), 8 * k) == diagonal_line(-k),
{
    assert(shifted_down(diagonal_line(0), 8 * k) =~= diagonal_line(-k));
}

/// Moving the long anti-diagonal up by `k` whole ranks.
proof fn lemma_anti_diagonal_up(k: int)
    requires
        0 <= k <= 7,
    ensures
        shifted_up(anti_diagonal_line(7), 8 * k) == anti_diagonal_line(7 + k),
{
    assert(shifted_up(anti_diagonal_line(7), 8 * k) =~= anti_diagonal_line(7 + k));
}

/// Moving the long anti-diagonal down by `k` whole ranks.
proof fn lemma_anti_diagonal_down(k: int)
    requires
        0 <= k <= 7,
    ensures
        shifted_down(anti_diagonal_line(7), 8 * k) == anti_diagonal_line(7 - k),
{
    assert(shifted_down(anti_diagonal_line(7), 8 * k) =~= anti_diagonal_line(7 - k));
}

proof fn lemma_file_a_squares()
    ensures
        squares_of(FILE_A_BITS) == file_squares(0),
{
    assert forall|t: int|
        #[trigger] squares_of(FILE_A_BITS).contains(t) == file_squares(0).contains(t) by {
        if is_square(t) {
            lemma_file_a_bits(t as u64);
        }
    }
    assert(squares_of(FILE_A_BITS) =~= file_squares(0));
}

proof fn lemma_file_h_squares()
    ensures
        squares_of(FILE_H_BITS) == file_squares(7),
{
    assert forall|t: int|
        #[trigger] squares_of(FILE_H_BITS).contains(t) == file_squares(7).contains(t) by {
        if is_square(t) {
            lemma_file_h_bits(t as u64);
        }
    }
    assert(squares_of(FILE_H_BITS) =~= file_squares(7));
}

proof fn lemma_rank_1_squares()
    ensures
        squares_of(RANK_1_BITS) == rank_squares(0),
{
    assert forall|t: int|
        #[trigger] squares_of(RANK_1_BITS).contains(t) == rank_squares(0).contains(t) by {
        if is_square(t) {
            lemma_rank_1_bits(t as u64);
        }
    }
    assert(squares_of(RANK_1_BITS) =~= rank_squares(0));
}

proof fn lemma_rank_8_squares()
    ensures
        squares_of(RANK_8_BITS) == rank_squares(7),
{
    assert forall|t: int|
        #[trigger] squares_of(RANK_8_BITS).contains(t) == rank_squares(7).contains(t) by {
        if is_square(t) {
            lemma_rank_8_bits(t as u64);
        }
    }
    assert(squares_of(RANK_8_BITS) =~= rank_squares(7));
}

proof fn lemma_main_diagonal_squares()
    ensures
        squares_of(MAIN_DIAGONAL_BITS) == diagonal_line(0),
{
    assert forall|t: int|
        #[trigger] squares_of(MAIN_DIAGONAL_BITS).contains(t) == diagonal_line(0).contains(t) by {
        if is_square(t) {
            lemma_main_diagonal_bits(t as u64);
        }
    }
    assert(squares_of(MAIN_DIAGONAL_BITS) =~= diagonal_line(0));
}

proof fn lemma_main_anti_diagonal_squares()
    ensures
        squares_of(MAIN_ANTI_DIAGONAL_BITS) == anti_diagonal_line(7),
{
    assert forall|t: int|
        #[trigger] squares_of(MAIN_ANTI_DIAGONAL_BITS).contains(t) == anti_diagonal_line(7).contains(t) by {
        if is_square(t) {
            lemma_main_anti_diagonal_bits(t as u64);
        }
    }
    assert(squares_of(MAIN_ANTI_DIAGONAL_BITS) =~= anti_diagonal_line(7));
}

/// The a-file: a1 … a8.
pub fn file_a() -> (r: Bitboard)
    ensures
        r.bits == FILE_A_BITS,
        r@ == file_squares(0),
{
    proof {
        lemma_file_a_squares();
    }
    Bitboard { bits: FILE_A_BITS }
}

/// The h-file: h1 … h8.
pub fn file_h() -> (r: Bitboard)
    ensures
        r.bits == FILE_H_BITS,
        r@ == file_squares(7),
{
    proof {
        lemma_file_h_squares();
    }
    Bitboard { bits: FILE_H_BITS }
}

/// The long a1 → h8 diagonal. Every other `/` diagonal is this one shifted up or down.
pub fn main_diagonal() -> (r: Bitboard)
    ensures
        r.bits == MAIN_DIAGONAL_BITS,
        r@ == diagonal_line(0),
{
    proof {
        lemma_main_diagonal_squares();
    }
    Bitboard { bits: MAIN_DIAGONAL_BITS }
}

/// The long h1 → a8 anti-diagonal. Every other `\` diagonal is this one shifted up or down.
pub fn main_anti_diagonal() -> (r: Bitboard)
    ensures
        r.bits == MAIN_ANTI_DIAGONAL_BITS,
        r@ == anti_diagonal_line(7),
{
    proof {
        lemma_main_anti_diagonal_squares();
    }
    Bitboard { bits: MAIN_ANTI_DIAGONAL_BITS }
}

/// Rank 1: a1 … h1.
pub fn rank_1() -> (r: Bitboard)
    ensures
        r.bits == RANK_1_BITS,
        r@ == rank_squares(0),
{
    proof {
        lemma_rank_1_squares();
    }
    Bitboard { bits: RANK_1_BITS }
}

/// Rank 8: a8 … h8.
pub fn rank_8() -> (r: Bitboard)
    ensures
        r.bits == RANK_8_BITS,
        r@ == rank_squares(7),
{
    proof {
        lemma_rank_8_squares();
    }
    Bitboard { bits: RANK_8_BITS }
}

/// All 8 squares of `file` (0 = a … 7 = h). Above 7 it is the a-file shifted past the
/// board's edge.
pub fn file_mask(file: u8) -> (r: Bitboard)
    requires
        file < 64,
    ensures
        r.bits == FILE_A_BITS << file,
        file < 8 ==> r@ == file_squares(file as int),
        file < 8 ==> forall|t: int| #[trigger] r@.contains(t) == (0 <= t < 64 && t % 8 == file),
{
    let r = file_a() << file;
    proof {
        if file < 8 {
            assert(r@ =~= file_squares(file as int));
        }
    }
    r
}

/// All 8 squares of `rank` (0 = rank 1 … 7 = rank 8).
pub fn rank_mask(rank: u8) -> (r: Bitboard)
    requires
        rank < 8,
    ensures
        r.bits == RANK_1_BITS << (rank * 8),
        r@ == rank_squares(rank as int),
        forall|t: int| #[trigger] r@.contains(t) == (0 <= t < 64 && t / 8 == rank),
{
    let r = rank_1() << (rank * 8);
    proof {
        assert(r@ =~= rank_squares(rank as int));
    }
    r
}

/// The `/` diagonal (a1 → h8 direction) through `sq`, including `sq` itself.
/// Shifts the main diagonal by whole ranks, so it never wraps across the board edge.
/// Beyond the board, `sq` is read as `rank * 8 + file` all the same, as long as the shift
/// stays under 64 bits.
pub fn diagonal_mask(sq: u8) -> (r: Bitboard)
    requires
        rank_of(sq as int) - file_of(sq as int) <= 7,
    ensures
        r@ == diagonal_squares(sq as int),
        forall|t: int|
            #[trigger] r@.contains(t) == (is_square(t) && rank_of(t) - file_of(t) == rank_of(
                sq as int,
            ) - file_of(sq as int)),
{
    let rank: u8 = sq / 8;
    let file: u8 = sq % 8;
    if rank >= file {
        let r = main_diagonal() << (rank - file) * 8;  // move up rank - file ranks
        proof {
            lemma_diagonal_up((rank - file) as int);
        }
        r
    } else {
        let r = main_diagonal() >> (file - rank) * 8;  // move down file - rank ranks
        proof {
            lemma_diagonal_down((file - rank) as int);
        }
        r
    }
}

/// The `\` anti-diagonal (h1 → a8 direction) through `sq`, including `sq` itself.
/// Shifts the main anti-diagonal by whole ranks, so it never wraps across the board edge.
/// Beyond the board, `sq` is read as `rank * 8 + file` all the same, as long as the shift
/// stays under 64 bits.
pub fn anti_diagonal_mask(sq: u8) -> (r: Bitboard)
    requires
        rank_of(sq as int) + file_of(sq as int) <= 14,
    ensures
        r@ == anti_diagonal_squares(sq as int),
        forall|t: int|
            #[trigger] r@.contains(t) == (is_square(t) && rank_of(t) + file_of(t) == rank_of(
                sq as int,
            ) + file_of(sq as int)),
{
    let sum: u8 = sq / 8 + sq % 8;  // rank + file
    if sum >= 7 {
        let r = main_anti_diagonal() << (sum - 7) * 8;  // move up sum - 7 ranks
        proof {
            lemma_anti_diagonal_up((sum - 7) as int);
        }
        r
    } else {
        let r = main_anti_diagonal() >> (7 - sum) * 8;  // move down 7 - sum ranks
        proof {
            lemma_anti_diagonal_down((7 - sum) as int);
        }
        r
    }
}

} // verus!

verus! {

/// The diagonal mask of `sq` holds exactly the board squares whose rank minus file equals
/// that of `sq`.
pub proof fn diagonal_is_the_rank_minus_file_line(sq: int, t: int)
    ensures
        diagonal_squares(sq).contains(t) == (is_square(t) && rank_of(t) - file_of(t) == rank_of(sq)
            - file_of(sq)),
{
}

/// The anti-diagonal mask of `sq` holds exactly the board squares whose rank plus file equals
/// that of `sq`.
pub proof fn anti_diagonal_is_the_rank_plus_file_line(sq: int, t: int)
    ensures
        anti_diagonal_squares(sq).contains(t) == (is_square(t) && rank_of(t) + file_of(t)
            == rank_of(sq) + file_of(sq)),
{
}

/// The file mask of `file` holds exactly the board squares on that file.
pub proof fn file_mask_is_the_file(file: int, t: int)
    ensures
        file_squares(file).contains(t) == (0 <= t < 64 && t % 8 == file),
{
}

/// The rank mask of `rank` holds exactly the board squares on that rank.
pub proof fn rank_mask_is_the_rank(rank: int, t: int)
    ensures
        rank_squares(rank).contains(t) == (0 <= t < 64 && t / 8 == rank),
{
}

/// Two different files share no square.
pub proof fn files_do_not_overlap(f1: int, f2: int)
    requires
        f1 != f2,
    ensures
        file_squares(f1).intersect(file_squares(f2)) == Set::<int>::empty(),
{
    assert(file_squares(f1).intersect(file_squares(f2)) =~= Set::<int>::empty());
}

/// The eight files together cover the board: every square is on the file `0..8` it names.
pub proof fn files_cover_board(sq: int)
    requires
        is_square(sq),
    ensures
        0 <= file_of(sq) < 8,
        file_squares(file_of(sq)).contains(sq),
{
}

/// Two different ranks share no square.
pub proof fn ranks_do_not_overlap(r1: int, r2: int)
    requires
        r1 != r2,
    ensures
        rank_squares(r1).intersect(rank_squares(r2)) == Set::<int>::empty(),
{
    assert(rank_squares(r1).intersect(rank_squares(r2)) =~= Set::<int>::empty());
}

/// The eight ranks together cover the board: every square is on the rank `0..8` it names.
pub proof fn ranks_cover_board(sq: int)
    requires
        is_square(sq),
    ensures
        0 <= rank_of(sq) < 8,
        rank_squares(rank_of(sq)).contains(sq),
{
}

/// A file and a rank cross at exactly one square: `rank * 8 + file`.
pub proof fn file_and_rank_cross_at_one_square(file: int, rank: int)
    requires
        0 <= file < 8,
        0 <= rank < 8,
    ensures
        file_squares(file).intersect(rank_squares(rank)) == set![rank * 8 + file],
{
    assert(file_squares(file).intersect(rank_squares(rank)) =~= set![rank * 8 + file]);
}

/// The diagonal and the anti-diagonal through a square cross only at that square.
pub proof fn diagonals_cross_only_at_their_square(sq: int)
    requires
        is_square(sq),
    ensures
        diagonal_squares(sq).intersect(anti_diagonal_squares(sq)) == set![sq],
{
    assert(diagonal_squares(sq).intersect(anti_diagonal_squares(sq)) =~= set![sq]);
}

} // verus!
