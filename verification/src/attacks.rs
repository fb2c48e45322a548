//! Attack sets for the pieces whose attacks depend only on their square (and colour, for
//! pawns): knight, king, pawn. Pawn pushes can be blocked, so they take the `occupied`
//! squares instead.

use crate::bitboard::Bitboard;
use crate::color::{forward_of, Color};
use crate::masks::{file_mask, file_squares, rank_mask};
use crate::squares::{file_of, is_square, rank_of, shifted_down, shifted_up};
use std::ops::Not;
use vstd::prelude::*;

verus! {

/// How many files sideways a knight can move.
pub const KNIGHT_REACH: u8 = 2;

/// How many files sideways a king can move.
pub const KING_REACH: u8 = 1;

pub open spec fn abs(x: int) -> int {
    if x < 0 {
        -x
    } else {
        x
    }
}

/// A knight on `from` attacks `to`: one file and two ranks away, or two files and one rank.
pub open spec fn knight_step(from: int, to: int) -> bool {
    &&& is_square(from)
    &&& is_square(to)
    &&& {
        let df = abs(file_of(to) - file_of(from));
        let dr = abs(rank_of(to) - rank_of(from));
        (df == 1 && dr == 2) || (df == 2 && dr == 1)
    }
}

/// A king on `from` attacks `to`: at most one file and one rank away, and not `from` itself.
pub open spec fn king_step(from: int, to: int) -> bool {
    &&& is_square(from)
    &&& is_square(to)
    &&& abs(file_of(to) - file_of(from)) <= 1
    &&& abs(rank_of(to) - rank_of(from)) <= 1
    &&& to != from
}

/// A pawn of `color` on `from` captures on `to`: one file sideways and one rank forward.
pub open spec fn pawn_capture(color: Color, from: int, to: int) -> bool {
    &&& is_square(from)
    &&& is_square(to)
    &&& abs(file_of(to) - file_of(from)) == 1
    &&& rank_of(to) == rank_of(from) + forward_of(color)
}

/// Every square a knight on `from` attacks.
pub open spec fn knight_targets(from: int) -> Set<int> {
    Set::new(|to: int| knight_step(from, to))
}

/// Every square a king on `from` attacks.
pub open spec fn king_targets(from: int) -> Set<int> {
    Set::new(|to: int| king_step(from, to))
}

/// The squares a pawn of `color` on `from` captures on.
pub open spec fn pawn_targets(color: Color, from: int) -> Set<int> {
    Set::new(|to: int| pawn_capture(color, from, to))
}

/// The squares `jumps[k]` above or below `sq` on the board, for `k < n`.
pub open spec fn jump_squares(sq: int, jumps: Seq<u8>, n: int) -> Set<int> {
    Set::new(
        |t: int|
            is_square(t) && exists|k: int|
                0 <= k < n && (t == sq + #[trigger] jumps[k] || t == sq - jumps[k]),
    )
}

/// The squares whose file is less than `reach` away from `file`.
pub open spec fn near_files(file: int, reach: int) -> Set<int> {
    Set::new(|t: int| is_square(t) && abs(file_of(t) - file) < reach)
}

/// Adding the jump `jumps[n]` both ways to the squares of the first `n` jumps.
proof fn lemma_jump_step(
    sq: int,
    jumps: Seq<u8>,
    n: int,
    before: Set<int>,
    down: Set<int>,
    up: Set<int>,
)
    requires
        0 <= n < jumps.len(),
        before == jump_squares(sq, jumps, n),
        down == shifted_down(set![sq], jumps[n] as int),
        up == shifted_up(set![sq], jumps[n] as int),
    ensures
        before.union(down).union(up) == jump_squares(sq, jumps, n + 1),
{
    let after = jump_squares(sq, jumps, n + 1);
    assert forall|t: int|
        #[trigger] before.union(down).union(up).contains(t) == after.contains(t) by {
        if before.contains(t) {
            let k = choose|k: int|
                0 <= k < n && (t == sq + #[trigger] jumps[k] || t == sq - jumps[k]);
            assert(0 <= k < n + 1 && (t == sq + jumps[k] || t == sq - jumps[k]));
        }
        if down.contains(t) || up.contains(t) {
            assert(t == sq + jumps[n] || t == sq - jumps[n]);
        }
        if after.contains(t) {
            let k = choose|k: int|
                0 <= k < n + 1 && (t == sq + #[trigger] jumps[k] || t == sq - jumps[k]);
            if k < n {
                assert(before.contains(t));
            }
        }
    }
    assert(before.union(down).union(up) =~= after);
}

/// Widening the files around `file` by one more file on each side.
proof fn lemma_near_files_step(
    file: int,
    reach: int,
    before: Set<int>,
    right: Set<int>,
    left: Set<int>,
)
    requires
        0 <= file < 8,
        0 <= reach,
        before == near_files(file, reach),
        right == (if file + reach <= 7 { file_squares(file + reach) } else { Set::<int>::empty() }),
        left == (if file >= reach { file_squares(file - reach) } else { Set::<int>::empty() }),
    ensures
        before.union(right).union(left) == near_files(file, reach + 1),
{
    assert(before.union(right).union(left) =~= near_files(file, reach + 1));
}

/// Builds the squares of `sq` shifted up and down by each of `jumps`.
fn jump_board(sq: u8, jumps: &[u8; 4]) -> (bb: Bitboard)
    requires
        sq < 64,
        forall|k: int| 0 <= k < 4 ==> jumps[k] < 64,
    ensures
        bb@ == jump_squares(sq as int, jumps@, 4),
{
    let mut bb = Bitboard::empty();
    let mut i: usize = 0;
    proof {
        assert(bb@ =~= jump_squares(sq as int, jumps@, 0));
    }
    while i < 4
        invariant
            i <= 4,
            sq < 64,
            forall|k: int| 0 <= k < 4 ==> jumps[k] < 64,
            bb@ == jump_squares(sq as int, jumps@, i as int),
        decreases 4 - i,
    {
        let jmp = jumps[i];
        let ghost before = bb@;
        let mut tmp_down = Bitboard::empty();
        tmp_down.set(sq);
        let down = tmp_down >> jmp;
        bb = bb | down;
        let mut tmp_up = Bitboard::empty();
        tmp_up.set(sq);
        let up = tmp_up << jmp;
        bb = bb | up;
        proof {
            assert(tmp_down@ =~= set![sq as int]);
            assert(tmp_up@ =~= set![sq as int]);
            lemma_jump_step(sq as int, jumps@, i as int, before, down@, up@);
        }
        i = i + 1;
    }
    bb
}

/// The squares on files at most `reach` away from `file`.
fn near_files_board(file: u8, reach: u8) -> (mask: Bitboard)
    requires
        file < 8,
        reach < 8,
    ensures
        mask@ == near_files(file as int, reach as int + 1),
{
    let mut mask = Bitboard::empty();
    let mut r: u8 = 0;
    proof {
        assert(mask@ =~= near_files(file as int, 0));
    }
    while r <= reach
        invariant
            file < 8,
            reach < 8,
            r <= reach + 1,
            mask@ == near_files(file as int, r as int),
        decreases reach + 1 - r,
    {
        let ghost before = mask@;
        let ghost right = if file + r <= 7 { file_squares(file + r) } else { Set::<int>::empty() };
        let ghost left = if file >= r { file_squares(file - r) } else { Set::<int>::empty() };
        if file + r <= 7 {
            mask = mask | file_mask(file + r);
        }
        let ghost mid = mask@;
        if file >= r {
            mask = mask | file_mask(file - r);
        }
        proof {
            assert(mid == before.union(right));
            assert(mask@ == mid.union(left));
            lemma_near_files_step(file as int, r as int, before, right, left);
        }
        r = r + 1;
    }
    mask
}

/// The squares a knight jump lands on, after dropping those that wrapped around the
/// board's edge, are the knight's targets.
proof fn lemma_knight_targets(sq: int, jumps: Seq<u8>)
    requires
        is_square(sq),
        jumps == seq![17u8, 15u8, 10u8, 6u8],
    ensures
        jump_squares(sq, jumps, 4).intersect(near_files(file_of(sq), 3)) == knight_targets(sq),
{
    let lhs = jump_squares(sq, jumps, 4).intersect(near_files(file_of(sq), 3));
    assert forall|t: int| #[trigger] lhs.contains(t) == knight_targets(sq).contains(t) by {
        if is_square(t) {
            let d = t - sq;
            let near = abs(file_of(t) - file_of(sq)) < 3;
            let jumped = d == 17 || d == -17 || d == 15 || d == -15 || d == 10 || d == -10 || d
                == 6 || d == -6;
            assert(jump_squares(sq, jumps, 4).contains(t) == jumped) by {
                if jumped {
                    if d == 17 || d == -17 {
                        assert(jumps[0] == 17);
                    } else if d == 15 || d == -15 {
                        assert(jumps[1] == 15);
                    } else if d == 10 || d == -10 {
                        assert(jumps[2] == 10);
                    } else {
                        assert(jumps[3] == 6);
                    }
                }
            }
            assert((jumped && near) == knight_step(sq, t));
        }
    }
    assert(lhs =~= knight_targets(sq));
}

/// Computes every square a knight on `sq` attacks.
/// Shifts the knight by all 8 jumps, then keeps only files within `KNIGHT_REACH` of the knight:
/// a jump that wrapped around the board edge lands 6-7 files away.
pub fn build_knight_attacks(sq: u8) -> (r: Bitboard)
    requires
        sq < 64,
    ensures
        r@ == knight_targets(sq as int),
{
    let jumps: [u8; 4] = [17, 15, 10, 6];
    proof {
        assert(jumps@ =~= seq![17u8, 15u8, 10u8, 6u8]);
    }
    let bb = jump_board(sq, &jumps);
    let mask = near_files_board(sq % 8, KNIGHT_REACH);
    let r = bb & mask;
    proof {
        lemma_knight_targets(sq as int, jumps@);
    }
    r
}

/// The squares a king step lands on, after dropping those that wrapped around the
/// board's edge, are the king's targets.
proof fn lemma_king_targets(sq: int, jumps: Seq<u8>)
    requires
        is_square(sq),
        jumps == seq![1u8, 7u8, 8u8, 9u8],
    ensures
        jump_squares(sq, jumps, 4).intersect(near_files(file_of(sq), 2)) == king_targets(sq),
{
    let lhs = jump_squares(sq, jumps, 4).intersect(near_files(file_of(sq), 2));
    assert forall|t: int| #[trigger] lhs.contains(t) == king_targets(sq).contains(t) by {
        if is_square(t) {
            let d = t - sq;
            let near = abs(file_of(t) - file_of(sq)) < 2;
            let jumped = d == 1 || d == -1 || d == 7 || d == -7 || d == 8 || d == -8 || d == 9
                || d == -9;
            assert(jump_squares(sq, jumps, 4).contains(t) == jumped) by {
                if jumped {
                    if d == 1 || d == -1 {
                        assert(jumps[0] == 1);
                    } else if d == 7 || d == -7 {
                        assert(jumps[1] == 7);
                    } else if d == 8 || d == -8 {
                        assert(jumps[2] == 8);
                    } else {
                        assert(jumps[3] == 9);
                    }
                }
            }
            assert((jumped && near) == king_step(sq, t));
        }
    }
    assert(lhs =~= king_targets(sq));
}

/// Computes every square a king on `sq` attacks.
/// Shifts the king one step in all 8 directions, then keeps only its own file and the
/// files within `KING_REACH`: a step that wrapped around the board edge lands 7 files away.
pub fn build_king_attacks(sq: u8) -> (r: Bitboard)
    requires
        sq < 64,
    ensures
        r@ == king_targets(sq as int),
{
    let jumps: [u8; 4] = [1, 7, 8, 9];
    proof {
        assert(jumps@ =~= seq![1u8, 7u8, 8u8, 9u8]);
    }
    let bb = jump_board(sq, &jumps);
    let file = sq % 8;
    let mut mask = file_mask(file);  // own file, for the straight up/down steps
    let ghost own = mask@;
    let ghost right = if file + KING_REACH <= 7 {
        file_squares(file + KING_REACH)
    } else {
        Set::<int>::empty()
    };
    let ghost left = if file >= KING_REACH {
        file_squares(file - KING_REACH)
    } else {
        Set::<int>::empty()
    };
    if file + KING_REACH <= 7 {
        mask = mask | file_mask(file + KING_REACH);
    }
    let ghost mid = mask@;
    if file >= KING_REACH {
        mask = mask | file_mask(file - KING_REACH);
    }
    let r = bb & mask;
    proof {
        assert(own =~= near_files(file as int, 1));
        assert(mid == own.union(right));
        lemma_near_files_step(file as int, 1, own, right, left);
        lemma_king_targets(sq as int, jumps@);
    }
    r
}

/// Computes the two diagonal squares a pawn of `color` on `sq` captures on (one on the edge
/// files). Filled for every square, even ones a pawn can't stand on, because the set is also
/// read backwards: "which pawn squares attack my king?".
pub fn build_pawn_attacks(color: Color, sq: u8) -> (r: Bitboard)
    requires
        sq < 64,
    ensures
        r@ == pawn_targets(color, sq as int),
{
    let mut bb = Bitboard::empty();
    let file = sq % 8;
    let rank = sq / 8;
    let ghost s = sq as int;
    // nothing to attack beyond the last rank (white: rank 8, black: rank 1)
    if rank == 7 && color == Color::White || rank == 0 && color == Color::Black {
        let r = Bitboard::empty();
        assert(r@ =~= pawn_targets(color, s));
        return r;
    }
    if file == 0 && color == Color::White {
        bb.set(sq + 9);
        assert(bb@ =~= pawn_targets(color, s));
        return bb;
    }
    if file == 7 && color == Color::White {
        bb.set(sq + 7);
        assert(bb@ =~= pawn_targets(color, s));
        return bb;
    }
    if file == 0 && color == Color::Black {
        bb.set(sq - 7);
        assert(bb@ =~= pawn_targets(color, s));
        return bb;
    }
    if file == 7 && color == Color::Black {
        bb.set(sq - 9);
        assert(bb@ =~= pawn_targets(color, s));
        return bb;
    }
    let forward = color.forward();
    bb.set((sq as i8 + 7 * forward) as u8);
    bb.set((sq as i8 + 9 * forward) as u8);
    assert(bb@ =~= pawn_targets(color, s));
    bb
}

/// Every square a knight on `sq` attacks (empty board).
pub fn knight_attacks(sq: u8) -> (r: Bitboard)
    requires
        sq < 64,
    ensures
        r@ == knight_targets(sq as int),
        forall|t: int|
            #[trigger] r@.contains(t) == (0 <= t < 64 && (t - sq == 6 || t - sq == -6 || t - sq
                == 10 || t - sq == -10 || t - sq == 15 || t - sq == -15 || t - sq == 17 || t - sq
                == -17) && -2 <= t % 8 - sq % 8 <= 2),
{
    let r = build_knight_attacks(sq);
    proof {
        assert forall|t: int|
            #[trigger] r@.contains(t) == (0 <= t < 64 && (t - sq == 6 || t - sq == -6 || t - sq
                == 10 || t - sq == -10 || t - sq == 15 || t - sq == -15 || t - sq == 17 || t - sq
                == -17) && -2 <= t % 8 - sq % 8 <= 2) by {
            knight_attacks_are_the_jumps_that_stay_near(sq as int, t);
        }
    }
    r
}

/// Every square a king on `sq` attacks (empty board).
pub fn king_attacks(sq: u8) -> (r: Bitboard)
    requires
        sq < 64,
    ensures
        r@ == king_targets(sq as int),
        forall|t: int|
            #[trigger] r@.contains(t) == (0 <= t < 64 && (t - sq == 1 || t - sq == -1 || t - sq
                == 7 || t - sq == -7 || t - sq == 8 || t - sq == -8 || t - sq == 9 || t - sq
                == -9) && -1 <= t % 8 - sq % 8 <= 1),
{
    let r = build_king_attacks(sq);
    proof {
        assert forall|t: int|
            #[trigger] r@.contains(t) == (0 <= t < 64 && (t - sq == 1 || t - sq == -1 || t - sq
                == 7 || t - sq == -7 || t - sq == 8 || t - sq == -8 || t - sq == 9 || t - sq
                == -9) && -1 <= t % 8 - sq % 8 <= 1) by {
            king_attacks_are_the_steps_that_stay_near(sq as int, t);
        }
    }
    r
}

/// The squares a pawn of `color` on `sq` captures on.
/// Read backwards, `pawn_attacks(us, king_sq) & their_pawns` finds enemy pawns giving check.
pub fn pawn_attacks(color: Color, sq: u8) -> (r: Bitboard)
    requires
        sq < 64,
    ensures
        r@ == pawn_targets(color, sq as int),
        color == Color::White ==> forall|t: int|
            #[trigger] r@.contains(t) == (sq < 56 && ((t == sq + 7 && sq % 8 != 0) || (t == sq
                + 9 && sq % 8 != 7))),
        color == Color::Black ==> forall|t: int|
            #[trigger] r@.contains(t) == (sq >= 8 && ((t == sq - 9 && sq % 8 != 0) || (t == sq
                - 7 && sq % 8 != 7))),
{
    let r = if color == Color::White {
        build_pawn_attacks(Color::White, sq)
    } else {
        build_pawn_attacks(Color::Black, sq)
    };
    proof {
        if color == Color::White {
            assert forall|t: int|
                #[trigger] r@.contains(t) == (sq < 56 && ((t == sq + 7 && sq % 8 != 0) || (t
                    == sq + 9 && sq % 8 != 7))) by {
                pawn_attacks_are_the_forward_diagonals(sq as int, t);
            }
        } else {
            assert forall|t: int|
                #[trigger] r@.contains(t) == (sq >= 8 && ((t == sq - 9 && sq % 8 != 0) || (t
                    == sq - 7 && sq % 8 != 7))) by {
                pawn_attacks_are_the_forward_diagonals(sq as int, t);
            }
        }
    }
    r
}

/// The squares a pawn of `color` on `t` would have come from by a single push: one rank back.
pub open spec fn push_origin(color: Color, t: int) -> int {
    t - 8 * forward_of(color)
}

/// The squares the `pawns` of `color` can push one rank forward onto, with `occupied` in
/// the way.
pub open spec fn single_push_targets(
    color: Color,
    pawns: Set<int>,
    occupied: Set<int>,
) -> Set<int> {
    Set::new(
        |t: int| is_square(t) && pawns.contains(push_origin(color, t)) && !occupied.contains(t),
    )
}

/// The rank a pawn of `color` starts on: rank 2 for White, rank 7 for Black.
pub open spec fn start_rank(color: Color) -> int {
    match color {
        Color::White => 1,
        Color::Black => 6,
    }
}

/// The squares the `pawns` of `color` can reach two ranks forward from their starting rank,
/// with the square in between and the target both empty.
pub open spec fn double_push_targets(
    color: Color,
    pawns: Set<int>,
    occupied: Set<int>,
) -> Set<int> {
    Set::new(
        |t: int|
            {
                let mid = push_origin(color, t);
                let from = push_origin(color, mid);
                &&& is_square(t)
                &&& !occupied.contains(t)
                &&& !occupied.contains(mid)
                &&& pawns.contains(from)
                &&& rank_of(from) == start_rank(color)
            },
    )
}

/// Single pushes: every square the `pawns` of `color` can move one rank forward onto.
/// `occupied` = squares with any piece on them (either colour). All pawns are pushed at once;
/// no table, because the answer depends on what blocks them.
pub fn pawn_pushes(color: Color, pawns: Bitboard, occupied: Bitboard) -> (r: Bitboard)
    ensures
        r@ == single_push_targets(color, pawns@, occupied@),
        forall|t: int|
            #[trigger] r@.contains(t) == (0 <= t < 64 && !occupied@.contains(t) && if color
                == Color::White {
                pawns@.contains(t - 8)
            } else {
                pawns@.contains(t + 8)
            }),
        color == Color::White ==> r.bits == (pawns.bits << 8u64) & !occupied.bits,
        color == Color::Black ==> r.bits == (pawns.bits >> 8u64) & !occupied.bits,
{
    let empty_squares = occupied.not();
    let r = match color {
        Color::White => (pawns << 8) & empty_squares,
        Color::Black => (pawns >> 8) & empty_squares,
    };
    assert(r@ =~= single_push_targets(color, pawns@, occupied@));
    r
}

/// Double pushes: every square the `pawns` of `color` can reach by moving two ranks
/// forward from their starting rank. Both the square in between and the target must be empty.
pub fn pawn_double_pushes(color: Color, pawns: Bitboard, occupied: Bitboard) -> (r: Bitboard)
    ensures
        r@ == double_push_targets(color, pawns@, occupied@),
        forall|t: int|
            #[trigger] r@.contains(t) == (0 <= t < 64 && !occupied@.contains(t) && if color
                == Color::White {
                t / 8 == 3 && !occupied@.contains(t - 8) && pawns@.contains(t - 16)
            } else {
                t / 8 == 4 && !occupied@.contains(t + 8) && pawns@.contains(t + 16)
            }),
{
    let single = pawn_pushes(color, pawns, occupied);
    // only pawns that just left their starting rank landed here
    let third_rank = match color {
        Color::White => rank_mask(2),
        Color::Black => rank_mask(5),
    };
    let r = pawn_pushes(color, single & third_rank, occupied);
    assert(r@ =~= double_push_targets(color, pawns@, occupied@));
    r
}

} // verus!

verus! {

/// A knight on `sq` attacks exactly the board squares 6, 10, 15 or 17 above or below it that
/// are at most two files away from it (farther ones wrapped around the board's edge).
pub proof fn knight_attacks_are_the_jumps_that_stay_near(sq: int, t: int)
    ensures
        knight_targets(sq).contains(t) == (0 <= sq < 64 && 0 <= t < 64 && (t - sq == 6 || t
            - sq == -6 || t - sq == 10 || t - sq == -10 || t - sq == 15 || t - sq == -15 || t
            - sq == 17 || t - sq == -17) && -2 <= t % 8 - sq % 8 <= 2),
{
}

/// A king on `sq` attacks exactly the board squares 1, 7, 8 or 9 above or below it that are
/// at most one file away from it.
pub proof fn king_attacks_are_the_steps_that_stay_near(sq: int, t: int)
    ensures
        king_targets(sq).contains(t) == (0 <= sq < 64 && 0 <= t < 64 && (t - sq == 1 || t - sq
            == -1 || t - sq == 7 || t - sq == -7 || t - sq == 8 || t - sq == -8 || t - sq == 9
            || t - sq == -9) && -1 <= t % 8 - sq % 8 <= 1),
{
}

/// A white pawn below rank 8 captures 7 squares up (unless on the a-file) and 9 squares up
/// (unless on the h-file); a black pawn above rank 1 captures 9 squares down (unless on the
/// a-file) and 7 squares down (unless on the h-file).
pub proof fn pawn_attacks_are_the_forward_diagonals(sq: int, t: int)
    ensures
        pawn_targets(Color::White, sq).contains(t) == (0 <= sq < 56 && ((t == sq + 7 && sq % 8
            != 0) || (t == sq + 9 && sq % 8 != 7))),
        pawn_targets(Color::Black, sq).contains(t) == (8 <= sq < 64 && ((t == sq - 9 && sq % 8
            != 0) || (t == sq - 7 && sq % 8 != 7))),
{
}

/// A knight on `from` attacks `to` exactly when a knight on `to` attacks `from`.
pub proof fn knight_attacks_are_symmetric(from: int, to: int)
    ensures
        knight_targets(from).contains(to) == knight_targets(to).contains(from),
{
}

/// A king on `from` attacks `to` exactly when a king on `to` attacks `from`.
pub proof fn king_attacks_are_symmetric(from: int, to: int)
    ensures
        king_targets(from).contains(to) == king_targets(to).contains(from),
{
}

/// A king never attacks its own square.
pub proof fn king_never_attacks_own_square(sq: int)
    ensures
        !king_targets(sq).contains(sq),
{
}

/// A white pawn on `from` attacks `to` exactly when a black pawn on `to` attacks `from`.
pub proof fn pawn_attacks_are_symmetric_between_colors(from: int, to: int)
    ensures
        pawn_targets(Color::White, from).contains(to) == pawn_targets(Color::Black, to).contains(
            from,
        ),
{
}

/// A pawn on its side's last rank attacks nothing: white on rank 8, black on rank 1.
pub proof fn pawn_attacks_off_the_last_rank_are_empty(sq: int)
    ensures
        rank_of(sq) == 7 ==> pawn_targets(Color::White, sq) == Set::<int>::empty(),
        rank_of(sq) == 0 ==> pawn_targets(Color::Black, sq) == Set::<int>::empty(),
{
    if rank_of(sq) == 7 {
        assert(pawn_targets(Color::White, sq) =~= Set::<int>::empty());
    }
    if rank_of(sq) == 0 {
        assert(pawn_targets(Color::Black, sq) =~= Set::<int>::empty());
    }
}

/// A single push moves a pawn one rank forward onto an empty square: up (plus 8) for White,
/// down (minus 8) for Black.
pub proof fn single_push_is_one_rank_forward(
    color: Color,
    pawns: Set<int>,
    occupied: Set<int>,
    t: int,
)
    ensures
        single_push_targets(color, pawns, occupied).contains(t) == (0 <= t < 64
            && !occupied.contains(t) && if color == Color::White {
            pawns.contains(t - 8)
        } else {
            pawns.contains(t + 8)
        }),
{
}

/// A double push only starts from the starting rank, so it only lands on rank 4 for White
/// and rank 5 for Black, two ranks ahead of a pawn, over an empty square, onto an empty square.
pub proof fn double_push_is_two_ranks_from_the_start(
    color: Color,
    pawns: Set<int>,
    occupied: Set<int>,
    t: int,
)
    ensures
        double_push_targets(color, pawns, occupied).contains(t) == (0 <= t < 64
            && !occupied.contains(t) && if color == Color::White {
            t / 8 == 3 && !occupied.contains(t - 8) && pawns.contains(t - 16)
        } else {
            t / 8 == 4 && !occupied.contains(t + 8) && pawns.contains(t + 16)
        }),
{
}

/// A double push passes over a square that a single push reaches: a pawn blocked one
/// rank ahead cannot push two.
pub proof fn double_push_passes_a_single_push(
    color: Color,
    pawns: Set<int>,
    occupied: Set<int>,
    t: int,
)
    ensures
        double_push_targets(color, pawns, occupied).contains(t) ==> single_push_targets(
            color,
            pawns,
            occupied,
        ).contains(push_origin(color, t)),
{
}

/// A pawn push never lands on an occupied square.
pub proof fn pushes_land_on_empty_squares(color: Color, pawns: Set<int>, occupied: Set<int>)
    ensures
        single_push_targets(color, pawns, occupied).disjoint(occupied),
        double_push_targets(color, pawns, occupied).disjoint(occupied),
{
}

} // verus!
