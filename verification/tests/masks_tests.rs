use board::bitboard::Bitboard;
use board::masks::{
    anti_diagonal_mask, diagonal_mask, file_a, file_h, file_mask, rank_1, rank_8, rank_mask,
};

#[test]
// files & ranks
fn file_a_and_h_constants() {
    let mut file_a_squares = Bitboard::empty();
    for rank in 0..8 {
        file_a_squares.set(rank * 8);
    }
    assert_eq!(file_a_squares, file_a());
    let mut file_h_squares = Bitboard::empty();
    for rank in 0..8 {
        file_h_squares.set(rank * 8 + 7);
    }
    assert_eq!(file_h_squares, file_h());
}

#[test]
fn rank_1_and_8_constants() {
    let mut rank_1_squares = Bitboard::empty();
    for file in 0..8 {
        rank_1_squares.set(file);
    }
    assert_eq!(rank_1_squares, rank_1());
    let mut rank_8_squares = Bitboard::empty();
    let rank_8_start: u8 = 56;
    for file in 0..8 {
        rank_8_squares.set(rank_8_start + file);
    }
    assert_eq!(rank_8_squares, rank_8());
}

#[test]
fn file_mask_edges_match_constants() {
    assert_eq!(file_mask(0), file_a());
    assert_eq!(file_mask(7), file_h());
}

#[test]
fn rank_mask_edges_match_constants() {
    assert_eq!(rank_mask(0), rank_1());
    assert_eq!(rank_mask(7), rank_8());
}

#[test]
fn files_cover_board_without_overlap() {
    let mut all = Bitboard::empty();
    for f in 0..8 {
        all |= file_mask(f);
    }
    assert_eq!(all, !Bitboard::empty()); // all 64 bits set
    for i in 0..8 {
        for j in 0..8 {
            if i != j {
                assert!(
                    (file_mask(i) & file_mask(j)).is_empty(),
                    "files {i} and {j}"
                );
            }
        }
    }
}

#[test]
fn ranks_cover_board_without_overlap() {
    let mut all = Bitboard::empty();
    for r in 0..8 {
        all |= rank_mask(r);
    }
    assert_eq!(all, !Bitboard::empty()); // all 64 bits set
    for i in 0..8 {
        for j in 0..8 {
            if i != j {
                assert!(
                    (rank_mask(i) & rank_mask(j)).is_empty(),
                    "ranks {i} and {j}"
                );
            }
        }
    }
}

#[test]
fn file_and_rank_cross_at_one_square() {
    for r in 0..8 {
        for f in 0..8 {
            assert_eq!(
                file_mask(f) & rank_mask(r),
                Bitboard::from_square(r * 8 + f),
                "rank {r}, file {f}"
            );
        }
    }
}

// diagonal (/)
#[test]
fn diagonal_long_a1_h8() {
    let mut expected = Bitboard::empty();
    for i in 0..8 {
        expected.set(i * 9); // a1, b2, c3 ... h8
    }
    assert_eq!(diagonal_mask(0), expected);
}

#[test]
fn diagonal_short_corners() {
    assert_eq!(diagonal_mask(7), Bitboard::from_square(7)); // h1
    assert_eq!(diagonal_mask(56), Bitboard::from_square(56)); // a8
}

#[test]
fn diagonal_through_e4() {
    let mut expected = Bitboard::empty();
    for i in 0..7 {
        expected.set(1 + i * 9); // b1, c2, d3, e4, f5, g6, h7
    }
    assert_eq!(diagonal_mask(28), expected);
}

#[test]
fn diagonal_does_not_wrap_from_h_file() {
    let g1_h2 = Bitboard::from_square(6) | Bitboard::from_square(15);
    assert_eq!(diagonal_mask(15), g1_h2);
}

// anti-diagonal (\)
#[test]
fn anti_diagonal_long_h1_a8() {
    let mut expected = Bitboard::empty();
    for i in 1..=8 {
        expected.set(i * 7); // h1, g2, f3 ... a8
    }
    assert_eq!(anti_diagonal_mask(7), expected);
}

#[test]
fn anti_diagonal_short_corners() {
    assert_eq!(anti_diagonal_mask(0), Bitboard::from_square(0)); // a1
    assert_eq!(anti_diagonal_mask(63), Bitboard::from_square(63)); // h8
}

#[test]
fn anti_diagonal_does_not_wrap_from_a_file() {
    let a2_b1 = Bitboard::from_square(8) | Bitboard::from_square(1);
    assert_eq!(anti_diagonal_mask(8), a2_b1);
}

// both
#[test]
fn diagonals_cross_only_at_their_square() {
    for sq in 0..64 {
        assert_eq!(
            diagonal_mask(sq) & anti_diagonal_mask(sq),
            Bitboard::from_square(sq),
            "square {sq}"
        );
    }
}
