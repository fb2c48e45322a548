use board::attacks::{knight_attacks, pawn_attacks, pawn_double_pushes, pawn_pushes};
use board::bitboard::Bitboard;
use board::color::Color;
use board::masks::{anti_diagonal_mask, diagonal_mask, file_mask, rank_mask};

#[test]
fn next_yields_squares_then_none() {
    let mut bb = Bitboard { bits: 0b1010 };
    assert_eq!(bb.next(), Some(1));
    assert_eq!(bb.next(), Some(3));
    assert_eq!(bb.next(), None);
    assert_eq!(bb, Bitboard::empty());
    assert_eq!(bb.next(), None);
}

#[test]
fn squares_of_full_board_are_all_in_order() {
    let all = (!Bitboard::empty()).squares();
    assert_eq!(all.len(), 64);
    for (i, sq) in all.iter().enumerate() {
        assert_eq!(*sq as usize, i);
    }
}

#[test]
fn lsb_of_empty_board_is_64() {
    assert_eq!(Bitboard::empty().lsb(), 64);
}

#[test]
fn count_of_one_square_is_one() {
    assert_eq!(Bitboard::from_square(42).count(), 1);
    assert_eq!(Bitboard { bits: 0x8000_0000_0000_0001 }.count(), 2);
}

#[test]
fn not_twice_restores_original() {
    let a = Bitboard { bits: 0x0123_4567_89AB_CDEF };
    assert_eq!(!!a, a);
}

#[test]
fn boards_with_same_squares_are_equal() {
    let mut a = Bitboard::empty();
    a.set(3);
    a.set(40);
    assert_eq!(a, Bitboard { bits: (1u64 << 3) | (1u64 << 40) });
}

#[test]
fn forward_is_plus_one_for_white_minus_one_for_black() {
    assert_eq!(Color::White.forward(), 1);
    assert_eq!(Color::Black.forward(), -1);
}

#[test]
fn empty_board_prints_eight_dotted_lines() {
    let text = Bitboard::empty().to_string();
    assert_eq!(text, "........\n".repeat(8));
}

#[test]
fn full_board_prints_eight_crossed_lines() {
    let text = (!Bitboard::empty()).to_string();
    assert_eq!(text, "XXXXXXXX\n".repeat(8));
}

#[test]
fn file_mask_past_h_shifts_the_a_file() {
    assert_eq!(file_mask(8).bits, 0x0101_0101_0101_0101u64 << 8);
}

#[test]
fn rank_mask_of_middle_rank() {
    assert_eq!(rank_mask(3).bits, 0x0000_0000_FF00_0000);
}

#[test]
fn diagonal_mask_reads_an_off_board_square_by_rank_and_file() {
    // 71 is "rank 8, file 7": rank - file = 1, the diagonal of a2
    assert_eq!(diagonal_mask(71), diagonal_mask(8));
    // 72 is "rank 9, file 0": rank + file = 9, the anti-diagonal of h3
    assert_eq!(anti_diagonal_mask(72), anti_diagonal_mask(23));
}

#[test]
fn diagonal_mask_contains_its_square() {
    for sq in 0..64 {
        assert!(diagonal_mask(sq).contains(sq));
        assert!(anti_diagonal_mask(sq).contains(sq));
    }
}

#[test]
fn knight_in_corner_region_counts() {
    assert_eq!(knight_attacks(9).count(), 4); // b2
    assert_eq!(knight_attacks(18).count(), 8); // c3
}

#[test]
fn white_pawn_on_last_rank_attacks_nothing() {
    assert!(pawn_attacks(Color::White, 60).is_empty());
    assert_eq!(pawn_attacks(Color::Black, 60), Bitboard { bits: (1u64 << 51) | (1u64 << 53) });
}

#[test]
fn black_double_push_blocked_in_between() {
    let pawns = Bitboard::from_square(52); // e7
    let occupied = pawns | Bitboard::from_square(44); // piece on e6
    assert!(pawn_pushes(Color::Black, pawns, occupied).is_empty());
    assert!(pawn_double_pushes(Color::Black, pawns, occupied).is_empty());
}

#[test]
fn black_pawns_off_the_start_rank_do_not_double_push() {
    let pawns = Bitboard::from_square(44); // e6
    assert_eq!(pawn_pushes(Color::Black, pawns, pawns), Bitboard::from_square(36));
    assert!(pawn_double_pushes(Color::Black, pawns, pawns).is_empty());
}

#[test]
fn pushes_never_land_on_occupied_squares() {
    let pawns = rank_mask(1);
    let occupied = pawns | Bitboard::from_square(18) | Bitboard::from_square(29);
    let single = pawn_pushes(Color::White, pawns, occupied);
    let double = pawn_double_pushes(Color::White, pawns, occupied);
    assert!((single & occupied).is_empty());
    assert!((double & occupied).is_empty());
    // every double push passes over a single push
    for t in double.squares() {
        assert!(single.contains(t - 8));
    }
    assert_eq!(double.count(), 6);
}

#[test]
fn pawns_pushed_off_the_board_are_gone() {
    let pawns = rank_mask(7);
    assert!(pawn_pushes(Color::White, pawns, Bitboard::empty()).is_empty());
    let pawns = rank_mask(0);
    assert!(pawn_pushes(Color::Black, pawns, Bitboard::empty()).is_empty());
}

#[test]
fn color_as_index_is_zero_for_white_one_for_black() {
    assert_eq!(Color::White as usize, 0);
    assert_eq!(Color::Black as usize, 1);
}
