# board

Bitboards for a chess engine, verified with Verus.

A `Bitboard` is a set of squares held in one `u64` (bit `sq` for square `sq`, a1 = 0 … h8 = 63).
Its view is the set of squares it holds, and every operation is specified on that set.

- `src/bits.rs`: single-bit facts about `u64`, proved with the bit-vector solver.
- `src/squares.rs`: squares, files, ranks, and the set of squares of a word.
- `src/bitboard.rs`: the `Bitboard` type, its methods, operators and text form.
- `src/color.rs`: the two sides.
- `src/masks.rs`: file, rank and diagonal masks.
- `src/attacks.rs`: knight, king and pawn attacks, pawn pushes, and their laws.

Attack sets are specified geometrically (a knight moves one file and two ranks, or two files
and one rank), and the shift-and-mask code that computes them is proved to match.
