//! `Bitboard`: a set of squares held in one `u64`, bit `sq` for square `sq`.

use crate::bits::{
    bit_at, lemma_bit_mask_test, lemma_clear_set_bit_decreases, lemma_lowest_bit, lowest_bit,
};
use crate::squares::{
    all_squares, file_of, is_square, lemma_squares_below_finite, lemma_squares_below_step,
    lemma_squares_of_and, lemma_squares_of_finite, lemma_squares_of_injective,
    lemma_squares_of_not, lemma_squares_of_one_shl, lemma_squares_of_or, lemma_squares_of_shl,
    lemma_squares_of_shr, lemma_squares_of_xor, lemma_squares_of_zero, rank_of, shifted_down,
    shifted_up, squares_below, squares_of,
};
use vstd::prelude::*;
use vstd::string::StringExecFns;

verus! {

/// A set of squares: bit `sq` of `bits` is one exactly when square `sq` is in the set.
#[derive(Clone, Copy, PartialEq, Eq, Structural, Debug)]
pub struct Bitboard {
    pub bits: u64,
}

impl View for Bitboard {
    type V = Set<int>;

    /// The squares on the board.
    open spec fn view(&self) -> Set<int> {
        squares_of(self.bits)
    }
}

/// `s` is the lowest square of the set `b`.
pub open spec fn is_lowest_square(b: Set<int>, s: int) -> bool {
    b.contains(s) && forall|t: int| b.contains(t) ==> s <= t
}

/// The lowest square of the set of `x`, when `x` is not zero.
proof fn lemma_lowest_square(x: u64)
    requires
        x != 0,
    ensures
        lowest_bit(x) < 64,
        is_lowest_square(squares_of(x), lowest_bit(x) as int),
{
    lemma_lowest_bit(x);
    let s = lowest_bit(x);
    assert((s as int) as u64 == s);
    assert forall|t: int| squares_of(x).contains(t) implies s <= t by {
        if t < s {
            assert(!bit_at(x, t as u64));
        }
    }
}

/// The character that shows square `sq` of the set `b`: `X` when it is on, `.` when not.
pub open spec fn square_char(b: Set<int>, sq: int) -> char {
    if b.contains(sq) {
        'X'
    } else {
        '.'
    }
}

/// The line that shows `rank` of the set `b`, file a first, ended by a newline.
pub open spec fn rank_line(b: Set<int>, rank: int) -> Seq<char> {
    Seq::new(8, |file: int| square_char(b, rank * 8 + file)).push('\n')
}

/// The lines of the top `n` ranks of `b`, rank 8 first.
pub open spec fn top_rank_lines(b: Set<int>, n: nat) -> Seq<char>
    decreases n,
{
    if n == 0 {
        Seq::empty()
    } else {
        top_rank_lines(b, (n - 1) as nat) + rank_line(b, 8 - n)
    }
}

/// The board `b` as text: eight lines, rank 8 on top, file a on the left.
pub open spec fn board_text(b: Set<int>) -> Seq<char> {
    top_rank_lines(b, 8)
}

/// Character `p` of the text of `b`, computed from `p` alone: line `p / 9` shows rank
/// `7 - p / 9`, column `p % 9` is file `p % 9`, and column 8 ends the line.
pub open spec fn text_char_at(b: Set<int>, p: int) -> char {
    if p % 9 == 8 {
        '\n'
    } else if b.contains((7 - p / 9) * 8 + p % 9) {
        'X'
    } else {
        '.'
    }
}

/// The first `n` lines of the text are `9 * n` characters, and character `p` of them is
/// `text_char_at(b, p)`.
proof fn lemma_top_rank_lines(b: Set<int>, n: nat)
    requires
        n <= 8,
    ensures
        top_rank_lines(b, n).len() == 9 * n,
        forall|p: int|
            0 <= p < 9 * n ==> #[trigger] top_rank_lines(b, n)[p] == text_char_at(b, p),
    decreases n,
{
    if n > 0 {
        lemma_top_rank_lines(b, (n - 1) as nat);
        let prev = top_rank_lines(b, (n - 1) as nat);
        let line = rank_line(b, 8 - n);
        assert(top_rank_lines(b, n) == prev + line);
        assert forall|p: int| 0 <= p < 9 * n implies #[trigger] top_rank_lines(b, n)[p]
            == text_char_at(b, p) by {
            if p >= 9 * (n - 1) {
                let i = p - 9 * (n - 1);
                assert(p / 9 == n - 1 && p % 9 == i) by (nonlinear_arith)
                    requires
                        i == p - 9 * (n - 1),
                        0 <= i < 9,
                ;
                assert(top_rank_lines(b, n)[p] == line[i]);
            }
        }
    }
}

/// The printed board shows rank `r` on line `7 - r` (rank 8 on top): character `f` of that
/// line is `X` exactly when square `r * 8 + f` is on the board, and `.` otherwise; each line
/// is ended by a newline, and the text is 72 characters.
pub proof fn board_text_shows_rank_r_on_line_7_minus_r(b: Set<int>, r: int, f: int)
    requires
        0 <= r < 8,
        0 <= f < 8,
    ensures
        board_text(b).len() == 72,
        board_text(b)[9 * (7 - r) + f] == (if b.contains(r * 8 + f) {
            'X'
        } else {
            '.'
        }),
        board_text(b)[9 * (7 - r) + 8] == '\n',
{
    lemma_top_rank_lines(b, 8);
    let p = 9 * (7 - r) + f;
    assert(p / 9 == 7 - r && p % 9 == f) by (nonlinear_arith)
        requires
            p == 9 * (7 - r) + f,
            0 <= f < 8,
    ;
    let q = 9 * (7 - r) + 8;
    assert(q / 9 == 7 - r && q % 9 == 8) by (nonlinear_arith)
        requires
            q == 9 * (7 - r) + 8,
    ;
    assert(board_text(b)[p] == text_char_at(b, p));
    assert(board_text(b)[q] == text_char_at(b, q));
}

impl Bitboard {
    /// The board as text: eight lines of eight characters, rank 8 on top and file a on the
    /// left, `X` for a square on the board and `.` for one that is not.
    pub fn to_string(&self) -> (r: String)
        ensures
            r@ == board_text(self@),
            r@.len() == 72,
            forall|p: int| 0 <= p < 72 ==> #[trigger] r@[p] == text_char_at(self@, p),
    {
        proof {
            lemma_top_rank_lines(self@, 8);
        }
        let mut out = String::new();
        let mut rank: u8 = 8;
        while rank > 0
            invariant
                rank <= 8,
                out@ == top_rank_lines(self@, (8 - rank) as nat),
            decreases rank,
        {
            rank = rank - 1;
            let ghost start = out@;
            let mut file: u8 = 0;
            while file < 8
                invariant
                    rank < 8,
                    file <= 8,
                    out@ == start + Seq::new(
                        file as nat,
                        |f: int| square_char(self@, rank * 8 + f),
                    ),
                decreases 8 - file,
            {
                let ghost before = out@;
                proof {
                    reveal_strlit("X");
                    reveal_strlit(".");
                }
                if self.contains(rank * 8 + file) {
                    out.append("X");
                } else {
                    out.append(".");
                }
                proof {
                    assert(out@ =~= start + Seq::new(
                        (file + 1) as nat,
                        |f: int| square_char(self@, rank * 8 + f),
                    ));
                }
                file = file + 1;
            }
            out.append("\n");
            proof {
                reveal_strlit("\n");
                assert(rank_line(self@, rank as int) =~= Seq::new(
                    8,
                    |f: int| square_char(self@, rank * 8 + f),
                ).push('\n'));
                assert(out@ =~= top_rank_lines(self@, (8 - rank) as nat));
            }
        }
        out
    }

    /// The board with no square on it.
    pub fn empty() -> (r: Bitboard)
        ensures
            r.bits == 0,
            r@ == Set::<int>::empty(),
    {
        proof {
            lemma_squares_of_zero();
        }
        Bitboard { bits: 0 }
    }

    /// The board holding `sq` alone.
    pub fn from_square(sq: u8) -> (r: Bitboard)
        requires
            sq < 64,
        ensures
            r.bits == 1u64 << sq,
            r@ == set![sq as int],
    {
        proof {
            lemma_squares_of_one_shl(sq as u64);
        }
        Bitboard { bits: 1u64 << sq }
    }

    /// Whether `sq` is on the board.
    pub fn contains(self, sq: u8) -> (r: bool)
        requires
            sq < 64,
        ensures
            r == self@.contains(sq as int),
            r == bit_at(self.bits, sq as u64),
    {
        proof {
            lemma_bit_mask_test(self.bits, sq as u64);
        }
        self.bits & (1u64 << sq) != 0
    }

    /// Puts `sq` on the board.
    pub fn set(&mut self, sq: u8)
        requires
            sq < 64,
        ensures
            final(self).bits == old(self).bits | (1u64 << sq),
            final(self)@ == old(self)@.insert(sq as int),
    {
        proof {
            lemma_squares_of_one_shl(sq as u64);
            lemma_squares_of_or(self.bits, 1u64 << sq);
            assert(old(self)@.union(set![sq as int]) =~= old(self)@.insert(sq as int));
        }
        self.bits = self.bits | (1u64 << sq);
    }

    /// Takes `sq` off the board.
    pub fn clear(&mut self, sq: u8)
        requires
            sq < 64,
        ensures
            final(self).bits == old(self).bits & !(1u64 << sq),
            final(self)@ == old(self)@.remove(sq as int),
    {
        proof {
            lemma_squares_of_one_shl(sq as u64);
            lemma_squares_of_not(1u64 << sq);
            lemma_squares_of_and(self.bits, !(1u64 << sq));
            assert(old(self)@.intersect(all_squares().difference(set![sq as int])) =~= old(
                self,
            )@.remove(sq as int));
        }
        self.bits = self.bits & !(1u64 << sq);
    }

    /// How many squares are on the board.
    pub fn count(self) -> (r: u32)
        ensures
            r == self@.len(),
            r <= 64,
    {
        let mut c: u32 = 0;
        let mut i: u8 = 0;
        proof {
            lemma_squares_below_finite(self.bits, 0);
        }
        while i < 64
            invariant
                i <= 64,
                c <= i,
                squares_below(self.bits, i as int).finite(),
                c == squares_below(self.bits, i as int).len(),
            decreases 64 - i,
        {
            proof {
                lemma_squares_below_step(self.bits, i as int);
                lemma_bit_mask_test(self.bits, i as u64);
            }
            if self.bits & (1u64 << i) != 0 {
                c = c + 1;
            }
            i = i + 1;
        }
        proof {
            assert(squares_of(self.bits) =~= squares_below(self.bits, 64));
        }
        c
    }

    /// Whether no square is on the board.
    pub fn is_empty(self) -> (r: bool)
        ensures
            r == (self@ == Set::<int>::empty()),
            r == (self.bits == 0),
    {
        proof {
            lemma_squares_of_zero();
            if self.bits != 0 {
                lemma_lowest_square(self.bits);
                assert(self@.contains(lowest_bit(self.bits) as int));
            }
        }
        self == Bitboard::empty()
    }

    /// The lowest square on the board, or 64 when the board is empty.
    pub fn lsb(self) -> (r: u8)
        ensures
            self.bits == 0 ==> r == 64,
            self.bits != 0 ==> is_lowest_square(self@, r as int),
            self.bits != 0 ==> self@.contains(r as int) && forall|t: int|
                0 <= t < r ==> !#[trigger] self@.contains(t),
            r <= 64,
    {
        proof {
            vstd::std_specs::bits::axiom_u64_trailing_zeros(self.bits);
            if self.bits != 0 {
                lemma_lowest_square(self.bits);
            }
        }
        self.bits.trailing_zeros() as u8
    }

    /// Takes the lowest square off the board and returns it.
    pub fn pop_lsb(&mut self) -> (r: u8)
        requires
            old(self).bits != 0,
        ensures
            r < 64,
            is_lowest_square(old(self)@, r as int),
            old(self)@.contains(r as int),
            forall|t: int| 0 <= t < r ==> !#[trigger] old(self)@.contains(t),
            final(self)@ == old(self)@.remove(r as int),
            final(self).bits == old(self).bits & !(1u64 << r),
            final(self).bits < old(self).bits,
    {
        let tmp = self.lsb();
        proof {
            lemma_bit_mask_test(self.bits, tmp as u64);
            assert((tmp as int) as u64 == tmp as u64);
            assert(bit_at(self.bits, tmp as u64));
            lemma_clear_set_bit_decreases(self.bits, tmp as u64);
        }
        self.clear(tmp);
        tmp
    }

    /// The next square of an iteration from low to high: takes the lowest square off the
    /// board and returns it, or returns `None` when the board is empty.
    pub fn next(&mut self) -> (r: Option<u8>)
        ensures
            old(self).bits == 0 ==> r is None && *final(self) == *old(self),
            old(self).bits != 0 ==> (r matches Some(s) && s < 64 && is_lowest_square(
                old(self)@,
                s as int,
            ) && final(self)@ == old(self)@.remove(s as int) && final(self).bits == old(
                self,
            ).bits & !(1u64 << s)),
    {
        if self.is_empty() {
            None
        } else {
            Some(self.pop_lsb())
        }
    }

    /// The squares on the board, from low to high.
    pub fn squares(self) -> (v: Vec<u8>)
        ensures
            v.len() == self@.len(),
            forall|i: int, j: int| 0 <= i < j < v.len() ==> v[i] < v[j],
            forall|i: int| 0 <= i < v.len() ==> self@.contains(#[trigger] v[i] as int),
            forall|t: int| self@.contains(t) ==> exists|i: int| 0 <= i < v.len() && v[i] == t,
    {
        let mut rest = self;
        let mut v: Vec<u8> = Vec::new();
        proof {
            lemma_squares_of_finite(self.bits);
        }
        while !rest.is_empty()
            invariant
                rest@.finite(),
                rest@.subset_of(self@),
                v.len() + rest@.len() == self@.len(),
                forall|i: int, j: int| 0 <= i < j < v.len() ==> v[i] < v[j],
                forall|i: int|
                    0 <= i < v.len() ==> self@.contains(#[trigger] v[i] as int) && !rest@.contains(
                        v[i] as int,
                    ),
                forall|i: int, t: int| 0 <= i < v.len() && rest@.contains(t) ==> v[i] < t,
                forall|t: int|
                    self@.contains(t) ==> rest@.contains(t) || exists|i: int|
                        0 <= i < v.len() && v[i] == t,
            decreases rest.bits,
        {
            let ghost before = rest@;
            let ghost vb = v@;
            let sq = rest.pop_lsb();
            v.push(sq);
            proof {
                assert forall|t: int| self@.contains(t) implies rest@.contains(t) || exists|i: int|
                    0 <= i < v.len() && v[i] == t by {
                    if t == sq as int {
                        assert(v[vb.len() as int] == t);
                    } else if !before.contains(t) {
                        let i = choose|i: int| 0 <= i < vb.len() && vb[i] == t;
                        assert(v[i] == t);
                    }
                }
            }
        }
        v
    }
}

impl std::ops::BitAnd for Bitboard {
    type Output = Self;

    /// The squares on both boards.
    fn bitand(self, rhs: Self) -> (r: Self::Output)
        ensures
            r.bits == self.bits & rhs.bits,
            r@ == self@.intersect(rhs@),
    {
        proof {
            lemma_squares_of_and(self.bits, rhs.bits);
        }
        Bitboard { bits: self.bits & rhs.bits }
    }
}

impl vstd::std_specs::ops::BitAndSpecImpl for Bitboard {
    open spec fn obeys_bitand_spec() -> bool {
        true
    }

    open spec fn bitand_req(self, rhs: Bitboard) -> bool {
        true
    }

    open spec fn bitand_spec(self, rhs: Bitboard) -> Bitboard {
        Bitboard { bits: self.bits & rhs.bits }
    }
}

impl std::ops::BitOr for Bitboard {
    type Output = Self;

    /// The squares on either board.
    fn bitor(self, rhs: Self) -> (r: Self::Output)
        ensures
            r.bits == self.bits | rhs.bits,
            r@ == self@.union(rhs@),
    {
        proof {
            lemma_squares_of_or(self.bits, rhs.bits);
        }
        Bitboard { bits: self.bits | rhs.bits }
    }
}

impl vstd::std_specs::ops::BitOrSpecImpl for Bitboard {
    open spec fn obeys_bitor_spec() -> bool {
        true
    }

    open spec fn bitor_req(self, rhs: Bitboard) -> bool {
        true
    }

    open spec fn bitor_spec(self, rhs: Bitboard) -> Bitboard {
        Bitboard { bits: self.bits | rhs.bits }
    }
}

impl std::ops::Not for Bitboard {
    type Output = Self;

    /// The squares not on the board.
    fn not(self) -> (r: Self::Output)
        ensures
            r.bits == !self.bits,
            r@ == all_squares().difference(self@),
    {
        proof {
            lemma_squares_of_not(self.bits);
        }
        Bitboard { bits: !self.bits }
    }
}

impl vstd::std_specs::ops::NotSpecImpl for Bitboard {
    open spec fn obeys_not_spec() -> bool {
        true
    }

    open spec fn not_req(self) -> bool {
        true
    }

    open spec fn not_spec(self) -> Bitboard {
        Bitboard { bits: !self.bits }
    }
}

impl std::ops::BitXor for Bitboard {
    type Output = Self;

    /// The squares on exactly one of the boards.
    fn bitxor(self, rhs: Self) -> (r: Self::Output)
        ensures
            r.bits == self.bits ^ rhs.bits,
            r@ == self@.difference(rhs@).union(rhs@.difference(self@)),
    {
        proof {
            lemma_squares_of_xor(self.bits, rhs.bits);
        }
        Bitboard { bits: self.bits ^ rhs.bits }
    }
}

impl vstd::std_specs::ops::BitXorSpecImpl for Bitboard {
    open spec fn obeys_bitxor_spec() -> bool {
        true
    }

    open spec fn bitxor_req(self, rhs: Bitboard) -> bool {
        true
    }

    open spec fn bitxor_spec(self, rhs: Bitboard) -> Bitboard {
        Bitboard { bits: self.bits ^ rhs.bits }
    }
}

impl std::ops::BitAndAssign for Bitboard {
    /// Keeps only the squares that are on `rhs` too.
    fn bitand_assign(&mut self, rhs: Self)
        ensures
            final(self).bits == old(self).bits & rhs.bits,
            final(self)@ == old(self)@.intersect(rhs@),
    {
        *self = *self & rhs;
    }
}

impl std::ops::BitOrAssign for Bitboard {
    /// Adds the squares of `rhs`.
    fn bitor_assign(&mut self, rhs: Self)
        ensures
            final(self).bits == old(self).bits | rhs.bits,
            final(self)@ == old(self)@.union(rhs@),
    {
        *self = *self | rhs;
    }
}

impl std::ops::BitXorAssign for Bitboard {
    /// Toggles the squares of `rhs`.
    fn bitxor_assign(&mut self, rhs: Self)
        ensures
            final(self).bits == old(self).bits ^ rhs.bits,
            final(self)@ == old(self)@.difference(rhs@).union(rhs@.difference(old(self)@)),
    {
        *self = *self ^ rhs;
    }
}

impl std::ops::Shl<u8> for Bitboard {
    type Output = Self;

    /// Moves every square `rhs` squares up the numbering; squares pushed past h8 are
    /// dropped. Files are not respected: h1 moved up by one lands on a2.
    fn shl(self, rhs: u8) -> (r: Self::Output)
        ensures
            r.bits == self.bits << rhs,
            r@ == shifted_up(self@, rhs as int),
    {
        proof {
            lemma_squares_of_shl(self.bits, rhs as u64);
        }
        Bitboard { bits: self.bits << rhs }
    }
}

impl vstd::std_specs::ops::ShlSpecImpl<u8> for Bitboard {
    open spec fn obeys_shl_spec() -> bool {
        true
    }

    open spec fn shl_req(self, rhs: u8) -> bool {
        rhs < 64
    }

    open spec fn shl_spec(self, rhs: u8) -> Bitboard {
        Bitboard { bits: self.bits << rhs }
    }
}

impl std::ops::Shr<u8> for Bitboard {
    type Output = Self;

    /// Moves every square `rhs` squares down the numbering; squares pushed past a1 are
    /// dropped.
    fn shr(self, rhs: u8) -> (r: Self::Output)
        ensures
            r.bits == self.bits >> rhs,
            r@ == shifted_down(self@, rhs as int),
    {
        proof {
            lemma_squares_of_shr(self.bits, rhs as u64);
        }
        Bitboard { bits: self.bits >> rhs }
    }
}

impl vstd::std_specs::ops::ShrSpecImpl<u8> for Bitboard {
    open spec fn obeys_shr_spec() -> bool {
        true
    }

    open spec fn shr_req(self, rhs: u8) -> bool {
        rhs < 64
    }

    open spec fn shr_spec(self, rhs: u8) -> Bitboard {
        Bitboard { bits: self.bits >> rhs }
    }
}

} // verus!

verus! {

/// The lowest square of a set is in it, and no square below it is.
pub proof fn lowest_square_has_nothing_below(b: Set<int>, s: int, t: int)
    requires
        is_lowest_square(b, s),
        t < s,
    ensures
        b.contains(s),
        !b.contains(t),
{
}

/// Setting a square twice leaves the same board as setting it once.
pub proof fn set_twice_is_same_as_once(b: Bitboard, sq: u8)
    requires
        sq < 64,
    ensures
        (b.bits | (1u64 << sq)) | (1u64 << sq) == b.bits | (1u64 << sq),
        b@.insert(sq as int).insert(sq as int) == b@.insert(sq as int),
{
    let x = b.bits;
    let s = sq as u64;
    assert((x | (1u64 << s)) | (1u64 << s) == x | (1u64 << s)) by (bit_vector);
    assert(b@.insert(sq as int).insert(sq as int) =~= b@.insert(sq as int));
}

/// Clearing a square that is not on the board changes nothing.
pub proof fn clear_absent_square_changes_nothing(b: Bitboard, sq: u8)
    requires
        sq < 64,
        !b@.contains(sq as int),
    ensures
        b.bits & !(1u64 << sq) == b.bits,
{
    let x = b.bits;
    let s = sq as u64;
    assert((s as int) as u64 == s);
    assert(!bit_at(x, s));
    assert(!bit_at(x, s) ==> x & !(1u64 << s) == x) by (bit_vector)
        requires
            s < 64,
    ;
}

/// The empty board is the identity of `|` and the zero of `&`.
pub proof fn empty_is_identity_for_or_and_zero_for_and(b: Bitboard)
    ensures
        b.bits | 0u64 == b.bits,
        b.bits & 0u64 == 0u64,
        b@.union(Set::<int>::empty()) == b@,
        b@.intersect(Set::<int>::empty()) == Set::<int>::empty(),
{
    let x = b.bits;
    assert(x | 0u64 == x && x & 0u64 == 0u64) by (bit_vector);
    assert(b@.union(Set::<int>::empty()) =~= b@);
    assert(b@.intersect(Set::<int>::empty()) =~= Set::<int>::empty());
}

/// `a & !b` keeps the squares of `a` that are not on `b`.
pub proof fn and_not_removes_squares(a: Bitboard, b: Bitboard)
    ensures
        squares_of(a.bits & !b.bits) == a@.difference(b@),
{
    lemma_squares_of_not(b.bits);
    lemma_squares_of_and(a.bits, !b.bits);
    assert(a@.intersect(all_squares().difference(b@)) =~= a@.difference(b@));
}

/// Toggling the same squares twice restores the board: what make/unmake of a move relies on.
pub proof fn xor_twice_restores_original(a: Bitboard, m: Bitboard)
    ensures
        (a.bits ^ m.bits) ^ m.bits == a.bits,
{
    let x = a.bits;
    let y = m.bits;
    assert((x ^ y) ^ y == x) by (bit_vector);
}

/// A board toggled with itself is empty.
pub proof fn xor_self_is_empty(a: Bitboard)
    ensures
        a.bits ^ a.bits == 0u64,
{
    let x = a.bits;
    assert(x ^ x == 0u64) by (bit_vector);
}

/// Flipping all 64 bits twice restores the board.
pub proof fn not_twice_restores_original(a: Bitboard)
    ensures
        !!a.bits == a.bits,
{
    let x = a.bits;
    assert(!!x == x) by (bit_vector);
}

/// Shifting by zero changes nothing.
pub proof fn shift_by_zero_changes_nothing(a: Bitboard)
    ensures
        a.bits << 0u8 == a.bits,
        a.bits >> 0u8 == a.bits,
{
    let x = a.bits;
    assert(x << 0u8 == x && x >> 0u8 == x) by (bit_vector);
}

/// Shifting by 8 moves every square up one rank onto the same file; the top rank is dropped.
pub proof fn shift_left_8_moves_up_one_rank(a: Bitboard, t: int)
    ensures
        shifted_up(a@, 8).contains(t) == (is_square(t) && rank_of(t) >= 1 && a@.contains(t - 8)
            && file_of(t - 8) == file_of(t) && rank_of(t - 8) == rank_of(t) - 1),
{
}

/// Shifting down by 8 moves every square down one rank onto the same file; the bottom rank
/// is dropped.
pub proof fn shift_right_8_moves_down_one_rank(a: Bitboard, t: int)
    ensures
        shifted_down(a@, 8).contains(t) == (is_square(t) && rank_of(t) <= 6 && a@.contains(t + 8)
            && file_of(t + 8) == file_of(t) && rank_of(t + 8) == rank_of(t) + 1),
{
}

/// A board is determined by its squares: two boards with the same squares are equal.
pub proof fn boards_with_same_squares_are_equal(a: Bitboard, b: Bitboard)
    requires
        a@ == b@,
    ensures
        a == b,
{
    lemma_squares_of_injective(a.bits, b.bits);
}

} // verus!
