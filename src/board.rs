//! The board: two 9-bit occupancy sets, one per mark, addressed by
//! (column, row) with linear index `row * 3 + column`.

use vstd::prelude::*;

verus! {

/// One of the two marks; `X` always moves first.
#[derive(Debug, PartialEq, Eq, Structural, Clone, Copy)]
pub enum Player {
    X,
    O,
}

impl Player {
    /// The other mark.
    pub open spec fn spec_opponent(self) -> Player {
        match self {
            Player::X => Player::O,
            Player::O => Player::X,
        }
    }

    /// The other mark.
    pub fn opponent(self) -> (r: Player)
        ensures
            r == self.spec_opponent(),
    {
        match self {
            Player::X => Player::O,
            Player::O => Player::X,
        }
    }

    /// The symbol the mark is drawn with.
    pub fn symbol(&self) -> (r: char)
        ensures
            r == (if *self == Player::X { 'X' } else { 'O' }),
    {
        match self {
            Player::X => 'X',
            Player::O => 'O',
        }
    }
}

/// How a board stands: a mark has three in a row, the board is full, or
/// the game goes on.
#[derive(Debug, PartialEq, Eq, Structural, Clone, Copy)]
pub enum GameFinaleState {
    Win(Player),
    Draw,
    StillGoing,
}

/// Why a mark could not be placed.
#[derive(Debug, PartialEq, Eq, Structural, Clone, Copy)]
pub enum PlaceError {
    /// A coordinate lies outside `0..=2`.
    OutOfBounds,
    /// The cell already holds a mark.
    CellOccupied,
}

/// Bit `i` of `v`.
pub open spec fn has_bit(v: u16, i: u16) -> bool {
    (v >> i) & 1u16 == 1u16
}

/// The mark at index `i` of the two occupancy sets (`X` read first).
pub open spec fn mark_of_bits(x_data: u16, o_data: u16, i: int) -> Option<Player> {
    if has_bit(x_data, i as u16) {
        Some(Player::X)
    } else if has_bit(o_data, i as u16) {
        Some(Player::O)
    } else {
        None
    }
}

/// True for a coordinate inside the board.
pub open spec fn in_bounds(x: int, y: int) -> bool {
    0 <= x <= 2 && 0 <= y <= 2
}

/// The linear index of cell (x, y).
pub open spec fn cell_index(x: int, y: int) -> int {
    y * 3 + x
}

/// The three cell indices of winning line `k`: rows first, then columns,
/// then the diagonal from (0,0) and the one from (0,2).
pub open spec fn line(k: int) -> (int, int, int) {
    if k < 3 {
        (3 * k, 3 * k + 1, 3 * k + 2)
    } else if k < 6 {
        (k - 3, k, k + 3)
    } else if k == 6 {
        (0, 4, 8)
    } else {
        (6, 4, 2)
    }
}

/// The mark that holds all three cells `a`, `b`, `c`, if one does.
pub open spec fn three_owner(s: Seq<Option<Player>>, a: int, b: int, c: int) -> Option<Player> {
    if s[a] is Some && s[a] == s[b] && s[b] == s[c] {
        s[a]
    } else {
        None
    }
}

/// The mark that holds all of line `k`, if one does.
pub open spec fn line_owner(s: Seq<Option<Player>>, k: int) -> Option<Player> {
    three_owner(s, line(k).0, line(k).1, line(k).2)
}

/// The owner of the first completed line among lines `k..8`.
pub open spec fn first_winner_from(s: Seq<Option<Player>>, k: int) -> Option<Player>
    decreases 8 - k,
{
    if k >= 8 {
        None
    } else if line_owner(s, k) is Some {
        line_owner(s, k)
    } else {
        first_winner_from(s, k + 1)
    }
}

/// True when all nine cells hold a mark.
pub open spec fn is_full(s: Seq<Option<Player>>) -> bool {
    forall|i: int| 0 <= i < 9 ==> #[trigger] s[i] is Some
}

/// How the cells stand: the first completed line wins, else a full board
/// is a draw, else the game goes on.
pub open spec fn outcome(s: Seq<Option<Player>>) -> GameFinaleState {
    match first_winner_from(s, 0) {
        Some(p) => GameFinaleState::Win(p),
        None => if is_full(s) {
            GameFinaleState::Draw
        } else {
            GameFinaleState::StillGoing
        },
    }
}

/// How many of the first `n` cells hold `p`.
pub open spec fn count_upto(s: Seq<Option<Player>>, p: Player, n: int) -> nat
    decreases n,
{
    if n <= 0 {
        0
    } else {
        count_upto(s, p, n - 1) + if s[n - 1] == Some(p) {
            1nat
        } else {
            0nat
        }
    }
}

/// How many cells hold `p`.
pub open spec fn count(s: Seq<Option<Player>>, p: Player) -> nat {
    count_upto(s, p, 9)
}

/// Whose turn it is, from the counts: `O` when `X` has placed more,
/// `X` otherwise.
pub open spec fn active_turn(s: Seq<Option<Player>>) -> Player {
    if count(s, Player::X) > count(s, Player::O) {
        Player::O
    } else {
        Player::X
    }
}

/// The (column, row) of each empty cell among the first `n`, in
/// row-major order.
pub open spec fn free_upto(s: Seq<Option<Player>>, n: int) -> Seq<(i32, i32)>
    decreases n,
{
    if n <= 0 {
        seq![]
    } else if s[n - 1] is None {
        free_upto(s, n - 1).push((((n - 1) % 3) as i32, ((n - 1) / 3) as i32))
    } else {
        free_upto(s, n - 1)
    }
}

/// The (column, row) of every empty cell, in row-major order.
pub open spec fn free_cells(s: Seq<Option<Player>>) -> Seq<(i32, i32)> {
    free_upto(s, 9)
}

/// Three marks of `p` along any winning line make `p` the winner, on cells
/// where no line is held by the other mark.
pub proof fn lemma_complete_line_wins(s: Seq<Option<Player>>, k: int, p: Player)
    requires
        s.len() == 9,
        0 <= k < 8,
        s[line(k).0] == Some(p),
        s[line(k).1] == Some(p),
        s[line(k).2] == Some(p),
        forall|m: int| 0 <= m < 8 && (#[trigger] line_owner(s, m)) is Some ==> line_owner(s, m) == Some(p),
    ensures
        outcome(s) == GameFinaleState::Win(p),
{
    reveal_with_fuel(first_winner_from, 9);
    assert(line_owner(s, k) == Some(p));
}

/// A full board on which no line is held by one mark is a draw.
pub proof fn lemma_full_without_line_is_draw(s: Seq<Option<Player>>)
    requires
        s.len() == 9,
        is_full(s),
        forall|m: int| 0 <= m < 8 ==> (#[trigger] line_owner(s, m)) is None,
    ensures
        outcome(s) == GameFinaleState::Draw,
{
    reveal_with_fuel(first_winner_from, 9);
    assert(line_owner(s, 0) is None && line_owner(s, 1) is None && line_owner(s, 2) is None);
    assert(line_owner(s, 3) is None && line_owner(s, 4) is None && line_owner(s, 5) is None);
    assert(line_owner(s, 6) is None && line_owner(s, 7) is None);
}

/// Marking an empty cell `i` with `q` adds one to the count of `q` among
/// the first `n` cells when `i < n`, and leaves the other counts alone.
proof fn lemma_count_update(s: Seq<Option<Player>>, i: int, q: Player, p: Player, n: int)
    requires
        0 <= i < s.len(),
        0 <= n <= s.len(),
        s[i] is None,
    ensures
        count_upto(s.update(i, Some(q)), p, n) == count_upto(s, p, n) + if q == p && i < n {
            1nat
        } else {
            0nat
        },
    decreases n,
{
    if n > 0 {
        lemma_count_update(s, i, q, p, n - 1);
    }
}

/// With equal counts it is `X`'s turn; after `X` marks an empty cell it is
/// `O`'s, and after `O` then marks another empty cell it is `X`'s again.
pub proof fn lemma_turns_alternate(s: Seq<Option<Player>>, i: int, j: int)
    requires
        s.len() == 9,
        count(s, Player::X) == count(s, Player::O),
        0 <= i < 9,
        0 <= j < 9,
        i != j,
        s[i] is None,
        s[j] is None,
    ensures
        active_turn(s) == Player::X,
        active_turn(s.update(i, Some(Player::X))) == Player::O,
        active_turn(s.update(i, Some(Player::X)).update(j, Some(Player::O))) == Player::X,
{
    let s1 = s.update(i, Some(Player::X));
    lemma_count_update(s, i, Player::X, Player::X, 9);
    lemma_count_update(s, i, Player::X, Player::O, 9);
    lemma_count_update(s1, j, Player::O, Player::X, 9);
    lemma_count_update(s1, j, Player::O, Player::O, 9);
}

/// Setting bit `i` sets that bit and no other.
proof fn lemma_set_bit(v: u16, i: u16, j: u16)
    requires
        i < 9,
        j < 9,
    ensures
        has_bit(v | (1u16 << i), j) == (i == j || has_bit(v, j)),
{
    assert(has_bit(v | (1u16 << i), j) == (i == j || has_bit(v, j))) by (bit_vector)
        requires
            i < 9,
            j < 9,
    ;
}

/// Setting a bit that `b` lacks keeps the sets disjoint and nine bits wide.
proof fn lemma_set_bit_disjoint(a: u16, b: u16, i: u16)
    requires
        a < 512,
        b < 512,
        a & b == 0 || b & a == 0,
        i < 9,
        !has_bit(b, i),
    ensures
        (a | (1u16 << i)) < 512,
        (a | (1u16 << i)) & b == 0,
        b & (a | (1u16 << i)) == 0,
{
    assert((a | (1u16 << i)) < 512 && (a | (1u16 << i)) & b == 0 && b & (a | (1u16 << i)) == 0)
        by (bit_vector)
        requires
            a < 512,
            b < 512,
            a & b == 0 || b & a == 0,
            i < 9,
            !has_bit(b, i),
    ;
}

/// Two nine-bit sets cover all nine bits exactly when their union is `0x1ff`.
proof fn lemma_union_full(a: u16, b: u16)
    requires
        a < 512,
        b < 512,
    ensures
        (a | b == 0x1ffu16) == ((has_bit(a, 0) || has_bit(b, 0)) && (has_bit(a, 1) || has_bit(b, 1))
            && (has_bit(a, 2) || has_bit(b, 2)) && (has_bit(a, 3) || has_bit(b, 3)) && (has_bit(a, 4)
            || has_bit(b, 4)) && (has_bit(a, 5) || has_bit(b, 5)) && (has_bit(a, 6) || has_bit(b, 6))
            && (has_bit(a, 7) || has_bit(b, 7)) && (has_bit(a, 8) || has_bit(b, 8))),
{
    assert((a | b == 0x1ffu16) == ((has_bit(a, 0) || has_bit(b, 0)) && (has_bit(a, 1) || has_bit(b, 1))
        && (has_bit(a, 2) || has_bit(b, 2)) && (has_bit(a, 3) || has_bit(b, 3)) && (has_bit(a, 4)
        || has_bit(b, 4)) && (has_bit(a, 5) || has_bit(b, 5)) && (has_bit(a, 6) || has_bit(b, 6))
        && (has_bit(a, 7) || has_bit(b, 7)) && (has_bit(a, 8) || has_bit(b, 8)))) by (bit_vector)
        requires
            a < 512,
            b < 512,
    ;
}

#[derive(Clone, Copy)]
pub struct Board {
    x_data: u16,
    o_data: u16,
}

impl View for Board {
    /// The nine cells in row-major order.
    type V = Seq<Option<Player>>;

    closed spec fn view(&self) -> Seq<Option<Player>> {
        Seq::new(9, |i: int| mark_of_bits(self.x_data, self.o_data, i))
    }
}

/// Every board has exactly nine cells.
pub broadcast proof fn lemma_board_len(b: Board)
    ensures
        #[trigger] b@.len() == 9,
{
}

impl Board {
    /// Only the low nine bits are used, and no cell holds both marks.
    #[verifier::type_invariant]
    spec fn inv(self) -> bool {
        &&& self.x_data < 512
        &&& self.o_data < 512
        &&& self.x_data & self.o_data == 0
    }

    /// An empty board.
    pub fn new() -> (r: Self)
        ensures
            r@ == Seq::new(9, |i: int| None::<Player>),
    {
        proof {
            assert(0u16 & 0u16 == 0) by (bit_vector);
        }
        let r = Board { x_data: 0, o_data: 0 };
        proof {
            assert forall|i: u16| i < 9 implies !has_bit(0u16, i) by {
                assert((0u16 >> i) & 1u16 == 0u16) by (bit_vector);
            }
            assert(r@ =~= Seq::new(9, |i: int| None::<Player>));
        }
        r
    }

    /// The linear index of (x, y): `index(1, 2) == 7`.
    pub fn index(&self, x: i32, y: i32) -> (r: i32)
        requires
            i32::MIN <= y * 3 <= i32::MAX,
            i32::MIN <= y * 3 + x <= i32::MAX,
        ensures
            r == cell_index(x as int, y as int),
    {
        (y * 3) + x
    }

    /// The mark at (x, y); `None` for an empty cell and for a coordinate
    /// outside the board.
    pub fn get_cell(&self, x: i32, y: i32) -> (r: Option<Player>)
        ensures
            r == (if in_bounds(x as int, y as int) {
                self@[cell_index(x as int, y as int)]
            } else {
                None
            }),
    {
        if x < 0 || x > 2 || y < 0 || y > 2 {
            return None;
        }
        let i = self.index(x, y) as u16;
        if ((self.x_data >> i) & 1u16) == 1u16 {
            Some(Player::X)
        } else if ((self.o_data >> i) & 1u16) == 1u16 {
            Some(Player::O)
        } else {
            None
        }
    }

    /// Puts `p` at (x, y). Fails with `OutOfBounds` for a coordinate outside
    /// the board and with `CellOccupied` for a cell that holds a mark; on
    /// failure the board is unchanged.
    pub fn set_cell(&mut self, x: i32, y: i32, p: Player) -> (r: Result<(), PlaceError>)
        ensures
            !in_bounds(x as int, y as int) ==> r == Err::<(), PlaceError>(PlaceError::OutOfBounds),
            in_bounds(x as int, y as int) && old(self)@[cell_index(x as int, y as int)] is Some
                ==> r == Err::<(), PlaceError>(PlaceError::CellOccupied),
            in_bounds(x as int, y as int) && old(self)@[cell_index(x as int, y as int)] is None
                ==> r == Ok::<(), PlaceError>(()),
            r is Ok ==> final(self)@ == old(self)@.update(cell_index(x as int, y as int), Some(p)),
            r is Err ==> final(self)@ == old(self)@,
    {
        if x < 0 || x > 2 || y < 0 || y > 2 {
            return Err(PlaceError::OutOfBounds);
        }
        if self.get_cell(x, y).is_some() {
            return Err(PlaceError::CellOccupied);
        }
        proof {
            use_type_invariant(&*self);
        }
        let i = self.index(x, y) as u16;
        let ghost prev = self@;
        match p {
            Player::X => {
                proof {
                    lemma_set_bit_disjoint(self.x_data, self.o_data, i);
                }
                *self = Board { x_data: self.x_data | (1u16 << i), o_data: self.o_data };
            },
            Player::O => {
                proof {
                    lemma_set_bit_disjoint(self.o_data, self.x_data, i);
                }
                *self = Board { x_data: self.x_data, o_data: self.o_data | (1u16 << i) };
            },
        }
        proof {
            assert forall|j: int| 0 <= j < 9 implies self@[j] == prev.update(i as int, Some(p))[j] by {
                lemma_set_bit(old(self).x_data, i, j as u16);
                lemma_set_bit(old(self).o_data, i, j as u16);
            }
            assert(self@ =~= prev.update(i as int, Some(p)));
        }
        Ok(())
    }

    /// The mark that holds the three cells, if one does.
    fn check_three(&self, a: (i32, i32), b: (i32, i32), c: (i32, i32)) -> (r: Option<Player>)
        requires
            in_bounds(a.0 as int, a.1 as int),
            in_bounds(b.0 as int, b.1 as int),
            in_bounds(c.0 as int, c.1 as int),
        ensures
            r == three_owner(
                self@,
                cell_index(a.0 as int, a.1 as int),
                cell_index(b.0 as int, b.1 as int),
                cell_index(c.0 as int, c.1 as int),
            ),
    {
        let one = self.get_cell(a.0, a.1);
        let two = self.get_cell(b.0, b.1);
        let three = self.get_cell(c.0, c.1);
        match (one, two, three) {
            (Some(p), Some(q), Some(t)) => {
                if p == q && q == t {
                    Some(p)
                } else {
                    None
                }
            },
            _ => None,
        }
    }

    /// Rows, then columns, then diagonals: the first completed line wins;
    /// else a full board is a draw; else the game goes on.
    pub fn check_winner(&self) -> (r: GameFinaleState)
        ensures
            r == outcome(self@),
    {
        let ghost s = self@;
        let mut y: i32 = 0;
        while y < 3
            invariant
                0 <= y <= 3,
                s == self@,
                first_winner_from(s, 0) == first_winner_from(s, y as int),
            decreases 3 - y,
        {
            if let Some(p) = self.check_three((0, y), (1, y), (2, y)) {
                return GameFinaleState::Win(p);
            }
            y += 1;
        }
        let mut x: i32 = 0;
        while x < 3
            invariant
                0 <= x <= 3,
                s == self@,
                first_winner_from(s, 0) == first_winner_from(s, 3 + x),
            decreases 3 - x,
        {
            if let Some(p) = self.check_three((x, 0), (x, 1), (x, 2)) {
                return GameFinaleState::Win(p);
            }
            x += 1;
        }
        if let Some(p) = self.check_three((0, 0), (1, 1), (2, 2)) {
            return GameFinaleState::Win(p);
        }
        if let Some(p) = self.check_three((0, 2), (1, 1), (2, 0)) {
            return GameFinaleState::Win(p);
        }
        assert(first_winner_from(s, 0) is None) by {
            reveal_with_fuel(first_winner_from, 3);
        }
        proof {
            use_type_invariant(self);
            lemma_union_full(self.x_data, self.o_data);
            let ghost x = self.x_data;
            let ghost o = self.o_data;
            if x | o == 0x1ffu16 {
                assert forall|i: int| 0 <= i < 9 implies #[trigger] s[i] is Some by {
                    assert(i == 0 || i == 1 || i == 2 || i == 3 || i == 4 || i == 5 || i == 6 || i == 7
                        || i == 8);
                }
            }
            if is_full(s) {
                assert(s[0] is Some && s[1] is Some && s[2] is Some && s[3] is Some && s[4] is Some);
                assert(s[5] is Some && s[6] is Some && s[7] is Some && s[8] is Some);
            }
        }
        if self.x_data | self.o_data == 0x1ffu16 {
            GameFinaleState::Draw
        } else {
            GameFinaleState::StillGoing
        }
    }

    /// The (column, row) of every empty cell, in row-major order.
    pub fn get_available_cells(&self) -> (r: Vec<(i32, i32)>)
        ensures
            r@ == free_cells(self@),
    {
        let mut available_cells: Vec<(i32, i32)> = Vec::new();
        let mut i: i32 = 0;
        while i < 9
            invariant
                0 <= i <= 9,
                available_cells@ == free_upto(self@, i as int),
            decreases 9 - i,
        {
            let x = i % 3;
            let y = i / 3;
            if self.get_cell(x, y).is_none() {
                available_cells.push((x, y));
            }
            i += 1;
        }
        available_cells
    }

    /// Whose turn it is: `X` when both marks have been placed equally often
    /// or `O` more often, `O` when `X` has been placed more often. Always
    /// `Some`.
    pub fn get_active_turn(&self) -> (r: Option<Player>)
        ensures
            r == Some(active_turn(self@)),
    {
        let mut xs: u32 = 0;
        let mut os: u32 = 0;
        let mut i: i32 = 0;
        while i < 9
            invariant
                0 <= i <= 9,
                xs == count_upto(self@, Player::X, i as int),
                os == count_upto(self@, Player::O, i as int),
                xs <= i,
                os <= i,
            decreases 9 - i,
        {
            match self.get_cell(i % 3, i / 3) {
                Some(Player::X) => xs += 1,
                Some(Player::O) => os += 1,
                None => {},
            }
            i += 1;
        }
        if xs > os {
            Some(Player::O)
        } else {
            Some(Player::X)
        }
    }
}

impl Default for Board {
    fn default() -> (r: Self)
        ensures
            r@ == Seq::new(9, |i: int| None::<Player>),
    {
        Self::new()
    }
}

} // verus!
