//! Exhaustive minimax search over the board's legal moves.

use vstd::prelude::*;
use crate::board::{
    active_turn, cell_index, in_bounds, is_full, lemma_board_len, outcome, Board, GameFinaleState,
    Player,
};

verus! {

broadcast use lemma_board_len;

/// 1 when cell `i` is empty, else 0.
pub open spec fn free_at(s: Seq<Option<Player>>, i: int) -> int {
    if s[i] is None {
        1
    } else {
        0
    }
}

/// The number of empty cells.
pub open spec fn empty_count(s: Seq<Option<Player>>) -> int {
    free_at(s, 0) + free_at(s, 1) + free_at(s, 2) + free_at(s, 3) + free_at(s, 4) + free_at(s, 5)
        + free_at(s, 6) + free_at(s, 7) + free_at(s, 8)
}

/// The cells after the mark whose turn it is has been placed at `i`.
pub open spec fn child(s: Seq<Option<Player>>, i: int) -> Seq<Option<Player>> {
    s.update(i, Some(active_turn(s)))
}

/// True at nodes where `p` is to move: there the search maximises.
pub open spec fn maximizing(s: Seq<Option<Player>>, p: Player) -> bool {
    active_turn(s) == p
}

/// True when `v` beats `acc`: larger when maximising, smaller otherwise.
pub open spec fn better(v: int, acc: int, max: bool) -> bool {
    if max {
        v > acc
    } else {
        v < acc
    }
}

/// The starting point of a search node, beaten by any score.
pub open spec fn sentinel(s: Seq<Option<Player>>, p: Player) -> int {
    if maximizing(s, p) {
        -2
    } else {
        2
    }
}

/// The score of a finished game for `p`: 1 for a win, -1 for a loss,
/// 0 for a draw.
pub open spec fn terminal_score(s: Seq<Option<Player>>, p: Player) -> int {
    match outcome(s) {
        GameFinaleState::Win(w) => if w == p {
            1
        } else {
            -1
        },
        _ => 0,
    }
}

/// The minimax value of the cells for `p`: the terminal score of a
/// finished game, else the best child score, maximised where `p` is to
/// move and minimised where the opponent is.
pub open spec fn value(s: Seq<Option<Player>>, p: Player) -> int
    decreases empty_count(s), 10int,
{
    if outcome(s) != GameFinaleState::StillGoing {
        terminal_score(s, p)
    } else {
        best_upto(s, p, 9)
    }
}

/// The best child score over the empty cells among the first `n`.
pub open spec fn best_upto(s: Seq<Option<Player>>, p: Player, n: int) -> int
    decreases empty_count(s), n,
{
    if n <= 0 || n > 9 || s.len() != 9 {
        sentinel(s, p)
    } else {
        let acc = best_upto(s, p, n - 1);
        if s[n - 1] is None && better(value(child(s, n - 1), p), acc, maximizing(s, p)) {
            value(child(s, n - 1), p)
        } else {
            acc
        }
    }
}

/// The first empty cell among the first `n` whose child reaches
/// `best_upto(s, p, n)`; -1 when there is none.
pub open spec fn best_index_upto(s: Seq<Option<Player>>, p: Player, n: int) -> int
    decreases n,
{
    if n <= 0 || n > 9 || s.len() != 9 {
        -1
    } else if s[n - 1] is None && better(
        value(child(s, n - 1), p),
        best_upto(s, p, n - 1),
        maximizing(s, p),
    ) {
        n - 1
    } else {
        best_index_upto(s, p, n - 1)
    }
}

/// Cell `k` is the first best move for `p`: it is empty, no empty cell's
/// child beats its child, and every earlier empty cell's child scores
/// differently.
pub open spec fn is_first_best(s: Seq<Option<Player>>, p: Player, k: int) -> bool {
    &&& 0 <= k < 9
    &&& s[k] is None
    &&& forall|j: int|
        0 <= j < 9 && #[trigger] s[j] is None ==> !better(
            value(child(s, j), p),
            value(child(s, k), p),
            maximizing(s, p),
        )
    &&& forall|j: int|
        0 <= j < k && #[trigger] s[j] is None ==> value(child(s, j), p) != value(child(s, k), p)
}

/// Every minimax value lies in -1..=1.
proof fn lemma_value_range(s: Seq<Option<Player>>, p: Player)
    requires
        s.len() == 9,
    ensures
        -1 <= value(s, p) <= 1,
    decreases empty_count(s), 10int,
{
    if outcome(s) == GameFinaleState::StillGoing {
        assert(!is_full(s));
        let j = choose|j: int| 0 <= j < 9 && !(#[trigger] s[j] is Some);
        lemma_best_range(s, p, 9);
    }
}

/// Once an empty cell has been seen, the best child score lies in -1..=1.
proof fn lemma_best_range(s: Seq<Option<Player>>, p: Player, n: int)
    requires
        s.len() == 9,
        0 <= n <= 9,
    ensures
        best_upto(s, p, n) == sentinel(s, p) || -1 <= best_upto(s, p, n) <= 1,
        forall|j: int| 0 <= j < n && #[trigger] s[j] is None ==> -1 <= best_upto(s, p, n) <= 1,
    decreases empty_count(s), n,
{
    if n > 0 {
        lemma_best_range(s, p, n - 1);
        if s[n - 1] is None {
            lemma_value_range(child(s, n - 1), p);
        }
    }
}

/// `best_index_upto` picks the first empty cell whose child reaches the
/// best score, and no empty cell's child beats that score.
proof fn lemma_best_index(s: Seq<Option<Player>>, p: Player, n: int)
    requires
        s.len() == 9,
        0 <= n <= 9,
    ensures
        best_index_upto(s, p, n) == -1 ==> best_upto(s, p, n) == sentinel(s, p),
        best_index_upto(s, p, n) != -1 ==> {
            &&& 0 <= best_index_upto(s, p, n) < n
            &&& s[best_index_upto(s, p, n)] is None
            &&& best_upto(s, p, n) == value(child(s, best_index_upto(s, p, n)), p)
        },
        forall|j: int|
            0 <= j < n && #[trigger] s[j] is None ==> best_index_upto(s, p, n) != -1 && !better(
                value(child(s, j), p),
                best_upto(s, p, n),
                maximizing(s, p),
            ),
        forall|j: int|
            0 <= j < best_index_upto(s, p, n) && #[trigger] s[j] is None ==> value(child(s, j), p)
                != best_upto(s, p, n),
    decreases n,
{
    if n > 0 {
        lemma_best_index(s, p, n - 1);
        lemma_best_range(s, p, n - 1);
        if s[n - 1] is None {
            lemma_value_range(child(s, n - 1), p);
        }
    }
}

/// The first best move of an unfinished game exists and carries the
/// board's own value.
proof fn lemma_best_index_is_first_best(s: Seq<Option<Player>>, p: Player)
    requires
        s.len() == 9,
        outcome(s) == GameFinaleState::StillGoing,
    ensures
        is_first_best(s, p, best_index_upto(s, p, 9)),
        value(s, p) == value(child(s, best_index_upto(s, p, 9)), p),
{
    assert(!is_full(s));
    let j = choose|j: int| 0 <= j < 9 && !(#[trigger] s[j] is Some);
    lemma_best_index(s, p, 9);
}

/// Only one cell is the first best move.
pub proof fn lemma_first_best_unique(s: Seq<Option<Player>>, p: Player, k1: int, k2: int)
    requires
        s.len() == 9,
        is_first_best(s, p, k1),
        is_first_best(s, p, k2),
    ensures
        k1 == k2,
{
    if k1 < k2 {
        assert(s[k1] is None);
    } else if k2 < k1 {
        assert(s[k2] is None);
    }
}

/// The first best move keeps the board's value for `p`: the game reached
/// by playing it is worth as much to `p` as the game before it.
pub proof fn lemma_first_best_keeps_value(s: Seq<Option<Player>>, p: Player, k: int)
    requires
        s.len() == 9,
        outcome(s) == GameFinaleState::StillGoing,
        is_first_best(s, p, k),
    ensures
        value(child(s, k), p) == value(s, p),
{
    lemma_best_index_is_first_best(s, p);
    lemma_first_best_unique(s, p, k, best_index_upto(s, p, 9));
}

/// Whatever empty cell the opponent of `p` marks, the value for `p` does
/// not drop.
pub proof fn lemma_opponent_cannot_lower_value(s: Seq<Option<Player>>, p: Player, j: int)
    requires
        s.len() == 9,
        outcome(s) == GameFinaleState::StillGoing,
        active_turn(s) != p,
        0 <= j < 9,
        s[j] is None,
    ensures
        value(child(s, j), p) >= value(s, p),
{
    lemma_best_index(s, p, 9);
}

/// A board that `p` has lost is worth -1 to `p`; so while the value for
/// `p` stays at 0 or more, which the two lemmas above keep when `p` plays
/// the first best move and the opponent plays anything, `p` never loses.
pub proof fn lemma_nonnegative_value_not_lost(s: Seq<Option<Player>>, p: Player)
    requires
        value(s, p) >= 0,
    ensures
        outcome(s) != GameFinaleState::Win(p.spec_opponent()),
{
}

/// When `p` is to move and marking an empty cell wins at once, the board is
/// worth 1 to `p`, and so is the game after `p`'s first best move.
pub proof fn lemma_immediate_win_scores_one(s: Seq<Option<Player>>, p: Player, j: int)
    requires
        s.len() == 9,
        outcome(s) == GameFinaleState::StillGoing,
        active_turn(s) == p,
        0 <= j < 9,
        s[j] is None,
        outcome(child(s, j)) == GameFinaleState::Win(p),
    ensures
        value(s, p) == 1,
        value(child(s, best_index_upto(s, p, 9)), p) == 1,
{
    lemma_best_index(s, p, 9);
    lemma_value_range(s, p);
    lemma_best_index_is_first_best(s, p);
}

/// A candidate move with the minimax score of the board it leads to.
#[derive(Clone, Copy)]
pub struct ScoredMove {
    pub coord: (i32, i32),
    pub score: i32,
}

/// The score of a finished game for `player`.
pub fn score(board: Board, player: Player) -> (r: i32)
    requires
        outcome(board@) != GameFinaleState::StillGoing,
    ensures
        r == terminal_score(board@, player),
{
    match board.check_winner() {
        GameFinaleState::Win(w) => if w == player {
            1
        } else {
            -1
        },
        _ => 0,
    }
}

/// The minimax value of `board` for `player`.
pub fn minimax(board: &Board, player: Player) -> (r: i32)
    ensures
        r == value(board@, player),
    decreases empty_count(board@), 1int,
{
    if board.check_winner() != GameFinaleState::StillGoing {
        return score(*board, player);
    }
    best_child(board, player).score
}

/// The move `player` would pick on an unfinished game: the first empty cell,
/// in row-major order, whose child is best for `player` (highest score
/// where `player` is to move, lowest where the opponent is).
pub fn best_move(board: &Board, player: Player) -> (r: (i32, i32))
    requires
        outcome(board@) == GameFinaleState::StillGoing,
    ensures
        in_bounds(r.0 as int, r.1 as int),
        is_first_best(board@, player, cell_index(r.0 as int, r.1 as int)),
        value(board@, player) == value(child(board@, cell_index(r.0 as int, r.1 as int)), player),
{
    let m = best_child(board, player);
    proof {
        lemma_best_index_is_first_best(board@, player);
    }
    m.coord
}

/// The first best move of an unfinished game, with its score.
fn best_child(board: &Board, player: Player) -> (r: ScoredMove)
    requires
        outcome(board@) == GameFinaleState::StillGoing,
    ensures
        r.score == best_upto(board@, player, 9),
        best_index_upto(board@, player, 9) == -1 || (in_bounds(r.coord.0 as int, r.coord.1 as int)
            && cell_index(r.coord.0 as int, r.coord.1 as int) == best_index_upto(board@, player, 9)),
    decreases empty_count(board@), 0int,
{
    let ghost s = board@;
    let turn = board.get_active_turn().unwrap();
    let maximize = turn == player;
    let mut best: i32 = if maximize {
        -2
    } else {
        2
    };
    let mut best_coord: (i32, i32) = (0, 0);
    let mut i: i32 = 0;
    while i < 9
        invariant
            0 <= i <= 9,
            s == board@,
            turn == active_turn(s),
            maximize == maximizing(s, player),
            best == best_upto(s, player, i as int),
            best_index_upto(s, player, i as int) == -1 || (in_bounds(best_coord.0 as int, best_coord.1 as int)
                && cell_index(best_coord.0 as int, best_coord.1 as int) == best_index_upto(s, player, i as int)),
        decreases 9 - i,
    {
        let x = i % 3;
        let y = i / 3;
        if board.get_cell(x, y).is_none() {
            let mut hypothetical_board = *board;
            let placed = hypothetical_board.set_cell(x, y, turn);
            assert(placed is Ok);
            assert(hypothetical_board@ == child(s, i as int));
            let v = minimax(&hypothetical_board, player);
            if (maximize && v > best) || (!maximize && v < best) {
                best = v;
                best_coord = (x, y);
            }
        }
        i += 1;
    }
    ScoredMove { coord: best_coord, score: best }
}

} // verus!
