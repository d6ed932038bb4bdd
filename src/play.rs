//! Helpers for a driver: reading a coordinate digit and the computer's
//! opening move.

use rand::seq::SliceRandom;
use vstd::prelude::*;

verus! {

/// The centre and the four corners, the computer's opening moves.
pub open spec fn opening_moves() -> Seq<(i32, i32)> {
    seq![(1, 1), (0, 0), (2, 0), (0, 2), (2, 2)]
}

/// Relies on rand's `SliceRandom::choose` with the thread-local generator:
/// `None` for an empty slice, else one of the slice's items.
#[verifier::external_body]
fn choose_move(moves: &[(i32, i32)]) -> (r: Option<(i32, i32)>)
    ensures
        moves@.len() == 0 <==> r is None,
        r matches Some(m) ==> moves@.contains(m),
{
    moves.choose(&mut rand::thread_rng()).copied()
}

/// One of the opening moves, picked at random.
pub fn random_opening_move() -> (r: (i32, i32))
    ensures
        opening_moves().contains(r),
{
    let good_first_moves: Vec<(i32, i32)> = vec![(1, 1), (0, 0), (2, 0), (0, 2), (2, 2)];
    assert(good_first_moves@ == opening_moves());
    let m = choose_move(good_first_moves.as_slice());
    m.unwrap()
}

/// The coordinate a digit stands for: `'0'`, `'1'` and `'2'` give 0, 1 and
/// 2; any other character gives `None`.
pub fn char_to_coord(user_input: char) -> (r: Option<i32>)
    ensures
        ('0' <= user_input <= '2') ==> r == Some((user_input as u32 - '0' as u32) as i32),
        !('0' <= user_input <= '2') ==> r is None,
{
    match user_input {
        '0' => Some(0),
        '1' => Some(1),
        '2' => Some(2),
        _ => None,
    }
}

} // verus!
