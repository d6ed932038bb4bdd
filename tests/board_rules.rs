use rustic_tac_toe::board::{Board, GameFinaleState, PlaceError, Player};
use rustic_tac_toe::play::{char_to_coord, random_opening_move};

fn cells(b: &Board) -> Vec<Option<Player>> {
    let mut v = Vec::new();
    for y in 0..3 {
        for x in 0..3 {
            v.push(b.get_cell(x, y));
        }
    }
    v
}

fn board_from(rows: [&str; 3]) -> Board {
    let mut b = Board::new();
    for (y, row) in rows.iter().enumerate() {
        for (x, c) in row.chars().enumerate() {
            let p = match c {
                'X' => Player::X,
                'O' => Player::O,
                _ => continue,
            };
            b.set_cell(x as i32, y as i32, p).unwrap();
        }
    }
    b
}

#[test]
fn new_board_is_empty() {
    let b = Board::new();
    assert_eq!(cells(&b), vec![None; 9]);
    assert_eq!(b.check_winner(), GameFinaleState::StillGoing);
    assert_eq!(cells(&Board::default()), vec![None; 9]);
}

#[test]
fn index_is_row_major() {
    let b = Board::new();
    assert_eq!(b.index(1, 2), 7);
    assert_eq!(b.index(0, 0), 0);
    assert_eq!(b.index(2, 0), 2);
    assert_eq!(b.index(0, 1), 3);
}

#[test]
fn place_then_read_back() {
    let mut b = Board::new();
    assert_eq!(b.set_cell(2, 1, Player::O), Ok(()));
    assert_eq!(b.get_cell(2, 1), Some(Player::O));
    assert_eq!(b.set_cell(0, 2, Player::X), Ok(()));
    assert_eq!(b.get_cell(0, 2), Some(Player::X));
    assert_eq!(b.get_cell(1, 1), None);
}

#[test]
fn out_of_bounds_is_refused_and_board_unchanged() {
    let mut b = board_from(["X..", ".O.", "..."]);
    let before = cells(&b);
    let coords = [(-1, 0), (0, -1), (3, 0), (0, 3), (3, 3), (-5, 7), (100, 1), (1, i32::MAX), (i32::MIN, 2)];
    for (x, y) in coords {
        assert_eq!(b.set_cell(x, y, Player::X), Err(PlaceError::OutOfBounds));
        assert_eq!(b.set_cell(x, y, Player::O), Err(PlaceError::OutOfBounds));
        assert_eq!(cells(&b), before);
    }
}

#[test]
fn occupied_cell_is_refused_and_board_unchanged() {
    let mut b = board_from(["X..", ".O.", "..."]);
    let before = cells(&b);
    assert_eq!(b.set_cell(0, 0, Player::O), Err(PlaceError::CellOccupied));
    assert_eq!(b.set_cell(0, 0, Player::X), Err(PlaceError::CellOccupied));
    assert_eq!(b.set_cell(1, 1, Player::X), Err(PlaceError::CellOccupied));
    assert_eq!(b.set_cell(1, 1, Player::X), Err(PlaceError::CellOccupied));
    assert_eq!(cells(&b), before);
}

#[test]
fn get_cell_outside_board_is_none() {
    let b = board_from(["XXX", "OOO", "XXX"]);
    assert_eq!(b.get_cell(-1, 0), None);
    assert_eq!(b.get_cell(3, 0), None);
    assert_eq!(b.get_cell(0, 3), None);
    assert_eq!(b.get_cell(0, -1), None);
}

#[test]
fn every_line_wins() {
    let lines = [
        [(0, 0), (1, 0), (2, 0)],
        [(0, 1), (1, 1), (2, 1)],
        [(0, 2), (1, 2), (2, 2)],
        [(0, 0), (0, 1), (0, 2)],
        [(1, 0), (1, 1), (1, 2)],
        [(2, 0), (2, 1), (2, 2)],
        [(0, 0), (1, 1), (2, 2)],
        [(0, 2), (1, 1), (2, 0)],
    ];
    for p in [Player::X, Player::O] {
        for line in lines {
            let mut b = Board::new();
            for (x, y) in line {
                b.set_cell(x, y, p).unwrap();
            }
            assert_eq!(b.check_winner(), GameFinaleState::Win(p));
        }
    }
}

#[test]
fn top_row_of_first_wins() {
    let b = board_from(["XXX", "OO.", "..."]);
    assert_eq!(b.check_winner(), GameFinaleState::Win(Player::X));
}

#[test]
fn full_board_without_line_is_draw() {
    let b = board_from(["XOX", "XOO", "OXX"]);
    assert_eq!(b.check_winner(), GameFinaleState::Draw);
}

#[test]
fn full_board_with_line_is_win() {
    let b = board_from(["XOX", "OXO", "OXX"]);
    assert_eq!(b.check_winner(), GameFinaleState::Win(Player::X));
}

#[test]
fn unfinished_board_is_still_going() {
    let b = board_from(["XOX", "XOO", "OX."]);
    assert_eq!(b.check_winner(), GameFinaleState::StillGoing);
}

#[test]
fn active_turn_follows_counts() {
    assert_eq!(Board::new().get_active_turn(), Some(Player::X));
    assert_eq!(board_from(["X..", "...", "..."]).get_active_turn(), Some(Player::O));
    assert_eq!(board_from(["X..", ".O.", "..."]).get_active_turn(), Some(Player::X));
    assert_eq!(board_from(["X..", ".O.", "..O"]).get_active_turn(), Some(Player::X));
    assert_eq!(board_from(["X.X", ".O.", "..."]).get_active_turn(), Some(Player::O));
}

#[test]
fn active_turn_alternates_over_a_game() {
    let moves = [(1, 1), (0, 0), (2, 0), (0, 2), (0, 1), (2, 1), (1, 0), (1, 2), (2, 2)];
    let mut b = Board::new();
    for (k, (x, y)) in moves.iter().enumerate() {
        let expected = if k % 2 == 0 { Player::X } else { Player::O };
        assert_eq!(b.get_active_turn(), Some(expected));
        b.set_cell(*x, *y, expected).unwrap();
    }
    assert_eq!(b.get_active_turn(), Some(Player::O));
}

#[test]
fn available_cells_around_centre() {
    let b = board_from(["...", ".X.", "..."]);
    assert_eq!(
        b.get_available_cells(),
        vec![(0, 0), (1, 0), (2, 0), (0, 1), (2, 1), (0, 2), (1, 2), (2, 2)]
    );
}

#[test]
fn available_cells_of_empty_and_full_boards() {
    assert_eq!(Board::new().get_available_cells().len(), 9);
    assert_eq!(Board::new().get_available_cells()[8], (2, 2));
    assert!(board_from(["XOX", "XOO", "OXX"]).get_available_cells().is_empty());
}

#[test]
fn digits_become_coordinates() {
    assert_eq!(char_to_coord('0'), Some(0));
    assert_eq!(char_to_coord('1'), Some(1));
    assert_eq!(char_to_coord('2'), Some(2));
    assert_eq!(char_to_coord('3'), None);
    assert_eq!(char_to_coord('9'), None);
    assert_eq!(char_to_coord('a'), None);
    assert_eq!(char_to_coord(' '), None);
}

#[test]
fn opening_move_is_centre_or_corner() {
    let allowed = [(1, 1), (0, 0), (2, 0), (0, 2), (2, 2)];
    for _ in 0..50 {
        assert!(allowed.contains(&random_opening_move()));
    }
}

#[test]
fn player_symbols_and_opponents() {
    assert_eq!(Player::X.symbol(), 'X');
    assert_eq!(Player::O.symbol(), 'O');
    assert_eq!(Player::X.opponent(), Player::O);
    assert_eq!(Player::O.opponent(), Player::X);
}
