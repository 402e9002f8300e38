use tictactoe::board::{Game, GameResult, Player};

fn x() -> Option<Player> {
    Some(Player::X)
}

fn o() -> Option<Player> {
    Some(Player::O)
}

#[test]
fn new_board_is_empty_and_x_moves_first() {
    let g = Game::new();
    assert_eq!(g.turn, Player::X);
    assert_eq!(g.empty_count(), 9);
    for i in 0..3 {
        for j in 0..3 {
            assert!(g.can_move((i, j)));
        }
    }
    assert_eq!(g.winner(), None);
}

#[test]
fn opposite_swaps_players() {
    assert_eq!(Player::X.opposite(), Player::O);
    assert_eq!(Player::O.opposite(), Player::X);
}

#[test]
fn display_labels() {
    assert_eq!(Player::X.display(), "X");
    assert_eq!(Player::O.display(), "O");
    assert_eq!(Player::display2(None), " ");
    assert_eq!(Player::display2(Some(Player::X)), "X");
    assert_eq!(Player::display2(Some(Player::O)), "O");
}

#[test]
fn game_result_from_player() {
    assert_eq!(GameResult::from(Player::X), GameResult::X);
    assert_eq!(GameResult::from(Player::O), GameResult::O);
}

#[test]
fn try_move_places_and_alternates() {
    let mut g = Game::new();
    assert!(g.try_move((1, 1)));
    assert_eq!(g.cells[4], Some(Player::X));
    assert_eq!(g.turn, Player::O);
    assert!(g.try_move((0, 2)));
    assert_eq!(g.cells[2], Some(Player::O));
    assert_eq!(g.turn, Player::X);
}

#[test]
fn try_move_on_occupied_cell_is_declined_and_changes_nothing() {
    let mut g = Game::new();
    assert!(g.try_move((1, 1)));
    let before = g;
    assert!(!g.try_move((1, 1)));
    assert_eq!(g.cells, before.cells);
    assert_eq!(g.turn, before.turn);
}

#[test]
fn force_move_overwrites_and_alternates() {
    let mut g = Game::new();
    g.force_move((0, 0));
    assert_eq!(g.cells[0], Some(Player::X));
    assert_eq!(g.turn, Player::O);
    g.force_move((0, 0));
    assert_eq!(g.cells[0], Some(Player::O));
    assert_eq!(g.turn, Player::X);
}

#[test]
fn winner_detects_rows_columns_and_diagonals() {
    let row = Game { cells: [x(), x(), x(), o(), o(), None, None, None, None], turn: Player::O };
    assert_eq!(row.winner(), Some(GameResult::X));
    let col = Game { cells: [o(), x(), None, o(), x(), None, o(), None, x()], turn: Player::X };
    assert_eq!(col.winner(), Some(GameResult::O));
    let diag = Game { cells: [x(), o(), None, o(), x(), None, None, None, x()], turn: Player::O };
    assert_eq!(diag.winner(), Some(GameResult::X));
    let anti = Game { cells: [x(), x(), o(), None, o(), x(), o(), None, None], turn: Player::X };
    assert_eq!(anti.winner(), Some(GameResult::O));
}

#[test]
fn winner_is_undecided_while_a_cell_is_empty_and_no_line_exists() {
    let g = Game { cells: [x(), o(), None, None, x(), None, None, None, o()], turn: Player::X };
    assert_eq!(g.winner(), None);
    assert!(g.empty_count() > 0);
}

#[test]
fn full_board_without_line_is_a_tie() {
    // Play a full game that ends with no line on the board.
    let moves = [
        (0usize, 0usize),
        (0, 1),
        (0, 2),
        (1, 1),
        (1, 0),
        (1, 2),
        (2, 1),
        (2, 0),
        (2, 2),
    ];
    let mut g = Game::new();
    for (n, pos) in moves.iter().enumerate() {
        assert_eq!(g.winner(), None, "game ended early at move {}", n);
        assert!(g.try_move(*pos));
    }
    assert_eq!(g.empty_count(), 0);
    assert_eq!(g.winner(), Some(GameResult::Tie));
}
