use tictactoe::board::{Game, GameResult, Player};
use tictactoe::eval::{AiMode, HALF_SCALE, SCALE};

fn x() -> Option<Player> {
    Some(Player::X)
}

fn o() -> Option<Player> {
    Some(Player::O)
}

const ALL_MODES: [AiMode; 4] = [AiMode::Win, AiMode::Lose, AiMode::Tie, AiMode::NoTie];

#[test]
fn won_board_scores_by_the_terminal_table() {
    // X owns the top row; the board is decided, whatever the turn.
    let g = Game { cells: [x(), x(), x(), o(), o(), None, None, None, None], turn: Player::O };
    assert_eq!(g.winner(), Some(GameResult::X));
    assert_eq!(g.win_probability(Player::X, AiMode::Win), SCALE);
    assert_eq!(g.win_probability(Player::X, AiMode::Lose), 0);
    assert_eq!(g.win_probability(Player::X, AiMode::Tie), 0);
    assert_eq!(g.win_probability(Player::X, AiMode::NoTie), SCALE);
    assert_eq!(g.win_probability(Player::O, AiMode::Win), 0);
    assert_eq!(g.win_probability(Player::O, AiMode::Lose), SCALE);
    assert_eq!(g.win_probability(Player::O, AiMode::Tie), 0);
    assert_eq!(g.win_probability(Player::O, AiMode::NoTie), SCALE);
}

#[test]
fn tied_board_scores_by_the_terminal_table() {
    // Full board, no line: a tie for both players under every objective.
    let g = Game {
        cells: [x(), o(), x(), x(), o(), o(), o(), x(), x()],
        turn: Player::O,
    };
    assert_eq!(g.winner(), Some(GameResult::Tie));
    for p in [Player::X, Player::O] {
        assert_eq!(g.win_probability(p, AiMode::Win), HALF_SCALE);
        assert_eq!(g.win_probability(p, AiMode::Lose), HALF_SCALE);
        assert_eq!(g.win_probability(p, AiMode::Tie), SCALE);
        assert_eq!(g.win_probability(p, AiMode::NoTie), 0);
    }
}

#[test]
fn opponent_turn_averages_over_replies() {
    // O to move with two empty cells: one reply wins for O at once, after the
    // other X wins on the following move. The value for X under the win
    // objective is the average of 0 and 1: one half.
    let g = Game {
        cells: [x(), x(), None, x(), o(), o(), o(), x(), None],
        turn: Player::O,
    };
    assert_eq!(g.winner(), None);
    assert_eq!(g.win_probability(Player::X, AiMode::Win), HALF_SCALE);
}

#[test]
fn optimal_move_returns_an_empty_cell() {
    let g = Game {
        cells: [x(), o(), None, None, x(), None, None, None, o()],
        turn: Player::X,
    };
    for m in ALL_MODES {
        let (pos, _) = g.optimal_move(Player::X, m);
        assert!(g.can_move(pos));
    }
}

#[test]
fn first_move_is_the_corner_with_the_pinned_probability() {
    // From the empty board the best opening for X under the win objective is
    // a corner, worth exactly 383/384; the first such corner in row-major
    // order is row 0, column 0.
    let g = Game::new();
    let (pos, v) = g.optimal_move(Player::X, AiMode::Win);
    assert_eq!(pos, (0, 0));
    assert_eq!(v, 723870);
    assert!(v > 0 && v < SCALE);
}

#[test]
fn pending_win_is_taken_with_certainty() {
    // Eight cells are filled and X completes the main diagonal on the last
    // empty cell: that move must be chosen, with probability one.
    let mut g = Game::new();
    for pos in [
        (0usize, 0usize),
        (0, 2),
        (0, 1),
        (1, 0),
        (1, 1),
        (1, 2),
        (2, 0),
        (2, 1),
    ] {
        assert_eq!(g.winner(), None);
        assert!(g.try_move(pos));
    }
    assert_eq!(g.turn, Player::X);
    assert_eq!(g.empty_count(), 1);
    let (pos, v) = g.optimal_move(Player::X, AiMode::Win);
    assert_eq!(pos, (2, 2));
    assert_eq!(v, SCALE);
    assert!(g.try_move(pos));
    assert_eq!(g.winner(), Some(GameResult::X));
}

#[test]
fn equal_moves_break_ties_in_row_major_order() {
    // X can complete a line at row 0, column 2 and also at row 2, column 2;
    // both are certain wins, and the earlier cell in row-major order is
    // returned.
    let g = Game {
        cells: [x(), x(), None, o(), x(), o(), None, o(), None],
        turn: Player::X,
    };
    assert_eq!(g.winner(), None);
    let (pos, v) = g.optimal_move(Player::X, AiMode::Win);
    assert_eq!(v, SCALE);
    assert_eq!(pos, (0, 2));
}

#[test]
fn evaluation_is_invariant_under_relabeling_the_players() {
    // A board and the same board with the marks exchanged and the turn
    // passed to the other player score the same for the other subject.
    let g = Game {
        cells: [x(), o(), None, None, x(), None, None, None, None],
        turn: Player::O,
    };
    let swapped = Game {
        cells: [o(), x(), None, None, o(), None, None, None, None],
        turn: Player::X,
    };
    for m in ALL_MODES {
        assert_eq!(
            g.win_probability(Player::X, m),
            swapped.win_probability(Player::O, m)
        );
        assert_eq!(
            g.win_probability(Player::O, m),
            swapped.win_probability(Player::X, m)
        );
    }
}

#[test]
fn blocking_is_preferred_to_losing_under_the_win_objective() {
    // O threatens the top row; under the win objective X's best move blocks
    // it rather than conceding a certain loss elsewhere.
    let g = Game {
        cells: [o(), o(), None, x(), x(), o(), None, None, x()],
        turn: Player::X,
    };
    assert_eq!(g.winner(), None);
    let (pos, _) = g.optimal_move(Player::X, AiMode::Win);
    assert_eq!(pos, (0, 2));
}
