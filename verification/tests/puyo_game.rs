use puyo::board::{Board, PuyoColor};
use puyo::classic::board as fixed;
use puyo::classic::puyo_game::{sample_piece, PuyoGame as FixedGame};
use puyo::classic::piece::Placement as FixedPlacement;
use puyo::classic::state::PuyoState as FixedState;
use puyo::config::GameConfig;
use puyo::piece::{Orientation, Piece, Placement};
use puyo::puyo_game::PuyoGame;
use puyo::rand::random_piece;
use puyo::state::PuyoState;

#[test]
fn puyo_game_test_puyo_game_num_actions() {
    let gc = GameConfig::default();
    assert_eq!(PuyoGame::num_actions(), gc.cols * 4);
    assert_eq!(FixedGame::num_actions(), fixed::COLS * 4);
}

#[test]
fn puyo_game_test_puyo_game_apply_action() {
    let state = PuyoState {
        board: Board::default(),
        current: Piece::new(PuyoColor::Red, PuyoColor::Blue),
        next: Piece::new(PuyoColor::Green, PuyoColor::Blue),
        next_next: Piece::new(PuyoColor::Blue, PuyoColor::Red),
    };
    let action = Placement::new(0, Orientation::North);
    let (new_state, result) = PuyoGame::apply_action(&state, &action);
    assert!(!PuyoGame::is_terminal(&new_state));
    assert_eq!(result.score, 0);
    assert_eq!(new_state.current, state.next);

    let state = FixedState {
        board: fixed::Board::new(),
        current: Piece::new(PuyoColor::Red, PuyoColor::Blue),
        next: Piece::new(PuyoColor::Green, PuyoColor::Blue),
        next_next: Piece::new(PuyoColor::Blue, PuyoColor::Red),
    };
    let action = FixedPlacement::new(0, Orientation::North);
    let (new_state, result) = FixedGame::apply_action(&state, &action);
    assert!(!FixedGame::is_terminal(&new_state));
    assert_eq!(result.score, 0);
    assert_eq!(new_state.current, state.next);
}

#[test]
fn puyo_game_test_random_piece_valid() {
    let p = random_piece();
    assert_ne!(p.axis_color, PuyoColor::Empty);
    assert_ne!(p.satellite_color, PuyoColor::Empty);
}

#[test]
fn test_sample_piece_deterministic() {
    let p1 = sample_piece(42, 7, 0);
    let p2 = sample_piece(42, 7, 0);
    assert_eq!(p1.axis_color, p2.axis_color);
    assert_eq!(p1.satellite_color, p2.satellite_color);
}
