use array2d::Array2D;
use quantum_tictactoe::board::board_error::{BoardError, BoardErrorKind};
use quantum_tictactoe::cycle::Cycle;
use quantum_tictactoe::field::Field;
use quantum_tictactoe::field_coordinate::FieldCoordinate;
use quantum_tictactoe::game::game_error;
use quantum_tictactoe::game::game_result;
use quantum_tictactoe::game::Game;
use quantum_tictactoe::ipc::from_server::board_ipc::Board;
use quantum_tictactoe::ipc::from_server::game_error_ipc::GameError;
use quantum_tictactoe::ipc::from_server::game_result_ipc::GameResult;
use quantum_tictactoe::ipc::game_configuration::GameConfiguration;
use quantum_tictactoe::ipc::game_history::game_history_error::GameHistoryError;
use quantum_tictactoe::ipc::game_history::GameHistory;
use quantum_tictactoe::ipc::moves_history::MovesHistory;
use quantum_tictactoe::ipc::player_assignment::PlayerAssignment;
use quantum_tictactoe::ipc::player_enum::Player;
use quantum_tictactoe::player_move::Move;
use quantum_tictactoe::player_symbol::PlayerSymbol;
use std::time::Duration;

fn at(x: usize, y: usize) -> FieldCoordinate {
    FieldCoordinate { x, y }
}

fn mark(a: FieldCoordinate, b: FieldCoordinate) -> Move {
    Move::Mark { field1: a, field2: b }
}

#[test]
fn the_first_player_plays_x() {
    let assignment = PlayerAssignment::new(Player::Player1);
    assert_eq!(assignment.player1_symbol(), PlayerSymbol::X);
    assert_eq!(assignment.player2_symbol(), PlayerSymbol::O);
    assert_eq!(assignment.player_by_symbol(PlayerSymbol::X), Player::Player1);
    assert_eq!(assignment.player_by_symbol(PlayerSymbol::O), Player::Player2);
    let assignment = PlayerAssignment::new(Player::Player2);
    assert_eq!(assignment.player1_symbol(), PlayerSymbol::O);
    assert_eq!(assignment.player2_symbol(), PlayerSymbol::X);
    assert_eq!(assignment.player_by_symbol(PlayerSymbol::X), Player::Player2);
    assert_eq!(assignment.player_by_symbol(PlayerSymbol::O), Player::Player1);
}

#[test]
fn a_draw_picks_a_player() {
    assert_eq!(Player::drawn(0), Player::Player1);
    assert_eq!(Player::drawn(1), Player::Player2);
    assert_eq!(Player::drawn(2), Player::Player1);
    assert_eq!(Player::drawn(-1), Player::Player1);
}

#[test]
fn a_configuration_keeps_what_it_is_given() {
    let configuration = GameConfiguration::new(
        5,
        Duration::from_secs(90),
        Duration::from_millis(1500),
        Some(Player::Player2),
    );
    assert_eq!(configuration.size(), 5);
    assert_eq!(configuration.based_time(), Duration::from_secs(90));
    assert_eq!(configuration.increment(), Duration::from_millis(1500));
    assert_eq!(configuration.first_player(), &Player::Player2);

    let configuration = GameConfiguration::default();
    assert_eq!(configuration.size(), 3);
    assert_eq!(configuration.based_time(), Duration::from_secs(5 * 60));
    assert_eq!(configuration.increment(), Duration::from_secs(1));
    assert_eq!(configuration.first_player(), &Player::Player1);
}

#[test]
fn a_first_player_is_drawn_where_none_is_given() {
    let mut seen = [false, false];
    for _ in 0..200 {
        let configuration =
            GameConfiguration::new(3, Duration::from_secs(1), Duration::from_secs(1), None);
        match configuration.first_player() {
            Player::Player1 => seen[0] = true,
            Player::Player2 => seen[1] = true,
        }
        assert_eq!(configuration.size(), 3);
    }
    assert!(seen[0] || seen[1]);
}

#[test]
fn a_history_takes_up_the_moves() {
    let mut history = MovesHistory::new(7, 3);
    assert_eq!(history.game_uuid(), 7);
    assert_eq!(history.board_size(), 3);
    assert!(history.moves().is_empty());
    assert!(history.durations().is_empty());
    let first = mark(at(0, 0), at(1, 0));
    history.add_move(first, Duration::from_secs(2), PlayerSymbol::X);
    history.add_move(
        Move::Collapse { field: at(0, 0), index: 0 },
        Duration::from_secs(3),
        PlayerSymbol::O,
    );
    assert_eq!(
        history.moves(),
        &vec![
            (first, PlayerSymbol::X),
            (Move::Collapse { field: at(0, 0), index: 0 }, PlayerSymbol::O)
        ]
    );
    assert_eq!(
        history.durations(),
        &vec![Duration::from_secs(2), Duration::from_secs(3)]
    );
}

#[test]
fn a_refusal_is_told_by_its_kind() {
    assert_eq!(
        GameError::from(&game_error::GameError::PlayerTurnError),
        GameError::PlayerTurnError
    );
    assert_eq!(
        GameError::from(&game_error::GameError::MoveTypeError),
        GameError::MoveTypeError
    );
    assert_eq!(
        GameError::from(&game_error::GameError::MoveAfterEnd),
        GameError::MoveAfterEnd
    );
    assert_eq!(
        GameError::from(&game_error::GameError::MakingMoveError(BoardError::new(
            at(1, 1),
            BoardErrorKind::NoCycle
        ))),
        GameError::MakingMoveError
    );
}

#[test]
fn a_result_is_told_as_it_is() {
    let cycle = Cycle::new(vec![at(0, 0), at(1, 0)], vec![vec![0, 1], vec![0, 1]]);
    assert_eq!(
        GameResult::from(&game_result::GameResult::NextTurn),
        GameResult::NextTurn
    );
    assert_eq!(
        GameResult::told(&game_result::GameResult::TurnAfterCollapse),
        GameResult::TurnAfterCollapse
    );
    assert_eq!(
        GameResult::from(&game_result::GameResult::NextTurnCycle(cycle.duplicate())),
        GameResult::NextTurnCycle(cycle)
    );
    assert_eq!(
        GameResult::told(&game_result::GameResult::GameEnd(Some(PlayerSymbol::O))),
        GameResult::GameEnd(Some(PlayerSymbol::O))
    );
    assert_eq!(
        GameResult::told(&game_result::GameResult::GameEnd(None)),
        GameResult::GameEnd(None)
    );
}

#[test]
fn a_board_is_shown_by_its_cells() {
    let empty = Array2D::filled_with(Field::Entangled(vec![None; 9]), 3, 3);
    assert_eq!(Board::new(3).0, empty);
    assert_eq!(Board::default().0, empty);
    assert_eq!(
        Board::new(2).0,
        Array2D::filled_with(Field::Entangled(vec![None; 4]), 2, 2)
    );
    let mut game = Game::new(3);
    game.player_move(mark(at(2, 1), at(0, 0)), PlayerSymbol::X).unwrap();
    let shown = Board::shown(game.get_board());
    let mut slots = vec![None; 9];
    slots[0] = Some(PlayerSymbol::X);
    let mut expected = empty;
    expected.set(1, 2, Field::Entangled(slots.clone())).unwrap();
    expected.set(0, 0, Field::Entangled(slots)).unwrap();
    assert_eq!(shown.0, expected);
}

#[test]
fn a_history_of_moves_is_played_again() {
    let mut moves = MovesHistory::new(11, 3);
    let pair = mark(at(0, 0), at(1, 0));
    moves.add_move(pair, Duration::from_secs(1), PlayerSymbol::X);
    moves.add_move(pair, Duration::from_secs(2), PlayerSymbol::O);
    moves.add_move(
        Move::Collapse { field: at(0, 0), index: 0 },
        Duration::from_secs(3),
        PlayerSymbol::X,
    );
    let history = GameHistory::replay(&moves).unwrap();
    assert_eq!(history.game_uuid(), 11);
    assert_eq!(history.moves(), moves.moves());
    assert_eq!(history.durations(), moves.durations());
    assert_eq!(history.boards().len(), 3);

    let mut slots = vec![None; 9];
    slots[0] = Some(PlayerSymbol::X);
    let mut expected = Array2D::filled_with(Field::Entangled(vec![None; 9]), 3, 3);
    expected.set(0, 0, Field::Entangled(slots.clone())).unwrap();
    expected.set(0, 1, Field::Entangled(slots.clone())).unwrap();
    assert_eq!(history.boards()[0].0, expected);
    slots[1] = Some(PlayerSymbol::O);
    expected.set(0, 0, Field::Entangled(slots.clone())).unwrap();
    expected.set(0, 1, Field::Entangled(slots)).unwrap();
    assert_eq!(history.boards()[1].0, expected);
    expected.set(0, 0, Field::Collapsed(PlayerSymbol::X)).unwrap();
    expected.set(0, 1, Field::Collapsed(PlayerSymbol::O)).unwrap();
    assert_eq!(history.boards()[2].0, expected);

    let again = GameHistory::try_from(&moves).unwrap();
    assert_eq!(again.boards().len(), 3);
    assert_eq!(again.boards()[2].0, expected);
}

#[test]
fn a_history_with_a_refused_move_is_no_game() {
    let mut moves = MovesHistory::new(11, 3);
    let pair = mark(at(0, 0), at(1, 0));
    moves.add_move(pair, Duration::from_secs(1), PlayerSymbol::X);
    // it is not X's turn
    moves.add_move(pair, Duration::from_secs(2), PlayerSymbol::X);
    assert_eq!(GameHistory::replay(&moves).err(), Some(GameHistoryError {}));
    assert!(GameHistory::try_from(&moves).is_err());

    let empty = MovesHistory::new(1, 3);
    let history = GameHistory::replay(&empty).unwrap();
    assert!(history.boards().is_empty());
    assert!(history.moves().is_empty());
}
