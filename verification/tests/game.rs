use quantum_tictactoe::board::board_error::{BoardError, BoardErrorKind};
use quantum_tictactoe::cycle::Cycle;
use quantum_tictactoe::field_coordinate::FieldCoordinate;
use quantum_tictactoe::game::game_error::GameError;
use quantum_tictactoe::game::game_result::GameResult;
use quantum_tictactoe::game::Game;
use quantum_tictactoe::player_move::Move;
use quantum_tictactoe::player_symbol::PlayerSymbol;

#[test]
fn wrong_player_turn() {
    let mut game = Game::new(3);
    let player_move = Move::Mark {
        field1: FieldCoordinate { x: 0, y: 0 },
        field2: FieldCoordinate { x: 1, y: 0 },
    };

    let result = game.player_move(player_move, PlayerSymbol::O).unwrap_err();
    assert_eq!(&result, &GameError::PlayerTurnError);
}

#[test]
fn wrong_move_type() {
    let mut game = Game::new(3);
    let player_move = Move::Collapse {
        field: FieldCoordinate { x: 0, y: 0 },
        index: 0,
    };

    let result = game.player_move(player_move, PlayerSymbol::X).unwrap_err();
    assert_eq!(&result, &GameError::MoveTypeError);
}

#[test]
fn next_turn() {
    let mut game = Game::new(3);
    let player_move = Move::Mark {
        field1: FieldCoordinate { x: 0, y: 0 },
        field2: FieldCoordinate { x: 1, y: 0 },
    };
    let result = game.player_move(player_move, PlayerSymbol::X).unwrap();
    assert_eq!(result, GameResult::NextTurn);
    assert_eq!(game.get_status().get_turn(), 1);
}

#[test]
fn next_turn_cycle() {
    let mut game = Game::new(3);
    let player_move = Move::Mark {
        field1: FieldCoordinate { x: 0, y: 0 },
        field2: FieldCoordinate { x: 1, y: 0 },
    };
    let _ = game.player_move(player_move, PlayerSymbol::X).unwrap();
    let player_move = Move::Mark {
        field1: FieldCoordinate { x: 0, y: 0 },
        field2: FieldCoordinate { x: 1, y: 0 },
    };
    let result = game.player_move(player_move, PlayerSymbol::O).unwrap();
    let cycle = Cycle::new(
        vec![
            FieldCoordinate { x: 0, y: 0 },
            FieldCoordinate { x: 1, y: 0 },
        ],
        vec![vec![0, 1], vec![0, 1]],
    );
    assert_eq!(result, GameResult::NextTurnCycle(cycle));
    assert_eq!(game.get_status().get_turn(), 2);
}

#[test]
fn turn_after_collapse() {
    let mut game = Game::new(3);
    let player_move = Move::Mark {
        field1: FieldCoordinate { x: 0, y: 0 },
        field2: FieldCoordinate { x: 1, y: 0 },
    };
    let _ = game.player_move(player_move, PlayerSymbol::X).unwrap();

    let player_move = Move::Mark {
        field1: FieldCoordinate { x: 0, y: 0 },
        field2: FieldCoordinate { x: 1, y: 0 },
    };
    let _ = game.player_move(player_move, PlayerSymbol::O).unwrap();
    assert_eq!(game.get_status().get_turn(), 2);

    let player_move = Move::Collapse {
        field: FieldCoordinate { x: 0, y: 0 },
        index: 0,
    };
    let result = game.player_move(player_move, PlayerSymbol::X).unwrap();
    assert_eq!(result, GameResult::TurnAfterCollapse);
    assert_eq!(game.get_status().get_turn(), 2);
}

#[test]
fn player_x_win() {
    let mut game = Game::new(3);
    let player_move = Move::Mark {
        field1: FieldCoordinate { x: 0, y: 0 },
        field2: FieldCoordinate { x: 1, y: 0 },
    };
    let _ = game.player_move(player_move, PlayerSymbol::X).unwrap();

    let player_move = Move::Mark {
        field1: FieldCoordinate { x: 0, y: 1 },
        field2: FieldCoordinate { x: 1, y: 1 },
    };
    let _ = game.player_move(player_move, PlayerSymbol::O).unwrap();

    let player_move = Move::Mark {
        field1: FieldCoordinate { x: 0, y: 0 },
        field2: FieldCoordinate { x: 2, y: 0 },
    };
    let _ = game.player_move(player_move, PlayerSymbol::X).unwrap();

    let player_move = Move::Mark {
        field1: FieldCoordinate { x: 0, y: 1 },
        field2: FieldCoordinate { x: 2, y: 1 },
    };
    let _ = game.player_move(player_move, PlayerSymbol::O).unwrap();

    let player_move = Move::Mark {
        field1: FieldCoordinate { x: 1, y: 0 },
        field2: FieldCoordinate { x: 2, y: 0 },
    };
    let _ = game.player_move(player_move, PlayerSymbol::X).unwrap();

    let player_move = Move::Collapse {
        field: FieldCoordinate { x: 0, y: 0 },
        index: 0,
    };
    let result = game.player_move(player_move, PlayerSymbol::O).unwrap();

    assert_eq!(result, GameResult::GameEnd(Some(PlayerSymbol::X)));
}

#[test]
fn player_o_win() {
    let mut game = Game::new(3);
    let player_move = Move::Mark {
        field1: FieldCoordinate { x: 1, y: 0 },
        field2: FieldCoordinate { x: 2, y: 0 },
    };
    let _ = game.player_move(player_move, PlayerSymbol::X).unwrap();

    let player_move = Move::Mark {
        field1: FieldCoordinate { x: 0, y: 0 },
        field2: FieldCoordinate { x: 0, y: 1 },
    };
    let _ = game.player_move(player_move, PlayerSymbol::O).unwrap();

    let player_move = Move::Mark {
        field1: FieldCoordinate { x: 2, y: 0 },
        field2: FieldCoordinate { x: 2, y: 2 },
    };
    let _ = game.player_move(player_move, PlayerSymbol::X).unwrap();

    let player_move = Move::Mark {
        field1: FieldCoordinate { x: 0, y: 1 },
        field2: FieldCoordinate { x: 0, y: 2 },
    };
    let _ = game.player_move(player_move, PlayerSymbol::O).unwrap();

    let player_move = Move::Mark {
        field1: FieldCoordinate { x: 1, y: 2 },
        field2: FieldCoordinate { x: 2, y: 2 },
    };
    let _ = game.player_move(player_move, PlayerSymbol::X).unwrap();

    let player_move = Move::Mark {
        field1: FieldCoordinate { x: 0, y: 0 },
        field2: FieldCoordinate { x: 0, y: 2 },
    };
    let _ = game.player_move(player_move, PlayerSymbol::O).unwrap();

    let player_move = Move::Collapse {
        field: FieldCoordinate { x: 0, y: 0 },
        index: 1,
    };
    let result = game.player_move(player_move, PlayerSymbol::X).unwrap();

    assert_eq!(result, GameResult::GameEnd(Some(PlayerSymbol::O)));
}

#[test]
fn player_x_win_diagonal_size_4() {
    let mut game = Game::new(4);
    let player_move = Move::Mark {
        field1: FieldCoordinate { x: 0, y: 0 },
        field2: FieldCoordinate { x: 1, y: 1 },
    };
    let _ = game.player_move(player_move, PlayerSymbol::X).unwrap();

    let player_move = Move::Mark {
        field1: FieldCoordinate { x: 0, y: 0 },
        field2: FieldCoordinate { x: 1, y: 0 },
    };
    let _ = game.player_move(player_move, PlayerSymbol::O).unwrap();

    let player_move = Move::Mark {
        field1: FieldCoordinate { x: 1, y: 1 },
        field2: FieldCoordinate { x: 2, y: 2 },
    };
    let _ = game.player_move(player_move, PlayerSymbol::X).unwrap();

    let player_move = Move::Mark {
        field1: FieldCoordinate { x: 0, y: 0 },
        field2: FieldCoordinate { x: 2, y: 0 },
    };
    let _ = game.player_move(player_move, PlayerSymbol::O).unwrap();

    let player_move = Move::Mark {
        field1: FieldCoordinate { x: 2, y: 2 },
        field2: FieldCoordinate { x: 3, y: 3 },
    };
    let _ = game.player_move(player_move, PlayerSymbol::X).unwrap();

    let player_move = Move::Mark {
        field1: FieldCoordinate { x: 0, y: 0 },
        field2: FieldCoordinate { x: 3, y: 0 },
    };
    let _ = game.player_move(player_move, PlayerSymbol::O).unwrap();

    let player_move = Move::Mark {
        field1: FieldCoordinate { x: 3, y: 3 },
        field2: FieldCoordinate { x: 0, y: 0 },
    };
    let _ = game.player_move(player_move, PlayerSymbol::X).unwrap();

    let player_move = Move::Collapse {
        field: FieldCoordinate { x: 0, y: 0 },
        index: 0,
    };
    let result = game.player_move(player_move, PlayerSymbol::O).unwrap();

    assert_eq!(result, GameResult::GameEnd(Some(PlayerSymbol::X)));
}

#[test]
fn draw() {
    let mut game = Game::new(3);
    let player_move = Move::Mark {
        field1: FieldCoordinate { x: 0, y: 0 },
        field2: FieldCoordinate { x: 1, y: 0 },
    };
    let _ = game.player_move(player_move, PlayerSymbol::X).unwrap();

    let player_move = Move::Mark {
        field1: FieldCoordinate { x: 0, y: 1 },
        field2: FieldCoordinate { x: 1, y: 1 },
    };
    let _ = game.player_move(player_move, PlayerSymbol::O).unwrap();

    let player_move = Move::Mark {
        field1: FieldCoordinate { x: 1, y: 0 },
        field2: FieldCoordinate { x: 2, y: 0 },
    };
    let _ = game.player_move(player_move, PlayerSymbol::X).unwrap();

    let player_move = Move::Mark {
        field1: FieldCoordinate { x: 1, y: 1 },
        field2: FieldCoordinate { x: 2, y: 1 },
    };
    let _ = game.player_move(player_move, PlayerSymbol::O).unwrap();

    let player_move = Move::Mark {
        field1: FieldCoordinate { x: 2, y: 0 },
        field2: FieldCoordinate { x: 2, y: 1 },
    };
    let _ = game.player_move(player_move, PlayerSymbol::X).unwrap();

    let player_move = Move::Mark {
        field1: FieldCoordinate { x: 2, y: 0 },
        field2: FieldCoordinate { x: 2, y: 1 },
    };
    let _ = game.player_move(player_move, PlayerSymbol::O).unwrap();

    let player_move = Move::Collapse {
        field: FieldCoordinate { x: 2, y: 0 },
        index: 4,
    };
    let result = game.player_move(player_move, PlayerSymbol::X).unwrap();

    assert_eq!(result, GameResult::GameEnd(None));
}

#[test]
fn a_move_after_the_end_is_refused() {
    let mut game = Game::new(3);
    assert_eq!(
        game.end_game(Some(PlayerSymbol::O)),
        Ok(GameResult::GameEnd(Some(PlayerSymbol::O)))
    );
    assert!(game.get_status().is_game_end());
    assert_eq!(game.get_status().get_winner(), Some(PlayerSymbol::O));
    let player_move = Move::Mark {
        field1: FieldCoordinate { x: 0, y: 0 },
        field2: FieldCoordinate { x: 1, y: 0 },
    };
    assert_eq!(
        game.player_move(player_move, PlayerSymbol::X),
        Err(GameError::MoveAfterEnd)
    );
}

#[test]
fn a_refusal_of_the_board_is_wrapped() {
    let mut game = Game::new(3);
    let player_move = Move::Mark {
        field1: FieldCoordinate { x: 0, y: 0 },
        field2: FieldCoordinate { x: 0, y: 0 },
    };
    assert_eq!(
        game.player_move(player_move, PlayerSymbol::X),
        Err(GameError::MakingMoveError(BoardError::new(
            FieldCoordinate { x: 0, y: 0 },
            BoardErrorKind::SameCoordinates
        )))
    );
    // nothing has changed: it is still X's first mark
    assert_eq!(game.get_status().get_turn(), 0);
    assert!(game.get_status().is_player_turn(PlayerSymbol::X));
}

#[test]
fn play_goes_on_after_a_collapse() {
    let mut game = Game::new(3);
    let pair = Move::Mark {
        field1: FieldCoordinate { x: 0, y: 0 },
        field2: FieldCoordinate { x: 1, y: 0 },
    };
    assert_eq!(game.player_move(pair, PlayerSymbol::X), Ok(GameResult::NextTurn));
    assert!(game.player_move(pair, PlayerSymbol::O).is_ok());
    // a collapse is due, and it is X's move
    assert_eq!(
        game.player_move(pair, PlayerSymbol::X),
        Err(GameError::MoveTypeError)
    );
    let collapse = Move::Collapse {
        field: FieldCoordinate { x: 0, y: 0 },
        index: 7,
    };
    assert_eq!(
        game.player_move(collapse, PlayerSymbol::X),
        Err(GameError::MakingMoveError(BoardError::new(
            FieldCoordinate { x: 0, y: 0 },
            BoardErrorKind::IndexNotInCycle
        )))
    );
    let collapse = Move::Collapse {
        field: FieldCoordinate { x: 0, y: 0 },
        index: 0,
    };
    assert_eq!(
        game.player_move(collapse, PlayerSymbol::X),
        Ok(GameResult::TurnAfterCollapse)
    );
    // the collapse took no turn and X marks next
    assert_eq!(game.get_status().get_turn(), 2);
    let next = Move::Mark {
        field1: FieldCoordinate { x: 2, y: 2 },
        field2: FieldCoordinate { x: 1, y: 2 },
    };
    assert_eq!(
        game.player_move(next, PlayerSymbol::O),
        Err(GameError::PlayerTurnError)
    );
    assert_eq!(game.player_move(next, PlayerSymbol::X), Ok(GameResult::NextTurn));
    assert_eq!(game.get_status().get_turn(), 3);
    let _ = game.get_board();
}

#[test]
fn the_last_turn_has_a_slot() {
    let at = |x: usize, y: usize| FieldCoordinate { x, y };
    let mut game = Game::new(2);
    let top = Move::Mark { field1: at(0, 0), field2: at(1, 0) };
    let bottom = Move::Mark { field1: at(0, 1), field2: at(1, 1) };
    assert_eq!(game.player_move(top, PlayerSymbol::X), Ok(GameResult::NextTurn));
    assert!(matches!(
        game.player_move(top, PlayerSymbol::O),
        Ok(GameResult::NextTurnCycle(_))
    ));
    let collapse = Move::Collapse { field: at(0, 0), index: 0 };
    assert_eq!(
        game.player_move(collapse, PlayerSymbol::X),
        Ok(GameResult::TurnAfterCollapse)
    );
    assert_eq!(game.player_move(bottom, PlayerSymbol::X), Ok(GameResult::NextTurn));
    // the fourth mark is placed in turn 3, the last slot of a cell of this board
    assert_eq!(game.get_status().get_turn(), 3);
    assert!(matches!(
        game.player_move(bottom, PlayerSymbol::O),
        Ok(GameResult::NextTurnCycle(_))
    ));
    let collapse = Move::Collapse { field: at(0, 1), index: 2 };
    // (1,1) is left with O's mark of turn 3 and (0,1) with X's of turn 2: the first
    // column is X's and the second is O's
    assert_eq!(
        game.player_move(collapse, PlayerSymbol::X),
        Ok(GameResult::GameEnd(None))
    );
}
