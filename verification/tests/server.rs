use array2d::Array2D;
use quantum_tictactoe::field::Field;
use quantum_tictactoe::field_coordinate::FieldCoordinate;
use quantum_tictactoe::game::game_error::GameError;
use quantum_tictactoe::game::game_result::GameResult;
use quantum_tictactoe::history_service::history_error::HistoryError;
use quantum_tictactoe::ipc::from_server::game_error_ipc;
use quantum_tictactoe::ipc::from_server::game_result_ipc;
use quantum_tictactoe::ipc::from_server::FromServer;
use quantum_tictactoe::ipc::game_configuration::GameConfiguration;
use quantum_tictactoe::ipc::player_enum::Player;
use quantum_tictactoe::ipc::to_server::ToServer;
use quantum_tictactoe::player_move::Move;
use quantum_tictactoe::player_symbol::PlayerSymbol;
use quantum_tictactoe::server::configuration::repository::Repository;
use quantum_tictactoe::server::configuration::{
    choose_setting, get_game_repository, get_port, get_repository, Chosen, FromEnvironment,
};
use quantum_tictactoe::server::game_manager::GameManager;
use quantum_tictactoe::server::game_repository::{GameRepositoryEnum, LocalRepository};
use quantum_tictactoe::server::process_tcp_connection::handle_message::{
    check_is_game_created, handle_create_game, handle_end_game, handle_get_player_assignment,
    handle_make_move, handle_ping, Answer, Flow,
};
use quantum_tictactoe::server::process_tcp_connection::{process, Handled};
use quantum_tictactoe::server::server_error::ServerError;
use quantum_tictactoe::server::timer::Timer;
use std::time::Duration;

fn at(x: usize, y: usize) -> FieldCoordinate {
    FieldCoordinate { x, y }
}

fn configuration(size: usize, first_player: Player) -> GameConfiguration {
    GameConfiguration::new(
        size,
        Duration::from_secs(60),
        Duration::from_secs(1),
        Some(first_player),
    )
}

fn answered(handled: Handled) -> Answer {
    match handled {
        Handled::Answered(answer) => answer,
        Handled::NeedsGame(_) => panic!("the message was not answered"),
    }
}

#[test]
fn an_identifier_is_taken_up_once() {
    let mut repository = LocalRepository::new();
    assert!(repository.add_game(5));
    assert!(!repository.add_game(5));
    assert!(repository.add_game(6));
    assert!(!repository.add_game(5));
    assert!(!repository.add_game(6));
    assert!(repository.add_game(u128::MAX));
}

#[test]
fn a_setting_is_taken_from_the_first_place_that_holds_it() {
    assert_eq!(
        choose_setting(Some(1), FromEnvironment::Held(2), 3),
        Chosen { value: 1, unreadable: false }
    );
    assert_eq!(
        choose_setting(Some(1), FromEnvironment::Unreadable, 3),
        Chosen { value: 1, unreadable: false }
    );
    assert_eq!(
        choose_setting(None, FromEnvironment::Held(2), 3),
        Chosen { value: 2, unreadable: false }
    );
    assert_eq!(
        choose_setting(None, FromEnvironment::Unreadable, 3),
        Chosen { value: 3, unreadable: true }
    );
    assert_eq!(
        choose_setting(None, FromEnvironment::Unset, 3),
        Chosen { value: 3, unreadable: false }
    );
    assert_eq!(get_port(None, FromEnvironment::Unset).value, 6379);
    assert_eq!(get_port(None, FromEnvironment::Held(80)).value, 80);
    assert_eq!(get_port(Some(81), FromEnvironment::Held(80)).value, 81);
}

#[test]
fn the_repository_is_chosen_by_its_name() {
    assert_eq!(
        get_repository(None, None),
        Chosen { value: Repository::Local, unreadable: false }
    );
    assert_eq!(
        get_repository(None, Some("redis")),
        Chosen { value: Repository::Redis, unreadable: false }
    );
    assert_eq!(
        get_repository(None, Some("mongo")),
        Chosen { value: Repository::Local, unreadable: true }
    );
    assert_eq!(
        get_repository(Some(Repository::Redis), Some("local")),
        Chosen { value: Repository::Redis, unreadable: false }
    );
    assert!(matches!(
        get_game_repository(Repository::Local, Some("a".to_string()), None),
        GameRepositoryEnum::Local
    ));
    match get_game_repository(Repository::Redis, Some("a".to_string()), Some("b".to_string())) {
        GameRepositoryEnum::Redis(address) => assert_eq!(address, "a"),
        GameRepositoryEnum::Local => panic!("the Redis repository was chosen"),
    }
    match get_game_repository(Repository::Redis, None, Some("b".to_string())) {
        GameRepositoryEnum::Redis(address) => assert_eq!(address, "b"),
        GameRepositoryEnum::Local => panic!("the Redis repository was chosen"),
    }
    match get_game_repository(Repository::Redis, None, None) {
        GameRepositoryEnum::Redis(address) => assert_eq!(address, "redis://127.0.0.1/"),
        GameRepositoryEnum::Local => panic!("the Redis repository was chosen"),
    }
}

#[test]
fn the_clocks_start_with_the_time_of_the_game() {
    let timer = Timer::started(Duration::from_secs(60), Duration::from_secs(2));
    let text = format!("{:?}", timer);
    assert_eq!(
        text,
        format!(
            "{:?}",
            Timer::new(
                Duration::from_secs(60),
                Duration::from_secs(2),
                Duration::from_secs(60),
                Duration::from_secs(60)
            )
        )
    );
    assert_eq!(
        format!("{:?}", Timer::default()),
        format!(
            "{:?}",
            Timer::started(Duration::from_secs(300), Duration::from_secs(1))
        )
    );
    assert_ne!(ServerError::GameError, ServerError::TCPError);
    assert_ne!(HistoryError::GameNotFound, HistoryError::MongoDBError);
}

#[test]
fn a_running_game_keeps_its_moves() {
    let mut manager = GameManager::new(9, &configuration(3, Player::Player2));
    assert_eq!(manager.get_game_id(), 9);
    assert_eq!(manager.player_assignment().player1_symbol(), PlayerSymbol::O);
    assert_eq!(
        manager.get_board().0,
        Array2D::filled_with(Field::Entangled(vec![None; 9]), 3, 3)
    );
    let pair = Move::Mark { field1: at(0, 0), field2: at(1, 0) };
    assert_eq!(
        manager.make_move(PlayerSymbol::O, pair),
        Err(GameError::PlayerTurnError)
    );
    assert!(manager.history().moves().is_empty());
    assert_eq!(manager.make_move(PlayerSymbol::X, pair), Ok(GameResult::NextTurn));
    assert_eq!(manager.history().moves(), &vec![(pair, PlayerSymbol::X)]);
    assert_eq!(manager.history().durations(), &vec![Duration::default()]);
    assert_eq!(manager.history().game_uuid(), 9);
    assert_eq!(manager.history().board_size(), 3);
    assert_eq!(manager.set_winner(Some(PlayerSymbol::O)), Some(PlayerSymbol::O));
    manager.end_game();
    assert_eq!(
        manager.make_move(PlayerSymbol::O, pair),
        Err(GameError::MoveAfterEnd)
    );
    assert!(GameManager::try_new(1, &configuration(4, Player::Player1)).is_some());
    assert!(GameManager::try_new(1, &configuration(usize::MAX, Player::Player1)).is_none());
}

#[test]
fn a_connection_without_a_game_says_so() {
    let mut game: Option<GameManager> = None;
    let answer = answered(process(&mut game, ToServer::PING));
    assert!(matches!(answer.replies[..], [FromServer::PONG]));
    assert_eq!(answer.flow, Flow::Continue);
    assert!(matches!(handle_ping().replies[..], [FromServer::PONG]));

    let answer = answered(process(&mut game, ToServer::GetPlayerAssignment));
    assert!(matches!(answer.replies[..], [FromServer::GameNotCreated]));
    assert_eq!(answer.flow, Flow::Continue);

    let pair = Move::Mark { field1: at(0, 0), field2: at(1, 0) };
    let answer = answered(process(&mut game, ToServer::MakeMove((PlayerSymbol::X, pair))));
    assert!(matches!(answer.replies[..], [FromServer::GameNotCreated]));
    assert_eq!(answer.flow, Flow::Continue);

    let answer = answered(process(&mut game, ToServer::EndGame(None)));
    assert!(matches!(answer.replies[..], [FromServer::GameNotCreated]));
    assert_eq!(answer.flow, Flow::Continue);
    assert!(game.is_none());
    assert!(matches!(
        check_is_game_created(&game),
        (false, Some(FromServer::GameNotCreated))
    ));

    let answer = answered(process(&mut game, ToServer::EndConnection));
    assert!(answer.replies.is_empty());
    assert_eq!(answer.flow, Flow::Stop);

    match process(&mut game, ToServer::CreateGame(configuration(4, Player::Player1))) {
        Handled::NeedsGame(wanted) => assert_eq!(wanted.size(), 4),
        Handled::Answered(_) => panic!("the connection has no game yet"),
    }
    assert!(game.is_none());
}

#[test]
fn a_connection_runs_one_game() {
    let mut game: Option<GameManager> = None;
    let answer = handle_create_game(&mut game, configuration(usize::MAX, Player::Player1), 3);
    assert!(matches!(answer.replies[..], [FromServer::GameNotCreated]));
    assert!(game.is_none());

    let answer = handle_create_game(&mut game, configuration(3, Player::Player1), 42);
    assert_eq!(answer.flow, Flow::Continue);
    match &answer.replies[..] {
        [FromServer::GameCreated(42), FromServer::Board(board)] => assert_eq!(
            board.0,
            Array2D::filled_with(Field::Entangled(vec![None; 9]), 3, 3)
        ),
        _ => panic!("the client is told the identifier and shown the board"),
    }
    assert!(matches!(check_is_game_created(&game), (true, None)));

    let answer = handle_create_game(&mut game, configuration(4, Player::Player1), 43);
    assert!(matches!(answer.replies[..], [FromServer::GameAlreadyCreated]));
    assert_eq!(game.as_ref().unwrap().get_game_id(), 42);
    let message = ToServer::CreateGame(configuration(4, Player::Player1));
    let answer = answered(process(&mut game, message));
    assert!(matches!(answer.replies[..], [FromServer::GameAlreadyCreated]));
    assert_eq!(answer.flow, Flow::Continue);

    let answer = handle_get_player_assignment(&game);
    match &answer.replies[..] {
        [FromServer::PlayerAssignment(assignment)] => {
            assert_eq!(assignment.player1_symbol(), PlayerSymbol::X)
        }
        _ => panic!("the client is told the assignment"),
    }

    let pair = Move::Mark { field1: at(0, 0), field2: at(1, 0) };
    let answer = handle_make_move(&mut game, PlayerSymbol::O, pair);
    assert!(matches!(
        answer.replies[..],
        [FromServer::MoveErr(game_error_ipc::GameError::PlayerTurnError)]
    ));
    assert_eq!(answer.flow, Flow::Continue);

    let answer = handle_make_move(&mut game, PlayerSymbol::X, pair);
    assert_eq!(answer.flow, Flow::Continue);
    assert!(matches!(
        answer.replies[..],
        [FromServer::MoveOk(game_result_ipc::GameResult::NextTurn), FromServer::Board(_)]
    ));
    assert_eq!(game.as_ref().unwrap().history().moves().len(), 1);

    let same = Move::Mark { field1: at(2, 2), field2: at(2, 2) };
    let answer = handle_make_move(&mut game, PlayerSymbol::O, same);
    assert!(matches!(answer.replies[..], [FromServer::GameCrash]));
    assert_eq!(answer.flow, Flow::Fail(ServerError::GameError));
    assert_eq!(game.as_ref().unwrap().history().moves().len(), 1);

    let answer = handle_end_game(&mut game, Some(PlayerSymbol::O));
    assert!(matches!(
        answer.replies[..],
        [FromServer::GameEnded(Some(PlayerSymbol::O))]
    ));
    assert_eq!(answer.flow, Flow::Stop);
    let answer = handle_make_move(&mut game, PlayerSymbol::O, pair);
    assert!(matches!(
        answer.replies[..],
        [FromServer::MoveErr(game_error_ipc::GameError::MoveAfterEnd)]
    ));
}

#[test]
fn a_connection_ends_with_the_game() {
    let mut game: Option<GameManager> = None;
    handle_create_game(&mut game, configuration(3, Player::Player1), 1);
    let marks = [
        (PlayerSymbol::X, at(0, 0), at(1, 0)),
        (PlayerSymbol::O, at(0, 1), at(1, 1)),
        (PlayerSymbol::X, at(0, 0), at(2, 0)),
        (PlayerSymbol::O, at(0, 1), at(2, 1)),
    ];
    for (symbol, a, b) in marks {
        let message = ToServer::MakeMove((symbol, Move::Mark { field1: a, field2: b }));
        let answer = answered(process(&mut game, message));
        assert_eq!(answer.flow, Flow::Continue);
        assert_eq!(answer.replies.len(), 2);
    }
    let closing = Move::Mark { field1: at(1, 0), field2: at(2, 0) };
    let answer = handle_make_move(&mut game, PlayerSymbol::X, closing);
    assert!(matches!(
        answer.replies[..],
        [FromServer::MoveOk(game_result_ipc::GameResult::NextTurnCycle(_)), FromServer::Board(_)]
    ));
    assert_eq!(answer.flow, Flow::Continue);
    let collapse = Move::Collapse { field: at(0, 0), index: 0 };
    let answer = handle_make_move(&mut game, PlayerSymbol::O, collapse);
    assert!(matches!(
        answer.replies[..],
        [
            FromServer::MoveOk(game_result_ipc::GameResult::GameEnd(Some(PlayerSymbol::X))),
            FromServer::Board(_)
        ]
    ));
    assert_eq!(answer.flow, Flow::Stop);
    assert_eq!(game.as_ref().unwrap().history().moves().len(), 6);
}
