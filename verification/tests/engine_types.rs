use quantum_tictactoe::board::lines_result::LinesResult;
use quantum_tictactoe::cycle::Cycle;
use quantum_tictactoe::field::Field;
use quantum_tictactoe::field_coordinate::FieldCoordinate;
use quantum_tictactoe::game_status::GameStatus;
use quantum_tictactoe::move_type::MoveType;
use quantum_tictactoe::player_move::Move;
use quantum_tictactoe::player_symbol::PlayerSymbol;
use quantum_tictactoe::DEFAULT_BOARD_SIZE;

fn at(x: usize, y: usize) -> FieldCoordinate {
    FieldCoordinate { x, y }
}

#[test]
fn the_opposite_of_a_symbol_is_the_other_one() {
    assert_eq!(PlayerSymbol::opposite_symbol(PlayerSymbol::X), PlayerSymbol::O);
    assert_eq!(PlayerSymbol::opposite_symbol(PlayerSymbol::O), PlayerSymbol::X);
    assert_eq!(PlayerSymbol::X.letter(), "X");
    assert_eq!(PlayerSymbol::O.letter(), "O");
    assert_eq!(DEFAULT_BOARD_SIZE, 3);
}

#[test]
fn a_coordinate_and_its_position_determine_each_other() {
    assert_eq!(at(1, 2).into_usize(3), 7);
    assert_eq!(at(0, 0).into_usize(3), 0);
    assert_eq!(at(3, 3).into_usize(4), 15);
    assert_eq!(FieldCoordinate::from_usize(7, 3), at(1, 2));
    assert_eq!(FieldCoordinate::from_usize(0, 1), at(0, 0));
    for value in 0..16 {
        assert_eq!(FieldCoordinate::from_usize(value, 4).into_usize(4), value);
    }
}

#[test]
fn a_field_records_the_symbol_of_a_turn() {
    let open = Field::entangled(4);
    assert_eq!(open, Field::Entangled(vec![None; 4]));
    assert!(open.is_entangled());
    assert_eq!(open.symbol_at(2), None);
    let marked = open.with_mark(2, PlayerSymbol::O);
    assert_eq!(
        marked,
        Field::Entangled(vec![None, None, Some(PlayerSymbol::O), None])
    );
    assert_eq!(marked.symbol_at(2), Some(PlayerSymbol::O));
    assert_eq!(marked.symbol_at(3), None);
    assert_eq!(marked.symbol_at(4), None);
    assert_eq!(marked.duplicate(), marked);
    let again = marked.with_mark(2, PlayerSymbol::X);
    assert_eq!(again.symbol_at(2), Some(PlayerSymbol::X));
    let closed = Field::Collapsed(PlayerSymbol::X);
    assert!(!closed.is_entangled());
    assert_eq!(closed.symbol_at(0), None);
    assert_eq!(closed.with_mark(9, PlayerSymbol::O), closed);
    assert_eq!(closed.duplicate(), closed);
    assert_eq!(Field::entangled(0), Field::Entangled(vec![]));
}

#[test]
fn a_cycle_is_turned_to_the_left() {
    let mut cycle = Cycle::new(
        vec![at(0, 0), at(1, 0), at(2, 0)],
        vec![vec![0, 4], vec![0, 2], vec![2, 4]],
    );
    assert_eq!(cycle.len(), 3);
    assert_eq!(cycle.get_fields_coordinate(), &[at(0, 0), at(1, 0), at(2, 0)]);
    assert_eq!(cycle.get_fields_indexes(), &[vec![0, 4], vec![0, 2], vec![2, 4]]);
    assert_eq!(cycle.get_field_coordinate(1), &at(1, 0));
    cycle.shift(1);
    assert_eq!(
        cycle,
        Cycle::new(
            vec![at(1, 0), at(2, 0), at(0, 0)],
            vec![vec![0, 2], vec![2, 4], vec![0, 4]]
        )
    );
    cycle.shift(0);
    assert_eq!(cycle.get_field_coordinate(0), &at(1, 0));
    cycle.shift(3);
    assert_eq!(cycle.get_field_coordinate(0), &at(1, 0));
    cycle.shift(2);
    assert_eq!(
        cycle,
        Cycle::new(
            vec![at(0, 0), at(1, 0), at(2, 0)],
            vec![vec![0, 4], vec![0, 2], vec![2, 4]],
        )
    );
    assert_eq!(cycle.duplicate(), cycle);
}

#[test]
fn a_cycle_strikes_the_used_turn() {
    let mut cycle = Cycle::new(
        vec![at(0, 0), at(1, 0)],
        vec![vec![0, 1], vec![3, 3, 5, 3, 6]],
    );
    assert!(cycle.has_other(0, 0));
    assert!(cycle.has_other(0, 7));
    assert_eq!(cycle.remove(0, 0), 1);
    assert_eq!(cycle.get_fields_indexes(), &[vec![1], vec![3, 3, 5, 3, 6]]);
    assert!(!cycle.has_other(0, 1));
    // a turn that is not there strikes nothing, and the first comes back
    assert_eq!(cycle.remove(0, 9), 1);
    assert_eq!(cycle.remove(1, 3), 5);
    assert_eq!(cycle.get_fields_indexes(), &[vec![1], vec![5, 6]]);
    assert_eq!(cycle.get_fields_coordinate(), &[at(0, 0), at(1, 0)]);
}

#[test]
fn lines_are_counted_for_each_symbol() {
    let mut lines = LinesResult::new();
    assert_eq!(lines, LinesResult::default());
    assert!(!lines.is_full_line());
    assert_eq!(lines.get_winner(), None);
    lines.increase(PlayerSymbol::O);
    assert!(lines.is_full_line());
    assert_eq!(lines.get_winner(), Some(PlayerSymbol::O));
    lines.increase(PlayerSymbol::X);
    assert!(lines.is_full_line());
    assert_eq!(lines.get_winner(), None);
    lines.increase(PlayerSymbol::X);
    assert_eq!(lines.get_winner(), Some(PlayerSymbol::X));
    assert_eq!(lines.count(PlayerSymbol::X), 2);
    assert_eq!(lines.count(PlayerSymbol::O), 1);
}

#[test]
fn the_status_follows_the_moves() {
    let mark = Move::Mark { field1: at(0, 0), field2: at(1, 0) };
    let collapse = Move::Collapse { field: at(0, 0), index: 0 };
    let mut status = GameStatus::new();
    assert_eq!(status, GameStatus::default());
    assert_eq!(status.get_turn(), 0);
    assert!(status.is_player_turn(PlayerSymbol::X));
    assert!(!status.is_player_turn(PlayerSymbol::O));
    assert!(status.is_good_move_type(&mark));
    assert!(!status.is_good_move_type(&collapse));
    assert!(!status.is_game_end());
    assert_eq!(status.get_winner(), None);

    // a mark that closed no cycle
    status.next_turn(false);
    assert_eq!(status.get_turn(), 1);
    assert!(status.is_player_turn(PlayerSymbol::O));
    assert!(status.is_good_move_type(&mark));

    // a mark that closed a cycle
    status.next_turn(true);
    assert_eq!(status.get_turn(), 2);
    assert!(status.is_player_turn(PlayerSymbol::X));
    assert!(status.is_good_move_type(&collapse));
    assert!(!status.is_good_move_type(&mark));

    // the collapse takes no turn, whatever it is told
    status.next_turn(true);
    assert_eq!(status.get_turn(), 2);
    assert!(status.is_player_turn(PlayerSymbol::X));
    assert!(status.is_good_move_type(&mark));

    status.set_end(Some(PlayerSymbol::O));
    assert!(status.is_game_end());
    assert_eq!(status.get_winner(), Some(PlayerSymbol::O));
    assert_eq!(status.get_turn(), 2);
    status.set_end(None);
    assert!(status.is_game_end());
    assert_eq!(status.get_winner(), None);
    assert_ne!(MoveType::Mark, MoveType::Collapse);
}
