use array2d::Array2D;
use quantum_tictactoe::board::board_error::BoardErrorKind;
use quantum_tictactoe::board::Board;
use quantum_tictactoe::cycle::Cycle;
use quantum_tictactoe::field::Field;
use quantum_tictactoe::field_coordinate::FieldCoordinate;
use quantum_tictactoe::player_symbol::PlayerSymbol;

fn at(x: usize, y: usize) -> FieldCoordinate {
    FieldCoordinate { x, y }
}

/// A board of side 3 on which the three cells are collapsed to `symbol` and
/// every other cell is untouched.
fn board_with_line(cells: [FieldCoordinate; 3], symbol: PlayerSymbol) -> Board {
    let mut board = Board::new(3);
    assert!(board.mark(&[cells[0], cells[1]], symbol, 0).unwrap().is_none());
    assert!(board.mark(&[cells[1], cells[2]], symbol, 1).unwrap().is_none());
    assert!(board.mark(&[cells[0], cells[2]], symbol, 2).unwrap().is_some());
    board.collapse(cells[0], 0).unwrap();
    board
}

/// A grid of side 3 in which the cells at `collapsed` hold X and every other
/// cell is untouched.
fn grid_with(collapsed: &[FieldCoordinate]) -> Array2D<Field> {
    let mut grid = Array2D::filled_with(Field::Entangled(vec![None; 3 * 3]), 3, 3);
    for c in collapsed {
        grid.set(c.y, c.x, Field::Collapsed(PlayerSymbol::X)).unwrap();
    }
    grid
}

#[test]
fn test_empty_board_3x3() {
    let board = Board::new(3);
    assert_eq!(
        board.get_positions(),
        Array2D::filled_with(Field::Entangled(vec![None; 9]), 3, 3)
    );
}

#[test]
fn board_empty_board_3x3() {
    let board = Board::new(3);
    assert_eq!(
        board.get_positions(),
        Array2D::filled_with(Field::Entangled(vec![None; 9]), 3, 3)
    );
}

#[test]
fn test_default_board() {
    let board = Board::new(3);
    let default_board = Board::default();
    assert_eq!(board.get_positions(), default_board.get_positions());
    assert_eq!(board.size(), default_board.size());
}

#[test]
fn board_default_board() {
    let board = Board::new(3);
    let default_board = Board::default();
    assert_eq!(board.get_positions(), default_board.get_positions());
    assert_eq!(board.size(), default_board.size());
}

#[test]
fn test_first_mark() {
    let mut board = Board::new(3);
    let fields_coordinates = &[
        FieldCoordinate { x: 0, y: 0 },
        FieldCoordinate { x: 1, y: 0 },
    ];
    let _ = board.mark(fields_coordinates, PlayerSymbol::X, 0);
    let mut array = Array2D::filled_with(Field::Entangled(vec![None; 9]), 3, 3);
    let mut field = vec![Some(PlayerSymbol::X)];
    field.extend([None; 8]);
    array.set(0, 0, Field::Entangled(field.clone())).unwrap();
    array.set(0, 1, Field::Entangled(field)).unwrap();
    assert_eq!(board.get_positions(), array);
}

#[test]
fn board_first_mark() {
    let mut board = Board::new(3);
    let fields_coordinates = vec![
        FieldCoordinate { x: 0, y: 0 },
        FieldCoordinate { x: 1, y: 0 },
    ];
    let _ = board.mark(
        &[fields_coordinates[0], fields_coordinates[1]],
        PlayerSymbol::X,
        0,
    );
    let mut array = Array2D::filled_with(Field::Entangled(vec![None; 9]), 3, 3);
    let mut field = vec![Some(PlayerSymbol::X)];
    field.extend([None; 8]);
    array.set(0, 0, Field::Entangled(field.clone())).unwrap();
    array.set(0, 1, Field::Entangled(field)).unwrap();
    assert_eq!(board.get_positions(), array);
}

#[test]
fn test_none_cycle() {
    let mut board = Board::new(3);
    let fields_coordinates = &[
        FieldCoordinate { x: 0, y: 0 },
        FieldCoordinate { x: 1, y: 0 },
    ];
    assert!(board
        .mark(fields_coordinates, PlayerSymbol::X, 0)
        .unwrap()
        .is_none());
}

#[test]
fn board_none_cycle() {
    let mut board = Board::new(3);
    let fields_coordinates = vec![
        FieldCoordinate { x: 0, y: 0 },
        FieldCoordinate { x: 1, y: 0 },
    ];
    assert!(board
        .mark(
            &[fields_coordinates[0], fields_coordinates[1]],
            PlayerSymbol::X,
            0
        )
        .unwrap()
        .is_none());
}

#[test]
fn test_mark_out_of_band() {
    let mut board = Board::new(3);
    let fields_coordinates = &[
        FieldCoordinate { x: 3, y: 0 },
        FieldCoordinate { x: 3, y: 1 },
    ];
    assert!(board.mark(fields_coordinates, PlayerSymbol::X, 0).is_err());
}

#[test]
fn board_mark_out_of_band() {
    let mut board = Board::new(3);
    let fields_coordinates = vec![
        FieldCoordinate { x: 3, y: 0 },
        FieldCoordinate { x: 3, y: 1 },
    ];
    assert!(board
        .mark(
            &[fields_coordinates[0], fields_coordinates[1]],
            PlayerSymbol::X,
            0
        )
        .is_err())
}

/// A board of side 3 whose cell at (0, 0) is collapsed to X. The cell at
/// (1, 0) is collapsed too; every other cell is untouched.
fn board_with_collapsed_corner() -> Board {
    let mut board = Board::new(3);
    let pair = [at(0, 0), at(1, 0)];
    assert!(board.mark(&pair, PlayerSymbol::X, 0).unwrap().is_none());
    assert!(board.mark(&pair, PlayerSymbol::X, 1).unwrap().is_some());
    board.collapse(at(0, 0), 0).unwrap();
    assert_eq!(
        board.get_positions().get(0, 0),
        Some(&Field::Collapsed(PlayerSymbol::X))
    );
    board
}

#[test]
fn test_mark_on_collapsed() {
    let mut board = board_with_collapsed_corner();
    let fields_coordinates = &[
        FieldCoordinate { x: 0, y: 0 },
        FieldCoordinate { x: 0, y: 1 },
    ];
    assert!(board.mark(fields_coordinates, PlayerSymbol::X, 0).is_err());
}

#[test]
fn board_mark_on_collapsed() {
    let mut board = board_with_collapsed_corner();
    let fields_coordinates = vec![
        FieldCoordinate { x: 0, y: 0 },
        FieldCoordinate { x: 0, y: 1 },
    ];
    assert!(board
        .mark(
            &[fields_coordinates[0], fields_coordinates[1]],
            PlayerSymbol::X,
            0
        )
        .is_err())
}

#[test]
fn test_same_fields_coordinates() {
    let mut board = board_with_collapsed_corner();
    let fields_coordinates = &[
        FieldCoordinate { x: 0, y: 0 },
        FieldCoordinate { x: 0, y: 0 },
    ];
    assert!(board.mark(fields_coordinates, PlayerSymbol::X, 0).is_err());
}

#[test]
fn board_same_fields_coordinates() {
    let mut board = board_with_collapsed_corner();
    let fields_coordinates = vec![
        FieldCoordinate { x: 0, y: 0 },
        FieldCoordinate { x: 0, y: 0 },
    ];
    assert!(board
        .mark(
            &[fields_coordinates[0], fields_coordinates[1]],
            PlayerSymbol::X,
            0
        )
        .is_err())
}

#[test]
fn test_check_simple_cycle() {
    let mut board = Board::new(3);
    let fields_coordinates = &[
        FieldCoordinate { x: 0, y: 0 },
        FieldCoordinate { x: 1, y: 0 },
    ];
    let _ = board.mark(fields_coordinates, PlayerSymbol::X, 0);
    assert!(board
        .mark(fields_coordinates, PlayerSymbol::O, 1)
        .unwrap()
        .is_some());
}

#[test]
fn board_check_simple_cycle() {
    let mut board = Board::new(3);
    let fields_coordinates = vec![
        FieldCoordinate { x: 0, y: 0 },
        FieldCoordinate { x: 1, y: 0 },
    ];
    let pair = [fields_coordinates[0], fields_coordinates[1]];
    let _ = board.mark(&pair, PlayerSymbol::X, 0);
    assert!(board.mark(&pair, PlayerSymbol::O, 1).unwrap().is_some());
}

#[test]
fn test_simply_cycle() {
    let mut board = Board::new(3);
    let fields_coordinates = &[
        FieldCoordinate { x: 0, y: 0 },
        FieldCoordinate { x: 1, y: 0 },
    ];
    let _ = board.mark(fields_coordinates, PlayerSymbol::X, 0);
    let cycle = Some(Cycle::new(
        fields_coordinates.to_vec(),
        vec![vec![0, 1], vec![0, 1]],
    ));
    assert_eq!(
        cycle,
        board.mark(fields_coordinates, PlayerSymbol::O, 1).unwrap()
    );
}

#[test]
fn board_simply_cycle() {
    let mut board = Board::new(3);
    let fields_coordinates = vec![
        FieldCoordinate { x: 0, y: 0 },
        FieldCoordinate { x: 1, y: 0 },
    ];
    let pair = [fields_coordinates[0], fields_coordinates[1]];
    let _ = board.mark(&pair, PlayerSymbol::X, 0);
    let cycle = Some(Cycle::new(
        fields_coordinates.clone(),
        vec![vec![0, 1], vec![0, 1]],
    ));
    assert_eq!(cycle, board.mark(&pair, PlayerSymbol::O, 1).unwrap())
}

#[test]
fn check_row_none() {
    let board = Board::new(3);
    for i in 0..3 {
        assert!(board.check_row(i).is_none());
    }
}

#[test]
fn check_column_none() {
    let board = Board::new(3);
    for i in 0..3 {
        assert!(board.check_column(i).is_none());
    }
}

#[test]
fn check_row() {
    let cells = [at(0, 0), at(1, 0), at(2, 0)];
    let board = board_with_line(cells, PlayerSymbol::X);
    assert_eq!(board.get_positions(), grid_with(&cells));
    assert_eq!(board.check_row(0).unwrap(), PlayerSymbol::X);
    assert!(board.check_row(1).is_none());
    assert!(board.check_row(2).is_none());
}

#[test]
fn check_column() {
    let cells = [at(0, 0), at(0, 1), at(0, 2)];
    let board = board_with_line(cells, PlayerSymbol::X);
    assert_eq!(board.get_positions(), grid_with(&cells));
    assert_eq!(board.check_column(0).unwrap(), PlayerSymbol::X);
    assert!(board.check_column(1).is_none());
    assert!(board.check_column(2).is_none());
}

#[test]
fn check_first_diagonal() {
    let cells = [at(0, 0), at(1, 1), at(2, 2)];
    let board = board_with_line(cells, PlayerSymbol::X);
    assert_eq!(board.get_positions(), grid_with(&cells));
    assert_eq!(board.check_first_diagonal().unwrap(), PlayerSymbol::X);
    assert!(board.check_second_diagonal().is_none());
}

#[test]
fn check_second_diagonal() {
    let cells = [at(2, 0), at(1, 1), at(0, 2)];
    let board = board_with_line(cells, PlayerSymbol::X);
    assert_eq!(board.get_positions(), grid_with(&cells));
    assert_eq!(board.check_second_diagonal().unwrap(), PlayerSymbol::X);
    assert!(board.check_first_diagonal().is_none());
}

#[test]
fn simply_collapsed_positions() {
    let mut board = Board::new(3);
    let fields_coordinates = &[
        FieldCoordinate { x: 0, y: 0 },
        FieldCoordinate { x: 1, y: 0 },
    ];
    let _ = board.mark(fields_coordinates, PlayerSymbol::X, 0);
    let _ = board.mark(fields_coordinates, PlayerSymbol::O, 1);
    let _ = board.collapse(FieldCoordinate { x: 0, y: 0 }, 0);

    let mut board_positions = vec![
        Field::Collapsed(PlayerSymbol::X),
        Field::Collapsed(PlayerSymbol::O),
    ];
    board_positions.extend(vec![Field::Entangled(vec![None; 3 * 3]); 7]);
    let board_positions = Array2D::from_row_major(&board_positions, 3, 3).unwrap();
    assert_eq!(board.get_positions(), board_positions);
}

#[test]
fn mark_reports_each_refusal() {
    let mut board = board_with_collapsed_corner();
    let kind = |r: Result<Option<Cycle>, _>| {
        let e: quantum_tictactoe::board::board_error::BoardError = r.unwrap_err();
        (e.field_coordinate, e.kind)
    };
    assert_eq!(
        kind(board.mark(&[at(3, 0), at(0, 5)], PlayerSymbol::X, 2)),
        (at(3, 0), BoardErrorKind::OutOfRange)
    );
    assert_eq!(
        kind(board.mark(&[at(0, 0), at(0, 3)], PlayerSymbol::X, 2)),
        (at(0, 3), BoardErrorKind::OutOfRange)
    );
    assert_eq!(
        kind(board.mark(&[at(2, 2), at(2, 2)], PlayerSymbol::X, 2)),
        (at(2, 2), BoardErrorKind::SameCoordinates)
    );
    assert_eq!(
        kind(board.mark(&[at(0, 0), at(2, 2)], PlayerSymbol::X, 2)),
        (at(0, 0), BoardErrorKind::AlreadyCollapsed)
    );
    assert_eq!(
        kind(board.mark(&[at(2, 2), at(1, 0)], PlayerSymbol::X, 2)),
        (at(1, 0), BoardErrorKind::AlreadyCollapsed)
    );
    assert_eq!(
        kind(board.mark(&[at(2, 2), at(2, 1)], PlayerSymbol::X, 9)),
        (at(2, 2), BoardErrorKind::TurnOutOfRange)
    );
}

#[test]
fn refused_mark_changes_nothing() {
    let mut board = board_with_collapsed_corner();
    board.mark(&[at(2, 2), at(2, 1)], PlayerSymbol::O, 3).unwrap();
    let before = board.get_positions();
    assert!(board.mark(&[at(0, 0), at(2, 2)], PlayerSymbol::X, 4).is_err());
    assert!(board.mark(&[at(2, 2), at(2, 2)], PlayerSymbol::X, 4).is_err());
    assert!(board.mark(&[at(2, 2), at(7, 2)], PlayerSymbol::X, 4).is_err());
    assert_eq!(board.get_positions(), before);
    // the refused marks linked nothing: this one closes the cycle of two cells
    let cycle = board.mark(&[at(2, 1), at(2, 2)], PlayerSymbol::X, 5).unwrap();
    assert_eq!(
        cycle,
        Some(Cycle::new(vec![at(2, 1), at(2, 2)], vec![vec![3, 5], vec![3, 5]]))
    );
}

#[test]
fn collapse_reports_each_refusal() {
    let mut board = Board::new(3);
    let kind = |r: Result<(), quantum_tictactoe::board::board_error::BoardError>| {
        let e = r.unwrap_err();
        (e.field_coordinate, e.kind)
    };
    assert_eq!(
        kind(board.collapse(at(0, 0), 0)),
        (at(0, 0), BoardErrorKind::NoCycle)
    );
    let pair = [at(0, 0), at(1, 0)];
    board.mark(&pair, PlayerSymbol::X, 0).unwrap();
    assert_eq!(
        kind(board.collapse(at(0, 0), 0)),
        (at(0, 0), BoardErrorKind::NoCycle)
    );
    board.mark(&pair, PlayerSymbol::O, 1).unwrap();
    assert_eq!(
        kind(board.collapse(at(2, 2), 0)),
        (at(2, 2), BoardErrorKind::NotInCycle)
    );
    assert_eq!(
        kind(board.collapse(at(0, 0), 2)),
        (at(0, 0), BoardErrorKind::IndexNotInCycle)
    );
    let before = board.get_positions();
    assert!(board.collapse(at(0, 0), 7).is_err());
    assert_eq!(board.get_positions(), before);
    board.collapse(at(0, 0), 1).unwrap();
    // the cycle is used up
    assert_eq!(
        kind(board.collapse(at(0, 0), 1)),
        (at(0, 0), BoardErrorKind::NoCycle)
    );
}

#[test]
fn collapse_of_a_repeated_turn_is_unresolvable() {
    let mut board = Board::new(3);
    board.mark(&[at(0, 0), at(1, 0)], PlayerSymbol::X, 0).unwrap();
    board.mark(&[at(0, 0), at(2, 0)], PlayerSymbol::O, 0).unwrap();
    let cycle = board.mark(&[at(1, 0), at(2, 0)], PlayerSymbol::X, 0).unwrap();
    assert!(cycle.is_some());
    let before = board.get_positions();
    let e = board.collapse(at(1, 0), 0).unwrap_err();
    assert_eq!(e.kind, BoardErrorKind::Unresolvable);
    assert_eq!(e.field_coordinate, at(0, 0));
    assert_eq!(board.get_positions(), before);
}

#[test]
fn collapse_spreads_along_the_links() {
    let mut board = Board::new(3);
    // a chain hangs off the cycle: (2,0) - (2,1) - (2,2), and (0,2) - (1,2) apart
    board.mark(&[at(0, 0), at(1, 0)], PlayerSymbol::X, 0).unwrap();
    board.mark(&[at(1, 0), at(2, 0)], PlayerSymbol::O, 1).unwrap();
    board.mark(&[at(2, 0), at(2, 1)], PlayerSymbol::X, 2).unwrap();
    board.mark(&[at(2, 1), at(2, 2)], PlayerSymbol::O, 3).unwrap();
    board.mark(&[at(0, 2), at(1, 2)], PlayerSymbol::X, 4).unwrap();
    let cycle = board.mark(&[at(0, 0), at(1, 0)], PlayerSymbol::O, 5).unwrap();
    assert_eq!(
        cycle,
        Some(Cycle::new(vec![at(0, 0), at(1, 0)], vec![vec![0, 5], vec![0, 5]]))
    );
    board.collapse(at(0, 0), 5).unwrap();
    let grid = board.get_positions();
    // walking from (0,0) with turn 5: (1,0) is left with turn 0, (0,0) with turn 5
    assert_eq!(grid.get(0, 1), Some(&Field::Collapsed(PlayerSymbol::X)));
    assert_eq!(grid.get(0, 0), Some(&Field::Collapsed(PlayerSymbol::O)));
    // each cell of the chain takes the symbol of the link it is reached by
    assert_eq!(grid.get(0, 2), Some(&Field::Collapsed(PlayerSymbol::O)));
    assert_eq!(grid.get(1, 2), Some(&Field::Collapsed(PlayerSymbol::X)));
    assert_eq!(grid.get(2, 2), Some(&Field::Collapsed(PlayerSymbol::O)));
    // the pair apart is not reached
    let mut apart = vec![None; 9];
    apart[4] = Some(PlayerSymbol::X);
    assert_eq!(grid.get(2, 0), Some(&Field::Entangled(apart.clone())));
    assert_eq!(grid.get(2, 1), Some(&Field::Entangled(apart)));
    assert_eq!(grid.get(1, 0), Some(&Field::Entangled(vec![None; 9])));
    // its link is still there: a second mark on the pair closes a cycle
    let cycle = board.mark(&[at(0, 2), at(1, 2)], PlayerSymbol::O, 6).unwrap();
    assert_eq!(
        cycle,
        Some(Cycle::new(vec![at(0, 2), at(1, 2)], vec![vec![4, 6], vec![4, 6]]))
    );
}

#[test]
fn a_cycle_of_three_lists_the_turns_of_its_links() {
    let mut board = Board::new(3);
    board.mark(&[at(0, 0), at(1, 0)], PlayerSymbol::X, 0).unwrap();
    board.mark(&[at(0, 0), at(2, 0)], PlayerSymbol::X, 2).unwrap();
    let cycle = board.mark(&[at(1, 0), at(2, 0)], PlayerSymbol::X, 4).unwrap();
    assert_eq!(
        cycle,
        Some(Cycle::new(
            vec![at(1, 0), at(0, 0), at(2, 0)],
            vec![vec![0, 4], vec![0, 2], vec![2, 4]]
        ))
    );
}

#[test]
fn check_all_lines_counts_each_symbol() {
    let board = Board::new(3);
    let lines = board.check_all_lines();
    assert!(!lines.is_full_line());
    assert_eq!(lines.get_winner(), None);

    let board = board_with_line([at(0, 0), at(1, 1), at(2, 2)], PlayerSymbol::O);
    let lines = board.check_all_lines();
    assert!(lines.is_full_line());
    assert_eq!(lines.count(PlayerSymbol::O), 1);
    assert_eq!(lines.count(PlayerSymbol::X), 0);
    assert_eq!(lines.get_winner(), Some(PlayerSymbol::O));
    assert_eq!(board.check_rows(), vec![]);
    assert_eq!(board.check_columns(), vec![]);
    assert_eq!(board.check_diagonals(), vec![PlayerSymbol::O]);
}

#[test]
fn check_line_wants_one_symbol_in_every_cell() {
    let x = Field::Collapsed(PlayerSymbol::X);
    let o = Field::Collapsed(PlayerSymbol::O);
    let open = Field::Entangled(vec![None; 4]);
    assert_eq!(Board::check_line(&vec![&x, &x]), Some(PlayerSymbol::X));
    assert_eq!(Board::check_line(&vec![&o]), Some(PlayerSymbol::O));
    assert_eq!(Board::check_line(&vec![&x, &o]), None);
    assert_eq!(Board::check_line(&vec![&x, &open]), None);
    assert_eq!(Board::check_line(&vec![&open, &x]), None);
    assert_eq!(Board::check_line(&vec![]), None);
}

#[test]
fn a_board_of_side_one_has_one_cell() {
    let mut board = Board::new(1);
    assert_eq!(
        board.get_positions(),
        Array2D::filled_with(Field::Entangled(vec![None; 1]), 1, 1)
    );
    assert!(board.mark(&[at(0, 0), at(0, 0)], PlayerSymbol::X, 0).is_err());
    assert!(!board.check_all_lines().is_full_line());
    let empty = Board::new(0);
    assert!(!empty.check_all_lines().is_full_line());
    assert_eq!(empty.check_row(0), None);
}

#[test]
fn simply_collapsed_connections() {
    let mut board = Board::new(3);
    let fields_coordinates = &[
        FieldCoordinate { x: 0, y: 0 },
        FieldCoordinate { x: 1, y: 0 },
    ];
    let _ = board.mark(fields_coordinates, PlayerSymbol::X, 0);
    assert_eq!(board.edge_count(), 1);
    let _ = board.mark(fields_coordinates, PlayerSymbol::O, 1);
    assert_eq!(board.edge_count(), 1);
    let _ = board.collapse(FieldCoordinate { x: 0, y: 0 }, 0);
    let connections = Board::new(3);
    assert_eq!(connections.edge_count(), board.edge_count());
    assert_eq!(board.edge_count(), 0);
}

#[test]
fn collapse_takes_out_the_links_it_follows() {
    let mut board = Board::new(3);
    board.mark(&[at(0, 0), at(1, 0)], PlayerSymbol::X, 0).unwrap();
    board.mark(&[at(1, 0), at(2, 0)], PlayerSymbol::O, 1).unwrap();
    board.mark(&[at(2, 0), at(2, 1)], PlayerSymbol::X, 2).unwrap();
    board.mark(&[at(0, 2), at(1, 2)], PlayerSymbol::X, 4).unwrap();
    assert_eq!(board.edge_count(), 4);
    board.mark(&[at(0, 0), at(2, 0)], PlayerSymbol::O, 5).unwrap();
    assert_eq!(board.edge_count(), 4);
    board.collapse(at(1, 0), 1).unwrap();
    // only the link of the pair apart is left
    assert_eq!(board.edge_count(), 1);
}
