//! The board: the cells, the entanglement graph over them, and what a joint
//! mark and a collapse do to them.
//!
//! The cells are kept in an `Array2D` and the links in a petgraph `Graph`;
//! [`grid`] and [`graph`] say what is taken on trust of the two. [`view`] is
//! the board as a mathematical value, in which the contracts are written.

use vstd::prelude::*;
use array2d::Array2D;
use petgraph::{Graph, Undirected};
use crate::board::board_error::{BoardError, BoardErrorKind};
use crate::board::graph::{
    adjacent, connected, graph_edges, graph_nodes, is_walk, joins, linked, steps,
};
use crate::board::grid::grid_rows;
use crate::board::lines::{
    lemma_lines_fit, lemma_owners_len, lemma_tally_total, line_owner, line_view, owners, tally,
};
use crate::board::lines_result::LinesResult;
use crate::board::spread::{
    lemma_settled_reached, lemma_spread_done, lemma_spread_follows, lemma_spread_leaves,
    lemma_spread_starts, lemma_spread_takes, lemma_spreading_keeps,
    lemma_spreading_without_cycle, settled, spreading,
};
use crate::board::view::{candidates, forced_turn, lemma_shifted, lemma_visited, visited};
use crate::board::walks::{lemma_link_is_walk, lemma_swap_remove};
use crate::cycle::{view_of, without, Cycle, CycleView};
use crate::field::{Field, FieldView};
use crate::field_coordinate::{lemma_at_round_trip, lemma_index_round_trip, FieldCoordinate};
use crate::player_symbol::PlayerSymbol;

pub use crate::board::view::BoardView;

pub mod board_error;
pub mod forest;
pub mod graph;
pub mod grid;
pub mod lines;
pub mod lines_result;
pub mod marking;
pub mod resolving;
mod spread;
pub mod view;
pub mod walks;

verus! {

/// The board of a game: the cells, the entanglement graph over them, and the
/// cycle that the last cycle-closing mark found, until it is resolved.
///
/// The cell in column `x` of row `y` is node `y * size + x` of the graph. An
/// edge of weight `t` between two nodes stands for the joint mark of turn `t`
/// on the two cells.
#[derive(Debug)]
pub struct Board {
    size: usize,
    positions: Array2D<Field>,
    connections: Graph<(), usize, Undirected, usize>,
    last_cycle: Option<Cycle>,
}

/// The place that comes after place `i` on the way round a cycle of `len`
/// places.
fn next_position(i: usize, len: usize) -> (r: usize)
    requires
        i < len,
    ensures
        r == (i + 1) % (len as int),
        r == if i + 1 == len {
            0
        } else {
            i + 1
        },
{
    if i + 1 == len {
        proof {
            vstd::arithmetic::div_mod::lemma_mod_self_0(len as int);
        }
        0
    } else {
        proof {
            vstd::arithmetic::div_mod::lemma_small_mod((i + 1) as nat, len as nat);
        }
        i + 1
    }
}

/// The first place at which `coordinate` stands in `coordinates`.
fn position_of(coordinates: &[FieldCoordinate], coordinate: FieldCoordinate) -> (r: Option<usize>)
    ensures
        r matches Some(n) ==> n < coordinates@.len() && coordinates@[n as int] == coordinate
            && forall|i: int| 0 <= i < n ==> coordinates@[i] != coordinate,
        r is None ==> !coordinates@.contains(coordinate),
{
    let mut i: usize = 0;
    while i < coordinates.len()
        invariant
            i <= coordinates.len(),
            forall|k: int| 0 <= k < i ==> coordinates@[k] != coordinate,
        decreases coordinates.len() - i,
    {
        if coordinates[i] == coordinate {
            return Some(i);
        }
        i += 1;
    }
    None
}

/// Whether `turn` is one of `turns`.
fn holds_turn(turns: &Vec<usize>, turn: usize) -> (r: bool)
    ensures
        r == turns@.contains(turn),
{
    let mut i: usize = 0;
    while i < turns.len()
        invariant
            i <= turns.len(),
            forall|k: int| 0 <= k < i ==> turns@[k] != turn,
        decreases turns.len() - i,
    {
        if turns[i] == turn {
            return true;
        }
        i += 1;
    }
    false
}

impl View for Board {
    type V = BoardView;

    closed spec fn view(&self) -> BoardView {
        BoardView {
            size: self.size as nat,
            cells: Seq::new(
                (self.size * self.size) as nat,
                |k: int|
                    grid_rows(self.positions)[k / (self.size as int)][k % (self.size as int)]@,
            ),
            links: graph_edges(self.connections).to_set(),
            cycle: view_of(self.last_cycle),
        }
    }
}

impl Board {
    /// The grid has `size` rows of `size` cells, and the graph has a node for
    /// each cell.
    spec fn shaped(&self) -> bool {
        &&& self.size * self.size <= usize::MAX
        &&& grid_rows(self.positions).len() == self.size
        &&& forall|y: int| 0 <= y < self.size ==> (#[trigger] grid_rows(self.positions)[y]).len()
            == self.size
        &&& graph_nodes(self.connections) == self.size * self.size
    }

    /// What holds of every board between two moves.
    pub closed spec fn wf(&self) -> bool {
        &&& self.shaped()
        &&& graph_edges(self.connections).no_duplicates()
        &&& self@.wf()
    }

    /// A board that is well formed is so as a mathematical value too.
    pub proof fn lemma_wf_view(&self)
        requires
            self.wf(),
        ensures
            self@.wf(),
    {
    }

    /// What the cell at `c` holds, where `c` is on the board.
    proof fn lemma_cell(&self, c: FieldCoordinate)
        requires
            self.shaped(),
            c.in_range(self.size as int),
        ensures
            0 <= c.index(self.size as int) < self.size * self.size,
            self@.cell(c) == grid_rows(self.positions)[c.y as int][c.x as int]@,
    {
        lemma_index_round_trip(c, self.size as int);
    }

    /// The cell at `c`, or `None` where `c` is off the board.
    fn cell(&self, c: FieldCoordinate) -> (r: Option<&Field>)
        requires
            self.shaped(),
        ensures
            r.is_some() == c.in_range(self.size as int),
            r.is_some() ==> r.unwrap()@ == self@.cell(c),
            r.is_some() ==> c.index(self.size as int) < self.size * self.size,
    {
        let r = grid::get(&self.positions, c.y, c.x);
        proof {
            if c.in_range(self.size as int) {
                self.lemma_cell(c);
            }
        }
        r
    }

    /// Puts `field` into the cell at `c`.
    fn put(&mut self, c: FieldCoordinate, field: Field)
        requires
            old(self).shaped(),
            c.in_range(old(self).size as int),
        ensures
            final(self).shaped(),
            final(self).size == old(self).size,
            final(self).connections == old(self).connections,
            final(self).last_cycle == old(self).last_cycle,
            final(self)@.cells == old(self)@.cells.update(c.index(old(self).size as int), field@),
    {
        let ghost size = self.size as int;
        let ghost before = grid_rows(self.positions);
        proof {
            lemma_index_round_trip(c, size);
        }
        let _ = grid::set(&mut self.positions, c.y, c.x, field);
        proof {
            let after = grid_rows(self.positions);
            assert forall|k: int| 0 <= k < size * size implies #[trigger] self@.cells[k] == old(
                self,
            )@.cells.update(c.index(size), field@)[k] by {
                lemma_at_round_trip(k, size);
                let at = FieldCoordinate::at(k, size);
                if k != c.index(size) {
                    if at.y == c.y {
                        assert(at.x != c.x);
                    }
                }
            }
            assert(self@.cells =~= old(self)@.cells.update(c.index(size), field@));
        }
    }

    /// The position of the cell at `field_coordinate`.
    fn get_node(&self, field_coordinate: &FieldCoordinate) -> (r: usize)
        requires
            self.shaped(),
            field_coordinate.in_range(self.size as int),
        ensures
            r == self@.node(*field_coordinate),
            r < self.size * self.size,
    {
        proof {
            lemma_index_round_trip(*field_coordinate, self.size as int);
        }
        FieldCoordinate::into_usize(field_coordinate, self.size)
    }

    /// The turn of the link between `a` and `b`, two cells that are linked.
    fn link_turn(&self, a: usize, b: usize) -> (r: usize)
        requires
            self@.links_simple(),
            adjacent(self@.links, a, b),
        ensures
            r == self@.link_turn(a, b),
            linked(self@.links, a, b, r),
    {
        let ghost edges = graph_edges(self.connections);
        proof {
            let t = choose|t: usize| #[trigger] linked(self@.links, a, b, t);
            let link = if edges.to_set().contains((a, b, t)) {
                (a, b, t)
            } else {
                (b, a, t)
            };
            assert(edges.contains(link));
            let i = choose|i: int| 0 <= i < edges.len() && edges[i] == link;
            assert(joins(edges[i], a, b));
        }
        match graph::find_edge(&self.connections, a, b) {
            Some(edge) => {
                match graph::edge_weight(&self.connections, edge) {
                    Some(weight) => {
                        proof {
                            assert(edges.contains(edges[edge as int]));
                            assert(linked(self@.links, a, b, weight));
                            self@.lemma_link_turn(a, b, weight);
                        }
                        weight
                    },
                    None => 0,
                }
            },
            None => 0,
        }
    }

    /// The cycle that a joint mark of turn `turn` closes along `cycle`, a walk
    /// of `cycle_size` links between its two cells.
    #[verifier::rlimit(40)]
    fn map_cycle(&self, cycle_size: usize, cycle: &Vec<usize>, turn: usize) -> (r: Cycle)
        requires
            self.shaped(),
            self.size > 0,
            self@.links_simple(),
            cycle_size >= 1,
            cycle_size + 1 == cycle@.len(),
            is_walk(self@.links, cycle@, cycle@[0], cycle@[cycle_size as int]),
        ensures
            r@ == self@.closes(cycle@, turn),
    {
        let ghost path = cycle@;
        let ghost view = self@;
        let mut fields_indexes: Vec<Vec<usize>> = Vec::new();
        let mut fields_coordinates: Vec<FieldCoordinate> = Vec::new();
        let mut n: usize = 0;
        while n < cycle.len()
            invariant
                n <= cycle.len(),
                self.size > 0,
                fields_indexes@.len() == n,
                fields_coordinates@.len() == n,
                forall|j: int| 0 <= j < n ==> (#[trigger] fields_indexes@[j])@ == Seq::<
                    usize,
                >::empty(),
                forall|j: int|
                    0 <= j < n ==> #[trigger] fields_coordinates@[j] == FieldCoordinate::at(
                        cycle@[j] as int,
                        self.size as int,
                    ),
            decreases cycle.len() - n,
        {
            fields_indexes.push(Vec::new());
            fields_coordinates.push(FieldCoordinate::from_usize(cycle[n], self.size));
            n += 1;
        }
        let mut i: usize = 0;
        while i < cycle_size
            invariant
                i <= cycle_size,
                cycle_size + 1 == cycle@.len(),
                path == cycle@,
                view == self@,
                view.links_simple(),
                is_walk(view.links, path, path[0], path[cycle_size as int]),
                fields_indexes@.len() == cycle@.len(),
                forall|j: int|
                    0 <= j < i ==> (#[trigger] fields_indexes@[j])@ == if j == 0 {
                        seq![view.link_turn(path[0], path[1])]
                    } else {
                        seq![
                            view.link_turn(path[j - 1], path[j]),
                            view.link_turn(path[j], path[j + 1]),
                        ]
                    },
                i > 0 ==> fields_indexes@[i as int]@ == seq![
                    view.link_turn(path[i - 1], path[i as int]),
                ],
                i == 0 ==> fields_indexes@[0]@ == Seq::<usize>::empty(),
                forall|j: int|
                    i < j < fields_indexes@.len() ==> (#[trigger] fields_indexes@[j])@ == Seq::<
                        usize,
                    >::empty(),
            decreases cycle_size - i,
        {
            proof {
                assert(steps(view.links, path, i as int));
            }
            let weight = self.link_turn(cycle[i], cycle[i + 1]);
            let ghost before = fields_indexes@;
            fields_indexes[i].push(weight);
            fields_indexes[i + 1].push(weight);
            proof {
                assert(fields_indexes@[i as int]@ =~= before[i as int]@.push(weight));
                assert(fields_indexes@[i + 1]@ =~= before[i + 1]@.push(weight));
                assert forall|j: int| 0 <= j < i + 1 implies (#[trigger] fields_indexes@[j])@
                    == if j == 0 {
                    seq![view.link_turn(path[0], path[1])]
                } else {
                    seq![
                        view.link_turn(path[j - 1], path[j]),
                        view.link_turn(path[j], path[j + 1]),
                    ]
                } by {
                    if j < i {
                        assert(fields_indexes@[j] == before[j]);
                    } else {
                        assert(fields_indexes@[j]@ =~= if j == 0 {
                            seq![view.link_turn(path[0], path[1])]
                        } else {
                            seq![
                                view.link_turn(path[j - 1], path[j]),
                                view.link_turn(path[j], path[j + 1]),
                            ]
                        });
                    }
                }
                assert(fields_indexes@[i + 1]@ =~= seq![
                    view.link_turn(path[i as int], path[i + 1]),
                ]);
                assert forall|j: int| i + 1 < j < fields_indexes@.len() implies (
                #[trigger] fields_indexes@[j])@ == Seq::<usize>::empty() by {
                    assert(fields_indexes@[j] == before[j]);
                }
            }
            i += 1;
        }
        let ghost before = fields_indexes@;
        fields_indexes[0].push(turn);
        let ghost between = fields_indexes@;
        fields_indexes[cycle_size].push(turn);
        let r = Cycle::new(fields_coordinates, fields_indexes);
        proof {
            let want = view.closes(path, turn);
            assert(r@.coordinates =~= want.coordinates);
            assert(between[0]@ =~= before[0]@.push(turn));
            assert(fields_indexes@[cycle_size as int]@ =~= between[cycle_size as int]@.push(turn));
            assert forall|j: int| 0 <= j < path.len() implies #[trigger] r@.indexes[j]
                == want.indexes[j] by {
                if j == 0 {
                    assert(fields_indexes@[0] == between[0]);
                    assert(r@.indexes[j] =~= candidates(view.links, path, j, turn));
                } else if j == cycle_size {
                    assert(between[j] == before[j]);
                    assert(r@.indexes[j] =~= candidates(view.links, path, j, turn));
                } else {
                    assert(fields_indexes@[j] == between[j]);
                    assert(between[j] == before[j]);
                    assert(r@.indexes[j] =~= candidates(view.links, path, j, turn));
                }
            }
            assert(r@.indexes =~= want.indexes);
        }
        r
    }

    pub fn new(size: usize) -> (r: Board)
        requires
            size * size <= usize::MAX,
        ensures
            r.wf(),
            r@ == BoardView::fresh(size as nat),
    {
        let area: usize = size * size;
        let r = Board {
            size,
            positions: grid::filled_with(Field::entangled(area), size, size),
            connections: graph::with_nodes(area),
            last_cycle: None,
        };
        proof {
            assert forall|k: int| 0 <= k < r@.cells.len() implies #[trigger] r@.cells[k]
                == FieldView::empty((size * size) as nat) by {
                lemma_at_round_trip(k, size as int);
            }
            assert(r@.cells =~= BoardView::fresh(size as nat).cells);
            assert(r@.links =~= Set::<(usize, usize, usize)>::empty());
        }
        r
    }

    /// Places a joint mark of `player_symbol` on the two cells in turn `turn`.
    ///
    /// A refused mark changes nothing. An accepted one records the symbol in
    /// both cells. If a walk through the links joined the two cells before,
    /// the mark closes a cycle along a shortest such walk: the cycle is kept
    /// for the next collapse and returned. If not, the two cells are linked
    /// and nothing is returned.
    #[verifier::rlimit(40)]
    pub fn mark(
        &mut self,
        fields_coordinates: &[FieldCoordinate; 2],
        player_symbol: PlayerSymbol,
        turn: usize,
    ) -> (r: Result<Option<Cycle>, BoardError>)
        requires
            old(self).wf(),
        ensures
            final(self).wf(),
            r matches Err(e) ==> old(self)@.mark_error(
                fields_coordinates[0],
                fields_coordinates[1],
                turn,
            ) == Some(e) && final(self)@ == old(self)@,
            r matches Ok(found) ==> old(self)@.mark_error(
                fields_coordinates[0],
                fields_coordinates[1],
                turn,
            ) is None && old(self)@.marked(
                final(self)@,
                fields_coordinates[0],
                fields_coordinates[1],
                player_symbol,
                turn,
                view_of(found),
            ),
    {
        let c0 = fields_coordinates[0];
        let c1 = fields_coordinates[1];
        let ghost before = self@;
        // Check for errors
        let first = match self.cell(c0) {
            Some(field) => field,
            None => {
                return Err(BoardError::new(c0, BoardErrorKind::OutOfRange));
            },
        };
        let second = match self.cell(c1) {
            Some(field) => field,
            None => {
                return Err(BoardError::new(c1, BoardErrorKind::OutOfRange));
            },
        };
        if c0 == c1 {
            return Err(BoardError::new(c1, BoardErrorKind::SameCoordinates));
        }
        if !first.is_entangled() {
            return Err(BoardError::new(c0, BoardErrorKind::AlreadyCollapsed));
        }
        if !second.is_entangled() {
            return Err(BoardError::new(c1, BoardErrorKind::AlreadyCollapsed));
        }
        if turn >= self.size * self.size {
            return Err(BoardError::new(c0, BoardErrorKind::TurnOutOfRange));
        }
        proof {
            before.lemma_node_injective(c0, c1);
            assert(before.cells[before.node(c0) as int] matches FieldView::Entangled(slots)
                ==> slots.len() == before.area());
            assert(before.cells[before.node(c1) as int] matches FieldView::Entangled(slots)
                ==> slots.len() == before.area());
        }
        let first = first.with_mark(turn, player_symbol);
        let second = second.with_mark(turn, player_symbol);
        self.put(c0, first);
        self.put(c1, second);
        let nodes = [self.get_node(&c0), self.get_node(&c1)];

        // Check for cycle
        let path = graph::shortest_path(&self.connections, nodes[0], nodes[1]);
        match path {
            Some((cycle_size, cycle)) => {
                proof {
                    before.lemma_closed_cycle_fits(cycle@, nodes[0], nodes[1], turn);
                    before.lemma_after_mark_wf(
                        c0,
                        c1,
                        player_symbol,
                        turn,
                        Some(before.closes(cycle@, turn)),
                        cycle@,
                    );
                    assert(self@.links == before.links);
                }
                let found = self.map_cycle(cycle_size, &cycle, turn);
                proof {
                    assert(self@.closes(cycle@, turn) == before.closes(cycle@, turn));
                }
                self.last_cycle = Some(found.duplicate());
                proof {
                    assert(self@ == before.after_mark(c0, c1, player_symbol, turn, Some(found@)));
                }
                Ok(Some(found))
            },
            None => {
                let ghost edges = graph_edges(self.connections);
                graph::add_edge(&mut self.connections, nodes[0], nodes[1], turn);
                proof {
                    let link = (nodes[0], nodes[1], turn);
                    before.lemma_after_mark_wf(
                        c0,
                        c1,
                        player_symbol,
                        turn,
                        None,
                        Seq::<usize>::empty(),
                    );
                    edges.lemma_push_to_set_commute(link);
                    assert(self@.links == before.links.insert(link));
                    if edges.contains(link) {
                        assert(linked(before.links, nodes[0], nodes[1], turn));
                        lemma_link_is_walk(before.links, nodes[0], nodes[1]);
                    }
                    assert(self@ == before.after_mark(c0, c1, player_symbol, turn, None));
                }
                Ok(None)
            },
        }
    }

    /// Counts the completed rows, columns and diagonals of each symbol. A line
    /// counts for a symbol where all its cells are collapsed to that symbol.
    pub fn check_all_lines(&self) -> (r: LinesResult)
        requires
            self.wf(),
        ensures
            r@ == self@.lines(),
    {
        let mut lines_result = LinesResult::new();
        let rows = self.check_rows();
        let columns = self.check_columns();
        let diagonals = self.check_diagonals();
        proof {
            lemma_lines_fit(self.size as int);
        }
        let mut i: usize = 0;
        while i < rows.len()
            invariant
                i <= rows.len(),
                rows@.len() <= self.size,
                2 * self.size + 2 <= usize::MAX,
                lines_result@ == tally(rows@.subrange(0, i as int)),
            decreases rows.len() - i,
        {
            proof {
                lemma_tally_total(rows@.subrange(0, i as int));
                assert(rows@.subrange(0, i + 1).drop_last() =~= rows@.subrange(0, i as int));
            }
            lines_result.increase(rows[i]);
            i += 1;
        }
        assert(rows@.subrange(0, i as int) =~= rows@);
        let mut j: usize = 0;
        assert(rows@ + columns@.subrange(0, 0) =~= rows@);
        while j < columns.len()
            invariant
                j <= columns.len(),
                rows@.len() <= self.size,
                columns@.len() <= self.size,
                2 * self.size + 2 <= usize::MAX,
                lines_result@ == tally(rows@ + columns@.subrange(0, j as int)),
            decreases columns.len() - j,
        {
            proof {
                lemma_tally_total(rows@ + columns@.subrange(0, j as int));
                assert((rows@ + columns@.subrange(0, j + 1)).drop_last() =~= rows@
                    + columns@.subrange(0, j as int));
            }
            lines_result.increase(columns[j]);
            j += 1;
        }
        assert(columns@.subrange(0, j as int) =~= columns@);
        let mut k: usize = 0;
        assert(rows@ + columns@ + diagonals@.subrange(0, 0) =~= rows@ + columns@);
        while k < diagonals.len()
            invariant
                k <= diagonals.len(),
                rows@.len() <= self.size,
                columns@.len() <= self.size,
                diagonals@.len() <= 2,
                2 * self.size + 2 <= usize::MAX,
                lines_result@ == tally(rows@ + columns@ + diagonals@.subrange(0, k as int)),
            decreases diagonals.len() - k,
        {
            proof {
                lemma_tally_total(rows@ + columns@ + diagonals@.subrange(0, k as int));
                assert((rows@ + columns@ + diagonals@.subrange(0, k + 1)).drop_last() =~= rows@
                    + columns@ + diagonals@.subrange(0, k as int));
            }
            lines_result.increase(diagonals[k]);
            k += 1;
        }
        assert(diagonals@.subrange(0, k as int) =~= diagonals@);
        lines_result
    }

    /// The owners of the rows that have one, from the first row to the last.
    pub fn check_rows(&self) -> (r: Vec<PlayerSymbol>)
        requires
            self.wf(),
        ensures
            r@ == owners(self@.rows()),
            r@.len() <= self@.size,
    {
        let mut symbols: Vec<PlayerSymbol> = Vec::new();
        let mut row: usize = 0;
        assert(self@.rows().subrange(0, 0) =~= Seq::<Seq<FieldView>>::empty());
        while row < self.size
            invariant
                row <= self.size,
                self.wf(),
                symbols@ == owners(self@.rows().subrange(0, row as int)),
            decreases self.size - row,
        {
            proof {
                let next = self@.rows().subrange(0, row + 1);
                assert(next.drop_last() =~= self@.rows().subrange(0, row as int));
                assert(next.last() == self@.row(row as int));
            }
            if let Some(symbol) = self.check_row(row) {
                symbols.push(symbol);
            }
            row += 1;
        }
        proof {
            assert(self@.rows().subrange(0, row as int) =~= self@.rows());
            lemma_owners_len(self@.rows());
        }
        symbols
    }

    /// The owners of the columns that have one, from the first column to the
    /// last.
    pub fn check_columns(&self) -> (r: Vec<PlayerSymbol>)
        requires
            self.wf(),
        ensures
            r@ == owners(self@.columns()),
            r@.len() <= self@.size,
    {
        let mut symbols: Vec<PlayerSymbol> = Vec::new();
        let mut column: usize = 0;
        assert(self@.columns().subrange(0, 0) =~= Seq::<Seq<FieldView>>::empty());
        while column < self.size
            invariant
                column <= self.size,
                self.wf(),
                symbols@ == owners(self@.columns().subrange(0, column as int)),
            decreases self.size - column,
        {
            proof {
                let next = self@.columns().subrange(0, column + 1);
                assert(next.drop_last() =~= self@.columns().subrange(0, column as int));
                assert(next.last() == self@.column(column as int));
            }
            if let Some(symbol) = self.check_column(column) {
                symbols.push(symbol);
            }
            column += 1;
        }
        proof {
            assert(self@.columns().subrange(0, column as int) =~= self@.columns());
            lemma_owners_len(self@.columns());
        }
        symbols
    }

    /// The owners of the two diagonals that have one, the first diagonal
    /// before the second.
    pub fn check_diagonals(&self) -> (r: Vec<PlayerSymbol>)
        requires
            self.wf(),
        ensures
            r@ == owners(self@.diagonals()),
            r@.len() <= 2,
    {
        let mut symbols: Vec<PlayerSymbol> = Vec::new();
        if let Some(symbol) = self.check_first_diagonal() {
            symbols.push(symbol);
        }
        if let Some(symbol) = self.check_second_diagonal() {
            symbols.push(symbol);
        }
        proof {
            let both = self@.diagonals();
            let one = both.drop_last();
            assert(one.drop_last() =~= Seq::<Seq<FieldView>>::empty());
            assert(one.last() == self@.first_diagonal());
            assert(both.last() == self@.second_diagonal());
            reveal_with_fuel(owners, 3);
            assert(symbols@ =~= owners(both));
        }
        symbols
    }

    /// The owner of row `row`, if the board has that row and it has an owner.
    pub fn check_row(&self, row: usize) -> (r: Option<PlayerSymbol>)
        requires
            self.wf(),
        ensures
            r == if row < self@.size {
                line_owner(self@.row(row as int))
            } else {
                None
            },
    {
        if row >= self.size {
            return None;
        }
        let mut line: Vec<&Field> = Vec::new();
        let mut x: usize = 0;
        while x < self.size
            invariant
                x <= self.size,
                row < self.size,
                self.wf(),
                line@.len() == x,
                forall|i: int| 0 <= i < x ==> (#[trigger] line@[i])@ == self@.row(row as int)[i],
            decreases self.size - x,
        {
            let c = FieldCoordinate { x, y: row };
            match self.cell(c) {
                Some(field) => line.push(field),
                None => {},
            }
            x += 1;
        }
        assert(line_view(line@) =~= self@.row(row as int));
        Board::check_line(&line)
    }

    /// The owner of column `column`, if the board has that column and it has
    /// an owner.
    pub fn check_column(&self, column: usize) -> (r: Option<PlayerSymbol>)
        requires
            self.wf(),
        ensures
            r == if column < self@.size {
                line_owner(self@.column(column as int))
            } else {
                None
            },
    {
        if column >= self.size {
            return None;
        }
        let mut line: Vec<&Field> = Vec::new();
        let mut y: usize = 0;
        while y < self.size
            invariant
                y <= self.size,
                column < self.size,
                self.wf(),
                line@.len() == y,
                forall|i: int|
                    0 <= i < y ==> (#[trigger] line@[i])@ == self@.column(column as int)[i],
            decreases self.size - y,
        {
            let c = FieldCoordinate { x: column, y };
            match self.cell(c) {
                Some(field) => line.push(field),
                None => {},
            }
            y += 1;
        }
        assert(line_view(line@) =~= self@.column(column as int));
        Board::check_line(&line)
    }

    /// The owner of the first diagonal, if it has one.
    pub fn check_first_diagonal(&self) -> (r: Option<PlayerSymbol>)
        requires
            self.wf(),
        ensures
            r == line_owner(self@.first_diagonal()),
    {
        let mut line: Vec<&Field> = Vec::new();
        let mut i: usize = 0;
        while i < self.size
            invariant
                i <= self.size,
                self.wf(),
                line@.len() == i,
                forall|k: int| 0 <= k < i ==> (#[trigger] line@[k])@ == self@.first_diagonal()[k],
            decreases self.size - i,
        {
            let c = FieldCoordinate { x: i, y: i };
            match self.cell(c) {
                Some(field) => line.push(field),
                None => {},
            }
            i += 1;
        }
        assert(line_view(line@) =~= self@.first_diagonal());
        Board::check_line(&line)
    }

    /// The owner of the second diagonal, if it has one.
    pub fn check_second_diagonal(&self) -> (r: Option<PlayerSymbol>)
        requires
            self.wf(),
        ensures
            r == line_owner(self@.second_diagonal()),
    {
        let mut line: Vec<&Field> = Vec::new();
        let mut i: usize = 0;
        while i < self.size
            invariant
                i <= self.size,
                self.wf(),
                line@.len() == i,
                forall|k: int| 0 <= k < i ==> (#[trigger] line@[k])@ == self@.second_diagonal()[k],
            decreases self.size - i,
        {
            let c = FieldCoordinate { x: self.size - i - 1, y: i };
            match self.cell(c) {
                Some(field) => line.push(field),
                None => {},
            }
            i += 1;
        }
        assert(line_view(line@) =~= self@.second_diagonal());
        Board::check_line(&line)
    }

    /// The owner of a line of cells, if it has one.
    pub fn check_line(line: &Vec<&Field>) -> (r: Option<PlayerSymbol>)
        ensures
            r == line_owner(line_view(line@)),
    {
        if line.len() == 0 {
            return None;
        }
        let first = match line[0] {
            Field::Entangled(_) => {
                return None;
            },
            Field::Collapsed(symbol) => *symbol,
        };
        let ghost cells = line_view(line@);
        let mut i: usize = 0;
        while i < line.len()
            invariant
                i <= line.len(),
                cells == line_view(line@),
                cells[0] == FieldView::Collapsed(first),
                forall|k: int| 0 <= k < i ==> #[trigger] cells[k] == cells[0],
            decreases line.len() - i,
        {
            match line[i] {
                Field::Entangled(_) => {
                    assert(cells[i as int] != cells[0]);
                    return None;
                },
                Field::Collapsed(symbol) => {
                    if *symbol != first {
                        assert(cells[i as int] != cells[0]);
                        return None;
                    }
                },
            }
            i += 1;
        }
        Some(first)
    }

    /// The symbols that a walk round `cycle` forces on the cells it visits,
    /// in the order of its steps, or the failure of the first step that
    /// fails. The walk starts with turn `index` on the first cell of the
    /// cycle.
    #[verifier::rlimit(40)]
    fn plan_walk(&self, cycle: &mut Cycle, index: usize) -> (r: Result<
        Vec<PlayerSymbol>,
        BoardError,
    >)
        requires
            self.shaped(),
            old(cycle)@.wf(),
            old(cycle)@.coordinates.len() >= 2,
            forall|i: int|
                0 <= i < old(cycle)@.coordinates.len() ==> (#[trigger] old(
                    cycle,
                )@.coordinates[i]).in_range(self.size as int),
        ensures
            final(cycle)@.coordinates == old(cycle)@.coordinates,
            final(cycle)@.wf(),
            r matches Err(e) ==> self@.walk_error(
                old(cycle)@,
                index,
                old(cycle)@.coordinates.len(),
            ) == Some(e),
            r matches Ok(plan) ==> {
                &&& self@.walk_error(old(cycle)@, index, old(cycle)@.coordinates.len()) is None
                &&& plan@.len() == old(cycle)@.coordinates.len()
                &&& forall|step: nat|
                    step < plan@.len() ==> Some(#[trigger] plan@[step as int])
                        == self@.forced_symbol(old(cycle)@, index, step)
            },
    {
        let ghost s = cycle@;
        let cycle_len = cycle.len();
        let mut plan: Vec<PlayerSymbol> = Vec::new();
        let mut last_edge_weight = index;
        let mut i: usize = 0;
        while i < cycle_len
            invariant
                i <= cycle_len,
                cycle_len == s.coordinates.len(),
                cycle_len >= 2,
                s == old(cycle)@,
                s.wf(),
                self.shaped(),
                forall|k: int|
                    0 <= k < s.coordinates.len() ==> (#[trigger] s.coordinates[k]).in_range(
                        self.size as int,
                    ),
                cycle@.coordinates == s.coordinates,
                cycle@.indexes.len() == s.indexes.len(),
                forall|p: int|
                    0 <= p < s.indexes.len() && (p > i || (p == 0 && i < cycle_len))
                        ==> #[trigger] cycle@.indexes[p] == s.indexes[p],
                self@.walk_error(s, index, i as nat) is None,
                i == 0 ==> last_edge_weight == index,
                i > 0 ==> Some(last_edge_weight) == forced_turn(s, index, (i - 1) as nat),
                plan@.len() == i,
                forall|step: nat|
                    step < i ==> Some(#[trigger] plan@[step as int]) == self@.forced_symbol(
                        s,
                        index,
                        step,
                    ),
            decreases cycle_len - i,
        {
            let position = next_position(i, cycle_len);
            let field_coordinate = *cycle.get_field_coordinate(position);
            let ghost used = last_edge_weight;
            proof {
                assert(position == visited(s, i as nat));
                assert(cycle@.indexes[position as int] == s.indexes[position as int]);
                assert(forced_turn(s, index, i as nat) == if without(
                    s.indexes[position as int],
                    used,
                ).len() > 0 {
                    Some(without(s.indexes[position as int], used)[0])
                } else {
                    None
                });
            }
            proof {
                assert(self@.walk_error(s, index, (i + 1) as nat) == self@.step_error(
                    s,
                    index,
                    i as nat,
                ));
                if self@.step_error(s, index, i as nat) is Some {
                    self@.lemma_walk_error_stays(s, index, (i + 1) as nat, cycle_len as nat);
                }
            }
            if !cycle.has_other(position, last_edge_weight) {
                return Err(BoardError::new(field_coordinate, BoardErrorKind::Unresolvable));
            }
            last_edge_weight = cycle.remove(position, last_edge_weight);
            assert(Some(last_edge_weight) == forced_turn(s, index, i as nat));
            let player_symbol = match self.get_player_symbol_from_entangled(
                &field_coordinate,
                last_edge_weight,
            ) {
                Ok(player_symbol) => player_symbol,
                Err(e) => {
                    return Err(e);
                },
            };
            plan.push(player_symbol);
            i += 1;
        }
        Ok(plan)
    }

    /// The symbol that the cell at `field_coordinate` recorded in turn
    /// `index`, where the cell is entangled and holds one.
    fn get_player_symbol_from_entangled(&self, field_coordinate: &FieldCoordinate, index: usize)
        -> (r: Result<PlayerSymbol, BoardError>)
        requires
            self.shaped(),
            field_coordinate.in_range(self.size as int),
        ensures
            r matches Ok(symbol) ==> self@.cell(*field_coordinate).symbol_at(index as int) == Some(
                symbol,
            ),
            r matches Err(e) ==> self@.cell(*field_coordinate).symbol_at(index as int) is None
                && e.field_coordinate == *field_coordinate && e.kind == if self@.cell(
                *field_coordinate,
            ) is Collapsed {
                BoardErrorKind::AlreadyCollapsed
            } else {
                BoardErrorKind::Unresolvable
            },
    {
        match self.cell(*field_coordinate) {
            Some(field) => {
                if !field.is_entangled() {
                    return Err(
                        BoardError::new(*field_coordinate, BoardErrorKind::AlreadyCollapsed),
                    );
                }
                match field.symbol_at(index) {
                    Some(symbol) => Ok(symbol),
                    None => Err(BoardError::new(*field_coordinate, BoardErrorKind::Unresolvable)),
                }
            },
            None => Err(BoardError::new(*field_coordinate, BoardErrorKind::Unresolvable)),
        }
    }

    /// Collapses the cell at `field_coordinate` to `player_symbol`.
    fn set_collapse(&mut self, field_coordinate: &FieldCoordinate, player_symbol: PlayerSymbol)
        requires
            old(self).shaped(),
            field_coordinate.in_range(old(self).size as int),
        ensures
            final(self).shaped(),
            final(self).size == old(self).size,
            final(self).connections == old(self).connections,
            final(self).last_cycle == old(self).last_cycle,
            final(self)@.cells == old(self)@.cells.update(
                old(self)@.node(*field_coordinate) as int,
                FieldView::Collapsed(player_symbol),
            ),
    {
        proof {
            lemma_index_round_trip(*field_coordinate, self.size as int);
        }
        self.put(*field_coordinate, Field::Collapsed(player_symbol));
    }

    /// Takes out the link between the cells at the two coordinates, if there
    /// is one, and says whether there was.
    #[verifier::rlimit(40)]
    fn remove_edge(
        &mut self,
        first_coordinate: &FieldCoordinate,
        second_coordinate: &FieldCoordinate,
    ) -> (removed: bool)
        requires
            old(self).shaped(),
            graph_edges(old(self).connections).no_duplicates(),
            old(self)@.links_simple(),
            first_coordinate.in_range(old(self).size as int),
            second_coordinate.in_range(old(self).size as int),
        ensures
            final(self).shaped(),
            graph_edges(final(self).connections).no_duplicates(),
            final(self).size == old(self).size,
            final(self).positions == old(self).positions,
            final(self).last_cycle == old(self).last_cycle,
            final(self)@.links.subset_of(old(self)@.links),
            !adjacent(
                final(self)@.links,
                old(self)@.node(*first_coordinate),
                old(self)@.node(*second_coordinate),
            ),
            forall|l: (usize, usize, usize)|
                old(self)@.links.contains(l) && !joins(
                    l,
                    old(self)@.node(*first_coordinate),
                    old(self)@.node(*second_coordinate),
                ) ==> #[trigger] final(self)@.links.contains(l),
            graph_edges(final(self).connections).len() + (if removed {
                1int
            } else {
                0int
            }) == graph_edges(old(self).connections).len(),
            removed == adjacent(
                old(self)@.links,
                old(self)@.node(*first_coordinate),
                old(self)@.node(*second_coordinate),
            ),
    {
        let a = self.get_node(first_coordinate);
        let b = self.get_node(second_coordinate);
        let ghost edges = graph_edges(self.connections);
        let ghost links = self@.links;
        if let Some(edge) = graph::find_edge(&self.connections, a, b) {
            let _ = graph::remove_edge(&mut self.connections, edge);
            proof {
                let gone = edges[edge as int];
                lemma_swap_remove(edges, edge as int);
                assert(edges.contains(gone));
                assert(linked(links, a, b, gone.2));
                assert forall|t: usize| !linked(self@.links, a, b, t) by {
                    if linked(self@.links, a, b, t) {
                        assert(linked(links, a, b, t));
                        assert(linked(links, a, b, gone.2));
                        if self@.links.contains((a, b, t)) {
                            assert(links.contains((a, b, t)));
                            assert((a, b, t) != gone);
                            assert(gone == (b, a, t));
                        } else {
                            assert(links.contains((b, a, t)));
                            assert((b, a, t) != gone);
                            assert(gone == (a, b, t));
                        }
                    }
                }
            }
            true
        } else {
            proof {
                assert forall|t: usize| !linked(self@.links, a, b, t) by {
                    if linked(self@.links, a, b, t) {
                        let l = if links.contains((a, b, t)) {
                            (a, b, t)
                        } else {
                            (b, a, t)
                        };
                        assert(edges.contains(l));
                        let i = choose|i: int| 0 <= i < edges.len() && edges[i] == l;
                        assert(joins(edges[i], a, b));
                    }
                }
            }
            false
        }
    }

    /// Collapses the cells of `cycle` to the symbols of `plan`: the cell that
    /// step `i` of the walk visits to `plan[i]`.
    #[verifier::rlimit(40)]
    fn collapse_cycle(&mut self, cycle: &Cycle, plan: &Vec<PlayerSymbol>)
        requires
            old(self).shaped(),
            cycle@.wf(),
            plan@.len() == cycle@.coordinates.len(),
            forall|i: int|
                0 <= i < cycle@.coordinates.len() ==> (#[trigger] cycle@.coordinates[i]).in_range(
                    old(self).size as int,
                ),
            forall|i: int, j: int|
                0 <= i < j < cycle@.coordinates.len() ==> cycle@.coordinates[i]
                    != cycle@.coordinates[j],
        ensures
            final(self).shaped(),
            final(self).size == old(self).size,
            final(self).connections == old(self).connections,
            final(self).last_cycle == old(self).last_cycle,
            final(self)@.cells.len() == old(self)@.cells.len(),
            forall|step: nat|
                step < plan@.len() ==> #[trigger] final(self)@.cell(
                    cycle@.coordinates[visited(cycle@, step)],
                ) == FieldView::Collapsed(plan@[step as int]),
            forall|k: int|
                0 <= k < old(self)@.cells.len() && (forall|i: int|
                    0 <= i < cycle@.coordinates.len() ==> old(self)@.node(
                        #[trigger] cycle@.coordinates[i],
                    ) != k) ==> #[trigger] final(self)@.cells[k] == old(self)@.cells[k],
    {
        let ghost s = cycle@;
        let ghost before = self@;
        let cycle_len = cycle.len();
        let mut i: usize = 0;
        while i < cycle_len
            invariant
                i <= cycle_len,
                cycle_len == s.coordinates.len(),
                s == cycle@,
                s.wf(),
                plan@.len() == cycle_len,
                self.shaped(),
                self.size == old(self).size,
                self.connections == old(self).connections,
                self.last_cycle == old(self).last_cycle,
                before == old(self)@,
                self@.cells.len() == before.cells.len(),
                forall|k: int|
                    0 <= k < s.coordinates.len() ==> (#[trigger] s.coordinates[k]).in_range(
                        self.size as int,
                    ),
                forall|p: int, q: int|
                    0 <= p < q < s.coordinates.len() ==> s.coordinates[p] != s.coordinates[q],
                forall|step: nat|
                    step < i ==> #[trigger] self@.cell(s.coordinates[visited(s, step)])
                        == FieldView::Collapsed(plan@[step as int]),
                forall|k: int|
                    0 <= k < before.cells.len() && (forall|j: int|
                        0 <= j < s.coordinates.len() ==> before.node(#[trigger] s.coordinates[j])
                            != k) ==> #[trigger] self@.cells[k] == before.cells[k],
            decreases cycle_len - i,
        {
            let position = next_position(i, cycle_len);
            let field_coordinate = *cycle.get_field_coordinate(position);
            let ghost earlier = self@;
            self.set_collapse(&field_coordinate, plan[i]);
            proof {
                lemma_visited(s, i as nat);
                lemma_index_round_trip(field_coordinate, self.size as int);
                assert forall|step: nat| step < i + 1 implies #[trigger] self@.cell(
                    s.coordinates[visited(s, step)],
                ) == FieldView::Collapsed(plan@[step as int]) by {
                    lemma_visited(s, step);
                    let c = s.coordinates[visited(s, step)];
                    lemma_index_round_trip(c, self.size as int);
                    if step < i {
                        assert(earlier.cell(c) == FieldView::Collapsed(plan@[step as int]));
                        assert(c != field_coordinate);
                    }
                }
                assert forall|k: int|
                    0 <= k < before.cells.len() && (forall|j: int|
                        0 <= j < s.coordinates.len() ==> before.node(#[trigger] s.coordinates[j])
                            != k) implies #[trigger] self@.cells[k] == before.cells[k] by {
                    assert(before.node(s.coordinates[position as int]) != k);
                    assert(earlier.cells[k] == before.cells[k]);
                }
            }
            i += 1;
        }
    }

    /// Takes out the links between the cells of `cycle` that follow one
    /// another on the way round, and leaves every other link.
    #[verifier::rlimit(40)]
    fn remove_cycle_edges(&mut self, cycle: &Cycle)
        requires
            old(self).shaped(),
            graph_edges(old(self).connections).no_duplicates(),
            old(self)@.links_simple(),
            cycle@.wf(),
            forall|i: int|
                0 <= i < cycle@.coordinates.len() ==> (#[trigger] cycle@.coordinates[i]).in_range(
                    old(self).size as int,
                ),
        ensures
            final(self).shaped(),
            graph_edges(final(self).connections).no_duplicates(),
            final(self).size == old(self).size,
            final(self).positions == old(self).positions,
            final(self).last_cycle == old(self).last_cycle,
            final(self)@.links.subset_of(old(self)@.links),
            forall|l: (usize, usize, usize)| #[trigger]
                final(self)@.links.contains(l) <==> old(self)@.links.contains(l) && !old(
                    self,
                )@.on_round(cycle@, cycle@.coordinates.len() as int, l),
            forall|a: usize, b: usize, t: usize| #[trigger]
                old(self)@.links.contains((a, b, t)) ==> final(self)@.links.contains((a, b, t)) || (
                exists|i: int|
                    0 <= i < cycle@.coordinates.len() && old(self)@.node(
                        #[trigger] cycle@.coordinates[i],
                    ) == a) && (exists|i: int|
                    0 <= i < cycle@.coordinates.len() && old(self)@.node(
                        #[trigger] cycle@.coordinates[i],
                    ) == b),
    {
        let ghost s = cycle@;
        let ghost before = self@;
        let cycle_len = cycle.len();
        let mut i: usize = 0;
        while i < cycle_len
            invariant
                i <= cycle_len,
                forall|l: (usize, usize, usize)| #[trigger]
                    self@.links.contains(l) <==> before.links.contains(l) && !before.on_round(
                        s,
                        i as int,
                        l,
                    ),
                cycle_len == s.coordinates.len(),
                s == cycle@,
                self.shaped(),
                graph_edges(self.connections).no_duplicates(),
                self.size == old(self).size,
                self.positions == old(self).positions,
                self.last_cycle == old(self).last_cycle,
                before == old(self)@,
                before.links_simple(),
                self@.links.subset_of(before.links),
                forall|k: int|
                    0 <= k < s.coordinates.len() ==> (#[trigger] s.coordinates[k]).in_range(
                        self.size as int,
                    ),
                forall|a: usize, b: usize, t: usize| #[trigger]
                    before.links.contains((a, b, t)) ==> self@.links.contains((a, b, t)) || (
                    exists|j: int|
                        0 <= j < s.coordinates.len() && before.node(#[trigger] s.coordinates[j])
                            == a) && (exists|j: int|
                        0 <= j < s.coordinates.len() && before.node(#[trigger] s.coordinates[j])
                            == b),
            decreases cycle_len - i,
        {
            let position = next_position(i, cycle_len);
            let field_coordinate = *cycle.get_field_coordinate(position);
            let last_field_coordinate = *cycle.get_field_coordinate(i);
            let ghost earlier = self@;
            proof {
                before.lemma_fewer_links_simple(earlier);
            }
            self.remove_edge(&field_coordinate, &last_field_coordinate);
            proof {
                let x = before.node(field_coordinate);
                let y = before.node(last_field_coordinate);
                assert(position == visited(s, i as nat));
                assert forall|l: (usize, usize, usize)| #[trigger]
                    self@.links.contains(l) <==> before.links.contains(l) && !before.on_round(
                        s,
                        i + 1,
                        l,
                    ) by {
                    let (a, b, t) = l;
                    assert(before.round_link(s, i as int, l) == joins(l, x, y));
                    if self@.links.contains(l) {
                        assert(earlier.links.contains(l));
                        if joins(l, x, y) {
                            assert(linked(self@.links, x, y, t));
                        }
                        if before.on_round(s, i + 1, l) {
                            let j = choose|j: int|
                                0 <= j < i + 1 && #[trigger] before.round_link(s, j, l);
                            if j < i {
                                assert(before.on_round(s, i as int, l));
                            }
                        }
                    }
                    if before.links.contains(l) && !before.on_round(s, i + 1, l) {
                        assert(!before.on_round(s, i as int, l)) by {
                            if before.on_round(s, i as int, l) {
                                let j = choose|j: int|
                                    0 <= j < i && #[trigger] before.round_link(s, j, l);
                                assert(before.round_link(s, j, l));
                            }
                        }
                        assert(earlier.links.contains(l));
                        assert(!before.round_link(s, i as int, l));
                    }
                }
                assert forall|a: usize, b: usize, t: usize| #[trigger]
                    before.links.contains((a, b, t)) implies self@.links.contains((a, b, t)) || (
                exists|j: int|
                    0 <= j < s.coordinates.len() && before.node(#[trigger] s.coordinates[j]) == a)
                    && (exists|j: int|
                    0 <= j < s.coordinates.len() && before.node(#[trigger] s.coordinates[j])
                        == b) by {
                    if earlier.links.contains((a, b, t)) && !self@.links.contains((a, b, t)) {
                        assert(joins((a, b, t), x, y));
                        assert(before.node(s.coordinates[position as int]) == x);
                        assert(before.node(s.coordinates[i as int]) == y);
                    }
                }
            }
            i += 1;
        }
    }

    /// Follows the links of the collapsed cell at `node`: each entangled cell
    /// at the other end of one is collapsed to the symbol that it recorded
    /// for that link, the link is taken out, and the cell joins
    /// `nodes_indexes`, the cells whose links are still to be followed.
    #[verifier::rlimit(40)]
    fn spread_from(
        &mut self,
        node: usize,
        nodes_indexes: &mut Vec<usize>,
        Ghost(start): Ghost<BoardView>,
        Ghost(s): Ghost<CycleView>,
        Ghost(index): Ghost<usize>,
    )
        requires
            old(self).shaped(),
            graph_edges(old(self).connections).no_duplicates(),
            start.wf(),
            settled(start, old(self)@, node),
            spreading(start, s, index, old(self)@, old(nodes_indexes)@, Some(node)),
        ensures
            final(self).shaped(),
            graph_edges(final(self).connections).no_duplicates(),
            final(self).last_cycle == old(self).last_cycle,
            spreading(start, s, index, final(self)@, final(nodes_indexes)@, None),
            graph_edges(final(self).connections).len() + final(nodes_indexes)@.len() == graph_edges(
                old(self).connections,
            ).len() + old(nodes_indexes)@.len(),
            final(nodes_indexes)@.len() >= old(nodes_indexes)@.len(),
    {
        proof {
            lemma_settled_reached(start, self@, node);
            lemma_spreading_keeps(start, s, index, self@, nodes_indexes@, Some(node));
            lemma_at_round_trip(node as int, self.size as int);
        }
        let neighbors = graph::neighbors(&self.connections, node);
        let ghost first_edges = graph_edges(self.connections);
        let node_coordinate = FieldCoordinate::from_usize(node, self.size);
        let mut j: usize = 0;
        while j < neighbors.len()
            invariant
                j <= neighbors.len(),
                self.shaped(),
                graph_edges(self.connections).no_duplicates(),
                self.last_cycle == old(self).last_cycle,
                self.size == start.size,
                self.size > 0,
                start.wf(),
                node < start.area(),
                node_coordinate == FieldCoordinate::at(node as int, self.size as int),
                node_coordinate.in_range(self.size as int),
                node_coordinate.index(self.size as int) == node,
                settled(start, self@, node),
                spreading(start, s, index, self@, nodes_indexes@, Some(node)),
                self@.links.subset_of(first_edges.to_set()),
                forall|i: int, other: usize|
                    0 <= i < first_edges.len() && joins(#[trigger] first_edges[i], node, other)
                        ==> #[trigger] neighbors@.contains(other),
                forall|k: int|
                    0 <= k < j ==> !adjacent(self@.links, node, #[trigger] neighbors@[k]),
                graph_edges(self.connections).len() + nodes_indexes@.len() == graph_edges(
                    old(self).connections,
                ).len() + old(nodes_indexes)@.len(),
                nodes_indexes@.len() >= old(nodes_indexes)@.len(),
            decreases neighbors.len() - j,
        {
            let neighbor = neighbors[j];
            let ghost earlier = self@;
            let ghost pending = nodes_indexes@;
            let ghost edges = graph_edges(self.connections);
            if let Some(edge) = graph::find_edge(&self.connections, node, neighbor) {
                if let Some(weight) = graph::edge_weight(&self.connections, edge) {
                    proof {
                        lemma_spreading_keeps(start, s, index, earlier, pending, Some(node));
                        assert(edges.contains(edges[edge as int]));
                        assert(linked(earlier.links, node, neighbor, weight));
                        assert(linked(start.links, node, neighbor, weight));
                        start.lemma_link_in_range(node, neighbor, weight);
                        lemma_at_round_trip(neighbor as int, self.size as int);
                        start.lemma_fewer_links_simple(earlier);
                    }
                    let neighbor_coordinate = FieldCoordinate::from_usize(neighbor, self.size);
                    if let Ok(player_symbol) = self.get_player_symbol_from_entangled(
                        &neighbor_coordinate,
                        weight,
                    ) {
                        self.set_collapse(&neighbor_coordinate, player_symbol);
                    }
                    self.remove_edge(&node_coordinate, &neighbor_coordinate);
                    nodes_indexes.push(neighbor);
                    proof {
                        lemma_spread_follows(
                            start,
                            s,
                            index,
                            earlier,
                            self@,
                            pending,
                            node,
                            neighbor,
                            weight,
                        );
                        assert forall|k: int| 0 <= k < j + 1 implies !adjacent(
                            self@.links,
                            node,
                            #[trigger] neighbors@[k],
                        ) by {
                            if k < j && adjacent(self@.links, node, neighbors@[k]) {
                                let t = choose|t: usize| #[trigger]
                                    linked(self@.links, node, neighbors@[k], t);
                                assert(linked(earlier.links, node, neighbors@[k], t));
                            }
                        }
                    }
                }
            } else {
                proof {
                    if adjacent(earlier.links, node, neighbor) {
                        let t = choose|t: usize| #[trigger]
                            linked(earlier.links, node, neighbor, t);
                        let l = if earlier.links.contains((node, neighbor, t)) {
                            (node, neighbor, t)
                        } else {
                            (neighbor, node, t)
                        };
                        assert(edges.contains(l));
                        let i = choose|i: int| 0 <= i < edges.len() && edges[i] == l;
                        assert(joins(edges[i], node, neighbor));
                    }
                }
            }
            j += 1;
        }
        proof {
            let now = self@;
            assert forall|a: usize, b: usize, t: usize| #[trigger]
                now.links.contains((a, b, t)) implies a != node && b != node by {
                if a == node || b == node {
                    let other = if a == node {
                        b
                    } else {
                        a
                    };
                    assert(first_edges.contains((a, b, t)));
                    let i = choose|i: int|
                        0 <= i < first_edges.len() && first_edges[i] == (a, b, t);
                    assert(joins(first_edges[i], node, other));
                    assert(neighbors@.contains(other));
                    let k = choose|k: int| 0 <= k < neighbors@.len() && neighbors@[k] == other;
                    assert(!adjacent(now.links, node, neighbors@[k]));
                    assert(linked(now.links, node, other, t));
                }
            }
            lemma_spread_leaves(start, s, index, now, nodes_indexes@, node);
        }
    }

    /// Follows the links of the cells of `nodes_indexes`, and of the cells
    /// that are collapsed on the way, until none is left to follow.
    fn spread(
        &mut self,
        nodes_indexes: Vec<usize>,
        Ghost(start): Ghost<BoardView>,
        Ghost(s): Ghost<CycleView>,
        Ghost(index): Ghost<usize>,
    )
        requires
            old(self).shaped(),
            graph_edges(old(self).connections).no_duplicates(),
            start.wf(),
            spreading(start, s, index, old(self)@, nodes_indexes@, None),
        ensures
            final(self).shaped(),
            graph_edges(final(self).connections).no_duplicates(),
            final(self).last_cycle == old(self).last_cycle,
            spreading(start, s, index, final(self)@, Seq::<usize>::empty(), None),
    {
        let mut nodes_indexes = nodes_indexes;
        while nodes_indexes.len() > 0
            invariant
                self.shaped(),
                graph_edges(self.connections).no_duplicates(),
                self.last_cycle == old(self).last_cycle,
                start.wf(),
                spreading(start, s, index, self@, nodes_indexes@, None),
            decreases graph_edges(self.connections).len(), nodes_indexes@.len(),
        {
            proof {
                lemma_spread_takes(start, s, index, self@, nodes_indexes@);
            }
            let node = match nodes_indexes.pop() {
                Some(node) => node,
                None => 0,
            };
            self.spread_from(node, &mut nodes_indexes, Ghost(start), Ghost(s), Ghost(index));
        }
        proof {
            assert(nodes_indexes@ =~= Seq::<usize>::empty());
        }
    }

    /// Resolves the waiting cycle, starting at the cell at
    /// `field_coordinate` with its candidate turn `index`.
    ///
    /// A refused collapse changes nothing. An accepted one walks round the
    /// cycle from that cell and collapses each cell to the symbol that the
    /// walk forces on it, then collapses every entangled cell that a walk
    /// through the links reaches from there, each to the symbol that it
    /// recorded for the link by which it is reached, and takes out every link
    /// that it followed. No cycle waits afterwards.
    #[verifier::rlimit(40)]
    pub fn collapse(&mut self, field_coordinate: FieldCoordinate, index: usize) -> (r: Result<
        (),
        BoardError,
    >)
        requires
            old(self).wf(),
        ensures
            final(self).wf(),
            r matches Err(e) ==> old(self)@.collapse_error(field_coordinate, index) == Some(e)
                && final(self)@ == old(self)@,
            r is Ok ==> old(self)@.collapse_error(field_coordinate, index) is None && old(
                self,
            )@.resolved(final(self)@, field_coordinate, index),
            r is Ok ==> forall|k: usize| #[trigger]
                old(self)@.in_cycle(k) ==> final(self)@.cells[k as int] is Collapsed,
            r is Ok ==> forall|k: usize, j: usize|
                old(self)@.in_cycle(k) && #[trigger] connected(final(self)@.links, k, j) ==> j == k,
            r is Ok ==> forall|a: usize, b: usize, t: usize| #[trigger]
                final(self)@.links.contains((a, b, t)) ==> final(self)@.cells[a as int] is Entangled
                    && final(self)@.cells[b as int] is Entangled,
    {
        let ghost start = self@;
        // Check for errors
        let mut last_cycle = match &self.last_cycle {
            Some(cycle) => cycle.duplicate(),
            None => {
                return Err(BoardError::new(field_coordinate, BoardErrorKind::NoCycle));
            },
        };
        let ghost c = last_cycle@;
        let n = match position_of(last_cycle.get_fields_coordinate(), field_coordinate) {
            Some(n) => n,
            None => {
                return Err(BoardError::new(field_coordinate, BoardErrorKind::NotInCycle));
            },
        };
        assert(c.position(field_coordinate) == n);
        if !holds_turn(&last_cycle.get_fields_indexes()[n], index) {
            return Err(BoardError::new(field_coordinate, BoardErrorKind::IndexNotInCycle));
        }
        //Collapse cycle

        last_cycle.shift(n);
        let ghost s = last_cycle@;
        proof {
            assert forall|i: int| 0 <= i < s.coordinates.len() implies (
            #[trigger] s.coordinates[i]).in_range(self.size as int) by {
                lemma_shifted(c, n as int, i);
            }
            assert forall|i: int, j: int| 0 <= i < j < s.coordinates.len() implies s.coordinates[i]
                != s.coordinates[j] by {
                lemma_shifted(c, n as int, i);
                lemma_shifted(c, n as int, j);
            }
            lemma_shifted(c, n as int, 0);
        }
        let plan = match self.plan_walk(&mut last_cycle, index) {
            Ok(plan) => plan,
            Err(e) => {
                return Err(e);
            },
        };
        let ghost walked = last_cycle@;
        self.collapse_cycle(&last_cycle, &plan);
        let ghost forced = self@;
        proof {
            start.lemma_fewer_links_simple(self@);
        }
        self.remove_cycle_edges(&last_cycle);
        proof {
            assert(self@.cells == forced.cells);
            assert forall|step: nat| step < s.coordinates.len() implies #[trigger] forced.cell(
                s.coordinates[visited(s, step)],
            ) == FieldView::Collapsed(plan@[step as int]) by {
                assert(visited(walked, step) == visited(s, step));
                assert(forced.cell(walked.coordinates[visited(walked, step)])
                    == FieldView::Collapsed(plan@[step as int]));
            }
        }

        //Collapse outside cycle
        let mut nodes_indexes: Vec<usize> = Vec::new();
        let cycle_len = last_cycle.len();
        let mut i: usize = 0;
        while i < cycle_len
            invariant
                i <= cycle_len,
                cycle_len == s.coordinates.len(),
                self.shaped(),
                self@.size == start.size,
                last_cycle@.coordinates == s.coordinates,
                forall|k: int|
                    0 <= k < s.coordinates.len() ==> (#[trigger] s.coordinates[k]).in_range(
                        self.size as int,
                    ),
                nodes_indexes@.len() == i,
                forall|k: int|
                    0 <= k < i ==> #[trigger] nodes_indexes@[k] == start.node(s.coordinates[k]),
            decreases cycle_len - i,
        {
            let node = self.get_node(last_cycle.get_field_coordinate(i));
            nodes_indexes.push(node);
            i += 1;
        }
        proof {
            lemma_spread_starts(start, n as int, index, forced, self@, nodes_indexes@, plan@);
        }
        self.spread(nodes_indexes, Ghost(start), Ghost(s), Ghost(index));
        let ghost spread = self@;
        self.last_cycle = None;
        proof {
            vstd::seq_lib::seq_to_set_is_finite(graph_edges(self.connections));
            assert(self@ == BoardView { cycle: None, ..spread });
            lemma_spreading_without_cycle(start, s, index, spread);
            lemma_spread_done(start, s, index, self@, field_coordinate);
            start.lemma_collapse_cuts_off(self@, field_coordinate, index);
        }
        Ok(())
    }

    /// A snapshot of the cells: a grid of `size` rows and `size` columns whose
    /// cell in row `y` and column `x` holds what the cell at `(x, y)` holds.
    pub fn get_positions(&self) -> (r: Array2D<Field>)
        requires
            self.wf(),
        ensures
            grid_rows(r).len() == self@.size,
            forall|y: int| 0 <= y < self@.size ==> (#[trigger] grid_rows(r)[y]).len() == self@.size,
            forall|c: FieldCoordinate|
                c.in_range(self@.size as int) ==> (#[trigger] grid_rows(r)[c.y as int][c.x as int])@
                    == self@.cell(c),
    {
        let r = grid::duplicate(&self.positions);
        proof {
            assert forall|c: FieldCoordinate| c.in_range(self@.size as int) implies (
            #[trigger] grid_rows(r)[c.y as int][c.x as int])@ == self@.cell(c) by {
                self.lemma_cell(c);
            }
        }
        r
    }

    /// The number of links: of joint marks that are not resolved yet.
    pub fn edge_count(&self) -> (r: usize)
        requires
            self.wf(),
        ensures
            r == self@.links.len(),
    {
        proof {
            graph_edges(self.connections).unique_seq_to_set();
        }
        graph::edge_count(&self.connections)
    }

    /// The side length of the board.
    pub fn size(&self) -> (r: usize)
        ensures
            r == self@.size,
    {
        self.size
    }
}

impl Default for Board {
    fn default() -> (r: Self)
        ensures
            r.wf(),
            r@ == BoardView::fresh(crate::DEFAULT_BOARD_SIZE as nat),
    {
        assert(crate::DEFAULT_BOARD_SIZE * crate::DEFAULT_BOARD_SIZE == 9) by (nonlinear_arith)
            requires
                crate::DEFAULT_BOARD_SIZE == 3,
        ;
        Board::new(crate::DEFAULT_BOARD_SIZE)
    }
}

} // verus!
