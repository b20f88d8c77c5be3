//! The board as a mathematical value, and what the contracts of the board say
//! in it: when a move is refused, and what the board is after a move.

use vstd::prelude::*;
use crate::board::board_error::{BoardError, BoardErrorKind};
use crate::board::forest::{forest, lemma_split};
use crate::board::graph::{adjacent, connected, is_shortest_walk, is_walk, joins, linked, steps};
use crate::board::lines::{owners, tally};
use crate::board::lines_result::LinesResultView;
use crate::cycle::{without, CycleView};
use crate::field::FieldView;
use crate::field_coordinate::{lemma_index_round_trip, FieldCoordinate};
use crate::player_symbol::PlayerSymbol;

verus! {

/// A board as a mathematical value.
pub struct BoardView {
    /// The side length.
    pub size: nat,
    /// The cells, row after row: the cell in column `x` of row `y` stands at
    /// `y * size + x`.
    pub cells: Seq<FieldView>,
    /// The joint marks that are not resolved yet, each as the positions of its
    /// two cells and its turn.
    pub links: Set<(usize, usize, usize)>,
    /// The cycle that waits to be resolved.
    pub cycle: Option<CycleView>,
}

/// The place in the cycle of the cell that step `step` of a walk visits.
pub open spec fn visited(s: CycleView, step: nat) -> int {
    ((step + 1) as int) % (s.coordinates.len() as int)
}

/// The turn that step `step` of a walk round the cycle `s` forces on the cell
/// it visits, where the walk starts with turn `index` on the first cell of
/// `s`. Step `step` visits the cell one place behind the cell of the step
/// before, the first cell last: it strikes the turn that the step before
/// used from that cell's candidates and takes the first that is left. The
/// result is `None` where a step finds none left.
pub open spec fn forced_turn(s: CycleView, index: usize, step: nat) -> Option<usize>
    decreases step,
{
    let used = if step == 0 {
        Some(index)
    } else {
        forced_turn(s, index, (step - 1) as nat)
    };
    match used {
        Some(used) => {
            let left = without(s.indexes[visited(s, step)], used);
            if left.len() > 0 {
                Some(left[0])
            } else {
                None
            }
        },
        None => None,
    }
}

/// Whether a link of `links` joins the cell at place `i` of the cycle `c` to
/// the cell at the next place, on a board of side `size`.
pub open spec fn cycle_linked(links: Set<(usize, usize, usize)>, size: nat, c: CycleView, i: int)
    -> bool {
    adjacent(
        links,
        c.coordinates[i].index(size as int) as usize,
        c.coordinates[i + 1].index(size as int) as usize,
    )
}

/// Whether the cycle `c` fits links `links` on a board of side `size`: it
/// has at least two cells, all of them different and on the board, each
/// linked to the next and with its candidate turns, and every candidate turn
/// has a slot in the cells.
pub open spec fn cycle_fits(links: Set<(usize, usize, usize)>, size: nat, c: CycleView) -> bool {
    &&& c.wf()
    &&& c.coordinates.len() >= 2
    &&& forall|i: int|
        0 <= i < c.coordinates.len() - 1 ==> #[trigger] cycle_linked(links, size, c, i)
    &&& forall|i: int|
        0 <= i < c.coordinates.len() ==> (#[trigger] c.coordinates[i]).in_range(size as int)
    &&& forall|i: int, j: int|
        0 <= i < j < c.coordinates.len() ==> c.coordinates[i] != c.coordinates[j]
    &&& forall|i: int, j: int|
        0 <= i < c.indexes.len() && 0 <= j < c.indexes[i].len() ==> (#[trigger] c.indexes[i][j])
            < size * size
}

/// The turn of the link between `a` and `b`.
pub open spec fn turn_of(links: Set<(usize, usize, usize)>, a: usize, b: usize) -> usize {
    choose|t: usize| linked(links, a, b, t)
}

/// The candidate turns of position `i` of the cycle that a joint mark of turn
/// `turn` closes along `path`: first the turn of the link to the cell before
/// it, then the turn of the link to the cell after it. The two ends of the
/// path lack one of these links: the first cell has the turn of the link to
/// the second cell and then the turn of the mark, the last cell has the turn
/// of the link to the cell before it and then the turn of the mark.
pub open spec fn candidates(
    links: Set<(usize, usize, usize)>,
    path: Seq<usize>,
    i: int,
    turn: usize,
) -> Seq<usize> {
    let first = if i == 0 {
        turn_of(links, path[0], path[1])
    } else {
        turn_of(links, path[i - 1], path[i])
    };
    let second = if i == 0 || i == path.len() - 1 {
        turn
    } else {
        turn_of(links, path[i], path[i + 1])
    };
    seq![first, second]
}

/// The cycle that a joint mark of turn `turn` closes along `path` on a board
/// of side `size`: the cells of the path in its order, each with its
/// candidate turns.
pub open spec fn closed_cycle(
    links: Set<(usize, usize, usize)>,
    size: nat,
    path: Seq<usize>,
    turn: usize,
) -> CycleView {
    CycleView {
        coordinates: Seq::new(
            path.len(),
            |i: int| FieldCoordinate::at(path[i] as int, size as int),
        ),
        indexes: Seq::new(path.len(), |i: int| candidates(links, path, i, turn)),
    }
}

impl BoardView {
    /// The number of cells, which is also the number of slots of an entangled
    /// cell.
    pub open spec fn area(self) -> nat {
        self.size * self.size
    }

    /// The position of the cell at `c`.
    pub open spec fn node(self, c: FieldCoordinate) -> usize {
        c.index(self.size as int) as usize
    }

    /// The cell at `c`.
    pub open spec fn cell(self, c: FieldCoordinate) -> FieldView {
        self.cells[c.index(self.size as int)]
    }

    /// A board of side `size` on which no move was made.
    pub open spec fn fresh(size: nat) -> BoardView {
        BoardView {
            size,
            cells: Seq::new(size * size, |k: int| FieldView::empty(size * size)),
            links: Set::empty(),
            cycle: None,
        }
    }

    /// Row `y`, from its first column to its last.
    pub open spec fn row(self, y: int) -> Seq<FieldView> {
        Seq::new(self.size, |x: int| self.cells[y * self.size + x])
    }

    /// Column `x`, from its first row to its last.
    pub open spec fn column(self, x: int) -> Seq<FieldView> {
        Seq::new(self.size, |y: int| self.cells[y * self.size + x])
    }

    /// The diagonal from the first cell of the first row to the last cell of
    /// the last row.
    pub open spec fn first_diagonal(self) -> Seq<FieldView> {
        Seq::new(self.size, |i: int| self.cells[i * self.size + i])
    }

    /// The diagonal from the last cell of the first row to the first cell of
    /// the last row.
    pub open spec fn second_diagonal(self) -> Seq<FieldView> {
        Seq::new(self.size, |i: int| self.cells[i * self.size + (self.size - i - 1)])
    }

    /// The rows, from the first to the last.
    pub open spec fn rows(self) -> Seq<Seq<FieldView>> {
        Seq::new(self.size, |y: int| self.row(y))
    }

    /// The columns, from the first to the last.
    pub open spec fn columns(self) -> Seq<Seq<FieldView>> {
        Seq::new(self.size, |x: int| self.column(x))
    }

    /// The two diagonals.
    pub open spec fn diagonals(self) -> Seq<Seq<FieldView>> {
        seq![self.first_diagonal(), self.second_diagonal()]
    }

    /// The owners of the rows, the columns and the diagonals that have one.
    pub open spec fn winners(self) -> Seq<PlayerSymbol> {
        owners(self.rows()) + owners(self.columns()) + owners(self.diagonals())
    }

    /// How many completed lines each symbol has.
    pub open spec fn lines(self) -> LinesResultView {
        tally(self.winners())
    }

    /// The symbol that step `step` of a walk round `s` forces on the cell it
    /// visits: the one that the cell recorded in the turn forced on it. It is
    /// `None` where no turn is forced, or the cell holds no symbol for it.
    pub open spec fn forced_symbol(self, s: CycleView, index: usize, step: nat) -> Option<
        PlayerSymbol,
    > {
        match forced_turn(s, index, step) {
            Some(t) => self.cell(s.coordinates[visited(s, step)]).symbol_at(t as int),
            None => None,
        }
    }

    /// Why step `step` of a walk round `s` fails, if it does: no candidate
    /// turn is left for the cell it visits; else the cell is collapsed
    /// already; else the cell holds no symbol for the forced turn.
    pub open spec fn step_error(self, s: CycleView, index: usize, step: nat) -> Option<
        BoardError,
    > {
        let c = s.coordinates[visited(s, step)];
        if forced_turn(s, index, step) is None {
            Some(BoardError { field_coordinate: c, kind: BoardErrorKind::Unresolvable })
        } else if self.cell(c) is Collapsed {
            Some(BoardError { field_coordinate: c, kind: BoardErrorKind::AlreadyCollapsed })
        } else if self.forced_symbol(s, index, step) is None {
            Some(BoardError { field_coordinate: c, kind: BoardErrorKind::Unresolvable })
        } else {
            None
        }
    }

    /// The failure of the first of the first `steps` steps of a walk round
    /// `s` that fails, if one does.
    pub open spec fn walk_error(self, s: CycleView, index: usize, steps: nat) -> Option<BoardError>
        decreases steps,
    {
        if steps == 0 {
            None
        } else {
            match self.walk_error(s, index, (steps - 1) as nat) {
                Some(e) => Some(e),
                None => self.step_error(s, index, (steps - 1) as nat),
            }
        }
    }

    /// Why a collapse that starts at `coordinate` with turn `index` is
    /// refused, if it is: no cycle waits; else the coordinate is no cell of
    /// the cycle; else the turn is no candidate of that cell; else the walk
    /// round the cycle, turned so that the cell comes first, fails.
    pub open spec fn collapse_error(self, coordinate: FieldCoordinate, index: usize) -> Option<
        BoardError,
    > {
        match self.cycle {
            None => Some(
                BoardError { field_coordinate: coordinate, kind: BoardErrorKind::NoCycle },
            ),
            Some(c) => if !c.coordinates.contains(coordinate) {
                Some(BoardError { field_coordinate: coordinate, kind: BoardErrorKind::NotInCycle })
            } else if !c.indexes[c.position(coordinate)].contains(index) {
                Some(
                    BoardError {
                        field_coordinate: coordinate,
                        kind: BoardErrorKind::IndexNotInCycle,
                    },
                )
            } else {
                self.walk_error(c.shifted(c.position(coordinate)), index, c.coordinates.len())
            },
        }
    }

    /// Whether `k` is the position of a cell of the waiting cycle.
    pub open spec fn in_cycle(self, k: usize) -> bool {
        self.cycle matches Some(c) && exists|i: int|
            0 <= i < c.coordinates.len() && self.node(#[trigger] c.coordinates[i]) == k
    }

    /// Whether `from` is the position of a cell of the waiting cycle and a
    /// walk through the links leads from it to `k`.
    pub open spec fn reaches_from(self, from: usize, k: usize) -> bool {
        self.in_cycle(from) && connected(self.links, from, k)
    }

    /// Whether a collapse reaches the cell at position `k`: a walk through
    /// the links leads to it from a cell of the waiting cycle.
    pub open spec fn collapse_reaches(self, k: usize) -> bool {
        exists|from: usize| #[trigger] self.reaches_from(from, k)
    }

    /// Whether `path` is a walk through the links from `from`, a cell of the
    /// waiting cycle, to `u` that does not pass `k`.
    pub open spec fn walks_around(self, from: usize, path: Seq<usize>, u: usize, k: usize) -> bool {
        self.in_cycle(from) && is_walk(self.links, path, from, u) && !path.contains(k)
    }

    /// Whether a collapse reaches the cell at `u` before the cell at `k`: a
    /// walk through the links that does not pass `k` leads to `u` from a
    /// cell of the waiting cycle.
    pub open spec fn reaches_around(self, u: usize, k: usize) -> bool {
        exists|from: usize, path: Seq<usize>| #[trigger] self.walks_around(from, path, u, k)
    }

    /// Whether on the board `after` the cell at position `k` is collapsed to
    /// the symbol that it recorded for its link of turn `t` to the cell at
    /// `u`, a cell that the collapse reaches before it.
    pub open spec fn entered(self, after: BoardView, k: usize, u: usize, t: usize) -> bool {
        &&& linked(self.links, u, k, t)
        &&& self.reaches_around(u, k)
        &&& self.cells[k as int].symbol_at(t as int) matches Some(symbol)
        &&& after.cells[k as int] == FieldView::Collapsed(symbol)
    }

    /// Whether `after` is the board after the collapse that starts at
    /// `coordinate` with turn `index`.
    ///
    /// No cycle waits any more. Each cell of the cycle is collapsed to the
    /// symbol that the walk forced on it. Every other cell that the collapse
    /// reaches is collapsed to the symbol that it recorded for the link by
    /// which a walk from the cycle arrives at it. The cells that it does not
    /// reach are as they were. Of the links, those among the cells that the
    /// collapse does not reach are left.
    pub open spec fn resolved(self, after: BoardView, coordinate: FieldCoordinate, index: usize)
        -> bool {
        let c = self.cycle->Some_0;
        let s = c.shifted(c.position(coordinate));
        &&& after.size == self.size
        &&& after.cycle is None
        &&& after.cells.len() == self.cells.len()
        &&& forall|step: nat|
            step < s.coordinates.len() ==> #[trigger] after.cell(s.coordinates[visited(s, step)])
                == FieldView::Collapsed(self.forced_symbol(s, index, step)->Some_0)
        &&& forall|k: usize|
            k < self.area() && !self.collapse_reaches(k) ==> #[trigger] after.cells[k as int]
                == self.cells[k as int]
        &&& forall|k: usize|
            k < self.area() && #[trigger] self.collapse_reaches(k) && !self.in_cycle(k)
                ==> exists|u: usize, t: usize| #[trigger] self.entered(after, k, u, t)
        &&& forall|l: (usize, usize, usize)| #[trigger]
            after.links.contains(l) <==> self.links.contains(l) && !self.collapse_reaches(l.0)
    }

    /// The turn of the link between `a` and `b`.
    pub open spec fn link_turn(self, a: usize, b: usize) -> usize {
        turn_of(self.links, a, b)
    }

    /// The cycle that a joint mark of turn `turn` closes along `path`, a walk
    /// between its two cells.
    pub open spec fn closes(self, path: Seq<usize>, turn: usize) -> CycleView {
        closed_cycle(self.links, self.size, path, turn)
    }

    /// Why a joint mark on `c0` and `c1` in turn `turn` is refused, if it is:
    /// a coordinate off the board, the first of the two if both are; else the
    /// same cell named twice; else a collapsed cell, the first of the two if
    /// both are; else a turn that the cells have no slot for.
    pub open spec fn mark_error(self, c0: FieldCoordinate, c1: FieldCoordinate, turn: usize)
        -> Option<BoardError> {
        if !c0.in_range(self.size as int) {
            Some(BoardError { field_coordinate: c0, kind: BoardErrorKind::OutOfRange })
        } else if !c1.in_range(self.size as int) {
            Some(BoardError { field_coordinate: c1, kind: BoardErrorKind::OutOfRange })
        } else if c0 == c1 {
            Some(BoardError { field_coordinate: c1, kind: BoardErrorKind::SameCoordinates })
        } else if self.cell(c0) is Collapsed {
            Some(BoardError { field_coordinate: c0, kind: BoardErrorKind::AlreadyCollapsed })
        } else if self.cell(c1) is Collapsed {
            Some(BoardError { field_coordinate: c1, kind: BoardErrorKind::AlreadyCollapsed })
        } else if turn >= self.area() {
            Some(BoardError { field_coordinate: c0, kind: BoardErrorKind::TurnOutOfRange })
        } else {
            None
        }
    }

    /// The board after an accepted joint mark of `symbol` on `c0` and `c1` in
    /// turn `turn`. Both cells record the symbol in the slot of the turn.
    /// Where the mark closed the cycle `found`, that cycle now waits to be
    /// resolved; where it closed none, the two cells are linked.
    pub open spec fn after_mark(
        self,
        c0: FieldCoordinate,
        c1: FieldCoordinate,
        symbol: PlayerSymbol,
        turn: usize,
        found: Option<CycleView>,
    ) -> BoardView {
        BoardView {
            size: self.size,
            cells: self.cells.update(
                self.node(c0) as int,
                self.cell(c0).marked(turn as int, symbol),
            ).update(self.node(c1) as int, self.cell(c1).marked(turn as int, symbol)),
            links: if found is Some {
                self.links
            } else {
                self.links.insert((self.node(c0), self.node(c1), turn))
            },
            cycle: if found is Some {
                found
            } else {
                self.cycle
            },
        }
    }

    /// Whether `after` is the board after an accepted joint mark of `symbol`
    /// on `c0` and `c1` in turn `turn` that found `found`.
    ///
    /// Both cells record the symbol in the slot of the turn. Where a walk
    /// through the links joined the two cells, `found` is the cycle that the
    /// mark closes along a shortest such walk, and it waits to be resolved.
    /// Where none did, `found` is nothing and the two cells are linked.
    pub open spec fn marked(
        self,
        after: BoardView,
        c0: FieldCoordinate,
        c1: FieldCoordinate,
        symbol: PlayerSymbol,
        turn: usize,
        found: Option<CycleView>,
    ) -> bool {
        &&& after == self.after_mark(c0, c1, symbol, turn, found)
        &&& found matches Some(c) ==> exists|path: Seq<usize>|
            is_shortest_walk(self.links, path, self.node(c0), self.node(c1)) && c == self.closes(
                path,
                turn,
            )
        &&& found is None ==> !connected(self.links, self.node(c0), self.node(c1))
    }

    /// Every link joins two different cells of the board that are still
    /// entangled and hold a symbol for the link's turn.
    pub open spec fn links_live(self) -> bool {
        forall|a: usize, b: usize, t: usize| #[trigger]
            self.links.contains((a, b, t)) ==> {
                &&& a < self.area()
                &&& b < self.area()
                &&& a != b
                &&& self.cells[a as int].symbol_at(t as int) is Some
                &&& self.cells[b as int].symbol_at(t as int) is Some
            }
    }

    /// No two links join the same two cells.
    pub open spec fn links_simple(self) -> bool {
        &&& forall|a: usize, b: usize, t: usize, u: usize| #[trigger]
            linked(self.links, a, b, t) && #[trigger] linked(self.links, a, b, u) ==> t == u
        &&& forall|a: usize, b: usize, t: usize| #[trigger]
            self.links.contains((a, b, t)) ==> !self.links.contains((b, a, t))
    }

    /// The links make no ring: no walk leads from one cell of a link to the
    /// other but through the link.
    pub open spec fn links_forest(self) -> bool {
        forest(self.links)
    }

    /// A waiting cycle fits the links and the side of the board.
    pub open spec fn cycle_fits(self) -> bool {
        self.cycle matches Some(c) ==> cycle_fits(self.links, self.size, c)
    }

    /// What holds of every board: it has `size * size` cells, which is a
    /// number the machine can count to; an entangled cell has one slot for
    /// each of them; and the links and the waiting cycle fit the cells.
    pub open spec fn wf(self) -> bool {
        &&& self.area() <= usize::MAX
        &&& self.cells.len() == self.area()
        &&& forall|k: int|
            0 <= k < self.cells.len() ==> (#[trigger] self.cells[k] matches FieldView::Entangled(
                slots,
            ) ==> slots.len() == self.area())
        &&& self.links.finite()
        &&& self.links_live()
        &&& self.links_simple()
        &&& self.links_forest()
        &&& self.cycle_fits()
    }

    /// Whether the links are the joint marks of turns before `turn`, each of
    /// its own turn.
    pub open spec fn turns_before(self, turn: nat) -> bool {
        &&& forall|a: usize, b: usize, t: usize| #[trigger]
            self.links.contains((a, b, t)) ==> t < turn
        &&& forall|a: usize, b: usize, c: usize, d: usize, t: usize| #[trigger]
            self.links.contains((a, b, t)) && #[trigger] self.links.contains((c, d, t)) ==> a == c
                && b == d
    }

    /// Whether the waiting cycle can be walked: each of its cells has two
    /// different candidate turns and holds a symbol for both.
    pub open spec fn cycle_sound(self) -> bool {
        self.cycle matches Some(c) ==> forall|i: int|
            0 <= i < c.indexes.len() ==> {
                &&& (#[trigger] c.indexes[i]).len() == 2
                &&& c.indexes[i][0] != c.indexes[i][1]
                &&& self.cell(c.coordinates[i]).symbol_at(c.indexes[i][0] as int) is Some
                &&& self.cell(c.coordinates[i]).symbol_at(c.indexes[i][1] as int) is Some
            }
    }

    /// Whether the link `l` joins the cell at place `i` of the cycle `s` to
    /// the cell that comes after it on the way round, the first cell after
    /// the last.
    pub open spec fn round_link(self, s: CycleView, i: int, l: (usize, usize, usize)) -> bool {
        joins(l, self.node(s.coordinates[visited(s, i as nat)]), self.node(s.coordinates[i]))
    }

    /// Whether the link `l` joins one of the first `places` cells of the
    /// cycle `s` to the cell that comes after it on the way round.
    pub open spec fn on_round(self, s: CycleView, places: int, l: (usize, usize, usize)) -> bool {
        exists|i: int| 0 <= i < places && #[trigger] self.round_link(s, i, l)
    }

    /// The positions of the cells that are collapsed.
    pub open spec fn collapsed_cells(self) -> Set<usize> {
        Set::new(|k: usize| k < self.area() && self.cells[k as int] is Collapsed)
    }

    /// The positions of the cells that are entangled.
    pub open spec fn entangled_cells(self) -> Set<usize> {
        Set::new(|k: usize| k < self.area() && self.cells[k as int] is Entangled)
    }

    /// The positions of the cells that a collapse reaches.
    pub open spec fn reached_cells(self) -> Set<usize> {
        Set::new(|k: usize| k < self.area() && self.collapse_reaches(k))
    }

    /// The marks that the board accounts for: one for each link and one for
    /// each collapsed cell.
    pub open spec fn accounted(self) -> nat {
        self.links.len() + self.collapsed_cells().len()
    }

    /// The rows, the columns and the diagonals, in this order.
    pub open spec fn all_lines(self) -> Seq<Seq<FieldView>> {
        self.rows() + self.columns() + self.diagonals()
    }
}

/// Every node of a walk of two or more nodes is an end of a link.
pub proof fn lemma_walk_nodes_linked(links: Set<(usize, usize, usize)>, path: Seq<usize>, i: int)
    requires
        is_walk(links, path, path[0], path[path.len() - 1]),
        path.len() >= 2,
        0 <= i < path.len(),
    ensures
        exists|other: usize, t: usize| #[trigger] linked(links, path[i], other, t),
{
    if i < path.len() - 1 {
        assert(steps(links, path, i));
        let t = choose|t: usize| #[trigger] linked(links, path[i], path[i + 1], t);
        assert(linked(links, path[i], path[i + 1], t));
    } else {
        assert(steps(links, path, i - 1));
        let t = choose|t: usize| #[trigger] linked(links, path[i - 1], path[i], t);
        assert(linked(links, path[i], path[i - 1], t));
    }
}

/// Step `step` of a walk round a cycle visits the place behind its own
/// number, the last step the first place.
pub proof fn lemma_visited(s: CycleView, step: nat)
    requires
        step < s.coordinates.len(),
    ensures
        visited(s, step) == if step + 1 == s.coordinates.len() {
            0
        } else {
            step + 1
        },
        0 <= visited(s, step) < s.coordinates.len(),
{
    let len = s.coordinates.len() as int;
    if step + 1 == len {
        vstd::arithmetic::div_mod::lemma_mod_self_0(len);
    } else {
        vstd::arithmetic::div_mod::lemma_small_mod((step + 1) as nat, len as nat);
    }
}

/// A cycle that is turned has the cells and candidates that it had, each at
/// another place.
pub proof fn lemma_shifted(c: CycleView, n: int, i: int)
    requires
        c.wf(),
        0 <= n < c.coordinates.len(),
        0 <= i < c.coordinates.len(),
    ensures
        c.shifted(n).wf(),
        c.shifted(n).coordinates.len() == c.coordinates.len(),
        c.shifted(n).coordinates[i] == c.coordinates[if i < c.coordinates.len() - n {
            i + n
        } else {
            i + n - c.coordinates.len()
        }],
        c.shifted(n).indexes[i] == c.indexes[if i < c.coordinates.len() - n {
            i + n
        } else {
            i + n - c.coordinates.len()
        }],
{
}

/// Every place of a cycle is visited by one step of a walk round it.
pub proof fn lemma_visited_by(s: CycleView, place: int) -> (step: nat)
    requires
        0 <= place < s.coordinates.len(),
    ensures
        step < s.coordinates.len(),
        visited(s, step) == place,
{
    let step = if place == 0 {
        (s.coordinates.len() - 1) as nat
    } else {
        (place - 1) as nat
    };
    lemma_visited(s, step);
    step
}

impl BoardView {
    /// The turn of the link between two cells is the turn of any link that
    /// joins them.
    pub proof fn lemma_link_turn(self, a: usize, b: usize, t: usize)
        requires
            self.links_simple(),
            linked(self.links, a, b, t),
        ensures
            self.link_turn(a, b) == t,
    {
        let u = self.link_turn(a, b);
        assert(linked(self.links, a, b, u));
    }

    /// Two coordinates on the board that differ stand at different positions.
    pub proof fn lemma_node_injective(self, c0: FieldCoordinate, c1: FieldCoordinate)
        requires
            self.area() <= usize::MAX,
            c0.in_range(self.size as int),
            c1.in_range(self.size as int),
            c0 != c1,
        ensures
            self.node(c0) != self.node(c1),
            self.node(c0) < self.area(),
            self.node(c1) < self.area(),
            self.node(c0) == c0.index(self.size as int),
            self.node(c1) == c1.index(self.size as int),
    {
        lemma_index_round_trip(c0, self.size as int);
        lemma_index_round_trip(c1, self.size as int);
    }

    /// Taking links away makes no ring.
    pub proof fn lemma_fewer_links_forest(self, fewer: BoardView)
        requires
            self.links_forest(),
            fewer.links.subset_of(self.links),
        ensures
            fewer.links_forest(),
    {
        crate::board::forest::lemma_fewer_links_forest(self.links, fewer.links);
    }

    /// Taking links away leaves no two links between the same two cells.
    pub proof fn lemma_fewer_links_simple(self, fewer: BoardView)
        requires
            self.links_simple(),
            fewer.links.subset_of(self.links),
        ensures
            fewer.links_simple(),
    {
        assert forall|a: usize, b: usize, t: usize, u: usize| #[trigger]
            linked(fewer.links, a, b, t) && #[trigger] linked(fewer.links, a, b, u) implies t
            == u by {
            assert(linked(self.links, a, b, t));
            assert(linked(self.links, a, b, u));
        }
        assert forall|a: usize, b: usize, t: usize| #[trigger]
            fewer.links.contains((a, b, t)) implies !fewer.links.contains((b, a, t)) by {
            assert(self.links.contains((a, b, t)));
        }
    }

    /// A link's turn has a slot in the cells, and its two cells are on the
    /// board.
    pub proof fn lemma_link_in_range(self, a: usize, b: usize, t: usize)
        requires
            self.wf(),
            linked(self.links, a, b, t),
        ensures
            a < self.area(),
            b < self.area(),
            t < self.area(),
            a != b,
            self.cells[a as int] is Entangled,
            self.cells[b as int] is Entangled,
    {
        if self.links.contains((a, b, t)) {
            assert(self.cells[a as int].symbol_at(t as int) is Some);
        } else {
            assert(self.links.contains((b, a, t)));
            assert(self.cells[a as int].symbol_at(t as int) is Some);
        }
    }

    /// A link's two cells hold a symbol for the link's turn.
    pub proof fn lemma_link_live(self, a: usize, b: usize, t: usize)
        requires
            self.links_live(),
            linked(self.links, a, b, t),
        ensures
            self.cells[a as int].symbol_at(t as int) is Some,
            self.cells[b as int].symbol_at(t as int) is Some,
    {
        if self.links.contains((a, b, t)) {
            assert(self.cells[a as int].symbol_at(t as int) is Some);
        } else {
            assert(self.links.contains((b, a, t)));
            assert(self.cells[a as int].symbol_at(t as int) is Some);
        }
    }

    /// Every cell is collapsed or entangled, so the two kinds count up to
    /// the cells of the board.
    pub proof fn lemma_cells_split(self)
        requires
            self.area() <= usize::MAX,
        ensures
            self.collapsed_cells().finite(),
            self.entangled_cells().finite(),
            self.reached_cells().finite(),
            self.collapsed_cells().len() + self.entangled_cells().len() == self.area(),
    {
        let all = <usize as vstd::set_lib::FiniteRange>::range_set(0, self.area() as usize);
        vstd::set_lib::range_set_properties::<usize>(0, self.area() as usize);
        let collapsed = |k: usize| self.cells[k as int] is Collapsed;
        lemma_split(all, collapsed);
        assert(all.filter(collapsed) =~= self.collapsed_cells());
        assert(all.filter(|k: usize| !collapsed(k)) =~= self.entangled_cells());
        assert(self.reached_cells().subset_of(all));
        vstd::set_lib::lemma_set_subset_finite(all, self.reached_cells());
    }
}

} // verus!
