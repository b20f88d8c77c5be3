//! What holds of joint marks: they keep the board well formed, and the cycle
//! that a mark closes is determined.

use vstd::prelude::*;
use crate::board::graph::{adjacent, connected, is_shortest_walk, is_walk, linked, steps};
use crate::board::view::{cycle_fits, cycle_linked, lemma_walk_nodes_linked, BoardView};
use crate::board::walks::{
    lemma_connected_in_more_links, lemma_connected_symmetric, lemma_connected_transitive,
    lemma_link_is_walk, lemma_shortest_walk_is_simple, lemma_walk_joins,
    lemma_walk_part_avoids_link, lemma_walk_reverses, lemma_walk_with_new_link,
};
use crate::cycle::CycleView;
use crate::field::FieldView;
use crate::field_coordinate::{lemma_at_round_trip, lemma_index_round_trip, FieldCoordinate};
use crate::player_symbol::PlayerSymbol;

verus! {

impl BoardView {
    /// A link between two cells that no walk joined makes no ring.
    #[verifier::rlimit(40)]
    pub proof fn lemma_new_link_forest(self, more: BoardView, a: usize, b: usize, t: usize)
        requires
            self.links_forest(),
            !connected(self.links, a, b),
            more.links == self.links.insert((a, b, t)),
        ensures
            more.links_forest(),
    {
        let new = (a, b, t);
        assert(!self.links.contains(new)) by {
            if self.links.contains(new) {
                assert(linked(self.links, a, b, t));
                lemma_link_is_walk(self.links, a, b);
            }
        }
        assert forall|x: usize, y: usize, u: usize| #[trigger]
            more.links.contains((x, y, u)) implies !connected(
            more.links.remove((x, y, u)),
            x,
            y,
        ) by {
            let old = (x, y, u);
            if old == new {
                assert(more.links.remove(new) =~= self.links);
            } else if connected(more.links.remove(old), x, y) {
                let without = self.links.remove(old);
                assert(more.links.remove(old) =~= without.insert(new));
                let path = choose|path: Seq<usize>| is_walk(more.links.remove(old), path, x, y);
                lemma_walk_with_new_link(without, a, b, t, path, x, y);
                assert(linked(self.links, x, y, u));
                lemma_link_is_walk(self.links, x, y);
                if connected(without, x, y) {
                } else if connected(without, x, a) && connected(without, b, y) {
                    lemma_connected_in_more_links(without, self.links, x, a);
                    lemma_connected_in_more_links(without, self.links, b, y);
                    lemma_connected_symmetric(self.links, x, a);
                    lemma_connected_symmetric(self.links, b, y);
                    lemma_connected_transitive(self.links, a, x, y);
                    lemma_connected_transitive(self.links, a, y, b);
                } else {
                    lemma_connected_in_more_links(without, self.links, x, b);
                    lemma_connected_in_more_links(without, self.links, a, y);
                    lemma_connected_symmetric(self.links, x, y);
                    lemma_connected_transitive(self.links, a, y, x);
                    lemma_connected_transitive(self.links, a, x, b);
                }
            }
        }
    }

    /// The cycle that a mark closes along a shortest walk between its two
    /// cells fits the board.
    #[verifier::rlimit(40)]
    pub proof fn lemma_closed_cycle_fits(self, path: Seq<usize>, a: usize, b: usize, turn: usize)
        requires
            self.wf(),
            is_shortest_walk(self.links, path, a, b),
            a != b,
            turn < self.area(),
        ensures
            cycle_fits(self.links, self.size, self.closes(path, turn)),
            path.len() >= 2,
            self.size > 0,
    {
        let c = self.closes(path, turn);
        let size = self.size as int;
        lemma_shortest_walk_is_simple(self.links, path, a, b);
        assert forall|i: int| 0 <= i < path.len() implies (#[trigger] path[i]) < self.area() by {
            lemma_walk_nodes_linked(self.links, path, i);
            let (other, t) = choose|other: usize, t: usize| #[trigger]
                linked(self.links, path[i], other, t);
            self.lemma_link_in_range(path[i], other, t);
        }
        assert(path[0] < self.area());
        assert(self.size > 0) by (nonlinear_arith)
            requires
                self.size * self.size > 0,
        ;
        assert forall|i: int| 0 <= i < c.coordinates.len() implies (
        #[trigger] c.coordinates[i]).in_range(size) by {
            lemma_at_round_trip(path[i] as int, size);
        }
        assert forall|i: int, j: int| 0 <= i < j < c.coordinates.len() implies c.coordinates[i]
            != c.coordinates[j] by {
            lemma_at_round_trip(path[i] as int, size);
            lemma_at_round_trip(path[j] as int, size);
        }
        assert forall|i: int| 0 <= i < c.coordinates.len() - 1 implies #[trigger] cycle_linked(
            self.links,
            self.size,
            c,
            i,
        ) by {
            lemma_at_round_trip(path[i] as int, size);
            lemma_at_round_trip(path[i + 1] as int, size);
            assert(steps(self.links, path, i));
        }
        assert forall|i: int, j: int|
            0 <= i < c.indexes.len() && 0 <= j < c.indexes[i].len() implies (
        #[trigger] c.indexes[i][j]) < self.area() by {
            if i == 0 {
                assert(steps(self.links, path, 0int));
                let t = choose|t: usize| #[trigger] linked(self.links, path[0], path[1], t);
                self.lemma_link_turn(path[0], path[1], t);
                self.lemma_link_in_range(path[0], path[1], t);
            } else {
                assert(steps(self.links, path, i - 1));
                let t = choose|t: usize| #[trigger] linked(self.links, path[i - 1], path[i], t);
                self.lemma_link_turn(path[i - 1], path[i], t);
                self.lemma_link_in_range(path[i - 1], path[i], t);
            }
            if i != 0 && i != path.len() - 1 {
                assert(steps(self.links, path, i));
                let t = choose|t: usize| #[trigger] linked(self.links, path[i], path[i + 1], t);
                self.lemma_link_turn(path[i], path[i + 1], t);
                self.lemma_link_in_range(path[i], path[i + 1], t);
            }
        }
    }

    /// An accepted mark leaves a well-formed board well formed, whether it
    /// closed a cycle along a shortest walk between its two cells or linked
    /// two cells that no walk joined.
    #[verifier::rlimit(40)]
    pub proof fn lemma_after_mark_wf(
        self,
        c0: FieldCoordinate,
        c1: FieldCoordinate,
        symbol: PlayerSymbol,
        turn: usize,
        found: Option<CycleView>,
        path: Seq<usize>,
    )
        requires
            self.wf(),
            self.mark_error(c0, c1, turn) is None,
            found matches Some(c) ==> is_shortest_walk(
                self.links,
                path,
                self.node(c0),
                self.node(c1),
            ) && c == self.closes(path, turn),
            found is None ==> !connected(self.links, self.node(c0), self.node(c1)),
        ensures
            self.after_mark(c0, c1, symbol, turn, found).wf(),
    {
        let after = self.after_mark(c0, c1, symbol, turn, found);
        let n0 = self.node(c0);
        let n1 = self.node(c1);
        self.lemma_node_injective(c0, c1);
        assert forall|k: int| 0 <= k < after.cells.len() implies (
        #[trigger] after.cells[k] matches FieldView::Entangled(slots) ==> slots.len()
            == after.area()) by {
            assert(self.cells[k] matches FieldView::Entangled(slots) ==> slots.len()
                == self.area());
        }
        assert forall|k: int, t: int|
            0 <= k < self.cells.len() && self.cells[k].symbol_at(t) is Some implies (
        #[trigger] after.cells[k].symbol_at(t)) is Some by {}
        assert(after.cells[n0 as int].symbol_at(turn as int) is Some);
        assert(after.cells[n1 as int].symbol_at(turn as int) is Some);
        assert forall|a: usize, b: usize, t: usize| #[trigger]
            after.links.contains((a, b, t)) implies {
            &&& a < after.area()
            &&& b < after.area()
            &&& a != b
            &&& after.cells[a as int].symbol_at(t as int) is Some
            &&& after.cells[b as int].symbol_at(t as int) is Some
        } by {
            if self.links.contains((a, b, t)) {
                assert(self.cells[a as int].symbol_at(t as int) is Some);
                assert(self.cells[b as int].symbol_at(t as int) is Some);
            }
        }
        if found is None {
            assert forall|a: usize, b: usize, t: usize, u: usize| #[trigger]
                linked(after.links, a, b, t) && #[trigger] linked(
                    after.links,
                    a,
                    b,
                    u,
                ) implies t == u by {
                if linked(self.links, n0, n1, t) || linked(self.links, n0, n1, u) {
                    assert(adjacent(self.links, n0, n1));
                    lemma_link_is_walk(self.links, n0, n1);
                }
                if linked(self.links, a, b, t) && linked(self.links, a, b, u) {
                } else if linked(self.links, a, b, t) {
                    assert(linked(self.links, n0, n1, t));
                } else if linked(self.links, a, b, u) {
                    assert(linked(self.links, n0, n1, u));
                }
            }
            assert forall|a: usize, b: usize, t: usize| #[trigger]
                after.links.contains((a, b, t)) implies !after.links.contains((b, a, t)) by {
                if after.links.contains((b, a, t)) {
                    if self.links.contains((a, b, t)) && self.links.contains((b, a, t)) {
                    } else if self.links.contains((a, b, t)) {
                        assert(linked(self.links, n0, n1, t));
                        lemma_link_is_walk(self.links, n0, n1);
                    } else if self.links.contains((b, a, t)) {
                        assert(linked(self.links, n0, n1, t));
                        lemma_link_is_walk(self.links, n0, n1);
                    }
                }
            }
            self.lemma_new_link_forest(after, n0, n1, turn);
            if self.cycle is Some {
                let c = self.cycle->Some_0;
                assert forall|i: int|
                    0 <= i < c.coordinates.len() - 1 implies #[trigger] cycle_linked(
                    after.links,
                    after.size,
                    c,
                    i,
                ) by {
                    let x = self.node(c.coordinates[i]);
                    let y = self.node(c.coordinates[i + 1]);
                    assert(cycle_linked(self.links, self.size, c, i));
                    let t = choose|t: usize| #[trigger] linked(self.links, x, y, t);
                    assert(linked(after.links, x, y, t));
                }
            }
            assert(after.cycle_fits());
        } else {
            self.lemma_closed_cycle_fits(path, n0, n1, turn);
        }
    }

    /// A second joint mark on two cells that the first one linked closes the
    /// cycle of just these two cells, whose candidate turns are the turns of
    /// the two marks.
    ///
    /// The first mark finds no cycle where no walk joined the two cells
    /// before it, as on a board on which no move was made.
    #[verifier::rlimit(40)]
    pub proof fn lemma_second_mark_closes_pair(
        self,
        c0: FieldCoordinate,
        c1: FieldCoordinate,
        first_symbol: PlayerSymbol,
        first_turn: usize,
        first_found: Option<CycleView>,
        between: BoardView,
        second_symbol: PlayerSymbol,
        second_turn: usize,
        second_found: Option<CycleView>,
        after: BoardView,
    )
        requires
            self.wf(),
            !connected(self.links, self.node(c0), self.node(c1)),
            self.mark_error(c0, c1, first_turn) is None,
            self.marked(between, c0, c1, first_symbol, first_turn, first_found),
            second_turn < self.area(),
            between.marked(after, c0, c1, second_symbol, second_turn, second_found),
        ensures
            first_found is None,
            between.mark_error(c0, c1, second_turn) is None,
            second_found == Some(
                CycleView {
                    coordinates: seq![c0, c1],
                    indexes: seq![seq![first_turn, second_turn], seq![first_turn, second_turn]],
                },
            ),
    {
        let a = self.node(c0);
        let b = self.node(c1);
        self.lemma_node_injective(c0, c1);
        if first_found is Some {
            let path = choose|path: Seq<usize>| is_shortest_walk(self.links, path, a, b);
            assert(is_walk(self.links, path, a, b));
        }
        self.lemma_after_mark_wf(c0, c1, first_symbol, first_turn, None, Seq::<usize>::empty());
        assert(between.links.contains((a, b, first_turn)));
        assert(linked(between.links, a, b, first_turn));
        lemma_link_is_walk(between.links, a, b);
        let path = choose|path: Seq<usize>|
            is_shortest_walk(between.links, path, a, b) && second_found->Some_0 == between.closes(
                path,
                second_turn,
            );
        assert(path.len() <= seq![a, b].len());
        assert(path =~= seq![a, b]);
        between.lemma_link_turn(a, b, first_turn);
        lemma_index_round_trip(c0, self.size as int);
        lemma_index_round_trip(c1, self.size as int);
        let found = between.closes(path, second_turn);
        assert(found.coordinates =~= seq![c0, c1]);
        assert(found.indexes[0] =~= seq![first_turn, second_turn]);
        assert(found.indexes[1] =~= seq![first_turn, second_turn]);
        assert(found.indexes =~= seq![
            seq![first_turn, second_turn],
            seq![first_turn, second_turn],
        ]);
    }

    /// Two shortest walks between the same two cells agree at every place.
    #[verifier::rlimit(40)]
    proof fn lemma_shortest_walks_agree(
        self,
        one: Seq<usize>,
        other: Seq<usize>,
        a: usize,
        b: usize,
        i: int,
    )
        requires
            self.links_simple(),
            self.links_forest(),
            is_shortest_walk(self.links, one, a, b),
            is_shortest_walk(self.links, other, a, b),
            0 <= i < one.len(),
        ensures
            one.len() == other.len(),
            one[i] == other[i],
        decreases i,
    {
        let len = one.len() as int;
        assert(one.len() <= other.len());
        assert(other.len() <= one.len());
        if i > 0 {
            self.lemma_shortest_walks_agree(one, other, a, b, i - 1);
            if one[i] != other[i] {
                lemma_shortest_walk_is_simple(self.links, one, a, b);
                lemma_shortest_walk_is_simple(self.links, other, a, b);
                let x = one[i - 1];
                let y = one[i];
                assert(steps(self.links, one, i - 1));
                let t = choose|t: usize| #[trigger] linked(self.links, x, y, t);
                let gone = if self.links.contains((x, y, t)) {
                    (x, y, t)
                } else {
                    (y, x, t)
                };
                let fewer = self.links.remove(gone);
                let out = other.subrange(i - 1, len);
                let back = one.subrange(i, len);
                lemma_walk_part_avoids_link(self.links, other, i - 1, gone, x, y);
                lemma_walk_part_avoids_link(self.links, one, i, gone, x, y);
                lemma_walk_reverses(fewer, back, y, b);
                let home = back.reverse();
                lemma_walk_joins(fewer, out, home, x, b, y);
                assert(connected(fewer, x, y));
                lemma_connected_symmetric(fewer, x, y);
            }
        }
    }

    /// In links that make no ring, the shortest walk between two cells is
    /// determined.
    pub proof fn lemma_shortest_walk_determined(
        self,
        one: Seq<usize>,
        other: Seq<usize>,
        a: usize,
        b: usize,
    )
        requires
            self.links_simple(),
            self.links_forest(),
            is_shortest_walk(self.links, one, a, b),
            is_shortest_walk(self.links, other, a, b),
        ensures
            one == other,
    {
        assert forall|i: int| 0 <= i < one.len() implies one[i] == other[i] by {
            self.lemma_shortest_walks_agree(one, other, a, b, i);
        }
        self.lemma_shortest_walks_agree(one, other, a, b, 0);
        assert(one =~= other);
    }

    /// The board after an accepted mark, and the cycle that the mark found,
    /// are determined by the board before it and the mark.
    pub proof fn lemma_mark_determined(
        self,
        c0: FieldCoordinate,
        c1: FieldCoordinate,
        symbol: PlayerSymbol,
        turn: usize,
        one: BoardView,
        one_found: Option<CycleView>,
        other: BoardView,
        other_found: Option<CycleView>,
    )
        requires
            self.wf(),
            self.marked(one, c0, c1, symbol, turn, one_found),
            self.marked(other, c0, c1, symbol, turn, other_found),
        ensures
            one_found == other_found,
            one == other,
    {
        let a = self.node(c0);
        let b = self.node(c1);
        if one_found is Some && other_found is Some {
            let p = choose|path: Seq<usize>|
                is_shortest_walk(self.links, path, a, b) && one_found->Some_0 == self.closes(
                    path,
                    turn,
                );
            let q = choose|path: Seq<usize>|
                is_shortest_walk(self.links, path, a, b) && other_found->Some_0 == self.closes(
                    path,
                    turn,
                );
            self.lemma_shortest_walk_determined(p, q, a, b);
        } else if one_found is Some {
            let p = choose|path: Seq<usize>| is_shortest_walk(self.links, path, a, b);
            assert(is_walk(self.links, p, a, b));
        } else if other_found is Some {
            let q = choose|path: Seq<usize>| is_shortest_walk(self.links, path, a, b);
            assert(is_walk(self.links, q, a, b));
        }
    }

    /// A mark in a turn that no link has yet keeps the links each of its own
    /// turn, and the cycle that it closes can be walked.
    pub proof fn lemma_mark_in_turn(
        self,
        after: BoardView,
        c0: FieldCoordinate,
        c1: FieldCoordinate,
        symbol: PlayerSymbol,
        turn: usize,
        found: Option<CycleView>,
    )
        requires
            self.wf(),
            after.wf(),
            self.turns_before(turn as nat),
            self.mark_error(c0, c1, turn) is None,
            self.marked(after, c0, c1, symbol, turn, found),
        ensures
            after.turns_before((turn + 1) as nat),
            found is Some ==> after.cycle_sound(),
    {
        let a = self.node(c0);
        let b = self.node(c1);
        self.lemma_node_injective(c0, c1);
        if found is Some {
            let path = choose|path: Seq<usize>|
                is_shortest_walk(self.links, path, a, b) && found->Some_0 == self.closes(
                    path,
                    turn,
                );
            let c = self.closes(path, turn);
            let size = self.size as int;
            lemma_shortest_walk_is_simple(self.links, path, a, b);
            self.lemma_closed_cycle_fits(path, a, b, turn);
            let last = path.len() - 1;
            assert forall|i: int| 0 <= i < c.indexes.len() implies {
                &&& (#[trigger] c.indexes[i]).len() == 2
                &&& c.indexes[i][0] != c.indexes[i][1]
                &&& after.cell(c.coordinates[i]).symbol_at(c.indexes[i][0] as int) is Some
                &&& after.cell(c.coordinates[i]).symbol_at(c.indexes[i][1] as int) is Some
            } by {
                lemma_walk_nodes_linked(self.links, path, i);
                let (other, w) = choose|other: usize, w: usize| #[trigger]
                    linked(self.links, path[i], other, w);
                self.lemma_link_in_range(path[i], other, w);
                lemma_at_round_trip(path[i] as int, size);
                let before = if i == 0 {
                    0
                } else {
                    i - 1
                };
                assert(steps(self.links, path, before));
                let first = choose|t: usize| #[trigger]
                    linked(self.links, path[before], path[before + 1], t);
                self.lemma_link_turn(path[before], path[before + 1], first);
                if i == 0 {
                } else {
                    assert(linked(self.links, path[i - 1], path[i], first));
                }
                assert(c.indexes[i][0] == first);
                assert(first < turn);
                assert(after.links == self.links);
                assert(linked(after.links, path[before], path[before + 1], first));
                after.lemma_link_live(path[before], path[before + 1], first);
                if i == 0 || i == last {
                    assert(c.indexes[i][1] == turn);
                    assert(after.cells[path[i] as int].symbol_at(turn as int) is Some);
                } else {
                    assert(steps(self.links, path, i));
                    let second = choose|t: usize| #[trigger]
                        linked(self.links, path[i], path[i + 1], t);
                    self.lemma_link_turn(path[i], path[i + 1], second);
                    assert(c.indexes[i][1] == second);
                    after.lemma_link_live(path[i], path[i + 1], second);
                    if first == second {
                        assert(path[i - 1] != path[i + 1]);
                        assert(path[i - 1] != path[i]);
                    }
                }
            }
        }
    }

    /// A cell that is collapsed stays as it is when a joint mark is placed.
    pub proof fn lemma_mark_keeps_collapsed(
        self,
        after: BoardView,
        c0: FieldCoordinate,
        c1: FieldCoordinate,
        symbol: PlayerSymbol,
        turn: usize,
        found: Option<CycleView>,
        k: int,
    )
        requires
            self.wf(),
            self.mark_error(c0, c1, turn) is None,
            self.marked(after, c0, c1, symbol, turn, found),
            0 <= k < self.cells.len(),
            self.cells[k] is Collapsed,
        ensures
            after.cells[k] == self.cells[k],
    {
        self.lemma_node_injective(c0, c1);
    }

    /// An accepted mark collapses no cell, and adds a link unless it closes
    /// a cycle.
    pub proof fn lemma_mark_counts(
        self,
        after: BoardView,
        c0: FieldCoordinate,
        c1: FieldCoordinate,
        symbol: PlayerSymbol,
        turn: usize,
        found: Option<CycleView>,
    )
        requires
            self.wf(),
            self.mark_error(c0, c1, turn) is None,
            self.marked(after, c0, c1, symbol, turn, found),
        ensures
            after.collapsed_cells() == self.collapsed_cells(),
            after.accounted() == self.accounted() + if found is Some {
                0nat
            } else {
                1nat
            },
    {
        let a = self.node(c0);
        let b = self.node(c1);
        self.lemma_node_injective(c0, c1);
        assert(after.collapsed_cells() =~= self.collapsed_cells());
        if found is None {
            if self.links.contains((a, b, turn)) {
                assert(linked(self.links, a, b, turn));
                lemma_link_is_walk(self.links, a, b);
            }
        }
    }
}

} // verus!
