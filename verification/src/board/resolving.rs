//! What holds of collapses: what they reach and cut off, that their outcome
//! is determined, and how many marks they account for.

use vstd::prelude::*;
use crate::board::forest::{lemma_forest_bound, lemma_split};
use crate::board::graph::{adjacent, connected, is_walk, linked, steps};
use crate::board::view::{
    cycle_fits, cycle_linked, forced_turn, lemma_shifted, lemma_visited, lemma_visited_by, visited,
    BoardView,
};
use crate::board::walks::{
    lemma_connected_symmetric, lemma_walk_avoids_links, lemma_walk_extends, lemma_walk_joins,
    lemma_walk_reverses,
};
use crate::cycle::{lemma_without_of_pair, CycleView};
use crate::field_coordinate::{lemma_index_round_trip, FieldCoordinate};

verus! {

impl BoardView {
    /// A collapse that reaches a cell reaches the cells that are linked to it.
    pub proof fn lemma_reaches_next(self, u: usize, v: usize)
        requires
            self.collapse_reaches(u),
            adjacent(self.links, u, v),
        ensures
            self.collapse_reaches(v),
    {
        let from = choose|from: usize| #[trigger] self.reaches_from(from, u);
        let path = choose|path: Seq<usize>| is_walk(self.links, path, from, u);
        lemma_walk_extends(self.links, path, from, u, v);
        assert(self.reaches_from(from, v));
    }

    /// A collapse reaches the cells of the cycle.
    pub proof fn lemma_reaches_cycle(self, k: usize)
        requires
            self.in_cycle(k),
        ensures
            self.collapse_reaches(k),
    {
        assert(is_walk(self.links, seq![k], k, k));
        assert(self.reaches_from(k, k));
    }

    /// The cells of the waiting cycle from place `i` to place `j` make a walk
    /// through the links, on which there are only cells of the cycle.
    pub proof fn lemma_cycle_walk(self, i: int, j: int) -> (path: Seq<usize>)
        requires
            self.cycle_fits(),
            self.cycle matches Some(c) && 0 <= i <= j < c.coordinates.len(),
        ensures
            is_walk(
                self.links,
                path,
                self.node(self.cycle->Some_0.coordinates[i]),
                self.node(self.cycle->Some_0.coordinates[j]),
            ),
            forall|m: int| 0 <= m < path.len() ==> self.in_cycle(#[trigger] path[m]),
    {
        let c = self.cycle->Some_0;
        let path = Seq::new((j - i + 1) as nat, |m: int| self.node(c.coordinates[i + m]));
        assert forall|m: int| 0 <= m < path.len() - 1 implies #[trigger] steps(
            self.links,
            path,
            m,
        ) by {
            assert(cycle_linked(self.links, self.size, c, i + m));
        }
        assert forall|m: int| 0 <= m < path.len() implies self.in_cycle(#[trigger] path[m]) by {
            assert(self.node(c.coordinates[i + m]) == path[m]);
        }
        path
    }

    /// A walk through the links, on which there are only cells of the cycle,
    /// leads from any cell of the waiting cycle to any other.
    pub proof fn lemma_cycle_connected(self, from: usize, to: usize) -> (path: Seq<usize>)
        requires
            self.cycle_fits(),
            self.in_cycle(from),
            self.in_cycle(to),
        ensures
            is_walk(self.links, path, from, to),
            forall|m: int| 0 <= m < path.len() ==> self.in_cycle(#[trigger] path[m]),
    {
        let c = self.cycle->Some_0;
        let i = choose|i: int|
            0 <= i < c.coordinates.len() && self.node(#[trigger] c.coordinates[i]) == from;
        let j = choose|j: int|
            0 <= j < c.coordinates.len() && self.node(#[trigger] c.coordinates[j]) == to;
        if i <= j {
            self.lemma_cycle_walk(i, j)
        } else {
            let back = self.lemma_cycle_walk(j, i);
            lemma_walk_reverses(self.links, back, to, from);
            assert forall|m: int| 0 <= m < back.reverse().len() implies self.in_cycle(
                #[trigger] back.reverse()[m],
            ) by {
                assert(back.reverse()[m] == back[back.len() - 1 - m]);
            }
            back.reverse()
        }
    }

    /// The link by which a collapse enters a cell is determined: of the
    /// cells that are linked to a cell outside the cycle, the collapse
    /// reaches only one before that cell.
    #[verifier::rlimit(40)]
    pub proof fn lemma_entry_determined(
        self,
        k: usize,
        first: usize,
        first_turn: usize,
        second: usize,
        second_turn: usize,
    )
        requires
            self.wf(),
            !self.in_cycle(k),
            linked(self.links, first, k, first_turn),
            self.reaches_around(first, k),
            linked(self.links, second, k, second_turn),
            self.reaches_around(second, k),
        ensures
            first == second,
            first_turn == second_turn,
    {
        if first != second {
            let (from1, path1) = choose|from: usize, path: Seq<usize>| #[trigger]
                self.walks_around(from, path, first, k);
            let (from2, path2) = choose|from: usize, path: Seq<usize>| #[trigger]
                self.walks_around(from, path, second, k);
            let round = self.lemma_cycle_connected(from1, from2);
            lemma_walk_reverses(self.links, path1, from1, first);
            let back = path1.reverse();
            lemma_walk_joins(self.links, back, round, first, from1, from2);
            let middle = back + round.subrange(1, round.len() as int);
            lemma_walk_joins(self.links, middle, path2, first, from2, second);
            let whole = middle + path2.subrange(1, path2.len() as int);
            assert(!whole.contains(k)) by {
                if whole.contains(k) {
                    let m = choose|m: int| 0 <= m < whole.len() && whole[m] == k;
                    if m < back.len() {
                        assert(back[m] == path1[path1.len() - 1 - m]);
                        assert(path1.contains(k));
                    } else if m < middle.len() {
                        assert(whole[m] == round[m - back.len() + 1]);
                        assert(self.in_cycle(round[m - back.len() + 1]));
                    } else {
                        assert(whole[m] == path2[m - middle.len() + 1]);
                        assert(path2.contains(k));
                    }
                }
            }
            let gone = if self.links.contains((first, k, first_turn)) {
                (first, k, first_turn)
            } else {
                (k, first, first_turn)
            };
            lemma_walk_avoids_links(self.links, whole, first, second, gone, k);
            let fewer = self.links.remove(gone);
            assert(linked(fewer, second, k, second_turn));
            assert(adjacent(fewer, second, k));
            lemma_walk_extends(fewer, whole, first, second, k);
            assert(connected(fewer, first, k));
            lemma_connected_symmetric(fewer, first, k);
        } else {
            assert(first_turn == second_turn);
        }
    }

    /// The board after a collapse is determined by the board before it, the
    /// cell that the collapse starts at and the turn that it starts with.
    #[verifier::rlimit(40)]
    pub proof fn lemma_collapse_determined(
        self,
        one: BoardView,
        other: BoardView,
        coordinate: FieldCoordinate,
        index: usize,
    )
        requires
            self.wf(),
            self.collapse_error(coordinate, index) is None,
            self.resolved(one, coordinate, index),
            self.resolved(other, coordinate, index),
        ensures
            one == other,
    {
        let c = self.cycle->Some_0;
        let n = c.position(coordinate);
        let s = c.shifted(n);
        assert forall|k: int| 0 <= k < one.cells.len() implies one.cells[k] == other.cells[k] by {
            let node = k as usize;
            if self.in_cycle(node) {
                let at = choose|at: int|
                    0 <= at < c.coordinates.len() && self.node(#[trigger] c.coordinates[at])
                        == node;
                let place = if at >= n {
                    at - n
                } else {
                    at - n + c.coordinates.len()
                };
                lemma_shifted(c, n, place);
                let step = lemma_visited_by(s, place);
                lemma_index_round_trip(c.coordinates[at], self.size as int);
                assert(one.cell(s.coordinates[visited(s, step)]) == other.cell(
                    s.coordinates[visited(s, step)],
                ));
            } else if self.collapse_reaches(node) {
                let (u1, t1) = choose|u: usize, t: usize| #[trigger]
                    self.entered(one, node, u, t);
                let (u2, t2) = choose|u: usize, t: usize| #[trigger]
                    self.entered(other, node, u, t);
                self.lemma_entry_determined(node, u1, t1, u2, t2);
            } else {
                assert(one.cells[node as int] == self.cells[node as int]);
                assert(other.cells[node as int] == self.cells[node as int]);
            }
        }
        assert(one.cells =~= other.cells);
        assert(one.links =~= other.links);
    }

    /// On a waiting cycle that can be walked, no step of a walk fails, and
    /// each step is forced to a candidate of the cell that it visits.
    proof fn lemma_sound_walk(self, s: CycleView, index: usize, step: nat)
        requires
            s.wf(),
            step < s.coordinates.len(),
            forall|i: int|
                0 <= i < s.indexes.len() ==> {
                    &&& (#[trigger] s.indexes[i]).len() == 2
                    &&& s.indexes[i][0] != s.indexes[i][1]
                    &&& self.cell(s.coordinates[i]).symbol_at(s.indexes[i][0] as int) is Some
                    &&& self.cell(s.coordinates[i]).symbol_at(s.indexes[i][1] as int) is Some
                },
        ensures
            self.walk_error(s, index, step + 1) is None,
            forced_turn(s, index, step) is Some,
        decreases step,
    {
        if step > 0 {
            self.lemma_sound_walk(s, index, (step - 1) as nat);
            assert(((step - 1) as nat) + 1 == step);
        }
        assert(self.walk_error(s, index, step) is None);
        assert(self.walk_error(s, index, step + 1) == self.step_error(s, index, step)) by {
            assert(((step + 1) - 1) as nat == step);
        }
        lemma_visited(s, step);
        let place = visited(s, step);
        let used = if step == 0 {
            index
        } else {
            forced_turn(s, index, (step - 1) as nat)->Some_0
        };
        assert(s.indexes[place].len() == 2);
        lemma_without_of_pair(s.indexes[place], used);
        assert(self.step_error(s, index, step) is None);
    }

    /// A collapse that starts at a cell of a waiting cycle that can be
    /// walked, with a candidate turn of that cell, is accepted.
    pub proof fn lemma_sound_cycle_resolves(self, coordinate: FieldCoordinate, index: usize)
        requires
            self.wf(),
            self.cycle_sound(),
            self.cycle matches Some(c) && c.coordinates.contains(coordinate)
                && c.indexes[c.position(coordinate)].contains(index),
        ensures
            self.collapse_error(coordinate, index) is None,
    {
        let c = self.cycle->Some_0;
        let n = c.position(coordinate);
        let s = c.shifted(n);
        assert forall|i: int| 0 <= i < s.indexes.len() implies {
            &&& (#[trigger] s.indexes[i]).len() == 2
            &&& s.indexes[i][0] != s.indexes[i][1]
            &&& self.cell(s.coordinates[i]).symbol_at(s.indexes[i][0] as int) is Some
            &&& self.cell(s.coordinates[i]).symbol_at(s.indexes[i][1] as int) is Some
        } by {
            lemma_shifted(c, n, i);
            let at = if i < c.coordinates.len() - n {
                i + n
            } else {
                i + n - c.coordinates.len()
            };
            assert(c.indexes[at].len() == 2);
        }
        lemma_shifted(c, n, 0);
        self.lemma_sound_walk(s, index, (s.coordinates.len() - 1) as nat);
    }

    /// A walk that has not failed within its first `steps` steps has failed
    /// in none of them.
    pub proof fn lemma_walk_steps_fine(self, s: CycleView, index: usize, steps: nat, step: nat)
        requires
            self.walk_error(s, index, steps) is None,
            step < steps,
        ensures
            self.step_error(s, index, step) is None,
        decreases steps,
    {
        if step + 1 < steps {
            self.lemma_walk_steps_fine(s, index, (steps - 1) as nat, step);
        }
    }

    /// A walk that has failed within its first `k` steps has failed in the
    /// same way within any larger number of steps.
    pub proof fn lemma_walk_error_stays(self, s: CycleView, index: usize, k: nat, m: nat)
        requires
            self.walk_error(s, index, k) is Some,
            k <= m,
        ensures
            self.walk_error(s, index, m) == self.walk_error(s, index, k),
        decreases m,
    {
        if k < m {
            self.lemma_walk_error_stays(s, index, k, (m - 1) as nat);
        }
    }

    /// A cell that is collapsed stays as it is when a cycle is resolved.
    pub proof fn lemma_collapse_keeps_collapsed(
        self,
        after: BoardView,
        coordinate: FieldCoordinate,
        index: usize,
        k: int,
    )
        requires
            self.wf(),
            self.collapse_error(coordinate, index) is None,
            self.resolved(after, coordinate, index),
            0 <= k < self.cells.len(),
            self.cells[k] is Collapsed,
        ensures
            after.cells[k] == self.cells[k],
    {
        let node = k as usize;
        if self.collapse_reaches(node) {
            self.lemma_reached_was_entangled(coordinate, index, node);
        }
    }

    /// A collapse reaches only cells that are entangled.
    pub proof fn lemma_reached_was_entangled(
        self,
        coordinate: FieldCoordinate,
        index: usize,
        k: usize,
    )
        requires
            self.wf(),
            self.collapse_error(coordinate, index) is None,
            self.collapse_reaches(k),
        ensures
            k < self.area(),
            self.cells[k as int] is Entangled,
    {
        let c = self.cycle->Some_0;
        let n = c.position(coordinate);
        let s = c.shifted(n);
        let from = choose|from: usize| #[trigger] self.reaches_from(from, k);
        let path = choose|path: Seq<usize>| is_walk(self.links, path, from, k);
        if path.len() == 1 {
            let at = choose|at: int|
                0 <= at < c.coordinates.len() && self.node(#[trigger] c.coordinates[at]) == k;
            let place = if at >= n {
                at - n
            } else {
                at - n + c.coordinates.len()
            };
            lemma_shifted(c, n, place);
            let step = lemma_visited_by(s, place);
            lemma_index_round_trip(c.coordinates[at], self.size as int);
            self.lemma_walk_steps_fine(s, index, c.coordinates.len(), step);
        } else {
            let last = path.len() - 1;
            assert(steps(self.links, path, last - 1));
            let t = choose|t: usize| #[trigger] linked(self.links, path[last - 1], k, t);
            self.lemma_link_in_range(path[last - 1], k, t);
        }
    }

    /// A collapse accounts for at least one mark more than the board did
    /// before it: it collapses more cells than it takes out links.
    pub proof fn lemma_collapse_counts(
        self,
        after: BoardView,
        coordinate: FieldCoordinate,
        index: usize,
    )
        requires
            self.wf(),
            after.wf(),
            self.collapse_error(coordinate, index) is None,
            self.resolved(after, coordinate, index),
        ensures
            after.accounted() >= self.accounted() + 1,
    {
        self.lemma_cells_split();
        after.lemma_cells_split();
        let reached = self.reached_cells();
        let c = self.cycle->Some_0;
        self.lemma_collapse_cuts_off(after, coordinate, index);
        assert forall|k: usize| reached.contains(k) implies self.cells[k as int] is Entangled
            && after.cells[k as int] is Collapsed by {
            self.lemma_reached_was_entangled(coordinate, index, k);
            if !self.in_cycle(k) {
                let (u, t) = choose|u: usize, t: usize| #[trigger] self.entered(after, k, u, t);
            }
        }
        assert(self.collapsed_cells().disjoint(reached));
        assert(after.collapsed_cells() =~= self.collapsed_cells() + reached);
        vstd::set_lib::lemma_set_disjoint_lens(self.collapsed_cells(), reached);
        let gone = |l: (usize, usize, usize)| self.collapse_reaches(l.0);
        lemma_split(self.links, gone);
        let removed = self.links.filter(gone);
        assert(after.links =~= self.links.filter(|l: (usize, usize, usize)| !gone(l)));
        assert forall|a: usize, b: usize, t: usize| #[trigger]
            removed.contains((a, b, t)) implies reached.contains(a) && reached.contains(b) by {
            assert(linked(self.links, a, b, t));
            self.lemma_link_in_range(a, b, t);
            self.lemma_reaches_next(a, b);
        }
        crate::board::forest::lemma_fewer_links_forest(self.links, removed);
        let first = self.node(c.coordinates[0]);
        lemma_index_round_trip(c.coordinates[0], self.size as int);
        assert(self.in_cycle(first));
        self.lemma_reaches_cycle(first);
        assert(reached.contains(first));
        lemma_forest_bound(removed, reached);
    }

    /// While two cells are left to mark, the board accounts for fewer marks
    /// than it has cells.
    pub proof fn lemma_accounted_fits(self, c: FieldCoordinate)
        requires
            self.wf(),
            c.in_range(self.size as int),
            self.cell(c) is Entangled,
        ensures
            self.accounted() + 1 <= self.area(),
    {
        self.lemma_cells_split();
        lemma_index_round_trip(c, self.size as int);
        assert(self.entangled_cells().contains(self.node(c)));
        assert forall|a: usize, b: usize, t: usize| #[trigger]
            self.links.contains((a, b, t)) implies self.entangled_cells().contains(a)
            && self.entangled_cells().contains(b) by {
            assert(linked(self.links, a, b, t));
            self.lemma_link_in_range(a, b, t);
        }
        lemma_forest_bound(self.links, self.entangled_cells());
    }

    /// After a collapse every cell of the cycle is collapsed and has lost its
    /// links: no walk through the links that are left leads from a cell of
    /// the cycle to another cell. The links that are left join cells that
    /// are still entangled.
    pub proof fn lemma_collapse_cuts_off(
        self,
        after: BoardView,
        coordinate: FieldCoordinate,
        index: usize,
    )
        requires
            self.wf(),
            after.wf(),
            self.collapse_error(coordinate, index) is None,
            self.resolved(after, coordinate, index),
        ensures
            forall|k: usize| #[trigger] self.in_cycle(k) ==> after.cells[k as int] is Collapsed,
            forall|k: usize, j: usize|
                self.in_cycle(k) && #[trigger] connected(after.links, k, j) ==> j == k,
            forall|a: usize, b: usize, t: usize| #[trigger]
                after.links.contains((a, b, t)) ==> after.cells[a as int] is Entangled
                    && after.cells[b as int] is Entangled,
    {
        self.lemma_cuts_off(after, coordinate, index);
    }

    /// What `lemma_collapse_cuts_off` says, from the parts of its conditions
    /// that it rests on.
    #[verifier::rlimit(40)]
    proof fn lemma_cuts_off(self, after: BoardView, coordinate: FieldCoordinate, index: usize)
        requires
            self.area() <= usize::MAX,
            self.cycle_fits(),
            self.cycle matches Some(c) && c.coordinates.contains(coordinate),
            after.links_live(),
            self.resolved(after, coordinate, index),
        ensures
            forall|k: usize| #[trigger] self.in_cycle(k) ==> after.cells[k as int] is Collapsed,
            forall|k: usize, j: usize|
                self.in_cycle(k) && #[trigger] connected(after.links, k, j) ==> j == k,
            forall|a: usize, b: usize, t: usize| #[trigger]
                after.links.contains((a, b, t)) ==> after.cells[a as int] is Entangled
                    && after.cells[b as int] is Entangled,
    {
        let c = self.cycle->Some_0;
        let n = c.position(coordinate);
        let s = c.shifted(n);
        assert forall|k: usize| #[trigger] self.in_cycle(k) implies after.cells[k as int]
            is Collapsed by {
            let at = choose|at: int|
                0 <= at < c.coordinates.len() && self.node(#[trigger] c.coordinates[at]) == k;
            let place = if at >= n {
                at - n
            } else {
                at - n + c.coordinates.len()
            };
            lemma_shifted(c, n, place);
            let step = lemma_visited_by(s, place);
            assert(after.cell(s.coordinates[visited(s, step)]) is Collapsed);
            lemma_index_round_trip(c.coordinates[at], self.size as int);
        }
        assert forall|a: usize, b: usize, t: usize| #[trigger]
            after.links.contains((a, b, t)) implies after.cells[a as int] is Entangled
            && after.cells[b as int] is Entangled && !self.collapse_reaches(a)
            && !self.collapse_reaches(b) by {
            assert(after.cells[a as int].symbol_at(t as int) is Some);
            assert(after.cells[b as int].symbol_at(t as int) is Some);
            assert(self.links.contains((a, b, t)));
            if self.collapse_reaches(b) {
                assert(linked(self.links, b, a, t));
                self.lemma_reaches_next(b, a);
            }
        }
        assert forall|k: usize, j: usize|
            self.in_cycle(k) && #[trigger] connected(after.links, k, j) implies j == k by {
            let path = choose|path: Seq<usize>| is_walk(after.links, path, k, j);
            if path.len() >= 2 {
                assert(steps(after.links, path, 0int));
                let t = choose|t: usize| #[trigger] linked(after.links, path[0], path[1], t);
                self.lemma_reaches_cycle(k);
            }
        }
    }
}

} // verus!
