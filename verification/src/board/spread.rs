//! What holds while a collapse spreads from the cycle along the links, and
//! why the board is as it should be when it has spread as far as it goes.

use vstd::prelude::*;
use crate::board::graph::{adjacent, is_walk, joins, linked, steps};
use crate::board::view::{lemma_shifted, lemma_visited, lemma_visited_by, visited, BoardView};
use crate::cycle::CycleView;
use crate::field::FieldView;
use crate::field_coordinate::{lemma_index_round_trip, FieldCoordinate};
use crate::player_symbol::PlayerSymbol;

verus! {

/// Whether `path` is a walk through the links of `start` from `from`, a cell
/// of its waiting cycle, to `x`, all of whose cells are collapsed on `now`.
pub open spec fn settled_walk(
    start: BoardView,
    now: BoardView,
    from: usize,
    path: Seq<usize>,
    x: usize,
) -> bool {
    &&& start.in_cycle(from)
    &&& is_walk(start.links, path, from, x)
    &&& forall|i: int|
        0 <= i < path.len() ==> (#[trigger] path[i]) < start.area() && now.cells[path[i] as int]
            is Collapsed
}

/// Whether a walk along cells that are collapsed on `now` leads to `x` from
/// a cell of the waiting cycle of `start`.
pub open spec fn settled(start: BoardView, now: BoardView, x: usize) -> bool {
    exists|from: usize, path: Seq<usize>| #[trigger] settled_walk(start, now, from, path, x)
}

/// A cell stays settled while cells are collapsed.
pub proof fn lemma_settled_stays(start: BoardView, before: BoardView, after: BoardView, x: usize)
    requires
        settled(start, before, x),
        forall|k: usize|
            k < start.area() && before.cells[k as int] is Collapsed ==> (
            #[trigger] after.cells[k as int]) is Collapsed,
    ensures
        settled(start, after, x),
{
    let (from, path) = choose|from: usize, path: Seq<usize>| #[trigger]
        settled_walk(start, before, from, path, x);
    assert(settled_walk(start, after, from, path, x));
}

/// A collapse reaches the cells that are settled.
pub proof fn lemma_settled_reached(start: BoardView, now: BoardView, x: usize)
    requires
        settled(start, now, x),
    ensures
        start.collapse_reaches(x),
        x < start.area(),
        now.cells[x as int] is Collapsed,
{
    let (from, path) = choose|from: usize, path: Seq<usize>| #[trigger]
        settled_walk(start, now, from, path, x);
    assert(start.reaches_from(from, x));
    assert(path[path.len() - 1] == x);
}

/// A settled cell that is linked to a collapsed cell settles that cell, and
/// the collapse reaches the settled cell before any cell that is entangled.
pub proof fn lemma_settled_next(start: BoardView, now: BoardView, u: usize, v: usize)
    requires
        settled(start, now, u),
        adjacent(start.links, u, v),
        v < start.area(),
    ensures
        now.cells[v as int] is Collapsed ==> settled(start, now, v),
        !(now.cells[v as int] is Collapsed) ==> start.reaches_around(u, v),
{
    let (from, path) = choose|from: usize, path: Seq<usize>| #[trigger]
        settled_walk(start, now, from, path, u);
    if now.cells[v as int] is Collapsed {
        crate::board::walks::lemma_walk_extends(start.links, path, from, u, v);
        assert(settled_walk(start, now, from, path.push(v), v));
    } else {
        assert(!path.contains(v));
        assert(start.walks_around(from, path, u, v));
    }
}

/// What holds while a collapse spreads from the cycle `s` of the board
/// `start`, seen on the board `now`: `pending` are the collapsed cells whose
/// links are still to be followed, and `at` is the cell whose links are being
/// followed.
#[verifier::opaque]
pub open spec fn spreading(
    start: BoardView,
    s: CycleView,
    index: usize,
    now: BoardView,
    pending: Seq<usize>,
    at: Option<usize>,
) -> bool {
    &&& now.size == start.size
    &&& now.cells.len() == start.cells.len()
    &&& now.links.subset_of(start.links)
    &&& s.wf()
    &&& forall|i: int|
        0 <= i < s.coordinates.len() ==> (#[trigger] s.coordinates[i]).in_range(start.size as int)
    &&& forall|step: nat|
        step < s.coordinates.len() ==> #[trigger] now.cell(s.coordinates[visited(s, step)])
            == FieldView::Collapsed(start.forced_symbol(s, index, step)->Some_0)
    &&& forall|k: usize|
        k < start.area() && !start.collapse_reaches(k) ==> #[trigger] now.cells[k as int]
            == start.cells[k as int]
    &&& forall|k: usize|
        k < start.area() && #[trigger] now.cells[k as int] != start.cells[k as int]
            && !start.in_cycle(k) ==> exists|u: usize, t: usize| #[trigger]
            start.entered(now, k, u, t)
    &&& forall|k: usize|
        k < start.area() ==> #[trigger] now.cells[k as int] == start.cells[k as int]
            || now.cells[k as int] is Collapsed
    &&& forall|a: usize, b: usize, t: usize| #[trigger]
        now.links.contains((a, b, t)) ==> (now.cells[a as int] is Collapsed ==> pending.contains(a)
            || at == Some(a)) && (now.cells[b as int] is Collapsed ==> pending.contains(b) || at
            == Some(b))
    &&& forall|a: usize, b: usize, t: usize| #[trigger]
        start.links.contains((a, b, t)) ==> now.links.contains((a, b, t)) || (now.cells[a as int]
            is Collapsed && now.cells[b as int] is Collapsed)
    &&& forall|j: int|
        0 <= j < pending.len() ==> (#[trigger] pending[j]) < start.area()
            && start.collapse_reaches(pending[j]) && now.cells[pending[j] as int] is Collapsed
            && settled(start, now, pending[j])
}

/// Where a collapse has spread as far as it goes, every cell on a walk from
/// a cell of the cycle is collapsed.
#[verifier::rlimit(40)]
pub proof fn lemma_reached_collapsed(
    start: BoardView,
    s: CycleView,
    index: usize,
    now: BoardView,
    from: usize,
    path: Seq<usize>,
    i: int,
)
    requires
        start.wf(),
        spreading(start, s, index, now, Seq::<usize>::empty(), None),
        start.cycle matches Some(c) && exists|n: int|
            0 <= n < c.coordinates.len() && s == c.shifted(n),
        start.in_cycle(from),
        is_walk(start.links, path, from, path[path.len() - 1]),
        0 <= i < path.len(),
    ensures
        now.cells[path[i] as int] is Collapsed,
        path[i] < start.area(),
    decreases i,
{
    reveal(spreading);
    let c = start.cycle->Some_0;
    let n = choose|n: int| 0 <= n < c.coordinates.len() && s == c.shifted(n);
    if i == 0 {
        let at = choose|at: int|
            0 <= at < c.coordinates.len() && start.node(#[trigger] c.coordinates[at]) == from;
        let place = if at >= n {
            at - n
        } else {
            at - n + c.coordinates.len()
        };
        lemma_shifted(c, n, place);
        let step = lemma_visited_by(s, place);
        assert(now.cell(s.coordinates[visited(s, step)]) is Collapsed);
        lemma_index_round_trip(c.coordinates[at], start.size as int);
    } else {
        lemma_reached_collapsed(start, s, index, now, from, path, i - 1);
        assert(steps(start.links, path, i - 1));
        let t = choose|t: usize| #[trigger] linked(start.links, path[i - 1], path[i], t);
        start.lemma_link_in_range(path[i - 1], path[i], t);
        if start.links.contains((path[i - 1], path[i], t)) {
            assert(!now.links.contains((path[i - 1], path[i], t))) by {
                if now.links.contains((path[i - 1], path[i], t)) {
                    assert(Seq::<usize>::empty().contains(path[i - 1]));
                }
            }
        } else {
            assert(start.links.contains((path[i], path[i - 1], t)));
            assert(!now.links.contains((path[i], path[i - 1], t))) by {
                if now.links.contains((path[i], path[i - 1], t)) {
                    assert(Seq::<usize>::empty().contains(path[i - 1]));
                }
            }
        }
    }
}

/// What holds when a collapse starts to spread: the cells of the cycle are
/// collapsed as the walk forced them, the links between them are taken out,
/// and their links are still to be followed.
#[verifier::rlimit(40)]
pub proof fn lemma_spread_starts(
    start: BoardView,
    n: int,
    index: usize,
    forced: BoardView,
    now: BoardView,
    pending: Seq<usize>,
    plan: Seq<PlayerSymbol>,
)
    requires
        start.wf(),
        start.cycle is Some,
        0 <= n < start.cycle->Some_0.coordinates.len(),
        plan.len() == start.cycle->Some_0.coordinates.len(),
        forall|step: nat|
            step < plan.len() ==> Some(#[trigger] plan[step as int]) == start.forced_symbol(
                start.cycle->Some_0.shifted(n),
                index,
                step,
            ),
        forced.size == start.size,
        forced.cells.len() == start.cells.len(),
        forall|step: nat|
            step < plan.len() ==> #[trigger] forced.cell(
                start.cycle->Some_0.shifted(n).coordinates[visited(
                    start.cycle->Some_0.shifted(n),
                    step,
                )],
            ) == FieldView::Collapsed(plan[step as int]),
        forall|k: int|
            0 <= k < start.cells.len() && (forall|i: int|
                0 <= i < plan.len() ==> start.node(
                    #[trigger] start.cycle->Some_0.shifted(n).coordinates[i],
                ) != k) ==> #[trigger] forced.cells[k] == start.cells[k],
        now.size == start.size,
        now.cells == forced.cells,
        now.links.subset_of(start.links),
        forall|a: usize, b: usize, t: usize| #[trigger]
            start.links.contains((a, b, t)) ==> now.links.contains((a, b, t)) || (exists|i: int|
                0 <= i < plan.len() && start.node(
                    #[trigger] start.cycle->Some_0.shifted(n).coordinates[i],
                ) == a) && (exists|i: int|
                0 <= i < plan.len() && start.node(
                    #[trigger] start.cycle->Some_0.shifted(n).coordinates[i],
                ) == b),
        pending.len() == plan.len(),
        forall|k: int|
            0 <= k < pending.len() ==> #[trigger] pending[k] == start.node(
                start.cycle->Some_0.shifted(n).coordinates[k],
            ),
    ensures
        spreading(start, start.cycle->Some_0.shifted(n), index, now, pending, None),
{
    reveal(spreading);
    let c = start.cycle->Some_0;
    let s = c.shifted(n);
    assert(s.coordinates.len() == c.coordinates.len()) by {
        lemma_shifted(c, n, 0);
    }
    assert forall|i: int| 0 <= i < s.coordinates.len() implies (
    #[trigger] s.coordinates[i]).in_range(start.size as int) by {
        lemma_shifted(c, n, i);
    }
    assert forall|k: usize| #[trigger] start.in_cycle(k) <==> exists|j: int|
        0 <= j < s.coordinates.len() && start.node(#[trigger] s.coordinates[j]) == k by {
        if start.in_cycle(k) {
            let at = choose|at: int|
                0 <= at < c.coordinates.len() && start.node(#[trigger] c.coordinates[at]) == k;
            let place = if at >= n {
                at - n
            } else {
                at - n + c.coordinates.len()
            };
            lemma_shifted(c, n, place);
            assert(start.node(s.coordinates[place]) == k);
        }
        if exists|j: int|
            0 <= j < s.coordinates.len() && start.node(#[trigger] s.coordinates[j]) == k {
            let j = choose|j: int|
                0 <= j < s.coordinates.len() && start.node(#[trigger] s.coordinates[j]) == k;
            lemma_shifted(c, n, j);
            let at = if j < c.coordinates.len() - n {
                j + n
            } else {
                j + n - c.coordinates.len()
            };
            assert(start.node(c.coordinates[at]) == k);
        }
    }
    assert forall|j: int| 0 <= j < s.coordinates.len() implies #[trigger] now.cell(
        s.coordinates[j],
    ) is Collapsed && start.in_cycle(start.node(s.coordinates[j])) && start.node(s.coordinates[j])
        == s.coordinates[j].index(start.size as int) && start.node(s.coordinates[j])
        < start.area() by {
        let step = lemma_visited_by(s, j);
        assert(forced.cell(s.coordinates[visited(s, step)]) is Collapsed);
        lemma_index_round_trip(s.coordinates[j], start.size as int);
    }
    assert forall|step: nat| step < s.coordinates.len() implies #[trigger] now.cell(
        s.coordinates[visited(s, step)],
    ) == FieldView::Collapsed(start.forced_symbol(s, index, step)->Some_0) by {
        assert(forced.cell(s.coordinates[visited(s, step)]) == FieldView::Collapsed(
            plan[step as int],
        ));
        assert(Some(plan[step as int]) == start.forced_symbol(s, index, step));
    }
    assert forall|k: usize|
        k < start.area() && !start.in_cycle(k) implies #[trigger] now.cells[k as int]
        == start.cells[k as int] by {
        assert(forced.cells[k as int] == start.cells[k as int]);
    }
    assert forall|k: usize|
        k < start.area() && !start.collapse_reaches(k) implies #[trigger] now.cells[k as int]
        == start.cells[k as int] by {
        if start.in_cycle(k) {
            start.lemma_reaches_cycle(k);
        }
    }
    assert forall|k: usize| k < start.area() implies #[trigger] now.cells[k as int]
        == start.cells[k as int] || now.cells[k as int] is Collapsed by {
        if start.in_cycle(k) {
            let j = choose|j: int|
                0 <= j < s.coordinates.len() && start.node(#[trigger] s.coordinates[j]) == k;
            assert(now.cell(s.coordinates[j]) is Collapsed);
        }
    }
    assert forall|a: usize, b: usize, t: usize| #[trigger]
        now.links.contains((a, b, t)) implies (now.cells[a as int] is Collapsed
        ==> pending.contains(a)) && (now.cells[b as int] is Collapsed ==> pending.contains(b)) by {
        assert(start.links.contains((a, b, t)));
        assert(start.cells[a as int].symbol_at(t as int) is Some);
        assert(start.cells[b as int].symbol_at(t as int) is Some);
        if now.cells[a as int] is Collapsed {
            assert(start.in_cycle(a));
            let j = choose|j: int|
                0 <= j < s.coordinates.len() && start.node(#[trigger] s.coordinates[j]) == a;
            assert(pending[j] == a);
        }
        if now.cells[b as int] is Collapsed {
            assert(start.in_cycle(b));
            let j = choose|j: int|
                0 <= j < s.coordinates.len() && start.node(#[trigger] s.coordinates[j]) == b;
            assert(pending[j] == b);
        }
    }
    assert forall|a: usize, b: usize, t: usize| #[trigger]
        start.links.contains((a, b, t)) implies now.links.contains((a, b, t)) || (
    now.cells[a as int] is Collapsed && now.cells[b as int] is Collapsed) by {
        if !now.links.contains((a, b, t)) {
            let i = choose|i: int|
                0 <= i < plan.len() && start.node(#[trigger] s.coordinates[i]) == a;
            assert(now.cell(s.coordinates[i]) is Collapsed);
            let j = choose|j: int|
                0 <= j < plan.len() && start.node(#[trigger] s.coordinates[j]) == b;
            assert(now.cell(s.coordinates[j]) is Collapsed);
        }
    }
    assert forall|j: int| 0 <= j < pending.len() implies (#[trigger] pending[j]) < start.area()
        && start.collapse_reaches(pending[j]) && now.cells[pending[j] as int] is Collapsed
        && settled(start, now, pending[j]) by {
        assert(now.cell(s.coordinates[j]) is Collapsed);
        start.lemma_reaches_cycle(pending[j]);
        let alone = seq![pending[j]];
        assert(is_walk(start.links, alone, pending[j], pending[j]));
        assert(settled_walk(start, now, pending[j], alone, pending[j]));
    }
}

/// What holds while a collapse spreads does not depend on the cycle that
/// waits on the board.
pub proof fn lemma_spreading_without_cycle(
    start: BoardView,
    s: CycleView,
    index: usize,
    now: BoardView,
)
    requires
        spreading(start, s, index, now, Seq::<usize>::empty(), None),
    ensures
        spreading(
            start,
            s,
            index,
            BoardView { cycle: None, ..now },
            Seq::<usize>::empty(),
            None,
        ),
{
    reveal(spreading);
    let after = BoardView { cycle: None, ..now };
    assert forall|step: nat| step < s.coordinates.len() implies #[trigger] after.cell(
        s.coordinates[visited(s, step)],
    ) == FieldView::Collapsed(start.forced_symbol(s, index, step)->Some_0) by {
        assert(now.cell(s.coordinates[visited(s, step)]) == FieldView::Collapsed(
            start.forced_symbol(s, index, step)->Some_0,
        ));
    }
    assert forall|k: usize|
        k < start.area() && #[trigger] after.cells[k as int] != start.cells[k as int]
            && !start.in_cycle(k) implies exists|u: usize, t: usize| #[trigger]
        start.entered(after, k, u, t) by {
        let (u, t) = choose|u: usize, t: usize| #[trigger] start.entered(now, k, u, t);
        assert(start.entered(after, k, u, t));
    }
}

/// Where a collapse has spread as far as it goes and the cycle is given up,
/// the board is well formed and is the board after the collapse.
#[verifier::rlimit(40)]
pub proof fn lemma_spread_done(
    start: BoardView,
    s: CycleView,
    index: usize,
    now: BoardView,
    coordinate: FieldCoordinate,
)
    requires
        start.wf(),
        now.links.finite(),
        now.cycle is None,
        spreading(start, s, index, now, Seq::<usize>::empty(), None),
        start.cycle matches Some(c) && c.coordinates.contains(coordinate) && s == c.shifted(
            c.position(coordinate),
        ),
    ensures
        now.wf(),
        start.resolved(now, coordinate, index),
{
    reveal(spreading);
    let c = start.cycle->Some_0;
    let n = c.position(coordinate);
    assert(0 <= n < c.coordinates.len() && s == c.shifted(n));
    assert forall|k: usize| start.collapse_reaches(k) implies k < start.area()
        && now.cells[k as int] is Collapsed by {
        let from = choose|from: usize| #[trigger] start.reaches_from(from, k);
        let path = choose|path: Seq<usize>| is_walk(start.links, path, from, k);
        lemma_reached_collapsed(start, s, index, now, from, path, path.len() - 1);
    }
    assert forall|a: usize, b: usize, t: usize| #[trigger] now.links.contains((a, b, t)) implies {
        &&& a < now.area()
        &&& b < now.area()
        &&& a != b
        &&& now.cells[a as int].symbol_at(t as int) is Some
        &&& now.cells[b as int].symbol_at(t as int) is Some
        &&& !start.collapse_reaches(a)
        &&& !start.collapse_reaches(b)
    } by {
        assert(start.links.contains((a, b, t)));
        assert(!(now.cells[a as int] is Collapsed)) by {
            if now.cells[a as int] is Collapsed {
                assert(Seq::<usize>::empty().contains(a));
            }
        }
        assert(!(now.cells[b as int] is Collapsed)) by {
            if now.cells[b as int] is Collapsed {
                assert(Seq::<usize>::empty().contains(b));
            }
        }
        assert(now.cells[a as int] == start.cells[a as int]);
        assert(now.cells[b as int] == start.cells[b as int]);
    }
    start.lemma_fewer_links_simple(now);
    start.lemma_fewer_links_forest(now);
    assert forall|k: int| 0 <= k < now.cells.len() implies (
    #[trigger] now.cells[k] matches FieldView::Entangled(slots) ==> slots.len() == now.area()) by {
        assert(now.cells[k as usize as int] == start.cells[k] || now.cells[k] is Collapsed);
        assert(start.cells[k] matches FieldView::Entangled(slots) ==> slots.len()
            == start.area());
    }
    assert(now.wf());
    assert forall|k: usize|
        k < start.area() && #[trigger] start.collapse_reaches(k) && !start.in_cycle(
            k,
        ) implies exists|u: usize, t: usize| #[trigger] start.entered(now, k, u, t) by {
        let from = choose|from: usize| #[trigger] start.reaches_from(from, k);
        let path = choose|path: Seq<usize>| is_walk(start.links, path, from, k);
        assert(path.len() >= 2);
        let last = path.len() - 1;
        assert(steps(start.links, path, last - 1));
        let t = choose|t: usize| #[trigger] linked(start.links, path[last - 1], k, t);
        start.lemma_link_in_range(path[last - 1], k, t);
        assert(now.cells[k as int] != start.cells[k as int]);
    }
    assert forall|l: (usize, usize, usize)| #[trigger]
        now.links.contains(l) <==> start.links.contains(l) && !start.collapse_reaches(l.0) by {
        let (a, b, t) = l;
        if now.links.contains(l) {
            assert(now.links.contains((a, b, t)));
        }
        if start.links.contains(l) && !start.collapse_reaches(l.0) {
            assert(start.links.contains((a, b, t)));
            assert(start.cells[a as int].symbol_at(t as int) is Some);
            assert(now.cells[a as int] == start.cells[a as int]);
        }
    }
}

/// What a spreading collapse has not changed: the side of the board, its
/// links but for those taken out, and its cells but for those collapsed.
pub proof fn lemma_spreading_keeps(
    start: BoardView,
    s: CycleView,
    index: usize,
    now: BoardView,
    pending: Seq<usize>,
    at: Option<usize>,
)
    requires
        spreading(start, s, index, now, pending, at),
    ensures
        now.size == start.size,
        now.cells.len() == start.cells.len(),
        now.links.subset_of(start.links),
        forall|k: usize|
            k < start.area() ==> #[trigger] now.cells[k as int] == start.cells[k as int]
                || now.cells[k as int] is Collapsed,
{
    reveal(spreading);
}

/// Taking the last of the cells whose links are still to be followed to
/// follow its links.
pub proof fn lemma_spread_takes(
    start: BoardView,
    s: CycleView,
    index: usize,
    now: BoardView,
    pending: Seq<usize>,
)
    requires
        spreading(start, s, index, now, pending, None),
        pending.len() > 0,
    ensures
        spreading(start, s, index, now, pending.drop_last(), Some(pending.last())),
        settled(start, now, pending.last()),
{
    reveal(spreading);
    let rest = pending.drop_last();
    let node = pending.last();
    assert(node == pending[pending.len() - 1]);
    assert forall|x: usize| pending.contains(x) implies rest.contains(x) || node == x by {
        let i = choose|i: int| 0 <= i < pending.len() && pending[i] == x;
        if i < pending.len() - 1 {
            assert(rest[i] == x);
        }
    }
    assert forall|j: int| 0 <= j < rest.len() implies (#[trigger] rest[j]) < start.area()
        && start.collapse_reaches(rest[j]) && now.cells[rest[j] as int] is Collapsed && settled(
        start,
        now,
        rest[j],
    ) by {
        assert(rest[j] == pending[j]);
    }
}

/// Following one link of the cell at `node`, to the cell at `neighbor`:
/// where that cell was entangled it is collapsed to the symbol that it
/// recorded for the link, the link is taken out, and the cell joins the
/// cells whose links are still to be followed.
#[verifier::rlimit(40)]
pub proof fn lemma_spread_follows(
    start: BoardView,
    s: CycleView,
    index: usize,
    earlier: BoardView,
    now: BoardView,
    pending: Seq<usize>,
    node: usize,
    neighbor: usize,
    weight: usize,
)
    requires
        start.wf(),
        spreading(start, s, index, earlier, pending, Some(node)),
        settled(start, earlier, node),
        linked(earlier.links, node, neighbor, weight),
        now.size == earlier.size,
        now.cells == (match earlier.cells[neighbor as int].symbol_at(weight as int) {
            Some(symbol) => earlier.cells.update(neighbor as int, FieldView::Collapsed(symbol)),
            None => earlier.cells,
        }),
        now.links.subset_of(earlier.links),
        forall|l: (usize, usize, usize)|
            earlier.links.contains(l) && !joins(l, node, neighbor) ==> (
            #[trigger] now.links.contains(l)),
    ensures
        spreading(start, s, index, now, pending.push(neighbor), Some(node)),
        settled(start, now, node),
{
    reveal(spreading);
    let after = pending.push(neighbor);
    assert(linked(start.links, node, neighbor, weight));
    assert(adjacent(start.links, node, neighbor));
    start.lemma_link_in_range(node, neighbor, weight);
    if start.links.contains((node, neighbor, weight)) {
        assert(start.cells[neighbor as int].symbol_at(weight as int) is Some);
    } else {
        assert(start.links.contains((neighbor, node, weight)));
        assert(start.cells[neighbor as int].symbol_at(weight as int) is Some);
    }
    assert(earlier.cells[neighbor as int] == start.cells[neighbor as int]
        || earlier.cells[neighbor as int] is Collapsed);
    assert(now.cells[neighbor as int] is Collapsed);
    assert forall|k: usize|
        k < start.area() && earlier.cells[k as int] is Collapsed implies (
    #[trigger] now.cells[k as int]) is Collapsed by {}
    lemma_settled_stays(start, earlier, now, node);
    lemma_settled_next(start, earlier, node, neighbor);
    lemma_settled_next(start, now, node, neighbor);
    lemma_settled_reached(start, earlier, node);
    start.lemma_reaches_next(node, neighbor);
    assert(after.contains(neighbor)) by {
        assert(after[after.len() - 1] == neighbor);
    }
    assert forall|x: usize| pending.contains(x) implies after.contains(x) by {
        let i = choose|i: int| 0 <= i < pending.len() && pending[i] == x;
        assert(after[i] == x);
    }
    assert forall|step: nat| step < s.coordinates.len() implies #[trigger] now.cell(
        s.coordinates[visited(s, step)],
    ) == FieldView::Collapsed(start.forced_symbol(s, index, step)->Some_0) by {
        lemma_visited(s, step);
        let c = s.coordinates[visited(s, step)];
        lemma_index_round_trip(c, start.size as int);
        assert(earlier.cell(c) == FieldView::Collapsed(
            start.forced_symbol(s, index, step)->Some_0,
        ));
        assert(earlier.cells[c.index(start.size as int)] is Collapsed);
    }
    assert forall|k: usize|
        k < start.area() && #[trigger] now.cells[k as int] != start.cells[k as int]
            && !start.in_cycle(k) implies exists|u: usize, t: usize| #[trigger]
        start.entered(now, k, u, t) by {
        if earlier.cells[k as int] == now.cells[k as int] {
            let (u, t) = choose|u: usize, t: usize| #[trigger] start.entered(earlier, k, u, t);
            assert(start.entered(now, k, u, t));
        } else {
            assert(k == neighbor);
            assert(start.entered(now, neighbor, node, weight));
        }
    }
    assert forall|a: usize, b: usize, t: usize| #[trigger] now.links.contains((a, b, t)) implies (
    now.cells[a as int] is Collapsed ==> after.contains(a) || Some(node) == Some(a)) && (
    now.cells[b as int] is Collapsed ==> after.contains(b) || Some(node) == Some(b)) by {
        assert(earlier.links.contains((a, b, t)));
        assert(linked(start.links, a, b, t));
        start.lemma_link_in_range(a, b, t);
    }
    assert forall|a: usize, b: usize, t: usize| #[trigger]
        start.links.contains((a, b, t)) implies now.links.contains((a, b, t)) || (
    now.cells[a as int] is Collapsed && now.cells[b as int] is Collapsed) by {
        assert(linked(start.links, a, b, t));
        start.lemma_link_in_range(a, b, t);
        if earlier.links.contains((a, b, t)) && !now.links.contains((a, b, t)) {
            assert(joins((a, b, t), node, neighbor));
            lemma_settled_reached(start, now, node);
        }
    }
    assert forall|j: int| 0 <= j < after.len() implies (#[trigger] after[j]) < start.area()
        && start.collapse_reaches(after[j]) && now.cells[after[j] as int] is Collapsed && settled(
        start,
        now,
        after[j],
    ) by {
        if j < pending.len() {
            assert(after[j] == pending[j]);
            lemma_settled_stays(start, earlier, now, pending[j]);
        }
    }
}

/// Having followed every link of the cell at `node`.
pub proof fn lemma_spread_leaves(
    start: BoardView,
    s: CycleView,
    index: usize,
    now: BoardView,
    pending: Seq<usize>,
    node: usize,
)
    requires
        spreading(start, s, index, now, pending, Some(node)),
        forall|a: usize, b: usize, t: usize| #[trigger]
            now.links.contains((a, b, t)) ==> a != node && b != node,
    ensures
        spreading(start, s, index, now, pending, None),
{
    reveal(spreading);
}

} // verus!
