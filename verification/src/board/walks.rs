//! Walks through links: how they are continued, joined, reversed and cut
//! short.

use vstd::prelude::*;
use crate::board::graph::{adjacent, connected, is_shortest_walk, is_walk, linked, steps};

verus! {

/// Two nodes that a link joins are the two ends of a walk of two nodes.
pub proof fn lemma_link_is_walk(links: Set<(usize, usize, usize)>, a: usize, b: usize)
    requires
        adjacent(links, a, b),
    ensures
        is_walk(links, seq![a, b], a, b),
        connected(links, a, b),
{
    let path = seq![a, b];
    assert forall|k: int| 0 <= k < path.len() - 1 implies #[trigger] steps(links, path, k) by {
        assert(k == 0);
    }
}

/// A link joins its two nodes in both directions.
pub proof fn lemma_adjacent_symmetric(links: Set<(usize, usize, usize)>, a: usize, b: usize)
    requires
        adjacent(links, a, b),
    ensures
        adjacent(links, b, a),
{
    let t = choose|t: usize| #[trigger] linked(links, a, b, t);
    assert(linked(links, b, a, t));
}

/// A walk can be continued along a link of its last node.
pub proof fn lemma_walk_extends(
    links: Set<(usize, usize, usize)>,
    path: Seq<usize>,
    a: usize,
    b: usize,
    c: usize,
)
    requires
        is_walk(links, path, a, b),
        adjacent(links, b, c),
    ensures
        is_walk(links, path.push(c), a, c),
{
    let longer = path.push(c);
    assert forall|k: int| 0 <= k < longer.len() - 1 implies #[trigger] steps(links, longer, k) by {
        if k < path.len() - 1 {
            assert(steps(links, path, k));
        }
    }
}

/// A walk stays a walk when links are added.
pub proof fn lemma_walk_in_more_links(
    links: Set<(usize, usize, usize)>,
    more: Set<(usize, usize, usize)>,
    path: Seq<usize>,
    a: usize,
    b: usize,
)
    requires
        is_walk(links, path, a, b),
        links.subset_of(more),
    ensures
        is_walk(more, path, a, b),
{
    assert forall|k: int| 0 <= k < path.len() - 1 implies #[trigger] steps(more, path, k) by {
        assert(steps(links, path, k));
        let t = choose|t: usize| #[trigger] linked(links, path[k], path[k + 1], t);
        assert(linked(more, path[k], path[k + 1], t));
    }
}

/// A walk can be walked backwards.
pub proof fn lemma_walk_reverses(
    links: Set<(usize, usize, usize)>,
    path: Seq<usize>,
    a: usize,
    b: usize,
)
    requires
        is_walk(links, path, a, b),
    ensures
        is_walk(links, path.reverse(), b, a),
{
    let back = path.reverse();
    assert forall|k: int| 0 <= k < back.len() - 1 implies #[trigger] steps(links, back, k) by {
        let i = path.len() - 2 - k;
        assert(back[k] == path[i + 1]);
        assert(back[k + 1] == path[i]);
        assert(steps(links, path, i));
        lemma_adjacent_symmetric(links, path[i], path[i + 1]);
    }
}

/// A walk that ends where another starts can be continued by it.
pub proof fn lemma_walk_joins(
    links: Set<(usize, usize, usize)>,
    first: Seq<usize>,
    second: Seq<usize>,
    a: usize,
    b: usize,
    c: usize,
)
    requires
        is_walk(links, first, a, b),
        is_walk(links, second, b, c),
    ensures
        is_walk(links, first + second.subrange(1, second.len() as int), a, c),
{
    let rest = second.subrange(1, second.len() as int);
    let whole = first + rest;
    assert forall|k: int| 0 <= k < whole.len() - 1 implies #[trigger] steps(links, whole, k) by {
        if k < first.len() - 1 {
            assert(steps(links, first, k));
        } else {
            let i = k - (first.len() - 1);
            assert(whole[k] == second[i]);
            assert(whole[k + 1] == second[i + 1]);
            assert(steps(links, second, i));
        }
    }
    if rest.len() == 0 {
        assert(whole =~= first);
    }
}

/// Cells that a walk joins are joined in both directions.
pub proof fn lemma_connected_symmetric(links: Set<(usize, usize, usize)>, a: usize, b: usize)
    requires
        connected(links, a, b),
    ensures
        connected(links, b, a),
{
    let path = choose|path: Seq<usize>| is_walk(links, path, a, b);
    lemma_walk_reverses(links, path, a, b);
}

/// Cells that are joined to a cell in the middle are joined to each other.
pub proof fn lemma_connected_transitive(
    links: Set<(usize, usize, usize)>,
    a: usize,
    b: usize,
    c: usize,
)
    requires
        connected(links, a, b),
        connected(links, b, c),
    ensures
        connected(links, a, c),
{
    let first = choose|path: Seq<usize>| is_walk(links, path, a, b);
    let second = choose|path: Seq<usize>| is_walk(links, path, b, c);
    lemma_walk_joins(links, first, second, a, b, c);
}

/// Cells that are joined stay joined when links are added.
pub proof fn lemma_connected_in_more_links(
    links: Set<(usize, usize, usize)>,
    more: Set<(usize, usize, usize)>,
    a: usize,
    b: usize,
)
    requires
        connected(links, a, b),
        links.subset_of(more),
    ensures
        connected(more, a, b),
{
    let path = choose|path: Seq<usize>| is_walk(links, path, a, b);
    lemma_walk_in_more_links(links, more, path, a, b);
}

/// Every cell is joined to itself.
pub proof fn lemma_connected_to_itself(links: Set<(usize, usize, usize)>, a: usize)
    ensures
        connected(links, a, a),
{
    assert(is_walk(links, seq![a], a, a));
}

/// A walk through links of which one is new either needs the new link or
/// does not: its two ends are joined without it, or each of them is joined
/// without it to another end of the new link.
#[verifier::rlimit(40)]
pub proof fn lemma_walk_with_new_link(
    links: Set<(usize, usize, usize)>,
    a: usize,
    b: usize,
    t: usize,
    path: Seq<usize>,
    x: usize,
    y: usize,
)
    requires
        is_walk(links.insert((a, b, t)), path, x, y),
    ensures
        connected(links, x, y) || (connected(links, x, a) && connected(links, b, y)) || (connected(
            links,
            x,
            b,
        ) && connected(links, a, y)),
    decreases path.len(),
{
    let more = links.insert((a, b, t));
    if path.len() == 1 {
        lemma_connected_to_itself(links, x);
    } else {
        let shorter = path.drop_last();
        let z = shorter[shorter.len() - 1];
        assert forall|k: int| 0 <= k < shorter.len() - 1 implies #[trigger] steps(
            more,
            shorter,
            k,
        ) by {
            assert(steps(more, path, k));
        }
        lemma_walk_with_new_link(links, a, b, t, shorter, x, z);
        assert(steps(more, path, path.len() - 2));
        let u = choose|u: usize| #[trigger] linked(more, z, y, u);
        if linked(links, z, y, u) {
            assert(adjacent(links, z, y));
            lemma_link_is_walk(links, z, y);
            if connected(links, x, z) {
                lemma_connected_transitive(links, x, z, y);
            } else if connected(links, x, a) && connected(links, b, z) {
                lemma_connected_transitive(links, b, z, y);
            } else {
                lemma_connected_transitive(links, a, z, y);
            }
        } else if z == a && y == b {
            lemma_connected_to_itself(links, b);
            if connected(links, x, z) {
            } else if connected(links, x, a) && connected(links, b, z) {
            } else {
            }
        } else {
            assert(z == b && y == a);
            lemma_connected_to_itself(links, a);
            if connected(links, x, z) {
            } else if connected(links, x, a) && connected(links, b, z) {
            } else {
            }
        }
    }
}

/// A walk that does not pass a cell does not need the links of that cell.
pub proof fn lemma_walk_avoids_links(
    links: Set<(usize, usize, usize)>,
    path: Seq<usize>,
    a: usize,
    b: usize,
    gone: (usize, usize, usize),
    k: usize,
)
    requires
        is_walk(links, path, a, b),
        !path.contains(k),
        gone.0 == k || gone.1 == k,
    ensures
        is_walk(links.remove(gone), path, a, b),
{
    let fewer = links.remove(gone);
    assert forall|i: int| 0 <= i < path.len() - 1 implies #[trigger] steps(fewer, path, i) by {
        assert(steps(links, path, i));
        let t = choose|t: usize| #[trigger] linked(links, path[i], path[i + 1], t);
        assert(path.contains(path[i]));
        assert(path.contains(path[i + 1]));
        assert(linked(fewer, path[i], path[i + 1], t));
    }
}

/// The part of a walk from some place on does not need a link between two
/// cells of which one, `x`, is not passed on that part, or only at its start
/// and not followed by the other.
pub proof fn lemma_walk_part_avoids_link(
    links: Set<(usize, usize, usize)>,
    path: Seq<usize>,
    from: int,
    gone: (usize, usize, usize),
    x: usize,
    y: usize,
)
    requires
        is_walk(links, path, path[0], path[path.len() - 1]),
        0 <= from < path.len(),
        (gone.0 == x && gone.1 == y) || (gone.0 == y && gone.1 == x),
        forall|j: int| from < j < path.len() ==> path[j] != x,
        path[from] == x ==> (from + 1 < path.len() ==> path[from + 1] != y),
    ensures
        is_walk(
            links.remove(gone),
            path.subrange(from, path.len() as int),
            path[from],
            path[path.len() - 1],
        ),
{
    let fewer = links.remove(gone);
    let part = path.subrange(from, path.len() as int);
    assert forall|m: int| 0 <= m < part.len() - 1 implies #[trigger] steps(fewer, part, m) by {
        let j = from + m;
        assert(part[m] == path[j] && part[m + 1] == path[j + 1]);
        assert(steps(links, path, j));
        let u = choose|u: usize| #[trigger] linked(links, path[j], path[j + 1], u);
        assert(linked(fewer, path[j], path[j + 1], u));
    }
}

/// A shortest walk visits no node twice.
#[verifier::rlimit(40)]
pub proof fn lemma_shortest_walk_is_simple(
    links: Set<(usize, usize, usize)>,
    path: Seq<usize>,
    a: usize,
    b: usize,
)
    requires
        is_shortest_walk(links, path, a, b),
    ensures
        forall|i: int, j: int| 0 <= i < j < path.len() ==> path[i] != path[j],
{
    assert forall|i: int, j: int| 0 <= i < j < path.len() implies path[i] != path[j] by {
        if path[i] == path[j] {
            let len = path.len() as int;
            let cut = path.subrange(0, i) + path.subrange(j, len);
            assert(cut.len() == len - (j - i));
            assert forall|k: int| 0 <= k < cut.len() - 1 implies #[trigger] steps(
                links,
                cut,
                k,
            ) by {
                if k + 1 < i {
                    assert(cut[k] == path[k] && cut[k + 1] == path[k + 1]);
                    assert(steps(links, path, k));
                } else if k + 1 == i {
                    assert(cut[k] == path[k]);
                    assert(cut[k + 1] == path[j]);
                    assert(steps(links, path, k));
                } else {
                    assert(cut[k] == path[k + (j - i)]);
                    assert(cut[k + 1] == path[k + (j - i) + 1]);
                    assert(steps(links, path, k + (j - i)));
                }
            }
            assert(cut[0] == a);
            assert(cut[cut.len() - 1] == b);
            assert(is_walk(links, cut, a, b));
        }
    }
}

/// Taking one element out of a sequence without doubles by moving the last
/// element into its place leaves a sequence without doubles, which holds
/// what the sequence held but for that element.
pub proof fn lemma_swap_remove<T>(s: Seq<T>, i: int)
    requires
        s.no_duplicates(),
        0 <= i < s.len(),
    ensures
        s.update(i, s.last()).drop_last().no_duplicates(),
        s.update(i, s.last()).drop_last().to_set() == s.to_set().remove(s[i]),
{
    let r = s.update(i, s.last()).drop_last();
    let last = s.len() - 1;
    assert forall|x: T| r.to_set().contains(x) <==> s.to_set().remove(s[i]).contains(x) by {
        if r.to_set().contains(x) {
            let k = choose|k: int| 0 <= k < r.len() && r[k] == x;
            if k == i {
                assert(s[last] == x);
            } else {
                assert(s[k] == x);
            }
            assert(s.contains(x));
        }
        if s.to_set().remove(s[i]).contains(x) {
            let k = choose|k: int| 0 <= k < s.len() && s[k] == x;
            if k == last {
                assert(r[i] == x);
            } else {
                assert(r[k] == x);
            }
            assert(r.contains(x));
        }
    }
    assert(r.to_set() =~= s.to_set().remove(s[i]));
}

} // verus!
