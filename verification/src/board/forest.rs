//! Links that make no ring, and how many of them there can be.

use vstd::prelude::*;
use vstd::set_lib::{lemma_set_disjoint_lens, lemma_set_subset_finite};
use crate::board::graph::{connected, linked};
use crate::board::walks::{
    lemma_connected_in_more_links, lemma_connected_to_itself, lemma_connected_transitive,
    lemma_link_is_walk,
};

verus! {

/// Whether the links make no ring: no walk leads from one node of a link to
/// the other but through the link.
pub open spec fn forest(links: Set<(usize, usize, usize)>) -> bool {
    forall|a: usize, b: usize, t: usize| #[trigger]
        links.contains((a, b, t)) ==> !connected(links.remove((a, b, t)), a, b)
}

/// Whether both nodes of every link are among `nodes`.
pub open spec fn within(links: Set<(usize, usize, usize)>, nodes: Set<usize>) -> bool {
    forall|a: usize, b: usize, t: usize| #[trigger]
        links.contains((a, b, t)) ==> nodes.contains(a) && nodes.contains(b)
}

/// Taking links away makes no ring.
pub proof fn lemma_fewer_links_forest(
    links: Set<(usize, usize, usize)>,
    fewer: Set<(usize, usize, usize)>,
)
    requires
        forest(links),
        fewer.subset_of(links),
    ensures
        forest(fewer),
{
    assert forall|a: usize, b: usize, t: usize| #[trigger]
        fewer.contains((a, b, t)) implies !connected(fewer.remove((a, b, t)), a, b) by {
        assert(links.contains((a, b, t)));
        if connected(fewer.remove((a, b, t)), a, b) {
            lemma_connected_in_more_links(fewer.remove((a, b, t)), links.remove((a, b, t)), a, b);
        }
    }
}

/// A finite set falls into the elements that have a property and those that
/// lack it.
pub proof fn lemma_split<A>(s: Set<A>, holds: spec_fn(A) -> bool)
    requires
        s.finite(),
    ensures
        s.filter(holds).finite(),
        s.filter(|x: A| !holds(x)).finite(),
        s.filter(holds).len() + s.filter(|x: A| !holds(x)).len() == s.len(),
{
    let with = s.filter(holds);
    let without = s.filter(|x: A| !holds(x));
    lemma_set_subset_finite(s, with);
    lemma_set_subset_finite(s, without);
    assert(with.disjoint(without));
    assert(with + without =~= s);
    lemma_set_disjoint_lens(with, without);
}

/// Links that make no ring are fewer than the nodes that they join.
pub proof fn lemma_forest_bound(links: Set<(usize, usize, usize)>, nodes: Set<usize>)
    requires
        links.finite(),
        nodes.finite(),
        forest(links),
        within(links, nodes),
        nodes.len() > 0,
    ensures
        links.len() + 1 <= nodes.len(),
    decreases links.len(),
{
    if links.len() > 0 {
        let link = links.choose();
        let (a, b, t) = link;
        assert(links.contains((a, b, t)));
        let rest = links.remove(link);
        let near = |v: usize| connected(rest, a, v);
        let near_link = |e: (usize, usize, usize)| connected(rest, a, e.0);
        lemma_split(nodes, near);
        lemma_split(rest, near_link);
        let here = nodes.filter(near);
        let there = nodes.filter(|v: usize| !near(v));
        let links_here = rest.filter(near_link);
        let links_there = rest.filter(|e: (usize, usize, usize)| !near_link(e));
        lemma_connected_to_itself(rest, a);
        assert(here.contains(a));
        assert(there.contains(b));
        assert forall|x: usize, y: usize, u: usize| #[trigger]
            links_here.contains((x, y, u)) implies here.contains(x) && here.contains(y) by {
            assert(links.contains((x, y, u)));
            assert(linked(rest, x, y, u));
            lemma_link_is_walk(rest, x, y);
            lemma_connected_transitive(rest, a, x, y);
        }
        assert forall|x: usize, y: usize, u: usize| #[trigger]
            links_there.contains((x, y, u)) implies there.contains(x) && there.contains(y) by {
            assert(links.contains((x, y, u)));
            if connected(rest, a, y) {
                assert(linked(rest, y, x, u));
                lemma_link_is_walk(rest, y, x);
                lemma_connected_transitive(rest, a, y, x);
            }
        }
        lemma_fewer_links_forest(links, links_here);
        lemma_fewer_links_forest(links, links_there);
        lemma_forest_bound(links_here, here);
        lemma_forest_bound(links_there, there);
    }
}

} // verus!
