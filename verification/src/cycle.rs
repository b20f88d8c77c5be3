//! The cycle that a joint mark closes, and what a collapse does with it.

use vstd::prelude::*;
use crate::field_coordinate::FieldCoordinate;

verus! {

/// A closed path through the entanglement graph.
///
/// Position `i` pairs a cell of the path with the candidate turns of that
/// cell: the turns of the joint marks that link it to its neighbours on the
/// path.
#[derive(Clone, Debug, PartialEq, Eq)]
pub struct Cycle {
    fields_coordinates: Vec<FieldCoordinate>,
    fields_indexes: Vec<Vec<usize>>,
}

/// A cycle as a mathematical value: the cells in path order and, position by
/// position, their candidate turns.
pub struct CycleView {
    pub coordinates: Seq<FieldCoordinate>,
    pub indexes: Seq<Seq<usize>>,
}

/// `s` turned left by `n` places: what stood at position `n` comes first.
pub open spec fn rotated<T>(s: Seq<T>, n: int) -> Seq<T> {
    s.subrange(n, s.len() as int) + s.subrange(0, n)
}

/// `candidates` without every occurrence of `used`, in the same order.
pub open spec fn without(candidates: Seq<usize>, used: usize) -> Seq<usize> {
    candidates.filter(|x: usize| x != used)
}

impl View for Cycle {
    type V = CycleView;

    closed spec fn view(&self) -> CycleView {
        CycleView {
            coordinates: self.fields_coordinates@,
            indexes: Seq::new(self.fields_indexes@.len(), |i: int| self.fields_indexes@[i]@),
        }
    }
}

impl CycleView {
    /// Every cell of the cycle has its list of candidate turns.
    pub open spec fn wf(self) -> bool {
        self.coordinates.len() == self.indexes.len()
    }

    /// The cycle turned left by `n` places.
    pub open spec fn shifted(self, n: int) -> CycleView {
        CycleView {
            coordinates: rotated(self.coordinates, n),
            indexes: rotated(self.indexes, n),
        }
    }

    /// The position of the cell `c` in the cycle, where it is one of its
    /// cells.
    pub open spec fn position(self, c: FieldCoordinate) -> int {
        choose|i: int| 0 <= i < self.coordinates.len() && self.coordinates[i] == c
    }

    /// The cycle after turn `used` was struck from the candidates of position
    /// `n`.
    pub open spec fn removed(self, n: int, used: usize) -> CycleView {
        CycleView {
            coordinates: self.coordinates,
            indexes: self.indexes.update(n, without(self.indexes[n], used)),
        }
    }
}

/// Of two different candidates, one is left whichever turn is struck: the
/// other one where one of them is struck, and the first of them where
/// neither is.
pub proof fn lemma_without_of_pair(candidates: Seq<usize>, used: usize)
    requires
        candidates.len() == 2,
        candidates[0] != candidates[1],
    ensures
        without(candidates, used).len() > 0,
        without(candidates, used)[0] == if used == candidates[0] {
            candidates[1]
        } else {
            candidates[0]
        },
{
    reveal_with_fuel(Seq::filter, 3);
    let one = candidates.drop_last();
    assert(one.len() == 1);
    assert(one.drop_last().len() == 0);
    assert(one.last() == candidates[0]);
    assert(candidates.last() == candidates[1]);
}

/// The cycle that an optional cycle stands for, if it holds one.
pub open spec fn view_of(found: Option<Cycle>) -> Option<CycleView> {
    match found {
        Some(c) => Some(c@),
        None => None,
    }
}

/// A copy of a list of turns.
fn copy_turns(turns: &Vec<usize>) -> (r: Vec<usize>)
    ensures
        r@ == turns@,
{
    let mut r: Vec<usize> = Vec::new();
    let mut i: usize = 0;
    while i < turns.len()
        invariant
            i <= turns.len(),
            r@ == turns@.subrange(0, i as int),
        decreases turns.len() - i,
    {
        r.push(turns[i]);
        i += 1;
        assert(r@ =~= turns@.subrange(0, i as int));
    }
    assert(turns@.subrange(0, i as int) =~= turns@);
    r
}

/// The turns of `turns` other than `used`, in the same order.
fn turns_without(turns: &Vec<usize>, used: usize) -> (r: Vec<usize>)
    ensures
        r@ == without(turns@, used),
{
    let mut r: Vec<usize> = Vec::new();
    let mut i: usize = 0;
    proof {
        reveal(Seq::filter);
    }
    while i < turns.len()
        invariant
            i <= turns.len(),
            r@ == without(turns@.subrange(0, i as int), used),
        decreases turns.len() - i,
    {
        proof {
            let next = turns@.subrange(0, i + 1);
            reveal(Seq::filter);
            assert(next.drop_last() =~= turns@.subrange(0, i as int));
            assert(next.last() == turns@[i as int]);
        }
        if turns[i] != used {
            r.push(turns[i]);
        }
        i += 1;
    }
    assert(turns@.subrange(0, i as int) =~= turns@);
    r
}

impl Cycle {
    pub fn new(fields_coordinates: Vec<FieldCoordinate>, fields_indexes: Vec<Vec<usize>>) -> (r:
        Self)
        ensures
            r@.coordinates == fields_coordinates@,
            r@.indexes == Seq::new(fields_indexes@.len(), |i: int| fields_indexes@[i]@),
    {
        Cycle { fields_coordinates, fields_indexes }
    }

    pub fn get_fields_coordinate(&self) -> (r: &[FieldCoordinate])
        ensures
            r@ == self@.coordinates,
    {
        self.fields_coordinates.as_slice()
    }

    pub fn get_fields_indexes(&self) -> (r: &[Vec<usize>])
        ensures
            r@.len() == self@.indexes.len(),
            forall|i: int| 0 <= i < r@.len() ==> (#[trigger] r@[i])@ == self@.indexes[i],
    {
        self.fields_indexes.as_slice()
    }

    pub fn len(&self) -> (r: usize)
        ensures
            r == self@.coordinates.len(),
    {
        self.fields_coordinates.len()
    }

    /// Turns the cycle left by `n` places, so that the cell at position `n`
    /// comes first.
    pub fn shift(&mut self, n: usize)
        requires
            n <= old(self)@.coordinates.len(),
            n <= old(self)@.indexes.len(),
        ensures
            final(self)@ == old(self)@.shifted(n as int),
    {
        let mut coordinates = self.fields_coordinates.split_off(n);
        coordinates.append(&mut self.fields_coordinates);
        self.fields_coordinates = coordinates;
        let ghost before = self.fields_indexes@;
        let mut indexes = self.fields_indexes.split_off(n);
        indexes.append(&mut self.fields_indexes);
        self.fields_indexes = indexes;
        assert(self@.indexes =~= rotated(old(self)@.indexes, n as int));
    }

    /// Strikes turn `edge_weight` from the candidates of position `n` and
    /// returns the first candidate that is left.
    pub fn remove(&mut self, n: usize, edge_weight: usize) -> (r: usize)
        requires
            n < old(self)@.indexes.len(),
            without(old(self)@.indexes[n as int], edge_weight).len() > 0,
        ensures
            final(self)@ == old(self)@.removed(n as int, edge_weight),
            r == without(old(self)@.indexes[n as int], edge_weight)[0],
    {
        let left = turns_without(&self.fields_indexes[n], edge_weight);
        let first = left[0];
        self.fields_indexes[n] = left;
        assert(self@.indexes =~= old(self)@.removed(n as int, edge_weight).indexes);
        first
    }

    /// Whether position `n` has a candidate other than `edge_weight`.
    pub fn has_other(&self, n: usize, edge_weight: usize) -> (r: bool)
        requires
            n < self@.indexes.len(),
        ensures
            r == (without(self@.indexes[n as int], edge_weight).len() > 0),
    {
        let left = turns_without(&self.fields_indexes[n], edge_weight);
        left.len() > 0
    }

    pub fn get_field_coordinate(&self, n: usize) -> (r: &FieldCoordinate)
        requires
            n < self@.coordinates.len(),
        ensures
            *r == self@.coordinates[n as int],
    {
        &self.fields_coordinates[n]
    }

    /// A copy of the cycle.
    pub fn duplicate(&self) -> (r: Cycle)
        ensures
            r@ == self@,
    {
        let mut coordinates: Vec<FieldCoordinate> = Vec::new();
        let mut i: usize = 0;
        while i < self.fields_coordinates.len()
            invariant
                i <= self.fields_coordinates.len(),
                coordinates@ == self.fields_coordinates@.subrange(0, i as int),
            decreases self.fields_coordinates.len() - i,
        {
            coordinates.push(self.fields_coordinates[i]);
            i += 1;
            assert(coordinates@ =~= self.fields_coordinates@.subrange(0, i as int));
        }
        assert(self.fields_coordinates@.subrange(0, i as int) =~= self.fields_coordinates@);
        let mut indexes: Vec<Vec<usize>> = Vec::new();
        let mut j: usize = 0;
        while j < self.fields_indexes.len()
            invariant
                j <= self.fields_indexes.len(),
                indexes@.len() == j,
                forall|k: int| 0 <= k < j ==> (#[trigger] indexes@[k])@ == self.fields_indexes@[k]@,
            decreases self.fields_indexes.len() - j,
        {
            indexes.push(copy_turns(&self.fields_indexes[j]));
            j += 1;
        }
        let r = Cycle { fields_coordinates: coordinates, fields_indexes: indexes };
        assert(r@.indexes =~= self@.indexes);
        r
    }
}

} // verus!
