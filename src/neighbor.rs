use vstd::prelude::*;

use crate::util::Direction;

verus! {

/// How a cell sees one of its four neighbours.
#[derive(Copy, Clone, PartialEq, Eq, Hash, Debug, Structural)]
pub enum NeighborType {
    /// The neighbour is empty.
    Air,
    /// The neighbour holds something.
    Same,
    /// Reserved for a finer classification; nothing produces it yet.
    Transitional,
}

/// The cached classification of a cell's four neighbours, one slot per direction.
#[derive(Copy, Clone, PartialEq, Eq, Hash, Debug, Structural)]
pub struct NeighborMatrix {
    pub top: NeighborType,
    pub down: NeighborType,
    pub left: NeighborType,
    pub right: NeighborType,
}

impl NeighborMatrix {
    /// The slot for `direction`.
    pub open spec fn at(self, direction: Direction) -> NeighborType {
        match direction {
            Direction::Top => self.top,
            Direction::Down => self.down,
            Direction::Left => self.left,
            Direction::Right => self.right,
        }
    }

    /// The matrix with the slot for `direction` replaced.
    pub open spec fn with(self, direction: Direction, t: NeighborType) -> NeighborMatrix {
        match direction {
            Direction::Top => NeighborMatrix { top: t, ..self },
            Direction::Down => NeighborMatrix { down: t, ..self },
            Direction::Left => NeighborMatrix { left: t, ..self },
            Direction::Right => NeighborMatrix { right: t, ..self },
        }
    }

    pub open spec fn all_air() -> NeighborMatrix {
        NeighborMatrix {
            top: NeighborType::Air,
            down: NeighborType::Air,
            left: NeighborType::Air,
            right: NeighborType::Air,
        }
    }

    /// A matrix whose four slots are `Air`.
    pub fn new() -> (r: NeighborMatrix)
        ensures
            r == NeighborMatrix::all_air(),
    {
        NeighborMatrix {
            top: NeighborType::Air,
            down: NeighborType::Air,
            left: NeighborType::Air,
            right: NeighborType::Air,
        }
    }

    pub fn set_neighbor_type(&mut self, direction: Direction, neighbor_type: NeighborType)
        ensures
            *final(self) == old(self).with(direction, neighbor_type),
    {
        match direction {
            Direction::Top => self.top = neighbor_type,
            Direction::Down => self.down = neighbor_type,
            Direction::Left => self.left = neighbor_type,
            Direction::Right => self.right = neighbor_type,
        }
    }

    pub fn get_neighbor_type(&self, direction: Direction) -> (r: NeighborType)
        ensures
            r == self.at(direction),
    {
        match direction {
            Direction::Top => self.top,
            Direction::Down => self.down,
            Direction::Left => self.left,
            Direction::Right => self.right,
        }
    }
}

impl Default for NeighborMatrix {
    fn default() -> (r: NeighborMatrix)
        ensures
            r == NeighborMatrix::all_air(),
    {
        NeighborMatrix::new()
    }
}

/// Writing a slot and reading it back gives the written value; the other slots keep theirs.
pub proof fn lemma_matrix_with(m: NeighborMatrix, d: Direction, e: Direction, t: NeighborType)
    ensures
        m.with(d, t).at(d) == t,
        d != e ==> m.with(d, t).at(e) == m.at(e),
        m.with(d, m.at(d)) == m,
        m.with(d, t).with(d, t) == m.with(d, t),
{
}

/// A cell kind that keeps a neighbour matrix.
///
/// A cell classifies a neighbour by the neighbour's identity alone: replacing the matrix of
/// either cell does not change the classification.
pub trait NeighborAware: Sized {
    /// The cell's matrix.
    spec fn matrix(&self) -> NeighborMatrix;

    /// How this cell classifies `neighbor`.
    spec fn classify(&self, neighbor: &Self) -> NeighborType;

    /// This cell with its matrix replaced by `m`.
    spec fn with_matrix(&self, m: NeighborMatrix) -> Self;

    proof fn lemma_with_matrix(&self, m: NeighborMatrix, other: &Self)
        ensures
            self.with_matrix(m).matrix() == m,
            self.with_matrix(m).classify(other) == self.classify(other),
            other.classify(&self.with_matrix(m)) == other.classify(self),
            self.with_matrix(self.matrix()) == *self,
            self.with_matrix(m).with_matrix(self.matrix()) == *self,
            forall|m2: NeighborMatrix| #[trigger]
                self.with_matrix(m).with_matrix(m2) == self.with_matrix(m2),
    ;

    fn get_neighbor_matrix(&self) -> (r: &NeighborMatrix)
        ensures
            *r == self.matrix(),
    ;

    /// Replaces one slot of the cell's matrix; nothing else of the cell changes.
    fn set_neighbor(&mut self, direction: Direction, neighbor_type: NeighborType)
        ensures
            *final(self) == old(self).with_matrix(old(self).matrix().with(direction, neighbor_type)),
    ;

    fn apply_neighbor(&self, neighbor: &Self) -> (r: NeighborType)
        ensures
            r == self.classify(neighbor),
    ;
}

/// `source` after it has recorded how it sees `neighbor` in `direction`.
pub open spec fn recorded<C: NeighborAware>(source: C, neighbor: C, direction: Direction) -> C {
    source.with_matrix(source.matrix().with(direction, source.classify(&neighbor)))
}

/// Updates both sides of the edge between `source` and `neighbor`, which lies in
/// `direction` from `source`: each cell records how it classifies the other.
pub fn update_neighbor<C: NeighborAware>(source: &mut C, neighbor: &mut C, direction: Direction)
    ensures
        *final(source) == recorded(*old(source), *old(neighbor), direction),
        *final(neighbor) == recorded(*old(neighbor), *old(source), direction.flip_spec()),
        final(source).matrix().at(direction) == final(source).classify(final(neighbor)),
        final(neighbor).matrix().at(direction.flip_spec()) == final(neighbor).classify(
            final(source),
        ),
{
    let for_source = source.apply_neighbor(neighbor);
    let for_neighbor = neighbor.apply_neighbor(source);
    source.set_neighbor(direction, for_source);
    neighbor.set_neighbor(direction.flip(), for_neighbor);
    proof {
        let s = *old(source);
        let n = *old(neighbor);
        let ms = s.matrix().with(direction, for_source);
        let mn = n.matrix().with(direction.flip_spec(), for_neighbor);
        s.lemma_with_matrix(ms, &n);
        n.lemma_with_matrix(mn, &s);
        s.with_matrix(ms).lemma_with_matrix(ms, &n.with_matrix(mn));
        n.lemma_with_matrix(mn, &s.with_matrix(ms));
        lemma_matrix_with(s.matrix(), direction, direction, for_source);
        lemma_matrix_with(n.matrix(), direction.flip_spec(), direction.flip_spec(), for_neighbor);
    }
}

/// Updating the same edge twice in a row leaves both cells as the first update left them.
pub proof fn lemma_update_neighbor_idempotent<C: NeighborAware>(a: C, b: C, d: Direction)
    ensures
        recorded(recorded(a, b, d), recorded(b, a, d.flip_spec()), d) == recorded(a, b, d),
        recorded(recorded(b, a, d.flip_spec()), recorded(a, b, d), d.flip_spec()) == recorded(
            b,
            a,
            d.flip_spec(),
        ),
{
    let ma = a.matrix().with(d, a.classify(&b));
    let mb = b.matrix().with(d.flip_spec(), b.classify(&a));
    let a1 = a.with_matrix(ma);
    let b1 = b.with_matrix(mb);
    a.lemma_with_matrix(ma, &b);
    b.lemma_with_matrix(mb, &a);
    a.lemma_with_matrix(ma, &b1);
    b.lemma_with_matrix(mb, &a1);
    a1.lemma_with_matrix(ma, &b1);
    b1.lemma_with_matrix(mb, &a1);
    lemma_matrix_with(a.matrix(), d, d, a.classify(&b));
    lemma_matrix_with(b.matrix(), d.flip_spec(), d.flip_spec(), b.classify(&a));
    assert(a1.classify(&b1) == a.classify(&b));
    assert(b1.classify(&a1) == b.classify(&a));
    assert(a1.matrix().with(d, a1.classify(&b1)) == ma);
    assert(b1.matrix().with(d.flip_spec(), b1.classify(&a1)) == mb);
}

} // verus!
