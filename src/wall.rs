use vstd::prelude::*;

use crate::neighbor::{NeighborAware, NeighborMatrix, NeighborType};
use crate::registry::WALL_AIR;
use crate::util::Direction;

pub use crate::registry::WallId;

verus! {

/// A background cell: its material, a cosmetic variance and its neighbour matrix.
#[derive(Copy, Clone, PartialEq, Eq, Hash, Debug, Structural)]
pub struct Wall {
    pub id: WallId,
    pub variance: u8,
    pub matrix: NeighborMatrix,
}

impl Wall {
    pub open spec fn air_spec() -> Wall {
        Wall { id: WallId { id: WALL_AIR }, variance: 0, matrix: NeighborMatrix::all_air() }
    }

    /// An empty wall with variance 0 and an all-`Air` matrix.
    pub fn air() -> (r: Wall)
        ensures
            r == Wall::air_spec(),
    {
        Wall { variance: 0, id: WallId { id: WALL_AIR }, matrix: NeighborMatrix::new() }
    }

    /// A fresh wall of material `id`, with variance 0 and an all-`Air` matrix.
    pub fn id(id: WallId) -> (r: Wall)
        ensures
            r == (Wall { id, variance: 0, matrix: NeighborMatrix::all_air() }),
    {
        Wall { id, variance: 0, matrix: NeighborMatrix::new() }
    }

    pub fn get_id(&self) -> (r: &WallId)
        ensures
            *r == self.id,
    {
        &self.id
    }
}

impl NeighborAware for Wall {
    open spec fn matrix(&self) -> NeighborMatrix {
        self.matrix
    }

    open spec fn classify(&self, neighbor: &Wall) -> NeighborType {
        if neighbor.id.id == WALL_AIR {
            NeighborType::Air
        } else {
            NeighborType::Same
        }
    }

    open spec fn with_matrix(&self, m: NeighborMatrix) -> Wall {
        Wall { matrix: m, ..*self }
    }

    proof fn lemma_with_matrix(&self, m: NeighborMatrix, other: &Wall) {
    }

    fn get_neighbor_matrix(&self) -> (r: &NeighborMatrix) {
        &self.matrix
    }

    fn set_neighbor(&mut self, direction: Direction, neighbor_type: NeighborType) {
        self.matrix.set_neighbor_type(direction, neighbor_type);
    }

    fn apply_neighbor(&self, neighbor: &Wall) -> (r: NeighborType) {
        if neighbor.id.id == WALL_AIR {
            NeighborType::Air
        } else {
            NeighborType::Same
        }
    }
}

} // verus!
