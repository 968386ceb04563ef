use vstd::prelude::*;

use crate::neighbor::{NeighborAware, NeighborMatrix, NeighborType};
use crate::registry::TILE_AIR;
use crate::util::Direction;

pub use crate::registry::TileId;

verus! {

/// A foreground cell: its material, a cosmetic variance and its neighbour matrix.
#[derive(Copy, Clone, PartialEq, Eq, Hash, Debug, Structural)]
pub struct Tile {
    pub id: TileId,
    pub variance: u8,
    pub matrix: NeighborMatrix,
}

impl Tile {
    pub open spec fn air_spec() -> Tile {
        Tile { id: TileId { id: TILE_AIR }, variance: 0, matrix: NeighborMatrix::all_air() }
    }

    /// An empty tile with variance 0 and an all-`Air` matrix.
    pub fn air() -> (r: Tile)
        ensures
            r == Tile::air_spec(),
    {
        Tile { variance: 0, id: TileId { id: TILE_AIR }, matrix: NeighborMatrix::new() }
    }

    /// A fresh tile of material `id`, with variance 0 and an all-`Air` matrix.
    pub fn id(id: TileId) -> (r: Tile)
        ensures
            r == (Tile { id, variance: 0, matrix: NeighborMatrix::all_air() }),
    {
        Tile { id, variance: 0, matrix: NeighborMatrix::new() }
    }

    pub fn get_id(&self) -> (r: &TileId)
        ensures
            *r == self.id,
    {
        &self.id
    }
}

impl NeighborAware for Tile {
    open spec fn matrix(&self) -> NeighborMatrix {
        self.matrix
    }

    open spec fn classify(&self, neighbor: &Tile) -> NeighborType {
        if neighbor.id.id == TILE_AIR {
            NeighborType::Air
        } else {
            NeighborType::Same
        }
    }

    open spec fn with_matrix(&self, m: NeighborMatrix) -> Tile {
        Tile { matrix: m, ..*self }
    }

    proof fn lemma_with_matrix(&self, m: NeighborMatrix, other: &Tile) {
    }

    fn get_neighbor_matrix(&self) -> (r: &NeighborMatrix) {
        &self.matrix
    }

    fn set_neighbor(&mut self, direction: Direction, neighbor_type: NeighborType) {
        self.matrix.set_neighbor_type(direction, neighbor_type);
    }

    fn apply_neighbor(&self, neighbor: &Tile) -> (r: NeighborType) {
        if neighbor.id.id == TILE_AIR {
            NeighborType::Air
        } else {
            NeighborType::Same
        }
    }
}

} // verus!
