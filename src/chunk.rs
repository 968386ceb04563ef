use vstd::array::spec_array_update;
use vstd::prelude::*;

use crate::neighbor::{recorded, NeighborAware};
use crate::util::Direction;
use crate::pos::ChunkSubPos;
use crate::tile::Tile;
use crate::util::CHUNK_SIZE;
use crate::wall::Wall;

verus! {

broadcast use vstd::array::group_array_axioms;

/// Whether `(x, y)` addresses a cell of a chunk.
pub open spec fn in_chunk(x: int, y: int) -> bool {
    0 <= x < CHUNK_SIZE && 0 <= y < CHUNK_SIZE
}

/// A square of `CHUNK_SIZE` by `CHUNK_SIZE` tiles and, in parallel, as many walls.
/// Both grids are indexed by row (`y`) first.
pub struct Chunk {
    pub solid_tiles: [[Tile; CHUNK_SIZE]; CHUNK_SIZE],
    pub solid_walls: [[Wall; CHUNK_SIZE]; CHUNK_SIZE],
}

/// Access to one kind of cell of a chunk.
pub trait Grid<C: NeighborAware>: Sized {
    /// The cell at column `x`, row `y`.
    spec fn cell(&self, x: int, y: int) -> C;

    /// The chunk with the cell at `(x, y)` replaced by `c`, all else kept.
    spec fn with_cell(&self, x: int, y: int, c: C) -> Self;

    proof fn lemma_with_cell(&self, x: int, y: int, c: C)
        requires
            in_chunk(x, y),
        ensures
            forall|i: int, j: int|
                in_chunk(i, j) ==> #[trigger] self.with_cell(x, y, c).cell(i, j) == (if i == x
                    && j == y {
                    c
                } else {
                    self.cell(i, j)
                }),
            self.with_cell(x, y, self.cell(x, y)) == *self,
    ;

    /// Two chunks with equal cells of this kind and an equal remainder are equal.
    proof fn lemma_cells_ext(&self, other: &Self)
        requires
            forall|i: int, j: int| in_chunk(i, j) ==> #[trigger] self.cell(i, j) == other.cell(i, j),
            self.rest() == other.rest(),
        ensures
            *self == *other,
    ;

    /// What a chunk holds besides the cells of this kind.
    spec fn rest(&self) -> Self;

    proof fn lemma_rest_with_cell(&self, x: int, y: int, c: C)
        ensures
            self.with_cell(x, y, c).rest() == self.rest(),
    ;

    fn get(&self, pos: &ChunkSubPos) -> (r: &C)
        requires
            pos.wf(),
        ensures
            *r == self.cell(pos.x as int, pos.y as int),
    ;

    fn get_mut(&mut self, pos: &ChunkSubPos) -> (r: &mut C)
        requires
            pos.wf(),
        ensures
            *r == old(self).cell(pos.x as int, pos.y as int),
            *final(self) == old(self).with_cell(pos.x as int, pos.y as int, *final(r)),
    ;

    /// The whole grid of this kind, rows first.
    fn get_grid(&self) -> (r: &[[C; CHUNK_SIZE]; CHUNK_SIZE])
        ensures
            forall|i: int, j: int| in_chunk(i, j) ==> #[trigger] r[j][i] == self.cell(i, j),
    ;

    /// The whole grid of this kind, for writing; the rest of the chunk is kept.
    fn get_grid_mut(&mut self) -> (r: &mut [[C; CHUNK_SIZE]; CHUNK_SIZE])
        ensures
            forall|i: int, j: int| in_chunk(i, j) ==> #[trigger] r[j][i] == old(self).cell(i, j),
            forall|i: int, j: int|
                in_chunk(i, j) ==> #[trigger] final(self).cell(i, j) == final(r)[j][i],
            final(self).rest() == old(self).rest(),
    ;

    /// Replaces the cell at `pos` wholesale.
    fn set(&mut self, pos: &ChunkSubPos, child: C)
        requires
            pos.wf(),
        ensures
            *final(self) == old(self).with_cell(pos.x as int, pos.y as int, child),
    ;
}

impl Chunk {
    /// A chunk whose tiles and walls are all air, with all-`Air` matrices.
    pub fn new() -> (r: Chunk)
        ensures
            forall|i: int, j: int|
                in_chunk(i, j) ==> #[trigger] r.solid_tiles[j][i] == Tile::air_spec()
                    && r.solid_walls[j][i] == Wall::air_spec(),
    {
        let solid_tiles = [[Tile::air();CHUNK_SIZE];CHUNK_SIZE];
        let solid_walls = [[Wall::air();CHUNK_SIZE];CHUNK_SIZE];
        Chunk { solid_tiles, solid_walls }
    }
}

impl Default for Chunk {
    fn default() -> (r: Chunk)
        ensures
            forall|i: int, j: int|
                in_chunk(i, j) ==> #[trigger] r.solid_tiles[j][i] == Tile::air_spec()
                    && r.solid_walls[j][i] == Wall::air_spec(),
    {
        Chunk::new()
    }
}

impl Grid<Tile> for Chunk {
    open spec fn cell(&self, x: int, y: int) -> Tile {
        self.solid_tiles[y][x]
    }

    open spec fn with_cell(&self, x: int, y: int, c: Tile) -> Chunk {
        Chunk {
            solid_tiles: spec_array_update(
                self.solid_tiles,
                y,
                spec_array_update(self.solid_tiles[y], x, c),
            ),
            ..*self
        }
    }

    open spec fn rest(&self) -> Chunk {
        Chunk { solid_tiles: arbitrary(), ..*self }
    }

    proof fn lemma_with_cell(&self, x: int, y: int, c: Tile) {
        let w = Grid::<Tile>::with_cell(self, x, y, Grid::<Tile>::cell(self, x, y));
        assert(w.solid_tiles[y] =~= self.solid_tiles[y]);
        assert(w.solid_tiles =~= self.solid_tiles);
    }

    proof fn lemma_cells_ext(&self, other: &Chunk) {
        assert forall|j: int| 0 <= j < CHUNK_SIZE implies self.solid_tiles[j]
            =~= other.solid_tiles[j] by {
            assert forall|i: int| 0 <= i < CHUNK_SIZE implies self.solid_tiles[j][i]
                == other.solid_tiles[j][i] by {
                assert(in_chunk(i, j));
                assert(Grid::<Tile>::cell(self, i, j) == Grid::<Tile>::cell(other, i, j));
            }
        }
        assert(self.solid_tiles =~= other.solid_tiles);
    }

    proof fn lemma_rest_with_cell(&self, x: int, y: int, c: Tile) {
    }

    fn get(&self, pos: &ChunkSubPos) -> (r: &Tile) {
        &self.solid_tiles[pos.y as usize][pos.x as usize]
    }

    fn get_mut(&mut self, pos: &ChunkSubPos) -> (r: &mut Tile) {
        &mut self.solid_tiles[pos.y as usize][pos.x as usize]
    }

    fn get_grid(&self) -> (r: &[[Tile; CHUNK_SIZE]; CHUNK_SIZE]) {
        &self.solid_tiles
    }

    fn get_grid_mut(&mut self) -> (r: &mut [[Tile; CHUNK_SIZE]; CHUNK_SIZE]) {
        &mut self.solid_tiles
    }

    fn set(&mut self, pos: &ChunkSubPos, child: Tile) {
        self.solid_tiles[pos.y as usize][pos.x as usize] = child;
    }
}

impl Grid<Wall> for Chunk {
    open spec fn cell(&self, x: int, y: int) -> Wall {
        self.solid_walls[y][x]
    }

    open spec fn with_cell(&self, x: int, y: int, c: Wall) -> Chunk {
        Chunk {
            solid_walls: spec_array_update(
                self.solid_walls,
                y,
                spec_array_update(self.solid_walls[y], x, c),
            ),
            ..*self
        }
    }

    open spec fn rest(&self) -> Chunk {
        Chunk { solid_walls: arbitrary(), ..*self }
    }

    proof fn lemma_with_cell(&self, x: int, y: int, c: Wall) {
        let w = Grid::<Wall>::with_cell(self, x, y, Grid::<Wall>::cell(self, x, y));
        assert(w.solid_walls[y] =~= self.solid_walls[y]);
        assert(w.solid_walls =~= self.solid_walls);
    }

    proof fn lemma_cells_ext(&self, other: &Chunk) {
        assert forall|j: int| 0 <= j < CHUNK_SIZE implies self.solid_walls[j]
            =~= other.solid_walls[j] by {
            assert forall|i: int| 0 <= i < CHUNK_SIZE implies self.solid_walls[j][i]
                == other.solid_walls[j][i] by {
                assert(in_chunk(i, j));
                assert(Grid::<Wall>::cell(self, i, j) == Grid::<Wall>::cell(other, i, j));
            }
        }
        assert(self.solid_walls =~= other.solid_walls);
    }

    proof fn lemma_rest_with_cell(&self, x: int, y: int, c: Wall) {
    }

    fn get(&self, pos: &ChunkSubPos) -> (r: &Wall) {
        &self.solid_walls[pos.y as usize][pos.x as usize]
    }

    fn get_mut(&mut self, pos: &ChunkSubPos) -> (r: &mut Wall) {
        &mut self.solid_walls[pos.y as usize][pos.x as usize]
    }

    fn get_grid(&self) -> (r: &[[Wall; CHUNK_SIZE]; CHUNK_SIZE]) {
        &self.solid_walls
    }

    fn get_grid_mut(&mut self) -> (r: &mut [[Wall; CHUNK_SIZE]; CHUNK_SIZE]) {
        &mut self.solid_walls
    }

    fn set(&mut self, pos: &ChunkSubPos, child: Wall) {
        self.solid_walls[pos.y as usize][pos.x as usize] = child;
    }
}

} // verus!

verus! {

/// `new` is `old` after both sides of the edge between `(px, py)` and `(qx, qy)` were
/// updated, `(qx, qy)` lying in `direction` from `(px, py)`.
pub open spec fn pair_updated<N: NeighborAware, G: Grid<N>>(
    old: G,
    new: G,
    px: int,
    py: int,
    qx: int,
    qy: int,
    direction: Direction,
) -> bool {
    &&& new.rest() == old.rest()
    &&& forall|i: int, j: int|
        in_chunk(i, j) ==> #[trigger] new.cell(i, j) == (if i == px && j == py {
            recorded(old.cell(px, py), old.cell(qx, qy), direction)
        } else if i == qx && j == qy {
            recorded(old.cell(qx, qy), old.cell(px, py), direction.flip_spec())
        } else {
            old.cell(i, j)
        })
}

/// Updates, inside one grid, both sides of the edge between the cells at `p` and `q`,
/// where `q` lies in `direction` from `p`. Classifications are read first, then both
/// matrices are written.
pub fn update_cells<N: NeighborAware, G: Grid<N>>(
    grid: &mut G,
    p: &ChunkSubPos,
    q: &ChunkSubPos,
    direction: Direction,
)
    requires
        p.wf(),
        q.wf(),
        p != q,
    ensures
        pair_updated(
            *old(grid),
            *final(grid),
            p.x as int,
            p.y as int,
            q.x as int,
            q.y as int,
            direction,
        ),
{
    let for_p = grid.get(p).apply_neighbor(grid.get(q));
    let for_q = grid.get(q).apply_neighbor(grid.get(p));
    let ghost g0 = *grid;
    grid.get_mut(p).set_neighbor(direction, for_p);
    let ghost g1 = *grid;
    grid.get_mut(q).set_neighbor(direction.flip(), for_q);
    proof {
        let (px, py, qx, qy) = (p.x as int, p.y as int, q.x as int, q.y as int);
        let cp = g0.cell(px, py);
        let cq = g0.cell(qx, qy);
        let np = cp.with_matrix(cp.matrix().with(direction, for_p));
        g0.lemma_with_cell(px, py, np);
        g0.lemma_rest_with_cell(px, py, np);
        let nq = cq.with_matrix(cq.matrix().with(direction.flip_spec(), for_q));
        g1.lemma_with_cell(qx, qy, nq);
        g1.lemma_rest_with_cell(qx, qy, nq);
    }
}

} // verus!
