use std::collections::HashSet;
use vstd::prelude::*;

use crate::chunk::{in_chunk, pair_updated, update_cells, Chunk, Grid};
use crate::neighbor::{NeighborAware, NeighborMatrix, NeighborType};
use crate::noise::NoiseGenerator;
use crate::pos::{chunk_key, lemma_chunk_key_injective, ChunkPos, ChunkSubPos};
use crate::registry::{TileId, TILE_AIR, TILE_ASH_BLOCK, TILE_DIRT, TILE_STONE};
use crate::tile::Tile;
use crate::wall::Wall;
use crate::util::{Direction, CHUNK_SIZE};

verus! {

/// Number of cells in a chunk.
pub open spec fn chunk_cells() -> int {
    CHUNK_SIZE * CHUNK_SIZE
}

/// Whether the cell one step in `d` from `(i, j)` lies in the same chunk.
pub open spec fn has_inner_neighbor(i: int, j: int, d: Direction) -> bool {
    in_chunk(i + d.dx(), j + d.dy())
}

/// Whether, after `t` steps of the internal pass, the edge from `(i, j)` in direction `d`
/// has been updated. Cells are visited in row-major order; visiting one takes two steps,
/// the edge to the right first, then the edge upwards.
pub open spec fn edge_done(i: int, j: int, d: Direction, t: int) -> bool {
    match d {
        Direction::Right => 2 * (j * CHUNK_SIZE + i) < t,
        Direction::Top => 2 * (j * CHUNK_SIZE + i) + 1 < t,
        Direction::Left => 2 * (j * CHUNK_SIZE + i - 1) < t,
        Direction::Down => 2 * ((j - 1) * CHUNK_SIZE + i) + 1 < t,
    }
}

/// The slot `d` of cell `(i, j)` after the first `k` cells of `orig` have been visited.
pub open spec fn slot_after<N: NeighborAware, G: Grid<N>>(
    orig: G,
    i: int,
    j: int,
    d: Direction,
    k: int,
) -> NeighborType {
    if has_inner_neighbor(i, j, d) && edge_done(i, j, d, k) {
        orig.cell(i, j).classify(&orig.cell(i + d.dx(), j + d.dy()))
    } else {
        orig.cell(i, j).matrix().at(d)
    }
}

/// `cur` is `orig` after the first `k` cells have been visited by the internal pass.
pub open spec fn pass_state<N: NeighborAware, G: Grid<N>>(orig: G, cur: G, k: int) -> bool {
    &&& cur.rest() == orig.rest()
    &&& forall|i: int, j: int|
        in_chunk(i, j) ==> #[trigger] cur.cell(i, j) == orig.cell(i, j).with_matrix(
            cur.cell(i, j).matrix(),
        )
    &&& forall|i: int, j: int, d: Direction|
        in_chunk(i, j) ==> #[trigger] cur.cell(i, j).matrix().at(d) == slot_after(
            orig,
            i,
            j,
            d,
            k,
        )
}

/// `linked` is `orig` with every slot that faces a cell of the same chunk set to how the
/// cell classifies that neighbour; slots facing the chunk's border and everything else
/// are kept.
pub open spec fn internally_linked<N: NeighborAware, G: Grid<N>>(orig: G, linked: G) -> bool {
    pass_state(orig, linked, 2 * chunk_cells())
}

proof fn lemma_matrix_ext(a: NeighborMatrix, b: NeighborMatrix)
    requires
        a.at(Direction::Top) == b.at(Direction::Top),
        a.at(Direction::Down) == b.at(Direction::Down),
        a.at(Direction::Left) == b.at(Direction::Left),
        a.at(Direction::Right) == b.at(Direction::Right),
    ensures
        a == b,
{
}

/// The step of the internal pass that updates the edge from `(x, y)` in direction `d`.
proof fn lemma_pass_step<N: NeighborAware, G: Grid<N>>(
    orig: G,
    g0: G,
    g1: G,
    x: int,
    y: int,
    d: Direction,
    t: int,
)
    requires
        d is Right || d is Top,
        in_chunk(x, y),
        has_inner_neighbor(x, y, d),
        t == 2 * (y * CHUNK_SIZE + x) + (if d is Right { 0int } else { 1int }),
        pass_state(orig, g0, t),
        pair_updated(g0, g1, x, y, x + d.dx(), y + d.dy(), d),
    ensures
        pass_state(orig, g1, t + 1),
{
    let qx = x + d.dx();
    let qy = y + d.dy();
    let cp = g0.cell(x, y);
    let cq = g0.cell(qx, qy);
    let op = orig.cell(x, y);
    let oq = orig.cell(qx, qy);
    op.lemma_with_matrix(cp.matrix(), &oq);
    oq.lemma_with_matrix(cq.matrix(), &op);
    op.lemma_with_matrix(cp.matrix(), &cq);
    oq.lemma_with_matrix(cq.matrix(), &cp);
    assert(cp.classify(&cq) == op.classify(&oq));
    assert(cq.classify(&cp) == oq.classify(&op));
    assert forall|i: int, j: int| in_chunk(i, j) implies #[trigger] g1.cell(i, j) == orig.cell(
        i,
        j,
    ).with_matrix(g1.cell(i, j).matrix()) by {
        let o = orig.cell(i, j);
        let c0 = g0.cell(i, j);
        o.lemma_with_matrix(c0.matrix(), &o);
        if i == x && j == y {
            let m = cp.matrix().with(d, cp.classify(&cq));
            op.lemma_with_matrix(cp.matrix(), &op);
            cp.lemma_with_matrix(m, &cp);
        } else if i == qx && j == qy {
            let m = cq.matrix().with(d.flip_spec(), cq.classify(&cp));
            oq.lemma_with_matrix(cq.matrix(), &oq);
            cq.lemma_with_matrix(m, &cq);
        }
    }
    assert forall|i: int, j: int, e: Direction| in_chunk(i, j) implies #[trigger] g1.cell(
        i,
        j,
    ).matrix().at(e) == slot_after(orig, i, j, e, t + 1) by {
        assert(g0.cell(i, j).matrix().at(e) == slot_after(orig, i, j, e, t));
        if i == x && j == y {
            let m = cp.matrix().with(d, cp.classify(&cq));
            cp.lemma_with_matrix(m, &cp);
        } else if i == qx && j == qy {
            let m = cq.matrix().with(d.flip_spec(), cq.classify(&cp));
            cq.lemma_with_matrix(m, &cq);
        }
    }
}

/// A step of the internal pass whose edge leaves the chunk changes nothing.
proof fn lemma_pass_skip<N: NeighborAware, G: Grid<N>>(
    orig: G,
    g: G,
    x: int,
    y: int,
    d: Direction,
    t: int,
)
    requires
        d is Right || d is Top,
        in_chunk(x, y),
        !has_inner_neighbor(x, y, d),
        t == 2 * (y * CHUNK_SIZE + x) + (if d is Right { 0int } else { 1int }),
        pass_state(orig, g, t),
    ensures
        pass_state(orig, g, t + 1),
{
    assert forall|i: int, j: int, e: Direction| in_chunk(i, j) implies #[trigger] g.cell(
        i,
        j,
    ).matrix().at(e) == slot_after(orig, i, j, e, t + 1) by {
        assert(g.cell(i, j).matrix().at(e) == slot_after(orig, i, j, e, t));
    }
}

/// Runs the internal neighbour pass over one kind of cell of a grid: every edge between
/// two cells of the grid is updated on both sides. The chunk's outer border is left alone.
pub fn calc_internal_neighbors<N: NeighborAware, G: Grid<N>>(owner: G) -> (r: G)
    ensures
        internally_linked(owner, r),
{
    let mut grid = owner;
    let mut y: u8 = 0;
    proof {
        assert forall|i: int, j: int| in_chunk(i, j) implies #[trigger] owner.cell(i, j)
            == owner.cell(i, j).with_matrix(owner.cell(i, j).matrix()) by {
            let c = owner.cell(i, j);
            c.lemma_with_matrix(c.matrix(), &c);
        }
    }
    while y < CHUNK_SIZE as u8
        invariant
            y <= CHUNK_SIZE,
            pass_state(owner, grid, 2 * (y * CHUNK_SIZE)),
        decreases CHUNK_SIZE - y,
    {
        let mut x: u8 = 0;
        while x < CHUNK_SIZE as u8
            invariant
                y < CHUNK_SIZE,
                x <= CHUNK_SIZE,
                pass_state(owner, grid, 2 * (y * CHUNK_SIZE + x)),
            decreases CHUNK_SIZE - x,
        {
            let here = ChunkSubPos::new(x, y);
            let ghost k = y * CHUNK_SIZE + x;
            let ghost g0 = grid;
            if x + 1 < CHUNK_SIZE as u8 {
                let right = ChunkSubPos::new(x + 1, y);
                update_cells(&mut grid, &here, &right, Direction::Right);
                proof {
                    lemma_pass_step(owner, g0, grid, x as int, y as int, Direction::Right, 2 * k);
                }
            } else {
                proof {
                    lemma_pass_skip(owner, g0, x as int, y as int, Direction::Right, 2 * k);
                }
            }
            let ghost g1 = grid;
            if y + 1 < CHUNK_SIZE as u8 {
                let up = ChunkSubPos::new(x, y + 1);
                update_cells(&mut grid, &here, &up, Direction::Top);
                proof {
                    lemma_pass_step(owner, g1, grid, x as int, y as int, Direction::Top, 2 * k + 1);
                }
            } else {
                proof {
                    lemma_pass_skip(owner, g1, x as int, y as int, Direction::Top, 2 * k + 1);
                }
            }
            x = x + 1;
        }
        y = y + 1;
    }
    grid
}

} // verus!

verus! {

/// The offsets sampled for one world column, one per band, in cells: each boundary line
/// lies this far above the line below it.
#[derive(Copy, Clone, PartialEq, Eq, Hash, Debug, Structural)]
pub struct ColumnOffsets {
    pub hell_floor: u32,
    pub hell_ceiling: u32,
    pub cave: u32,
    pub cave_transition: u32,
    pub terrain: u32,
}

impl ColumnOffsets {
    /// Top of the ash band.
    pub open spec fn hell_floor_line(self) -> int {
        self.hell_floor as int
    }

    /// Top of the open space above the ash.
    pub open spec fn hell_ceiling_line(self) -> int {
        self.hell_floor_line() + self.hell_ceiling
    }

    /// Top of the cave stone.
    pub open spec fn cave_line(self) -> int {
        self.hell_ceiling_line() + self.cave
    }

    /// Top of the transition stone.
    pub open spec fn cave_transition_line(self) -> int {
        self.cave_line() + self.cave_transition
    }

    /// Top of the dirt: the terrain surface.
    pub open spec fn terrain_line(self) -> int {
        self.cave_transition_line() + self.terrain
    }

    /// The five boundary lines, from the bottom of the world upwards.
    pub open spec fn lines(self) -> Seq<int> {
        seq![
            self.hell_floor_line(),
            self.hell_ceiling_line(),
            self.cave_line(),
            self.cave_transition_line(),
            self.terrain_line(),
        ]
    }

    /// The material placed at world row `wy`; `None` where the generator places nothing.
    pub open spec fn band_material(self, wy: int) -> Option<u32> {
        if wy < self.hell_floor_line() {
            Some(TILE_ASH_BLOCK)
        } else if wy < self.hell_ceiling_line() {
            None
        } else if wy < self.cave_line() {
            Some(TILE_STONE)
        } else if wy < self.cave_transition_line() {
            Some(TILE_STONE)
        } else if wy < self.terrain_line() {
            Some(TILE_DIRT)
        } else {
            None
        }
    }
}

/// What the terrain generator works from: the noise seed and the thickness of each band.
#[derive(Copy, Clone, PartialEq, Eq, Hash, Debug, Structural)]
pub struct GenerationContext {
    pub noise: NoiseGenerator,
    pub terrain_height: u32,
    pub cave_transition_height: u32,
    pub cave_height: u32,
    pub hell_transition_height: u32,
    pub hell_lava: u32,
}

impl GenerationContext {
    /// Whether each offset of `o` lies within its band's thickness.
    pub open spec fn fits(self, o: ColumnOffsets) -> bool {
        &&& o.hell_floor <= self.hell_lava
        &&& o.hell_ceiling <= self.hell_transition_height
        &&& o.cave <= self.cave_height
        &&& o.cave_transition <= self.cave_transition_height
        &&& o.terrain <= self.terrain_height
    }

    pub open spec fn new_spec(seed: u64) -> GenerationContext {
        GenerationContext {
            noise: NoiseGenerator { seed },
            terrain_height: 50,
            cave_transition_height: 50,
            cave_height: 600,
            hell_transition_height: 50,
            hell_lava: 150,
        }
    }

    /// The generator's settings for `seed`.
    pub fn new(seed: u64) -> (r: GenerationContext)
        ensures
            r == GenerationContext::new_spec(seed),
    {
        GenerationContext {
            noise: NoiseGenerator::new(seed),
            terrain_height: 50,
            cave_transition_height: 50,
            cave_height: 600,
            hell_transition_height: 50,
            hell_lava: 150,
        }
    }

    /// The five boundary lines of a column whose sampled offsets are `offsets`, each line
    /// the one below it plus that band's offset.
    pub fn band_lines(&self, offsets: &ColumnOffsets) -> (r: [u64; 5])
        requires
            self.fits(*offsets),
        ensures
            r@.map_values(|v: u64| v as int) == offsets.lines(),
            r[0] <= r[1] <= r[2] <= r[3] <= r[4],
    {
        let hell_floor = offsets.hell_floor as u64;
        let hell_ceiling = hell_floor + offsets.hell_ceiling as u64;
        let cave = hell_ceiling + offsets.cave as u64;
        let cave_transition = cave + offsets.cave_transition as u64;
        let terrain = cave_transition + offsets.terrain as u64;
        let r = [hell_floor, hell_ceiling, cave, cave_transition, terrain];
        proof {
            assert(r@.map_values(|v: u64| v as int) =~= offsets.lines());
        }
        r
    }
}

/// The boundary lines of every column are non-decreasing from the bottom of the world
/// upwards, so the five bands never overlap or swap.
pub proof fn lemma_band_ordering(offsets: ColumnOffsets)
    ensures
        forall|i: int, j: int|
            0 <= i <= j < 5 ==> #[trigger] offsets.lines()[i] <= #[trigger] offsets.lines()[j],
{
}

/// World row of row `j` of chunk row `cy`.
pub open spec fn world_row(cy: u16, j: int) -> int {
    cy * CHUNK_SIZE + j
}

/// Fills the tiles of `chunk` (the chunk at `pos`) band by band, column `i` by the
/// offsets `offsets[i]`; rows where the generator places nothing keep their tile, and the
/// walls are left alone.
pub fn generate_terrain(
    context: &GenerationContext,
    chunk: &mut Chunk,
    pos: &ChunkPos,
    offsets: &[ColumnOffsets; CHUNK_SIZE],
)
    requires
        forall|i: int| 0 <= i < CHUNK_SIZE ==> context.fits(#[trigger] offsets[i]),
    ensures
        final(chunk).solid_walls == old(chunk).solid_walls,
        forall|i: int, j: int|
            in_chunk(i, j) ==> #[trigger] final(chunk).solid_tiles[j][i] == match offsets[i].band_material(
                world_row(pos.y, j),
            ) {
                Some(m) => Tile { id: TileId { id: m }, variance: 0, matrix: NeighborMatrix::all_air() },
                None => old(chunk).solid_tiles[j][i],
            },
{
    let ghost start = *chunk;
    let mut x: usize = 0;
    while x < CHUNK_SIZE
        invariant
            x <= CHUNK_SIZE,
            forall|i: int| 0 <= i < CHUNK_SIZE ==> context.fits(#[trigger] offsets[i]),
            chunk.solid_walls == start.solid_walls,
            forall|i: int, j: int|
                in_chunk(i, j) ==> #[trigger] chunk.solid_tiles[j][i] == if i < x {
                    match offsets[i].band_material(world_row(pos.y, j)) {
                        Some(m) => Tile { id: TileId { id: m }, variance: 0, matrix: NeighborMatrix::all_air() },
                        None => start.solid_tiles[j][i],
                    }
                } else {
                    start.solid_tiles[j][i]
                },
        decreases CHUNK_SIZE - x,
    {
        let lines = context.band_lines(&offsets[x]);
        let mut y: usize = 0;
        while y < CHUNK_SIZE
            invariant
                x < CHUNK_SIZE,
                y <= CHUNK_SIZE,
                lines@.map_values(|v: u64| v as int) == offsets[x as int].lines(),
                chunk.solid_walls == start.solid_walls,
                forall|i: int, j: int|
                    in_chunk(i, j) ==> #[trigger] chunk.solid_tiles[j][i] == if i < x || (i == x
                        && j < y) {
                        match offsets[i].band_material(world_row(pos.y, j)) {
                            Some(m) => Tile {
                                id: TileId { id: m },
                                variance: 0,
                                matrix: NeighborMatrix::all_air(),
                            },
                            None => start.solid_tiles[j][i],
                        }
                    } else {
                        start.solid_tiles[j][i]
                    },
            decreases CHUNK_SIZE - y,
        {
            let tile_y = y as u64 + pos.y as u64 * CHUNK_SIZE as u64;
            proof {
                assert(lines[0] as int == offsets[x as int].lines()[0]);
                assert(lines[1] as int == offsets[x as int].lines()[1]);
                assert(lines[2] as int == offsets[x as int].lines()[2]);
                assert(lines[3] as int == offsets[x as int].lines()[3]);
                assert(lines[4] as int == offsets[x as int].lines()[4]);
            }
            if tile_y < lines[0] {
                chunk.solid_tiles[y][x] = Tile::id(TileId { id: TILE_ASH_BLOCK });
            } else if tile_y < lines[1] {
                // open space above the ash: nothing is placed
            } else if tile_y < lines[2] {
                chunk.solid_tiles[y][x] = Tile::id(TileId { id: TILE_STONE });
            } else if tile_y < lines[3] {
                chunk.solid_tiles[y][x] = Tile::id(TileId { id: TILE_STONE });
            } else if tile_y < lines[4] {
                chunk.solid_tiles[y][x] = Tile::id(TileId { id: TILE_DIRT });
            }
            y = y + 1;
        }
        x = x + 1;
    }
}

} // verus!

verus! {

/// Tile material at cell `(i, j)` of the chunk in chunk row `cy` whose columns were
/// sampled as `offsets`; air where nothing is placed.
pub open spec fn material_at(offsets: [ColumnOffsets; CHUNK_SIZE], cy: u16, i: int, j: int) -> u32 {
    match offsets[i].band_material(world_row(cy, j)) {
        Some(m) => m,
        None => TILE_AIR,
    }
}

/// How a freshly generated tile sees the cell at `(i, j)` of its own chunk: `Air` beyond
/// the chunk's border or where that cell is empty, `Same` otherwise.
pub open spec fn generated_side(
    offsets: [ColumnOffsets; CHUNK_SIZE],
    cy: u16,
    i: int,
    j: int,
) -> NeighborType {
    if in_chunk(i, j) && material_at(offsets, cy, i, j) != TILE_AIR {
        NeighborType::Same
    } else {
        NeighborType::Air
    }
}

/// The tile that generation puts at `(i, j)` of the chunk in chunk row `cy`.
pub open spec fn generated_tile(offsets: [ColumnOffsets; CHUNK_SIZE], cy: u16, i: int, j: int) -> Tile {
    Tile {
        id: TileId { id: material_at(offsets, cy, i, j) },
        variance: 0,
        matrix: NeighborMatrix {
            top: generated_side(offsets, cy, i, j + 1),
            down: generated_side(offsets, cy, i, j - 1),
            left: generated_side(offsets, cy, i - 1, j),
            right: generated_side(offsets, cy, i + 1, j),
        },
    }
}

/// `chunk` is what generation produces for chunk `pos` from the column offsets `offsets`:
/// banded tiles whose matrices are linked inside the chunk, and empty walls.
pub open spec fn is_generated(offsets: [ColumnOffsets; CHUNK_SIZE], pos: ChunkPos, chunk: Chunk) -> bool {
    forall|i: int, j: int|
        in_chunk(i, j) ==> #[trigger] chunk.solid_tiles[j][i] == generated_tile(offsets, pos.y, i, j)
            && chunk.solid_walls[j][i] == Wall::air_spec()
}

proof fn lemma_all_edges_done(i: int, j: int, d: Direction)
    requires
        in_chunk(i, j),
        has_inner_neighbor(i, j, d),
    ensures
        edge_done(i, j, d, 2 * chunk_cells()),
{
}

/// Generates the chunk at `pos`, column `i` from the sampled offsets `offsets[i]`: terrain
/// bands first, then the internal neighbour pass over the walls and over the tiles. The
/// result depends on `pos` and `offsets` alone.
pub fn gen_chunk(
    context: &GenerationContext,
    pos: &ChunkPos,
    offsets: &[ColumnOffsets; CHUNK_SIZE],
) -> (r: Chunk)
    requires
        forall|i: int| 0 <= i < CHUNK_SIZE ==> context.fits(#[trigger] offsets[i]),
    ensures
        is_generated(*offsets, *pos, r),
{
    let mut chunk = Chunk::new();
    generate_terrain(context, &mut chunk, pos, offsets);
    let ghost c0 = chunk;
    chunk = calc_internal_neighbors::<Wall, Chunk>(chunk);
    let ghost c1 = chunk;
    chunk = calc_internal_neighbors::<Tile, Chunk>(chunk);
    proof {
        assert forall|i: int, j: int| in_chunk(i, j) implies #[trigger] chunk.solid_tiles[j][i]
            == generated_tile(*offsets, pos.y, i, j) && chunk.solid_walls[j][i]
            == Wall::air_spec() by {
            // walls
            assert(Grid::<Tile>::rest(&chunk) == Grid::<Tile>::rest(&c1));
            assert(chunk.solid_walls == c1.solid_walls);
            let w = c1.solid_walls[j][i];
            assert(Grid::<Wall>::cell(&c1, i, j) == w);
            assert(w == Grid::<Wall>::cell(&c0, i, j).with_matrix(w.matrix));
            assert forall|d: Direction| #[trigger] w.matrix.at(d) == NeighborType::Air by {
                assert(Grid::<Wall>::cell(&c1, i, j).matrix().at(d) == slot_after::<Wall, Chunk>(
                    c0,
                    i,
                    j,
                    d,
                    2 * chunk_cells(),
                ));
            }
            lemma_matrix_ext(w.matrix, NeighborMatrix::all_air());
            // tiles
            assert(Grid::<Wall>::rest(&c1) == Grid::<Wall>::rest(&c0));
            assert(c1.solid_tiles == c0.solid_tiles);
            let t = chunk.solid_tiles[j][i];
            assert(Grid::<Tile>::cell(&chunk, i, j) == t);
            let g = generated_tile(*offsets, pos.y, i, j);
            assert forall|d: Direction| #[trigger] t.matrix.at(d) == g.matrix.at(d) by {
                assert(Grid::<Tile>::cell(&chunk, i, j).matrix().at(d) == slot_after::<Tile, Chunk>(
                    c1,
                    i,
                    j,
                    d,
                    2 * chunk_cells(),
                ));
                if has_inner_neighbor(i, j, d) {
                    lemma_all_edges_done(i, j, d);
                    assert(in_chunk(i + d.dx(), j + d.dy()));
                }
            }
            lemma_matrix_ext(t.matrix, g.matrix);
        }
    }
    chunk
}

/// Generating the same chunk twice from the same sampled offsets gives identical chunks.
pub proof fn lemma_generation_deterministic(
    offsets: [ColumnOffsets; CHUNK_SIZE],
    pos: ChunkPos,
    a: Chunk,
    b: Chunk,
)
    requires
        is_generated(offsets, pos, a),
        is_generated(offsets, pos, b),
    ensures
        a == b,
{
    assert forall|j: int| 0 <= j < CHUNK_SIZE implies a.solid_tiles[j] =~= b.solid_tiles[j]
        && a.solid_walls[j] =~= b.solid_walls[j] by {
        assert forall|i: int| 0 <= i < CHUNK_SIZE implies a.solid_tiles[j][i]
            == b.solid_tiles[j][i] && a.solid_walls[j][i] == b.solid_walls[j][i] by {
            assert(in_chunk(i, j));
        }
    }
    assert(a.solid_tiles =~= b.solid_tiles);
    assert(a.solid_walls =~= b.solid_walls);
}

} // verus!

verus! {

broadcast use vstd::std_specs::hash::group_hash_axioms;

/// Hands out chunk generation: it holds the generation settings and the set of chunk
/// coordinates already handed out, so that each coordinate is generated once.
pub struct WorldGenerator {
    context: GenerationContext,
    queue_chunks: HashSet<u32>,
}

impl WorldGenerator {
    /// The generation settings.
    pub closed spec fn settings(&self) -> GenerationContext {
        self.context
    }

    pub fn context(&self) -> (r: &GenerationContext)
        ensures
            *r == self.settings(),
    {
        &self.context
    }

    /// The chunk coordinates handed out so far.
    pub closed spec fn queued(&self) -> Set<ChunkPos> {
        Set::new(|p: ChunkPos| self.queue_chunks@.contains(chunk_key(p) as u32))
    }

    pub fn new(seed: u64) -> (r: WorldGenerator)
        ensures
            r.settings() == GenerationContext::new_spec(seed),
            r.queued() == Set::<ChunkPos>::empty(),
    {
        let r = WorldGenerator { context: GenerationContext::new(seed), queue_chunks: HashSet::new() };
        proof {
            assert(r.queued() =~= Set::<ChunkPos>::empty());
        }
        r
    }

    /// Asks for the chunk at `pos`. Returns `true` when a generation task must be started
    /// for it, which is the case exactly when `pos` was not asked for before.
    pub fn add_chunk(&mut self, pos: &ChunkPos) -> (submit: bool)
        ensures
            submit == !old(self).queued().contains(*pos),
            final(self).queued() == old(self).queued().insert(*pos),
            final(self).settings() == old(self).settings(),
    {
        let key = pos.key();
        proof {
            lemma_chunk_key_injective(*pos, *pos);
        }
        let fresh = !self.queue_chunks.contains(&key);
        if fresh {
            self.queue_chunks.insert(key);
        }
        proof {
            assert forall|p: ChunkPos| #[trigger] self.queued().contains(p) == old(
                self,
            ).queued().insert(*pos).contains(p) by {
                lemma_chunk_key_injective(p, *pos);
                lemma_chunk_key_injective(p, p);
            }
            assert(self.queued() =~= old(self).queued().insert(*pos));
        }
        fresh
    }

    /// Whether the chunk at `pos` was asked for already.
    pub fn is_queued(&self, pos: &ChunkPos) -> (r: bool)
        ensures
            r == self.queued().contains(*pos),
    {
        let key = pos.key();
        proof {
            lemma_chunk_key_injective(*pos, *pos);
        }
        self.queue_chunks.contains(&key)
    }
}

/// What asking for `pos` does to the set of coordinates handed out, and whether it starts
/// a task.
pub open spec fn add_chunk_step(queued: Set<ChunkPos>, pos: ChunkPos) -> (Set<ChunkPos>, bool) {
    (queued.insert(pos), !queued.contains(pos))
}

/// Number of generation tasks started by asking for `pos` `n` times in a row.
pub open spec fn tasks_started(queued: Set<ChunkPos>, pos: ChunkPos, n: nat) -> nat
    decreases n,
{
    if n == 0 {
        0
    } else {
        let (next, submit) = add_chunk_step(queued, pos);
        (if submit { 1nat } else { 0nat }) + tasks_started(next, pos, (n - 1) as nat)
    }
}

/// Asking for the same chunk `n >= 1` times starts exactly one generation task when it
/// was not asked for before, and none when it was.
pub proof fn lemma_add_chunk_dedup(queued: Set<ChunkPos>, pos: ChunkPos, n: nat)
    requires
        n >= 1,
    ensures
        tasks_started(queued, pos, n) == (if queued.contains(pos) { 0nat } else { 1nat }),
    decreases n,
{
    assert(queued.insert(pos).contains(pos));
    if n > 1 {
        lemma_add_chunk_dedup(queued.insert(pos), pos, (n - 1) as nat);
        assert(tasks_started(queued.insert(pos), pos, (n - 1) as nat) == 0);
    } else {
        assert(tasks_started(queued.insert(pos), pos, 0) == 0);
    }
    assert(tasks_started(queued, pos, n) == (if queued.contains(pos) { 0nat } else { 1nat })
        + tasks_started(queued.insert(pos), pos, (n - 1) as nat));
}

} // verus!
