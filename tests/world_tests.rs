use tileworld::chunk::{Chunk, Grid};
use tileworld::gen::{calc_internal_neighbors, gen_chunk, ColumnOffsets, GenerationContext, WorldGenerator};
use tileworld::neighbor::{update_neighbor, NeighborAware, NeighborMatrix, NeighborType};
use tileworld::pos::{ChunkPos, ChunkSubPos, WorldPos};
use tileworld::registry::{TileId, WallId, TILE_AIR, TILE_ASH_BLOCK, TILE_DIRT, TILE_STONE, WALL_STONE};
use tileworld::tile::Tile;
use tileworld::util::{Direction, CHUNK_SIZE};
use tileworld::wall::Wall;
use tileworld::world::World;

fn stone_chunk() -> Chunk {
    let mut chunk = Chunk::new();
    for y in 0..CHUNK_SIZE as u8 {
        for x in 0..CHUNK_SIZE as u8 {
            Grid::<Tile>::set(&mut chunk, &ChunkSubPos::new(x, y), Tile::id(TileId { id: TILE_STONE }));
        }
    }
    calc_internal_neighbors::<Tile, Chunk>(chunk)
}

/// Every column sampled at the middle of each band.
fn half_offsets(context: &GenerationContext) -> [ColumnOffsets; CHUNK_SIZE] {
    [ColumnOffsets {
        hell_floor: context.hell_lava / 2,
        hell_ceiling: context.hell_transition_height / 2,
        cave: context.cave_height / 2,
        cave_transition: context.cave_transition_height / 2,
        terrain: context.terrain_height / 2,
    }; CHUNK_SIZE]
}

fn tile_at(world: &World, x: i32, y: u32) -> Tile {
    *world.get::<Tile>(&WorldPos::new(x, y)).expect("chunk is loaded")
}

#[test]
fn world_pos_round_trip() {
    for &(x, y) in &[(0i32, 0u32), (23, 23), (24, 24), (-1, 5), (-24, 47), (-25, 48), (1000, 999), (-786432, 0)] {
        let p = WorldPos::new(x, y);
        let c = p.get_chunk_pos();
        let s = p.get_chunk_sub_pos();
        assert_eq!(c.x as i32 * 24 + s.x as i32, x);
        assert_eq!(c.y as u32 * 24 + s.y as u32, y);
        assert!((s.x as usize) < CHUNK_SIZE && (s.y as usize) < CHUNK_SIZE);
    }
    let p = WorldPos::new(-1, 0);
    assert_eq!(*p.get_chunk_pos(), ChunkPos::new(-1, 0));
    assert_eq!(*p.get_chunk_sub_pos(), ChunkSubPos::new(23, 0));
    let p = WorldPos::new(-25, 49);
    assert_eq!(*p.get_chunk_pos(), ChunkPos::new(-2, 2));
    assert_eq!(*p.get_chunk_sub_pos(), ChunkSubPos::new(23, 1));
}

#[test]
fn world_pos_from_chunk() {
    let p = WorldPos::from_chunk(&ChunkPos::new(3, 4), 5, 6);
    assert_eq!(*p.get_chunk_pos(), ChunkPos::new(3, 4));
    assert_eq!(*p.get_chunk_sub_pos(), ChunkSubPos::new(5, 6));
}

#[test]
fn world_pos_shift_crosses_chunks() {
    let p = WorldPos::new(23, 10);
    let r = p.shift(Direction::Right).unwrap();
    assert_eq!(r, WorldPos::new(24, 10));
    let l = WorldPos::new(0, 10).shift(Direction::Left).unwrap();
    assert_eq!(l, WorldPos::new(-1, 10));
    let t = WorldPos::new(5, 23).shift(Direction::Top).unwrap();
    assert_eq!(t, WorldPos::new(5, 24));
    let d = WorldPos::new(5, 24).shift(Direction::Down).unwrap();
    assert_eq!(d, WorldPos::new(5, 23));
    let inner = WorldPos::new(5, 5).shift(Direction::Right).unwrap();
    assert_eq!(inner, WorldPos::new(6, 5));
    assert!(WorldPos::new(5, 0).shift(Direction::Down).is_none());
}

#[test]
fn chunk_pos_shift_edges() {
    assert_eq!(ChunkPos::new(0, 1).shift(&Direction::Down), Some(ChunkPos::new(0, 0)));
    assert_eq!(ChunkPos::new(0, 0).shift(&Direction::Down), None);
    assert_eq!(ChunkPos::new(i16::MAX, 0).shift(&Direction::Right), None);
    assert_eq!(ChunkPos::new(i16::MIN, 0).shift(&Direction::Left), None);
    assert_eq!(ChunkPos::new(0, u16::MAX).shift(&Direction::Top), None);
    assert_eq!(ChunkPos::new(-3, 7).shift(&Direction::Left), Some(ChunkPos::new(-4, 7)));
}

#[test]
fn chunk_sub_pos_shifts() {
    let s = ChunkSubPos::new(23, 0);
    assert!(s.is_border(&Direction::Right));
    assert!(s.is_border(&Direction::Down));
    assert!(!s.is_border(&Direction::Left));
    assert_eq!(s.shift(Direction::Right), None);
    assert_eq!(s.shift(Direction::Left), Some(ChunkSubPos::new(22, 0)));
    assert_eq!(s.shift_overlooping(Direction::Right), ChunkSubPos::new(0, 0));
    assert_eq!(s.shift_overlooping(Direction::Down), ChunkSubPos::new(23, 23));
    assert_eq!(ChunkSubPos::new_overlooping(24, -1), ChunkSubPos::new(0, 23));
    assert_eq!(ChunkSubPos::new_overlooping(7, 8), ChunkSubPos::new(7, 8));
}

#[test]
fn chunk_key_is_distinct() {
    assert_ne!(ChunkPos::new(0, 1).key(), ChunkPos::new(1, 0).key());
    assert_eq!(ChunkPos::new(i16::MIN, 0).key(), 0);
    assert_eq!(ChunkPos::new(i16::MAX, u16::MAX).key(), u32::MAX);
}

#[test]
fn neighbor_pair_update_is_symmetric() {
    let mut a = Tile::id(TileId { id: TILE_STONE });
    let mut b = Tile::air();
    update_neighbor(&mut a, &mut b, Direction::Right);
    assert_eq!(a.get_neighbor_matrix().get_neighbor_type(Direction::Right), NeighborType::Air);
    assert_eq!(b.get_neighbor_matrix().get_neighbor_type(Direction::Left), NeighborType::Same);
    assert_eq!(a.get_neighbor_matrix().get_neighbor_type(Direction::Right), a.apply_neighbor(&b));
    assert_eq!(b.get_neighbor_matrix().get_neighbor_type(Direction::Left), b.apply_neighbor(&a));
    let before = (a, b);
    update_neighbor(&mut a, &mut b, Direction::Right);
    assert_eq!((a, b), before);
}

#[test]
fn neighbor_matrix_slots() {
    let mut m = NeighborMatrix::new();
    assert_eq!(m, NeighborMatrix::default());
    m.set_neighbor_type(Direction::Top, NeighborType::Same);
    assert_eq!(m.get_neighbor_type(Direction::Top), NeighborType::Same);
    assert_eq!(m.get_neighbor_type(Direction::Down), NeighborType::Air);
    assert_eq!(m.get_neighbor_type(Direction::Left), NeighborType::Air);
    assert_eq!(m.get_neighbor_type(Direction::Right), NeighborType::Air);
}

#[test]
fn wall_classification() {
    let mut a = Wall::id(WallId { id: WALL_STONE });
    let mut b = Wall::id(WallId { id: WALL_STONE });
    update_neighbor(&mut a, &mut b, Direction::Top);
    assert_eq!(a.get_neighbor_matrix().get_neighbor_type(Direction::Top), NeighborType::Same);
    assert_eq!(b.get_neighbor_matrix().get_neighbor_type(Direction::Down), NeighborType::Same);
    assert_eq!(*Wall::air().get_id(), WallId { id: 0 });
}

#[test]
fn band_lines_are_ordered() {
    let context = GenerationContext::new(69);
    assert_eq!(context.band_lines(&half_offsets(&context)[0]), [75, 100, 400, 425, 450]);
    let uneven = ColumnOffsets { hell_floor: 0, hell_ceiling: 50, cave: 600, cave_transition: 0, terrain: 7 };
    let lines = context.band_lines(&uneven);
    assert_eq!(lines, [0, 50, 650, 650, 657]);
    let full = ColumnOffsets { hell_floor: 150, hell_ceiling: 50, cave: 600, cave_transition: 50, terrain: 50 };
    assert_eq!(context.band_lines(&full), [150, 200, 800, 850, 900]);
    for i in 0..4 {
        assert!(lines[i] <= lines[i + 1]);
    }
}

#[test]
fn generation_is_deterministic() {
    let context = GenerationContext::new(69);
    let pos = ChunkPos::new(3, 17);
    let mut offsets = half_offsets(&context);
    offsets[5].terrain = 3;
    offsets[6].cave = 0;
    let a = gen_chunk(&context, &pos, &offsets);
    let b = gen_chunk(&context, &pos, &offsets);
    assert!(Grid::<Tile>::get_grid(&a) == Grid::<Tile>::get_grid(&b));
    assert!(Grid::<Wall>::get_grid(&a) == Grid::<Wall>::get_grid(&b));
}

#[test]
fn generated_chunk_bands() {
    let context = GenerationContext::new(69);
    // rows 0..24 lie under the ash line at 75
    let bottom = gen_chunk(&context, &ChunkPos::new(0, 0), &half_offsets(&context));
    for y in 0..24u8 {
        assert_eq!(Grid::<Tile>::get(&bottom, &ChunkSubPos::new(0, y)).id.id, TILE_ASH_BLOCK);
    }
    // rows 408..432: stone below 425, dirt from 425
    let cave = gen_chunk(&context, &ChunkPos::new(0, 17), &half_offsets(&context));
    for y in 0..24u8 {
        let wy = 408 + y as u32;
        let id = Grid::<Tile>::get(&cave, &ChunkSubPos::new(0, y)).id.id;
        if wy < 425 {
            assert_eq!(id, TILE_STONE);
        } else {
            assert_eq!(id, TILE_DIRT);
        }
    }
    // rows 432..456: dirt below the surface at 450, air above
    let surface = gen_chunk(&context, &ChunkPos::new(0, 18), &half_offsets(&context));
    for y in 0..24u8 {
        let wy = 432 + y as u32;
        let id = Grid::<Tile>::get(&surface, &ChunkSubPos::new(0, y)).id.id;
        if wy < 450 {
            assert_eq!(id, TILE_DIRT);
        } else {
            assert_eq!(id, TILE_AIR);
        }
    }
    // rows 72..96: ash below 75, open air up to 100
    let hell = gen_chunk(&context, &ChunkPos::new(-2, 3), &half_offsets(&context));
    for y in 0..24u8 {
        let wy = 72 + y as u32;
        let id = Grid::<Tile>::get(&hell, &ChunkSubPos::new(5, y)).id.id;
        if wy < 75 {
            assert_eq!(id, TILE_ASH_BLOCK);
        } else {
            assert_eq!(id, TILE_AIR);
        }
    }
}

#[test]
fn generated_chunk_internal_neighbors() {
    let context = GenerationContext::new(69);
    let surface = gen_chunk(&context, &ChunkPos::new(0, 18), &half_offsets(&context));
    // row 17 is the last dirt row (world row 449)
    let top_dirt = Grid::<Tile>::get(&surface, &ChunkSubPos::new(4, 17));
    let m = top_dirt.get_neighbor_matrix();
    assert_eq!(m.get_neighbor_type(Direction::Top), NeighborType::Air);
    assert_eq!(m.get_neighbor_type(Direction::Down), NeighborType::Same);
    assert_eq!(m.get_neighbor_type(Direction::Left), NeighborType::Same);
    assert_eq!(m.get_neighbor_type(Direction::Right), NeighborType::Same);
    // chunk border slots stay Air until reconciliation
    let corner = Grid::<Tile>::get(&surface, &ChunkSubPos::new(0, 0));
    assert_eq!(corner.get_neighbor_matrix().get_neighbor_type(Direction::Left), NeighborType::Air);
    assert_eq!(corner.get_neighbor_matrix().get_neighbor_type(Direction::Down), NeighborType::Air);
    assert_eq!(corner.get_neighbor_matrix().get_neighbor_type(Direction::Right), NeighborType::Same);
    let wall = Grid::<Wall>::get(&surface, &ChunkSubPos::new(4, 4));
    assert_eq!(*wall, Wall::air());
}

#[test]
fn add_chunk_deduplicates() {
    let mut generator = WorldGenerator::new(69);
    let pos = ChunkPos::new(2, 3);
    let mut tasks = 0;
    for _ in 0..5 {
        if generator.add_chunk(&pos) {
            tasks += 1;
        }
    }
    assert_eq!(tasks, 1);
    assert!(generator.is_queued(&pos));
    assert!(!generator.is_queued(&ChunkPos::new(3, 2)));
    assert!(generator.add_chunk(&ChunkPos::new(3, 2)));
}

#[test]
fn adjacent_stone_chunks_are_stitched() {
    let mut world = World::new(69);
    world.add_chunks(vec![(ChunkPos::new(0, 0), stone_chunk()), (ChunkPos::new(1, 0), stone_chunk())]);
    for y in 0..24u32 {
        let left = tile_at(&world, 23, y);
        let right = tile_at(&world, 24, y);
        assert_eq!(left.get_neighbor_matrix().get_neighbor_type(Direction::Right), NeighborType::Same);
        assert_eq!(right.get_neighbor_matrix().get_neighbor_type(Direction::Left), NeighborType::Same);
        // the unloaded sides stay Air
        assert_eq!(tile_at(&world, 0, y).get_neighbor_matrix().get_neighbor_type(Direction::Left), NeighborType::Air);
    }
}

#[test]
fn border_reconciliation_is_idempotent() {
    let mut world = World::new(69);
    world.add_chunks(vec![(ChunkPos::new(0, 0), stone_chunk()), (ChunkPos::new(1, 0), stone_chunk())]);
    let before: Vec<Tile> = (0..48).flat_map(|x| (0..24).map(move |y| (x, y))).map(|(x, y)| tile_at(&world, x, y)).collect();
    world.update_borders::<Tile>(&ChunkPos::new(0, 0));
    world.update_borders::<Wall>(&ChunkPos::new(0, 0));
    world.update_borders::<Tile>(&ChunkPos::new(1, 0));
    let after: Vec<Tile> = (0..48).flat_map(|x| (0..24).map(move |y| (x, y))).map(|(x, y)| tile_at(&world, x, y)).collect();
    assert!(before == after);
}

#[test]
fn setting_air_updates_neighbor_and_marks_chunks() {
    let mut world = World::new(69);
    world.add_chunks(vec![(ChunkPos::new(0, 0), stone_chunk()), (ChunkPos::new(1, 0), stone_chunk())]);
    world.take_chunk_updates();
    assert_eq!(tile_at(&world, 24, 5).get_neighbor_matrix().get_neighbor_type(Direction::Left), NeighborType::Same);
    world.set(&WorldPos::new(23, 5), Tile::air());
    let neighbor = tile_at(&world, 24, 5);
    assert_eq!(neighbor.get_neighbor_matrix().get_neighbor_type(Direction::Left), NeighborType::Air);
    assert_eq!(tile_at(&world, 22, 5).get_neighbor_matrix().get_neighbor_type(Direction::Right), NeighborType::Air);
    let edited = tile_at(&world, 23, 5);
    assert_eq!(edited.id.id, TILE_AIR);
    assert_eq!(edited.get_neighbor_matrix().get_neighbor_type(Direction::Right), NeighborType::Same);
    assert!(world.is_dirty(&ChunkPos::new(0, 0)));
    assert!(world.is_dirty(&ChunkPos::new(1, 0)));
    let mut updates = world.take_chunk_updates();
    updates.sort_by_key(|p| (p.x, p.y));
    assert_eq!(updates, vec![ChunkPos::new(0, 0), ChunkPos::new(1, 0)]);
    assert!(!world.is_dirty(&ChunkPos::new(0, 0)));
}

#[test]
fn set_on_unloaded_chunk_does_nothing() {
    let mut world = World::new(69);
    world.set(&WorldPos::new(100, 100), Tile::id(TileId { id: TILE_STONE }));
    assert!(world.get::<Tile>(&WorldPos::new(100, 100)).is_none());
    assert!(world.take_chunk_updates().is_empty());
}

#[test]
fn request_chunks_around_center() {
    let mut world = World::new(69);
    let first = world.request_chunks(&ChunkPos::new(0, 20));
    assert_eq!(first.len(), 32 * 32);
    let again = world.request_chunks(&ChunkPos::new(0, 20));
    assert!(again.is_empty());
    // near the bottom of the world rows below 0 are skipped
    let mut low = World::new(1);
    let near_bottom = low.request_chunks(&ChunkPos::new(0, 0));
    assert_eq!(near_bottom.len(), 32 * 16);
    assert!(near_bottom.iter().all(|p| p.x >= -16 && p.x < 16 && p.y < 16));
    // loaded chunks are not asked for
    let mut loaded = World::new(2);
    loaded.add_chunks(vec![(ChunkPos::new(0, 0), Chunk::new())]);
    let around = loaded.request_chunks(&ChunkPos::new(0, 0));
    assert_eq!(around.len(), 32 * 16 - 1);
    assert!(!around.contains(&ChunkPos::new(0, 0)));
}

#[test]
fn inserted_chunk_marks_loaded_neighbors() {
    let mut world = World::new(69);
    world.add_chunks(vec![(ChunkPos::new(5, 5), stone_chunk())]);
    assert!(world.take_chunk_updates().is_empty());
    world.insert_chunk(&ChunkPos::new(5, 6), stone_chunk());
    assert!(world.is_dirty(&ChunkPos::new(5, 5)));
    assert!(!world.is_dirty(&ChunkPos::new(5, 6)));
    assert!(world.is_loaded(&ChunkPos::new(5, 6)));
    assert!(world.get_chunk(&ChunkPos::new(4, 6)).is_none());
}

fn assert_edges_agree(world: &World, xs: std::ops::Range<i32>, ys: std::ops::Range<u32>) {
    for x in xs {
        for y in ys.clone() {
            let here = WorldPos::new(x, y);
            let cell = match world.get::<Tile>(&here) {
                Some(c) => *c,
                None => continue,
            };
            for d in Direction::iter() {
                if let Some(n) = here.shift(d) {
                    if let Some(other) = world.get::<Tile>(&n) {
                        assert_eq!(cell.get_neighbor_matrix().get_neighbor_type(d), cell.apply_neighbor(other));
                    }
                }
            }
        }
    }
}

#[test]
fn loaded_edges_agree_after_edits() {
    let context = GenerationContext::new(69);
    let mut world = World::new(69);
    let positions = [ChunkPos::new(0, 18), ChunkPos::new(1, 18), ChunkPos::new(0, 17), ChunkPos::new(1, 17)];
    world.add_chunks(positions.iter().map(|p| (*p, gen_chunk(&context, p, &half_offsets(&context)))).collect());
    assert_edges_agree(&world, 0..48, 408..456);
    world.set(&WorldPos::new(23, 430), Tile::air());
    world.set(&WorldPos::new(24, 449), Tile::air());
    world.set(&WorldPos::new(10, 455), Tile::id(TileId { id: TILE_STONE }));
    world.set(&WorldPos::new(0, 432), Tile::air());
    assert_edges_agree(&world, 0..48, 408..456);
}

#[test]
fn get_mut_writes_one_cell() {
    let mut world = World::new(69);
    world.add_chunks(vec![(ChunkPos::new(0, 0), stone_chunk())]);
    let pos = WorldPos::new(3, 4);
    {
        let tile = world.get_mut::<Tile>(&pos).expect("chunk is loaded");
        tile.variance = 9;
    }
    assert_eq!(tile_at(&world, 3, 4).variance, 9);
    assert_eq!(tile_at(&world, 4, 4).variance, 0);
    assert!(world.get_mut::<Tile>(&WorldPos::new(30, 4)).is_none());
    let chunk = world.get_chunk_mut(&ChunkPos::new(0, 0)).expect("chunk is loaded");
    Grid::<Wall>::set(chunk, &ChunkSubPos::new(1, 1), Wall::id(WallId { id: WALL_STONE }));
    assert_eq!(world.get::<Wall>(&WorldPos::new(1, 1)).unwrap().id.id, WALL_STONE);
    assert!(world.get_chunk_mut(&ChunkPos::new(5, 5)).is_none());
}

#[test]
fn columns_follow_their_own_offsets() {
    let context = GenerationContext::new(69);
    let mut offsets = half_offsets(&context);
    // column 3 rises 10 cells higher: its surface sits at 460 instead of 450
    offsets[3].terrain = 35;
    let chunk = gen_chunk(&context, &ChunkPos::new(0, 18), &offsets);
    // row 20 is world row 452
    assert_eq!(Grid::<Tile>::get(&chunk, &ChunkSubPos::new(3, 20)).id.id, TILE_DIRT);
    assert_eq!(Grid::<Tile>::get(&chunk, &ChunkSubPos::new(2, 20)).id.id, TILE_AIR);
    let raised = Grid::<Tile>::get(&chunk, &ChunkSubPos::new(3, 20)).get_neighbor_matrix();
    assert_eq!(raised.get_neighbor_type(Direction::Left), NeighborType::Air);
    assert_eq!(raised.get_neighbor_type(Direction::Down), NeighborType::Same);
}
