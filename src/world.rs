use std::collections::hash_map::Entry;
use std::collections::{HashMap, HashSet};
use vstd::prelude::*;

use crate::chunk::{Chunk, Grid};
use crate::gen::WorldGenerator;
use crate::neighbor::{update_neighbor, NeighborAware};
use crate::pos::{
    chunk_in_range, chunk_key, lemma_chunk_key_injective, ChunkPos, ChunkSubPos, WorldPos,
};
use crate::tile::Tile;
use crate::util::Direction;
use crate::wall::Wall;
use crate::world_model::{
    border_progress, border_slot, borders_updated, cell_after_set, cell_in, chunk_linked,
    dir_index, in_footprint, lemma_border_next_dir, lemma_border_pair_step, lemma_border_skip,
    lemma_border_step, lemma_insert_keeps_linked, lemma_set_finish, lemma_set_keeps_linked,
    lemma_set_skip, lemma_set_step, loaded_neighbors, neighbor_chunks, neighbors_before,
    scanned, scanned_missing, same_cells, holds_cells, adjacent_chunks, lemma_same_cells_trans,
    lemma_insert_same_cells, lemma_same_cells_insert, lemma_holds_cells_keep,
    lemma_holds_cells_new, tail_neighbors, lemma_same_cells_refl, border_linked, lemma_insert_links, set_progress, step_chunk, tail_set, world_linked, RENDER_DISTANCE,
};

verus! {

broadcast use vstd::std_specs::hash::group_hash_axioms;

/// Index of a joined player.
#[derive(Copy, Clone, PartialEq, Eq, Hash, Debug, Structural)]
pub struct PlayerId {
    pub id: usize,
}

impl Default for PlayerId {
    /// An id that names no player.
    fn default() -> (r: PlayerId)
        ensures
            r.id == usize::MAX,
    {
        PlayerId { id: usize::MAX }
    }
}

/// The stale list holds each chunk once, and the key set holds exactly the keys of the list.
spec fn stale_wf(list: Seq<ChunkPos>, keys: Set<u32>) -> bool {
    &&& list.no_duplicates()
    &&& forall|p: ChunkPos| #[trigger] keys.contains(chunk_key(p) as u32) == list.contains(p)
}

/// The world: the loaded chunks, the chunks whose drawing is stale, and the generator that
/// hands out new chunks.
pub struct World {
    chunks: HashMap<u32, Chunk>,
    chunk_updates: Vec<ChunkPos>,
    update_keys: HashSet<u32>,
    chunk_generator: WorldGenerator,
}

impl World {
    /// The loaded chunks, by coordinate.
    pub closed spec fn loaded(&self) -> Map<ChunkPos, Chunk> {
        Map::new(
            |p: ChunkPos| self.chunks@.contains_key(chunk_key(p) as u32),
            |p: ChunkPos| self.chunks@[chunk_key(p) as u32],
        )
    }

    /// The chunks marked as visually stale since the last drain.
    pub closed spec fn dirty(&self) -> Set<ChunkPos> {
        self.chunk_updates@.to_set()
    }

    /// The chunk generator's state.
    pub closed spec fn generator(&self) -> WorldGenerator {
        self.chunk_generator
    }

    /// The stale list holds each chunk once.
    pub closed spec fn wf(&self) -> bool {
        stale_wf(self.chunk_updates@, self.update_keys@)
    }

    /// An empty world whose chunks will be generated from `seed`.
    pub fn new(seed: u64) -> (r: World)
        ensures
            r.wf(),
            r.loaded() == Map::<ChunkPos, Chunk>::empty(),
            r.dirty() == Set::<ChunkPos>::empty(),
            r.generator().queued() == Set::<ChunkPos>::empty(),
            world_linked::<Tile>(r.loaded()),
            world_linked::<Wall>(r.loaded()),
    {
        let r = World {
            chunks: HashMap::new(),
            chunk_updates: Vec::new(),
            update_keys: HashSet::new(),
            chunk_generator: WorldGenerator::new(seed),
        };
        proof {
            assert(r.loaded() =~= Map::<ChunkPos, Chunk>::empty());
            assert(r.dirty() =~= Set::<ChunkPos>::empty());
        }
        r
    }

    /// Whether the chunk at `pos` is loaded.
    pub fn is_loaded(&self, pos: &ChunkPos) -> (r: bool)
        ensures
            r == self.loaded().contains_key(*pos),
    {
        let key = pos.key();
        proof {
            lemma_chunk_key_injective(*pos, *pos);
        }
        self.chunks.contains_key(&key)
    }

    pub fn get_chunk(&self, pos: &ChunkPos) -> (r: Option<&Chunk>)
        ensures
            match r {
                Some(c) => self.loaded().contains_key(*pos) && *c == self.loaded()[*pos],
                None => !self.loaded().contains_key(*pos),
            },
    {
        let key = pos.key();
        proof {
            lemma_chunk_key_injective(*pos, *pos);
        }
        self.chunks.get(&key)
    }

    /// Takes the chunk at `pos` out of the world.
    fn take_chunk(&mut self, pos: &ChunkPos) -> (r: Option<Chunk>)
        ensures
            match r {
                Some(c) => old(self).loaded().contains_key(*pos) && c == old(self).loaded()[*pos],
                None => !old(self).loaded().contains_key(*pos),
            },
            final(self).loaded() == old(self).loaded().remove(*pos),
            final(self).chunk_updates == old(self).chunk_updates,
            final(self).update_keys@ == old(self).update_keys@,
            final(self).chunk_generator == old(self).chunk_generator,
    {
        let key = pos.key();
        proof {
            lemma_chunk_key_injective(*pos, *pos);
        }
        let r = self.chunks.remove(&key);
        proof {
            assert forall|p: ChunkPos| #[trigger] self.loaded().contains_key(p) == old(
                self,
            ).loaded().remove(*pos).contains_key(p) by {
                lemma_chunk_key_injective(p, *pos);
                lemma_chunk_key_injective(p, p);
            }
            assert(self.loaded() =~= old(self).loaded().remove(*pos));
        }
        r
    }

    /// Puts `chunk` into the world at `pos`.
    fn put_chunk(&mut self, pos: &ChunkPos, chunk: Chunk)
        ensures
            final(self).loaded() == old(self).loaded().insert(*pos, chunk),
            final(self).chunk_updates == old(self).chunk_updates,
            final(self).update_keys@ == old(self).update_keys@,
            final(self).chunk_generator == old(self).chunk_generator,
    {
        let key = pos.key();
        proof {
            lemma_chunk_key_injective(*pos, *pos);
        }
        self.chunks.insert(key, chunk);
        proof {
            assert forall|p: ChunkPos| #[trigger] self.loaded().contains_key(p) == old(
                self,
            ).loaded().insert(*pos, chunk).contains_key(p) by {
                lemma_chunk_key_injective(p, *pos);
                lemma_chunk_key_injective(p, p);
            }
            assert(self.loaded() =~= old(self).loaded().insert(*pos, chunk));
        }
    }

    /// Marks the chunk at `pos` as visually stale.
    fn mark_dirty(&mut self, pos: &ChunkPos)
        requires
            old(self).wf(),
        ensures
            final(self).wf(),
            final(self).dirty() == old(self).dirty().insert(*pos),
            final(self).loaded() == old(self).loaded(),
            final(self).chunk_generator == old(self).chunk_generator,
    {
        let key = pos.key();
        proof {
            lemma_chunk_key_injective(*pos, *pos);
            assert(key == chunk_key(*pos) as u32);
        }
        if self.update_keys.insert(key) {
            self.chunk_updates.push(*pos);
        }
        proof {
            let v0 = old(self).chunk_updates@;
            assert(self.loaded() =~= old(self).loaded());
            assert(v0.contains(*pos) == old(self).update_keys@.contains(key));
            assert forall|p: ChunkPos| #[trigger] self.chunk_updates@.contains(p) == (v0.contains(p)
                || p == *pos) by {
                if self.chunk_updates@ != v0 {
                    assert(self.chunk_updates@ == v0.push(*pos));
                    if v0.contains(p) {
                        let k = choose|k: int| 0 <= k < v0.len() && v0[k] == p;
                        assert(self.chunk_updates@[k] == p);
                    }
                    if p == *pos {
                        assert(self.chunk_updates@[v0.len() as int] == p);
                    }
                    if self.chunk_updates@.contains(p) && p != *pos {
                        let k = choose|k: int|
                            0 <= k < self.chunk_updates@.len() && self.chunk_updates@[k] == p;
                        assert(v0[k] == p);
                    }
                }
            }
            assert forall|p: ChunkPos| #[trigger]
                self.update_keys@.contains(chunk_key(p) as u32) == self.chunk_updates@.contains(p) by {
                lemma_chunk_key_injective(p, *pos);
                lemma_chunk_key_injective(p, p);
            }
            assert forall|a: int, b: int|
                0 <= a < b < self.chunk_updates@.len() implies self.chunk_updates@[a]
                != self.chunk_updates@[b] by {
                if b == v0.len() {
                    assert(v0.contains(self.chunk_updates@[a]));
                }
            }
            assert(self.dirty() =~= old(self).dirty().insert(*pos));
        }
    }

    /// Whether the chunk at `pos` is marked as visually stale.
    pub fn is_dirty(&self, pos: &ChunkPos) -> (r: bool)
        requires
            self.wf(),
        ensures
            r == self.dirty().contains(*pos),
    {
        let key = pos.key();
        proof {
            lemma_chunk_key_injective(*pos, *pos);
            assert(key == chunk_key(*pos) as u32);
            assert(self.update_keys@.contains(chunk_key(*pos) as u32) == self.chunk_updates@.contains(
                *pos,
            ));
        }
        self.update_keys.contains(&key)
    }

    /// Hands out the stale chunks, each once, and clears the stale set.
    pub fn take_chunk_updates(&mut self) -> (r: Vec<ChunkPos>)
        requires
            old(self).wf(),
        ensures
            final(self).wf(),
            r@.no_duplicates(),
            r@.to_set() == old(self).dirty(),
            final(self).dirty() == Set::<ChunkPos>::empty(),
            final(self).loaded() == old(self).loaded(),
            final(self).generator() == old(self).generator(),
    {
        let mut out: Vec<ChunkPos> = Vec::new();
        std::mem::swap(&mut out, &mut self.chunk_updates);
        self.update_keys.clear();
        proof {
            assert(self.loaded() =~= old(self).loaded());
            assert(self.dirty() =~= Set::<ChunkPos>::empty());
        }
        out
    }

    /// The cell of kind `C` at `pos`; `None` where its chunk is not loaded.
    pub fn get<C: NeighborAware>(&self, pos: &WorldPos) -> (r: Option<&C>) where
        Chunk: Grid<C>,

        requires
            pos.wf(),
        ensures
            match r {
                Some(c) => self.loaded().contains_key(pos.chunk_pos) && *c == cell_in::<C>(
                    self.loaded(),
                    *pos,
                ),
                None => !self.loaded().contains_key(pos.chunk_pos),
            },
    {
        match self.get_chunk(pos.get_chunk_pos()) {
            Some(chunk) => Some(chunk.get(pos.get_chunk_sub_pos())),
            None => None,
        }
    }

    /// Places `object` at `pos`. Where the chunk of `pos` is not loaded nothing happens.
    /// Otherwise both sides of each edge between `pos` and a loaded neighbour are updated,
    /// the cell is replaced, and the chunk of `pos` and those of its loaded neighbours are
    /// marked as stale.
    pub fn set<C: NeighborAware>(&mut self, pos: &WorldPos, object: C) where Chunk: Grid<C>,

        requires
            old(self).wf(),
            pos.wf(),
        ensures
            final(self).wf(),
            final(self).generator() == old(self).generator(),
            !old(self).loaded().contains_key(pos.chunk_pos) ==> final(self).loaded() == old(
                self,
            ).loaded() && final(self).dirty() == old(self).dirty(),
            old(self).loaded().contains_key(pos.chunk_pos) ==> {
                &&& final(self).loaded().dom() == old(self).loaded().dom()
                &&& forall|q: WorldPos|
                    q.wf() && old(self).loaded().contains_key(q.chunk_pos) ==> #[trigger] cell_in::<
                        C,
                    >(final(self).loaded(), q) == cell_after_set(
                        old(self).loaded(),
                        *pos,
                        object,
                        q,
                    )
                &&& forall|p: ChunkPos|
                    old(self).loaded().contains_key(p) ==> Grid::<C>::rest(
                        &#[trigger] final(self).loaded()[p],
                    ) == Grid::<C>::rest(&old(self).loaded()[p])
                &&& final(self).dirty() == old(self).dirty().insert(pos.chunk_pos).union(
                    neighbor_chunks(old(self).loaded(), *pos, 4),
                )
            },
            world_linked::<C>(old(self).loaded()) ==> world_linked::<C>(final(self).loaded()),
    {
        if !self.is_loaded(pos.get_chunk_pos()) {
            return ;
        }
        let ghost m = self.loaded();
        let ghost d0 = self.dirty();
        let ghost object0 = object;
        let mut object = object;
        proof {
            object0.lemma_with_matrix(object0.matrix(), &object0);
            assert(neighbor_chunks(m, *pos, 0) =~= Set::<ChunkPos>::empty());
            assert(d0.union(neighbor_chunks(m, *pos, 0)) =~= d0);
        }
        let dirs = Direction::iter();
        let mut i: usize = 0;
        while i < 4
            invariant
                i <= 4,
                self.wf(),
                pos.wf(),
                m.contains_key(pos.chunk_pos),
                dirs@ == seq![Direction::Top, Direction::Down, Direction::Left, Direction::Right],
                self.generator() == old(self).generator(),
                set_progress(m, self.loaded(), *pos, object0, object, i as int),
                self.dirty() == d0.union(neighbor_chunks(m, *pos, i as int)),
            decreases 4 - i,
        {
            let d = dirs[i];
            let ghost mi = self.loaded();
            let ghost oi = object;
            let ghost di = self.dirty();
            assert(dir_index(d) == i);
            match pos.shift(d) {
                Some(n) => {
                    match self.take_chunk(n.get_chunk_pos()) {
                        Some(mut chunk) => {
                            let ghost ch0 = chunk;
                            let ghost cn = Grid::<C>::cell(
                                &ch0,
                                n.chunk_sub_pos.x as int,
                                n.chunk_sub_pos.y as int,
                            );
                            update_neighbor(
                                &mut object,
                                Grid::<C>::get_mut(&mut chunk, n.get_chunk_sub_pos()),
                                d,
                            );
                            self.put_chunk(n.get_chunk_pos(), chunk);
                            self.mark_dirty(n.get_chunk_pos());
                            proof {
                                lemma_set_step(
                                    m,
                                    mi,
                                    self.loaded(),
                                    *pos,
                                    object0,
                                    oi,
                                    object,
                                    d,
                                    n,
                                    ch0,
                                    chunk,
                                    i as int,
                                );
                                assert(neighbor_chunks(m, *pos, i + 1) =~= neighbor_chunks(
                                    m,
                                    *pos,
                                    i as int,
                                ).insert(n.chunk_pos));
                                assert(self.dirty() =~= d0.union(neighbor_chunks(m, *pos, i + 1)));
                            }
                        },
                        None => {
                            proof {
                                lemma_set_skip(m, mi, *pos, object0, object, d, i as int);
                                assert(self.loaded() =~= mi);
                                assert(neighbor_chunks(m, *pos, i + 1) =~= neighbor_chunks(
                                    m,
                                    *pos,
                                    i as int,
                                ));
                            }
                        },
                    }
                },
                None => {
                    proof {
                        lemma_set_skip(m, mi, *pos, object0, object, d, i as int);
                        assert(neighbor_chunks(m, *pos, i + 1) =~= neighbor_chunks(
                            m,
                            *pos,
                            i as int,
                        ));
                    }
                },
            }
            i = i + 1;
        }
        let ghost m4 = self.loaded();
        match self.take_chunk(pos.get_chunk_pos()) {
            Some(mut chunk) => {
                let ghost ch = chunk;
                let ghost o4 = object;
                assert(set_progress(m, m4, *pos, object0, o4, 4));
                Grid::<C>::set(&mut chunk, pos.get_chunk_sub_pos(), object);
                self.put_chunk(pos.get_chunk_pos(), chunk);
                self.mark_dirty(pos.get_chunk_pos());
                proof {
                    lemma_set_finish(m, m4, self.loaded(), *pos, object0, o4, ch);
                    if world_linked::<C>(m) {
                        lemma_set_keeps_linked(m, self.loaded(), *pos, object0);
                    }
                    assert(self.dirty() =~= d0.insert(pos.chunk_pos).union(
                        neighbor_chunks(m, *pos, 4),
                    ));
                }
            },
            None => {},
        }
    }

    /// Border reconciliation of the chunk at `pos` for cells of kind `C`: for each
    /// direction whose neighbouring chunk is loaded, both sides of every edge along the
    /// shared border are updated.
    pub fn update_borders<C: NeighborAware>(&mut self, pos: &ChunkPos) where Chunk: Grid<C>,

        requires
            old(self).wf(),
            old(self).loaded().contains_key(*pos),
        ensures
            final(self).wf(),
            final(self).dirty() == old(self).dirty(),
            final(self).generator() == old(self).generator(),
            borders_updated::<C>(old(self).loaded(), final(self).loaded(), *pos),
    {
        let ghost m = self.loaded();
        proof {
            assert forall|q: WorldPos| q.wf() && m.contains_key(q.chunk_pos) implies #[trigger] cell_in::<C>(
                m,
                q,
            ) == cell_in::<C>(m, q).with_matrix(cell_in::<C>(m, q).matrix()) by {
                let c = cell_in::<C>(m, q);
                c.lemma_with_matrix(c.matrix(), &c);
            }
            assert forall|q: WorldPos, e: Direction| q.wf() && m.contains_key(q.chunk_pos) implies #[trigger] cell_in::<C>(
                m,
                q,
            ).matrix().at(e) == border_slot::<C>(m, *pos, q, e, 0, 0) by {
            }
        }
        let dirs = Direction::iter();
        let mut i: usize = 0;
        while i < 4
            invariant
                i <= 4,
                self.wf(),
                m.contains_key(*pos),
                dirs@ == seq![Direction::Top, Direction::Down, Direction::Left, Direction::Right],
                self.dirty() == old(self).dirty(),
                self.generator() == old(self).generator(),
                border_progress::<C>(m, self.loaded(), *pos, i as int, 0),
            decreases 4 - i,
        {
            let d = dirs[i];
            assert(dir_index(d) == i);
            match pos.shift(&d) {
                Some(npos) => {
                    if self.is_loaded(&npos) {
                        let ghost mi = self.loaded();
                        let ta = self.take_chunk(pos);
                        let tb = self.take_chunk(&npos);
                        match (ta, tb) {
                            (Some(mut a), Some(mut b)) => {
                                let ghost base = self.loaded();
                                proof {
                                    assert(base.insert(*pos, a).insert(npos, b) =~= mi);
                                }
                                let vertical = d.is_vertical();
                                let source = if vertical { d.get_y_border() } else { d.get_x_border() };
                                let facing = if vertical {
                                    d.flip().get_y_border()
                                } else {
                                    d.flip().get_x_border()
                                };
                                let mut k: u8 = 0;
                                while k < 24
                                    invariant
                                        k <= 24,
                                        m.contains_key(*pos),
                                        m.contains_key(npos),
                                        npos.x == pos.x + d.dx(),
                                        npos.y == pos.y + d.dy(),
                                        dir_index(d) == i,
                                        vertical == d.is_vertical_spec(),
                                        source == d.border_spec(),
                                        facing == d.flip_spec().border_spec(),
                                        border_progress::<C>(
                                            m,
                                            base.insert(*pos, a).insert(npos, b),
                                            *pos,
                                            i as int,
                                            k as int,
                                        ),
                                    decreases 24 - k,
                                {
                                    let (sa, sb) = if vertical {
                                        (ChunkSubPos::new(k, source), ChunkSubPos::new(k, facing))
                                    } else {
                                        (ChunkSubPos::new(source, k), ChunkSubPos::new(facing, k))
                                    };
                                    let ghost qa = WorldPos { chunk_pos: *pos, chunk_sub_pos: sa };
                                    let ghost a0 = a;
                                    let ghost b0 = b;
                                    proof {
                                        lemma_border_step(qa, d);
                                        assert(qa.can_step(d));
                                        assert(qa.step(d) == WorldPos { chunk_pos: npos, chunk_sub_pos: sb });
                                    }
                                    update_neighbor(
                                        Grid::<C>::get_mut(&mut a, &sa),
                                        Grid::<C>::get_mut(&mut b, &sb),
                                        d,
                                    );
                                    proof {
                                        lemma_border_pair_step(
                                            m,
                                            base,
                                            *pos,
                                            npos,
                                            d,
                                            i as int,
                                            k as int,
                                            qa,
                                            qa.step(d),
                                            a0,
                                            b0,
                                            a,
                                            b,
                                        );
                                    }
                                    k = k + 1;
                                }
                                self.put_chunk(pos, a);
                                self.put_chunk(&npos, b);
                                proof {
                                    assert(self.loaded() =~= base.insert(*pos, a).insert(npos, b));
                                    lemma_border_next_dir::<C>(m, self.loaded(), *pos, i as int);
                                }
                            },
                            _ => {},
                        }
                    } else {
                        proof {
                            lemma_border_skip::<C>(m, self.loaded(), *pos, d, i as int);
                        }
                    }
                },
                None => {
                    proof {
                        lemma_border_skip::<C>(m, self.loaded(), *pos, d, i as int);
                    }
                },
            }
            i = i + 1;
        }
    }

    /// Adds a freshly generated chunk at `pos`, which must not be loaded yet. Its borders
    /// are reconciled with the loaded neighbouring chunks, tiles first, then walls, and
    /// those neighbouring chunks are marked as stale.
    pub fn insert_chunk(&mut self, pos: &ChunkPos, chunk: Chunk)
        requires
            old(self).wf(),
            !old(self).loaded().contains_key(*pos),
        ensures
            final(self).wf(),
            final(self).generator() == old(self).generator(),
            final(self).loaded().dom() == old(self).loaded().dom().insert(*pos),
            exists|mid: Map<ChunkPos, Chunk>|
                borders_updated::<Tile>(old(self).loaded().insert(*pos, chunk), mid, *pos)
                    && borders_updated::<Wall>(mid, final(self).loaded(), *pos),
            final(self).dirty() == old(self).dirty().union(loaded_neighbors(old(self).loaded(), *pos)),
            same_cells::<Tile>(old(self).loaded().insert(*pos, chunk), final(self).loaded()),
            same_cells::<Wall>(old(self).loaded().insert(*pos, chunk), final(self).loaded()),
            border_linked::<Tile>(final(self).loaded(), *pos),
            border_linked::<Wall>(final(self).loaded(), *pos),
            forall|p: ChunkPos|
                old(self).loaded().contains_key(p) && #[trigger] border_linked::<Tile>(
                    old(self).loaded(),
                    p,
                ) && border_linked::<Wall>(old(self).loaded(), p) ==> border_linked::<Tile>(
                    final(self).loaded(),
                    p,
                ) && border_linked::<Wall>(final(self).loaded(), p),
            world_linked::<Tile>(old(self).loaded()) && world_linked::<Wall>(old(self).loaded())
                && chunk_linked::<Tile>(chunk) && chunk_linked::<Wall>(chunk) ==> world_linked::<
                Tile,
            >(final(self).loaded()) && world_linked::<Wall>(final(self).loaded()),
    {
        let ghost d0 = self.dirty();
        let ghost m0 = self.loaded();
        self.put_chunk(pos, chunk);
        let ghost m1 = self.loaded();
        self.update_borders::<Tile>(pos);
        let ghost mid = self.loaded();
        self.update_borders::<Wall>(pos);
        let ghost mf = self.loaded();
        proof {
            assert(mid.dom() == m1.dom());
            assert(mf.dom() == mid.dom());
            assert(m1.dom() =~= m0.dom().insert(*pos));
            assert(borders_updated::<Tile>(m0.insert(*pos, chunk), mid, *pos));
            lemma_insert_same_cells(m0, *pos, chunk, mid, mf);
            lemma_insert_links(m0, *pos, chunk, mid, mf, *pos);
            assert forall|p: ChunkPos|
                m0.contains_key(p) && #[trigger] border_linked::<Tile>(m0, p) && border_linked::<
                    Wall,
                >(m0, p) implies border_linked::<Tile>(mf, p) && border_linked::<Wall>(mf, p) by {
                lemma_insert_links(m0, *pos, chunk, mid, mf, p);
            }
            if world_linked::<Tile>(m0) && world_linked::<Wall>(m0) && chunk_linked::<Tile>(chunk)
                && chunk_linked::<Wall>(chunk) {
                lemma_insert_keeps_linked(m0, *pos, chunk, mid, mf);
            }
            assert(loaded_neighbors(m0, *pos) =~= loaded_neighbors(mf, *pos));
            assert(neighbors_before(mf, *pos, 0) =~= Set::<ChunkPos>::empty());
            assert(d0.union(Set::<ChunkPos>::empty()) =~= d0);
        }
        let dirs = Direction::iter();
        let mut i: usize = 0;
        while i < 4
            invariant
                i <= 4,
                self.wf(),
                dirs@ == seq![Direction::Top, Direction::Down, Direction::Left, Direction::Right],
                self.loaded() == mf,
                self.generator() == old(self).generator(),
                self.dirty() == d0.union(neighbors_before(mf, *pos, i as int)),
            decreases 4 - i,
        {
            let d = dirs[i];
            assert(dir_index(d) == i);
            let ghost di = self.dirty();
            match pos.shift(&d) {
                Some(n) => {
                    if self.is_loaded(&n) {
                        self.mark_dirty(&n);
                    }
                },
                None => {},
            }
            proof {
                let before = neighbors_before(mf, *pos, i as int);
                let after = neighbors_before(mf, *pos, i + 1);
                if chunk_in_range(pos.x + d.dx(), pos.y + d.dy()) && mf.contains_key(
                    step_chunk(*pos, d),
                ) {
                    assert(loaded_neighbors(mf, *pos).contains(step_chunk(*pos, d)));
                    assert(after =~= before.insert(step_chunk(*pos, d)));
                } else {
                    assert(after =~= before);
                }
                assert(self.dirty() =~= d0.union(after));
            }
            i = i + 1;
        }
        proof {
            assert(neighbors_before(mf, *pos, 4) =~= loaded_neighbors(m0, *pos));
            assert(self.dirty() =~= d0.union(loaded_neighbors(m0, *pos)));
        }
    }

    /// Adds freshly generated chunks, each as `insert_chunk` does. Their coordinates must
    /// be distinct and not loaded yet.
    pub fn add_chunks(&mut self, new_chunks: Vec<(ChunkPos, Chunk)>)
        requires
            old(self).wf(),
            forall|i: int|
                0 <= i < new_chunks@.len() ==> !old(self).loaded().contains_key(
                    #[trigger] new_chunks@[i].0,
                ),
            forall|i: int, j: int|
                0 <= i < j < new_chunks@.len() ==> #[trigger] new_chunks@[i].0
                    != #[trigger] new_chunks@[j].0,
        ensures
            final(self).wf(),
            final(self).generator() == old(self).generator(),
            final(self).loaded().dom() == old(self).loaded().dom().union(
                new_chunks@.map_values(|e: (ChunkPos, Chunk)| e.0).to_set(),
            ),
            same_cells::<Tile>(old(self).loaded(), final(self).loaded()),
            same_cells::<Wall>(old(self).loaded(), final(self).loaded()),
            forall|i: int|
                0 <= i < new_chunks@.len() ==> holds_cells::<Tile>(
                    final(self).loaded(),
                    #[trigger] new_chunks@[i].0,
                    new_chunks@[i].1,
                ) && holds_cells::<Wall>(final(self).loaded(), new_chunks@[i].0, new_chunks@[i].1),
            forall|i: int|
                0 <= i < new_chunks@.len() ==> border_linked::<Tile>(
                    final(self).loaded(),
                    #[trigger] new_chunks@[i].0,
                ) && border_linked::<Wall>(final(self).loaded(), new_chunks@[i].0),
            old(self).dirty().subset_of(final(self).dirty()),
            forall|i: int|
                0 <= i < new_chunks@.len() ==> loaded_neighbors(
                    old(self).loaded(),
                    #[trigger] new_chunks@[i].0,
                ).subset_of(final(self).dirty()),
            final(self).dirty().subset_of(
                old(self).dirty().union(
                    tail_neighbors(new_chunks@.map_values(|e: (ChunkPos, Chunk)| e.0), 0),
                ),
            ),
            world_linked::<Tile>(old(self).loaded()) && world_linked::<Wall>(old(self).loaded())
                && (forall|i: int|
                0 <= i < new_chunks@.len() ==> chunk_linked::<Tile>(#[trigger] new_chunks@[i].1)
                    && chunk_linked::<Wall>(new_chunks@[i].1)) ==> world_linked::<Tile>(
                final(self).loaded(),
            ) && world_linked::<Wall>(final(self).loaded()),
    {
        let ghost m0 = self.loaded();
        let ghost d0 = self.dirty();
        let ghost all = new_chunks@.map_values(|e: (ChunkPos, Chunk)| e.0);
        let ghost entries = new_chunks@;
        let ghost linked = world_linked::<Tile>(self.loaded()) && world_linked::<Wall>(self.loaded())
            && (forall|i: int|
            0 <= i < new_chunks@.len() ==> chunk_linked::<Tile>(#[trigger] new_chunks@[i].1)
                && chunk_linked::<Wall>(new_chunks@[i].1));
        let mut pending = new_chunks;
        proof {
            assert(tail_set(all, all.len() as int) =~= Set::<ChunkPos>::empty());
            assert(self.loaded().dom().union(Set::<ChunkPos>::empty()) =~= self.loaded().dom());
            assert(tail_neighbors(all, all.len() as int) =~= Set::<ChunkPos>::empty());
            assert(d0.union(Set::<ChunkPos>::empty()) =~= d0);
            lemma_same_cells_refl::<Tile>(m0);
            lemma_same_cells_refl::<Wall>(m0);
        }
        while pending.len() > 0
            invariant
                self.wf(),
                self.generator() == old(self).generator(),
                pending@.len() <= all.len(),
                forall|i: int| 0 <= i < pending@.len() ==> #[trigger] pending@[i] == entries[i],
                entries.len() == all.len(),
                forall|i: int| 0 <= i < all.len() ==> #[trigger] entries[i].0 == all[i],
                linked ==> world_linked::<Tile>(self.loaded()) && world_linked::<Wall>(self.loaded()),
                linked ==> forall|i: int|
                    0 <= i < entries.len() ==> chunk_linked::<Tile>(#[trigger] entries[i].1)
                        && chunk_linked::<Wall>(entries[i].1),
                forall|i: int|
                    0 <= i < pending@.len() ==> !self.loaded().contains_key(#[trigger] all[i]),
                forall|i: int, j: int| 0 <= i < j < all.len() ==> #[trigger] all[i] != #[trigger] all[j],
                self.loaded().dom() == old(self).loaded().dom().union(
                    tail_set(all, pending@.len() as int),
                ),
                m0 == old(self).loaded(),
                d0 == old(self).dirty(),
                same_cells::<Tile>(m0, self.loaded()),
                same_cells::<Wall>(m0, self.loaded()),
                forall|i: int|
                    pending@.len() <= i < all.len() ==> holds_cells::<Tile>(
                        self.loaded(),
                        #[trigger] all[i],
                        entries[i].1,
                    ) && holds_cells::<Wall>(self.loaded(), all[i], entries[i].1),
                forall|i: int|
                    pending@.len() <= i < all.len() ==> border_linked::<Tile>(
                        self.loaded(),
                        #[trigger] all[i],
                    ) && border_linked::<Wall>(self.loaded(), all[i]),
                d0.subset_of(self.dirty()),
                forall|i: int|
                    pending@.len() <= i < all.len() ==> loaded_neighbors(m0, #[trigger] all[i]).subset_of(
                        self.dirty(),
                    ),
                self.dirty().subset_of(d0.union(tail_neighbors(all, pending@.len() as int))),
            decreases pending@.len(),
        {
            let ghost n = pending@.len();
            let (pos, chunk) = match pending.pop() {
                Some(e) => e,
                None => {
                    return ;
                },
            };
            assert(pos == all[n - 1]);
            assert(chunk == entries[n - 1].1);
            let ghost mb = self.loaded();
            let ghost db = self.dirty();
            self.insert_chunk(&pos, chunk);
            proof {
                let ma = self.loaded();
                lemma_same_cells_insert::<Tile>(mb, pos, chunk);
                lemma_same_cells_insert::<Wall>(mb, pos, chunk);
                lemma_same_cells_trans::<Tile>(mb, mb.insert(pos, chunk), ma);
                lemma_same_cells_trans::<Wall>(mb, mb.insert(pos, chunk), ma);
                lemma_same_cells_trans::<Tile>(m0, mb, ma);
                lemma_same_cells_trans::<Wall>(m0, mb, ma);
                lemma_holds_cells_new::<Tile>(mb, ma, pos, chunk);
                lemma_holds_cells_new::<Wall>(mb, ma, pos, chunk);
                assert forall|i: int| n - 1 <= i < all.len() implies holds_cells::<Tile>(
                    ma,
                    #[trigger] all[i],
                    entries[i].1,
                ) && holds_cells::<Wall>(ma, all[i], entries[i].1) by {
                    if i > n - 1 {
                        assert(tail_set(all, n as int).contains(all[i]));
                        lemma_holds_cells_keep::<Tile>(mb, ma, all[i], entries[i].1);
                        lemma_holds_cells_keep::<Wall>(mb, ma, all[i], entries[i].1);
                    }
                }
                assert forall|i: int| n - 1 <= i < all.len() implies border_linked::<Tile>(
                    ma,
                    #[trigger] all[i],
                ) && border_linked::<Wall>(ma, all[i]) by {
                    if i > n - 1 {
                        assert(tail_set(all, n as int).contains(all[i]));
                        assert(mb.contains_key(all[i]));
                        assert(border_linked::<Tile>(mb, all[i]));
                    }
                }
                assert(loaded_neighbors(m0, pos).subset_of(loaded_neighbors(mb, pos)));
                assert forall|i: int| n - 1 <= i < all.len() implies loaded_neighbors(
                    m0,
                    #[trigger] all[i],
                ).subset_of(self.dirty()) by {
                }
                assert(loaded_neighbors(mb, pos).subset_of(adjacent_chunks(pos)));
                assert(adjacent_chunks(pos).subset_of(tail_neighbors(all, n - 1)));
                assert(tail_neighbors(all, n as int).subset_of(tail_neighbors(all, n - 1)));
                assert(tail_set(all, n - 1) =~= tail_set(all, n as int).insert(pos)) by {
                    assert forall|c: ChunkPos| #[trigger] tail_set(all, n - 1).contains(c) implies tail_set(
                        all,
                        n as int,
                    ).insert(pos).contains(c) by {
                        let k = choose|k: int| n - 1 <= k < all.len() && #[trigger] all[k] == c;
                        if k > n - 1 {
                            assert(tail_set(all, n as int).contains(c));
                        }
                    }
                }
                assert forall|i: int| 0 <= i < pending@.len() implies !self.loaded().contains_key(
                    #[trigger] all[i],
                ) by {
                    assert(all[i] != all[n - 1]);
                }
            }
        }
        proof {
            assert(tail_set(all, 0) =~= all.to_set());
            assert forall|i: int| 0 <= i < entries.len() implies #[trigger] entries[i].0 == all[i] by {
            }
        }
    }

    /// Asks for generation of every chunk within the render distance of `center` that is
    /// neither loaded nor asked for before, and returns those coordinates, each once: a
    /// generation task has to be started for each of them.
    pub fn request_chunks(&mut self, center: &ChunkPos) -> (r: Vec<ChunkPos>)
        requires
            old(self).wf(),
        ensures
            final(self).wf(),
            final(self).loaded() == old(self).loaded(),
            final(self).dirty() == old(self).dirty(),
            final(self).generator().settings() == old(self).generator().settings(),
            final(self).generator().queued() == old(self).generator().queued().union(
                Set::new(
                    |p: ChunkPos| in_footprint(*center, p) && !old(self).loaded().contains_key(p),
                ),
            ),
            r@.no_duplicates(),
            forall|p: ChunkPos|
                #[trigger] r@.contains(p) == (in_footprint(*center, p) && !old(
                    self,
                ).loaded().contains_key(p) && !old(self).generator().queued().contains(p)),
    {
        let ghost q0 = self.generator().queued();
        let ghost m = self.loaded();
        let mut out: Vec<ChunkPos> = Vec::new();
        let mut dx: i32 = -RENDER_DISTANCE;
        proof {
            assert(scanned_missing(*center, m, dx as int, -RENDER_DISTANCE as int) =~= Set::<ChunkPos>::empty());
            assert(q0.union(Set::<ChunkPos>::empty()) =~= q0);
        }
        while dx < RENDER_DISTANCE
            invariant
                -RENDER_DISTANCE <= dx <= RENDER_DISTANCE,
                self.wf(),
                self.loaded() == m,
                m == old(self).loaded(),
                self.dirty() == old(self).dirty(),
                self.generator().settings() == old(self).generator().settings(),
                q0 == old(self).generator().queued(),
                self.generator().queued() == q0.union(
                    scanned_missing(*center, m, dx as int, -RENDER_DISTANCE as int),
                ),
                out@.no_duplicates(),
                forall|p: ChunkPos|
                    #[trigger] out@.contains(p) == (scanned(*center, p, dx as int, -RENDER_DISTANCE)
                        && !m.contains_key(p) && !q0.contains(p)),
            decreases RENDER_DISTANCE - dx,
        {
            let mut dy: i32 = -RENDER_DISTANCE;
            while dy < RENDER_DISTANCE
                invariant
                    -RENDER_DISTANCE <= dx < RENDER_DISTANCE,
                    -RENDER_DISTANCE <= dy <= RENDER_DISTANCE,
                    self.wf(),
                    self.loaded() == m,
                    self.dirty() == old(self).dirty(),
                    self.generator().settings() == old(self).generator().settings(),
                    self.generator().queued() == q0.union(
                        scanned_missing(*center, m, dx as int, dy as int),
                    ),
                    out@.no_duplicates(),
                    forall|p: ChunkPos|
                        #[trigger] out@.contains(p) == (scanned(*center, p, dx as int, dy as int)
                            && !m.contains_key(p) && !q0.contains(p)),
                decreases RENDER_DISTANCE - dy,
            {
                let x = center.x as i32 + dx;
                let y = center.y as i32 + dy;
                let ghost qi = self.generator().queued();
                let ghost oi = out@;
                if x >= i16::MIN as i32 && x <= i16::MAX as i32 && y >= 0 && y <= u16::MAX as i32 {
                    let p = ChunkPos::new(x as i16, y as u16);
                    if !self.is_loaded(&p) {
                        let submit = self.chunk_generator.add_chunk(&p);
                        proof {
                            assert(!scanned(*center, p, dx as int, dy as int));
                            assert(!oi.contains(p));
                            assert(!qi.contains(p) == !q0.contains(p));
                        }
                        if submit {
                            out.push(p);
                            proof {
                                assert(out@ == oi.push(p));
                                assert forall|c: ChunkPos| #[trigger] out@.contains(c) == (oi.contains(c) || c == p) by {
                                    if out@.contains(c) && c != p {
                                        let k = choose|k: int| 0 <= k < out@.len() && out@[k] == c;
                                        assert(oi[k] == c);
                                    }
                                    if oi.contains(c) {
                                        let k = choose|k: int| 0 <= k < oi.len() && oi[k] == c;
                                        assert(out@[k] == c);
                                    }
                                    if c == p {
                                        assert(out@[out@.len() - 1] == c);
                                    }
                                }
                                assert forall|a: int, b: int| 0 <= a < out@.len() && 0 <= b < out@.len() && a != b implies out@[a] != out@[b] by {
                                    if a < oi.len() && b < oi.len() {
                                    } else if a < oi.len() {
                                        assert(oi.contains(out@[a]));
                                    } else {
                                        assert(oi.contains(out@[b]));
                                    }
                                }
                            }
                        }
                    }
                    proof {
                        assert(scanned_missing(*center, m, dx as int, dy + 1)
                            =~= scanned_missing(*center, m, dx as int, dy as int).union(
                                if m.contains_key(p) { Set::<ChunkPos>::empty() } else { set![p] }));
                        assert(self.generator().queued() =~= q0.union(
                            scanned_missing(*center, m, dx as int, dy + 1)));
                        assert forall|c: ChunkPos| #[trigger] out@.contains(c) == (scanned(*center, c, dx as int, dy + 1)
                            && !m.contains_key(c) && !q0.contains(c)) by {
                            if c != p {
                                assert(out@.contains(c) == oi.contains(c));
                            }
                        }
                    }
                } else {
                    proof {
                        assert(scanned_missing(*center, m, dx as int, dy + 1)
                            =~= scanned_missing(*center, m, dx as int, dy as int));
                        assert forall|c: ChunkPos| #[trigger] out@.contains(c) == (scanned(*center, c, dx as int, dy + 1)
                            && !m.contains_key(c) && !q0.contains(c)) by {
                            assert(out@.contains(c) == oi.contains(c));
                        }
                    }
                }
                dy = dy + 1;
            }
            proof {
                assert(scanned_missing(*center, m, dx + 1, -RENDER_DISTANCE as int)
                    =~= scanned_missing(*center, m, dx as int, RENDER_DISTANCE as int));
            }
            dx = dx + 1;
        }
        proof {
            assert(scanned_missing(*center, m, RENDER_DISTANCE as int, -RENDER_DISTANCE as int)
                =~= Set::new(|p: ChunkPos| in_footprint(*center, p) && !m.contains_key(p)));
        }
        out
    }

    /// The chunk at `pos`, for writing; `None` where it is not loaded. What is written
    /// through the reference is what the world holds afterwards.
    pub fn get_chunk_mut(&mut self, pos: &ChunkPos) -> (r: Option<&mut Chunk>)
        ensures
            final(self).wf() == old(self).wf(),
            final(self).dirty() == old(self).dirty(),
            final(self).generator() == old(self).generator(),
            match r {
                Some(c) => old(self).loaded().contains_key(*pos) && *c == old(self).loaded()[*pos]
                    && final(self).loaded() == old(self).loaded().insert(*pos, *final(c)),
                None => !old(self).loaded().contains_key(*pos) && final(self).loaded() == old(
                    self,
                ).loaded(),
            },
    {
        let key = pos.key();
        proof {
            lemma_chunk_key_injective(*pos, *pos);
        }
        match self.chunks.entry(key) {
            Entry::Occupied(e) => Some(e.into_mut()),
            Entry::Vacant(_) => None,
        }
    }

    /// The cell of kind `C` at `pos`, for writing; `None` where its chunk is not loaded.
    /// Writing through it changes that cell alone: neighbour matrices are not updated, which
    /// `set` does.
    pub fn get_mut<C: NeighborAware>(&mut self, pos: &WorldPos) -> (r: Option<&mut C>) where
        Chunk: Grid<C>,

        requires
            pos.wf(),
        ensures
            final(self).wf() == old(self).wf(),
            final(self).dirty() == old(self).dirty(),
            final(self).generator() == old(self).generator(),
            match r {
                Some(c) => old(self).loaded().contains_key(pos.chunk_pos) && *c == cell_in::<C>(
                    old(self).loaded(),
                    *pos,
                ) && final(self).loaded() == old(self).loaded().insert(
                    pos.chunk_pos,
                    Grid::<C>::with_cell(
                        &old(self).loaded()[pos.chunk_pos],
                        pos.chunk_sub_pos.x as int,
                        pos.chunk_sub_pos.y as int,
                        *final(c),
                    ),
                ),
                None => !old(self).loaded().contains_key(pos.chunk_pos) && final(self).loaded()
                    == old(self).loaded(),
            },
    {
        match self.get_chunk_mut(pos.get_chunk_pos()) {
            Some(chunk) => Some(Grid::<C>::get_mut(chunk, pos.get_chunk_sub_pos())),
            None => None,
        }
    }
}

} // verus!
