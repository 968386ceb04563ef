use vstd::prelude::*;

use crate::util::{Direction, CHUNK_SIZE};

verus! {

/// Smallest world column whose chunk column fits in an `i16`.
pub open spec fn min_world_x() -> int {
    i16::MIN * CHUNK_SIZE
}

/// One past the largest world column whose chunk column fits in an `i16`.
pub open spec fn end_world_x() -> int {
    (i16::MAX + 1) * CHUNK_SIZE
}

/// One past the largest world row whose chunk row fits in a `u16`.
pub open spec fn end_world_y() -> int {
    (u16::MAX + 1) * CHUNK_SIZE
}

/// Whether a world cell lies in the part of the world that chunk coordinates can address.
pub open spec fn world_in_range(x: int, y: int) -> bool {
    min_world_x() <= x < end_world_x() && 0 <= y < end_world_y()
}

/// Whether a chunk coordinate, as plain integers, fits the chunk coordinate type.
pub open spec fn chunk_in_range(x: int, y: int) -> bool {
    i16::MIN <= x <= i16::MAX && 0 <= y <= u16::MAX
}

/// Coordinate of a chunk: `x` grows to the right, `y` grows upwards from the bottom of the world.
#[derive(Copy, Clone, PartialEq, Eq, Hash, Debug, Structural)]
pub struct ChunkPos {
    pub x: i16,
    pub y: u16,
}

/// Position of a cell inside its chunk, each axis in `[0, CHUNK_SIZE)`.
#[derive(Copy, Clone, PartialEq, Eq, Hash, Debug, Structural)]
pub struct ChunkSubPos {
    pub x: u8,
    pub y: u8,
}

/// A world cell, stored as its chunk and its place inside that chunk.
#[derive(Copy, Clone, PartialEq, Eq, Hash, Debug, Structural)]
pub struct WorldPos {
    pub chunk_pos: ChunkPos,
    pub chunk_sub_pos: ChunkSubPos,
}

impl ChunkSubPos {
    pub open spec fn wf(self) -> bool {
        self.x < CHUNK_SIZE && self.y < CHUNK_SIZE
    }

    /// Builds a sub-position; both axes must lie inside the chunk.
    pub fn new(x: u8, y: u8) -> (r: ChunkSubPos)
        requires
            x < CHUNK_SIZE,
            y < CHUNK_SIZE,
        ensures
            r.x == x,
            r.y == y,
            r.wf(),
    {
        ChunkSubPos { x, y }
    }

    /// Builds a sub-position, wrapping a value past either end of an axis to the other end.
    pub fn new_overlooping(x: i8, y: i8) -> (r: ChunkSubPos)
        ensures
            r.wf(),
            r.x == (if x >= CHUNK_SIZE { 0 } else if x < 0 { CHUNK_SIZE - 1 } else { x as int }),
            r.y == (if y >= CHUNK_SIZE { 0 } else if y < 0 { CHUNK_SIZE - 1 } else { y as int }),
    {
        let mut x = x;
        let mut y = y;
        if x >= CHUNK_SIZE as i8 {
            x = 0;
        }
        if y >= CHUNK_SIZE as i8 {
            y = 0;
        }
        if x < 0 {
            x = (CHUNK_SIZE - 1) as i8;
        }
        if y < 0 {
            y = (CHUNK_SIZE - 1) as i8;
        }
        ChunkSubPos { x: x as u8, y: y as u8 }
    }

    pub open spec fn is_border_spec(self, direction: Direction) -> bool {
        match direction {
            Direction::Down => self.y == 0,
            Direction::Left => self.x == 0,
            Direction::Top => self.y >= CHUNK_SIZE - 1,
            Direction::Right => self.x >= CHUNK_SIZE - 1,
        }
    }

    /// Whether a step in `direction` leaves the chunk.
    pub fn is_border(&self, direction: &Direction) -> (r: bool)
        ensures
            r == self.is_border_spec(*direction),
            self.wf() ==> (r == !(0 <= self.x + direction.dx() < CHUNK_SIZE && 0 <= self.y
                + direction.dy() < CHUNK_SIZE)),
    {
        match direction {
            Direction::Down => self.y == 0,
            Direction::Left => self.x == 0,
            Direction::Top => self.y >= (CHUNK_SIZE - 1) as u8,
            Direction::Right => self.x >= (CHUNK_SIZE - 1) as u8,
        }
    }

    /// One step in `direction`, wrapping round to the opposite border of the chunk.
    pub fn shift_overlooping(&self, direction: Direction) -> (r: ChunkSubPos)
        requires
            self.wf(),
        ensures
            r.wf(),
            r.x == (self.x + direction.dx() + CHUNK_SIZE) % (CHUNK_SIZE as int),
            r.y == (self.y + direction.dy() + CHUNK_SIZE) % (CHUNK_SIZE as int),
    {
        let nx = (self.x as i32 + direction.get_x_difference() as i32) as i8;
        let ny = (self.y as i32 + direction.get_y_difference() as i32) as i8;
        Self::new_overlooping(nx, ny)
    }

    /// One step in `direction`, or `None` where the step leaves the chunk.
    pub fn shift(&self, direction: Direction) -> (r: Option<ChunkSubPos>)
        ensures
            match r {
                Some(p) => p.wf() && p.x == self.x + direction.dx() && p.y == self.y
                    + direction.dy(),
                None => !(0 <= self.x + direction.dx() < CHUNK_SIZE && 0 <= self.y
                    + direction.dy() < CHUNK_SIZE),
            },
    {
        let next_x = self.x as i32 + direction.get_x_difference() as i32;
        let next_y = self.y as i32 + direction.get_y_difference() as i32;
        if next_y < 0 || next_y >= CHUNK_SIZE as i32 || next_x < 0 || next_x >= CHUNK_SIZE as i32 {
            return None;
        }
        Some(ChunkSubPos { x: next_x as u8, y: next_y as u8 })
    }
}

/// The key under which a chunk coordinate is stored in hashed collections: the column,
/// moved to start at 0, in the upper 16 bits and the row in the lower 16 bits.
pub open spec fn chunk_key(p: ChunkPos) -> int {
    (p.x + 32768) * 65536 + p.y
}

/// Different chunk coordinates have different keys, and every key fits a `u32`.
pub proof fn lemma_chunk_key_injective(a: ChunkPos, b: ChunkPos)
    ensures
        0 <= chunk_key(a) <= u32::MAX,
        chunk_key(a) == chunk_key(b) ==> a == b,
{
    let (ax, bx) = (a.x + 32768, b.x + 32768);
    assert(0 <= ax * 65536 <= 65535 * 65536) by (nonlinear_arith)
        requires
            0 <= ax <= 65535,
    ;
    if chunk_key(a) == chunk_key(b) {
        vstd::arithmetic::div_mod::lemma_fundamental_div_mod_converse(
            chunk_key(a),
            65536,
            ax,
            a.y as int,
        );
        vstd::arithmetic::div_mod::lemma_fundamental_div_mod_converse(
            chunk_key(b),
            65536,
            bx,
            b.y as int,
        );
    }
}

impl ChunkPos {
    /// The coordinate's key; see `chunk_key`.
    pub fn key(&self) -> (r: u32)
        ensures
            r == chunk_key(*self),
    {
        proof {
            lemma_chunk_key_injective(*self, *self);
        }
        ((self.x as i32 + 32768) as u32) * 65536 + self.y as u32
    }

    pub fn new(x: i16, y: u16) -> (r: ChunkPos)
        ensures
            r.x == x,
            r.y == y,
    {
        ChunkPos { x, y }
    }

    /// The chunk one step away in `direction`, or `None` where no chunk coordinate names it.
    pub fn shift(&self, direction: &Direction) -> (r: Option<ChunkPos>)
        ensures
            match r {
                Some(p) => p.x == self.x + direction.dx() && p.y == self.y + direction.dy(),
                None => !chunk_in_range(self.x + direction.dx(), self.y + direction.dy()),
            },
    {
        let next_x = self.x as i32 + direction.get_x_difference() as i32;
        let next_y = self.y as i32 + direction.get_y_difference() as i32;
        if next_y < 0 || next_y > u16::MAX as i32 || next_x < i16::MIN as i32 || next_x
            > i16::MAX as i32 {
            return None;
        }
        Some(ChunkPos { x: next_x as i16, y: next_y as u16 })
    }
}

impl WorldPos {
    pub open spec fn wf(self) -> bool {
        self.chunk_sub_pos.wf()
    }

    /// World column of the cell.
    pub open spec fn world_x(self) -> int {
        self.chunk_pos.x * CHUNK_SIZE + self.chunk_sub_pos.x
    }

    /// World row of the cell.
    pub open spec fn world_y(self) -> int {
        self.chunk_pos.y * CHUNK_SIZE + self.chunk_sub_pos.y
    }

    /// Splits a world cell into its chunk (`floor(c / CHUNK_SIZE)` per axis) and
    /// its place in that chunk (`c mod CHUNK_SIZE`).
    pub fn new(x: i32, y: u32) -> (r: WorldPos)
        requires
            world_in_range(x as int, y as int),
        ensures
            r.wf(),
            r.chunk_pos.x == x as int / CHUNK_SIZE as int,
            r.chunk_pos.y == y as int / CHUNK_SIZE as int,
            r.chunk_sub_pos.x == x as int % CHUNK_SIZE as int,
            r.chunk_sub_pos.y == y as int % CHUNK_SIZE as int,
            r.world_x() == x,
            r.world_y() == y,
    {
        let size = CHUNK_SIZE as i32;
        let chunk_x = match x.checked_div_euclid(size) {
            Some(q) => q,
            None => 0,
        };
        let local_x = match x.checked_rem_euclid(size) {
            Some(m) => m,
            None => 0,
        };
        let chunk_y = y / (CHUNK_SIZE as u32);
        let local_y = y % (CHUNK_SIZE as u32);
        proof {
            assert(x as int == (x as int / 24) * 24 + x as int % 24);
            assert(y as int == (y as int / 24) * 24 + y as int % 24);
        }
        WorldPos {
            chunk_pos: ChunkPos::new(chunk_x as i16, chunk_y as u16),
            chunk_sub_pos: ChunkSubPos::new(local_x as u8, local_y as u8),
        }
    }

    /// The cell at `(x, y)` inside `chunk_pos`; both must lie inside the chunk.
    pub fn from_chunk(chunk_pos: &ChunkPos, x: u8, y: u8) -> (r: WorldPos)
        requires
            x < CHUNK_SIZE,
            y < CHUNK_SIZE,
        ensures
            r.wf(),
            r.chunk_pos == *chunk_pos,
            r.chunk_sub_pos.x == x,
            r.chunk_sub_pos.y == y,
    {
        WorldPos { chunk_pos: *chunk_pos, chunk_sub_pos: ChunkSubPos::new(x, y) }
    }

    pub fn get_chunk_pos(&self) -> (r: &ChunkPos)
        ensures
            *r == self.chunk_pos,
    {
        &self.chunk_pos
    }

    pub fn get_chunk_sub_pos(&self) -> (r: &ChunkSubPos)
        ensures
            *r == self.chunk_sub_pos,
    {
        &self.chunk_sub_pos
    }

    /// Whether the neighbouring cell in `direction` lies in the addressable world.
    pub open spec fn can_step(self, direction: Direction) -> bool {
        world_in_range(self.world_x() + direction.dx(), self.world_y() + direction.dy())
    }

    /// The neighbouring cell in `direction`, where `can_step` holds.
    pub open spec fn step(self, direction: Direction) -> WorldPos {
        if self.chunk_sub_pos.is_border_spec(direction) {
            WorldPos {
                chunk_pos: ChunkPos {
                    x: (self.chunk_pos.x + direction.dx()) as i16,
                    y: (self.chunk_pos.y + direction.dy()) as u16,
                },
                chunk_sub_pos: ChunkSubPos {
                    x: ((self.chunk_sub_pos.x + direction.dx() + CHUNK_SIZE) % (CHUNK_SIZE as int)) as u8,
                    y: ((self.chunk_sub_pos.y + direction.dy() + CHUNK_SIZE) % (CHUNK_SIZE as int)) as u8,
                },
            }
        } else {
            WorldPos {
                chunk_pos: self.chunk_pos,
                chunk_sub_pos: ChunkSubPos {
                    x: (self.chunk_sub_pos.x + direction.dx()) as u8,
                    y: (self.chunk_sub_pos.y + direction.dy()) as u8,
                },
            }
        }
    }

    /// The neighbouring cell in `direction`, crossing into the next chunk where needed;
    /// `None` where that cell lies outside the addressable world.
    pub fn shift(&self, direction: Direction) -> (r: Option<WorldPos>)
        requires
            self.wf(),
        ensures
            match r {
                Some(p) => p.wf() && p.world_x() == self.world_x() + direction.dx()
                    && p.world_y() == self.world_y() + direction.dy(),
                None => !world_in_range(
                    self.world_x() + direction.dx(),
                    self.world_y() + direction.dy(),
                ),
            },
            r == (if self.can_step(direction) { Some(self.step(direction)) } else { None }),
    {
        if self.chunk_sub_pos.is_border(&direction) {
            let chunk_sub_pos = self.chunk_sub_pos.shift_overlooping(direction);
            match self.chunk_pos.shift(&direction) {
                Some(chunk_pos) => Some(WorldPos { chunk_pos, chunk_sub_pos }),
                None => None,
            }
        } else {
            match self.chunk_sub_pos.shift(direction) {
                Some(chunk_sub_pos) => Some(WorldPos { chunk_pos: self.chunk_pos, chunk_sub_pos }),
                None => None,
            }
        }
    }
}

/// Splitting a world cell into chunk and sub-position and joining them again gives the
/// same cell, and each cell in range has exactly one such split.
pub proof fn lemma_world_pos_round_trip(x: int, y: int)
    requires
        world_in_range(x, y),
    ensures
        ({
            let p = WorldPos {
                chunk_pos: ChunkPos { x: (x / CHUNK_SIZE as int) as i16, y: (y / CHUNK_SIZE as int) as u16 },
                chunk_sub_pos: ChunkSubPos {
                    x: (x % CHUNK_SIZE as int) as u8,
                    y: (y % CHUNK_SIZE as int) as u8,
                },
            };
            p.wf() && p.world_x() == x && p.world_y() == y
        }),
        forall|q: WorldPos| #![auto]
            q.wf() && q.world_x() == x && q.world_y() == y ==> q.chunk_pos.x == x
                / CHUNK_SIZE as int && q.chunk_pos.y == y / CHUNK_SIZE as int
                && q.chunk_sub_pos.x == x % CHUNK_SIZE as int && q.chunk_sub_pos.y == y
                % CHUNK_SIZE as int,
{
    assert(x == (x / 24) * 24 + x % 24);
    assert(y == (y / 24) * 24 + y % 24);
    assert forall|q: WorldPos| #![auto]
        q.wf() && q.world_x() == x && q.world_y() == y implies q.chunk_pos.x == x / 24
            && q.chunk_pos.y == y / 24 && q.chunk_sub_pos.x == x % 24 && q.chunk_sub_pos.y == y
            % 24 by {
        vstd::arithmetic::div_mod::lemma_fundamental_div_mod_converse(
            x,
            24,
            q.chunk_pos.x as int,
            q.chunk_sub_pos.x as int,
        );
        vstd::arithmetic::div_mod::lemma_fundamental_div_mod_converse(
            y,
            24,
            q.chunk_pos.y as int,
            q.chunk_sub_pos.y as int,
        );
    }
}

/// Two well-formed positions with the same world coordinates are the same position.
pub proof fn lemma_world_pos_unique(p: WorldPos, q: WorldPos)
    requires
        p.wf(),
        q.wf(),
        p.world_x() == q.world_x(),
        p.world_y() == q.world_y(),
    ensures
        p == q,
{
    vstd::arithmetic::div_mod::lemma_fundamental_div_mod_converse(
        p.world_x(),
        24,
        p.chunk_pos.x as int,
        p.chunk_sub_pos.x as int,
    );
    vstd::arithmetic::div_mod::lemma_fundamental_div_mod_converse(
        p.world_x(),
        24,
        q.chunk_pos.x as int,
        q.chunk_sub_pos.x as int,
    );
    vstd::arithmetic::div_mod::lemma_fundamental_div_mod_converse(
        p.world_y(),
        24,
        p.chunk_pos.y as int,
        p.chunk_sub_pos.y as int,
    );
    vstd::arithmetic::div_mod::lemma_fundamental_div_mod_converse(
        p.world_y(),
        24,
        q.chunk_pos.y as int,
        q.chunk_sub_pos.y as int,
    );
}

/// The neighbouring cell in a direction is well formed and lies one step away in world
/// coordinates; distinct directions give distinct cells, none of them the cell itself.
pub proof fn lemma_step(p: WorldPos, d: Direction, e: Direction)
    requires
        p.wf(),
        p.can_step(d),
        p.can_step(e),
    ensures
        p.step(d).wf(),
        p.step(d).world_x() == p.world_x() + d.dx(),
        p.step(d).world_y() == p.world_y() + d.dy(),
        p.step(d) != p,
        d != e ==> p.step(d) != p.step(e),
{
    assert(p.step(d).world_x() == p.world_x() + d.dx());
    assert(p.step(e).world_x() == p.world_x() + e.dx());
}

/// Stepping back the opposite way returns to the start.
pub proof fn lemma_step_back(p: WorldPos, d: Direction)
    requires
        p.wf(),
        p.can_step(d),
    ensures
        p.step(d).can_step(d.flip_spec()),
        p.step(d).step(d.flip_spec()) == p,
{
    lemma_step(p, d, d);
    let n = p.step(d);
    lemma_step(n, d.flip_spec(), d.flip_spec());
    lemma_world_pos_unique(n.step(d.flip_spec()), p);
}

/// A cell one step from `q` in direction `e` is `p` only when `q` is the step from `p` in
/// the flipped direction.
pub proof fn lemma_step_into(p: WorldPos, q: WorldPos, e: Direction)
    requires
        p.wf(),
        q.wf(),
        q.can_step(e),
        q.step(e) == p,
    ensures
        p.can_step(e.flip_spec()),
        q == p.step(e.flip_spec()),
{
    lemma_step(q, e, e);
    lemma_step(p, e.flip_spec(), e.flip_spec());
    lemma_world_pos_unique(q, p.step(e.flip_spec()));
}

} // verus!
