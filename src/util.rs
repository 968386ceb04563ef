use vstd::prelude::*;

verus! {

/// Edge length of a chunk, in cells.
pub const CHUNK_SIZE: usize = 24;

/// Answer of a ticked object: keep it scheduled or drop it.
#[derive(Copy, Clone, PartialEq, Eq, Hash, Debug, Structural)]
pub enum CallbackResponse {
    Continue,
    Stop,
}

#[derive(Copy, Clone, PartialEq, Eq, Hash, Debug, Structural)]
pub enum CollisionType {
    CollidesPlayer,
    Nothing,
}

/// One of the four cardinal directions. `Top` points to growing `y`.
#[derive(Copy, Clone, PartialEq, Eq, Hash, Debug, Structural)]
pub enum Direction {
    Top,
    Down,
    Left,
    Right,
}

impl Direction {
    /// Horizontal step of the direction.
    pub open spec fn dx(self) -> int {
        match self {
            Direction::Left => -1,
            Direction::Right => 1,
            _ => 0,
        }
    }

    /// Vertical step of the direction.
    pub open spec fn dy(self) -> int {
        match self {
            Direction::Top => 1,
            Direction::Down => -1,
            _ => 0,
        }
    }

    pub open spec fn flip_spec(self) -> Direction {
        match self {
            Direction::Top => Direction::Down,
            Direction::Down => Direction::Top,
            Direction::Left => Direction::Right,
            Direction::Right => Direction::Left,
        }
    }

    pub open spec fn is_vertical_spec(self) -> bool {
        self is Top || self is Down
    }

    /// Row or column index, inside a chunk, of the border that faces this direction.
    pub open spec fn border_spec(self) -> int {
        match self {
            Direction::Top | Direction::Right => CHUNK_SIZE - 1,
            _ => 0,
        }
    }

    pub fn flip(&self) -> (r: Direction)
        ensures
            r == self.flip_spec(),
            r.dx() == -self.dx(),
            r.dy() == -self.dy(),
    {
        match self {
            Direction::Top => Direction::Down,
            Direction::Left => Direction::Right,
            Direction::Down => Direction::Top,
            Direction::Right => Direction::Left,
        }
    }

    /// The direction a quarter turn clockwise (`Top` to `Right`).
    pub fn clockwise(&self) -> (r: Direction)
        ensures
            r.dx() == self.dy(),
            r.dy() == -self.dx(),
    {
        match self {
            Direction::Top => Direction::Right,
            Direction::Right => Direction::Down,
            Direction::Down => Direction::Left,
            Direction::Left => Direction::Top,
        }
    }

    /// The direction a quarter turn counter-clockwise (`Top` to `Left`).
    pub fn counter_clockwise(&self) -> (r: Direction)
        ensures
            r.dx() == -self.dy(),
            r.dy() == self.dx(),
    {
        match self {
            Direction::Top => Direction::Left,
            Direction::Left => Direction::Down,
            Direction::Down => Direction::Right,
            Direction::Right => Direction::Top,
        }
    }

    pub fn get_x_difference(&self) -> (r: i8)
        ensures
            r == self.dx(),
    {
        match self {
            Direction::Top | Direction::Down => 0,
            Direction::Left => -1,
            Direction::Right => 1,
        }
    }

    pub fn get_y_difference(&self) -> (r: i8)
        ensures
            r == self.dy(),
    {
        match self {
            Direction::Left | Direction::Right => 0,
            Direction::Top => 1,
            Direction::Down => -1,
        }
    }

    pub fn is_vertical(&self) -> (r: bool)
        ensures
            r == self.is_vertical_spec(),
            r == (self.dx() == 0),
    {
        match self {
            Direction::Left | Direction::Right => false,
            Direction::Top | Direction::Down => true,
        }
    }

    pub fn is_horizontal(&self) -> (r: bool)
        ensures
            r == !self.is_vertical_spec(),
            r == (self.dy() == 0),
    {
        match self {
            Direction::Left | Direction::Right => true,
            Direction::Top | Direction::Down => false,
        }
    }

    /// Column of the chunk border this direction faces (0 unless `Right`).
    pub fn get_x_border(&self) -> (r: u8)
        ensures
            r == (if *self is Right { CHUNK_SIZE - 1 } else { 0 }),
            !self.is_vertical_spec() ==> r == self.border_spec(),
    {
        match self {
            Direction::Top | Direction::Down => 0,
            Direction::Left => 0,
            Direction::Right => CHUNK_SIZE as u8 - 1,
        }
    }

    /// Row of the chunk border this direction faces (0 unless `Top`).
    pub fn get_y_border(&self) -> (r: u8)
        ensures
            r == (if *self is Top { CHUNK_SIZE - 1 } else { 0 }),
            self.is_vertical_spec() ==> r == self.border_spec(),
    {
        match self {
            Direction::Left | Direction::Right => 0,
            Direction::Top => CHUNK_SIZE as u8 - 1,
            Direction::Down => 0,
        }
    }

    /// All four directions, each once.
    pub fn iter() -> (r: [Direction; 4])
        ensures
            r@ == seq![Direction::Top, Direction::Down, Direction::Left, Direction::Right],
    {
        [Direction::Top, Direction::Down, Direction::Left, Direction::Right]
    }
}

/// Flipping a direction twice gives it back, and a direction never equals its flip.
pub proof fn lemma_flip_involution(d: Direction)
    ensures
        d.flip_spec().flip_spec() == d,
        d.flip_spec() != d,
        d.flip_spec().is_vertical_spec() == d.is_vertical_spec(),
{
}

} // verus!
