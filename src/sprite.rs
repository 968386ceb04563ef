use vstd::prelude::*;

use crate::neighbor::{NeighborAware, NeighborMatrix, NeighborType};
use crate::util::Direction;

verus! {

/// Which piece of a cell sprite sheet fits a cell, chosen from the four slots of its matrix.
#[derive(Copy, Clone, PartialEq, Eq, Hash, Debug, Structural)]
pub enum NeighborImageLocation {
    Full,
    Standalone,
    StraightVertical,
    StraightHorizontal,
    TopFlat,
    TopCap,
    TopLeftCorner,
    DownFlat,
    DownCap,
    DownLeftCorner,
    LeftFlat,
    LeftCap,
    TopRightCorner,
    RightFlat,
    RightCap,
    DownRightCorner,
}

/// The sprite piece for a cell whose matrix reads `(top, down, left, right)`; any
/// combination outside the table, and any `Transitional` slot, gives `Full`.
pub open spec fn location_of(m: NeighborMatrix) -> NeighborImageLocation {
    let a = NeighborType::Air;
    let s = NeighborType::Same;
    let key = (m.top, m.down, m.left, m.right);
    if key == (s, s, s, s) {
        NeighborImageLocation::Full
    } else if key == (a, a, a, a) {
        NeighborImageLocation::Standalone
    } else if key == (s, s, a, a) {
        NeighborImageLocation::StraightVertical
    } else if key == (a, a, s, s) {
        NeighborImageLocation::StraightHorizontal
    } else if key == (a, s, s, s) {
        NeighborImageLocation::TopFlat
    } else if key == (a, s, a, a) {
        NeighborImageLocation::TopCap
    } else if key == (a, s, a, s) {
        NeighborImageLocation::TopLeftCorner
    } else if key == (a, s, s, a) {
        NeighborImageLocation::TopRightCorner
    } else if key == (s, a, s, s) {
        NeighborImageLocation::DownFlat
    } else if key == (s, a, a, a) {
        NeighborImageLocation::DownCap
    } else if key == (s, a, a, s) {
        NeighborImageLocation::DownLeftCorner
    } else if key == (s, a, s, a) {
        NeighborImageLocation::DownRightCorner
    } else if key == (s, s, a, s) {
        NeighborImageLocation::LeftFlat
    } else if key == (a, a, a, s) {
        NeighborImageLocation::LeftCap
    } else if key == (s, s, s, a) {
        NeighborImageLocation::RightFlat
    } else if key == (a, a, s, a) {
        NeighborImageLocation::RightCap
    } else {
        NeighborImageLocation::Full
    }
}

/// Column and row of a sprite piece in the sheet.
pub open spec fn tile_pos_of(l: NeighborImageLocation) -> (u32, u32) {
    match l {
        NeighborImageLocation::Full => (0, 0),
        NeighborImageLocation::Standalone => (1, 0),
        NeighborImageLocation::StraightVertical => (2, 0),
        NeighborImageLocation::StraightHorizontal => (3, 0),
        NeighborImageLocation::TopFlat => (0, 1),
        NeighborImageLocation::TopCap => (1, 1),
        NeighborImageLocation::TopLeftCorner => (3, 1),
        NeighborImageLocation::DownFlat => (0, 2),
        NeighborImageLocation::DownCap => (1, 2),
        NeighborImageLocation::DownLeftCorner => (3, 2),
        NeighborImageLocation::LeftFlat => (0, 3),
        NeighborImageLocation::LeftCap => (1, 3),
        NeighborImageLocation::TopRightCorner => (3, 3),
        NeighborImageLocation::RightFlat => (0, 4),
        NeighborImageLocation::RightCap => (1, 4),
        NeighborImageLocation::DownRightCorner => (3, 4),
    }
}

fn is_same(t: NeighborType) -> (r: bool)
    ensures
        r == (t == NeighborType::Same),
{
    match t {
        NeighborType::Same => true,
        _ => false,
    }
}

fn is_air(t: NeighborType) -> (r: bool)
    ensures
        r == (t == NeighborType::Air),
{
    match t {
        NeighborType::Air => true,
        _ => false,
    }
}

impl NeighborImageLocation {
    /// The sprite piece that fits `object`, from its matrix.
    pub fn from<N: NeighborAware>(object: &N) -> (r: NeighborImageLocation)
        ensures
            r == location_of(object.matrix()),
    {
        let matrix = object.get_neighbor_matrix();
        let t = matrix.get_neighbor_type(Direction::Top);
        let d = matrix.get_neighbor_type(Direction::Down);
        let l = matrix.get_neighbor_type(Direction::Left);
        let r = matrix.get_neighbor_type(Direction::Right);
        if is_same(t) && is_same(d) && is_same(l) && is_same(r) {
            NeighborImageLocation::Full
        } else if is_air(t) && is_air(d) && is_air(l) && is_air(r) {
            NeighborImageLocation::Standalone
        } else if is_same(t) && is_same(d) && is_air(l) && is_air(r) {
            NeighborImageLocation::StraightVertical
        } else if is_air(t) && is_air(d) && is_same(l) && is_same(r) {
            NeighborImageLocation::StraightHorizontal
        } else if is_air(t) && is_same(d) && is_same(l) && is_same(r) {
            NeighborImageLocation::TopFlat
        } else if is_air(t) && is_same(d) && is_air(l) && is_air(r) {
            NeighborImageLocation::TopCap
        } else if is_air(t) && is_same(d) && is_air(l) && is_same(r) {
            NeighborImageLocation::TopLeftCorner
        } else if is_air(t) && is_same(d) && is_same(l) && is_air(r) {
            NeighborImageLocation::TopRightCorner
        } else if is_same(t) && is_air(d) && is_same(l) && is_same(r) {
            NeighborImageLocation::DownFlat
        } else if is_same(t) && is_air(d) && is_air(l) && is_air(r) {
            NeighborImageLocation::DownCap
        } else if is_same(t) && is_air(d) && is_air(l) && is_same(r) {
            NeighborImageLocation::DownLeftCorner
        } else if is_same(t) && is_air(d) && is_same(l) && is_air(r) {
            NeighborImageLocation::DownRightCorner
        } else if is_same(t) && is_same(d) && is_air(l) && is_same(r) {
            NeighborImageLocation::LeftFlat
        } else if is_air(t) && is_air(d) && is_air(l) && is_same(r) {
            NeighborImageLocation::LeftCap
        } else if is_same(t) && is_same(d) && is_same(l) && is_air(r) {
            NeighborImageLocation::RightFlat
        } else if is_air(t) && is_air(d) && is_same(l) && is_air(r) {
            NeighborImageLocation::RightCap
        } else {
            NeighborImageLocation::Full
        }
    }

    /// Column and row of this piece in the sprite sheet.
    pub fn get_tile_pos(&self) -> (r: (u32, u32))
        ensures
            r == tile_pos_of(*self),
    {
        match self {
            NeighborImageLocation::Full => (0, 0),
            NeighborImageLocation::Standalone => (1, 0),
            NeighborImageLocation::StraightVertical => (2, 0),
            NeighborImageLocation::StraightHorizontal => (3, 0),
            NeighborImageLocation::TopFlat => (0, 1),
            NeighborImageLocation::TopCap => (1, 1),
            NeighborImageLocation::TopLeftCorner => (3, 1),
            NeighborImageLocation::DownFlat => (0, 2),
            NeighborImageLocation::DownCap => (1, 2),
            NeighborImageLocation::DownLeftCorner => (3, 2),
            NeighborImageLocation::LeftFlat => (0, 3),
            NeighborImageLocation::LeftCap => (1, 3),
            NeighborImageLocation::TopRightCorner => (3, 3),
            NeighborImageLocation::RightFlat => (0, 4),
            NeighborImageLocation::RightCap => (1, 4),
            NeighborImageLocation::DownRightCorner => (3, 4),
        }
    }
}

} // verus!
