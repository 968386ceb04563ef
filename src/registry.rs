use vstd::prelude::*;

verus! {

/// How a cell kind is drawn.
#[derive(Copy, Clone, PartialEq, Eq, Hash, Debug, Structural)]
pub enum RenderType {
    /// Does not render what lies behind; no transparency.
    Opaque,
    /// Renders what lies behind; transparency on.
    Solid,
    /// No quad is built; nothing is drawn.
    Transparent,
}

/// Material of a tile; 0 is air.
#[derive(Copy, Clone, PartialEq, Eq, Hash, Debug, PartialOrd, Ord, Structural)]
pub struct TileId {
    pub id: u32,
}

/// Material of a wall; 0 is air.
#[derive(Copy, Clone, PartialEq, Eq, Hash, Debug, PartialOrd, Ord, Structural)]
pub struct WallId {
    pub id: u32,
}

/// Placeholder for fluids, which the world does not simulate.
pub struct Fluid {}

/// Placeholder for entities, which the world does not simulate.
pub struct Entity {}

pub const TILE_AIR: u32 = 0;
pub const TILE_DIRT: u32 = 1;
pub const TILE_STONE: u32 = 2;
pub const TILE_GRASS: u32 = 3;
pub const TILE_IRON_ORE: u32 = 7;
pub const TILE_COPPER_ORE: u32 = 8;
pub const TILE_GOLD_ORE: u32 = 9;
pub const TILE_SILVER_ORE: u32 = 10;
pub const TILE_DEMONITE_ORE: u32 = 23;
pub const TILE_WOOD: u32 = 31;
pub const TILE_METEORITE: u32 = 38;
pub const TILE_GRAY_BRICK: u32 = 39;
pub const TILE_RED_BRICK: u32 = 40;
pub const TILE_CLAY_BLOCK: u32 = 41;
pub const TILE_SAND: u32 = 54;
pub const TILE_GLASS: u32 = 55;
pub const TILE_OBSIDIAN: u32 = 57;
pub const TILE_ASH_BLOCK: u32 = 58;
pub const TILE_HELLSTONE: u32 = 59;
pub const TILE_MUD_BLOCK: u32 = 60;
pub const TILE_ICE_BLOCK: u32 = 129;
pub const TILE_SNOW_BLOCK: u32 = 148;

pub const WALL_AIR: u32 = 0;
pub const WALL_STONE: u32 = 1;
pub const WALL_DIRT: u32 = 2;
pub const WALL_EBON_STONE: u32 = 3;
pub const WALL_WOOD: u32 = 4;
pub const WALL_GRAY_BRICK: u32 = 5;
pub const WALL_RED_BRICK: u32 = 6;

} // verus!
