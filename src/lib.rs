//! A tile-based sandbox world: chunked cell storage, neighbour tracking
//! between cells, and deterministic terrain generation.
pub mod util;
pub mod pos;
pub mod neighbor;
pub mod registry;
pub mod tile;
pub mod wall;
pub mod chunk;
pub mod noise;
pub mod gen;
pub mod world;
pub mod world_model;
pub mod sprite;
pub mod fps;
pub mod controls;
pub mod tick;
