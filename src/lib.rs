//! A sparse, chunk-partitioned voxel world with seeded terrain generation.
//!
//! Absolute tile coordinates are split into the coordinate of the chunk that
//! holds them and an offset inside that chunk. Terrain is generated column by
//! column: one height map per column of chunks, shared by every chunk stacked
//! in it.
pub mod area;
pub mod chunk;
pub mod coords;
pub mod mapgen;
pub mod terrain;

pub use coords::{
    abs_pos_to_chunk_pos, abs_pos_to_rel_chunk_pos, Point3, RelPoint3, CHUNK_SIZE,
    LOG2_OF_CHUNK_SIZE,
};

pub use area::{Area, MAX_INITIAL_SIZE};
pub use chunk::{Chunk, CHUNK_VOLUME};
pub use mapgen::{generate_chunk, generate_height_map, HeightMap};
pub use terrain::{Tile, TileType};
