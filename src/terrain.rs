//! Tiles: the classified cells that chunks are made of.
use vstd::prelude::*;

verus! {

/// What occupies a tile.
#[derive(Clone, Copy, Debug, PartialEq, Eq, Structural, Hash)]
pub enum TileType {
    /// The tile lies in no generated chunk.
    OutOfBounds,
    /// Empty space above the terrain surface.
    Air,
    /// Terrain below the surface.
    Solid,
}

/// A single cell of the world, small and copied by value.
#[derive(Clone, Copy, Debug, PartialEq, Eq, Structural, Hash)]
pub struct Tile {
    pub tile_type: TileType,
}

impl Tile {
    pub fn new(tile_type: TileType) -> (r: Tile)
        ensures
            r == (Tile { tile_type }),
    {
        Tile { tile_type }
    }
}

/// The tile of a column at absolute height `y` below a surface at `height`:
/// solid strictly below the surface, air at and above it.
pub open spec fn terrain_tile(y: int, height: int) -> Tile {
    if y < height {
        Tile { tile_type: TileType::Solid }
    } else {
        Tile { tile_type: TileType::Air }
    }
}

} // verus!
