//! Chunks: cubes of `CHUNK_SIZE` tiles on each edge.
use vstd::prelude::*;
use crate::coords::{RelPoint3, CHUNK_SIZE};
use crate::terrain::Tile;

verus! {

/// Number of tiles in a chunk.
pub const CHUNK_VOLUME: usize = 4096;

/// Where the tile at in-chunk offset `(y, x, z)` is stored: by relative `y`,
/// then `x`, then `z`.
pub open spec fn tile_index(y: int, x: int, z: int) -> int {
    (y * CHUNK_SIZE + x) * CHUNK_SIZE + z
}

pub open spec fn rel_index(r: RelPoint3) -> int {
    tile_index(r.y as int, r.x as int, r.z as int)
}

/// A fully populated cube of tiles.
pub struct Chunk {
    tiles: Vec<Tile>,
}

impl View for Chunk {
    type V = Seq<Tile>;

    closed spec fn view(&self) -> Seq<Tile> {
        self.tiles@
    }
}

impl Chunk {
    #[verifier::type_invariant]
    closed spec fn inv(&self) -> bool {
        self.tiles.len() == CHUNK_VOLUME
    }

    /// Takes ownership of a tile volume laid out as `tile_index` says.
    pub fn new(tiles: Vec<Tile>) -> (r: Chunk)
        requires
            tiles@.len() == CHUNK_VOLUME,
        ensures
            r@ == tiles@,
    {
        Chunk { tiles }
    }

    /// The tile at in-chunk offset `r`.
    pub fn tile(&self, r: RelPoint3) -> (t: Tile)
        requires
            r.in_chunk(),
        ensures
            t == self@[rel_index(r)],
    {
        proof {
            use_type_invariant(self);
        }
        self.tiles[(r.y * CHUNK_SIZE + r.x) * CHUNK_SIZE + r.z]
    }
}

} // verus!
