//! Terrain generation: height maps sampled per column of chunks, and chunks
//! filled from a height map.
use vstd::prelude::*;
use crate::chunk::{tile_index, Chunk, CHUNK_VOLUME};
use crate::coords::{Point3, CHUNK_SIZE};
use crate::terrain::{terrain_tile, Tile, TileType};

verus! {

/// Number of cells in a height map.
pub const HEIGHT_MAP_AREA: usize = 256;

/// Where the height of in-column offset `(x, z)` is stored.
pub open spec fn height_index(x: int, z: int) -> int {
    x * CHUNK_SIZE + z
}

/// The surface heights of one column of chunks, one per horizontal tile
/// position, stored by `height_index`.
pub struct HeightMap {
    heights: Vec<i32>,
}

impl View for HeightMap {
    type V = Seq<i32>;

    closed spec fn view(&self) -> Seq<i32> {
        self.heights@
    }
}

impl HeightMap {
    #[verifier::type_invariant]
    closed spec fn inv(&self) -> bool {
        self.heights.len() == HEIGHT_MAP_AREA
    }

    /// The surface height at in-column offset `(x, z)`.
    pub fn height(&self, x: usize, z: usize) -> (h: i32)
        requires
            x < CHUNK_SIZE,
            z < CHUNK_SIZE,
        ensures
            h == self@[height_index(x as int, z as int)],
    {
        proof {
            use_type_invariant(self);
        }
        self.heights[x * CHUNK_SIZE + z]
    }
}

/// A sampler can be called on every seed and horizontal position.
pub open spec fn sampler_total<F: Fn(u32, i32, i32) -> i32>(sample: &F) -> bool {
    forall|seed: u32, x: i32, z: i32| #[trigger] sample.requires((seed, x, z))
}

/// A sampler gives one value for each seed and horizontal position.
pub open spec fn sampler_deterministic<F: Fn(u32, i32, i32) -> i32>(sample: &F) -> bool {
    forall|a: (u32, i32, i32), h1: i32, h2: i32|
        #[trigger] sample.ensures(a, h1) && #[trigger] sample.ensures(a, h2) ==> h1 == h2
}

/// `m` holds, for every offset `(x, z)` of the column whose first tile is at
/// absolute `(ox, oz)`, what the sampler returned at `(ox + x, oz + z)`.
pub open spec fn is_height_map_of<F: Fn(u32, i32, i32) -> i32>(
    sample: &F,
    seed: u32,
    ox: int,
    oz: int,
    m: Seq<i32>,
) -> bool {
    &&& m.len() == HEIGHT_MAP_AREA
    &&& forall|x: int, z: int|
        0 <= x < CHUNK_SIZE && 0 <= z < CHUNK_SIZE ==> sample.ensures(
            (seed, (ox + x) as i32, (oz + z) as i32),
            #[trigger] m[height_index(x, z)],
        )
}

/// Samples the height of every horizontal tile position of the column whose
/// first tile is at absolute `origin`; `origin.y` is not read.
pub fn generate_height_map<F: Fn(u32, i32, i32) -> i32>(
    seed: u32,
    origin: &Point3,
    sample: &F,
) -> (r: HeightMap)
    requires
        sampler_total(sample),
        origin.x + CHUNK_SIZE - 1 <= i32::MAX,
        origin.z + CHUNK_SIZE - 1 <= i32::MAX,
    ensures
        is_height_map_of(sample, seed, origin.x as int, origin.z as int, r@),
{
    let mut heights: Vec<i32> = Vec::with_capacity(HEIGHT_MAP_AREA);
    let mut x: usize = 0;
    while x < CHUNK_SIZE
        invariant
            x <= CHUNK_SIZE,
            heights@.len() == x * CHUNK_SIZE,
            sampler_total(sample),
            origin.x + CHUNK_SIZE - 1 <= i32::MAX,
            origin.z + CHUNK_SIZE - 1 <= i32::MAX,
            forall|i: int, k: int|
                0 <= i < x && 0 <= k < CHUNK_SIZE ==> sample.ensures(
                    (seed, (origin.x + i) as i32, (origin.z + k) as i32),
                    #[trigger] heights@[height_index(i, k)],
                ),
        decreases CHUNK_SIZE - x,
    {
        let mut z: usize = 0;
        while z < CHUNK_SIZE
            invariant
                x < CHUNK_SIZE,
                z <= CHUNK_SIZE,
                heights@.len() == x * CHUNK_SIZE + z,
                sampler_total(sample),
                origin.x + CHUNK_SIZE - 1 <= i32::MAX,
                origin.z + CHUNK_SIZE - 1 <= i32::MAX,
                forall|i: int, k: int|
                    0 <= i < x && 0 <= k < CHUNK_SIZE ==> sample.ensures(
                        (seed, (origin.x + i) as i32, (origin.z + k) as i32),
                        #[trigger] heights@[height_index(i, k)],
                    ),
                forall|k: int|
                    0 <= k < z ==> sample.ensures(
                        (seed, (origin.x + x) as i32, (origin.z + k) as i32),
                        #[trigger] heights@[height_index(x as int, k)],
                    ),
            decreases CHUNK_SIZE - z,
        {
            let h = sample(seed, origin.x + x as i32, origin.z + z as i32);
            heights.push(h);
            z += 1;
        }
        x += 1;
    }
    HeightMap { heights }
}

/// The tiles of the chunk at chunk height `cy` of a column with surface
/// heights `m`, stored by `tile_index`: for each index, the relative `y` is
/// the index divided by the area of a layer, and the rest is the height index.
pub open spec fn chunk_tiles_of(cy: int, m: Seq<i32>) -> Seq<Tile> {
    Seq::new(
        CHUNK_VOLUME as nat,
        |i: int|
            terrain_tile(
                cy * CHUNK_SIZE + i / (HEIGHT_MAP_AREA as int),
                m[i % (HEIGHT_MAP_AREA as int)] as int,
            ),
    )
}

/// The tile at in-chunk offset `(y, x, z)` of a generated chunk is solid
/// exactly when its absolute height lies below the column's surface height at
/// `(x, z)`.
pub proof fn lemma_chunk_tile_at(cy: int, m: Seq<i32>, y: int, x: int, z: int)
    requires
        0 <= y < CHUNK_SIZE,
        0 <= x < CHUNK_SIZE,
        0 <= z < CHUNK_SIZE,
    ensures
        0 <= tile_index(y, x, z) < CHUNK_VOLUME,
        chunk_tiles_of(cy, m)[tile_index(y, x, z)] == terrain_tile(
            cy * CHUNK_SIZE + y,
            m[height_index(x, z)] as int,
        ),
{
    let i = tile_index(y, x, z);
    let c = height_index(x, z);
    assert(i == y * 256 + c);
    assert(0 <= c < 256);
    vstd::arithmetic::div_mod::lemma_fundamental_div_mod_converse(i, 256, y, c);
}

/// Builds the chunk at chunk coordinate `pos` of a column with height map
/// `height_map`; only `pos.y` is read.
pub fn generate_chunk(pos: &Point3, height_map: &HeightMap) -> (r: Chunk)
    ensures
        r@ == chunk_tiles_of(pos.y as int, height_map@),
        forall|y: int, x: int, z: int|
            0 <= y < CHUNK_SIZE && 0 <= x < CHUNK_SIZE && 0 <= z < CHUNK_SIZE ==> #[trigger] r@[tile_index(y, x, z)]
                == terrain_tile(pos.y * CHUNK_SIZE + y, height_map@[height_index(x, z)] as int),
{
    proof {
        use_type_invariant(height_map);
    }
    let base: i64 = pos.y as i64 * CHUNK_SIZE as i64;
    let mut tiles: Vec<Tile> = Vec::with_capacity(CHUNK_VOLUME);
    let mut i: usize = 0;
    while i < CHUNK_VOLUME
        invariant
            i <= CHUNK_VOLUME,
            tiles@.len() == i,
            height_map@.len() == HEIGHT_MAP_AREA,
            base == pos.y * CHUNK_SIZE,
            forall|j: int| 0 <= j < i ==> #[trigger] tiles@[j] == chunk_tiles_of(pos.y as int, height_map@)[j],
        decreases CHUNK_VOLUME - i,
    {
        let y = base + (i / HEIGHT_MAP_AREA) as i64;
        let h = height_map.heights[i % HEIGHT_MAP_AREA];
        let t = if y < h as i64 {
            Tile::new(TileType::Solid)
        } else {
            Tile::new(TileType::Air)
        };
        tiles.push(t);
        i += 1;
    }
    assert(tiles@ =~= chunk_tiles_of(pos.y as int, height_map@));
    assert forall|y: int, x: int, z: int|
        0 <= y < CHUNK_SIZE && 0 <= x < CHUNK_SIZE && 0 <= z < CHUNK_SIZE implies #[trigger] tiles@[tile_index(y, x, z)]
            == terrain_tile(pos.y * CHUNK_SIZE + y, height_map@[height_index(x, z)] as int) by {
        lemma_chunk_tile_at(pos.y as int, height_map@, y, x, z);
    }
    Chunk::new(tiles)
}

/// Sampling the same column twice with the same seed and a deterministic
/// sampler gives the same height map: the map depends on nothing else.
pub proof fn lemma_height_map_deterministic<F: Fn(u32, i32, i32) -> i32>(
    sample: &F,
    seed: u32,
    ox: int,
    oz: int,
    m1: Seq<i32>,
    m2: Seq<i32>,
)
    requires
        sampler_deterministic(sample),
        is_height_map_of(sample, seed, ox, oz, m1),
        is_height_map_of(sample, seed, ox, oz, m2),
    ensures
        m1 == m2,
{
    assert forall|i: int| 0 <= i < HEIGHT_MAP_AREA implies m1[i] == m2[i] by {
        let x = i / 16;
        let z = i % 16;
        assert(i == height_index(x, z));
        let a = (seed, (ox + x) as i32, (oz + z) as i32);
        assert(sample.ensures(a, m1[height_index(x, z)]));
        assert(sample.ensures(a, m2[height_index(x, z)]));
    }
    assert(m1 =~= m2);
}

} // verus!
