//! The world store: generated chunks keyed by chunk coordinate.
use vstd::prelude::*;
use std::collections::HashMap;
use crate::chunk::{rel_index, Chunk};
use crate::coords::{
    abs_pos_to_chunk_pos, abs_pos_to_rel_chunk_pos, chunk_pos_of, rel_pos_of, Point3, CHUNK_SIZE,
};
use crate::mapgen::{
    chunk_tiles_of, generate_chunk, generate_height_map, is_height_map_of, lemma_height_map_deterministic,
    sampler_deterministic, sampler_total, HeightMap,
};
use crate::terrain::{Tile, TileType};

verus! {

broadcast use vstd::std_specs::hash::group_hash_axioms;

/// The largest initial radius whose chunks all have absolute coordinates
/// that fit in an `i32`.
pub const MAX_INITIAL_SIZE: u32 = 134217728;

/// Shifts an `i32` into `[0, 2^32)`.
spec fn key_part(a: i32) -> int {
    a as int + 0x8000_0000
}

/// The key under which the chunk at `p` is stored: the three shifted
/// coordinates side by side, 32 bits each.
spec fn chunk_key(p: Point3) -> u128 {
    (key_part(p.x) * 0x1_0000_0000_0000_0000 + key_part(p.y) * 0x1_0000_0000 + key_part(
        p.z,
    )) as u128
}

proof fn lemma_chunk_key_injective(p: Point3, q: Point3)
    ensures
        chunk_key(p) == chunk_key(q) ==> p == q,
{
    let kp = key_part(p.x) * 0x1_0000_0000_0000_0000 + key_part(p.y) * 0x1_0000_0000 + key_part(p.z);
    let kq = key_part(q.x) * 0x1_0000_0000_0000_0000 + key_part(q.y) * 0x1_0000_0000 + key_part(q.z);
    assert(0 <= kp < 0x1_0000_0000_0000_0000_0000_0000);
    assert(0 <= kq < 0x1_0000_0000_0000_0000_0000_0000);
    if chunk_key(p) == chunk_key(q) {
        assert(kp == kq);
        let lp = key_part(p.y) * 0x1_0000_0000 + key_part(p.z);
        let lq = key_part(q.y) * 0x1_0000_0000 + key_part(q.z);
        vstd::arithmetic::div_mod::lemma_fundamental_div_mod_converse(
            kp, 0x1_0000_0000_0000_0000, key_part(p.x), lp);
        vstd::arithmetic::div_mod::lemma_fundamental_div_mod_converse(
            kq, 0x1_0000_0000_0000_0000, key_part(q.x), lq);
        vstd::arithmetic::div_mod::lemma_fundamental_div_mod_converse(
            lp, 0x1_0000_0000, key_part(p.y), key_part(p.z));
        vstd::arithmetic::div_mod::lemma_fundamental_div_mod_converse(
            lq, 0x1_0000_0000, key_part(q.y), key_part(q.z));
    }
}

fn key_of(p: &Point3) -> (k: u128)
    ensures
        k == chunk_key(*p),
{
    let a = (p.x as i64 + 0x8000_0000) as u128;
    let b = (p.y as i64 + 0x8000_0000) as u128;
    let c = (p.z as i64 + 0x8000_0000) as u128;
    a * 0x1_0000_0000_0000_0000 + b * 0x1_0000_0000 + c
}

/// A sparse world: at most one chunk per chunk coordinate, and the seed that
/// the world was generated from.
pub struct Area {
    chunks: HashMap<u128, Chunk>,
    seed: u32,
}

impl View for Area {
    type V = Map<Point3, Chunk>;

    /// The chunk stored at each chunk coordinate.
    closed spec fn view(&self) -> Map<Point3, Chunk> {
        Map::new(
            |p: Point3| self.chunks@.contains_key(chunk_key(p)),
            |p: Point3| self.chunks@[chunk_key(p)],
        )
    }
}

/// `p` lies in the cube of chunk coordinates `[-n, n)` on every axis.
pub open spec fn in_region(n: int, p: Point3) -> bool {
    &&& -n <= p.x < n
    &&& -n <= p.y < n
    &&& -n <= p.z < n
}

/// The tile at absolute coordinate `p` of a world whose chunks are `m`: read
/// from the chunk that holds `p` at `p`'s in-chunk offset, or out of bounds
/// where that chunk is absent.
pub open spec fn tile_in(m: Map<Point3, Chunk>, p: Point3) -> Tile {
    if m.contains_key(chunk_pos_of(p)) {
        m[chunk_pos_of(p)]@[rel_index(rel_pos_of(p))]
    } else {
        Tile { tile_type: TileType::OutOfBounds }
    }
}

impl Area {
    /// The seed the world was generated from.
    pub closed spec fn seed_of(&self) -> u32 {
        self.seed
    }

    /// The chunks of the world are exactly those of the cube `[-n, n)`, and
    /// every column of it was filled from one height map that `sample` gave
    /// for the column's first tile.
    pub open spec fn generated_from<F: Fn(u32, i32, i32) -> i32>(
        &self,
        sample: &F,
        seed: u32,
        n: int,
    ) -> bool {
        &&& self.seed_of() == seed
        &&& forall|p: Point3| #[trigger] self@.contains_key(p) <==> in_region(n, p)
        &&& forall|cx: int, cz: int|
            -n <= cx < n && -n <= cz < n ==> #[trigger] column_filled(
                self@,
                sample,
                seed,
                n,
                cx,
                cz,
            )
    }

    /// Generates the chunks of the cube `[-initial_size, initial_size)` of
    /// chunk coordinates around the origin. Each column's height map is
    /// sampled once, for the column's first tile, and reused for every chunk
    /// stacked in the column.
    pub fn new<F: Fn(u32, i32, i32) -> i32>(rng_seed: u32, initial_size: u32, sample: F) -> (r: Area)
        requires
            sampler_total(&sample),
            initial_size <= MAX_INITIAL_SIZE,
        ensures
            r.generated_from(&sample, rng_seed, initial_size as int),
    {
        let mut area = Area { chunks: HashMap::new(), seed: rng_seed };
        let n = initial_size as i32;
        let ghost gn = n as int;
        let ghost mut cols: Map<(int, int), Seq<i32>> = Map::empty();
        let mut z: i32 = -n;
        while z < n
            invariant
                -gn <= z <= gn,
                gn == initial_size,
                n == gn,
                gn <= MAX_INITIAL_SIZE,
                sampler_total(&sample),
                area.seed == rng_seed,
                forall|p: Point3|
                    #[trigger] area@.contains_key(p) <==> in_region(gn, p) && p.z < z,
                forall|cx: int, cz: int|
                    -gn <= cx < gn && -gn <= cz < z ==> #[trigger] column_done(
                        area@, &sample, rng_seed, gn, cols, cx, cz),
            decreases n - z,
        {
            let mut x: i32 = -n;
            while x < n
                invariant
                    -gn <= z < gn,
                    -gn <= x <= gn,
                    gn == initial_size,
                    n == gn,
                    gn <= MAX_INITIAL_SIZE,
                    sampler_total(&sample),
                    area.seed == rng_seed,
                    forall|p: Point3|
                        #[trigger] area@.contains_key(p) <==> in_region(gn, p) && (p.z < z || (
                        p.z == z && p.x < x)),
                    forall|cx: int, cz: int|
                        -gn <= cx < gn && -gn <= cz < gn && (cz < z || (cz == z && cx < x))
                            ==> #[trigger] column_done(area@, &sample, rng_seed, gn, cols, cx, cz),
                decreases n - x,
            {
                let origin = Point3::new(x * CHUNK_SIZE as i32, 0, z * CHUNK_SIZE as i32);
                let height_map = generate_height_map(rng_seed, &origin, &sample);
                proof {
                    let prev = cols;
                    cols = cols.insert((x as int, z as int), height_map@);
                    assert forall|cx: int, cz: int|
                        -gn <= cx < gn && -gn <= cz < gn && (cz < z || (cz == z && cx < x))
                            implies #[trigger] column_done(area@, &sample, rng_seed, gn, cols, cx, cz) by {
                        assert(column_done(area@, &sample, rng_seed, gn, prev, cx, cz));
                        assert(cols[(cx, cz)] == prev[(cx, cz)]);
                    }
                }
                let mut y: i32 = -n;
                while y < n
                    invariant
                        -gn <= z < gn,
                        -gn <= x < gn,
                        -gn <= y <= gn,
                        gn == initial_size,
                        n == gn,
                        gn <= MAX_INITIAL_SIZE,
                        area.seed == rng_seed,
                        cols.contains_key((x as int, z as int)),
                        cols[(x as int, z as int)] == height_map@,
                        is_height_map_of(&sample, rng_seed, x * CHUNK_SIZE, z * CHUNK_SIZE, height_map@),
                        forall|p: Point3|
                            #[trigger] area@.contains_key(p) <==> in_region(gn, p) && (p.z < z || (
                            p.z == z && p.x < x) || (p.z == z && p.x == x && p.y < y)),
                        forall|cx: int, cz: int|
                            -gn <= cx < gn && -gn <= cz < gn && (cz < z || (cz == z && cx < x))
                                ==> #[trigger] column_done(area@, &sample, rng_seed, gn, cols, cx, cz),
                        forall|cy: int|
                            -gn <= cy < y ==> (#[trigger] area@[Point3 { x, y: cy as i32, z }])@
                                == chunk_tiles_of(cy, height_map@),
                    decreases n - y,
                {
                    let pos = Point3::new(x, y, z);
                    let chunk = generate_chunk(&pos, &height_map);
                    let ghost before = area@;
                    area.add_chunk(pos, chunk);
                    assert forall|cx: int, cz: int|
                        -gn <= cx < gn && -gn <= cz < gn && (cz < z || (cz == z && cx < x))
                            implies #[trigger] column_done(area@, &sample, rng_seed, gn, cols, cx, cz) by {
                        assert(column_done(before, &sample, rng_seed, gn, cols, cx, cz));
                        assert forall|cy: int| -gn <= cy < gn implies
                            (#[trigger] area@[Point3 { x: cx as i32, y: cy as i32, z: cz as i32 }])@
                                == chunk_tiles_of(cy, cols[(cx, cz)]) by {
                            assert(before[Point3 { x: cx as i32, y: cy as i32, z: cz as i32 }]@
                                == chunk_tiles_of(cy, cols[(cx, cz)]));
                        }
                    }
                    y += 1;
                }
                assert(column_done(area@, &sample, rng_seed, gn, cols, x as int, z as int)) by {
                    assert forall|cy: int| -gn <= cy < gn implies
                        (#[trigger] area@[Point3 { x: x as int as i32, y: cy as i32, z: z as int as i32 }])@
                            == chunk_tiles_of(cy, cols[(x as int, z as int)]) by {
                        assert(area@[Point3 { x, y: cy as i32, z }]@ == chunk_tiles_of(cy, height_map@));
                    }
                }
                x += 1;
            }
            z += 1;
        }
        proof {
            assert forall|cx: int, cz: int| -gn <= cx < gn && -gn <= cz < gn implies
                #[trigger] column_filled(area@, &sample, rng_seed, gn, cx, cz) by {
                assert(column_done(area@, &sample, rng_seed, gn, cols, cx, cz));
            }
        }
        area
    }

    /// Stores `c` at chunk coordinate `p`, replacing any chunk already there.
    pub fn add_chunk(&mut self, p: Point3, c: Chunk)
        ensures
            final(self)@ == old(self)@.insert(p, c),
            final(self).seed_of() == old(self).seed_of(),
    {
        let k = key_of(&p);
        self.chunks.insert(k, c);
        proof {
            assert forall|q: Point3| #[trigger] final(self)@.contains_key(q) == old(self)@.insert(p, c).contains_key(q) by {
                lemma_chunk_key_injective(p, q);
            }
            assert forall|q: Point3| #[trigger] final(self)@.contains_key(q) implies final(self)@[q] == old(self)@.insert(p, c)[q] by {
                lemma_chunk_key_injective(p, q);
            }
            assert(final(self)@ =~= old(self)@.insert(p, c));
        }
    }

    /// The chunk at chunk coordinate `p`, if one was stored.
    pub fn get_chunk(&self, p: Point3) -> (r: Option<&Chunk>)
        ensures
            match r {
                Some(c) => self@.contains_key(p) && *c == self@[p],
                None => !self@.contains_key(p),
            },
    {
        let k = key_of(&p);
        self.chunks.get(&k)
    }

    /// The tile at absolute coordinate `p`: read from the chunk that holds
    /// it, or the out-of-bounds tile where that chunk was never stored.
    pub fn get_tile(&self, p: &Point3) -> (t: Tile)
        ensures
            t == tile_in(self@, *p),
            !self@.contains_key(chunk_pos_of(*p)) ==> t.tile_type == TileType::OutOfBounds,
    {
        let chunk_pos = abs_pos_to_chunk_pos(p);
        let tile_pos = abs_pos_to_rel_chunk_pos(p);
        match self.get_chunk(chunk_pos) {
            Some(chunk) => chunk.tile(tile_pos),
            None => Tile::new(TileType::OutOfBounds),
        }
    }
}

/// Every chunk of the column `(cx, cz)` in `[-n, n)` was built from one
/// height map that `sample` gave for the column's first tile.
pub open spec fn column_filled<F: Fn(u32, i32, i32) -> i32>(
    m: Map<Point3, Chunk>,
    sample: &F,
    seed: u32,
    n: int,
    cx: int,
    cz: int,
) -> bool {
    exists|h: Seq<i32>|
        #[trigger] is_height_map_of(sample, seed, cx * CHUNK_SIZE, cz * CHUNK_SIZE, h) && forall|cy: int|
            -n <= cy < n ==> (#[trigger] m[Point3 { x: cx as i32, y: cy as i32, z: cz as i32 }])@
                == chunk_tiles_of(cy, h)
}

spec fn column_done<F: Fn(u32, i32, i32) -> i32>(
    m: Map<Point3, Chunk>,
    sample: &F,
    seed: u32,
    n: int,
    cols: Map<(int, int), Seq<i32>>,
    cx: int,
    cz: int,
) -> bool {
    &&& cols.contains_key((cx, cz))
    &&& is_height_map_of(sample, seed, cx * CHUNK_SIZE, cz * CHUNK_SIZE, cols[(cx, cz)])
    &&& forall|cy: int|
        -n <= cy < n ==> (#[trigger] m[Point3 { x: cx as i32, y: cy as i32, z: cz as i32 }])@
            == chunk_tiles_of(cy, cols[(cx, cz)])
}

/// Sampling a column's height map once and sharing it among the column's
/// chunks gives each chunk what a height map sampled for that chunk alone
/// would give, with a deterministic sampler.
pub proof fn lemma_shared_height_map_matches_own<F: Fn(u32, i32, i32) -> i32>(
    a: &Area,
    sample: &F,
    seed: u32,
    n: int,
    p: Point3,
    own: Seq<i32>,
)
    requires
        sampler_deterministic(sample),
        a.generated_from(sample, seed, n),
        in_region(n, p),
        is_height_map_of(sample, seed, p.x * CHUNK_SIZE, p.z * CHUNK_SIZE, own),
    ensures
        a@.contains_key(p),
        a@[p]@ == chunk_tiles_of(p.y as int, own),
{
    assert(column_filled(a@, sample, seed, n, p.x as int, p.z as int));
    let h = choose|h: Seq<i32>|
        #[trigger] is_height_map_of(sample, seed, p.x * CHUNK_SIZE, p.z * CHUNK_SIZE, h) && forall|cy: int|
            -n <= cy < n ==> (#[trigger] a@[Point3 { x: p.x as int as i32, y: cy as i32, z: p.z as int as i32 }])@
                == chunk_tiles_of(cy, h);
    lemma_height_map_deterministic(sample, seed, p.x * CHUNK_SIZE, p.z * CHUNK_SIZE, h, own);
    assert(a@[Point3 { x: p.x, y: p.y as int as i32, z: p.z }]@ == chunk_tiles_of(p.y as int, h));
}

} // verus!
