//! Splitting absolute coordinates into chunk coordinates and in-chunk offsets.
use vstd::prelude::*;

verus! {

/// Base-2 logarithm of the edge length of a chunk.
pub const LOG2_OF_CHUNK_SIZE: u32 = 4;

/// Edge length of a chunk, in tiles.
pub const CHUNK_SIZE: usize = 16;

/// A point of the signed integer lattice: an absolute tile position, or the
/// coordinate of a chunk in chunk space.
#[derive(Clone, Copy, Debug, PartialEq, Eq, Structural, Hash)]
pub struct Point3 {
    pub x: i32,
    pub y: i32,
    pub z: i32,
}

/// The offset of a tile inside the chunk that holds it.
#[derive(Clone, Copy, Debug, PartialEq, Eq, Structural, Hash)]
pub struct RelPoint3 {
    pub x: usize,
    pub y: usize,
    pub z: usize,
}

impl Point3 {
    pub fn new(x: i32, y: i32, z: i32) -> (r: Point3)
        ensures
            r == (Point3 { x, y, z }),
    {
        Point3 { x, y, z }
    }
}

impl RelPoint3 {
    pub fn new(x: usize, y: usize, z: usize) -> (r: RelPoint3)
        ensures
            r == (RelPoint3 { x, y, z }),
    {
        RelPoint3 { x, y, z }
    }

    /// Every component lies in `[0, CHUNK_SIZE)`.
    pub open spec fn in_chunk(self) -> bool {
        self.x < CHUNK_SIZE && self.y < CHUNK_SIZE && self.z < CHUNK_SIZE
    }
}

/// The chunk coordinate of an absolute coordinate along one axis: floor
/// division by the chunk size.
pub open spec fn chunk_coord(a: int) -> int {
    a / (CHUNK_SIZE as int)
}

/// The offset of an absolute coordinate inside its chunk along one axis: the
/// remainder of floor division, never negative.
pub open spec fn rel_coord(a: int) -> int {
    a % (CHUNK_SIZE as int)
}

pub open spec fn chunk_pos_of(p: Point3) -> Point3 {
    Point3 {
        x: chunk_coord(p.x as int) as i32,
        y: chunk_coord(p.y as int) as i32,
        z: chunk_coord(p.z as int) as i32,
    }
}

pub open spec fn rel_pos_of(p: Point3) -> RelPoint3 {
    RelPoint3 {
        x: rel_coord(p.x as int) as usize,
        y: rel_coord(p.y as int) as usize,
        z: rel_coord(p.z as int) as usize,
    }
}

/// An arithmetic right shift by the chunk size's logarithm is floor division.
proof fn lemma_shr_is_floor_div(a: i32)
    ensures
        a >> LOG2_OF_CHUNK_SIZE == chunk_coord(a as int),
        i32::MIN / 16 <= chunk_coord(a as int) <= i32::MAX / 16,
{
    assert(a >= 0 ==> a >> 4u32 == ((a as u32) >> 4u32) as i32) by (bit_vector);
    assert(a < 0 ==> a >> 4u32 == !((((!a) as u32) >> 4u32) as i32)) by (bit_vector);
    let n = !a;
    assert(!a == (-1 - a) as i32) by (bit_vector);
    let m = (((!a) as u32) >> 4u32) as i32;
    assert(!m == (-1 - m) as i32) by (bit_vector);
    vstd::arithmetic::power2::lemma2_to64();
    if a >= 0 {
        vstd::bits::lemma_u32_shr_is_div(a as u32, 4u32);
    } else {
        vstd::bits::lemma_u32_shr_is_div(n as u32, 4u32);
    }
}

fn shift_axis(a: i32) -> (r: i32)
    ensures
        r == chunk_coord(a as int),
{
    proof {
        lemma_shr_is_floor_div(a);
    }
    a >> LOG2_OF_CHUNK_SIZE
}

fn wrap_axis(a: i32) -> (r: usize)
    ensures
        r == rel_coord(a as int),
        r < CHUNK_SIZE,
{
    let size = CHUNK_SIZE as i32;
    ((a % size + size) % size) as usize
}

/// Takes an absolute coordinate and returns the coordinate of the chunk in
/// which it lies: each component is floor-divided by the chunk size, by an
/// arithmetic right shift, so negative coordinates round toward negative
/// infinity.
pub fn abs_pos_to_chunk_pos(p: &Point3) -> (r: Point3)
    ensures
        r == chunk_pos_of(*p),
{
    Point3::new(shift_axis(p.x), shift_axis(p.y), shift_axis(p.z))
}

/// Takes an absolute coordinate and returns its offset inside the chunk in
/// which it lies, each component in `[0, CHUNK_SIZE)`, negative coordinates
/// included.
pub fn abs_pos_to_rel_chunk_pos(p: &Point3) -> (r: RelPoint3)
    ensures
        r == rel_pos_of(*p),
        r.in_chunk(),
{
    RelPoint3::new(wrap_axis(p.x), wrap_axis(p.y), wrap_axis(p.z))
}

/// Chunk coordinate times the chunk size plus the in-chunk offset gives back
/// the absolute coordinate, on every axis, for negative coordinates as well.
pub proof fn lemma_chunk_and_offset_rebuild(p: Point3)
    ensures
        chunk_pos_of(p).x * CHUNK_SIZE + rel_pos_of(p).x == p.x,
        chunk_pos_of(p).y * CHUNK_SIZE + rel_pos_of(p).y == p.y,
        chunk_pos_of(p).z * CHUNK_SIZE + rel_pos_of(p).z == p.z,
{
    lemma_shr_is_floor_div(p.x);
    lemma_shr_is_floor_div(p.y);
    lemma_shr_is_floor_div(p.z);
}

/// Every component of an in-chunk offset lies in `[0, CHUNK_SIZE)`.
pub proof fn lemma_offset_in_chunk(p: Point3)
    ensures
        rel_pos_of(p).in_chunk(),
        0 <= rel_coord(p.x as int) < CHUNK_SIZE,
        0 <= rel_coord(p.y as int) < CHUNK_SIZE,
        0 <= rel_coord(p.z as int) < CHUNK_SIZE,
{
}

/// The chunk coordinate never decreases as the absolute coordinate grows,
/// on each axis on its own.
pub proof fn lemma_chunk_pos_monotonic(p: Point3, q: Point3)
    ensures
        p.x <= q.x ==> chunk_pos_of(p).x <= chunk_pos_of(q).x,
        p.y <= q.y ==> chunk_pos_of(p).y <= chunk_pos_of(q).y,
        p.z <= q.z ==> chunk_pos_of(p).z <= chunk_pos_of(q).z,
{
    lemma_shr_is_floor_div(p.x);
    lemma_shr_is_floor_div(p.y);
    lemma_shr_is_floor_div(p.z);
    lemma_shr_is_floor_div(q.x);
    lemma_shr_is_floor_div(q.y);
    lemma_shr_is_floor_div(q.z);
    if p.x <= q.x {
        vstd::arithmetic::div_mod::lemma_div_is_ordered(p.x as int, q.x as int, 16);
    }
    if p.y <= q.y {
        vstd::arithmetic::div_mod::lemma_div_is_ordered(p.y as int, q.y as int, 16);
    }
    if p.z <= q.z {
        vstd::arithmetic::div_mod::lemma_div_is_ordered(p.z as int, q.z as int, 16);
    }
}

} // verus!
