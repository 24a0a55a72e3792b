use noise::{NoiseFn, OpenSimplex};
use world::{
    generate_chunk, generate_height_map, Area, Chunk, Point3, RelPoint3, Tile, TileType, CHUNK_SIZE,
    CHUNK_VOLUME,
};

fn noise_height(seed: u32, x: i32, z: i32) -> i32 {
    let n = OpenSimplex::new(seed);
    (n.get([x as f64 / 64.0, z as f64 / 64.0]) * 24.0) as i32
}

fn flat(h: i32) -> impl Fn(u32, i32, i32) -> i32 {
    move |_s, _x, _z| h
}

#[test]
fn height_map_samples_each_cell() {
    let m = generate_height_map(7, &Point3::new(32, 99, -16), &|s: u32, x: i32, z: i32| {
        s as i32 * 1000 + x * 100 + z
    });
    assert_eq!(m.height(0, 0), 7000 + 3200 - 16);
    assert_eq!(m.height(3, 5), 7000 + 3500 - 11);
    assert_eq!(m.height(15, 15), 7000 + 4700 - 1);
}

#[test]
fn height_map_is_deterministic() {
    let origin = Point3::new(-48, 0, 80);
    let a = generate_height_map(42, &origin, &noise_height);
    let b = generate_height_map(42, &origin, &noise_height);
    for x in 0..CHUNK_SIZE {
        for z in 0..CHUNK_SIZE {
            assert_eq!(a.height(x, z), b.height(x, z));
        }
    }
}

#[test]
fn chunk_is_solid_below_surface() {
    let m = generate_height_map(0, &Point3::new(0, 0, 0), &|_s: u32, x: i32, _z: i32| x - 3);
    // Chunk at chunk height -1 spans absolute heights -16..=-1.
    let c = generate_chunk(&Point3::new(0, -1, 0), &m);
    let solid = Tile::new(TileType::Solid);
    let air = Tile::new(TileType::Air);
    // Column x = 0 has surface -3: absolute -4 (y = 12) is solid, -3 (y = 13) is air.
    assert_eq!(c.tile(RelPoint3::new(0, 12, 5)), solid);
    assert_eq!(c.tile(RelPoint3::new(0, 13, 5)), air);
    // Column x = 3 has surface 0: the whole chunk is solid there.
    assert_eq!(c.tile(RelPoint3::new(3, 15, 0)), solid);
    let top = generate_chunk(&Point3::new(0, 0, 0), &m);
    assert_eq!(top.tile(RelPoint3::new(3, 0, 0)), air);
    assert_eq!(top.tile(RelPoint3::new(5, 1, 0)), solid);
    assert_eq!(top.tile(RelPoint3::new(5, 2, 0)), air);
}

#[test]
fn chunk_from_tiles_reads_back() {
    let mut tiles = vec![Tile::new(TileType::Air); CHUNK_VOLUME];
    tiles[(2 * CHUNK_SIZE + 1) * CHUNK_SIZE + 3] = Tile::new(TileType::Solid);
    let c = Chunk::new(tiles);
    assert_eq!(c.tile(RelPoint3::new(1, 2, 3)).tile_type, TileType::Solid);
    assert_eq!(c.tile(RelPoint3::new(3, 2, 1)).tile_type, TileType::Air);
}

#[test]
fn seed_42_radius_1_scenario() {
    let area = Area::new(42, 1, noise_height);
    for x in -1..1 {
        for y in -1..1 {
            for z in -1..1 {
                assert!(area.get_chunk(Point3::new(x, y, z)).is_some());
            }
        }
    }
    assert!(area.get_chunk(Point3::new(0, 0, 0)).is_some());
    assert!(area.get_chunk(Point3::new(1, 0, 0)).is_none());
    assert!(area.get_chunk(Point3::new(5, 5, 5)).is_none());
    let far = Point3::new(CHUNK_SIZE as i32 * 5, 0, 0);
    assert_eq!(area.get_tile(&far).tile_type, TileType::OutOfBounds);
}

#[test]
fn radius_zero_generates_nothing() {
    let area = Area::new(1, 0, flat(0));
    assert!(area.get_chunk(Point3::new(0, 0, 0)).is_none());
    assert_eq!(area.get_tile(&Point3::new(0, 0, 0)).tile_type, TileType::OutOfBounds);
}

#[test]
fn tiles_follow_the_surface() {
    let area = Area::new(3, 2, flat(5));
    assert_eq!(area.get_tile(&Point3::new(-20, 4, 7)).tile_type, TileType::Solid);
    assert_eq!(area.get_tile(&Point3::new(-20, 5, 7)).tile_type, TileType::Air);
    assert_eq!(area.get_tile(&Point3::new(31, -32, -32)).tile_type, TileType::Solid);
    assert_eq!(area.get_tile(&Point3::new(31, 31, 31)).tile_type, TileType::Air);
    assert_eq!(area.get_tile(&Point3::new(32, 0, 0)).tile_type, TileType::OutOfBounds);
    assert_eq!(area.get_tile(&Point3::new(0, -33, 0)).tile_type, TileType::OutOfBounds);
}

#[test]
fn shared_column_map_matches_own_map() {
    let area = Area::new(42, 1, noise_height);
    for cx in -1..1 {
        for cz in -1..1 {
            for cy in -1..1 {
                let s = CHUNK_SIZE as i32;
                let own = generate_height_map(42, &Point3::new(cx * s, 0, cz * s), &noise_height);
                let expected = generate_chunk(&Point3::new(cx, cy, cz), &own);
                let got = area.get_chunk(Point3::new(cx, cy, cz)).unwrap();
                for y in 0..CHUNK_SIZE {
                    for x in 0..CHUNK_SIZE {
                        for z in 0..CHUNK_SIZE {
                            let r = RelPoint3::new(x, y, z);
                            assert_eq!(got.tile(r), expected.tile(r));
                        }
                    }
                }
            }
        }
    }
}

#[test]
fn add_chunk_overwrites() {
    let mut area = Area::new(0, 0, flat(0));
    let p = Point3::new(9, -9, 4);
    area.add_chunk(p, Chunk::new(vec![Tile::new(TileType::Air); CHUNK_VOLUME]));
    area.add_chunk(p, Chunk::new(vec![Tile::new(TileType::Solid); CHUNK_VOLUME]));
    let t = area.get_tile(&Point3::new(9 * 16 + 1, -9 * 16, 4 * 16 + 15));
    assert_eq!(t.tile_type, TileType::Solid);
    assert!(area.get_chunk(Point3::new(9, -9, 5)).is_none());
}
