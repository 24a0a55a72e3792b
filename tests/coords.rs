use world::{abs_pos_to_chunk_pos, abs_pos_to_rel_chunk_pos, Point3, RelPoint3, CHUNK_SIZE, LOG2_OF_CHUNK_SIZE};

fn rebuild(p: Point3) -> Point3 {
    let c = abs_pos_to_chunk_pos(&p);
    let r = abs_pos_to_rel_chunk_pos(&p);
    let s = CHUNK_SIZE as i32;
    Point3::new(c.x * s + r.x as i32, c.y * s + r.y as i32, c.z * s + r.z as i32)
}

#[test]
fn chunk_size_is_two_to_its_log() {
    assert_eq!(1usize << LOG2_OF_CHUNK_SIZE, CHUNK_SIZE);
}

#[test]
fn chunk_pos_of_positive_and_negative() {
    let p = Point3::new(-1, -16, 17);
    assert_eq!(abs_pos_to_chunk_pos(&p), Point3::new(-1, -1, 1));
    let q = Point3::new(0, 15, -17);
    assert_eq!(abs_pos_to_chunk_pos(&q), Point3::new(0, 0, -2));
}

#[test]
fn rel_pos_of_positive_and_negative() {
    let p = Point3::new(-1, -16, 17);
    assert_eq!(abs_pos_to_rel_chunk_pos(&p), RelPoint3::new(15, 0, 1));
    let q = Point3::new(0, 15, -17);
    assert_eq!(abs_pos_to_rel_chunk_pos(&q), RelPoint3::new(0, 15, 15));
}

#[test]
fn extreme_coordinates() {
    let p = Point3::new(i32::MIN, i32::MAX, 0);
    assert_eq!(abs_pos_to_chunk_pos(&p), Point3::new(i32::MIN / 16, i32::MAX / 16, 0));
    assert_eq!(abs_pos_to_rel_chunk_pos(&p), RelPoint3::new(0, 15, 0));
    assert_eq!(rebuild(p), p);
}

#[test]
fn offsets_stay_in_chunk() {
    for a in -100..100 {
        let r = abs_pos_to_rel_chunk_pos(&Point3::new(a, -a, a * 7));
        assert!(r.x < CHUNK_SIZE && r.y < CHUNK_SIZE && r.z < CHUNK_SIZE);
    }
}

#[test]
fn chunk_pos_never_decreases() {
    let mut prev = abs_pos_to_chunk_pos(&Point3::new(-200, -200, -200));
    for a in -199..200 {
        let c = abs_pos_to_chunk_pos(&Point3::new(a, a, a));
        assert!(c.x >= prev.x && c.y >= prev.y && c.z >= prev.z);
        prev = c;
    }
}

#[test]
fn round_trip_on_sampled_coordinates() {
    let mut state: u64 = 0x2545_f491_4f6c_dd1d;
    let span = 20 * CHUNK_SIZE as i64;
    let low = -10 * CHUNK_SIZE as i64;
    let mut next = || {
        state ^= state << 13;
        state ^= state >> 7;
        state ^= state << 17;
        (low + (state % span as u64) as i64) as i32
    };
    for _ in 0..1000 {
        let p = Point3::new(next(), next(), next());
        assert_eq!(rebuild(p), p);
    }
}
