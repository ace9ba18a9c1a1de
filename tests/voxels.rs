use prism_voxel::math::{log2_side, xyz_to_idx};
use prism_voxel::voxel::{Chunk, SaveChunk, VoxelMap};

fn map_with_chunks(keys: &[(i32, i32, i32)]) -> VoxelMap {
    let mut m = VoxelMap::new((16, 16, 16));
    for k in keys {
        m.add_chunk(k.0, k.1, k.2, Chunk::new(16));
    }
    m
}

#[test]
fn write_then_read_through_map() {
    let mut m = map_with_chunks(&[(0, 0, 0), (-1, 0, 2)]);
    m.set_voxel(3, 4, 5, 7);
    assert_eq!(m.get_voxel(3, 4, 5), 7);
    m.set_voxel(-1, 15, 40, 65535);
    assert_eq!(m.get_voxel(-1, 15, 40), 65535);
    // neighbours are untouched
    assert_eq!(m.get_voxel(3, 4, 6), 0);
    assert_eq!(m.get_voxel(-2, 15, 40), 0);
    m.set_voxel(3, 4, 5, 0);
    assert_eq!(m.get_voxel(3, 4, 5), 0);
}

#[test]
fn missing_chunk_reads_air() {
    let mut m = map_with_chunks(&[(0, 0, 0)]);
    assert_eq!(m.get_voxel(16, 0, 0), 0);
    assert_eq!(m.get_voxel(-1, -1, -1), 0);
    assert_eq!(m.get_voxel(i32::MAX, i32::MIN, 0), 0);
    // a write to a missing chunk is dropped
    m.set_voxel(20, 0, 0, 3);
    assert_eq!(m.get_voxel(20, 0, 0), 0);
    assert!(m.get_chunk(1, 0, 0).is_none());
}

#[test]
fn negative_coordinates_use_floor_keys() {
    let mut m = map_with_chunks(&[(-1, -1, -1)]);
    m.set_voxel(-16, -1, -7, 9);
    assert_eq!(m.get_voxel(-16, -1, -7), 9);
    let c = m.get_chunk(-1, -1, -1).unwrap();
    // -16 & 15 == 0, -1 & 15 == 15, -7 & 15 == 9
    assert_eq!(c.get_voxel(0, 15, 9), 9);
    assert!(c.is_dirty());
    assert!(c.save_dirty);
}

#[test]
fn add_and_remove_chunks() {
    let mut m = map_with_chunks(&[(0, 0, 0)]);
    m.set_voxel(1, 1, 1, 2);
    // replacing a chunk drops its voxels
    m.add_chunk(0, 0, 0, Chunk::new(16));
    assert_eq!(m.get_voxel(1, 1, 1), 0);
    m.set_voxel(1, 1, 1, 5);
    let c = m.remove_chunk(0, 0, 0).unwrap();
    assert_eq!(c.get_voxel(1, 1, 1), 5);
    assert!(m.remove_chunk(0, 0, 0).is_none());
    assert_eq!(m.get_voxel(1, 1, 1), 0);
    assert_eq!(m.chunk_size(), (16, 16, 16));
}

#[test]
fn chunk_bounds_read_as_air() {
    let mut c = Chunk::new(4);
    assert!(!c.is_dirty());
    c.set_voxel(4, 0, 0, 1);
    c.set_voxel(-1, 0, 0, 1);
    assert!(c.volume.is_none());
    assert!(c.is_dirty());
    assert_eq!(c.get_voxel(4, 0, 0), 0);
    assert_eq!(c.get_voxel(0, -1, 0), 0);
    c.set_voxel(0, 0, 0, 0);
    assert!(c.volume.is_none());
    c.set_voxel(3, 3, 3, 12);
    assert!(c.volume.is_some());
    assert_eq!(c.get_voxel(3, 3, 3), 12);
    assert_eq!(c.volume.as_ref().unwrap().type_id.layer[3 + 3 * 4 + 3 * 16], 12);
    c.set_is_dirty(false);
    assert!(!c.is_dirty());
}

#[test]
fn save_round_trip() {
    let mut c = Chunk::new(2);
    let empty = c.to_save();
    assert!(empty.voxel.is_none());
    let back = Chunk::from_save(2, &empty).unwrap();
    assert!(back.volume.is_none());
    c.set_voxel(1, 0, 1, 300);
    c.set_voxel(0, 1, 0, 2);
    let saved = c.to_save();
    assert_eq!(saved.voxel, Some(vec![0, 0, 2, 0, 0, 300, 0, 0]));
    let back = Chunk::from_save(2, &saved).unwrap();
    assert!(back.is_dirty());
    assert!(!back.save_dirty);
    for z in 0..2 {
        for y in 0..2 {
            for x in 0..2 {
                assert_eq!(back.get_voxel(x, y, z), c.get_voxel(x, y, z));
            }
        }
    }
}

#[test]
fn malformed_save_is_refused() {
    let short = SaveChunk { voxel: Some(vec![0; 7]) };
    assert!(Chunk::from_save(2, &short).is_none());
    let wide = SaveChunk { voxel: Some(vec![0, 0, 0, 70000, 0, 0, 0, 0]) };
    assert!(Chunk::from_save(2, &wide).is_none());
}

#[test]
fn flat_index_decodes() {
    assert_eq!(xyz_to_idx(0, 16, 16), (0, 0, 0));
    assert_eq!(xyz_to_idx(3 + 4 * 16 + 5 * 256, 16, 16), (3, 4, 5));
    assert_eq!(xyz_to_idx(7, 2, 3), (1, 0, 1));
}

#[test]
fn chunk_side_exponent() {
    assert_eq!(log2_side(1), 0);
    assert_eq!(log2_side(16), 4);
    assert_eq!(log2_side(1024), 10);
}
