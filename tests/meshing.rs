use prism_voxel::mesher::{add_quad, ChunkKey, ChunkVertex, FaceSide, FULL_BRIGHTNESS, MIN_BRIGHTNESS};
use prism_voxel::voxel::{Chunk, VoxelMap};

fn world() -> VoxelMap {
    let mut m = VoxelMap::new((16, 16, 16));
    for x in -1..=1 {
        for y in -1..=1 {
            for z in -1..=1 {
                m.add_chunk(x, y, z, Chunk::new(16));
            }
        }
    }
    m
}

fn mesh(m: &VoxelMap, key: (i32, i32, i32), global: bool) -> (Vec<ChunkVertex>, Vec<u32>, u32) {
    let mut v = Vec::new();
    let mut i = Vec::new();
    let mut s = 0u32;
    m.update_chunk_mesh(ChunkKey::new(key), &mut v, &mut i, &mut s, global);
    (v, i, s)
}

#[test]
fn empty_chunk_has_no_mesh() {
    let m = world();
    let (v, i, s) = mesh(&m, (0, 0, 0), false);
    assert!(v.is_empty());
    assert!(i.is_empty());
    assert_eq!(s, 0);
}

#[test]
fn isolated_voxel_has_six_faces() {
    let mut m = world();
    m.set_voxel(5, 5, 5, 3);
    let (v, i, s) = mesh(&m, (0, 0, 0), false);
    assert_eq!(v.len(), 24);
    assert_eq!(i.len(), 36);
    assert_eq!(s, 24);
    let normals: Vec<(i8, i8, i8)> = v.iter().step_by(4).map(|c| c.normal).collect();
    assert_eq!(normals, vec![(0, 1, 0), (0, -1, 0), (1, 0, 0), (-1, 0, 0), (0, 0, 1), (0, 0, -1)]);
    assert!(v.iter().all(|c| c.index == 2 && c.color == FULL_BRIGHTNESS));
    assert!(v.iter().all(|c| (5..=6).contains(&c.position.0) && (5..=6).contains(&c.position.1)));
    assert_eq!(&i[0..6], &[0, 1, 3, 1, 2, 3]);
    assert_eq!(&i[6..12], &[7, 5, 4, 7, 6, 5]);
}

#[test]
fn adjacent_voxels_share_no_face() {
    let mut m = world();
    m.set_voxel(5, 5, 5, 1);
    m.set_voxel(6, 5, 5, 1);
    let (v, i, _) = mesh(&m, (0, 0, 0), false);
    assert_eq!(v.len(), 40);
    assert_eq!(i.len(), 60);
    // the first voxel lacks its right face, the second its left face
    let normals: Vec<(i8, i8, i8)> = v.iter().step_by(4).map(|c| c.normal).collect();
    assert!(!normals[0..5].contains(&(1, 0, 0)));
    assert!(!normals[5..10].contains(&(-1, 0, 0)));
}

#[test]
fn meshing_twice_gives_same_output() {
    let mut m = world();
    m.set_voxel(0, 0, 0, 4);
    m.set_voxel(0, 1, 0, 4);
    m.set_voxel(15, 15, 15, 9);
    m.set_voxel(16, 15, 15, 9);
    let first = mesh(&m, (0, 0, 0), false);
    let second = mesh(&m, (0, 0, 0), false);
    assert_eq!(first, second);
}

#[test]
fn faces_at_chunk_border_see_neighbour_chunk() {
    let mut m = world();
    m.set_voxel(15, 3, 3, 1);
    m.set_voxel(16, 3, 3, 1);
    let (v, _, _) = mesh(&m, (0, 0, 0), false);
    assert_eq!(v.len(), 20);
    let (w, _, _) = mesh(&m, (1, 0, 0), true);
    assert_eq!(w.len(), 20);
    // global positions of the second chunk's voxel
    assert!(w.iter().all(|c| (16..=17).contains(&c.position.0)));
}

#[test]
fn voxel_under_cover_is_shaded() {
    let mut m = world();
    m.set_voxel(2, 0, 2, 1);
    m.set_voxel(2, 10, 2, 1);
    let (v, _, _) = mesh(&m, (0, 0, 0), false);
    assert_eq!(v.len(), 48);
    assert!(v[0..24].iter().all(|c| c.color == MIN_BRIGHTNESS));
    assert!(v[24..48].iter().all(|c| c.color == FULL_BRIGHTNESS));
}

#[test]
fn shading_scan_has_fixed_reach() {
    let mut m = world();
    m.set_voxel(2, -10, 2, 1);
    m.set_voxel(2, 17, 2, 1);
    let (v, _, _) = mesh(&m, (0, -1, 0), false);
    // 27 cells up is beyond the scan
    assert!(v.iter().all(|c| c.color == FULL_BRIGHTNESS));
    m.set_voxel(2, 16, 2, 1);
    let (v, _, _) = mesh(&m, (0, -1, 0), false);
    assert!(v.iter().all(|c| c.color == MIN_BRIGHTNESS));
}

#[test]
fn add_quad_writes_up_face() {
    let mut v = Vec::new();
    let mut i = Vec::new();
    let mut s = 8u32;
    add_quad(FaceSide::Up, 200, (1, 2, 3), &mut v, &mut s, &mut i, 7);
    assert_eq!(s, 12);
    assert_eq!(i, vec![8, 9, 11, 9, 10, 11]);
    let positions: Vec<(i32, i32, i32)> = v.iter().map(|c| c.position).collect();
    assert_eq!(positions, vec![(2, 3, 3), (1, 3, 3), (1, 3, 4), (2, 3, 4)]);
    let uvs: Vec<(u8, u8)> = v.iter().map(|c| c.uv_0).collect();
    assert_eq!(uvs, vec![(0, 1), (1, 1), (1, 0), (0, 0)]);
    assert!(v.iter().all(|c| c.color == 200 && c.index == 7 && c.normal == (0, 1, 0)));
}

#[test]
fn add_quad_down_face_winds_backwards() {
    let mut v = Vec::new();
    let mut i = Vec::new();
    let mut s = 0u32;
    add_quad(FaceSide::Down, 1, (0, 0, 0), &mut v, &mut s, &mut i, 0);
    assert_eq!(i, vec![3, 1, 0, 3, 2, 1]);
    let positions: Vec<(i32, i32, i32)> = v.iter().map(|c| c.position).collect();
    assert_eq!(positions, vec![(1, 0, 0), (0, 0, 0), (0, 0, 1), (1, 0, 1)]);
}

#[test]
fn pack_vertex_layout() {
    let c = ChunkVertex { position: (1, 2, 3), normal: (0, -1, 1), color: 127, uv_0: (1, 0), index: 0x1234 };
    let p = c.pack();
    assert_eq!(p.pos, (1, 2, 3));
    assert_eq!(p.normal, (0, -128, 127, 0));
    assert_eq!(p.color, (127, 127, 127, 0));
    assert_eq!(p.uv, (255, 0, 0x12, 0x34));
}
