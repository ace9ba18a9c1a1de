use prism_voxel::instancing::{DrawIndexedIndirect, ModelInstance, ModelInstanceList};
use prism_voxel::mesh::{AllocError, SharedMesh, SubMeshHandel};

fn mesh(vertices: usize, indices: usize) -> SharedMesh {
    SharedMesh::new("test".to_string(), 16, (vertices, indices))
}

#[test]
fn overlap_detects_each_case() {
    // w starts inside r
    assert!(SubMeshHandel::overlap(5, 15, 0, 10));
    // w ends inside r
    assert!(SubMeshHandel::overlap(0, 5, 3, 10));
    // w contains r
    assert!(SubMeshHandel::overlap(0, 20, 5, 10));
    // touching ranges do not overlap
    assert!(!SubMeshHandel::overlap(10, 15, 0, 10));
    assert!(!SubMeshHandel::overlap(0, 10, 10, 15));
    assert!(!SubMeshHandel::overlap(0, 5, 6, 10));
}

#[test]
fn first_handle_goes_to_zero() {
    let mut m = mesh(100, 100);
    let a = m.get_handel(&[0u8; 10], &[0u32; 12]).unwrap();
    let h = m.handel(a).unwrap();
    assert_eq!(h, SubMeshHandel { vertex_start: 0, vertex_length: 10, index_start: 0, index_length: 12 });
    assert_eq!(m.vertex_byte_offset(a), Some(0));
    assert_eq!(m.index_byte_offset(a), Some(0));
}

#[test]
fn second_handle_goes_after_first() {
    let mut m = mesh(100, 100);
    let _a = m.get_handel(&[0u8; 10], &[0u32; 12]).unwrap();
    let b = m.get_handel(&[0u8; 5], &[0u32; 6]).unwrap();
    let h = m.handel(b).unwrap();
    assert_eq!(h.vertex_start, 10);
    assert_eq!(h.index_start, 12);
    assert_eq!(m.vertex_byte_offset(b), Some(160));
    assert_eq!(m.index_byte_offset(b), Some(48));
}

#[test]
fn placement_reuses_freed_gap() {
    let mut m = mesh(100, 100);
    let a = m.get_handel(&[0u8; 10], &[0u32; 10]).unwrap();
    let b = m.get_handel(&[0u8; 5], &[0u32; 5]).unwrap();
    assert!(m.remove_handel(a));
    let c = m.get_handel(&[0u8; 8], &[0u32; 8]).unwrap();
    assert_eq!(m.handel(c).unwrap().vertex_start, 0);
    assert_eq!(m.handel(c).unwrap().index_start, 0);
    assert_eq!(m.handel(b).unwrap().vertex_start, 10);
}

#[test]
fn placement_skips_too_small_gap() {
    let mut m = mesh(100, 100);
    let a = m.get_handel(&[0u8; 4], &[0u32; 4]).unwrap();
    let _b = m.get_handel(&[0u8; 6], &[0u32; 6]).unwrap();
    assert!(m.remove_handel(a));
    let c = m.get_handel(&[0u8; 5], &[0u32; 3]).unwrap();
    // five vertices do not fit in the four freed ones; three indices do
    assert_eq!(m.handel(c).unwrap().vertex_start, 10);
    assert_eq!(m.handel(c).unwrap().index_start, 0);
}

#[test]
fn live_handles_never_overlap() {
    let mut m = mesh(1000, 1000);
    let mut ids = vec![];
    for n in 1..12usize {
        ids.push(m.get_handel(&vec![0u8; n * 3], &vec![0u32; n * 5]).unwrap());
    }
    for k in [1usize, 4, 5, 8] {
        assert!(m.remove_handel(ids[k]));
    }
    for n in 1..6usize {
        ids.push(m.get_handel(&vec![0u8; n * 4], &vec![0u32; n * 2]).unwrap());
    }
    let live = m.live_handels();
    for (i, a) in live.iter().enumerate() {
        for b in live.iter().skip(i + 1) {
            let ha = m.handel(*a).unwrap();
            let hb = m.handel(*b).unwrap();
            assert!(!SubMeshHandel::overlap(
                ha.vertex_start,
                ha.vertex_start + ha.vertex_length,
                hb.vertex_start,
                hb.vertex_start + hb.vertex_length
            ));
            assert!(!SubMeshHandel::overlap(
                ha.index_start,
                ha.index_start + ha.index_length,
                hb.index_start,
                hb.index_start + hb.index_length
            ));
        }
    }
}

#[test]
fn empty_mesh_is_refused() {
    let mut m = mesh(100, 100);
    assert_eq!(m.get_handel::<u8>(&[], &[0u32; 3]), Err(AllocError::EmptyMesh));
    assert_eq!(m.get_handel(&[0u8; 3], &[]), Err(AllocError::EmptyMesh));
    assert!(m.live_handels().is_empty());
}

#[test]
fn full_buffer_is_refused() {
    let mut m = mesh(20, 20);
    let _a = m.get_handel(&[0u8; 15], &[0u32; 5]).unwrap();
    assert_eq!(m.get_handel(&[0u8; 6], &[0u32; 5]), Err(AllocError::BufferFull));
    assert_eq!(m.get_handel(&[0u8; 21], &[0u32; 1]), Err(AllocError::BufferFull));
    let b = m.get_handel(&[0u8; 5], &[0u32; 15]).unwrap();
    assert_eq!(m.handel(b).unwrap().vertex_start, 15);
    assert_eq!(m.live_handels(), vec![0, 1]);
}

#[test]
fn remove_twice_reports_false() {
    let mut m = mesh(100, 100);
    let a = m.get_handel(&[0u8; 3], &[0u32; 3]).unwrap();
    assert!(m.remove_handel(a));
    assert!(!m.remove_handel(a));
    assert!(!m.remove_handel(7));
    assert!(!m.is_live_handel(a));
    // the record stays readable after removal
    assert_eq!(m.handel(a).unwrap().vertex_length, 3);
    assert_eq!(m.vertex_byte_offset(a), None);
}

#[test]
fn update_model_replaces_ranges() {
    let mut m = mesh(100, 100);
    let a = m.get_handel(&[0u8; 4], &[0u32; 4]).unwrap();
    let _b = m.get_handel(&[0u8; 4], &[0u32; 4]).unwrap();
    // growing: the old range of `a` is freed first, but 6 does not fit before `b`
    m.update_model(a, &[0u8; 6], &[0u32; 2]).unwrap();
    let h = m.handel(a).unwrap();
    assert_eq!(h, SubMeshHandel { vertex_start: 8, vertex_length: 6, index_start: 0, index_length: 2 });
    assert_eq!(m.update_model(9, &[0u8; 1], &[0u32; 1]), Err(AllocError::UnknownHandle));
    assert_eq!(m.update_model(a, &[0u8; 95], &[0u32; 1]), Err(AllocError::BufferFull));
    assert_eq!(m.handel(a).unwrap(), h);
    assert_eq!(m.update_model::<u8>(a, &[], &[0u32; 1]), Err(AllocError::EmptyMesh));
}

#[test]
fn flat_push_appends() {
    let mut m = mesh(10, 10);
    let (h, vo, io) = m.flap_push(&[0u8; 4], &[0u32; 6]).unwrap();
    assert_eq!(h, SubMeshHandel { vertex_start: 0, vertex_length: 4, index_start: 0, index_length: 6 });
    assert_eq!((vo, io), (0, 0));
    let (_, vo, io) = m.flap_push(&[0u8; 4], &[0u32; 2]).unwrap();
    assert_eq!((vo, io), (64, 24));
    assert_eq!(m.flap_push(&[0u8; 3], &[0u32; 1]), Err(AllocError::BufferFull));
}

#[test]
fn buffer_sizes_in_bytes() {
    let m = mesh(100, 50);
    assert_eq!(m.buffer_bytes(), (1600, 200));
    assert_eq!(m.name(), "test");
}

#[test]
fn draw_list_reads_current_placement() {
    let mut m = mesh(100, 100);
    let a = m.get_handel(&[0u8; 10], &[0u32; 12]).unwrap();
    let b = m.get_handel(&[0u8; 5], &[0u32; 6]).unwrap();
    let mut list = ModelInstanceList {
        instance_list: vec![ModelInstance { mesh: b, inst_index: 9 }, ModelInstance { mesh: a, inst_index: 9 }],
    };
    list.assign_instance_indices();
    assert_eq!(list.instance_list[0].inst_index, 0);
    assert_eq!(list.instance_list[1].inst_index, 1);
    let draws = list.to_draw_indirect_list(&m).unwrap();
    assert_eq!(
        draws.draw_indirect,
        vec![
            DrawIndexedIndirect { vertex_count: 6, instance_count: 1, base_index: 12, vertex_offset: 10, base_instance: 0 },
            DrawIndexedIndirect { vertex_count: 12, instance_count: 1, base_index: 0, vertex_offset: 0, base_instance: 1 },
        ]
    );
    m.update_model(a, &[0u8; 20], &[0u32; 3]).unwrap();
    let draws = list.to_draw_indirect_list(&m).unwrap();
    assert_eq!(draws.draw_indirect[1].vertex_offset, 15);
    assert_eq!(draws.draw_indirect[1].base_index, 0);
    assert_eq!(draws.draw_indirect[1].vertex_count, 3);
    let unknown = ModelInstanceList { instance_list: vec![ModelInstance { mesh: 5, inst_index: 0 }] };
    assert!(unknown.to_draw_indirect_list(&m).is_none());
}
