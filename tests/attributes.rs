use prism_voxel::volume::{Attribute, AttributeFormat, AttributeLayout, U8vec3, Volume};

#[test]
fn attribute_sizes() {
    let a = Attribute::new::<U8vec3>(4, "albedo_compact".to_string());
    assert_eq!(a.total_size_in_bytes(), 12);
    let b = Attribute::new::<u32>(5, "id".to_string());
    assert_eq!(b.total_size_in_bytes(), 20);
    assert_eq!(AttributeFormat::get_size_for(AttributeFormat::U8), 1);
    assert_eq!(AttributeFormat::get_size_for(AttributeFormat::U8x3), 3);
    assert_eq!(AttributeFormat::get_size_for(AttributeFormat::U16), 2);
    assert_eq!(AttributeFormat::get_size_for(AttributeFormat::U32), 4);
}

#[test]
fn attribute_rename_keeps_sizes() {
    let mut a = Attribute::new::<u16>(8, "normal".to_string());
    assert_eq!(a.name(), "normal");
    a.set_name("normal_compact");
    assert_eq!(a.name(), "normal_compact");
    assert_eq!(a.total_size_in_bytes(), 16);
    assert_eq!(U8vec3::new(1, 2, 3).xyz(), (1, 2, 3));
}

#[test]
fn new_volume_has_zeroed_buffers() {
    let layout = AttributeLayout {
        layout: vec![
            Attribute::new::<U8vec3>(4, "albedo_compact".to_string()),
            Attribute::new::<u16>(4, "type".to_string()),
        ],
    };
    let v = Volume::get_new_volume(&layout);
    assert_eq!(v.get_buffer(0).unwrap(), &vec![0u8; 12]);
    assert_eq!(v.get_buffer(1).unwrap(), &vec![0u8; 8]);
    assert!(v.get_buffer(2).is_none());
}
