use raytracing_2d::error::BufferError;
use raytracing_2d::layout::{ElemKind, FieldKind, LayoutDescriptor};
use raytracing_2d::scene::GpuCamera;
use raytracing_2d::vector2::Vector2;

#[test]
fn camera_layout_has_packed_offsets() {
    let d = GpuCamera::layout(256, 65536).expect("camera layout");
    assert_eq!(d.fixed_size, 16);
    assert_eq!(d.offsets, vec![0, 8, 12]);
    assert!(d.tail.is_none());
}

#[test]
fn scalar_after_vec3_is_padded_to_vec3_alignment() {
    let fields = vec![FieldKind::Scalar, FieldKind::Vec3, FieldKind::Scalar];
    let d = LayoutDescriptor::new(fields, None, 256, 65536).expect("layout");
    // the vec3 must start on a 16-byte boundary, the trailing scalar
    // right after it, and the struct is padded to 16.
    assert_eq!(d.offsets, vec![0, 16, 28]);
    assert_eq!(d.fixed_size, 32);
}

#[test]
fn tail_offset_is_aligned_and_past_the_prefix() {
    for alignment in [1u64, 2, 4, 32, 64, 256, 1024] {
        let fields = vec![FieldKind::Vec3];
        let tail = vec![FieldKind::Scalar];
        let d = LayoutDescriptor::new(fields, Some(tail), alignment, 65536).expect("layout");
        let t = d.tail.as_ref().expect("tail");
        assert_eq!(t.offset % alignment, 0);
        assert!(t.offset >= d.fixed_size);
    }
}

#[test]
fn array_field_takes_one_stride_per_element() {
    let fields = vec![FieldKind::Array { elem: ElemKind::Vec3, count: 5 }, FieldKind::Scalar];
    let d = LayoutDescriptor::new(fields, None, 256, 65536).expect("layout");
    assert_eq!(d.offsets, vec![0, 80]);
    assert_eq!(d.fixed_size, 96);
}

#[test]
fn oversized_fixed_prefix_is_a_layout_overflow() {
    // a fixed prefix larger than the configured maximum is rejected
    // and nothing is built.
    let r = GpuCamera::layout(256, 8);
    assert_eq!(r.unwrap_err(), BufferError::LayoutOverflow);

    let fields = vec![FieldKind::Array { elem: ElemKind::Vec3, count: 1024 }];
    let r = LayoutDescriptor::new(fields, None, 256, 1024);
    assert_eq!(r.unwrap_err(), BufferError::LayoutOverflow);
}

#[test]
fn unrepresentable_sizes_are_a_capacity_overflow() {
    let fields = vec![FieldKind::Array { elem: ElemKind::Vec3, count: u64::MAX / 8 }];
    let r = LayoutDescriptor::new(fields, None, 256, u64::MAX);
    assert_eq!(r.unwrap_err(), BufferError::CapacityOverflow);
}

#[test]
fn camera_layout_respects_the_configured_maximum_boundary() {
    assert!(GpuCamera::layout(256, 16).is_ok());
    assert_eq!(GpuCamera::layout(256, 15).unwrap_err(), BufferError::LayoutOverflow);
}

#[test]
fn vector_components_round_trip_through_arrays() {
    let v = Vector2::new(3u32, 9u32);
    let a: [u32; 2] = v.into_array();
    assert_eq!(a, [3, 9]);
    let w: Vector2<u32> = Vector2::from_array(a);
    assert_eq!(w, v);
    let s = v.add(Vector2::new(1, 1));
    assert_eq!((s.x, s.y), (4, 10));
}
