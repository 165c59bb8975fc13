use raytracing_2d::error::BufferError;
use raytracing_2d::layout::{ElemKind, FieldKind, LayoutDescriptor};
use raytracing_2d::scene::{Cell, Chunk, GpuCamera, chunk_layout, chunks_to_value};
use raytracing_2d::value::{ElemValue, FieldValue, GpuValue, deserialize_value, serialize_value};
use raytracing_2d::vector2::Vector2;
use raytracing_2d::vector3::Vector3;

fn le(x: u32) -> [u8; 4] {
    x.to_le_bytes()
}

#[test]
fn camera_serializes_to_its_exact_sixteen_bytes() {
    let d = GpuCamera::layout(256, 65536).expect("layout");
    let cam = GpuCamera {
        position: Vector2::new(1.5f32.to_bits(), 2.5f32.to_bits()),
        half_height: 3.0f32.to_bits(),
        aspect: 0.75f32.to_bits(),
    };
    let bytes = serialize_value(&d, &cam.to_value()).expect("serialize");
    let mut expected = Vec::new();
    expected.extend_from_slice(&le(1.5f32.to_bits()));
    expected.extend_from_slice(&le(2.5f32.to_bits()));
    expected.extend_from_slice(&le(3.0f32.to_bits()));
    expected.extend_from_slice(&le(0.75f32.to_bits()));
    assert_eq!(bytes, expected);
}

#[test]
fn vec3_fields_are_padded_inside_arrays() {
    // one chunk: 4 cell colors at 16-byte strides (12 bytes of color,
    // 4 of padding), the position at 64, padding up to 80.
    let d = chunk_layout(256, 65536).expect("layout");
    let chunk = Chunk {
        cells: vec![
            Cell { color: Vector3::new(1, 2, 3) },
            Cell { color: Vector3::new(4, 5, 6) },
            Cell { color: Vector3::new(7, 8, 9) },
            Cell { color: Vector3::new(10, 11, 12) },
        ],
        position: Vector2::new(100, 200),
    };
    let value = chunks_to_value(&vec![chunk]);
    let bytes = serialize_value(&d, &value).expect("serialize");
    assert_eq!(bytes.len(), 80);
    let mut expected = Vec::new();
    for base in 0u32..4 {
        for c in 0..3 {
            expected.extend_from_slice(&le(base * 3 + c + 1));
        }
        expected.extend_from_slice(&[0, 0, 0, 0]);
    }
    expected.extend_from_slice(&le(100));
    expected.extend_from_slice(&le(200));
    expected.extend_from_slice(&[0; 8]);
    assert_eq!(bytes, expected);
}

#[test]
fn wrong_shape_is_a_size_mismatch() {
    let d = GpuCamera::layout(256, 65536).expect("layout");
    let wrong = GpuValue { prefix: vec![FieldValue::Scalar(1)], tail: Vec::new() };
    assert_eq!(serialize_value(&d, &wrong).unwrap_err(), BufferError::SizeMismatch);
}

#[test]
fn truncated_bytes_are_a_size_mismatch_when_deserializing() {
    let d = GpuCamera::layout(256, 65536).expect("layout");
    let short = vec![0u8; 12];
    assert_eq!(deserialize_value(&d, &short).unwrap_err(), BufferError::SizeMismatch);
}

#[test]
fn camera_round_trips_bit_for_bit() {
    let d = GpuCamera::layout(256, 65536).expect("layout");
    let cam = GpuCamera {
        position: Vector2::new(0.25f32.to_bits(), (-8.5f32).to_bits()),
        half_height: 123.456f32.to_bits(),
        aspect: 1.25f32.to_bits(),
    };
    let value = cam.to_value();
    let bytes = serialize_value(&d, &value).expect("serialize");
    let back = deserialize_value(&d, &bytes).expect("deserialize");
    assert_eq!(back, value);
}

#[test]
fn chunks_round_trip_element_for_element() {
    let d = chunk_layout(64, 65536).expect("layout");
    let mut chunks = Vec::new();
    for k in 0u32..3 {
        chunks.push(Chunk {
            cells: vec![
                Cell { color: Vector3::new(k, k + 1, k + 2) },
                Cell { color: Vector3::new(k + 3, k + 4, k + 5) },
                Cell { color: Vector3::new(k + 6, k + 7, k + 8) },
                Cell { color: Vector3::new(k + 9, k + 10, k + 11) },
            ],
            position: Vector2::new(k * 10, k * 20),
        });
    }
    let value = chunks_to_value(&chunks);
    let bytes = serialize_value(&d, &value).expect("serialize");
    assert_eq!(bytes.len(), 240);
    let back = deserialize_value(&d, &bytes).expect("deserialize");
    assert_eq!(back, value);
}

#[test]
fn mixed_prefix_and_tail_round_trips() {
    let fields = vec![
        FieldKind::Scalar,
        FieldKind::Array { elem: ElemKind::Vec2, count: 2 },
    ];
    let tail = vec![FieldKind::Vec3, FieldKind::Scalar];
    let d = LayoutDescriptor::new(fields, Some(tail), 256, 65536).expect("layout");
    let value = GpuValue {
        prefix: vec![
            FieldValue::Scalar(7),
            FieldValue::Array(vec![
                ElemValue::Vec2(Vector2::new(1, 2)),
                ElemValue::Vec2(Vector2::new(3, 4)),
            ]),
        ],
        tail: vec![
            vec![FieldValue::Vec3(Vector3::new(9, 8, 7)), FieldValue::Scalar(42)],
            vec![FieldValue::Vec3(Vector3::new(6, 5, 4)), FieldValue::Scalar(43)],
        ],
    };
    let bytes = serialize_value(&d, &value).expect("serialize");
    // prefix: scalar at 0, vec2 array at 8..24, padded to 24; the
    // tail starts at the 256-aligned offset.
    assert_eq!(d.fixed_size, 24);
    let t = d.tail.as_ref().expect("tail");
    assert_eq!(t.offset, 256);
    assert_eq!(t.stride, 16);
    assert_eq!(bytes.len(), 256 + 32);
    let back = deserialize_value(&d, &bytes).expect("deserialize");
    assert_eq!(back, value);
}
