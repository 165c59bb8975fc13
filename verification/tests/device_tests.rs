use raytracing_2d::buffers::{DynamicBuffer, FixedSizeBuffer, GrowthEvent};
use raytracing_2d::error::BufferError;
use raytracing_2d::gpu::{BindingKind, BufferUsage, VISIBILITY_FRAGMENT};
use raytracing_2d::group::{BufferCreationInfo, BufferGroup, MemberBuffer};
use raytracing_2d::layout::{FieldKind, LayoutDescriptor};
use raytracing_2d::scene::{Cell, Chunk, GpuCamera};
use raytracing_2d::state::State;
use raytracing_2d::value::{FieldValue, GpuValue};
use raytracing_2d::vector2::Vector2;
use raytracing_2d::vector3::Vector3;

fn device_and_queue() -> (wgpu::Device, wgpu::Queue) {
    let mut desc = wgpu::InstanceDescriptor::new_without_display_handle();
    desc.backends = wgpu::Backends::NOOP;
    desc.backend_options.noop = wgpu::NoopBackendOptions::enabled();
    let instance = wgpu::Instance::new(desc);
    let adapter = pollster::block_on(instance.request_adapter(&wgpu::RequestAdapterOptions {
        power_preference: wgpu::PowerPreference::HighPerformance,
        ..Default::default()
    }))
    .expect("an adapter should be available");
    pollster::block_on(adapter.request_device(&wgpu::DeviceDescriptor::default()))
        .expect("a device should be available")
}

fn scalar_run_layout() -> LayoutDescriptor {
    LayoutDescriptor::new(Vec::new(), Some(vec![FieldKind::Scalar]), 256, 65536)
        .expect("layout")
}

fn scalar_run(values: &[u32]) -> GpuValue {
    GpuValue {
        prefix: Vec::new(),
        tail: values.iter().map(|v| vec![FieldValue::Scalar(*v)]).collect(),
    }
}

fn chunk(seed: u32) -> Chunk {
    Chunk {
        cells: vec![
            Cell { color: Vector3::new(seed, seed + 1, seed + 2) },
            Cell { color: Vector3::new(seed + 3, seed + 4, seed + 5) },
            Cell { color: Vector3::new(seed + 6, seed + 7, seed + 8) },
            Cell { color: Vector3::new(seed + 9, seed + 10, seed + 11) },
        ],
        position: Vector2::new(seed, seed),
    }
}

fn camera() -> GpuCamera {
    GpuCamera {
        position: Vector2::new(0.0f32.to_bits(), 0.0f32.to_bits()),
        half_height: 2.0f32.to_bits(),
        aspect: 1.0f32.to_bits(),
    }
}

#[test]
fn fixed_buffer_accepts_only_its_shape() {
    let (device, queue) = device_and_queue();
    let layout = GpuCamera::layout(256, 65536).expect("layout");
    let buf = FixedSizeBuffer::new(
        &device,
        &queue,
        "Camera Buffer",
        BufferUsage::Uniform,
        layout,
        &camera().to_value(),
    )
    .expect("fixed buffer");
    assert!(buf.write(&queue, &camera().to_value()).is_ok());
    let wrong = GpuValue { prefix: vec![FieldValue::Scalar(0)], tail: Vec::new() };
    assert_eq!(buf.write(&queue, &wrong).unwrap_err(), BufferError::SizeMismatch);
}

#[test]
fn dynamic_buffer_starts_exact_fit() {
    let (device, queue) = device_and_queue();
    let layout = scalar_run_layout();
    let buf = DynamicBuffer::new(
        &device,
        &queue,
        "Run Buffer".to_string(),
        BufferUsage::Storage,
        layout,
        &scalar_run(&[1, 2, 3]),
    )
    .expect("dynamic buffer");
    assert_eq!(buf.capacity(), 12);
    assert_eq!(buf.alloc_count, 1);
    assert_eq!(buf.generation, 0);
}

#[test]
fn same_value_twice_allocates_exactly_once() {
    // writing the same value twice: the creation allocates, the
    // second write does not.
    let (device, queue) = device_and_queue();
    let layout = scalar_run_layout();
    let value = scalar_run(&[5, 6, 7, 8]);
    let mut buf = DynamicBuffer::new(
        &device,
        &queue,
        "Run Buffer".to_string(),
        BufferUsage::Storage,
        layout,
        &value,
    )
    .expect("dynamic buffer");
    assert_eq!(buf.alloc_count, 1);
    let ev = buf.write(&device, &queue, &value).expect("write");
    assert_eq!(ev, GrowthEvent::Unchanged);
    assert_eq!(buf.alloc_count, 1);
    let ev = buf.write(&device, &queue, &value).expect("write");
    assert_eq!(ev, GrowthEvent::Unchanged);
    assert_eq!(buf.alloc_count, 1);
    assert_eq!(buf.capacity(), 16);
}

#[test]
fn capacity_is_monotonic_across_writes() {
    let (device, queue) = device_and_queue();
    let layout = scalar_run_layout();
    let mut buf = DynamicBuffer::new(
        &device,
        &queue,
        "Run Buffer".to_string(),
        BufferUsage::Storage,
        layout,
        &scalar_run(&[1, 2]),
    )
    .expect("dynamic buffer");
    let lens: [usize; 5] = [5, 1, 7, 3, 7];
    let mut max_seen = 8;
    for n in lens {
        let vals: Vec<u32> = (0..n as u32).collect();
        buf.write(&device, &queue, &scalar_run(&vals)).expect("write");
        max_seen = max_seen.max(4 * n as u64);
        assert_eq!(buf.capacity(), max_seen);
    }
}

#[test]
fn growth_is_reported_and_exact_and_rebinds() {
    // a buffer created from a 2-element run, then written with a
    // 4-element run: growth is reported, the new capacity is exactly
    // the new serialized length, and the group's binding is rebuilt
    // to the new allocation.
    let (device, queue) = device_and_queue();
    let layout = scalar_run_layout();
    let buf = DynamicBuffer::new(
        &device,
        &queue,
        "Run Buffer".to_string(),
        BufferUsage::Storage,
        layout,
        &scalar_run(&[1, 2]),
    )
    .expect("dynamic buffer");
    assert_eq!(buf.capacity(), 8);
    let mut group = BufferGroup::new(
        &device,
        "Run Bind Group".to_string(),
        vec![BufferCreationInfo {
            buffer: MemberBuffer::Dynamic(buf),
            binding_kind: BindingKind::Storage { read_only: true },
            visibility: VISIBILITY_FRAGMENT,
        }],
    );
    assert_eq!(group.bound_generations, vec![0]);
    let ev = group.write(&device, &queue, &vec![Some(scalar_run(&[1, 2, 3, 4]))]);
    assert_eq!(ev, GrowthEvent::Reallocated);
    match &group.members[0].buffer {
        MemberBuffer::Dynamic(b) => {
            assert_eq!(b.capacity(), 16);
            assert_eq!(b.generation, 1);
        }
        MemberBuffer::Fixed(_) => panic!("expected a growable member"),
    }
    assert_eq!(group.bound_generations, vec![1]);
    assert_eq!(group.rebuild_count(), 1);
}

#[test]
fn unchanged_length_does_not_rebuild_the_binding() {
    // two frames with the same serialized length: the binding object
    // is not reconstructed, observed through the rebuild counter.
    let (device, queue) = device_and_queue();
    let layout = scalar_run_layout();
    let buf = DynamicBuffer::new(
        &device,
        &queue,
        "Run Buffer".to_string(),
        BufferUsage::Storage,
        layout,
        &scalar_run(&[9, 9, 9]),
    )
    .expect("dynamic buffer");
    let mut group = BufferGroup::new(
        &device,
        "Run Bind Group".to_string(),
        vec![BufferCreationInfo {
            buffer: MemberBuffer::Dynamic(buf),
            binding_kind: BindingKind::Storage { read_only: true },
            visibility: VISIBILITY_FRAGMENT,
        }],
    );
    let ev = group.write(&device, &queue, &vec![Some(scalar_run(&[7, 7, 7]))]);
    assert_eq!(ev, GrowthEvent::Unchanged);
    let ev = group.write(&device, &queue, &vec![Some(scalar_run(&[8, 8, 8]))]);
    assert_eq!(ev, GrowthEvent::Unchanged);
    assert_eq!(group.rebuild_count(), 0);
    assert_eq!(group.bound_generations, vec![0]);
}

#[test]
fn skipped_members_are_left_alone() {
    let (device, queue) = device_and_queue();
    let layout = scalar_run_layout();
    let buf = DynamicBuffer::new(
        &device,
        &queue,
        "Run Buffer".to_string(),
        BufferUsage::Storage,
        layout,
        &scalar_run(&[1]),
    )
    .expect("dynamic buffer");
    let mut group = BufferGroup::new(
        &device,
        "Run Bind Group".to_string(),
        vec![BufferCreationInfo {
            buffer: MemberBuffer::Dynamic(buf),
            binding_kind: BindingKind::Storage { read_only: true },
            visibility: VISIBILITY_FRAGMENT,
        }],
    );
    let ev = group.write(&device, &queue, &vec![None]);
    assert_eq!(ev, GrowthEvent::Unchanged);
    assert_eq!(group.rebuild_count(), 0);
    match &group.members[0].buffer {
        MemberBuffer::Dynamic(b) => assert_eq!(b.capacity(), 4),
        MemberBuffer::Fixed(_) => panic!("expected a growable member"),
    }
}

#[test]
fn state_tracks_scene_growth_across_frames() {
    let (device, queue) = device_and_queue();
    let mut state = State::new(&device, &queue, 256, 65536, &camera(), vec![chunk(1)])
        .expect("state");
    let pipeline = build_pipeline(&device, &state);
    state.attach_pipeline(pipeline);
    let texture = target_texture(&device);

    // frame 1: same scene, nothing grows, nothing is rebuilt.
    state.render(&device, &queue, &texture, &camera());
    assert_eq!(state.chunk_buffer.rebuild_count(), 0);
    assert_eq!(state.camera_buffer.rebuild_count(), 0);

    // a bigger scene outgrows the buffer on the next frame.
    state.set_chunks(vec![chunk(1), chunk(20), chunk(40)]).expect("scene");
    state.render(&device, &queue, &texture, &camera());
    assert_eq!(state.chunk_buffer.rebuild_count(), 1);
    assert_eq!(state.camera_buffer.rebuild_count(), 0);

    // same scene again: capacity is kept, nothing is rebuilt.
    state.render(&device, &queue, &texture, &camera());
    assert_eq!(state.chunk_buffer.rebuild_count(), 1);
    match &state.chunk_buffer.members[0].buffer {
        MemberBuffer::Dynamic(b) => assert_eq!(b.capacity(), 240),
        MemberBuffer::Fixed(_) => panic!("expected a growable member"),
    }
}

#[test]
fn malformed_chunks_are_rejected_without_change() {
    let (device, queue) = device_and_queue();
    let mut state = State::new(&device, &queue, 256, 65536, &camera(), vec![chunk(1)])
        .expect("state");
    let bad = Chunk { cells: vec![Cell { color: Vector3::new(1, 2, 3) }], position: Vector2::new(0, 0) };
    assert_eq!(state.set_chunks(vec![bad]).unwrap_err(), BufferError::SizeMismatch);
    assert_eq!(state.chunks.len(), 1);
}

const SHADER: &str = "
struct Camera {
    position: vec2<f32>,
    half_height: f32,
    aspect: f32,
};
struct Chunk {
    cells: array<vec3<f32>, 4>,
    position: vec2<f32>,
};
@group(0) @binding(0) var<uniform> camera: Camera;
@group(1) @binding(0) var<storage, read> chunks: array<Chunk>;

@vertex
fn vertex(@builtin(vertex_index) i: u32) -> @builtin(position) vec4<f32> {
    let x = f32(i32(i & 1u) * 2 - 1);
    let y = f32(i32(i >> 1u) * 2 - 1);
    return vec4<f32>(x, y, 0.0, 1.0);
}

@fragment
fn fragment(@builtin(position) p: vec4<f32>) -> @location(0) vec4<f32> {
    let c = chunks[0].cells[0] * camera.half_height;
    return vec4<f32>(c + vec3<f32>(camera.position, 0.0), 1.0);
}
";

fn build_pipeline(device: &wgpu::Device, state: &State) -> wgpu::RenderPipeline {
    let shader = device.create_shader_module(wgpu::ShaderModuleDescriptor {
        label: Some("Ray Tracing Shader"),
        source: wgpu::ShaderSource::Wgsl(SHADER.into()),
    });
    let layout = device.create_pipeline_layout(&wgpu::PipelineLayoutDescriptor {
        label: Some("Ray Tracing Render Pipeline Layout"),
        bind_group_layouts: &[Some(state.camera_layout_object()), Some(state.chunk_layout_object())],
        immediate_size: 0,
    });
    device.create_render_pipeline(&wgpu::RenderPipelineDescriptor {
        label: Some("Ray Tracing Render Pipeline"),
        layout: Some(&layout),
        vertex: wgpu::VertexState {
            module: &shader,
            entry_point: Some("vertex"),
            buffers: &[],
            compilation_options: wgpu::PipelineCompilationOptions::default(),
        },
        fragment: Some(wgpu::FragmentState {
            module: &shader,
            entry_point: Some("fragment"),
            targets: &[Some(wgpu::ColorTargetState {
                format: wgpu::TextureFormat::Bgra8Unorm,
                blend: Some(wgpu::BlendState {
                    color: wgpu::BlendComponent::REPLACE,
                    alpha: wgpu::BlendComponent::REPLACE,
                }),
                write_mask: wgpu::ColorWrites::ALL,
            })],
            compilation_options: wgpu::PipelineCompilationOptions::default(),
        }),
        primitive: wgpu::PrimitiveState {
            topology: wgpu::PrimitiveTopology::TriangleStrip,
            ..Default::default()
        },
        depth_stencil: None,
        multisample: wgpu::MultisampleState::default(),
        multiview_mask: None,
        cache: None,
    })
}

fn target_texture(device: &wgpu::Device) -> wgpu::Texture {
    device.create_texture(&wgpu::TextureDescriptor {
        label: Some("Target"),
        size: wgpu::Extent3d { width: 64, height: 64, depth_or_array_layers: 1 },
        mip_level_count: 1,
        sample_count: 1,
        dimension: wgpu::TextureDimension::D2,
        format: wgpu::TextureFormat::Bgra8Unorm,
        usage: wgpu::TextureUsages::RENDER_ATTACHMENT,
        view_formats: &[],
    })
}

#[test]
fn rejected_write_leaves_the_buffer_untouched() {
    let (device, queue) = device_and_queue();
    let layout = scalar_run_layout();
    let mut buf = DynamicBuffer::new(
        &device,
        &queue,
        "Run Buffer".to_string(),
        BufferUsage::Storage,
        layout,
        &scalar_run(&[1, 2, 3]),
    )
    .expect("dynamic buffer");
    let wrong = GpuValue { prefix: vec![FieldValue::Scalar(1)], tail: Vec::new() };
    let r = buf.write(&device, &queue, &wrong);
    assert_eq!(r.unwrap_err(), BufferError::SizeMismatch);
    assert_eq!(buf.capacity(), 12);
    assert_eq!(buf.alloc_count, 1);
    assert_eq!(buf.generation, 0);
}
