use vstd::prelude::*;

verus! {

/// Declares wgpu's `Device`: the open connection to the graphics
/// device; opaque to verification.
#[verifier::external_type_specification]
#[verifier::external_body]
pub struct ExDevice(wgpu::Device);

/// Declares wgpu's `Queue`: the device's command and transfer queue.
#[verifier::external_type_specification]
#[verifier::external_body]
pub struct ExQueue(wgpu::Queue);

/// Declares wgpu's `Buffer`: a device-owned allocation.
#[verifier::external_type_specification]
#[verifier::external_body]
pub struct ExBuffer(wgpu::Buffer);

/// Declares wgpu's `BindGroup`: a binding object referencing buffers.
#[verifier::external_type_specification]
#[verifier::external_body]
pub struct ExBindGroup(wgpu::BindGroup);

/// Declares wgpu's `BindGroupLayout`: the shape of a binding object.
#[verifier::external_type_specification]
#[verifier::external_body]
pub struct ExBindGroupLayout(wgpu::BindGroupLayout);

/// Declares wgpu's `RenderPipeline`.
#[verifier::external_type_specification]
#[verifier::external_body]
pub struct ExRenderPipeline(wgpu::RenderPipeline);

/// Declares wgpu's `CommandEncoder`: records commands for submission.
#[verifier::external_type_specification]
#[verifier::external_body]
pub struct ExCommandEncoder(wgpu::CommandEncoder);

/// Declares wgpu's `CommandBuffer`: finished, submittable commands.
#[verifier::external_type_specification]
#[verifier::external_body]
pub struct ExCommandBuffer(wgpu::CommandBuffer);

/// Declares wgpu's `Texture`: the render target handed in per frame.
#[verifier::external_type_specification]
#[verifier::external_body]
pub struct ExTexture(wgpu::Texture);

/// Declares wgpu's `TextureView`.
#[verifier::external_type_specification]
#[verifier::external_body]
pub struct ExTextureView(wgpu::TextureView);

/// Declares wgpu's `RenderPass`: a pass being recorded.
#[verifier::external_type_specification]
#[verifier::external_body]
pub struct ExRenderPass<'a>(wgpu::RenderPass<'a>);

/// How a buffer is used by the device; every buffer is also a copy
/// destination so the transfer queue can fill it.
#[derive(Clone, Copy, Debug, PartialEq, Eq, Structural)]
pub enum BufferUsage {
    /// A uniform buffer.
    Uniform,
    /// A storage buffer.
    Storage,
}

/// The resource kind a buffer is bound as.
#[derive(Clone, Copy, Debug, PartialEq, Eq, Structural)]
pub enum BindingKind {
    /// A uniform binding.
    Uniform,
    /// A storage binding.
    Storage { read_only: bool },
}

/// Vertex-stage visibility bit for a binding's mask.
pub const VISIBILITY_VERTEX: u32 = 1;

/// Fragment-stage visibility bit for a binding's mask.
pub const VISIBILITY_FRAGMENT: u32 = 2;

/// Compute-stage visibility bit for a binding's mask.
pub const VISIBILITY_COMPUTE: u32 = 4;

/// What one binding of a bind-group layout needs: its resource kind
/// and the shader stages that may see it. Binding indices are assigned
/// by position, starting at zero.
pub struct LayoutEntryInfo {
    /// The resource kind bound at this slot.
    pub kind: BindingKind,
    /// The shader stages that see this binding.
    pub visibility: u32,
}

/// A device-owned buffer allocation together with its byte capacity.
/// The capacity never changes; growth replaces the whole value.
pub struct RawBuffer {
    /// The device-owned allocation.
    pub handle: wgpu::Buffer,
    /// The byte capacity the allocation was created with.
    pub size: u64,
}

/// Relies on wgpu's `Device::create_buffer`: allocates a buffer of
/// exactly `size` bytes with the given usage (plus copy-destination),
/// not mapped at creation. Exhaustion of device memory is fatal, as an
/// allocation failure of the host allocator is.
#[verifier::external_body]
pub fn create_buffer(device: &wgpu::Device, label: &str, size: u64, usage: BufferUsage) -> (r:
    RawBuffer)
    requires
        size > 0,
    ensures
        r.size == size,
{
    let u = match usage {
        BufferUsage::Uniform => wgpu::BufferUsages::UNIFORM | wgpu::BufferUsages::COPY_DST,
        BufferUsage::Storage => wgpu::BufferUsages::STORAGE | wgpu::BufferUsages::COPY_DST,
    };
    let desc = wgpu::BufferDescriptor { label: Some(label), size, usage: u, mapped_at_creation: false };
    RawBuffer { handle: device.create_buffer(&desc), size }
}

/// Relies on wgpu's `Queue::write_buffer`: schedules a copy of `data`
/// into the buffer at offset zero. The queue requires the write to be
/// in bounds and a multiple of the copy alignment of 4.
#[verifier::external_body]
pub fn write_raw_buffer(queue: &wgpu::Queue, buf: &RawBuffer, data: &Vec<u8>)
    requires
        data@.len() <= buf.size,
        data@.len() % 4 == 0,
{
    queue.write_buffer(&buf.handle, 0, data.as_slice());
}

/// Relies on wgpu's `Device::create_bind_group_layout`: builds the
/// layout object whose binding `i` is the buffer binding described by
/// `entries[i]`, visible to the stages in its mask.
#[verifier::external_body]
pub fn create_bind_group_layout(device: &wgpu::Device, label: &str, entries: &Vec<
    LayoutEntryInfo,
>) -> wgpu::BindGroupLayout {
    let es: Vec<wgpu::BindGroupLayoutEntry> = entries.iter().enumerate().map(|(i, e)| {
        let ty = match e.kind {
            BindingKind::Uniform => wgpu::BufferBindingType::Uniform,
            BindingKind::Storage { read_only } => wgpu::BufferBindingType::Storage { read_only },
        };
        let ty = wgpu::BindingType::Buffer { ty, has_dynamic_offset: false, min_binding_size: None };
        let visibility = wgpu::ShaderStages::from_bits_truncate(e.visibility);
        wgpu::BindGroupLayoutEntry { binding: i as u32, visibility, ty, count: None }
    }).collect();
    let desc = wgpu::BindGroupLayoutDescriptor { label: Some(label), entries: &es };
    device.create_bind_group_layout(&desc)
}

/// Relies on wgpu's `Device::create_bind_group`: builds the binding
/// object whose binding `i` references the whole of `buffers[i]`.
#[verifier::external_body]
pub fn create_bind_group<'a>(
    device: &wgpu::Device,
    label: &str,
    layout: &wgpu::BindGroupLayout,
    buffers: &Vec<&'a wgpu::Buffer>,
) -> wgpu::BindGroup {
    let es: Vec<wgpu::BindGroupEntry> = buffers.iter().enumerate().map(|(i, b)| {
        wgpu::BindGroupEntry { binding: i as u32, resource: b.as_entire_binding() }
    }).collect();
    let desc = wgpu::BindGroupDescriptor { label: Some(label), layout, entries: &es };
    device.create_bind_group(&desc)
}

/// Relies on wgpu's `Device::create_command_encoder`.
#[verifier::external_body]
pub fn create_command_encoder(device: &wgpu::Device, label: &str) -> wgpu::CommandEncoder {
    device.create_command_encoder(&wgpu::CommandEncoderDescriptor { label: Some(label) })
}

/// Relies on wgpu's `Texture::create_view` with default settings.
#[verifier::external_body]
pub fn texture_view(texture: &wgpu::Texture) -> wgpu::TextureView {
    texture.create_view(&wgpu::TextureViewDescriptor::default())
}

/// Relies on wgpu's `CommandEncoder::begin_render_pass`: starts a
/// pass that clears the target view and stores the drawn result.
#[verifier::external_body]
pub fn begin_render_pass(encoder: &mut wgpu::CommandEncoder, view: &wgpu::TextureView, label: &str)
    -> wgpu::RenderPass<'static> {
    let ops = wgpu::Operations { load: wgpu::LoadOp::Clear(wgpu::Color::BLACK), store: wgpu::StoreOp::Store };
    let att = wgpu::RenderPassColorAttachment { view, depth_slice: None, resolve_target: None, ops };
    encoder.begin_render_pass(&wgpu::RenderPassDescriptor {
        label: Some(label),
        color_attachments: &[Some(att)],
        depth_stencil_attachment: None,
        timestamp_writes: None,
        occlusion_query_set: None,
        multiview_mask: None,
    }).forget_lifetime()
}

/// Relies on wgpu's `RenderPass::set_pipeline`.
#[verifier::external_body]
pub fn set_pipeline(pass: &mut wgpu::RenderPass<'static>, pipeline: &wgpu::RenderPipeline) {
    pass.set_pipeline(pipeline);
}

/// Relies on wgpu's `RenderPass::set_bind_group`, with no dynamic
/// offsets.
#[verifier::external_body]
pub fn set_bind_group(pass: &mut wgpu::RenderPass<'static>, index: u32, group: &wgpu::BindGroup) {
    pass.set_bind_group(index, group, &[]);
}

/// Relies on wgpu's `RenderPass::draw`: draws `vertices` vertices of
/// `instances` instances.
#[verifier::external_body]
pub fn draw(pass: &mut wgpu::RenderPass<'static>, vertices: u32, instances: u32) {
    pass.draw(0..vertices, 0..instances);
}

/// Relies on wgpu's `CommandEncoder::finish`.
#[verifier::external_body]
pub fn finish_encoder(encoder: wgpu::CommandEncoder) -> wgpu::CommandBuffer {
    encoder.finish()
}

/// Relies on wgpu's `Queue::submit`, with one command buffer.
#[verifier::external_body]
pub fn submit_one(queue: &wgpu::Queue, commands: wgpu::CommandBuffer) {
    queue.submit(core::iter::once(commands));
}

} // verus!
