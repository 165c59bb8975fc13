use vstd::prelude::*;
use vstd::string::StringExecFns;
use crate::buffers::{DynamicBuffer, FixedSizeBuffer, spec_grown_capacity};
use crate::error::BufferError;
use crate::gpu::{
    BindingKind, BufferUsage, VISIBILITY_FRAGMENT, begin_render_pass, create_command_encoder,
    draw, finish_encoder, set_bind_group, set_pipeline, submit_one, texture_view,
};
use crate::group::{
    BufferCreationInfo, BufferGroup, MemberBuffer, any_member_grows, member_grows,
    member_write_ok,
};
use crate::layout::{FieldKind, is_power_of_two};
use crate::scene::{
    CHUNK_CELLS, Chunk, GpuCamera, camera_fields, chunk_fields, chunk_layout, chunks_to_value,
    lemma_chunk_size,
};
use crate::value::GpuValue;

verus! {

/// The per-frame orchestrator: owns the camera and scene buffer
/// groups and, each frame, writes them before recording the pass that
/// consumes their bindings, so a pass never references a replaced
/// allocation.
pub struct State {
    /// The camera uniform, one fixed-size buffer.
    pub camera_buffer: BufferGroup,
    /// The scene data; its length drives the chunk buffer's growth.
    pub chunks: Vec<Chunk>,
    /// The chunk storage, one growable buffer.
    pub chunk_buffer: BufferGroup,
    /// The render pipeline, attached by the embedder after it builds
    /// it against the groups' layouts.
    pub pipeline: Option<wgpu::RenderPipeline>,
}

impl State {
    /// The camera group holds exactly one fixed-size buffer of the
    /// camera's shape.
    pub open spec fn camera_group_wf(self) -> bool {
        &&& self.camera_buffer.wf()
        &&& self.camera_buffer.members@.len() == 1
        &&& match self.camera_buffer.members@[0].buffer {
            MemberBuffer::Fixed(b) => {
                &&& b.layout.fields@ == camera_fields()
                &&& !b.layout.has_tail()
                &&& b.layout.fixed_size == 16
            },
            MemberBuffer::Dynamic(_) => false,
        }
    }

    /// The chunk group holds exactly one growable buffer of chunk
    /// records, and the current scene still fits the address space.
    pub open spec fn chunk_group_wf(self) -> bool {
        &&& self.chunk_buffer.wf()
        &&& self.chunk_buffer.members@.len() == 1
        &&& match self.chunk_buffer.members@[0].buffer {
            MemberBuffer::Dynamic(b) => {
                &&& b.layout.has_tail()
                &&& b.layout.fields@ == Seq::<FieldKind>::empty()
                &&& b.layout.spec_tail_fields() == chunk_fields()
                &&& b.layout.spec_tail_offset() == 0
                &&& b.layout.spec_tail_stride() == 80
                &&& self.chunks@.len() * 80 <= usize::MAX
            },
            MemberBuffer::Fixed(_) => false,
        }
    }

    /// The whole orchestrator state is sound.
    pub open spec fn wf(self) -> bool {
        &&& self.camera_group_wf()
        &&& self.chunk_group_wf()
        &&& forall|i: int| 0 <= i < self.chunks@.len() ==> (#[trigger] self.chunks@[i]).wf()
    }

    /// The chunk member's current byte capacity.
    pub open spec fn spec_chunk_capacity(self) -> u64 {
        match self.chunk_buffer.members@[0].buffer {
            MemberBuffer::Dynamic(b) => b.spec_capacity(),
            MemberBuffer::Fixed(_) => 0,
        }
    }

    /// The serialized byte length of the current scene.
    pub open spec fn spec_chunk_bytes(self) -> nat {
        (self.chunks@.len() * 80) as nat
    }

    /// Create the camera and chunk groups from the initial state.
    /// `alignment` is the device's minimum storage-buffer offset
    /// alignment and `max_fixed_size` the configured bound on fixed
    /// prefixes. Fails with `LayoutOverflow` exactly when the
    /// camera's 16-byte prefix exceeds that bound, and with
    /// `CapacityOverflow` exactly when the scene's bytes exceed the
    /// address space.
    pub fn new(
        device: &wgpu::Device,
        queue: &wgpu::Queue,
        alignment: u64,
        max_fixed_size: u64,
        camera: &GpuCamera,
        chunks: Vec<Chunk>,
    ) -> (r: Result<State, BufferError>)
        requires
            is_power_of_two(alignment as nat),
            forall|i: int| 0 <= i < chunks@.len() ==> (#[trigger] chunks@[i]).wf(),
            chunks@.len() > 0,
        ensures
            match r {
                Ok(s) => {
                    &&& s.wf()
                    &&& s.chunks@ == chunks@
                    &&& s.pipeline is None
                    &&& s.camera_buffer.rebuild_count == 0
                    &&& s.chunk_buffer.rebuild_count == 0
                    &&& s.spec_chunk_capacity() == chunks@.len() * 80
                    &&& max_fixed_size >= 16
                },
                Err(BufferError::LayoutOverflow) => max_fixed_size < 16,
                Err(BufferError::CapacityOverflow) => max_fixed_size >= 16 && chunks@.len() * 80
                    > usize::MAX,
                Err(_) => false,
            },
    {
        let cam_layout = match GpuCamera::layout(alignment, max_fixed_size) {
            Ok(d) => d,
            Err(e) => {
                return Err(e);
            },
        };
        let cam_value = camera.to_value();
        let cam_buf = match FixedSizeBuffer::new(
            device,
            queue,
            "Camera Buffer",
            BufferUsage::Uniform,
            cam_layout,
            &cam_value,
        ) {
            Ok(b) => b,
            Err(e) => {
                // Verus proves this arm unreachable from the callee's contract.
                proof {
                    assert(false);
                }
                return Err(e);
            },
        };
        let mut cam_members: Vec<BufferCreationInfo> = Vec::new();
        cam_members.push(
            BufferCreationInfo {
                buffer: MemberBuffer::Fixed(cam_buf),
                binding_kind: BindingKind::Uniform,
                visibility: VISIBILITY_FRAGMENT,
            },
        );
        let camera_buffer = BufferGroup::new(
            device,
            String::from_str("Camera Bind Group"),
            cam_members,
        );

        let chk_layout = match chunk_layout(alignment, max_fixed_size) {
            Ok(d) => d,
            Err(e) => {
                // Verus proves this arm unreachable from the callee's contract.
                proof {
                    assert(false);
                }
                return Err(e);
            },
        };
        let chk_value = chunks_to_value(&chunks);
        proof {
            lemma_chunk_size();
            assert(chk_layout.spec_total_size(chunks@.len() as nat) == chunks@.len() * 80);
            assert(chunks@.len() * 80 > 0) by (nonlinear_arith)
                requires
                    chunks@.len() > 0,
            ;
        }
        let chk_buf = match DynamicBuffer::new(
            device,
            queue,
            String::from_str("Chunk Buffer"),
            BufferUsage::Storage,
            chk_layout,
            &chk_value,
        ) {
            Ok(b) => b,
            Err(e) => {
                return Err(e);
            },
        };
        let mut chk_members: Vec<BufferCreationInfo> = Vec::new();
        chk_members.push(
            BufferCreationInfo {
                buffer: MemberBuffer::Dynamic(chk_buf),
                binding_kind: BindingKind::Storage { read_only: true },
                visibility: VISIBILITY_FRAGMENT,
            },
        );
        let chunk_buffer = BufferGroup::new(
            device,
            String::from_str("Chunk Bind Group"),
            chk_members,
        );
        let s = State { camera_buffer, chunks, chunk_buffer, pipeline: None };
        proof {
            assert(s.camera_buffer.members@.len() == 1);
            assert(s.camera_buffer.members@[0] == cam_members@[0]);
            assert(s.camera_group_wf());
            assert(s.chunk_buffer.members@.len() == 1);
            assert(s.chunk_buffer.members@[0] == chk_members@[0]);
            assert(s.chunk_group_wf());
        }
        Ok(s)
    }

    /// Attach the render pipeline the embedder built against
    /// `camera_layout()` and `chunk_layout_object()`.
    pub fn attach_pipeline(&mut self, pipeline: wgpu::RenderPipeline)
        requires
            old(self).wf(),
        ensures
            final(self).wf(),
            final(self).pipeline is Some,
            final(self).camera_buffer == old(self).camera_buffer,
            final(self).chunk_buffer == old(self).chunk_buffer,
            final(self).chunks == old(self).chunks,
    {
        self.pipeline = Some(pipeline);
    }

    /// The camera group's bind-group layout, for pipeline creation.
    pub fn camera_layout_object(&self) -> &wgpu::BindGroupLayout {
        self.camera_buffer.bind_group_layout()
    }

    /// The chunk group's bind-group layout, for pipeline creation.
    pub fn chunk_layout_object(&self) -> &wgpu::BindGroupLayout {
        self.chunk_buffer.bind_group_layout()
    }

    /// Replace the scene. The device sees the change on the next
    /// `render`. Fails with `SizeMismatch` exactly when some chunk
    /// does not carry its full complement of cells, and with
    /// `CapacityOverflow` exactly when the new scene's bytes exceed
    /// the address space; a rejected scene leaves the state unchanged.
    pub fn set_chunks(&mut self, chunks: Vec<Chunk>) -> (r: Result<(), BufferError>)
        requires
            old(self).wf(),
        ensures
            final(self).wf(),
            final(self).camera_buffer == old(self).camera_buffer,
            final(self).chunk_buffer == old(self).chunk_buffer,
            final(self).pipeline == old(self).pipeline,
            match r {
                Ok(()) => {
                    &&& final(self).chunks@ == chunks@
                    &&& forall|i: int| 0 <= i < chunks@.len() ==> (#[trigger] chunks@[i]).wf()
                    &&& chunks@.len() * 80 <= usize::MAX
                },
                Err(BufferError::SizeMismatch) => {
                    &&& !(forall|i: int|
                        0 <= i < chunks@.len() ==> (#[trigger] chunks@[i]).wf())
                    &&& final(self).chunks == old(self).chunks
                },
                Err(BufferError::CapacityOverflow) => {
                    &&& (forall|i: int|
                        0 <= i < chunks@.len() ==> (#[trigger] chunks@[i]).wf())
                    &&& chunks@.len() * 80 > usize::MAX
                    &&& final(self).chunks == old(self).chunks
                },
                Err(_) => false,
            },
    {
        let mut i: usize = 0;
        while i < chunks.len()
            invariant
                i <= chunks@.len(),
                *self == *old(self),
                old(self).wf(),
                forall|j: int| 0 <= j < i ==> (#[trigger] chunks@[j]).wf(),
            decreases chunks@.len() - i,
        {
            if chunks[i].cells.len() != CHUNK_CELLS {
                proof {
                    assert(!chunks@[i as int].wf());
                }
                return Err(BufferError::SizeMismatch);
            }
            i = i + 1;
        }
        let total = match (chunks.len() as u64).checked_mul(80) {
            Some(t) => t,
            None => {
                proof {
                    assert(chunks@.len() * 80 > usize::MAX);
                }
                return Err(BufferError::CapacityOverflow);
            },
        };
        if total > usize::MAX as u64 {
            return Err(BufferError::CapacityOverflow);
        }
        self.chunks = chunks;
        Ok(())
    }

    /// One frame, in strict order: write the camera group, write the
    /// chunk group (growing and rebuilding its binding exactly when
    /// the scene outgrew the buffer), and only then record and submit
    /// the pass that consumes the two binding objects. The camera
    /// group never rebuilds its binding: its only member is fixed.
    pub fn render(
        &mut self,
        device: &wgpu::Device,
        queue: &wgpu::Queue,
        texture: &wgpu::Texture,
        camera: &GpuCamera,
    )
        requires
            old(self).wf(),
            old(self).pipeline is Some,
            old(self).camera_buffer.rebuild_count < u64::MAX,
            old(self).chunk_buffer.rebuild_count < u64::MAX,
            match old(self).chunk_buffer.members@[0].buffer {
                MemberBuffer::Dynamic(b) => b.generation < u64::MAX && b.alloc_count < u64::MAX,
                MemberBuffer::Fixed(_) => true,
            },
        ensures
            final(self).wf(),
            final(self).chunks == old(self).chunks,
            final(self).pipeline == old(self).pipeline,
            final(self).camera_buffer.rebuild_count == old(self).camera_buffer.rebuild_count,
            final(self).chunk_buffer.rebuild_count == old(self).chunk_buffer.rebuild_count + (
            if old(self).spec_chunk_bytes() > old(self).spec_chunk_capacity() {
                1int
            } else {
                0int
            }),
            final(self).spec_chunk_capacity() == spec_grown_capacity(
                old(self).spec_chunk_capacity() as nat,
                old(self).spec_chunk_bytes(),
            ),
    {
        let ghost old_cam_members = self.camera_buffer.members@;
        let cam_value = camera.to_value();
        let mut cam_vals: Vec<Option<GpuValue>> = Vec::new();
        cam_vals.push(Some(cam_value));
        proof {
            assert(member_write_ok(self.camera_buffer.members@[0], cam_vals@[0]->Some_0));
            assert(!member_grows(self.camera_buffer.members@[0], cam_vals@[0]->Some_0));
        }
        self.camera_buffer.write(device, queue, &cam_vals);
        proof {
            assert(!any_member_grows(old_cam_members, cam_vals@));
        }

        let ghost old_chk_members = self.chunk_buffer.members@;
        let chk_value = chunks_to_value(&self.chunks);
        let mut chk_vals: Vec<Option<GpuValue>> = Vec::new();
        chk_vals.push(Some(chk_value));
        proof {
            lemma_chunk_size();
            assert(member_write_ok(self.chunk_buffer.members@[0], chk_vals@[0]->Some_0));
        }
        self.chunk_buffer.write(device, queue, &chk_vals);
        proof {
            assert(any_member_grows(old_chk_members, chk_vals@) <==> old(
                self,
            ).spec_chunk_bytes() > old(self).spec_chunk_capacity());
        }

        let p = match &self.pipeline {
            Some(p) => p,
            None => {
                // Verus proves this arm unreachable from this function's
                // precondition.
                proof {
                    assert(false);
                }
                return;
            },
        };
        let mut encoder = create_command_encoder(device, "Main Rendering Encoder");
        let view = texture_view(texture);
        {
            let mut pass = begin_render_pass(&mut encoder, &view, "Main Render Pass");
            set_pipeline(&mut pass, p);
            set_bind_group(&mut pass, 0, self.camera_buffer.bind_group());
            set_bind_group(&mut pass, 1, self.chunk_buffer.bind_group());
            draw(&mut pass, 4, 1);
        }
        let commands = finish_encoder(encoder);
        submit_one(queue, commands);
    }
}

} // verus!
