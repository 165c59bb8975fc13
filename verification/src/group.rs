use vstd::prelude::*;
use crate::buffers::{
    DynamicBuffer, FixedSizeBuffer, GrowthEvent, spec_grown_capacity, spec_value_len,
};
use crate::gpu::{BindingKind, LayoutEntryInfo, create_bind_group, create_bind_group_layout};
use crate::value::GpuValue;

verus! {

/// One member buffer of a group.
pub enum MemberBuffer {
    /// A fixed-size buffer; its allocation never changes.
    Fixed(FixedSizeBuffer),
    /// A growable buffer; its allocation is replaced on growth.
    Dynamic(DynamicBuffer),
}

impl MemberBuffer {
    /// The member's allocation generation. A fixed buffer keeps its
    /// allocation forever; a growable one counts replacements.
    pub open spec fn generation(self) -> u64 {
        match self {
            MemberBuffer::Fixed(_) => 0,
            MemberBuffer::Dynamic(b) => b.generation,
        }
    }

    /// The member's bookkeeping is sound.
    pub open spec fn wf(self) -> bool {
        match self {
            MemberBuffer::Fixed(b) => b.wf(),
            MemberBuffer::Dynamic(b) => b.wf(),
        }
    }

    /// The member's current allocation.
    pub fn raw_handle(&self) -> &wgpu::Buffer {
        match self {
            MemberBuffer::Fixed(b) => &b.raw.handle,
            MemberBuffer::Dynamic(b) => &b.raw.handle,
        }
    }
}

/// A member buffer together with how it is bound: its resource kind
/// and shader visibility. Binding indices are assigned by declaration
/// order, starting at zero.
pub struct BufferCreationInfo {
    /// The member buffer.
    pub buffer: MemberBuffer,
    /// The resource kind the buffer is bound as.
    pub binding_kind: BindingKind,
    /// The shader stages that see the binding.
    pub visibility: u32,
}

/// What a write of `v` demands of member `m`: the value has the
/// member's shape, its bytes fit the address space, and the growth
/// counters are not exhausted.
pub open spec fn member_write_ok(m: BufferCreationInfo, v: GpuValue) -> bool {
    match m.buffer {
        MemberBuffer::Fixed(b) => v.matches(b.layout) && b.layout.fixed_size <= usize::MAX,
        MemberBuffer::Dynamic(b) => {
            &&& v.matches(b.layout)
            &&& spec_value_len(b.layout, v) <= usize::MAX
            &&& b.generation < u64::MAX
            &&& b.alloc_count < u64::MAX
        },
    }
}

/// Whether writing `v` to member `m` replaces its allocation.
pub open spec fn member_grows(m: BufferCreationInfo, v: GpuValue) -> bool {
    match m.buffer {
        MemberBuffer::Fixed(_) => false,
        MemberBuffer::Dynamic(b) => spec_value_len(b.layout, v) > b.spec_capacity(),
    }
}

/// How one member changes under a write of `v`: binding data is kept,
/// a fixed buffer is untouched, and a growable buffer follows the
/// exact-fit growth rule.
pub open spec fn member_written(m0: BufferCreationInfo, m1: BufferCreationInfo, v: GpuValue)
    -> bool {
    &&& m1.binding_kind == m0.binding_kind
    &&& m1.visibility == m0.visibility
    &&& match (m0.buffer, m1.buffer) {
        (MemberBuffer::Fixed(b0), MemberBuffer::Fixed(b1)) => b1 == b0,
        (MemberBuffer::Dynamic(b0), MemberBuffer::Dynamic(b1)) => {
            &&& b1.layout == b0.layout
            &&& b1.usage == b0.usage
            &&& b1.label == b0.label
            &&& b1.spec_capacity() == spec_grown_capacity(
                b0.spec_capacity() as nat,
                spec_value_len(b0.layout, v),
            )
            &&& b1.generation == b0.generation + (if member_grows(m0, v) {
                1int
            } else {
                0int
            })
            &&& b1.alloc_count == b0.alloc_count + (if member_grows(m0, v) {
                1int
            } else {
                0int
            })
        },
        _ => false,
    }
}

/// Whether any member that receives a value grows under it.
pub open spec fn any_member_grows(
    members: Seq<BufferCreationInfo>,
    values: Seq<Option<GpuValue>>,
) -> bool {
    exists|i: int|
        0 <= i < members.len() && match values[i] {
            Some(v) => member_grows(#[trigger] members[i], v),
            None => false,
        }
}

/// A bundle of buffers bound together as one bindable unit. The
/// binding object is rebuilt exactly when a member's allocation was
/// replaced, so it never references a freed allocation.
pub struct BufferGroup {
    /// The member buffers, in binding order.
    pub members: Vec<BufferCreationInfo>,
    /// The device-level layout of the group's bindings.
    pub layout_object: wgpu::BindGroupLayout,
    /// The binding object handed to passes.
    pub bind_group: wgpu::BindGroup,
    /// The allocation generation of each member when `bind_group` was
    /// built.
    pub bound_generations: Vec<u64>,
    /// How many times the binding object has been rebuilt after
    /// creation.
    pub rebuild_count: u64,
    /// The label the group's objects are created under.
    pub label: String,
}

impl BufferGroup {
    /// Binding consistency: the binding object was built from the
    /// members' current allocations, so it references no allocation
    /// freed by a growth.
    pub open spec fn binding_consistent(self) -> bool {
        &&& self.bound_generations@.len() == self.members@.len()
        &&& forall|i: int|
            0 <= i < self.members@.len() ==> #[trigger] self.bound_generations@[i]
                == self.members@[i].buffer.generation()
    }

    /// The group's bookkeeping is sound and its bindings are
    /// consistent.
    pub open spec fn wf(self) -> bool {
        &&& self.binding_consistent()
        &&& forall|i: int| 0 <= i < self.members@.len() ==> (#[trigger] self.members@[i]).buffer.wf()
    }

    /// Record each member's current allocation generation.
    fn current_generations(members: &Vec<BufferCreationInfo>) -> (r: Vec<u64>)
        ensures
            r@.len() == members@.len(),
            forall|i: int|
                0 <= i < members@.len() ==> #[trigger] r@[i] == members@[i].buffer.generation(),
    {
        let mut gens: Vec<u64> = Vec::new();
        let mut i: usize = 0;
        while i < members.len()
            invariant
                i <= members@.len(),
                gens@.len() == i,
                forall|j: int|
                    0 <= j < i ==> #[trigger] gens@[j] == members@[j].buffer.generation(),
            decreases members@.len() - i,
        {
            let g = match &members[i].buffer {
                MemberBuffer::Fixed(_) => 0,
                MemberBuffer::Dynamic(b) => b.generation,
            };
            gens.push(g);
            i = i + 1;
        }
        gens
    }

    /// Build the binding object from the members' current allocations,
    /// binding member `i` at index `i`.
    fn build_bind_group(
        device: &wgpu::Device,
        label: &str,
        layout_object: &wgpu::BindGroupLayout,
        members: &Vec<BufferCreationInfo>,
    ) -> wgpu::BindGroup {
        let mut bufs: Vec<&wgpu::Buffer> = Vec::new();
        let mut i: usize = 0;
        while i < members.len()
            decreases members@.len() - i,
        {
            bufs.push(members[i].buffer.raw_handle());
            i = i + 1;
        }
        create_bind_group(device, label, layout_object, &bufs)
    }

    /// Bundle `members` into a group: build the layout object from
    /// their binding kinds and visibilities, in declaration order
    /// starting at binding zero, and the initial binding object from
    /// their current allocations.
    pub fn new(device: &wgpu::Device, label: String, members: Vec<BufferCreationInfo>) -> (r:
        BufferGroup)
        requires
            forall|i: int| 0 <= i < members@.len() ==> (#[trigger] members@[i]).buffer.wf(),
        ensures
            r.wf(),
            r.members@ == members@,
            r.rebuild_count == 0,
            r.label == label,
    {
        let mut entries: Vec<LayoutEntryInfo> = Vec::new();
        let mut i: usize = 0;
        while i < members.len()
            decreases members@.len() - i,
        {
            entries.push(
                LayoutEntryInfo {
                    kind: members[i].binding_kind,
                    visibility: members[i].visibility,
                },
            );
            i = i + 1;
        }
        let layout_object = create_bind_group_layout(device, label.as_str(), &entries);
        let bind_group = Self::build_bind_group(device, label.as_str(), &layout_object, &members);
        let bound_generations = Self::current_generations(&members);
        BufferGroup { members, layout_object, bind_group, bound_generations, rebuild_count: 0, label }
    }

    /// The binding object for the orchestrator to attach. After any
    /// `write` it references only the members' current allocations.
    pub fn bind_group(&self) -> &wgpu::BindGroup {
        &self.bind_group
    }

    /// The device-level layout of the group's bindings.
    pub fn bind_group_layout(&self) -> &wgpu::BindGroupLayout {
        &self.layout_object
    }

    /// How many times the binding object has been rebuilt.
    pub fn rebuild_count(&self) -> (r: u64)
        ensures
            r == self.rebuild_count,
    {
        self.rebuild_count
    }

    /// Forward each given value to its member's write, then — exactly
    /// when some member's allocation was replaced — rebuild the
    /// binding object from the new allocations. When nothing grew,
    /// the existing binding object is kept and reused.
    pub fn write(
        &mut self,
        device: &wgpu::Device,
        queue: &wgpu::Queue,
        values: &Vec<Option<GpuValue>>,
    ) -> (r: GrowthEvent)
        requires
            old(self).wf(),
            values@.len() == old(self).members@.len(),
            forall|i: int|
                0 <= i < values@.len() ==> match values@[i] {
                    Some(v) => member_write_ok(#[trigger] old(self).members@[i], v),
                    None => true,
                },
            old(self).rebuild_count < u64::MAX,
        ensures
            final(self).wf(),
            final(self).label == old(self).label,
            final(self).members@.len() == old(self).members@.len(),
            forall|i: int|
                0 <= i < values@.len() ==> match values@[i] {
                    Some(v) => member_written(
                        old(self).members@[i],
                        #[trigger] final(self).members@[i],
                        v,
                    ),
                    None => final(self).members@[i] == old(self).members@[i],
                },
            r == GrowthEvent::Reallocated <==> any_member_grows(old(self).members@, values@),
            final(self).rebuild_count == old(self).rebuild_count + (
            if any_member_grows(old(self).members@, values@) {
                1int
            } else {
                0int
            }),
    {
        let ghost members0 = old(self).members@;
        let mut any_grew = false;
        let mut i: usize = 0;
        while i < self.members.len()
            invariant
                i <= self.members@.len(),
                self.members@.len() == members0.len(),
                values@.len() == members0.len(),
                self.layout_object == old(self).layout_object,
                self.bind_group == old(self).bind_group,
                self.bound_generations == old(self).bound_generations,
                self.rebuild_count == old(self).rebuild_count,
                self.label == old(self).label,
                old(self).wf(),
                members0 == old(self).members@,
                forall|j: int|
                    0 <= j < values@.len() ==> match values@[j] {
                        Some(v) => member_write_ok(#[trigger] members0[j], v),
                        None => true,
                    },
                forall|j: int| i <= j < members0.len() ==> self.members@[j] == members0[j],
                forall|j: int|
                    0 <= j < i ==> match values@[j] {
                        Some(v) => member_written(members0[j], #[trigger] self.members@[j], v),
                        None => self.members@[j] == members0[j],
                    },
                any_grew <==> exists|j: int|
                    0 <= j < i && match values@[j] {
                        Some(v) => member_grows(#[trigger] members0[j], v),
                        None => false,
                    },
            decreases self.members@.len() - i,
        {
            let ghost pre = self.members@;
            match &values[i] {
                None => {},
                Some(v) => {
                    let mut m = self.members.remove(i);
                    proof {
                        assert(m == members0[i as int]);
                        assert(values@[i as int] == Some(*v));
                        assert(member_write_ok(members0[i as int], *v));
                        assert(m.buffer.wf());
                    }
                    match &mut m.buffer {
                        MemberBuffer::Fixed(b) => {
                            let res = b.write(queue, v);
                            match res {
                                Ok(()) => {},
                                Err(_) => {
                                    // Verus proves this arm unreachable from the
                                    // callee's contract.
                                    proof {
                                        assert(false);
                                    }
                                },
                            }
                        },
                        MemberBuffer::Dynamic(b) => {
                            let res = b.write(device, queue, v);
                            match res {
                                Ok(GrowthEvent::Reallocated) => {
                                    any_grew = true;
                                },
                                Ok(GrowthEvent::Unchanged) => {},
                                Err(_) => {
                                    // Verus proves this arm unreachable from the
                                    // callee's contract.
                                    proof {
                                        assert(false);
                                    }
                                },
                            }
                        },
                    }
                    self.members.insert(i, m);
                    proof {
                        assert(self.members@ =~= pre.update(i as int, self.members@[i as int]));
                    }
                },
            }
            i = i + 1;
        }
        if any_grew {
            let bg = Self::build_bind_group(
                device,
                self.label.as_str(),
                &self.layout_object,
                &self.members,
            );
            self.bind_group = bg;
            self.bound_generations = Self::current_generations(&self.members);
            self.rebuild_count = self.rebuild_count + 1;
            GrowthEvent::Reallocated
        } else {
            proof {
                assert(forall|j: int|
                    0 <= j < members0.len() ==> #[trigger] self.members@[j].buffer.generation()
                        == members0[j].buffer.generation());
            }
            GrowthEvent::Unchanged
        }
    }
}

} // verus!
