use vstd::prelude::*;
use crate::error::BufferError;
use crate::gpu::{BufferUsage, RawBuffer, create_buffer, write_raw_buffer};
use crate::layout::{
    LayoutDescriptor, lemma_align_up_keeps_mult4, lemma_power_of_two_pos,
    lemma_record_size_bounds,
};
use crate::value::{GpuValue, serialize_value};

verus! {

/// The capacity of a growable buffer after a write of `len` bytes
/// against a current capacity of `cap` bytes: growth is exact-fit and
/// only happens when the content no longer fits.
pub open spec fn spec_grown_capacity(cap: nat, len: nat) -> nat {
    if len > cap {
        len
    } else {
        cap
    }
}

/// The capacity after a whole sequence of writes with the given byte
/// lengths, starting from capacity `init`.
pub open spec fn spec_capacity_after(init: nat, lens: Seq<nat>) -> nat
    decreases lens.len(),
{
    if lens.len() == 0 {
        init
    } else {
        spec_grown_capacity(spec_capacity_after(init, lens.drop_last()), lens.last())
    }
}

/// Law: across any sequence of writes, capacity never decreases.
pub proof fn lemma_capacity_monotonic(init: nat, lens: Seq<nat>, i: int, j: int)
    requires
        0 <= i <= j <= lens.len(),
    ensures
        spec_capacity_after(init, lens.take(i)) <= spec_capacity_after(init, lens.take(j)),
    decreases j - i,
{
    if i < j {
        lemma_capacity_monotonic(init, lens, i, j - 1);
        assert(lens.take(j).drop_last() =~= lens.take(j - 1));
    }
}

/// Law: after write `i`, the capacity is at least the length of every
/// write made so far, and at least the starting capacity.
pub proof fn lemma_capacity_dominates(init: nat, lens: Seq<nat>, i: int, k: int)
    requires
        0 <= k < i <= lens.len(),
    ensures
        spec_capacity_after(init, lens.take(i)) >= lens[k],
        spec_capacity_after(init, lens.take(i)) >= init,
    decreases i,
{
    assert(lens.take(k + 1).drop_last() =~= lens.take(k));
    assert(lens.take(k + 1).last() == lens[k]);
    lemma_capacity_monotonic(init, lens, k + 1, i);
    lemma_capacity_monotonic(init, lens, 0, i);
    assert(lens.take(0) =~= Seq::<nat>::empty());
}

/// Law: writing the same length twice in a row grows at most once;
/// the second write always fits in the capacity left by the first.
pub proof fn lemma_idempotent_rewrite(cap: nat, len: nat)
    ensures
        spec_grown_capacity(spec_grown_capacity(cap, len), len) == spec_grown_capacity(cap, len),
        !(len > spec_grown_capacity(cap, len)),
{
}

/// What a write to a growable buffer reports.
#[derive(Clone, Copy, Debug, PartialEq, Eq, Structural)]
pub enum GrowthEvent {
    /// The backing allocation was kept; bindings remain valid.
    Unchanged,
    /// The backing allocation was replaced; dependent bindings must be
    /// rebuilt.
    Reallocated,
}

/// The serialized byte length of `v` under layout `d`.
pub open spec fn spec_value_len(d: LayoutDescriptor, v: GpuValue) -> nat {
    d.spec_total_size(v.tail@.len() as nat)
}

/// Every serialized length under a well-formed layout is a multiple
/// of 4, the device's copy alignment.
pub proof fn lemma_total_size_mult4(d: LayoutDescriptor, n: nat)
    requires
        d.wf(),
    ensures
        d.spec_total_size(n) % 4 == 0,
{
    lemma_record_size_bounds(d.fields@);
    if d.has_tail() {
        lemma_power_of_two_pos(d.alignment as nat);
        lemma_align_up_keeps_mult4(d.fixed_size as nat, d.alignment as nat);
        lemma_record_size_bounds(d.spec_tail_fields());
        let toff = d.spec_tail_offset() as int;
        let stride = d.spec_tail_stride() as int;
        let q = stride / 4;
        vstd::arithmetic::div_mod::lemma_fundamental_div_mod(stride, 4);
        assert(n * stride == 4 * (n * q)) by (nonlinear_arith)
            requires
                stride == 4 * q,
        ;
        vstd::arithmetic::div_mod::lemma_mod_multiples_basic(n * q, 4);
        vstd::arithmetic::div_mod::lemma_add_mod_noop(toff, n * stride, 4);
    }
}

/// A GPU buffer whose byte size is fixed at creation, from the
/// layout's static size, and that is overwritten whole and in place.
pub struct FixedSizeBuffer {
    /// The backing allocation; never replaced.
    pub raw: RawBuffer,
    /// The layout of the values written into the buffer; carries no
    /// runtime-sized tail.
    pub layout: LayoutDescriptor,
}

impl FixedSizeBuffer {
    /// The backing allocation matches the layout's static size.
    pub open spec fn wf(self) -> bool {
        &&& self.layout.wf()
        &&& !self.layout.has_tail()
        &&& self.raw.size == self.layout.fixed_size
        &&& self.raw.size > 0
    }

    /// Allocate the buffer at the layout's static size and upload the
    /// initial value. A value of the wrong shape is rejected once,
    /// here; the size cannot change afterwards.
    pub fn new(
        device: &wgpu::Device,
        queue: &wgpu::Queue,
        label: &str,
        usage: BufferUsage,
        layout: LayoutDescriptor,
        value: &GpuValue,
    ) -> (r: Result<FixedSizeBuffer, BufferError>)
        requires
            layout.wf(),
            !layout.has_tail(),
            layout.fixed_size > 0,
        ensures
            match r {
                Ok(b) => {
                    &&& b.wf()
                    &&& b.layout == layout
                    &&& value.matches(layout)
                },
                Err(BufferError::SizeMismatch) => !value.matches(layout),
                Err(BufferError::CapacityOverflow) => value.matches(layout)
                    && layout.fixed_size > usize::MAX,
                Err(_) => false,
            },
    {
        let bytes = match serialize_value(&layout, value) {
            Ok(b) => b,
            Err(e) => {
                return Err(e);
            },
        };
        let raw = create_buffer(device, label, layout.fixed_size, usage);
        proof {
            lemma_total_size_mult4(layout, value.tail@.len() as nat);
        }
        write_raw_buffer(queue, &raw, &bytes);
        Ok(FixedSizeBuffer { raw, layout })
    }

    /// Overwrite the whole buffer with a new value of the same shape.
    /// The buffer and its size are untouched by a rejected value.
    pub fn write(&self, queue: &wgpu::Queue, value: &GpuValue) -> (r: Result<(), BufferError>)
        requires
            self.wf(),
        ensures
            match r {
                Ok(()) => value.matches(self.layout),
                Err(BufferError::SizeMismatch) => !value.matches(self.layout),
                Err(BufferError::CapacityOverflow) => value.matches(self.layout)
                    && self.layout.fixed_size > usize::MAX,
                Err(_) => false,
            },
    {
        let bytes = match serialize_value(&self.layout, value) {
            Ok(b) => b,
            Err(e) => {
                return Err(e);
            },
        };
        proof {
            lemma_total_size_mult4(self.layout, value.tail@.len() as nat);
        }
        write_raw_buffer(queue, &self.raw, &bytes);
        Ok(())
    }
}

/// A GPU buffer whose required size varies from write to write. When
/// content outgrows the backing allocation, a new exact-fit allocation
/// replaces it and the caller is told to rebuild dependent bindings.
/// Capacity never shrinks.
pub struct DynamicBuffer {
    /// The current backing allocation; replaced on growth.
    pub raw: RawBuffer,
    /// The layout of the values written into the buffer.
    pub layout: LayoutDescriptor,
    /// The label new allocations are created under.
    pub label: String,
    /// The usage every backing allocation is created with.
    pub usage: BufferUsage,
    /// Bumped every time the backing allocation is replaced; bindings
    /// built from an older generation are stale.
    pub generation: u64,
    /// How many device allocations this buffer has made in total.
    pub alloc_count: u64,
}

impl DynamicBuffer {
    /// The buffer's bookkeeping is sound.
    pub open spec fn wf(self) -> bool {
        &&& self.layout.wf()
        &&& self.raw.size > 0
    }

    /// The current byte capacity of the backing allocation.
    pub open spec fn spec_capacity(self) -> u64 {
        self.raw.size
    }

    /// The current byte capacity of the backing allocation.
    pub fn capacity(&self) -> (r: u64)
        ensures
            r == self.spec_capacity(),
    {
        self.raw.size
    }

    /// Allocate a backing buffer exactly fitting the initial value and
    /// upload it.
    pub fn new(
        device: &wgpu::Device,
        queue: &wgpu::Queue,
        label: String,
        usage: BufferUsage,
        layout: LayoutDescriptor,
        value: &GpuValue,
    ) -> (r: Result<DynamicBuffer, BufferError>)
        requires
            layout.wf(),
            spec_value_len(layout, *value) > 0,
        ensures
            match r {
                Ok(b) => {
                    &&& b.wf()
                    &&& b.layout == layout
                    &&& b.usage == usage
                    &&& b.label == label
                    &&& value.matches(layout)
                    &&& b.spec_capacity() == spec_value_len(layout, *value)
                    &&& spec_value_len(layout, *value) <= usize::MAX
                    &&& b.generation == 0
                    &&& b.alloc_count == 1
                },
                Err(BufferError::SizeMismatch) => !value.matches(layout),
                Err(BufferError::CapacityOverflow) => value.matches(layout) && spec_value_len(
                    layout,
                    *value,
                ) > usize::MAX,
                Err(_) => false,
            },
    {
        let bytes = match serialize_value(&layout, value) {
            Ok(b) => b,
            Err(e) => {
                return Err(e);
            },
        };
        let size = bytes.len() as u64;
        let raw = create_buffer(device, label.as_str(), size, usage);
        proof {
            lemma_total_size_mult4(layout, value.tail@.len() as nat);
        }
        write_raw_buffer(queue, &raw, &bytes);
        Ok(DynamicBuffer { raw, layout, label, usage, generation: 0, alloc_count: 1 })
    }

    /// Write a value: serialize it, grow the backing allocation
    /// (exact-fit) if the bytes no longer fit, upload the bytes, and
    /// report whether the allocation was replaced. A rejected value
    /// leaves the buffer exactly as it was.
    pub fn write(&mut self, device: &wgpu::Device, queue: &wgpu::Queue, value: &GpuValue) -> (r:
        Result<GrowthEvent, BufferError>)
        requires
            old(self).wf(),
            old(self).generation < u64::MAX,
            old(self).alloc_count < u64::MAX,
        ensures
            final(self).wf(),
            final(self).layout == old(self).layout,
            final(self).usage == old(self).usage,
            final(self).label == old(self).label,
            match r {
                Ok(ev) => {
                    let len = spec_value_len(old(self).layout, *value);
                    &&& value.matches(old(self).layout)
                    &&& len <= usize::MAX
                    &&& final(self).spec_capacity() == spec_grown_capacity(
                        old(self).spec_capacity() as nat,
                        len,
                    )
                    &&& (ev == GrowthEvent::Reallocated <==> len > old(self).spec_capacity())
                    &&& final(self).generation == old(self).generation + (
                    if ev == GrowthEvent::Reallocated {
                        1int
                    } else {
                        0int
                    })
                    &&& final(self).alloc_count == old(self).alloc_count + (
                    if ev == GrowthEvent::Reallocated {
                        1int
                    } else {
                        0int
                    })
                },
                Err(BufferError::SizeMismatch) => !value.matches(old(self).layout) && *final(self)
                    == *old(self),
                Err(BufferError::CapacityOverflow) => value.matches(old(self).layout)
                    && spec_value_len(old(self).layout, *value) > usize::MAX && *final(self) == *old(
                    self,
                ),
                Err(_) => false,
            },
    {
        let bytes = match serialize_value(&self.layout, value) {
            Ok(b) => b,
            Err(e) => {
                return Err(e);
            },
        };
        let len = bytes.len() as u64;
        let event = if len > self.raw.size {
            self.raw = create_buffer(device, self.label.as_str(), len, self.usage);
            self.generation = self.generation + 1;
            self.alloc_count = self.alloc_count + 1;
            GrowthEvent::Reallocated
        } else {
            GrowthEvent::Unchanged
        };
        proof {
            lemma_total_size_mult4(self.layout, value.tail@.len() as nat);
        }
        write_raw_buffer(queue, &self.raw, &bytes);
        Ok(event)
    }
}

} // verus!
