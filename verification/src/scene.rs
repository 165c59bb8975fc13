use vstd::prelude::*;
use crate::error::BufferError;
use crate::layout::{
    ElemKind, FieldKind, LayoutDescriptor, align_up, is_power_of_two, spec_cursor,
    spec_record_align, spec_record_size,
};
use crate::value::{ElemValue, FieldAbs, FieldValue, GpuValue, record_abs, record_matches};
use crate::vector2::Vector2;
use crate::vector3::Vector3;

verus! {

/// Chunks are square; this is their side length in cells.
pub const CHUNK_SIZE: usize = 2;

/// The number of cells in one chunk.
pub const CHUNK_CELLS: usize = CHUNK_SIZE * CHUNK_SIZE;

/// The camera data uploaded once per frame: position, half of the
/// view height, and the aspect ratio, each a 32-bit scalar bit
/// pattern.
#[derive(Clone, Copy, Debug, PartialEq, Eq, Structural)]
pub struct GpuCamera {
    /// World-space position of the view center.
    pub position: Vector2<u32>,
    /// Half of the view height.
    pub half_height: u32,
    /// Width over height of the target image.
    pub aspect: u32,
}

/// The field shapes of the serialized camera.
pub open spec fn camera_fields() -> Seq<FieldKind> {
    seq![FieldKind::Vec2, FieldKind::Scalar, FieldKind::Scalar]
}

/// The camera's fixed byte size under the layout rules.
pub proof fn lemma_camera_size()
    ensures
        spec_record_size(camera_fields()) == 16,
        spec_record_align(camera_fields()) == 8,
{
    let fs = camera_fields();
    let f2: Seq<FieldKind> = seq![FieldKind::Vec2, FieldKind::Scalar];
    let f1: Seq<FieldKind> = seq![FieldKind::Vec2];
    let f0: Seq<FieldKind> = Seq::empty();
    assert(fs.drop_last() =~= f2);
    assert(f2.drop_last() =~= f1);
    assert(f1.drop_last() =~= f0);
    assert(spec_cursor(f0) == 0);
    assert(f1.last() == FieldKind::Vec2);
    assert(align_up(0, 8) == 0);
    assert(spec_cursor(f1) == 8);
    assert(f2.last() == FieldKind::Scalar);
    assert(align_up(8, 4) == 8);
    assert(spec_cursor(f2) == 12);
    assert(fs.last() == FieldKind::Scalar);
    assert(align_up(12, 4) == 12);
    assert(spec_cursor(fs) == 16);
    assert(spec_record_align(f0) == 4);
    assert(spec_record_align(f1) == 8);
    assert(spec_record_align(f2) == 8);
    assert(spec_record_align(fs) == 8);
    assert(align_up(16, 8) == 16);
}

impl GpuCamera {
    /// The camera's field shapes, in declaration order.
    pub fn fields() -> (r: Vec<FieldKind>)
        ensures
            r@ == camera_fields(),
    {
        let mut fs: Vec<FieldKind> = Vec::new();
        fs.push(FieldKind::Vec2);
        fs.push(FieldKind::Scalar);
        fs.push(FieldKind::Scalar);
        proof {
            assert(fs@ =~= camera_fields());
        }
        fs
    }

    /// Build the camera's layout: a fixed prefix of its fields, no
    /// tail. Fails with `LayoutOverflow` exactly when the fixed size
    /// of 16 bytes exceeds the configured maximum.
    pub fn layout(alignment: u64, max_fixed_size: u64) -> (r: Result<
        LayoutDescriptor,
        BufferError,
    >)
        requires
            is_power_of_two(alignment as nat),
        ensures
            match r {
                Ok(d) => {
                    &&& d.wf()
                    &&& !d.has_tail()
                    &&& d.fields@ == camera_fields()
                    &&& d.fixed_size == 16
                    &&& max_fixed_size >= 16
                },
                Err(BufferError::LayoutOverflow) => max_fixed_size < 16,
                Err(_) => false,
            },
    {
        proof {
            lemma_camera_size();
        }
        let r = LayoutDescriptor::new(GpuCamera::fields(), None, alignment, max_fixed_size);
        match r {
            Ok(d) => Ok(d),
            Err(e) => Err(e),
        }
    }

    /// The camera as a serializable value.
    pub fn to_value(&self) -> (r: GpuValue)
        ensures
            record_matches(r.prefix@, camera_fields()),
            r.tail@.len() == 0,
            r.prefix@ == seq![
                FieldValue::Vec2(self.position),
                FieldValue::Scalar(self.half_height),
                FieldValue::Scalar(self.aspect),
            ],
    {
        let mut prefix: Vec<FieldValue> = Vec::new();
        prefix.push(FieldValue::Vec2(self.position));
        prefix.push(FieldValue::Scalar(self.half_height));
        prefix.push(FieldValue::Scalar(self.aspect));
        proof {
            assert(prefix@ =~= seq![
                FieldValue::Vec2(self.position),
                FieldValue::Scalar(self.half_height),
                FieldValue::Scalar(self.aspect),
            ]);
        }
        GpuValue { prefix, tail: Vec::new() }
    }
}

/// One cell of a chunk: a color, stored as three 32-bit scalar bit
/// patterns.
#[derive(Clone, Copy, Debug, PartialEq, Eq, Structural)]
pub struct Cell {
    /// The cell's color.
    pub color: Vector3<u32>,
}

/// A square block of cells at a position; the unit of scene data
/// whose count varies and drives buffer growth.
#[derive(Clone, Debug, PartialEq, Eq)]
pub struct Chunk {
    /// The chunk's cells, row by row; always `CHUNK_CELLS` of them.
    pub cells: Vec<Cell>,
    /// World-space position of the chunk.
    pub position: Vector2<u32>,
}

/// The field shapes of one serialized chunk.
pub open spec fn chunk_fields() -> Seq<FieldKind> {
    seq![
        FieldKind::Array { elem: ElemKind::Vec3, count: 4 },
        FieldKind::Vec2,
    ]
}

/// One chunk's byte size under the layout rules: four 16-byte strides
/// of cell color, then the position, padded to the chunk alignment.
pub proof fn lemma_chunk_size()
    ensures
        spec_record_size(chunk_fields()) == 80,
        spec_record_align(chunk_fields()) == 16,
{
    let fs = chunk_fields();
    let af = FieldKind::Array { elem: ElemKind::Vec3, count: 4 };
    let f1: Seq<FieldKind> = seq![af];
    let f0: Seq<FieldKind> = Seq::empty();
    assert(fs.drop_last() =~= f1);
    assert(f1.drop_last() =~= f0);
    assert(spec_cursor(f0) == 0);
    assert(f1.last() == af);
    assert(af.spec_size() == 64);
    assert(af.spec_align() == 16);
    assert(align_up(0, 16) == 0);
    assert(spec_cursor(f1) == 64);
    assert(fs.last() == FieldKind::Vec2);
    assert(align_up(64, 8) == 64);
    assert(spec_cursor(fs) == 72);
    assert(spec_record_align(f0) == 4);
    assert(spec_record_align(f1) == 16);
    assert(spec_record_align(fs) == 16);
    assert(align_up(72, 16) == 80);
}

/// The mathematical shape of one chunk's serialized record: its cell
/// colors as one array field, then its position.
pub open spec fn chunk_record_abs(c: Chunk) -> Seq<FieldAbs> {
    seq![
        FieldAbs::Array(c.cells@.map(|i: int, cell: Cell| ElemValue::Vec3(cell.color))),
        FieldAbs::Vec2(c.position),
    ]
}

impl Chunk {
    /// A chunk is well-formed when it has exactly its full complement
    /// of cells.
    pub open spec fn wf(self) -> bool {
        self.cells@.len() == CHUNK_CELLS
    }

    /// The field shapes of one serialized chunk.
    pub fn fields() -> (r: Vec<FieldKind>)
        ensures
            r@ == chunk_fields(),
    {
        let mut fs: Vec<FieldKind> = Vec::new();
        fs.push(FieldKind::Array { elem: ElemKind::Vec3, count: 4 });
        fs.push(FieldKind::Vec2);
        proof {
            assert(fs@ =~= chunk_fields());
        }
        fs
    }

    /// The chunk as one serializable record: its cell colors as an
    /// array field, then its position.
    pub fn to_record(&self) -> (r: Vec<FieldValue>)
        requires
            self.wf(),
        ensures
            record_matches(r@, chunk_fields()),
            record_abs(r@) == chunk_record_abs(*self),
    {
        let mut colors: Vec<ElemValue> = Vec::new();
        let mut i: usize = 0;
        while i < self.cells.len()
            invariant
                i <= self.cells@.len(),
                colors@.len() == i,
                forall|j: int|
                    0 <= j < i ==> #[trigger] colors@[j] == ElemValue::Vec3(
                        self.cells@[j].color,
                    ),
            decreases self.cells@.len() - i,
        {
            colors.push(ElemValue::Vec3(self.cells[i].color));
            i = i + 1;
        }
        let mut rec: Vec<FieldValue> = Vec::new();
        rec.push(FieldValue::Array(colors));
        rec.push(FieldValue::Vec2(self.position));
        proof {
            assert(record_matches(rec@, chunk_fields()));
            assert(colors@ =~= self.cells@.map(|i: int, cell: Cell| ElemValue::Vec3(cell.color)));
            assert(record_abs(rec@) =~= chunk_record_abs(*self));
        }
        rec
    }
}

/// Build the layout of a run of chunks: no fixed prefix, a tail of
/// chunk records whose start is rounded up to the device alignment.
pub fn chunk_layout(alignment: u64, max_fixed_size: u64) -> (r: Result<
    LayoutDescriptor,
    BufferError,
>)
    requires
        is_power_of_two(alignment as nat),
    ensures
        match r {
            Ok(d) => {
                &&& d.wf()
                &&& d.has_tail()
                &&& d.fields@ == Seq::<FieldKind>::empty()
                &&& d.spec_tail_fields() == chunk_fields()
                &&& d.fixed_size == 0
                &&& d.spec_tail_offset() == 0
                &&& d.spec_tail_stride() == 80
            },
            Err(_) => false,
        },
{
    proof {
        lemma_chunk_size();
        let e = Seq::<FieldKind>::empty();
        assert(spec_cursor(e) == 0);
        assert(spec_record_align(e) == 4);
        assert(align_up(0, 4) == 0);
    }
    let fields: Vec<FieldKind> = Vec::new();
    let r = LayoutDescriptor::new(fields, Some(Chunk::fields()), alignment, max_fixed_size);
    match r {
        Ok(d) => {
            proof {
                crate::layout::lemma_power_of_two_pos(d.alignment as nat);
                crate::layout::lemma_align_up(0, d.alignment as nat);
            }
            Ok(d)
        },
        Err(e) => {
            // Verus proves this arm unreachable from the constructor's contract.
            proof {
                assert(false);
            }
            Err(e)
        },
    }
}

/// A run of chunks as one serializable value: an empty prefix and one
/// tail record per chunk.
pub fn chunks_to_value(chunks: &Vec<Chunk>) -> (r: GpuValue)
    requires
        forall|i: int| 0 <= i < chunks@.len() ==> (#[trigger] chunks@[i]).wf(),
    ensures
        r.prefix@.len() == 0,
        r.tail@.len() == chunks@.len(),
        forall|i: int| 0 <= i < r.tail@.len() ==> record_matches(#[trigger] r.tail@[i]@, chunk_fields()),
        forall|i: int|
            0 <= i < r.tail@.len() ==> record_abs(#[trigger] r.tail@[i]@) == chunk_record_abs(
                chunks@[i],
            ),
{
    let mut tail: Vec<Vec<FieldValue>> = Vec::new();
    let mut i: usize = 0;
    while i < chunks.len()
        invariant
            i <= chunks@.len(),
            tail@.len() == i,
            forall|j: int| 0 <= j < chunks@.len() ==> (#[trigger] chunks@[j]).wf(),
            forall|j: int|
                0 <= j < i ==> record_matches(#[trigger] tail@[j]@, chunk_fields()),
            forall|j: int|
                0 <= j < i ==> record_abs(#[trigger] tail@[j]@) == chunk_record_abs(chunks@[j]),
        decreases chunks@.len() - i,
    {
        tail.push(chunks[i].to_record());
        i = i + 1;
    }
    GpuValue { prefix: Vec::new(), tail }
}

} // verus!
