use vstd::prelude::*;
use vstd::bytes::{spec_u32_to_le_bytes, spec_u32_from_le_bytes, u32_to_le_bytes, u32_from_le_bytes, lemma_auto_spec_u32_to_from_le_bytes};
use crate::error::BufferError;
use crate::layout::{
    ElemKind, FieldKind, LayoutDescriptor, align_up, lemma_align_up, lemma_cursor_monotone,
    lemma_cursor_step, lemma_field_in_record, lemma_power_of_two_pos, lemma_record_size_bounds,
    spec_cursor, spec_offset, spec_record_size,
};
use crate::vector2::Vector2;
use crate::vector3::Vector3;

verus! {

/// One element of a fixed-length array field.
#[derive(Clone, Copy, Debug, PartialEq, Eq, Structural)]
pub enum ElemValue {
    /// One 32-bit scalar, stored as its bit pattern.
    Scalar(u32),
    /// A two-component vector of 32-bit scalars.
    Vec2(Vector2<u32>),
    /// A three-component vector of 32-bit scalars.
    Vec3(Vector3<u32>),
}

/// The value of one field of a serialized record.
#[derive(Clone, Debug, PartialEq, Eq)]
pub enum FieldValue {
    /// One 32-bit scalar, stored as its bit pattern.
    Scalar(u32),
    /// A two-component vector of 32-bit scalars.
    Vec2(Vector2<u32>),
    /// A three-component vector of 32-bit scalars.
    Vec3(Vector3<u32>),
    /// A fixed-length array of elements.
    Array(Vec<ElemValue>),
}

/// A value to serialize: the fields of the fixed prefix, and the tail
/// elements (each a record of fields) if the layout carries a tail.
#[derive(Clone, Debug, PartialEq, Eq)]
pub struct GpuValue {
    /// Values of the prefix fields, in declaration order.
    pub prefix: Vec<FieldValue>,
    /// The tail elements; empty when the layout has no tail.
    pub tail: Vec<Vec<FieldValue>>,
}

/// The mathematical shape of a field value, with arrays as sequences.
pub ghost enum FieldAbs {
    Scalar(u32),
    Vec2(Vector2<u32>),
    Vec3(Vector3<u32>),
    Array(Seq<ElemValue>),
}

/// The mathematical shape of a whole value.
pub ghost struct ValueAbs {
    /// The prefix field values.
    pub prefix: Seq<FieldAbs>,
    /// The tail records.
    pub tail: Seq<Seq<FieldAbs>>,
}

impl FieldValue {
    /// The mathematical shape of this field value.
    pub open spec fn abs(self) -> FieldAbs {
        match self {
            FieldValue::Scalar(x) => FieldAbs::Scalar(x),
            FieldValue::Vec2(w) => FieldAbs::Vec2(w),
            FieldValue::Vec3(w) => FieldAbs::Vec3(w),
            FieldValue::Array(vs) => FieldAbs::Array(vs@),
        }
    }
}

/// The mathematical shape of a record of field values.
pub open spec fn record_abs(vals: Seq<FieldValue>) -> Seq<FieldAbs> {
    vals.map(|i: int, v: FieldValue| v.abs())
}

impl GpuValue {
    /// The mathematical shape of this value.
    pub open spec fn abs(self) -> ValueAbs {
        ValueAbs {
            prefix: record_abs(self.prefix@),
            tail: self.tail@.map(|i: int, r: Vec<FieldValue>| record_abs(r@)),
        }
    }

    /// Whether this value has the shape that `d` describes.
    pub open spec fn matches(self, d: LayoutDescriptor) -> bool {
        &&& record_matches(self.prefix@, d.fields@)
        &&& if d.has_tail() {
            forall|i: int|
                0 <= i < self.tail@.len() ==> record_matches(
                    #[trigger] self.tail@[i]@,
                    d.spec_tail_fields(),
                )
        } else {
            self.tail@.len() == 0
        }
    }
}

/// Whether an element value has the given element shape.
pub open spec fn elem_matches(v: ElemValue, k: ElemKind) -> bool {
    match v {
        ElemValue::Scalar(_) => k is Scalar,
        ElemValue::Vec2(_) => k is Vec2,
        ElemValue::Vec3(_) => k is Vec3,
    }
}

/// Whether a field value has the given field shape.
pub open spec fn field_matches(v: FieldValue, k: FieldKind) -> bool {
    match v {
        FieldValue::Scalar(_) => k is Scalar,
        FieldValue::Vec2(_) => k is Vec2,
        FieldValue::Vec3(_) => k is Vec3,
        FieldValue::Array(vs) => match k {
            FieldKind::Array { elem, count } => vs@.len() == count && forall|i: int|
                0 <= i < vs@.len() ==> elem_matches(#[trigger] vs@[i], elem),
            _ => false,
        },
    }
}

/// Whether a record of values has the given field shapes.
pub open spec fn record_matches(vals: Seq<FieldValue>, kinds: Seq<FieldKind>) -> bool {
    &&& vals.len() == kinds.len()
    &&& forall|i: int|
        0 <= i < kinds.len() ==> field_matches(#[trigger] vals[i], kinds[i])
}

/// `n` zero bytes.
pub open spec fn zero_bytes(n: nat) -> Seq<u8> {
    Seq::new(n, |i: int| 0u8)
}

/// `b` padded with zero bytes up to length `n`.
pub open spec fn padded(b: Seq<u8>, n: nat) -> Seq<u8>
    recommends
        b.len() <= n,
{
    b + zero_bytes((n - b.len()) as nat)
}

/// The bytes of one array element, unpadded.
pub open spec fn elem_bytes(v: ElemValue) -> Seq<u8> {
    match v {
        ElemValue::Scalar(x) => spec_u32_to_le_bytes(x),
        ElemValue::Vec2(w) => spec_u32_to_le_bytes(w.x) + spec_u32_to_le_bytes(w.y),
        ElemValue::Vec3(w) => spec_u32_to_le_bytes(w.x) + spec_u32_to_le_bytes(w.y)
            + spec_u32_to_le_bytes(w.z),
    }
}

/// The bytes of an array of elements, each padded to the stride of `k`.
pub open spec fn array_bytes(k: ElemKind, vs: Seq<ElemValue>) -> Seq<u8>
    decreases vs.len(),
{
    if vs.len() == 0 {
        Seq::empty()
    } else {
        array_bytes(k, vs.drop_last()) + padded(elem_bytes(vs.last()), k.spec_stride())
    }
}

/// The bytes of one field value.
pub open spec fn field_bytes(k: FieldKind, v: FieldValue) -> Seq<u8>
    recommends
        field_matches(v, k),
{
    match v {
        FieldValue::Scalar(x) => spec_u32_to_le_bytes(x),
        FieldValue::Vec2(w) => spec_u32_to_le_bytes(w.x) + spec_u32_to_le_bytes(w.y),
        FieldValue::Vec3(w) => spec_u32_to_le_bytes(w.x) + spec_u32_to_le_bytes(w.y)
            + spec_u32_to_le_bytes(w.z),
        FieldValue::Array(vs) => match k {
            FieldKind::Array { elem, count } => array_bytes(elem, vs@),
            _ => Seq::empty(),
        },
    }
}

/// The bytes of a record: each field at its offset, zero padding in
/// the gaps, ending right after the last field.
pub open spec fn record_bytes(kinds: Seq<FieldKind>, vals: Seq<FieldValue>) -> Seq<u8>
    recommends
        record_matches(vals, kinds),
    decreases kinds.len(),
{
    if kinds.len() == 0 {
        Seq::empty()
    } else {
        padded(
            record_bytes(kinds.drop_last(), vals.drop_last()),
            spec_offset(kinds, kinds.len() - 1),
        ) + field_bytes(kinds.last(), vals.last())
    }
}

/// The bytes of a run of tail elements, each record padded to `stride`.
pub open spec fn tail_bytes(
    kinds: Seq<FieldKind>,
    elems: Seq<Vec<FieldValue>>,
    stride: nat,
) -> Seq<u8>
    decreases elems.len(),
{
    if elems.len() == 0 {
        Seq::empty()
    } else {
        tail_bytes(kinds, elems.drop_last(), stride) + padded(
            record_bytes(kinds, elems.last()@),
            stride,
        )
    }
}

/// The full serialized bytes of a value under a layout: the fixed
/// prefix record padded to where the tail starts (or to the fixed size
/// when there is no tail), followed by the tail elements.
pub open spec fn value_bytes(d: LayoutDescriptor, v: GpuValue) -> Seq<u8>
    recommends
        d.wf(),
        v.matches(d),
{
    if d.has_tail() {
        padded(record_bytes(d.fields@, v.prefix@), d.spec_tail_offset()) + tail_bytes(
            d.spec_tail_fields(),
            v.tail@,
            d.spec_tail_stride(),
        )
    } else {
        padded(record_bytes(d.fields@, v.prefix@), d.fixed_size as nat)
    }
}

/// An element's bytes occupy exactly its size.
pub proof fn lemma_elem_bytes_len(v: ElemValue, k: ElemKind)
    requires
        elem_matches(v, k),
    ensures
        elem_bytes(v).len() == k.spec_size(),
{
    lemma_auto_spec_u32_to_from_le_bytes();
}

/// An array's bytes occupy one stride per element.
pub proof fn lemma_array_bytes_len(k: ElemKind, vs: Seq<ElemValue>)
    requires
        forall|i: int| 0 <= i < vs.len() ==> elem_matches(#[trigger] vs[i], k),
    ensures
        array_bytes(k, vs).len() == vs.len() * k.spec_stride(),
    decreases vs.len(),
{
    if vs.len() > 0 {
        lemma_array_bytes_len(k, vs.drop_last());
        lemma_elem_bytes_len(vs.last(), k);
        k.lemma_stride();
        assert((vs.len() - 1) * k.spec_stride() + k.spec_stride() == vs.len()
            * k.spec_stride()) by (nonlinear_arith);
    }
}

/// A field's bytes occupy exactly its size.
pub proof fn lemma_field_bytes_len(k: FieldKind, v: FieldValue)
    requires
        field_matches(v, k),
    ensures
        field_bytes(k, v).len() == k.spec_size(),
{
    lemma_auto_spec_u32_to_from_le_bytes();
    match v {
        FieldValue::Array(vs) => match k {
            FieldKind::Array { elem, count } => {
                lemma_array_bytes_len(elem, vs@);
            },
            _ => {},
        },
        _ => {},
    }
}

/// A record's bytes end exactly at the record's cursor.
pub proof fn lemma_record_bytes_len(kinds: Seq<FieldKind>, vals: Seq<FieldValue>)
    requires
        record_matches(vals, kinds),
    ensures
        record_bytes(kinds, vals).len() == spec_cursor(kinds),
    decreases kinds.len(),
{
    if kinds.len() > 0 {
        let n = kinds.len() as int;
        assert(record_matches(vals.drop_last(), kinds.drop_last())) by {
            assert(forall|i: int|
                0 <= i < n - 1 ==> vals.drop_last()[i] == #[trigger] vals[i]);
        }
        lemma_record_bytes_len(kinds.drop_last(), vals.drop_last());
        lemma_field_bytes_len(kinds.last(), vals.last());
        lemma_cursor_step(kinds, n - 1);
        assert(kinds.take(n - 1) =~= kinds.drop_last());
        lemma_align_up(spec_cursor(kinds.drop_last()), kinds.last().spec_align());
    }
}


/// Appending one element extends the array bytes by one padded element.
pub proof fn lemma_array_bytes_step(k: ElemKind, vs: Seq<ElemValue>, j: int)
    requires
        0 <= j < vs.len(),
    ensures
        array_bytes(k, vs.take(j + 1)) == array_bytes(k, vs.take(j)) + padded(
            elem_bytes(vs[j]),
            k.spec_stride(),
        ),
{
    let cur = vs.take(j + 1);
    assert(cur.drop_last() =~= vs.take(j));
    assert(cur.last() == vs[j]);
}

/// Appending one field extends the record bytes by the padding up to
/// the field's offset and the field's bytes.
pub proof fn lemma_record_bytes_step(kinds: Seq<FieldKind>, vals: Seq<FieldValue>, i: int)
    requires
        0 <= i < kinds.len(),
        vals.len() == kinds.len(),
    ensures
        record_bytes(kinds.take(i + 1), vals.take(i + 1)) == padded(
            record_bytes(kinds.take(i), vals.take(i)),
            spec_offset(kinds, i),
        ) + field_bytes(kinds[i], vals[i]),
{
    let kk = kinds.take(i + 1);
    let vv = vals.take(i + 1);
    assert(kk.drop_last() =~= kinds.take(i));
    assert(vv.drop_last() =~= vals.take(i));
    assert(kk.last() == kinds[i]);
    assert(vv.last() == vals[i]);
    assert(kk.take(i) =~= kinds.take(i));
    assert(spec_offset(kk, i) == spec_offset(kinds, i));
}

/// Appending one tail element extends the tail bytes by one padded
/// record.
pub proof fn lemma_tail_bytes_step(
    kinds: Seq<FieldKind>,
    elems: Seq<Vec<FieldValue>>,
    stride: nat,
    r: int,
)
    requires
        0 <= r < elems.len(),
    ensures
        tail_bytes(kinds, elems.take(r + 1), stride) == tail_bytes(kinds, elems.take(r), stride)
            + padded(record_bytes(kinds, elems[r]@), stride),
{
    let cur = elems.take(r + 1);
    assert(cur.drop_last() =~= elems.take(r));
    assert(cur.last() == elems[r]);
}

/// A run of tail elements occupies one stride per element.
pub proof fn lemma_tail_bytes_len(kinds: Seq<FieldKind>, elems: Seq<Vec<FieldValue>>, stride: nat)
    requires
        forall|i: int| 0 <= i < elems.len() ==> record_matches(#[trigger] elems[i]@, kinds),
        stride == spec_record_size(kinds),
    ensures
        tail_bytes(kinds, elems, stride).len() == elems.len() * stride,
    decreases elems.len(),
{
    if elems.len() > 0 {
        let n = elems.len() as int;
        assert(forall|i: int|
            0 <= i < n - 1 ==> record_matches(#[trigger] elems.drop_last()[i]@, kinds));
        lemma_tail_bytes_len(kinds, elems.drop_last(), stride);
        lemma_record_bytes_len(kinds, elems.last()@);
        lemma_record_size_bounds(kinds);
        assert((n - 1) * stride + stride == n * stride) by (nonlinear_arith);
    }
}

/// The serialized bytes of a value have exactly the total size that
/// the layout assigns to its tail element count.
pub proof fn lemma_value_bytes_len(d: LayoutDescriptor, v: GpuValue)
    requires
        d.wf(),
        v.matches(d),
    ensures
        value_bytes(d, v).len() == d.spec_total_size(v.tail@.len() as nat),
{
    lemma_record_bytes_len(d.fields@, v.prefix@);
    lemma_record_size_bounds(d.fields@);
    lemma_power_of_two_pos(d.alignment as nat);
    lemma_align_up(d.fixed_size as nat, d.alignment as nat);
    if d.has_tail() {
        lemma_tail_bytes_len(d.spec_tail_fields(), v.tail@, d.spec_tail_stride());
    }
}

/// Whether one element value has the given element shape.
pub fn elem_matches_exec(v: &ElemValue, k: &ElemKind) -> (r: bool)
    ensures
        r == elem_matches(*v, *k),
{
    match v {
        ElemValue::Scalar(_) => matches!(k, ElemKind::Scalar),
        ElemValue::Vec2(_) => matches!(k, ElemKind::Vec2),
        ElemValue::Vec3(_) => matches!(k, ElemKind::Vec3),
    }
}

/// Whether one field value has the given field shape.
pub fn field_matches_exec(v: &FieldValue, k: &FieldKind) -> (r: bool)
    ensures
        r == field_matches(*v, *k),
{
    match v {
        FieldValue::Scalar(_) => matches!(k, FieldKind::Scalar),
        FieldValue::Vec2(_) => matches!(k, FieldKind::Vec2),
        FieldValue::Vec3(_) => matches!(k, FieldKind::Vec3),
        FieldValue::Array(vs) => match k {
            FieldKind::Array { elem, count } => {
                if vs.len() as u64 != *count {
                    proof {
                        assert(!field_matches(*v, *k));
                    }
                    return false;
                }
                let mut i: usize = 0;
                while i < vs.len()
                    invariant
                        i <= vs.len(),
                        *v == FieldValue::Array(*vs),
                        *k == (FieldKind::Array { elem: *elem, count: *count }),
                        vs@.len() == *count,
                        forall|j: int| 0 <= j < i ==> elem_matches(#[trigger] vs@[j], *elem),
                    decreases vs.len() - i,
                {
                    if !elem_matches_exec(&vs[i], elem) {
                        proof {
                            assert(!elem_matches(vs@[i as int], *elem));
                            assert(!field_matches(*v, *k));
                        }
                        return false;
                    }
                    i = i + 1;
                }
                proof {
                    assert(field_matches(*v, *k));
                }
                true
            },
            _ => false,
        },
    }
}

/// Whether a record of values has the given field shapes.
pub fn record_matches_exec(vals: &Vec<FieldValue>, kinds: &Vec<FieldKind>) -> (r: bool)
    ensures
        r == record_matches(vals@, kinds@),
{
    if vals.len() != kinds.len() {
        return false;
    }
    let mut i: usize = 0;
    while i < kinds.len()
        invariant
            i <= kinds.len(),
            vals@.len() == kinds@.len(),
            forall|j: int| 0 <= j < i ==> field_matches(#[trigger] vals@[j], kinds@[j]),
        decreases kinds.len() - i,
    {
        if !field_matches_exec(&vals[i], &kinds[i]) {
            return false;
        }
        i = i + 1;
    }
    true
}

impl GpuValue {
    /// Whether this value has the shape that `d` describes.
    pub fn matches_layout(&self, d: &LayoutDescriptor) -> (r: bool)
        ensures
            r == self.matches(*d),
    {
        if !record_matches_exec(&self.prefix, &d.fields) {
            return false;
        }
        match &d.tail {
            Some(t) => {
                let mut i: usize = 0;
                while i < self.tail.len()
                    invariant
                        i <= self.tail@.len(),
                        d.tail is Some,
                        d.tail->Some_0.fields == t.fields,
                        forall|j: int|
                            0 <= j < i ==> record_matches(#[trigger] self.tail@[j]@, t.fields@),
                    decreases self.tail@.len() - i,
                {
                    if !record_matches_exec(&self.tail[i], &t.fields) {
                        return false;
                    }
                    i = i + 1;
                }
                true
            },
            None => self.tail.len() == 0,
        }
    }
}

/// Append zero bytes until the buffer reaches `target` bytes.
fn pad_to(buf: &mut Vec<u8>, target: usize)
    requires
        old(buf)@.len() <= target,
    ensures
        final(buf)@ == padded(old(buf)@, target as nat),
        final(buf)@.len() == target,
{
    let ghost base = buf@;
    while buf.len() < target
        invariant
            base.len() <= buf@.len() <= target,
            buf@ == base + zero_bytes((buf@.len() - base.len()) as nat),
        decreases target - buf@.len(),
    {
        buf.push(0u8);
        proof {
            assert(buf@ =~= base + zero_bytes((buf@.len() - base.len()) as nat));
        }
    }
    proof {
        assert(buf@ =~= padded(base, target as nat));
    }
}

/// Append the four little-endian bytes of `x`.
fn push_u32(buf: &mut Vec<u8>, x: u32)
    ensures
        final(buf)@ == old(buf)@ + spec_u32_to_le_bytes(x),
        final(buf)@.len() == old(buf)@.len() + 4,
{
    let mut tmp = u32_to_le_bytes(x);
    buf.append(&mut tmp);
    proof {
        lemma_auto_spec_u32_to_from_le_bytes();
    }
}

/// Append the bytes of one array element, unpadded.
fn write_elem(buf: &mut Vec<u8>, v: &ElemValue)
    ensures
        final(buf)@ == old(buf)@ + elem_bytes(*v),
        final(buf)@.len() == old(buf)@.len() + elem_bytes(*v).len(),
{
    match v {
        ElemValue::Scalar(x) => {
            push_u32(buf, *x);
        },
        ElemValue::Vec2(w) => {
            push_u32(buf, w.x);
            push_u32(buf, w.y);
            proof {
                assert(buf@ =~= old(buf)@ + elem_bytes(*v));
            }
        },
        ElemValue::Vec3(w) => {
            push_u32(buf, w.x);
            push_u32(buf, w.y);
            push_u32(buf, w.z);
            proof {
                assert(buf@ =~= old(buf)@ + elem_bytes(*v));
            }
        },
    }
}

/// Append the bytes of one field value.
fn write_field(buf: &mut Vec<u8>, k: &FieldKind, v: &FieldValue)
    requires
        field_matches(*v, *k),
        old(buf)@.len() + k.spec_size() <= usize::MAX,
    ensures
        final(buf)@ == old(buf)@ + field_bytes(*k, *v),
        final(buf)@.len() == old(buf)@.len() + k.spec_size(),
{
    proof {
        lemma_field_bytes_len(*k, *v);
    }
    match v {
        FieldValue::Scalar(x) => {
            push_u32(buf, *x);
        },
        FieldValue::Vec2(w) => {
            push_u32(buf, w.x);
            push_u32(buf, w.y);
            proof {
                assert(buf@ =~= old(buf)@ + field_bytes(*k, *v));
            }
        },
        FieldValue::Vec3(w) => {
            push_u32(buf, w.x);
            push_u32(buf, w.y);
            push_u32(buf, w.z);
            proof {
                assert(buf@ =~= old(buf)@ + field_bytes(*k, *v));
            }
        },
        FieldValue::Array(vs) => match k {
            FieldKind::Array { elem, count } => {
                let ghost base = buf@;
                let stride64 = elem.stride();
                let mut j: usize = 0;
                let mut end: usize = buf.len();
                proof {
                    elem.lemma_stride();
                    assert(array_bytes(*elem, vs@.take(0)) =~= Seq::empty());
                    assert(base + Seq::empty() =~= base);
                }
                while j < vs.len()
                    invariant
                        j <= vs@.len(),
                        vs@.len() == *count,
                        stride64 == elem.spec_stride(),
                        forall|i: int| 0 <= i < vs@.len() ==> elem_matches(#[trigger] vs@[i], *elem),
                        base.len() + (count * elem.spec_stride()) <= usize::MAX,
                        end == base.len() + j * elem.spec_stride(),
                        buf@ == base + array_bytes(*elem, vs@.take(j as int)),
                        buf@.len() == end,
                    decreases vs@.len() - j,
                {
                    proof {
                        elem.lemma_stride();
                        lemma_array_bytes_len(*elem, vs@.take(j as int));
                        vstd::arithmetic::mul::lemma_mul_inequality(
                            j as int + 1,
                            *count as int,
                            elem.spec_stride() as int,
                        );
                        assert(j * elem.spec_stride() + elem.spec_stride() == (j + 1)
                            * elem.spec_stride()) by (nonlinear_arith);
                        lemma_elem_bytes_len(vs@[j as int], *elem);
                    }
                    write_elem(buf, &vs[j]);
                    proof {
                        assert(stride64 <= 16);
                        assert(end + elem.spec_stride() <= usize::MAX);
                    }
                    end = end + stride64 as usize;
                    pad_to(buf, end);
                    proof {
                        lemma_array_bytes_step(*elem, vs@, j as int);
                        assert(buf@ =~= base + array_bytes(*elem, vs@.take(j as int + 1)));
                    }
                    j = j + 1;
                }
                proof {
                    assert(vs@.take(vs@.len() as int) =~= vs@);
                }
            },
            _ => {
                // Verus proves this arm unreachable: the value matches the kind.
                proof {
                    assert(false);
                }
            },
        },
    }
}

/// Append the bytes of a record: each field at its offset relative to
/// the buffer position on entry, zero padding in the gaps.
fn write_record(buf: &mut Vec<u8>, kinds: &Vec<FieldKind>, offsets: &Vec<u64>, vals: &Vec<
    FieldValue,
>)
    requires
        record_matches(vals@, kinds@),
        offsets@.len() == kinds@.len(),
        forall|i: int| 0 <= i < kinds@.len() ==> #[trigger] offsets@[i] == spec_offset(kinds@, i),
        old(buf)@.len() + spec_cursor(kinds@) <= usize::MAX,
    ensures
        final(buf)@ == old(buf)@ + record_bytes(kinds@, vals@),
        final(buf)@.len() == old(buf)@.len() + spec_cursor(kinds@),
{
    let ghost base = buf@;
    let base_len = buf.len();
    let mut i: usize = 0;
    proof {
        assert(record_bytes(kinds@.take(0), vals@.take(0)) =~= Seq::empty());
        assert(base + Seq::empty() =~= base);
        assert(spec_cursor(kinds@.take(0)) == 0);
    }
    while i < kinds.len()
        invariant
            i <= kinds@.len(),
            record_matches(vals@, kinds@),
            offsets@.len() == kinds@.len(),
            forall|j: int| 0 <= j < kinds@.len() ==> #[trigger] offsets@[j] == spec_offset(
                kinds@,
                j,
            ),
            base.len() + spec_cursor(kinds@) <= usize::MAX,
            base.len() == base_len,
            buf@ == base + record_bytes(kinds@.take(i as int), vals@.take(i as int)),
            buf@.len() == base.len() + spec_cursor(kinds@.take(i as int)),
        decreases kinds@.len() - i,
    {
        proof {
            assert(record_matches(vals@.take(i as int), kinds@.take(i as int)));
            lemma_field_in_record(kinds@, i as int);
            lemma_cursor_step(kinds@, i as int);
            lemma_cursor_monotone(kinds@, i as int + 1, kinds@.len() as int);
            assert(kinds@.take(kinds@.len() as int) =~= kinds@);
            lemma_record_size_bounds(kinds@);
            lemma_record_bytes_len(kinds@.take(i as int), vals@.take(i as int));
        }
        let off = offsets[i];
        pad_to(buf, base_len + off as usize);
        write_field(buf, &kinds[i], &vals[i]);
        proof {
            lemma_record_bytes_step(kinds@, vals@, i as int);
            lemma_field_bytes_len(kinds@[i as int], vals@[i as int]);
            assert(buf@ =~= base + record_bytes(kinds@.take(i as int + 1), vals@.take(i as int + 1)));
        }
        i = i + 1;
    }
    proof {
        assert(kinds@.take(kinds@.len() as int) =~= kinds@);
        assert(vals@.take(vals@.len() as int) =~= vals@);
    }
}

/// Serialize `v` under layout `d` into the device byte layout: prefix
/// fields at their offsets, then, after padding up to the tail offset,
/// the tail elements at one stride each.
pub fn serialize_value(d: &LayoutDescriptor, v: &GpuValue) -> (r: Result<Vec<u8>, BufferError>)
    requires
        d.wf(),
    ensures
        match r {
            Ok(b) => {
                &&& v.matches(*d)
                &&& b@ == value_bytes(*d, *v)
                &&& b@.len() == d.spec_total_size(v.tail@.len() as nat)
                &&& d.spec_total_size(v.tail@.len() as nat) <= usize::MAX
            },
            Err(BufferError::SizeMismatch) => !v.matches(*d),
            Err(BufferError::CapacityOverflow) => v.matches(*d) && d.spec_total_size(
                v.tail@.len() as nat,
            ) > usize::MAX,
            Err(_) => false,
        },
{
    if !v.matches_layout(d) {
        return Err(BufferError::SizeMismatch);
    }
    proof {
        lemma_value_bytes_len(*d, *v);
        lemma_record_bytes_len(d.fields@, v.prefix@);
        lemma_record_size_bounds(d.fields@);
        lemma_power_of_two_pos(d.alignment as nat);
        lemma_align_up(d.fixed_size as nat, d.alignment as nat);
    }
    let total64: u64 = match &d.tail {
        Some(t) => {
            let count = v.tail.len() as u64;
            let tail_len = match count.checked_mul(t.stride) {
                Some(m) => m,
                None => {
                    return Err(BufferError::CapacityOverflow);
                },
            };
            match t.offset.checked_add(tail_len) {
                Some(s) => s,
                None => {
                    return Err(BufferError::CapacityOverflow);
                },
            }
        },
        None => d.fixed_size,
    };
    if total64 > usize::MAX as u64 {
        return Err(BufferError::CapacityOverflow);
    }
    let total = total64 as usize;
    let mut buf: Vec<u8> = Vec::new();
    proof {
        assert(Seq::empty() + record_bytes(d.fields@, v.prefix@) =~= record_bytes(
            d.fields@,
            v.prefix@,
        ));
    }
    write_record(&mut buf, &d.fields, &d.offsets, &v.prefix);
    match &d.tail {
        None => {
            pad_to(&mut buf, total);
            Ok(buf)
        },
        Some(t) => {
            pad_to(&mut buf, t.offset as usize);
            let ghost head = buf@;
            let mut r: usize = 0;
            let mut end: usize = buf.len();
            proof {
                assert(tail_bytes(t.fields@, v.tail@.take(0), t.stride as nat) =~= Seq::empty());
                assert(head + Seq::empty() =~= head);
            }
            while r < v.tail.len()
                invariant
                    r <= v.tail@.len(),
                    d.wf(),
                    v.matches(*d),
                    d.tail is Some,
                    d.tail->Some_0 == *t,
                    head == padded(record_bytes(d.fields@, v.prefix@), d.spec_tail_offset()),
                    head.len() == d.spec_tail_offset(),
                    head.len() + v.tail@.len() * t.stride <= usize::MAX,
                    end == head.len() + r * t.stride,
                    buf@ == head + tail_bytes(t.fields@, v.tail@.take(r as int), t.stride as nat),
                    buf@.len() == end,
                decreases v.tail@.len() - r,
            {
                proof {
                    vstd::arithmetic::mul::lemma_mul_inequality(
                        r as int + 1,
                        v.tail@.len() as int,
                        t.stride as int,
                    );
                    assert(r * t.stride + t.stride == (r + 1) * t.stride) by (nonlinear_arith);
                    assert(record_matches(v.tail@[r as int]@, t.fields@));
                    lemma_record_bytes_len(t.fields@, v.tail@[r as int]@);
                    lemma_record_size_bounds(t.fields@);
                }
                write_record(&mut buf, &t.fields, &t.offsets, &v.tail[r]);
                proof {
                    vstd::arithmetic::mul::lemma_mul_inequality(
                        1,
                        v.tail@.len() as int,
                        t.stride as int,
                    );
                    assert(t.stride <= usize::MAX);
                    assert(end + t.stride <= usize::MAX);
                }
                end = end + t.stride as usize;
                pad_to(&mut buf, end);
                proof {
                    lemma_tail_bytes_step(t.fields@, v.tail@, t.stride as nat, r as int);
                    assert(buf@ =~= head + tail_bytes(
                        t.fields@,
                        v.tail@.take(r as int + 1),
                        t.stride as nat,
                    ));
                }
                r = r + 1;
            }
            proof {
                assert(v.tail@.take(v.tail@.len() as int) =~= v.tail@);
            }
            Ok(buf)
        },
    }
}


/// Reading inside the first operand of a concatenation sees that
/// operand's bytes.
pub proof fn lemma_subrange_of_prefix(a: Seq<u8>, b: Seq<u8>, x: int, y: int)
    requires
        0 <= x <= y <= a.len(),
    ensures
        (a + b).subrange(x, y) == a.subrange(x, y),
{
    assert((a + b).subrange(x, y) =~= a.subrange(x, y));
}

/// Reading the appended part of a concatenation sees the appended
/// bytes.
pub proof fn lemma_subrange_of_suffix(a: Seq<u8>, b: Seq<u8>, x: int, y: int)
    requires
        0 <= x <= y <= b.len(),
    ensures
        (a + b).subrange(a.len() + x, a.len() + y) == b.subrange(x, y),
{
    assert((a + b).subrange(a.len() + x, a.len() + y) =~= b.subrange(x, y));
}

/// A subrange of a subrange reads the same bytes as one direct
/// subrange.
pub proof fn lemma_subrange_compose(b: Seq<u8>, off: int, len: int, x: int, y: int)
    requires
        0 <= off,
        off + len <= b.len(),
        0 <= x <= y <= len,
    ensures
        b.subrange(off, off + len).subrange(x, y) == b.subrange(off + x, off + y),
{
    assert(b.subrange(off, off + len).subrange(x, y) =~= b.subrange(off + x, off + y));
}

/// The bytes of array element `i` sit `i` strides into the array's
/// bytes.
pub proof fn lemma_array_elem_extract(k: ElemKind, vs: Seq<ElemValue>, i: int)
    requires
        forall|j: int| 0 <= j < vs.len() ==> elem_matches(#[trigger] vs[j], k),
        0 <= i < vs.len(),
    ensures
        array_bytes(k, vs).subrange(
            i * k.spec_stride(),
            i * k.spec_stride() + k.spec_size(),
        ) == elem_bytes(vs[i]),
    decreases vs.len(),
{
    let n = vs.len() as int;
    let stride = k.spec_stride() as int;
    let size = k.spec_size() as int;
    k.lemma_stride();
    lemma_elem_bytes_len(vs.last(), k);
    lemma_array_bytes_len(k, vs.drop_last());
    let prev = array_bytes(k, vs.drop_last());
    let last_padded = padded(elem_bytes(vs.last()), k.spec_stride());
    if i == n - 1 {
        assert(prev.len() == i * stride);
        lemma_subrange_of_suffix(prev, last_padded, 0, size);
        lemma_subrange_of_prefix(elem_bytes(vs.last()), zero_bytes((k.spec_stride()
            - elem_bytes(vs.last()).len()) as nat), 0, size);
        assert(elem_bytes(vs.last()).subrange(0, size) =~= elem_bytes(vs.last()));
    } else {
        lemma_array_elem_extract(k, vs.drop_last(), i);
        assert(vs.drop_last()[i] == vs[i]);
        vstd::arithmetic::mul::lemma_mul_inequality(i + 1, n - 1, stride);
        assert(i * stride + stride == (i + 1) * stride) by (nonlinear_arith);
        lemma_subrange_of_prefix(prev, last_padded, i * stride, i * stride + size);
    }
}

/// The bytes of record field `i` sit at that field's offset in the
/// record's bytes.
pub proof fn lemma_record_field_extract(kinds: Seq<FieldKind>, vals: Seq<FieldValue>, i: int)
    requires
        record_matches(vals, kinds),
        0 <= i < kinds.len(),
    ensures
        record_bytes(kinds, vals).subrange(
            spec_offset(kinds, i) as int,
            spec_offset(kinds, i) + kinds[i].spec_size() as int,
        ) == field_bytes(kinds[i], vals[i]),
    decreases kinds.len(),
{
    let n = kinds.len() as int;
    let prev_k = kinds.drop_last();
    let prev_v = vals.drop_last();
    assert(record_matches(prev_v, prev_k)) by {
        assert(forall|j: int| 0 <= j < n - 1 ==> prev_v[j] == #[trigger] vals[j]);
    }
    lemma_record_bytes_len(prev_k, prev_v);
    lemma_field_bytes_len(kinds.last(), vals.last());
    lemma_cursor_step(kinds, n - 1);
    assert(kinds.take(n - 1) =~= prev_k);
    let off_last = spec_offset(kinds, n - 1);
    let head = padded(record_bytes(prev_k, prev_v), off_last);
    let tail_b = field_bytes(kinds.last(), vals.last());
    assert(head.len() == off_last);
    if i == n - 1 {
        lemma_subrange_of_suffix(head, tail_b, 0, tail_b.len() as int);
        assert(tail_b.subrange(0, tail_b.len() as int) =~= tail_b);
    } else {
        lemma_record_field_extract(prev_k, prev_v, i);
        assert(prev_k[i] == kinds[i]);
        assert(prev_v[i] == vals[i]);
        assert(prev_k.take(i) =~= kinds.take(i));
        assert(spec_offset(prev_k, i) == spec_offset(kinds, i));
        lemma_cursor_step(prev_k, i);
        lemma_cursor_monotone(prev_k, i + 1, n - 1);
        assert(prev_k.take(n - 1) =~= prev_k);
        assert(spec_offset(kinds, i) + kinds[i].spec_size() <= record_bytes(
            prev_k,
            prev_v,
        ).len());
        lemma_subrange_of_prefix(record_bytes(prev_k, prev_v), zero_bytes((off_last
            - record_bytes(prev_k, prev_v).len()) as nat), spec_offset(kinds, i) as int,
            spec_offset(kinds, i) + kinds[i].spec_size() as int);
        lemma_subrange_of_prefix(head, tail_b, spec_offset(kinds, i) as int, spec_offset(
            kinds,
            i,
        ) + kinds[i].spec_size() as int);
    }
}

/// The bytes of tail element `r` sit `r` strides past the start of the
/// tail bytes.
pub proof fn lemma_tail_elem_extract(
    kinds: Seq<FieldKind>,
    elems: Seq<Vec<FieldValue>>,
    stride: nat,
    r: int,
)
    requires
        forall|j: int| 0 <= j < elems.len() ==> record_matches(#[trigger] elems[j]@, kinds),
        stride == spec_record_size(kinds),
        0 <= r < elems.len(),
    ensures
        tail_bytes(kinds, elems, stride).subrange(
            r * stride,
            r * stride + spec_cursor(kinds),
        ) == record_bytes(kinds, elems[r]@),
    decreases elems.len(),
{
    let n = elems.len() as int;
    lemma_record_size_bounds(kinds);
    lemma_record_bytes_len(kinds, elems.last()@);
    lemma_tail_bytes_len(kinds, elems.drop_last(), stride);
    let prev = tail_bytes(kinds, elems.drop_last(), stride);
    let last_padded = padded(record_bytes(kinds, elems.last()@), stride);
    if r == n - 1 {
        assert(prev.len() == r * stride);
        lemma_subrange_of_suffix(prev, last_padded, 0, spec_cursor(kinds) as int);
        lemma_subrange_of_prefix(record_bytes(kinds, elems.last()@), zero_bytes((stride
            - record_bytes(kinds, elems.last()@).len()) as nat), 0, spec_cursor(kinds) as int);
        assert(record_bytes(kinds, elems.last()@).subrange(0, spec_cursor(kinds) as int)
            =~= record_bytes(kinds, elems.last()@));
    } else {
        lemma_tail_elem_extract(kinds, elems.drop_last(), stride, r);
        assert(elems.drop_last()[r] == elems[r]);
        vstd::arithmetic::mul::lemma_mul_inequality(r + 1, n - 1, stride as int);
        assert(r * stride + stride == (r + 1) * stride) by (nonlinear_arith);
        lemma_subrange_of_prefix(prev, last_padded, r * stride, r * stride + spec_cursor(
            kinds,
        ));
    }
}


/// The 32-bit scalar stored at byte offset `off`.
pub open spec fn spec_read_u32(b: Seq<u8>, off: int) -> u32 {
    spec_u32_from_le_bytes(b.subrange(off, off + 4))
}

/// The element of shape `k` stored at byte offset `off`.
pub open spec fn parse_elem(b: Seq<u8>, off: int, k: ElemKind) -> ElemValue {
    match k {
        ElemKind::Scalar => ElemValue::Scalar(spec_read_u32(b, off)),
        ElemKind::Vec2 => ElemValue::Vec2(
            Vector2 { x: spec_read_u32(b, off), y: spec_read_u32(b, off + 4) },
        ),
        ElemKind::Vec3 => ElemValue::Vec3(
            Vector3 {
                x: spec_read_u32(b, off),
                y: spec_read_u32(b, off + 4),
                z: spec_read_u32(b, off + 8),
            },
        ),
    }
}

/// The field of shape `k` stored at byte offset `off`.
pub open spec fn parse_field(b: Seq<u8>, off: int, k: FieldKind) -> FieldAbs {
    match k {
        FieldKind::Scalar => FieldAbs::Scalar(spec_read_u32(b, off)),
        FieldKind::Vec2 => FieldAbs::Vec2(
            Vector2 { x: spec_read_u32(b, off), y: spec_read_u32(b, off + 4) },
        ),
        FieldKind::Vec3 => FieldAbs::Vec3(
            Vector3 {
                x: spec_read_u32(b, off),
                y: spec_read_u32(b, off + 4),
                z: spec_read_u32(b, off + 8),
            },
        ),
        FieldKind::Array { elem, count } => FieldAbs::Array(
            Seq::new(
                count as nat,
                |i: int| parse_elem(b, off + i * elem.spec_stride(), elem),
            ),
        ),
    }
}

/// The record with field shapes `kinds` stored at byte offset `off`.
pub open spec fn parse_record(b: Seq<u8>, off: int, kinds: Seq<FieldKind>) -> Seq<FieldAbs> {
    Seq::new(kinds.len(), |i: int| parse_field(b, off + spec_offset(kinds, i), kinds[i]))
}

/// Whether `len` is a byte length that the layout can produce: with a
/// tail, at least the tail offset plus a whole number of strides;
/// without one, exactly the fixed size.
pub open spec fn spec_size_ok(d: LayoutDescriptor, len: nat) -> bool {
    if d.has_tail() {
        len >= d.spec_tail_offset() && (len - d.spec_tail_offset()) % (
        d.spec_tail_stride() as int) == 0
    } else {
        len == d.fixed_size
    }
}

/// The whole value stored in `b` under layout `d`: the prefix record
/// at offset zero and, for tail-bearing layouts, as many tail records
/// as fit past the tail offset.
pub open spec fn parse_value(d: LayoutDescriptor, b: Seq<u8>) -> ValueAbs {
    ValueAbs {
        prefix: parse_record(b, 0, d.fields@),
        tail: if d.has_tail() && b.len() >= d.spec_tail_offset() {
            let n = (b.len() - d.spec_tail_offset()) / (d.spec_tail_stride() as int);
            Seq::new(
                n as nat,
                |r: int| parse_record(
                    b,
                    d.spec_tail_offset() + r * d.spec_tail_stride(),
                    d.spec_tail_fields(),
                ),
            )
        } else {
            Seq::empty()
        },
    }
}

/// Parsing an element out of bytes that hold that element's
/// serialization gives the element back.
pub proof fn lemma_parse_elem_roundtrip(b: Seq<u8>, off: int, k: ElemKind, v: ElemValue)
    requires
        elem_matches(v, k),
        0 <= off,
        off + k.spec_size() <= b.len(),
        b.subrange(off, off + k.spec_size() as int) == elem_bytes(v),
    ensures
        parse_elem(b, off, k) == v,
{
    lemma_auto_spec_u32_to_from_le_bytes();
    let size = k.spec_size() as int;
    match v {
        ElemValue::Scalar(x) => {
            lemma_subrange_compose(b, off, size, 0, 4);
            assert(elem_bytes(v).subrange(0, 4) =~= spec_u32_to_le_bytes(x));
        },
        ElemValue::Vec2(w) => {
            lemma_subrange_compose(b, off, size, 0, 4);
            lemma_subrange_compose(b, off, size, 4, 8);
            assert(elem_bytes(v).subrange(0, 4) =~= spec_u32_to_le_bytes(w.x));
            assert(elem_bytes(v).subrange(4, 8) =~= spec_u32_to_le_bytes(w.y));
        },
        ElemValue::Vec3(w) => {
            lemma_subrange_compose(b, off, size, 0, 4);
            lemma_subrange_compose(b, off, size, 4, 8);
            lemma_subrange_compose(b, off, size, 8, 12);
            assert(elem_bytes(v).subrange(0, 4) =~= spec_u32_to_le_bytes(w.x));
            assert(elem_bytes(v).subrange(4, 8) =~= spec_u32_to_le_bytes(w.y));
            assert(elem_bytes(v).subrange(8, 12) =~= spec_u32_to_le_bytes(w.z));
        },
    }
}

/// Parsing a field out of bytes that hold that field's serialization
/// gives the field value back.
pub proof fn lemma_parse_field_roundtrip(b: Seq<u8>, off: int, k: FieldKind, v: FieldValue)
    requires
        field_matches(v, k),
        0 <= off,
        off + k.spec_size() <= b.len(),
        b.subrange(off, off + k.spec_size() as int) == field_bytes(k, v),
    ensures
        parse_field(b, off, k) == v.abs(),
{
    lemma_auto_spec_u32_to_from_le_bytes();
    let size = k.spec_size() as int;
    match v {
        FieldValue::Scalar(x) => {
            lemma_subrange_compose(b, off, size, 0, 4);
            assert(field_bytes(k, v).subrange(0, 4) =~= spec_u32_to_le_bytes(x));
        },
        FieldValue::Vec2(w) => {
            lemma_subrange_compose(b, off, size, 0, 4);
            lemma_subrange_compose(b, off, size, 4, 8);
            assert(field_bytes(k, v).subrange(0, 4) =~= spec_u32_to_le_bytes(w.x));
            assert(field_bytes(k, v).subrange(4, 8) =~= spec_u32_to_le_bytes(w.y));
        },
        FieldValue::Vec3(w) => {
            lemma_subrange_compose(b, off, size, 0, 4);
            lemma_subrange_compose(b, off, size, 4, 8);
            lemma_subrange_compose(b, off, size, 8, 12);
            assert(field_bytes(k, v).subrange(0, 4) =~= spec_u32_to_le_bytes(w.x));
            assert(field_bytes(k, v).subrange(4, 8) =~= spec_u32_to_le_bytes(w.y));
            assert(field_bytes(k, v).subrange(8, 12) =~= spec_u32_to_le_bytes(w.z));
        },
        FieldValue::Array(vs) => match k {
            FieldKind::Array { elem, count } => {
                let stride = elem.spec_stride() as int;
                let esize = elem.spec_size() as int;
                elem.lemma_stride();
                let parsed = Seq::new(
                    count as nat,
                    |i: int| parse_elem(b, off + i * stride, elem),
                );
                assert forall|i: int| 0 <= i < vs@.len() implies parsed[i] == vs@[i] by {
                    vstd::arithmetic::mul::lemma_mul_inequality(
                        i + 1,
                        count as int,
                        stride,
                    );
                    assert(i * stride + stride == (i + 1) * stride) by (nonlinear_arith);
                    assert(i * stride >= 0) by (nonlinear_arith)
                        requires
                            i >= 0,
                            stride >= 0,
                    ;
                    lemma_array_elem_extract(elem, vs@, i);
                    lemma_subrange_compose(b, off, size, i * stride, i * stride + esize);
                    lemma_parse_elem_roundtrip(b, off + i * stride, elem, vs@[i]);
                }
                assert(parsed =~= vs@);
            },
            _ => {},
        },
    }
}

/// Parsing a record out of bytes that hold that record's serialization
/// gives the field values back.
pub proof fn lemma_parse_record_roundtrip(
    b: Seq<u8>,
    off: int,
    kinds: Seq<FieldKind>,
    vals: Seq<FieldValue>,
)
    requires
        record_matches(vals, kinds),
        0 <= off,
        off + spec_cursor(kinds) <= b.len(),
        b.subrange(off, off + spec_cursor(kinds) as int) == record_bytes(kinds, vals),
    ensures
        parse_record(b, off, kinds) == record_abs(vals),
{
    let n = kinds.len() as int;
    lemma_record_bytes_len(kinds, vals);
    assert forall|i: int| 0 <= i < n implies parse_record(b, off, kinds)[i] == record_abs(
        vals,
    )[i] by {
        lemma_cursor_step(kinds, i);
        lemma_cursor_monotone(kinds, i + 1, n);
        assert(kinds.take(n) =~= kinds);
        lemma_record_field_extract(kinds, vals, i);
        lemma_subrange_compose(
            b,
            off,
            spec_cursor(kinds) as int,
            spec_offset(kinds, i) as int,
            spec_offset(kinds, i) + kinds[i].spec_size() as int,
        );
        lemma_parse_field_roundtrip(b, off + spec_offset(kinds, i), kinds[i], vals[i]);
    }
    assert(parse_record(b, off, kinds) =~= record_abs(vals));
}

/// Law: parsing the serializer's output under the same layout
/// reconstructs the value that was serialized, field for field and
/// element for element, and the output's length is one the layout can
/// produce.
pub proof fn lemma_serialize_roundtrip(d: LayoutDescriptor, v: GpuValue)
    requires
        d.wf(),
        v.matches(d),
    ensures
        parse_value(d, value_bytes(d, v)) == v.abs(),
        spec_size_ok(d, value_bytes(d, v).len()),
{
    let b = value_bytes(d, v);
    lemma_value_bytes_len(d, v);
    lemma_record_bytes_len(d.fields@, v.prefix@);
    lemma_record_size_bounds(d.fields@);
    lemma_power_of_two_pos(d.alignment as nat);
    lemma_align_up(d.fixed_size as nat, d.alignment as nat);
    let cursor = spec_cursor(d.fields@) as int;
    let rb = record_bytes(d.fields@, v.prefix@);
    if d.has_tail() {
        let toff = d.spec_tail_offset() as int;
        let stride = d.spec_tail_stride() as int;
        let n = v.tail@.len() as int;
        let tf = d.spec_tail_fields();
        let head = padded(rb, d.spec_tail_offset());
        let tb = tail_bytes(tf, v.tail@, d.spec_tail_stride());
        lemma_tail_bytes_len(tf, v.tail@, d.spec_tail_stride());
        lemma_record_size_bounds(tf);
        // the prefix record reads back
        lemma_subrange_of_prefix(head, tb, 0, cursor);
        lemma_subrange_of_prefix(rb, zero_bytes((d.spec_tail_offset() - rb.len()) as nat), 0, cursor);
        assert(rb.subrange(0, cursor) =~= rb);
        lemma_parse_record_roundtrip(b, 0, d.fields@, v.prefix@);
        // the element count reads back
        assert(stride * n == n * stride) by (nonlinear_arith);
        vstd::arithmetic::div_mod::lemma_mod_multiples_basic(n, stride);
        vstd::arithmetic::div_mod::lemma_div_multiples_vanish(n, stride);
        assert((b.len() - toff) % stride == 0);
        assert((b.len() - toff) / stride == n);
        // each tail record reads back
        let parsed_tail = parse_value(d, b).tail;
        assert(parsed_tail.len() == n);
        assert forall|r: int| 0 <= r < n implies parsed_tail[r] == v.abs().tail[r] by {
            vstd::arithmetic::mul::lemma_mul_inequality(r + 1, n, stride);
            assert(r * stride + stride == (r + 1) * stride) by (nonlinear_arith);
            assert(r * stride >= 0) by (nonlinear_arith)
                requires
                    r >= 0,
                    stride >= 0,
            ;
            assert(record_matches(v.tail@[r]@, tf));
            lemma_record_bytes_len(tf, v.tail@[r]@);
            lemma_tail_elem_extract(tf, v.tail@, d.spec_tail_stride(), r);
            lemma_subrange_of_suffix(head, tb, r * stride, r * stride + spec_cursor(tf));
            lemma_parse_record_roundtrip(b, toff + r * stride, tf, v.tail@[r]@);
        }
        assert(parsed_tail =~= v.abs().tail);
        assert(parse_value(d, b).prefix =~= v.abs().prefix);
    } else {
        lemma_subrange_of_prefix(rb, zero_bytes((d.fixed_size - rb.len()) as nat), 0, cursor);
        assert(rb.subrange(0, cursor) =~= rb);
        lemma_parse_record_roundtrip(b, 0, d.fields@, v.prefix@);
        assert(parse_value(d, b).prefix =~= v.abs().prefix);
        assert(v.abs().tail =~= Seq::<Seq<FieldAbs>>::empty());
    }
}


/// Read the 32-bit scalar at byte offset `off`.
fn read_u32_at(bytes: &Vec<u8>, off: usize) -> (r: u32)
    requires
        off + 4 <= bytes@.len(),
    ensures
        r == spec_read_u32(bytes@, off as int),
{
    let n = bytes.len();
    proof {
        assert(n == bytes@.len());
    }
    let s = vstd::slice::slice_subrange(bytes.as_slice(), off, off + 4);
    u32_from_le_bytes(s)
}

/// Read the element of shape `k` at byte offset `off`.
fn read_elem(bytes: &Vec<u8>, off: usize, k: &ElemKind) -> (r: ElemValue)
    requires
        off + k.spec_size() <= bytes@.len(),
    ensures
        r == parse_elem(bytes@, off as int, *k),
        elem_matches(r, *k),
{
    let n = bytes.len();
    proof {
        assert(n == bytes@.len());
    }
    match k {
        ElemKind::Scalar => ElemValue::Scalar(read_u32_at(bytes, off)),
        ElemKind::Vec2 => ElemValue::Vec2(
            Vector2::new(read_u32_at(bytes, off), read_u32_at(bytes, off + 4)),
        ),
        ElemKind::Vec3 => ElemValue::Vec3(
            Vector3::new(
                read_u32_at(bytes, off),
                read_u32_at(bytes, off + 4),
                read_u32_at(bytes, off + 8),
            ),
        ),
    }
}

/// Read the field of shape `k` at byte offset `off`.
fn read_field(bytes: &Vec<u8>, off: usize, k: &FieldKind) -> (r: FieldValue)
    requires
        off + k.spec_size() <= bytes@.len(),
    ensures
        field_matches(r, *k),
        r.abs() == parse_field(bytes@, off as int, *k),
{
    let n = bytes.len();
    proof {
        assert(n == bytes@.len());
    }
    match k {
        FieldKind::Scalar => FieldValue::Scalar(read_u32_at(bytes, off)),
        FieldKind::Vec2 => FieldValue::Vec2(
            Vector2::new(read_u32_at(bytes, off), read_u32_at(bytes, off + 4)),
        ),
        FieldKind::Vec3 => FieldValue::Vec3(
            Vector3::new(
                read_u32_at(bytes, off),
                read_u32_at(bytes, off + 4),
                read_u32_at(bytes, off + 8),
            ),
        ),
        FieldKind::Array { elem, count } => {
            proof {
                elem.lemma_stride();
                if *count > 0 {
                    vstd::arithmetic::mul::lemma_mul_left_inequality(
                        *count as int,
                        1,
                        elem.spec_stride() as int,
                    );
                    assert(*count <= k.spec_size());
                }
                assert(*count <= usize::MAX);
            }
            let cnt = *count as usize;
            let stride_us = elem.stride() as usize;
            let mut out: Vec<ElemValue> = Vec::new();
            let mut j: usize = 0;
            let mut pos: usize = off;
            while j < cnt
                invariant
                    *k == (FieldKind::Array { elem: *elem, count: *count }),
                    cnt == *count,
                    stride_us == elem.spec_stride(),
                    j <= cnt,
                    pos == off + j * elem.spec_stride(),
                    off + k.spec_size() <= bytes@.len(),
                    bytes@.len() <= usize::MAX,
                    out@.len() == j,
                    forall|jj: int|
                        0 <= jj < j ==> elem_matches(#[trigger] out@[jj], *elem) && out@[jj]
                            == parse_elem(
                            bytes@,
                            off + jj * elem.spec_stride(),
                            *elem,
                        ),
                decreases cnt - j,
            {
                proof {
                    elem.lemma_stride();
                    vstd::arithmetic::mul::lemma_mul_inequality(
                        j as int + 1,
                        *count as int,
                        elem.spec_stride() as int,
                    );
                    assert(j * elem.spec_stride() + elem.spec_stride() == (j + 1)
                        * elem.spec_stride()) by (nonlinear_arith);
                }
                let e = read_elem(bytes, pos, elem);
                out.push(e);
                pos = pos + stride_us;
                j = j + 1;
            }
            proof {
                assert(out@ =~= Seq::new(
                    *count as nat,
                    |i: int| parse_elem(bytes@, off + i * elem.spec_stride(), *elem),
                ));
            }
            FieldValue::Array(out)
        },
    }
}

/// Read the record with field shapes `kinds` starting at byte offset
/// `base`, with each field at its offset in `offsets`.
#[verifier::rlimit(50)]
fn read_record(bytes: &Vec<u8>, base: usize, kinds: &Vec<FieldKind>, offsets: &Vec<u64>) -> (r:
    Vec<FieldValue>)
    requires
        offsets@.len() == kinds@.len(),
        forall|i: int| 0 <= i < kinds@.len() ==> #[trigger] offsets@[i] == spec_offset(kinds@, i),
        base + spec_cursor(kinds@) <= bytes@.len(),
    ensures
        record_matches(r@, kinds@),
        record_abs(r@) == parse_record(bytes@, base as int, kinds@),
{
    let n = bytes.len();
    proof {
        assert(n == bytes@.len());
    }
    let mut out: Vec<FieldValue> = Vec::new();
    let mut i: usize = 0;
    while i < kinds.len()
        invariant
            i <= kinds@.len(),
            offsets@.len() == kinds@.len(),
            forall|j: int| 0 <= j < kinds@.len() ==> #[trigger] offsets@[j] == spec_offset(
                kinds@,
                j,
            ),
            base + spec_cursor(kinds@) <= bytes@.len(),
            bytes@.len() <= usize::MAX,
            out@.len() == i,
            forall|j: int|
                0 <= j < i ==> field_matches(#[trigger] out@[j], kinds@[j]) && out@[j].abs()
                    == parse_field(bytes@, base + spec_offset(kinds@, j), kinds@[j]),
        decreases kinds@.len() - i,
    {
        proof {
            lemma_cursor_step(kinds@, i as int);
            lemma_cursor_monotone(kinds@, i as int + 1, kinds@.len() as int);
            assert(kinds@.take(kinds@.len() as int) =~= kinds@);
        }
        let off = offsets[i];
        let f = read_field(bytes, base + off as usize, &kinds[i]);
        out.push(f);
        proof {
            assert(out@[i as int].abs() == parse_field(
                bytes@,
                base + spec_offset(kinds@, i as int),
                kinds@[i as int],
            ));
        }
        i = i + 1;
    }
    proof {
        assert(record_abs(out@) =~= parse_record(bytes@, base as int, kinds@));
    }
    out
}

/// Rebuild the value stored in `bytes` under layout `d`; this mirrors
/// the serializer's layout rules. Fails with `SizeMismatch` exactly
/// when the byte length is not one the layout can produce.
pub fn deserialize_value(d: &LayoutDescriptor, bytes: &Vec<u8>) -> (r: Result<
    GpuValue,
    BufferError,
>)
    requires
        d.wf(),
    ensures
        match r {
            Ok(v) => {
                &&& v.matches(*d)
                &&& v.abs() == parse_value(*d, bytes@)
                &&& spec_size_ok(*d, bytes@.len())
            },
            Err(BufferError::SizeMismatch) => !spec_size_ok(*d, bytes@.len()),
            Err(_) => false,
        },
{
    proof {
        lemma_record_size_bounds(d.fields@);
        lemma_power_of_two_pos(d.alignment as nat);
        lemma_align_up(d.fixed_size as nat, d.alignment as nat);
    }
    match &d.tail {
        None => {
            if bytes.len() as u64 != d.fixed_size {
                return Err(BufferError::SizeMismatch);
            }
            let prefix = read_record(bytes, 0, &d.fields, &d.offsets);
            let v = GpuValue { prefix, tail: Vec::new() };
            proof {
                assert(v.abs().tail =~= parse_value(*d, bytes@).tail);
            }
            Ok(v)
        },
        Some(t) => {
            let len64 = bytes.len() as u64;
            if len64 < t.offset {
                return Err(BufferError::SizeMismatch);
            }
            let rem = len64 - t.offset;
            if rem % t.stride != 0 {
                return Err(BufferError::SizeMismatch);
            }
            proof {
                lemma_record_size_bounds(t.fields@);
            }
            let prefix = read_record(bytes, 0, &d.fields, &d.offsets);
            let mut tail: Vec<Vec<FieldValue>> = Vec::new();
            let mut pos: usize = t.offset as usize;
            proof {
                assert(tail@.len() * t.stride == 0);
            }
            while pos < bytes.len()
                invariant
                    d.wf(),
                    d.tail is Some,
                    d.tail->Some_0 == *t,
                    t.offset <= pos <= bytes@.len(),
                    pos == t.offset + tail@.len() * t.stride,
                    (bytes@.len() - pos as int) % (t.stride as int) == 0,
                    forall|r2: int|
                        0 <= r2 < tail@.len() ==> record_matches(#[trigger] tail@[r2]@, t.fields@)
                            && record_abs(tail@[r2]@) == parse_record(
                            bytes@,
                            t.offset + r2 * t.stride,
                            t.fields@,
                        ),
                decreases bytes@.len() - pos,
            {
                proof {
                    lemma_record_size_bounds(t.fields@);
                    if bytes@.len() - pos < t.stride {
                        vstd::arithmetic::div_mod::lemma_small_mod(
                            (bytes@.len() - pos) as nat,
                            t.stride as nat,
                        );
                        assert(false);
                    }
                    assert(tail@.len() * t.stride + t.stride == (tail@.len() + 1)
                        * t.stride) by (nonlinear_arith);
                    vstd::arithmetic::div_mod::lemma_mod_sub_multiples_vanish(
                        bytes@.len() - pos as int,
                        t.stride as int,
                    );
                }
                let rec = read_record(bytes, pos, &t.fields, &t.offsets);
                tail.push(rec);
                pos = pos + t.stride as usize;
            }
            let v = GpuValue { prefix, tail };
            proof {
                let n = v.tail@.len() as int;
                let stride = t.stride as int;
                assert(n * stride == bytes@.len() - t.offset);
                assert(stride * n == n * stride) by (nonlinear_arith);
                vstd::arithmetic::div_mod::lemma_div_multiples_vanish(n, stride);
                assert((bytes@.len() - d.spec_tail_offset()) / stride == n);
                assert(v.abs().tail =~= parse_value(*d, bytes@).tail);
            }
            Ok(v)
        },
    }
}

} // verus!
