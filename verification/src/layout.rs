use vstd::prelude::*;
use vstd::arithmetic::div_mod::{lemma_fundamental_div_mod, lemma_mod_multiples_basic};
use crate::error::BufferError;

verus! {

/// Whether `a` is a power of two (and in particular positive).
pub open spec fn is_power_of_two(a: nat) -> bool
    decreases a,
{
    if a == 1 {
        true
    } else if a < 2 || a % 2 != 0 {
        false
    } else {
        is_power_of_two(a / 2)
    }
}

/// The least multiple of `a` that is at least `x`.
pub open spec fn align_up(x: nat, a: nat) -> nat
    recommends
        a > 0,
{
    if x % a == 0 {
        x
    } else {
        (x + a - x % a) as nat
    }
}

/// Law: rounding up to an alignment boundary lands on a multiple of the
/// alignment, never moves backwards, and moves forward by less than one
/// whole alignment unit.
pub proof fn lemma_align_up(x: nat, a: nat)
    requires
        a > 0,
    ensures
        align_up(x, a) % a == 0,
        x <= align_up(x, a) < x + a,
        x % a == 0 ==> align_up(x, a) == x,
{
    lemma_fundamental_div_mod(x as int, a as int);
    if x % a != 0 {
        let q = x as int / a as int;
        assert(x - x % a == a * q);
        assert((a * q + a) == a * (q + 1)) by (nonlinear_arith);
        lemma_mod_multiples_basic(q + 1, a as int);
    }
}

/// Divisibility is transitive: a multiple of `a` is a multiple of every
/// divisor of `a`.
pub proof fn lemma_divides_transitive(y: nat, a: nat, b: nat)
    requires
        a > 0,
        b > 0,
        y % a == 0,
        a % b == 0,
    ensures
        y % b == 0,
{
    lemma_fundamental_div_mod(y as int, a as int);
    lemma_fundamental_div_mod(a as int, b as int);
    let qy = y as int / a as int;
    let qa = a as int / b as int;
    assert(y as int == (b as int) * (qa * qy)) by (nonlinear_arith)
        requires
            y as int == (a as int) * qy,
            a as int == (b as int) * qa,
    ;
    lemma_mod_multiples_basic(qa * qy, b as int);
}

/// A power of two is 1, 2, or a multiple of 4.
pub proof fn lemma_power_of_two_shape(a: nat)
    requires
        is_power_of_two(a),
    ensures
        a == 1 || a == 2 || a % 4 == 0,
    decreases a,
{
    if a != 1 && a != 2 {
        lemma_power_of_two_shape(a / 2);
        lemma_fundamental_div_mod(a as int, 2);
        if a / 2 == 2 {
            assert(a == 4);
        } else {
            assert((a / 2) % 4 == 0);
            lemma_fundamental_div_mod((a / 2) as int, 4);
            let q = (a / 2) as int / 4;
            assert(a as int == 4 * (2 * q) && a as int % 4 == 0) by (nonlinear_arith)
                requires
                    a as int == 2 * ((a / 2) as int),
                    (a / 2) as int == 4 * q,
            ;
        }
    }
}

/// Rounding a multiple of 4 up to a power-of-two boundary yields a
/// multiple of 4 again.
pub proof fn lemma_align_up_keeps_mult4(x: nat, a: nat)
    requires
        is_power_of_two(a),
        x % 4 == 0,
    ensures
        align_up(x, a) % 4 == 0,
{
    lemma_power_of_two_shape(a);
    lemma_align_up(x, a);
    if a == 1 || a == 2 {
        lemma_divides_transitive(x, 4, a);
        assert(align_up(x, a) == x);
    } else {
        lemma_divides_transitive(align_up(x, a), a, 4);
    }
}

/// The shape of one element of a fixed-length array field.
#[derive(Clone, Copy, Debug, PartialEq, Eq, Structural)]
pub enum ElemKind {
    /// One 32-bit scalar.
    Scalar,
    /// A two-component vector of 32-bit scalars.
    Vec2,
    /// A three-component vector of 32-bit scalars.
    Vec3,
}

impl ElemKind {
    /// The number of bytes one element occupies before padding.
    pub open spec fn spec_size(self) -> nat {
        match self {
            ElemKind::Scalar => 4,
            ElemKind::Vec2 => 8,
            ElemKind::Vec3 => 12,
        }
    }

    /// The alignment the device requires for this element shape.
    pub open spec fn spec_align(self) -> nat {
        match self {
            ElemKind::Scalar => 4,
            ElemKind::Vec2 => 8,
            ElemKind::Vec3 => 16,
        }
    }

    /// The distance between consecutive array elements of this shape:
    /// the element size rounded up to the element alignment.
    pub open spec fn spec_stride(self) -> nat {
        match self {
            ElemKind::Scalar => 4,
            ElemKind::Vec2 => 8,
            ElemKind::Vec3 => 16,
        }
    }

    /// The stride is exactly the size rounded up to the alignment.
    pub proof fn lemma_stride(self)
        ensures
            self.spec_stride() == align_up(self.spec_size(), self.spec_align()),
            self.spec_size() <= self.spec_stride(),
            self.spec_stride() % self.spec_align() == 0,
            4 <= self.spec_stride() <= 16,
    {
        match self {
            ElemKind::Scalar => {
                assert(align_up(4, 4) == 4);
            },
            ElemKind::Vec2 => {
                assert(align_up(8, 8) == 8);
            },
            ElemKind::Vec3 => {
                assert(align_up(12, 16) == 16);
            },
        }
    }

    /// Executable size; agrees with `spec_size`.
    pub fn size(&self) -> (r: u64)
        ensures
            r == self.spec_size(),
    {
        match self {
            ElemKind::Scalar => 4,
            ElemKind::Vec2 => 8,
            ElemKind::Vec3 => 12,
        }
    }

    /// Executable alignment; agrees with `spec_align`.
    pub fn align(&self) -> (r: u64)
        ensures
            r == self.spec_align(),
    {
        match self {
            ElemKind::Scalar => 4,
            ElemKind::Vec2 => 8,
            ElemKind::Vec3 => 16,
        }
    }

    /// Executable stride; agrees with `spec_stride`.
    pub fn stride(&self) -> (r: u64)
        ensures
            r == self.spec_stride(),
    {
        match self {
            ElemKind::Scalar => 4,
            ElemKind::Vec2 => 8,
            ElemKind::Vec3 => 16,
        }
    }
}

/// The shape of one field of a serialized record.
#[derive(Clone, Copy, Debug, PartialEq, Eq, Structural)]
pub enum FieldKind {
    /// One 32-bit scalar.
    Scalar,
    /// A two-component vector of 32-bit scalars.
    Vec2,
    /// A three-component vector of 32-bit scalars.
    Vec3,
    /// A fixed-length array of `count` elements of shape `elem`.
    Array { elem: ElemKind, count: u64 },
}

impl FieldKind {
    /// The number of bytes the field occupies (arrays include their
    /// inter-element padding).
    pub open spec fn spec_size(self) -> nat {
        match self {
            FieldKind::Scalar => 4,
            FieldKind::Vec2 => 8,
            FieldKind::Vec3 => 12,
            FieldKind::Array { elem, count } => (count * elem.spec_stride()) as nat,
        }
    }

    /// The alignment the device requires for the field.
    pub open spec fn spec_align(self) -> nat {
        match self {
            FieldKind::Scalar => 4,
            FieldKind::Vec2 => 8,
            FieldKind::Vec3 => 16,
            FieldKind::Array { elem, count } => elem.spec_align(),
        }
    }

    /// Executable size; `None` exactly when the size exceeds `u64`.
    pub fn size(&self) -> (r: Option<u64>)
        ensures
            match r {
                Some(v) => v == self.spec_size(),
                None => self.spec_size() > u64::MAX,
            },
    {
        match self {
            FieldKind::Scalar => Some(4),
            FieldKind::Vec2 => Some(8),
            FieldKind::Vec3 => Some(12),
            FieldKind::Array { elem, count } => count.checked_mul(elem.stride()),
        }
    }

    /// Executable alignment; agrees with `spec_align`.
    pub fn align(&self) -> (r: u64)
        ensures
            r == self.spec_align(),
    {
        match self {
            FieldKind::Scalar => 4,
            FieldKind::Vec2 => 8,
            FieldKind::Vec3 => 16,
            FieldKind::Array { elem, count } => elem.align(),
        }
    }

    /// Every field size is a multiple of 4, and every alignment is a
    /// positive multiple of 4 no larger than 16.
    pub proof fn lemma_shape(self)
        ensures
            self.spec_size() % 4 == 0,
            self.spec_align() % 4 == 0,
            0 < self.spec_align() <= 16,
    {
        match self {
            FieldKind::Array { elem, count } => {
                let s = elem.spec_stride();
                match elem {
                    ElemKind::Scalar => assert(s == 4),
                    ElemKind::Vec2 => assert(s == 8),
                    ElemKind::Vec3 => assert(s == 16),
                }
                assert((count * s) % 4 == 0) by (nonlinear_arith)
                    requires
                        s == 4 || s == 8 || s == 16,
                ;
            },
            _ => {},
        }
    }
}


/// Byte position just past the last field when the fields of a record
/// are packed in declaration order, each at its alignment boundary.
pub open spec fn spec_cursor(fields: Seq<FieldKind>) -> nat
    decreases fields.len(),
{
    if fields.len() == 0 {
        0
    } else {
        align_up(spec_cursor(fields.drop_last()), fields.last().spec_align())
            + fields.last().spec_size()
    }
}

/// The byte offset of field `i` of a record.
pub open spec fn spec_offset(fields: Seq<FieldKind>, i: int) -> nat
    recommends
        0 <= i < fields.len(),
{
    align_up(spec_cursor(fields.take(i)), fields[i].spec_align())
}

/// The strictest alignment among the fields, and at least 4.
pub open spec fn spec_record_align(fields: Seq<FieldKind>) -> nat
    decreases fields.len(),
{
    if fields.len() == 0 {
        4
    } else {
        let rest = spec_record_align(fields.drop_last());
        if fields.last().spec_align() > rest {
            fields.last().spec_align()
        } else {
            rest
        }
    }
}

/// The padded byte size of a record: the cursor after the last field,
/// rounded up to the record alignment.
pub open spec fn spec_record_size(fields: Seq<FieldKind>) -> nat {
    align_up(spec_cursor(fields), spec_record_align(fields))
}

/// The record alignment is a multiple of 4 between 4 and 16, and no
/// field demands more than it.
pub proof fn lemma_record_align_bounds(fields: Seq<FieldKind>)
    ensures
        4 <= spec_record_align(fields) <= 16,
        spec_record_align(fields) % 4 == 0,
        forall|i: int|
            0 <= i < fields.len() ==> #[trigger] fields[i].spec_align()
                <= spec_record_align(fields),
    decreases fields.len(),
{
    if fields.len() > 0 {
        lemma_record_align_bounds(fields.drop_last());
        fields.last().lemma_shape();
        assert forall|i: int|
            0 <= i < fields.len() implies #[trigger] fields[i].spec_align()
                <= spec_record_align(fields) by {
            if i < fields.len() - 1 {
                assert(fields.drop_last()[i] == fields[i]);
            }
        }
    }
}

/// Every cursor position is a multiple of 4.
pub proof fn lemma_cursor_mult4(fields: Seq<FieldKind>)
    ensures
        spec_cursor(fields) % 4 == 0,
    decreases fields.len(),
{
    if fields.len() > 0 {
        let prev = spec_cursor(fields.drop_last());
        let a = fields.last().spec_align();
        lemma_cursor_mult4(fields.drop_last());
        fields.last().lemma_shape();
        lemma_align_up(prev, a);
        if align_up(prev, a) > 0 {
            lemma_divides_transitive(align_up(prev, a), a, 4);
        }
    }
}

/// The record size is a multiple of 4 and not smaller than the cursor.
pub proof fn lemma_record_size_bounds(fields: Seq<FieldKind>)
    ensures
        spec_cursor(fields) <= spec_record_size(fields),
        spec_record_size(fields) % 4 == 0,
    decreases fields.len(),
{
    lemma_record_align_bounds(fields);
    lemma_cursor_mult4(fields);
    let c = spec_cursor(fields);
    let a = spec_record_align(fields);
    lemma_align_up(c, a);
    if spec_record_size(fields) > 0 {
        lemma_divides_transitive(spec_record_size(fields), a, 4);
    }
}

/// Packing a longer prefix of the fields never moves the cursor back.
pub proof fn lemma_cursor_monotone(fields: Seq<FieldKind>, i: int, j: int)
    requires
        0 <= i <= j <= fields.len(),
    ensures
        spec_cursor(fields.take(i)) <= spec_cursor(fields.take(j)),
    decreases j - i,
{
    if i < j {
        lemma_cursor_monotone(fields, i, j - 1);
        let prev = fields.take(j - 1);
        let cur = fields.take(j);
        assert(cur.drop_last() =~= prev);
        lemma_align_up(spec_cursor(prev), cur.last().spec_align());
    }
}

/// The cursor after field `i` sits exactly at that field's offset plus
/// its size.
pub proof fn lemma_cursor_step(fields: Seq<FieldKind>, i: int)
    requires
        0 <= i < fields.len(),
    ensures
        spec_cursor(fields.take(i + 1)) == spec_offset(fields, i) + fields[i].spec_size(),
        spec_offset(fields, i) >= spec_cursor(fields.take(i)),
{
    let cur = fields.take(i + 1);
    assert(cur.drop_last() =~= fields.take(i));
    assert(cur.last() == fields[i]);
    fields[i].lemma_shape();
    lemma_align_up(spec_cursor(fields.take(i)), fields[i].spec_align());
}

/// Every field lies inside the record: its bytes end at or before the
/// record size.
pub proof fn lemma_field_in_record(fields: Seq<FieldKind>, i: int)
    requires
        0 <= i < fields.len(),
    ensures
        spec_offset(fields, i) + fields[i].spec_size() <= spec_record_size(fields),
        spec_cursor(fields.take(i)) <= spec_offset(fields, i),
{
    lemma_cursor_step(fields, i);
    lemma_cursor_monotone(fields, i + 1, fields.len() as int);
    assert(fields.take(fields.len() as int) =~= fields);
    lemma_record_size_bounds(fields);
}

/// Rounds `x` up to a multiple of `a`; `None` exactly when the result
/// does not fit in a `u64`.
pub fn align_up_checked(x: u64, a: u64) -> (r: Option<u64>)
    requires
        a > 0,
    ensures
        match r {
            Some(v) => v == align_up(x as nat, a as nat),
            None => align_up(x as nat, a as nat) > u64::MAX,
        },
{
    let rem = x % a;
    if rem == 0 {
        Some(x)
    } else {
        x.checked_add(a - rem)
    }
}

/// The computed placement of one record's fields.
#[derive(Debug)]
pub struct RecordLayout {
    /// Byte offset of each field, in declaration order.
    pub offsets: Vec<u64>,
    /// Padded byte size of the whole record.
    pub size: u64,
    /// Alignment of the whole record.
    pub align: u64,
}

impl RecordLayout {
    /// The stored placement agrees with the layout rules for `fields`.
    pub open spec fn wf(self, fields: Seq<FieldKind>) -> bool {
        &&& self.offsets@.len() == fields.len()
        &&& forall|i: int|
            0 <= i < fields.len() ==> #[trigger] self.offsets@[i] == spec_offset(fields, i)
        &&& self.size == spec_record_size(fields)
        &&& self.align == spec_record_align(fields)
    }
}

/// Lay out a record's fields in declaration order, each at its
/// alignment boundary, and pad the total to the record alignment.
pub fn compute_record_layout(fields: &Vec<FieldKind>) -> (r: Result<
    RecordLayout,
    BufferError,
>)
    ensures
        match r {
            Ok(l) => l.wf(fields@) && spec_record_size(fields@) <= u64::MAX,
            Err(e) => e == BufferError::CapacityOverflow && spec_record_size(fields@)
                > u64::MAX,
        },
{
    let ghost all = fields@;
    let mut offsets: Vec<u64> = Vec::new();
    let mut cursor: u64 = 0;
    let mut align_acc: u64 = 4;
    let mut i: usize = 0;
    while i < fields.len()
        invariant
            i <= fields.len(),
            all == fields@,
            offsets@.len() == i,
            cursor == spec_cursor(all.take(i as int)),
            align_acc == spec_record_align(all.take(i as int)),
            forall|j: int| 0 <= j < i ==> #[trigger] offsets@[j] == spec_offset(all, j),
        decreases fields.len() - i,
    {
        let f = fields[i];
        proof {
            assert(all.take(i as int + 1).drop_last() =~= all.take(i as int));
            assert(all.take(i as int + 1).last() == all[i as int]);
            assert(all.take(i as int) =~= all.take(i as int + 1).take(i as int));
        }
        let off = match align_up_checked(cursor, f.align()) {
            Some(o) => o,
            None => {
                proof {
                    lemma_overflow_from_cursor(all, i as int + 1);
                    lemma_align_up(spec_cursor(all.take(i as int)), f.spec_align());
                }
                return Err(BufferError::CapacityOverflow);
            },
        };
        let fsize = match f.size() {
            Some(s) => s,
            None => {
                proof {
                    lemma_overflow_from_cursor(all, i as int + 1);
                    lemma_align_up(spec_cursor(all.take(i as int)), f.spec_align());
                }
                return Err(BufferError::CapacityOverflow);
            },
        };
        let next = match off.checked_add(fsize) {
            Some(n) => n,
            None => {
                proof {
                    lemma_overflow_from_cursor(all, i as int + 1);
                }
                return Err(BufferError::CapacityOverflow);
            },
        };
        offsets.push(off);
        cursor = next;
        let fa = f.align();
        if fa > align_acc {
            align_acc = fa;
        }
        i = i + 1;
    }
    proof {
        assert(all.take(i as int) =~= all);
    }
    let size = match align_up_checked(cursor, align_acc) {
        Some(s) => s,
        None => {
            return Err(BufferError::CapacityOverflow);
        },
    };
    Ok(RecordLayout { offsets, size, align: align_acc })
}

/// If the cursor overflows after `k` fields, the whole record size
/// overflows too.
proof fn lemma_overflow_from_cursor(fields: Seq<FieldKind>, k: int)
    requires
        0 <= k <= fields.len(),
        spec_cursor(fields.take(k)) > u64::MAX,
    ensures
        spec_record_size(fields) > u64::MAX,
{
    lemma_cursor_monotone(fields, k, fields.len() as int);
    assert(fields.take(fields.len() as int) =~= fields);
    lemma_record_size_bounds(fields);
}


/// The placement of the runtime-sized tail of a layout.
#[derive(Debug)]
pub struct TailLayout {
    /// Field shapes of one tail element, in declaration order.
    pub fields: Vec<FieldKind>,
    /// Byte offset of each field within one element.
    pub offsets: Vec<u64>,
    /// Distance between consecutive tail elements.
    pub stride: u64,
    /// Alignment of one tail element.
    pub align: u64,
    /// Byte offset where the tail starts in the serialized output.
    pub offset: u64,
}

/// Describes how a value is laid out in device memory: a fixed prefix
/// of fields at computed offsets, and optionally a runtime-sized tail
/// of fixed-stride elements whose start is rounded up to the device's
/// minimum storage-buffer offset alignment.
#[derive(Debug)]
pub struct LayoutDescriptor {
    /// Field shapes of the fixed prefix, in declaration order.
    pub fields: Vec<FieldKind>,
    /// Byte offset of each prefix field.
    pub offsets: Vec<u64>,
    /// Padded byte size of the fixed prefix.
    pub fixed_size: u64,
    /// Alignment of the fixed prefix.
    pub record_align: u64,
    /// The runtime-sized tail, if the described type carries one.
    pub tail: Option<TailLayout>,
    /// The device's minimum storage-buffer offset alignment.
    pub alignment: u64,
}

impl LayoutDescriptor {
    /// The stored placement agrees with the layout rules.
    pub open spec fn wf(self) -> bool {
        &&& self.offsets@.len() == self.fields@.len()
        &&& forall|i: int|
            0 <= i < self.fields@.len() ==> #[trigger] self.offsets@[i] == spec_offset(
                self.fields@,
                i,
            )
        &&& self.fixed_size == spec_record_size(self.fields@)
        &&& self.record_align == spec_record_align(self.fields@)
        &&& is_power_of_two(self.alignment as nat)
        &&& match self.tail {
            Some(t) => {
                &&& t.offsets@.len() == t.fields@.len()
                &&& forall|i: int|
                    0 <= i < t.fields@.len() ==> #[trigger] t.offsets@[i] == spec_offset(
                        t.fields@,
                        i,
                    )
                &&& t.stride == spec_record_size(t.fields@)
                &&& t.stride > 0
                &&& t.align == spec_record_align(t.fields@)
                &&& t.offset == align_up(self.fixed_size as nat, self.alignment as nat)
            },
            None => true,
        }
    }

    /// Whether the layout carries a runtime-sized tail.
    pub open spec fn has_tail(self) -> bool {
        self.tail is Some
    }

    /// Where the tail starts: the fixed prefix size rounded up to the
    /// device alignment.
    pub open spec fn spec_tail_offset(self) -> nat {
        align_up(self.fixed_size as nat, self.alignment as nat)
    }

    /// The field shapes of one tail element.
    pub open spec fn spec_tail_fields(self) -> Seq<FieldKind>
        recommends
            self.has_tail(),
    {
        match self.tail {
            Some(t) => t.fields@,
            None => Seq::empty(),
        }
    }

    /// The stride of one tail element.
    pub open spec fn spec_tail_stride(self) -> nat {
        spec_record_size(self.spec_tail_fields())
    }

    /// The serialized byte length of a value with `tail_count` tail
    /// elements under this layout.
    pub open spec fn spec_total_size(self, tail_count: nat) -> nat {
        if self.has_tail() {
            self.spec_tail_offset() + tail_count * self.spec_tail_stride()
        } else {
            self.fixed_size as nat
        }
    }

    /// Build a descriptor for a type with prefix fields `fields` and,
    /// if `tail_fields` is given, a runtime-sized tail of records with
    /// those fields. `alignment` is the device's minimum
    /// storage-buffer offset alignment and `max_fixed_size` the
    /// configured bound on the fixed prefix.
    pub fn new(
        fields: Vec<FieldKind>,
        tail_fields: Option<Vec<FieldKind>>,
        alignment: u64,
        max_fixed_size: u64,
    ) -> (r: Result<LayoutDescriptor, BufferError>)
        requires
            is_power_of_two(alignment as nat),
            match tail_fields {
                Some(tf) => spec_record_size(tf@) > 0,
                None => true,
            },
        ensures
            match r {
                Ok(d) => {
                    &&& d.wf()
                    &&& d.fields@ == fields@
                    &&& d.alignment == alignment
                    &&& d.fixed_size <= max_fixed_size
                    &&& match tail_fields {
                        Some(tf) => d.has_tail() && d.spec_tail_fields() == tf@,
                        None => !d.has_tail(),
                    }
                },
                Err(BufferError::LayoutOverflow) => spec_record_size(fields@) <= u64::MAX
                    && spec_record_size(fields@) > max_fixed_size,
                Err(BufferError::CapacityOverflow) => spec_record_size(fields@) > u64::MAX || (
                spec_record_size(fields@) <= max_fixed_size && match tail_fields {
                    Some(tf) => spec_record_size(tf@) > u64::MAX || align_up(
                        spec_record_size(fields@),
                        alignment as nat,
                    ) > u64::MAX,
                    None => false,
                }),
                Err(_) => false,
            },
    {
        let prefix = match compute_record_layout(&fields) {
            Ok(l) => l,
            Err(e) => {
                return Err(e);
            },
        };
        if prefix.size > max_fixed_size {
            return Err(BufferError::LayoutOverflow);
        }
        let tail = match tail_fields {
            Some(tf) => {
                let elem = match compute_record_layout(&tf) {
                    Ok(l) => l,
                    Err(e) => {
                        return Err(e);
                    },
                };
                let off = match align_up_checked(prefix.size, alignment) {
                    Some(o) => o,
                    None => {
                        return Err(BufferError::CapacityOverflow);
                    },
                };
                Some(
                    TailLayout {
                        fields: tf,
                        offsets: elem.offsets,
                        stride: elem.size,
                        align: elem.align,
                        offset: off,
                    },
                )
            },
            None => None,
        };
        Ok(
            LayoutDescriptor {
                fields,
                offsets: prefix.offsets,
                fixed_size: prefix.size,
                record_align: prefix.align,
                tail,
                alignment,
            },
        )
    }

    /// Where the tail starts; meaningful only for tail-bearing layouts.
    pub fn tail_offset(&self) -> (r: u64)
        requires
            self.wf(),
            self.has_tail(),
        ensures
            r == self.spec_tail_offset(),
    {
        match &self.tail {
            Some(t) => t.offset,
            None => 0,
        }
    }
}

/// A power of two is positive.
pub proof fn lemma_power_of_two_pos(a: nat)
    requires
        is_power_of_two(a),
    ensures
        a >= 1,
{
}

/// Law: for every tail-bearing layout and every power-of-two device
/// alignment, the computed tail offset is a multiple of the alignment
/// and does not overlap the fixed prefix.
pub proof fn lemma_tail_offset_aligned(d: LayoutDescriptor)
    requires
        d.wf(),
    ensures
        d.spec_tail_offset() % (d.alignment as nat) == 0,
        d.spec_tail_offset() >= d.fixed_size,
        d.spec_tail_offset() % 4 == 0,
{
    lemma_power_of_two_pos(d.alignment as nat);
    lemma_align_up(d.fixed_size as nat, d.alignment as nat);
    lemma_record_size_bounds(d.fields@);
    lemma_align_up_keeps_mult4(d.fixed_size as nat, d.alignment as nat);
}

} // verus!
