//! Byte layout of a GC aggregate type: a GC object's body is one tightly packed byte buffer;
//! scalars occupy their natural width, references a 4-byte handle.
use vstd::prelude::*;
use crate::canon::{AggKind, CompositeBody, IrField, IrHeap, IrStorage, IrVal};

verus! {

/// Width of a reference handle in a packed GC body.
pub const REF_WIDTH: usize = 4;

/// A scalar field/element storage kind.
#[derive(Copy, Clone, Debug, PartialEq, Eq, Structural)]
pub enum ScalarKind {
    I8,
    I16,
    I32,
    I64,
    F32,
    F64,
    V128,
}

pub open spec fn scalar_width(k: ScalarKind) -> nat {
    match k {
        ScalarKind::I8 => 1,
        ScalarKind::I16 => 2,
        ScalarKind::I32 | ScalarKind::F32 => 4,
        ScalarKind::I64 | ScalarKind::F64 => 8,
        ScalarKind::V128 => 16,
    }
}

impl ScalarKind {
    /// The byte width of this kind.
    pub fn width(self) -> (w: usize)
        ensures
            w == scalar_width(self),
    {
        match self {
            ScalarKind::I8 => 1,
            ScalarKind::I16 => 2,
            ScalarKind::I32 | ScalarKind::F32 => 4,
            ScalarKind::I64 | ScalarKind::F64 => 8,
            ScalarKind::V128 => 16,
        }
    }

    /// Whether this is a packed sub-`i32` integer (`i8`/`i16`).
    pub fn is_packed(self) -> (b: bool)
        ensures
            b == (self == ScalarKind::I8 || self == ScalarKind::I16),
    {
        match self {
            ScalarKind::I8 | ScalarKind::I16 => true,
            _ => false,
        }
    }
}

/// Which reference hierarchy a reference field/element belongs to.
#[derive(Copy, Clone, Debug, PartialEq, Eq, Structural)]
pub enum RefKind {
    Func,
    Extern,
    Any,
    Exn,
}

/// One field (struct) or the element (array): a typed slot at a byte offset within the body.
#[derive(Copy, Clone, Debug, PartialEq, Eq, Structural)]
pub enum Slot {
    Scalar { offset: usize, kind: ScalarKind },
    Ref { offset: usize, kind: RefKind },
}

pub open spec fn slot_offset(s: Slot) -> nat {
    match s {
        Slot::Scalar { offset, .. } => offset as nat,
        Slot::Ref { offset, .. } => offset as nat,
    }
}

pub open spec fn slot_width(s: Slot) -> nat {
    match s {
        Slot::Scalar { kind, .. } => scalar_width(kind),
        Slot::Ref { .. } => REF_WIDTH as nat,
    }
}

impl Slot {
    pub fn offset(self) -> (o: usize)
        ensures
            o == slot_offset(self),
    {
        match self {
            Slot::Scalar { offset, .. } | Slot::Ref { offset, .. } => offset,
        }
    }

    pub fn width(self) -> (w: usize)
        ensures
            w == slot_width(self),
    {
        match self {
            Slot::Scalar { kind, .. } => kind.width(),
            Slot::Ref { .. } => REF_WIDTH,
        }
    }
}

/// The packed byte layout of a struct or array type.
#[derive(Clone, Debug)]
pub enum Layout {
    /// A struct: each field at a precomputed offset; `size` is the total body length.
    Struct { fields: Vec<Slot>, size: usize },
    /// An array: a homogeneous element repeated; `stride` is the element width (`elem` sits at
    /// offset 0; element `k` lives at `k * stride`).
    Array { elem: Slot, stride: usize },
}

/// The reference hierarchy of an IR heap type.
pub open spec fn spec_ref_kind(heap: IrHeap) -> RefKind {
    match heap {
        IrHeap::Func | IrHeap::NoFunc | IrHeap::Concrete(_, AggKind::Func) => RefKind::Func,
        IrHeap::Extern | IrHeap::NoExtern => RefKind::Extern,
        IrHeap::Exn | IrHeap::NoExn => RefKind::Exn,
        _ => RefKind::Any,
    }
}

pub open spec fn spec_num_kind(v: IrVal) -> ScalarKind {
    match v {
        IrVal::I32 => ScalarKind::I32,
        IrVal::I64 => ScalarKind::I64,
        IrVal::F32 => ScalarKind::F32,
        IrVal::F64 => ScalarKind::F64,
        _ => ScalarKind::V128,
    }
}

/// The slot a field occupies at `offset`.
pub open spec fn spec_field_slot(f: IrField, offset: usize) -> Slot {
    match f.storage {
        IrStorage::I8 => Slot::Scalar { offset, kind: ScalarKind::I8 },
        IrStorage::I16 => Slot::Scalar { offset, kind: ScalarKind::I16 },
        IrStorage::Val(IrVal::Ref { heap, .. }) => Slot::Ref { offset, kind: spec_ref_kind(heap) },
        IrStorage::Val(v) => Slot::Scalar { offset, kind: spec_num_kind(v) },
    }
}

/// The byte width of a field's storage.
pub open spec fn field_width(f: IrField) -> nat {
    slot_width(spec_field_slot(f, 0))
}

/// The total width of the first `n` fields: the offset of field `n` in a packed struct.
pub open spec fn packed_offset(fields: Seq<IrField>, n: int) -> nat
    decreases n,
{
    if n <= 0 { 0 } else { packed_offset(fields, n - 1) + field_width(fields[n - 1]) }
}

/// The layout an aggregate body has: struct fields packed back to back in declaration order,
/// an array element at offset 0 with its width as the stride; functions have none.
pub open spec fn spec_layout(body: CompositeBody) -> Option<(Seq<Slot>, nat)> {
    match body {
        CompositeBody::Func { .. } => None,
        CompositeBody::Struct(fields) => Some((
            Seq::new(fields@.len(), |i: int| spec_field_slot(fields@[i], packed_offset(fields@, i) as usize)),
            packed_offset(fields@, fields@.len() as int),
        )),
        CompositeBody::Array(f) => Some((seq![spec_field_slot(f, 0)], field_width(f))),
    }
}

/// The abstract content of a layout: its slots (the one element slot for an array) and its size
/// (the stride for an array).
pub open spec fn layout_view(l: Layout) -> (Seq<Slot>, nat) {
    match l {
        Layout::Struct { fields, size } => (fields@, size as nat),
        Layout::Array { elem, stride } => (seq![elem], stride as nat),
    }
}

/// Every field width is at most 16 bytes.
pub proof fn lemma_field_width_bound(f: IrField)
    ensures
        1 <= field_width(f) <= 16,
{
}

/// Packed offsets grow with the field count, by at most 16 bytes per field.
pub proof fn lemma_packed_offset_bound(fields: Seq<IrField>, n: int)
    requires
        0 <= n <= fields.len(),
    ensures
        packed_offset(fields, n) <= 16 * n,
    decreases n,
{
    if n > 0 {
        lemma_packed_offset_bound(fields, n - 1);
        lemma_field_width_bound(fields[n - 1]);
    }
}

/// The reference hierarchy of an IR heap type.
pub fn ref_kind(heap: &IrHeap) -> (k: RefKind)
    ensures
        k == spec_ref_kind(*heap),
{
    match heap {
        IrHeap::Func | IrHeap::NoFunc | IrHeap::Concrete(_, AggKind::Func) => RefKind::Func,
        IrHeap::Extern | IrHeap::NoExtern => RefKind::Extern,
        IrHeap::Exn | IrHeap::NoExn => RefKind::Exn,
        _ => RefKind::Any,
    }
}

/// The scalar kind of a numeric IR value type.
pub fn num_kind(v: &IrVal) -> (k: ScalarKind)
    requires
        !(v is Ref),
    ensures
        k == spec_num_kind(*v),
{
    match v {
        IrVal::I32 => ScalarKind::I32,
        IrVal::I64 => ScalarKind::I64,
        IrVal::F32 => ScalarKind::F32,
        IrVal::F64 => ScalarKind::F64,
        _ => ScalarKind::V128,
    }
}

/// The slot a field occupies at `offset`.
pub fn field_slot(f: &IrField, offset: usize) -> (s: Slot)
    ensures
        s == spec_field_slot(*f, offset),
{
    match &f.storage {
        IrStorage::I8 => Slot::Scalar { offset, kind: ScalarKind::I8 },
        IrStorage::I16 => Slot::Scalar { offset, kind: ScalarKind::I16 },
        IrStorage::Val(IrVal::Ref { heap, .. }) => Slot::Ref { offset, kind: ref_kind(heap) },
        IrStorage::Val(v) => Slot::Scalar { offset, kind: num_kind(v) },
    }
}

/// The same slot kind at another offset.
pub fn with_offset(slot: Slot, offset: usize) -> (s: Slot)
    ensures
        slot_offset(s) == offset,
        slot_width(s) == slot_width(slot),
        s == match slot {
            Slot::Scalar { kind, .. } => Slot::Scalar { offset, kind },
            Slot::Ref { kind, .. } => Slot::Ref { offset, kind },
        },
{
    match slot {
        Slot::Scalar { kind, .. } => Slot::Scalar { offset, kind },
        Slot::Ref { kind, .. } => Slot::Ref { offset, kind },
    }
}

impl Layout {
    /// Builds the layout of an aggregate body (`None` for function types, which are never
    /// heap-allocated).
    pub fn from_body(body: &CompositeBody) -> (r: Option<Layout>)
        requires
            body is Struct ==> body->Struct_0@.len() <= usize::MAX / 16,
        ensures
            match r {
                None => spec_layout(*body) is None,
                Some(l) => spec_layout(*body) == Some(layout_view(l)) && (l is Array <==> *body is Array),
            },
    {
        match body {
            CompositeBody::Func { .. } => None,
            CompositeBody::Struct(fields) => {
                let mut offset: usize = 0;
                let mut slots: Vec<Slot> = Vec::new();
                let n = fields.len();
                for i in 0..n
                    invariant
                        n == fields@.len(),
                        n <= usize::MAX / 16,
                        slots@.len() == i,
                        offset == packed_offset(fields@, i as int),
                        forall|j: int| 0 <= j < i ==> slots@[j] == spec_field_slot(fields@[j], packed_offset(fields@, j) as usize),
                {
                    proof {
                        lemma_packed_offset_bound(fields@, i as int);
                        lemma_field_width_bound(fields@[i as int]);
                    }
                    let slot = field_slot(&fields[i], offset);
                    offset = offset + slot.width();
                    slots.push(slot);
                }
                proof {
                    assert(slots@ =~= Seq::new(fields@.len(), |i: int| spec_field_slot(fields@[i], packed_offset(fields@, i) as usize)));
                }
                Some(Layout::Struct { fields: slots, size: offset })
            },
            CompositeBody::Array(f) => {
                let elem = field_slot(f, 0);
                Some(Layout::Array { elem, stride: elem.width() })
            },
        }
    }

    /// The layout of an array whose element is `f`.
    pub fn for_array(f: &IrField) -> (l: Layout)
        ensures
            layout_view(l) == (seq![spec_field_slot(*f, 0)], field_width(*f)),
            l is Array,
    {
        let elem = field_slot(f, 0);
        Layout::Array { elem, stride: elem.width() }
    }

    /// The slot of struct field `i`.
    pub fn field(&self, i: usize) -> (s: Slot)
        requires
            self is Struct,
            i < self->Struct_fields@.len(),
        ensures
            s == self->Struct_fields@[i as int],
    {
        match self {
            Layout::Struct { fields, .. } => fields[i],
            Layout::Array { elem, .. } => *elem,
        }
    }

    /// The element slot at index `i` of an array: offset `i * stride`.
    pub fn elem_at(&self, i: usize) -> (s: Slot)
        requires
            self is Array,
            i * self->Array_stride <= usize::MAX,
        ensures
            slot_offset(s) == i * self->Array_stride,
            s == with_offset_spec(self->Array_elem, (i * self->Array_stride) as usize),
    {
        match self {
            Layout::Array { elem, stride } => with_offset(*elem, i * *stride),
            Layout::Struct { .. } => Slot::Scalar { offset: 0, kind: ScalarKind::I8 },
        }
    }

    /// The element stride of an array layout.
    pub fn stride(&self) -> (s: usize)
        requires
            self is Array,
        ensures
            s == self->Array_stride,
    {
        match self {
            Layout::Array { stride, .. } => *stride,
            Layout::Struct { size, .. } => *size,
        }
    }

    /// Total byte size of a body holding `len` elements (`len` is ignored for structs).
    pub fn body_size(&self, len: usize) -> (n: usize)
        requires
            self is Array ==> len * self->Array_stride <= usize::MAX,
        ensures
            n == match *self {
                Layout::Struct { size, .. } => size as int,
                Layout::Array { stride, .. } => len * stride,
            },
    {
        match self {
            Layout::Struct { size, .. } => *size,
            Layout::Array { stride, .. } => len * *stride,
        }
    }
}

/// A slot kind moved to `offset`.
pub open spec fn with_offset_spec(slot: Slot, offset: usize) -> Slot {
    match slot {
        Slot::Scalar { kind, .. } => Slot::Scalar { offset, kind },
        Slot::Ref { kind, .. } => Slot::Ref { offset, kind },
    }
}

proof fn lemma_packed_offset_monotone(fields: Seq<IrField>, i: int, j: int)
    requires
        0 <= i <= j <= fields.len(),
    ensures
        packed_offset(fields, i) <= packed_offset(fields, j),
    decreases j - i,
{
    if i < j {
        lemma_packed_offset_monotone(fields, i, j - 1);
    }
}

/// The hierarchy a reference to heap type `heap` lives in: `func`, `nofunc` and concrete function
/// types in the function hierarchy; `extern`/`noextern` in the external one; `exn`/`noexn` in the
/// exception one; everything else (`any`, `eq`, `i31`, `struct`, `array`, `none`, concrete struct
/// and array types) in the internal one.
pub proof fn lemma_ref_kind_hierarchy(heap: IrHeap)
    ensures
        (heap is Func || heap is NoFunc || heap matches IrHeap::Concrete(_, AggKind::Func)) <==> spec_ref_kind(heap) == RefKind::Func,
        (heap is Extern || heap is NoExtern) <==> spec_ref_kind(heap) == RefKind::Extern,
        (heap is Exn || heap is NoExn) <==> spec_ref_kind(heap) == RefKind::Exn,
        (heap is Any || heap is Eq || heap is I31 || heap is Struct || heap is Array || heap is NoneType
            || heap matches IrHeap::Concrete(_, AggKind::Struct) || heap matches IrHeap::Concrete(_, AggKind::Array))
            <==> spec_ref_kind(heap) == RefKind::Any,
{
}

/// Whether `slot` is the slot a field of storage type `st` needs, wherever it sits: `i8` and
/// `i16` take 1 and 2 bytes, `i32`/`f32` 4, `i64`/`f64` 8, `v128` 16, each as a scalar of its own
/// kind; a reference takes 4 bytes as a reference slot of the hierarchy of its heap type.
pub open spec fn slot_for_storage(st: IrStorage, slot: Slot) -> bool {
    match st {
        IrStorage::I8 => slot matches Slot::Scalar { kind: ScalarKind::I8, .. } && slot_width(slot) == 1,
        IrStorage::I16 => slot matches Slot::Scalar { kind: ScalarKind::I16, .. } && slot_width(slot) == 2,
        IrStorage::Val(IrVal::I32) => slot matches Slot::Scalar { kind: ScalarKind::I32, .. } && slot_width(slot) == 4,
        IrStorage::Val(IrVal::F32) => slot matches Slot::Scalar { kind: ScalarKind::F32, .. } && slot_width(slot) == 4,
        IrStorage::Val(IrVal::I64) => slot matches Slot::Scalar { kind: ScalarKind::I64, .. } && slot_width(slot) == 8,
        IrStorage::Val(IrVal::F64) => slot matches Slot::Scalar { kind: ScalarKind::F64, .. } && slot_width(slot) == 8,
        IrStorage::Val(IrVal::V128) => slot matches Slot::Scalar { kind: ScalarKind::V128, .. } && slot_width(slot) == 16,
        IrStorage::Val(IrVal::Ref { heap, .. }) => slot_width(slot) == 4 && match slot {
            Slot::Ref { kind, .. } => {
                &&& (heap is Func || heap is NoFunc || heap matches IrHeap::Concrete(_, AggKind::Func)) <==> kind == RefKind::Func
                &&& (heap is Extern || heap is NoExtern) <==> kind == RefKind::Extern
                &&& (heap is Exn || heap is NoExn) <==> kind == RefKind::Exn
            },
            _ => false,
        },
    }
}

/// Each field of a struct layout, and the element of an array layout, gets the slot its storage
/// type needs: a scalar of its own kind and width, or a 4-byte reference slot of the hierarchy
/// of its heap type (a function reference field is a `Func` slot, and so on).
#[verifier::spinoff_prover]
pub proof fn lemma_slots_follow_storage(fields: Vec<IrField>, elem: IrField, i: int)
    requires
        0 <= i < fields@.len(),
    ensures
        ({
            let (slots, _) = spec_layout(CompositeBody::Struct(fields))->0;
            slot_for_storage(fields@[i].storage, slots[i])
        }),
        ({
            let (slots, _) = spec_layout(CompositeBody::Array(elem))->0;
            slot_for_storage(elem.storage, slots[0]) && slot_offset(slots[0]) == 0
        }),
{
}

/// A struct layout is packed: each field starts where the previous one ends, the first at 0, and
/// the body size is where the last field ends.
pub proof fn lemma_struct_layout_is_packed(fields: Vec<IrField>)
    requires
        packed_offset(fields@, fields@.len() as int) <= usize::MAX,
    ensures
        ({
            let (slots, size) = spec_layout(CompositeBody::Struct(fields))->0;
            &&& slots.len() == fields@.len()
            &&& slots.len() > 0 ==> slot_offset(slots[0]) == 0
            &&& forall|i: int| 0 <= i < slots.len() - 1 ==>
                slot_offset(#[trigger] slots[i + 1]) == slot_offset(slots[i]) + slot_width(slots[i])
            &&& slots.len() > 0 ==> size == slot_offset(slots[slots.len() - 1]) + slot_width(slots[slots.len() - 1])
            &&& slots.len() == 0 ==> size == 0
        }),
{
    let n = fields@.len() as int;
    let (slots, size) = spec_layout(CompositeBody::Struct(fields))->0;
    assert forall|i: int| 0 <= i < n implies slot_offset(#[trigger] slots[i]) == packed_offset(fields@, i)
        && slot_width(slots[i]) == field_width(fields@[i]) by {
        lemma_packed_offset_monotone(fields@, i, n);
    }
    assert forall|i: int| 0 <= i < slots.len() - 1 implies
        slot_offset(#[trigger] slots[i + 1]) == slot_offset(slots[i]) + slot_width(slots[i]) by {
        assert(slot_offset(slots[i + 1]) == packed_offset(fields@, i + 1));
        assert(slot_offset(slots[i]) == packed_offset(fields@, i));
    }
    if n > 0 {
        assert(slot_offset(slots[n - 1]) == packed_offset(fields@, n - 1));
    }
}

} // verus!
