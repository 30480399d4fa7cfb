//! The operand-stack cell: a fixed-width untyped slot (128 bits, enough for a `v128`). Scalars
//! sit in the low bits; references are a 32-bit handle with [`NULL_REF`] reserved for null.
//! A value's type is known statically, so a cell carries no tag; a separate shadow of
//! [`RefTag`]s records which slots hold references.
use vstd::prelude::*;
use crate::canon::{AggKind, IrHeap};
use crate::canon::layout::{RefKind, ScalarKind, Slot};
use crate::value::{HeapType, Val, ValType};

verus! {

/// The reserved handle of a null reference.
pub const NULL_REF: u32 = 0xffff_ffff;

/// One operand-stack slot.
#[derive(Copy, Clone, PartialEq, Eq, Structural, Debug)]
pub struct Cell(pub u128);

pub open spec fn low32(c: Cell) -> u32 {
    (c.0 % 0x1_0000_0000) as u32
}

pub open spec fn low64(c: Cell) -> u64 {
    (c.0 % 0x1_0000_0000_0000_0000) as u64
}

pub open spec fn cell32(x: u32) -> Cell {
    Cell(x as u128)
}

pub open spec fn cell64(x: u64) -> Cell {
    Cell(x as u128)
}

impl Cell {
    /// A cell holding a 32-bit pattern.
    pub fn from_u32(x: u32) -> (c: Cell)
        ensures
            c == cell32(x),
    {
        Cell(x as u128)
    }

    /// A cell holding a 64-bit pattern.
    pub fn from_u64(x: u64) -> (c: Cell)
        ensures
            c == cell64(x),
    {
        Cell(x as u128)
    }

    /// The low 32 bits.
    pub fn low32(self) -> (x: u32)
        ensures
            x == low32(self),
    {
        (self.0 % 0x1_0000_0000) as u32
    }

    /// The low 64 bits.
    pub fn low64(self) -> (x: u64)
        ensures
            x == low64(self),
    {
        (self.0 % 0x1_0000_0000_0000_0000) as u64
    }

    /// The 32-bit reference handle held by a reference cell.
    pub fn handle(self) -> (h: u32)
        ensures
            h == low32(self),
    {
        self.low32()
    }

    /// Whether a reference cell is null (holds the reserved handle).
    pub fn is_null(self) -> (b: bool)
        ensures
            b == (low32(self) == NULL_REF),
    {
        self.low32() == NULL_REF
    }
}

/// The slot-root tag of an operand: which reference hierarchy it points into, if any.
#[derive(Copy, Clone, PartialEq, Eq, Structural, Debug)]
pub enum RefTag {
    NoRef,
    Func,
    Extern,
    Any,
    Exn,
}

pub open spec fn spec_tag_of_val(v: Val) -> RefTag {
    match v {
        Val::FuncRef(_) => RefTag::Func,
        Val::ExternRef(_) => RefTag::Extern,
        Val::AnyRef(_) => RefTag::Any,
        Val::ExnRef(_) => RefTag::Exn,
        _ => RefTag::NoRef,
    }
}

pub open spec fn spec_tag_of_refkind(k: RefKind) -> RefTag {
    match k {
        RefKind::Func => RefTag::Func,
        RefKind::Extern => RefTag::Extern,
        RefKind::Any => RefTag::Any,
        RefKind::Exn => RefTag::Exn,
    }
}

impl RefTag {
    /// The tag of a value about to be pushed.
    pub fn of_val(v: &Val) -> (t: RefTag)
        ensures
            t == spec_tag_of_val(*v),
    {
        match v {
            Val::FuncRef(_) => RefTag::Func,
            Val::ExternRef(_) => RefTag::Extern,
            Val::AnyRef(_) => RefTag::Any,
            Val::ExnRef(_) => RefTag::Exn,
            _ => RefTag::NoRef,
        }
    }

    /// The tag of a reference of a known hierarchy.
    pub fn of_refkind(kind: RefKind) -> (t: RefTag)
        ensures
            t == spec_tag_of_refkind(kind),
    {
        match kind {
            RefKind::Func => RefTag::Func,
            RefKind::Extern => RefTag::Extern,
            RefKind::Any => RefTag::Any,
            RefKind::Exn => RefTag::Exn,
        }
    }

    /// The hierarchy a tag denotes, or `None` for a non-reference slot.
    pub fn refkind(self) -> (k: Option<RefKind>)
        ensures
            match k {
                Some(kind) => spec_tag_of_refkind(kind) == self,
                None => self == RefTag::NoRef,
            },
    {
        match self {
            RefTag::Func => Some(RefKind::Func),
            RefTag::Extern => Some(RefKind::Extern),
            RefTag::Any => Some(RefKind::Any),
            RefTag::Exn => Some(RefKind::Exn),
            RefTag::NoRef => None,
        }
    }
}

/// The reference hierarchy of a public heap type.
pub open spec fn spec_refkind_of_heap(h: HeapType) -> RefKind {
    match h {
        HeapType::Func | HeapType::NoFunc | HeapType::ConcreteFunc(_) => RefKind::Func,
        HeapType::Extern | HeapType::NoExtern => RefKind::Extern,
        HeapType::Exn | HeapType::NoExn => RefKind::Exn,
        _ => RefKind::Any,
    }
}

pub fn refkind_of_heap(h: &HeapType) -> (k: RefKind)
    ensures
        k == spec_refkind_of_heap(*h),
{
    match h {
        HeapType::Func | HeapType::NoFunc | HeapType::ConcreteFunc(_) => RefKind::Func,
        HeapType::Extern | HeapType::NoExtern => RefKind::Extern,
        HeapType::Exn | HeapType::NoExn => RefKind::Exn,
        _ => RefKind::Any,
    }
}

/// The reference hierarchy of a module-IR heap type.
pub open spec fn spec_refkind_of_irheap(h: IrHeap) -> RefKind {
    match h {
        IrHeap::Func | IrHeap::NoFunc | IrHeap::Concrete(_, AggKind::Func) => RefKind::Func,
        IrHeap::Extern | IrHeap::NoExtern => RefKind::Extern,
        IrHeap::Exn | IrHeap::NoExn => RefKind::Exn,
        _ => RefKind::Any,
    }
}

pub fn refkind_of_irheap(h: &IrHeap) -> (k: RefKind)
    ensures
        k == spec_refkind_of_irheap(*h),
{
    match h {
        IrHeap::Func | IrHeap::NoFunc | IrHeap::Concrete(_, AggKind::Func) => RefKind::Func,
        IrHeap::Extern | IrHeap::NoExtern => RefKind::Extern,
        IrHeap::Exn | IrHeap::NoExn => RefKind::Exn,
        _ => RefKind::Any,
    }
}

// --- the value codec ---

/// The stored handle of an optional reference.
pub open spec fn handle_of(r: Option<u32>) -> u32 {
    match r {
        Some(h) => h,
        None => NULL_REF,
    }
}

/// The optional reference a stored handle denotes.
pub open spec fn ref_of(h: u32) -> Option<u32> {
    if h == NULL_REF { None } else { Some(h) }
}

/// The slot kind a value is written through (offset zero).
pub open spec fn spec_slot_for_val(v: Val) -> Slot {
    match v {
        Val::I32(_) => Slot::Scalar { offset: 0, kind: ScalarKind::I32 },
        Val::I64(_) => Slot::Scalar { offset: 0, kind: ScalarKind::I64 },
        Val::F32(_) => Slot::Scalar { offset: 0, kind: ScalarKind::F32 },
        Val::F64(_) => Slot::Scalar { offset: 0, kind: ScalarKind::F64 },
        Val::V128(_) => Slot::Scalar { offset: 0, kind: ScalarKind::V128 },
        Val::FuncRef(_) => Slot::Ref { offset: 0, kind: RefKind::Func },
        Val::ExternRef(_) => Slot::Ref { offset: 0, kind: RefKind::Extern },
        Val::AnyRef(_) => Slot::Ref { offset: 0, kind: RefKind::Any },
        Val::ExnRef(_) => Slot::Ref { offset: 0, kind: RefKind::Exn },
    }
}

/// The slot kind a value of a type is read through (offset zero).
pub open spec fn spec_slot_for_valtype(t: ValType) -> Slot {
    match t {
        ValType::I32 => Slot::Scalar { offset: 0, kind: ScalarKind::I32 },
        ValType::I64 => Slot::Scalar { offset: 0, kind: ScalarKind::I64 },
        ValType::F32 => Slot::Scalar { offset: 0, kind: ScalarKind::F32 },
        ValType::F64 => Slot::Scalar { offset: 0, kind: ScalarKind::F64 },
        ValType::V128 => Slot::Scalar { offset: 0, kind: ScalarKind::V128 },
        ValType::Ref(rt) => Slot::Ref { offset: 0, kind: spec_refkind_of_heap(rt.heap) },
    }
}

pub fn slot_for_val(v: &Val) -> (s: Slot)
    ensures
        s == spec_slot_for_val(*v),
{
    match v {
        Val::I32(_) => Slot::Scalar { offset: 0, kind: ScalarKind::I32 },
        Val::I64(_) => Slot::Scalar { offset: 0, kind: ScalarKind::I64 },
        Val::F32(_) => Slot::Scalar { offset: 0, kind: ScalarKind::F32 },
        Val::F64(_) => Slot::Scalar { offset: 0, kind: ScalarKind::F64 },
        Val::V128(_) => Slot::Scalar { offset: 0, kind: ScalarKind::V128 },
        Val::FuncRef(_) => Slot::Ref { offset: 0, kind: RefKind::Func },
        Val::ExternRef(_) => Slot::Ref { offset: 0, kind: RefKind::Extern },
        Val::AnyRef(_) => Slot::Ref { offset: 0, kind: RefKind::Any },
        Val::ExnRef(_) => Slot::Ref { offset: 0, kind: RefKind::Exn },
    }
}

pub fn slot_for_valtype(t: &ValType) -> (s: Slot)
    ensures
        s == spec_slot_for_valtype(*t),
{
    match t {
        ValType::I32 => Slot::Scalar { offset: 0, kind: ScalarKind::I32 },
        ValType::I64 => Slot::Scalar { offset: 0, kind: ScalarKind::I64 },
        ValType::F32 => Slot::Scalar { offset: 0, kind: ScalarKind::F32 },
        ValType::F64 => Slot::Scalar { offset: 0, kind: ScalarKind::F64 },
        ValType::V128 => Slot::Scalar { offset: 0, kind: ScalarKind::V128 },
        ValType::Ref(rt) => Slot::Ref { offset: 0, kind: refkind_of_heap(&rt.heap) },
    }
}

/// The cell a value encodes to: integers as their two's-complement bits, floats as their IEEE
/// bits, references as their handle (null as [`NULL_REF`]).
pub open spec fn spec_encode(v: Val) -> Cell {
    match v {
        Val::I32(x) => Cell(x as u32 as u128),
        Val::I64(x) => Cell(x as u64 as u128),
        Val::F32(b) => Cell(b as u128),
        Val::F64(b) => Cell(b as u128),
        Val::V128(b) => Cell(b),
        Val::FuncRef(r) => Cell(handle_of(r) as u128),
        Val::ExternRef(r) => Cell(handle_of(r) as u128),
        Val::AnyRef(r) => Cell(handle_of(r) as u128),
        Val::ExnRef(r) => Cell(handle_of(r) as u128),
    }
}

/// The value a cell holds, read through a slot kind.
pub open spec fn spec_read_cell(s: Slot, c: Cell) -> Val {
    match s {
        Slot::Scalar { kind, .. } => match kind {
            ScalarKind::I8 | ScalarKind::I16 | ScalarKind::I32 => Val::I32(low32(c) as i32),
            ScalarKind::I64 => Val::I64(low64(c) as i64),
            ScalarKind::F32 => Val::F32(low32(c)),
            ScalarKind::F64 => Val::F64(low64(c)),
            ScalarKind::V128 => Val::V128(c.0),
        },
        Slot::Ref { kind, .. } => match kind {
            RefKind::Func => Val::FuncRef(ref_of(low32(c))),
            RefKind::Extern => Val::ExternRef(ref_of(low32(c))),
            RefKind::Any => Val::AnyRef(ref_of(low32(c))),
            RefKind::Exn => Val::ExnRef(ref_of(low32(c))),
        },
    }
}

/// The value a cell holds, given the value's static type.
pub open spec fn spec_decode(c: Cell, t: ValType) -> Val {
    spec_read_cell(spec_slot_for_valtype(t), c)
}

fn ref_handle(r: Option<u32>) -> (h: u32)
    ensures
        h == handle_of(r),
{
    match r {
        Some(h) => h,
        None => NULL_REF,
    }
}

fn handle_ref(h: u32) -> (r: Option<u32>)
    ensures
        r == ref_of(h),
{
    if h == NULL_REF { None } else { Some(h) }
}

/// Encodes a value into a fresh cell.
pub fn encode(v: Val) -> (c: Cell)
    ensures
        c == spec_encode(v),
{
    match v {
        Val::I32(x) => Cell(x as u32 as u128),
        Val::I64(x) => Cell(x as u64 as u128),
        Val::F32(b) => Cell(b as u128),
        Val::F64(b) => Cell(b as u128),
        Val::V128(b) => Cell(b),
        Val::FuncRef(r) => Cell(ref_handle(r) as u128),
        Val::ExternRef(r) => Cell(ref_handle(r) as u128),
        Val::AnyRef(r) => Cell(ref_handle(r) as u128),
        Val::ExnRef(r) => Cell(ref_handle(r) as u128),
    }
}

/// Reads a cell through a slot kind.
pub fn read_cell(s: Slot, c: Cell) -> (v: Val)
    ensures
        v == spec_read_cell(s, c),
{
    match s {
        Slot::Scalar { kind, .. } => match kind {
            ScalarKind::I8 | ScalarKind::I16 | ScalarKind::I32 => Val::I32(c.low32() as i32),
            ScalarKind::I64 => Val::I64(c.low64() as i64),
            ScalarKind::F32 => Val::F32(c.low32()),
            ScalarKind::F64 => Val::F64(c.low64()),
            ScalarKind::V128 => Val::V128(c.0),
        },
        Slot::Ref { kind, .. } => match kind {
            RefKind::Func => Val::FuncRef(handle_ref(c.low32())),
            RefKind::Extern => Val::ExternRef(handle_ref(c.low32())),
            RefKind::Any => Val::AnyRef(handle_ref(c.low32())),
            RefKind::Exn => Val::ExnRef(handle_ref(c.low32())),
        },
    }
}

/// Decodes a cell given the value's static type.
pub fn decode(c: Cell, t: &ValType) -> (v: Val)
    ensures
        v == spec_decode(c, *t),
{
    read_cell(slot_for_valtype(t), c)
}

/// Whether value `v` has type `t` (references by hierarchy).
pub open spec fn val_has_type(v: Val, t: ValType) -> bool {
    match (v, t) {
        (Val::I32(_), ValType::I32) => true,
        (Val::I64(_), ValType::I64) => true,
        (Val::F32(_), ValType::F32) => true,
        (Val::F64(_), ValType::F64) => true,
        (Val::V128(_), ValType::V128) => true,
        (Val::FuncRef(_), ValType::Ref(rt)) => spec_refkind_of_heap(rt.heap) == RefKind::Func,
        (Val::ExternRef(_), ValType::Ref(rt)) => spec_refkind_of_heap(rt.heap) == RefKind::Extern,
        (Val::AnyRef(_), ValType::Ref(rt)) => spec_refkind_of_heap(rt.heap) == RefKind::Any,
        (Val::ExnRef(_), ValType::Ref(rt)) => spec_refkind_of_heap(rt.heap) == RefKind::Exn,
        _ => false,
    }
}

/// Whether a value's reference handle (if any) is not the reserved null handle.
pub open spec fn handle_ok(v: Val) -> bool {
    match v {
        Val::FuncRef(Some(h)) | Val::ExternRef(Some(h)) | Val::AnyRef(Some(h)) | Val::ExnRef(Some(h)) => h != NULL_REF,
        _ => true,
    }
}

/// Decoding a value's encoding at its own type gives the value back (for every value whose
/// handle is not the reserved null handle).
pub proof fn lemma_cell_round_trip(v: Val, t: ValType)
    requires
        val_has_type(v, t),
        handle_ok(v),
    ensures
        spec_decode(spec_encode(v), t) == v,
{
    match v {
        Val::I32(x) => {
            assert(((x as u32 as u128) % 0x1_0000_0000) as u32 as i32 == x) by (bit_vector);
        },
        Val::I64(x) => {
            assert(((x as u64 as u128) % 0x1_0000_0000_0000_0000) as u64 as i64 == x) by (bit_vector);
        },
        Val::F32(b) => {},
        Val::F64(b) => {},
        Val::V128(b) => {},
        Val::FuncRef(r) | Val::ExternRef(r) | Val::AnyRef(r) | Val::ExnRef(r) => {},
    }
}

} // verus!
