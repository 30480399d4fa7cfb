//! Engine-canonical GC type identity: the module-relative type IR, and (in [`registry`]) the
//! engine registry that hash-conses rec groups into canonical type ids.
use vstd::prelude::*;
use crate::value::{Finality, HeapType, RefType, ValType, Mutability};

pub mod intern;
pub mod keys;
pub mod layout;
pub mod registry;
pub mod pins;

verus! {

/// An engine-canonical type id: an index into the registry's per-type arena. Distinct from a
/// module-relative type index.
#[derive(Copy, Clone, PartialEq, Eq, Structural, Hash, Debug)]
pub struct CanonicalTypeId(pub u32);

/// An interned rec-group id: an index into the registry's per-group arena.
#[derive(Copy, Clone, PartialEq, Eq, Structural, Hash, Debug)]
pub struct GroupId(pub u32);

impl CanonicalTypeId {
    pub fn new(raw: u32) -> (id: CanonicalTypeId)
        ensures
            id.0 == raw,
    {
        CanonicalTypeId(raw)
    }

    pub fn index(self) -> (i: usize)
        ensures
            i == self.0,
    {
        self.0 as usize
    }
}

impl GroupId {
    pub fn new(raw: u32) -> (id: GroupId)
        ensures
            id.0 == raw,
    {
        GroupId(raw)
    }

    pub fn index(self) -> (i: usize)
        ensures
            i == self.0,
    {
        self.0 as usize
    }
}

/// Which of the three GC hierarchies a defined type belongs to.
#[derive(Copy, Clone, PartialEq, Eq, Structural, Hash, Debug)]
pub enum AggKind {
    Func,
    Struct,
    Array,
}

/// A heap type in the module IR (a concrete reference is a type index plus its kind).
#[derive(Copy, Clone, PartialEq, Eq, Structural, Hash, Debug)]
pub enum IrHeap {
    Func,
    NoFunc,
    Extern,
    NoExtern,
    Any,
    Eq,
    I31,
    Struct,
    Array,
    Exn,
    NoExn,
    NoneType,
    Concrete(u32, AggKind),
}

/// A value type in the module IR.
#[derive(Copy, Clone, PartialEq, Eq, Structural, Hash, Debug)]
pub enum IrVal {
    I32,
    I64,
    F32,
    F64,
    V128,
    Ref { nullable: bool, heap: IrHeap },
}

/// A storage type (struct field / array element) in the module IR.
#[derive(Copy, Clone, PartialEq, Eq, Structural, Hash, Debug)]
pub enum IrStorage {
    I8,
    I16,
    Val(IrVal),
}

/// A struct field / array element in the module IR.
#[derive(Copy, Clone, PartialEq, Eq, Structural, Hash, Debug)]
pub struct IrField {
    pub mutable: bool,
    pub storage: IrStorage,
}

/// A composite type body in the module IR.
#[derive(Clone, Debug)]
pub enum CompositeBody {
    Func { params: Vec<IrVal>, results: Vec<IrVal> },
    Struct(Vec<IrField>),
    Array(IrField),
}

/// One module-relative type definition (a rec-group member).
#[derive(Clone, Debug)]
pub struct ModuleType {
    /// Module-local rec-group id; members of one rec group share it and are contiguous.
    pub group: u32,
    pub finality: Finality,
    /// Module-relative type index of the declared supertype, if any.
    pub supertype: Option<u32>,
    pub body: CompositeBody,
}

/// A reference type in the module IR.
#[derive(Copy, Clone, PartialEq, Eq, Structural, Hash, Debug)]
pub struct IrRef {
    pub nullable: bool,
    pub heap: IrHeap,
}

/// A table type in the module IR.
#[derive(Copy, Clone, PartialEq, Eq, Structural, Debug)]
pub struct IrTableType {
    pub element: IrRef,
    pub min: u32,
    pub max: Option<u32>,
}

/// A global type in the module IR.
#[derive(Copy, Clone, PartialEq, Eq, Structural, Debug)]
pub struct IrGlobalType {
    pub content: IrVal,
    pub mutable: bool,
}

/// A table type at the embedder boundary.
#[derive(Copy, Clone, PartialEq, Eq, Structural, Debug)]
pub struct TableType {
    pub element: RefType,
    pub min: u32,
    pub max: Option<u32>,
}

/// A global type at the embedder boundary.
#[derive(Copy, Clone, PartialEq, Eq, Structural, Debug)]
pub struct GlobalType {
    pub content: ValType,
    pub mutability: Mutability,
}

pub open spec fn body_kind_of(b: CompositeBody) -> AggKind {
    match b {
        CompositeBody::Func { .. } => AggKind::Func,
        CompositeBody::Struct(_) => AggKind::Struct,
        CompositeBody::Array(_) => AggKind::Array,
    }
}

impl ModuleType {
    /// The hierarchy of this definition.
    pub fn kind(&self) -> (k: AggKind)
        ensures
            k == body_kind_of(self.body),
    {
        match self.body {
            CompositeBody::Func { .. } => AggKind::Func,
            CompositeBody::Struct(_) => AggKind::Struct,
            CompositeBody::Array(_) => AggKind::Array,
        }
    }

    /// The (params, results) of a function type.
    pub fn func_sig(&self) -> (r: (&[IrVal], &[IrVal]))
        requires
            self.body is Func,
        ensures
            r.0@ == self.body->params@,
            r.1@ == self.body->results@,
    {
        match &self.body {
            CompositeBody::Func { params, results } => (params.as_slice(), results.as_slice()),
            CompositeBody::Struct(_) => (&[], &[]),
            CompositeBody::Array(_) => (&[], &[]),
        }
    }
}

// --- IR → public boundary materialization ---

/// Whether every concrete reference of a heap type names an index of `type_ids`.
pub open spec fn heap_in_range(h: IrHeap, n: nat) -> bool {
    match h {
        IrHeap::Concrete(idx, _) => idx < n,
        _ => true,
    }
}

pub open spec fn val_in_range(v: IrVal, n: nat) -> bool {
    match v {
        IrVal::Ref { heap, .. } => heap_in_range(heap, n),
        _ => true,
    }
}

/// The public heap type of an IR heap type, concrete indices mapped through `type_ids`.
pub open spec fn spec_materialize_heap(type_ids: Seq<CanonicalTypeId>, h: IrHeap) -> HeapType {
    match h {
        IrHeap::Func => HeapType::Func,
        IrHeap::NoFunc => HeapType::NoFunc,
        IrHeap::Extern => HeapType::Extern,
        IrHeap::NoExtern => HeapType::NoExtern,
        IrHeap::Any => HeapType::Any,
        IrHeap::Eq => HeapType::Eq,
        IrHeap::I31 => HeapType::I31,
        IrHeap::Struct => HeapType::Struct,
        IrHeap::Array => HeapType::Array,
        IrHeap::Exn => HeapType::Exn,
        IrHeap::NoExn => HeapType::NoExn,
        IrHeap::NoneType => HeapType::NoneType,
        IrHeap::Concrete(idx, kind) => match kind {
            AggKind::Func => HeapType::ConcreteFunc(type_ids[idx as int]),
            AggKind::Struct => HeapType::ConcreteStruct(type_ids[idx as int]),
            AggKind::Array => HeapType::ConcreteArray(type_ids[idx as int]),
        },
    }
}

pub open spec fn spec_materialize_val(type_ids: Seq<CanonicalTypeId>, v: IrVal) -> ValType {
    match v {
        IrVal::I32 => ValType::I32,
        IrVal::I64 => ValType::I64,
        IrVal::F32 => ValType::F32,
        IrVal::F64 => ValType::F64,
        IrVal::V128 => ValType::V128,
        IrVal::Ref { nullable, heap } => ValType::Ref(RefType { nullable, heap: spec_materialize_heap(type_ids, heap) }),
    }
}

/// Materializes an IR heap type, mapping module-relative indices to canonical ids.
pub fn materialize_heap(type_ids: &[CanonicalTypeId], h: &IrHeap) -> (r: HeapType)
    requires
        heap_in_range(*h, type_ids@.len()),
    ensures
        r == spec_materialize_heap(type_ids@, *h),
{
    match h {
        IrHeap::Func => HeapType::Func,
        IrHeap::NoFunc => HeapType::NoFunc,
        IrHeap::Extern => HeapType::Extern,
        IrHeap::NoExtern => HeapType::NoExtern,
        IrHeap::Any => HeapType::Any,
        IrHeap::Eq => HeapType::Eq,
        IrHeap::I31 => HeapType::I31,
        IrHeap::Struct => HeapType::Struct,
        IrHeap::Array => HeapType::Array,
        IrHeap::Exn => HeapType::Exn,
        IrHeap::NoExn => HeapType::NoExn,
        IrHeap::NoneType => HeapType::NoneType,
        IrHeap::Concrete(idx, kind) => {
            let id = type_ids[*idx as usize];
            match kind {
                AggKind::Func => HeapType::ConcreteFunc(id),
                AggKind::Struct => HeapType::ConcreteStruct(id),
                AggKind::Array => HeapType::ConcreteArray(id),
            }
        },
    }
}

/// Materializes an IR value type.
pub fn materialize_val(type_ids: &[CanonicalTypeId], v: &IrVal) -> (r: ValType)
    requires
        val_in_range(*v, type_ids@.len()),
    ensures
        r == spec_materialize_val(type_ids@, *v),
{
    match v {
        IrVal::I32 => ValType::I32,
        IrVal::I64 => ValType::I64,
        IrVal::F32 => ValType::F32,
        IrVal::F64 => ValType::F64,
        IrVal::V128 => ValType::V128,
        IrVal::Ref { nullable, heap } => ValType::Ref(RefType::new(*nullable, materialize_heap(type_ids, heap))),
    }
}

/// Materializes an IR reference type.
pub fn materialize_ref(type_ids: &[CanonicalTypeId], r: &IrRef) -> (t: RefType)
    requires
        heap_in_range(r.heap, type_ids@.len()),
    ensures
        t == (RefType { nullable: r.nullable, heap: spec_materialize_heap(type_ids@, r.heap) }),
{
    RefType::new(r.nullable, materialize_heap(type_ids, &r.heap))
}

/// Materializes an IR global type.
pub fn materialize_global(type_ids: &[CanonicalTypeId], g: &IrGlobalType) -> (t: GlobalType)
    requires
        val_in_range(g.content, type_ids@.len()),
    ensures
        t.content == spec_materialize_val(type_ids@, g.content),
        t.mutability == (if g.mutable { Mutability::Var } else { Mutability::Const }),
{
    let mutability = if g.mutable { Mutability::Var } else { Mutability::Const };
    GlobalType { content: materialize_val(type_ids, &g.content), mutability }
}

/// Materializes an IR table type.
pub fn materialize_table(type_ids: &[CanonicalTypeId], t: &IrTableType) -> (r: TableType)
    requires
        heap_in_range(t.element.heap, type_ids@.len()),
    ensures
        r.element == (RefType { nullable: t.element.nullable, heap: spec_materialize_heap(type_ids@, t.element.heap) }),
        r.min == t.min,
        r.max == t.max,
{
    TableType { element: materialize_ref(type_ids, &t.element), min: t.min, max: t.max }
}

} // verus!
